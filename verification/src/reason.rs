//! Why a verdict is what it is: stable reason codes, and what an escalation
//! points at.

use vstd::prelude::*;
use crate::ids::{CapabilityId, CrateId, RequirementId, RiskFlagId, RuleId};
use crate::location::{location_text, Location};
use crate::text::{decimal, push_char, push_str, push_u64};

verus! {

/// A stable, groupable reason for an escalation. The wire strings are a
/// public interface.
#[derive(Clone, Copy, PartialEq, Eq, Structural, PartialOrd, Ord, Hash, Debug)]
pub enum ReasonCode {
    /// A policy rule demanded at least this tier.
    RuleTierAtLeast,
    /// A changed path matched no rule at all.
    UnmatchedPath,
    /// A crate exists at head but no merge-base rule covers it.
    CrateUncoveredAtMergeBase,
    /// A required capability could not be answered.
    CapabilityUnverified,
    /// A required capability was answered, and the answer was "no".
    CapabilityViolated,
    /// A capability was declared not-applicable by a policy waiver.
    DeclaredSkip,
    /// A policy waiver has passed its expiry date.
    ExpiredSkip,
    /// Answering a required capability would exceed the cost budget.
    BudgetExceeded,
    /// One or more changed source files could not be parsed.
    ClassificationDegraded,
    /// The workspace layout could not be determined.
    WorkspaceUnavailable,
    /// The pull request modifies its own gates.
    GateIntegrity,
    /// Evidence was produced by a workflow this pull request modifies.
    GatesModified,
    /// An adopted artifact could not be proven to come from this head commit.
    AdoptionStale,
    /// Policy references a risk flag this build cannot evaluate.
    UnknownRiskFlag,
    /// Policy references a capability this build does not implement.
    UnknownCapability,
    /// Policy references a parser this build does not implement.
    UnknownParser,
    /// Policy contains a key this build does not recognize.
    UnknownPolicyKey,
    /// The policy document declares a newer schema than this build knows.
    PolicyTooNew,
    /// The policy document requires a newer binary than this one.
    BinaryTooOld,
    /// The merge base could not be resolved.
    MergeBaseUnavailable,
    /// vibe-check panicked.
    InternalPanic,
}

/// The stable wire string of a reason code.
pub open spec fn reason_wire(c: ReasonCode) -> Seq<char> {
    match c {
        ReasonCode::RuleTierAtLeast => "rule-tier-at-least"@,
        ReasonCode::UnmatchedPath => "unmatched-path"@,
        ReasonCode::CrateUncoveredAtMergeBase => "crate-uncovered-at-merge-base"@,
        ReasonCode::CapabilityUnverified => "capability-unverified"@,
        ReasonCode::CapabilityViolated => "capability-violated"@,
        ReasonCode::DeclaredSkip => "declared-skip"@,
        ReasonCode::ExpiredSkip => "expired-skip"@,
        ReasonCode::BudgetExceeded => "budget-exceeded"@,
        ReasonCode::ClassificationDegraded => "classification-degraded"@,
        ReasonCode::WorkspaceUnavailable => "workspace-unavailable"@,
        ReasonCode::GateIntegrity => "gate-integrity"@,
        ReasonCode::GatesModified => "gates-modified"@,
        ReasonCode::AdoptionStale => "adoption-stale"@,
        ReasonCode::UnknownRiskFlag => "unknown-risk-flag"@,
        ReasonCode::UnknownCapability => "unknown-capability"@,
        ReasonCode::UnknownParser => "unknown-parser"@,
        ReasonCode::UnknownPolicyKey => "unknown-policy-key"@,
        ReasonCode::PolicyTooNew => "policy-too-new"@,
        ReasonCode::BinaryTooOld => "binary-too-old"@,
        ReasonCode::MergeBaseUnavailable => "merge-base-unavailable"@,
        ReasonCode::InternalPanic => "internal-panic"@,
    }
}

impl ReasonCode {
    /// The stable wire string for this code.
    pub fn as_str(self) -> (s: &'static str)
        ensures
            s@ == reason_wire(self),
    {
        match self {
            ReasonCode::RuleTierAtLeast => "rule-tier-at-least",
            ReasonCode::UnmatchedPath => "unmatched-path",
            ReasonCode::CrateUncoveredAtMergeBase => "crate-uncovered-at-merge-base",
            ReasonCode::CapabilityUnverified => "capability-unverified",
            ReasonCode::CapabilityViolated => "capability-violated",
            ReasonCode::DeclaredSkip => "declared-skip",
            ReasonCode::ExpiredSkip => "expired-skip",
            ReasonCode::BudgetExceeded => "budget-exceeded",
            ReasonCode::ClassificationDegraded => "classification-degraded",
            ReasonCode::WorkspaceUnavailable => "workspace-unavailable",
            ReasonCode::GateIntegrity => "gate-integrity",
            ReasonCode::GatesModified => "gates-modified",
            ReasonCode::AdoptionStale => "adoption-stale",
            ReasonCode::UnknownRiskFlag => "unknown-risk-flag",
            ReasonCode::UnknownCapability => "unknown-capability",
            ReasonCode::UnknownParser => "unknown-parser",
            ReasonCode::UnknownPolicyKey => "unknown-policy-key",
            ReasonCode::PolicyTooNew => "policy-too-new",
            ReasonCode::BinaryTooOld => "binary-too-old",
            ReasonCode::MergeBaseUnavailable => "merge-base-unavailable",
            ReasonCode::InternalPanic => "internal-panic",
        }
    }
}

/// A pointer into the policy document, rendered `path#kind:id@blob:hash`.
#[derive(Clone, PartialEq, Eq, PartialOrd, Ord, Hash, Debug)]
pub struct PolicyRef {
    /// Path to the policy document, repository-relative.
    pub path: String,
    /// The kind of entry, e.g. `rule`, `skip`.
    pub kind: String,
    /// The entry's unique identifier.
    pub id: String,
    /// Git blob hash of the policy document that was evaluated.
    pub blob_sha: Option<String>,
}

/// The rendering of a policy reference.
pub open spec fn policy_ref_text(p: PolicyRef) -> Seq<char> {
    let head = p.path@ + seq!['#'] + p.kind@ + seq![':'] + p.id@;
    match p.blob_sha {
        Some(sha) => head + "@blob:"@ + sha@,
        None => head,
    }
}

impl PolicyRef {
    /// The traceable rendering `path#kind:id`, with `@blob:hash` when known.
    pub fn to_string(&self) -> (s: String)
        ensures
            s@ == policy_ref_text(*self),
    {
        let mut s = String::new();
        push_str(&mut s, self.path.as_str());
        push_char(&mut s, '#');
        push_str(&mut s, self.kind.as_str());
        push_char(&mut s, ':');
        push_str(&mut s, self.id.as_str());
        match &self.blob_sha {
            Some(sha) => {
                push_str(&mut s, "@blob:");
                push_str(&mut s, sha.as_str());
            },
            None => {},
        }
        proof {
            assert(Seq::<char>::empty() + self.path@ =~= self.path@);
        }
        s
    }
}

/// What an escalation points at.
#[derive(Clone, PartialEq, Eq, Debug)]
#[non_exhaustive]
pub enum EvidenceRef {
    /// An entry in the policy document.
    Policy(PolicyRef),
    /// A requirement that was resolved, or failed to resolve.
    Requirement(RequirementId),
    /// A capability, when no specific requirement applies.
    Capability(CapabilityId),
    /// A risk flag, with where it was found.
    Flag {
        /// The flag.
        flag: RiskFlagId,
        /// Where it was found; may be empty.
        locations: Vec<Location>,
    },
    /// A crate or pseudo-crate.
    Crate(CrateId),
    /// A rule in the policy matrix.
    Rule(RuleId),
    /// A path in the repository.
    Path(String),
    /// Nothing more specific: the reason code carries the whole story.
    Unattributed,
}

/// The rendering of what an escalation points at.
pub open spec fn evidence_ref_text(e: EvidenceRef) -> Seq<char> {
    match e {
        EvidenceRef::Policy(p) => policy_ref_text(p),
        EvidenceRef::Requirement(r) => "requirement:"@ + r@,
        EvidenceRef::Capability(c) => "capability:"@ + c@,
        EvidenceRef::Flag { flag, locations } => {
            let head = "flag:"@ + flag@;
            if locations@.len() == 0 {
                head
            } else if locations@.len() == 1 {
                head + " @ "@ + location_text(locations@[0])
            } else {
                head + " @ "@ + location_text(locations@[0]) + " (+"@ + decimal(
                    (locations@.len() - 1) as nat,
                ) + " more)"@
            }
        },
        EvidenceRef::Crate(c) => "crate:"@ + c@,
        EvidenceRef::Rule(r) => "rule:"@ + r@,
        EvidenceRef::Path(p) => "path:"@ + p@,
        EvidenceRef::Unattributed => "-"@,
    }
}

impl EvidenceRef {
    /// The rendering: `requirement:<id>`, `flag:<flag> @ <first> (+n more)`,
    /// `-` for nothing, and so on.
    pub fn to_string(&self) -> (s: String)
        ensures
            s@ == evidence_ref_text(*self),
    {
        let mut s = String::new();
        match self {
            EvidenceRef::Policy(p) => {
                s = p.to_string();
            },
            EvidenceRef::Requirement(r) => {
                push_str(&mut s, "requirement:");
                push_str(&mut s, r.as_str());
            },
            EvidenceRef::Capability(c) => {
                push_str(&mut s, "capability:");
                push_str(&mut s, c.as_str());
            },
            EvidenceRef::Flag { flag, locations } => {
                push_str(&mut s, "flag:");
                push_str(&mut s, flag.as_str());
                if locations.len() > 0 {
                    push_str(&mut s, " @ ");
                    let first = locations[0].to_string();
                    push_str(&mut s, first.as_str());
                    let extra = locations.len() - 1;
                    if extra > 0 {
                        push_str(&mut s, " (+");
                        push_u64(&mut s, extra as u64);
                        push_str(&mut s, " more)");
                    }
                }
            },
            EvidenceRef::Crate(c) => {
                push_str(&mut s, "crate:");
                push_str(&mut s, c.as_str());
            },
            EvidenceRef::Rule(r) => {
                push_str(&mut s, "rule:");
                push_str(&mut s, r.as_str());
            },
            EvidenceRef::Path(p) => {
                push_str(&mut s, "path:");
                push_str(&mut s, p.as_str());
            },
            EvidenceRef::Unattributed => {
                push_str(&mut s, "-");
            },
        }
        s
    }
}

} // verus!
