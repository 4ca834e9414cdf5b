//! How a required capability turned out, and the one place that turns an
//! outcome into escalations.
//!
//! [`CapabilityResolution`] says how the question was answered (adopted,
//! run, skipped, unverified); [`Judgement`] says what the answer was.
//! Accounting applies the fail-closed rules without exception: an unverified
//! capability escalates to the top, a live human waiver to `T1`, an expired
//! waiver to the top, a declaration never satisfies, and a fact about the
//! policy is never advisory. [`Resolutions`] walks requirements in ascending
//! identifier order and has no other mode, so both ledgers are a function of
//! which requirements resolved and how, never of completion order.

use vstd::prelude::*;
use crate::adjudicate::accumulator::{Adjudicator, Escalation};
use crate::adjudicate::enforcement::{Adjudicators, Enforcement};
use crate::evidence::Evidence;
use crate::ids::{CapabilityId, ParserId, RequirementId};
use crate::reason::{policy_ref_text, EvidenceRef, PolicyRef, ReasonCode};
use crate::text::{decimal, join_text, push_joined, push_str, push_u64, seq_lt, str_eq, str_lt, string_of, views,
    lemma_lt_asymmetric, lemma_lt_irreflexive, lemma_lt_transitive, lemma_lt_total};
use crate::tier::{spec_join, Tier};
use crate::time::{date_after, date_text, days_from_civil, law_date_after_is_the_order_of_days, CivilDate, DecisionTime};

verus! {

/// What the evidence says.
#[derive(Clone, PartialEq, Eq, Debug)]
#[non_exhaustive]
pub enum Judgement {
    /// The capability's question is answered "yes".
    Satisfied,
    /// The question is answered "no".
    Violated {
        /// What went wrong, in a sentence.
        detail: String,
    },
    /// The evidence does not answer the question either way; treated as
    /// unverified, never as a pass.
    Inconclusive {
        /// Why no conclusion could be drawn.
        reason: String,
    },
}

impl Judgement {
    /// Whether this judgement can support the capability being satisfied.
    pub fn is_satisfied(&self) -> (r: bool)
        ensures
            r == (*self is Satisfied),
    {
        match self {
            Judgement::Satisfied => true,
            _ => false,
        }
    }
}

/// Why a capability was not evaluated, in a way that is acceptable.
#[derive(Clone, PartialEq, Eq, Debug)]
#[non_exhaustive]
pub enum SkipReason {
    /// The engine determined the capability does not apply. Free.
    Derived {
        /// What was observed, for the record.
        detail: String,
    },
    /// A policy waiver declares the capability not applicable: `T1` while
    /// live, the top once expired.
    Declared {
        /// The policy entry that granted it.
        policy_ref: PolicyRef,
        /// Why it was granted.
        reason: String,
        /// Who owns it.
        owner: String,
        /// The last day it is live: expired only when the decision date is
        /// strictly later.
        expires: CivilDate,
    },
}

impl SkipReason {
    /// Whether this skip was a human decision rather than an engine
    /// deduction.
    pub fn is_declared(&self) -> (r: bool)
        ensures
            r == (*self is Declared),
    {
        match self {
            SkipReason::Declared { .. } => true,
            _ => false,
        }
    }
}

/// Why a capability could not be answered. Every variant escalates.
#[derive(Clone, PartialEq, Eq, Debug)]
#[non_exhaustive]
pub enum UnverifiedReason {
    /// An artifact was found but could not be parsed.
    Unparseable {
        /// The parser that was tried.
        parser: ParserId,
        /// What went wrong.
        detail: String,
    },
    /// A check reported success but produced no machine-readable artifact.
    NoArtifact {
        /// What was found instead.
        detail: String,
    },
    /// Evidence that should have been produced never arrived.
    MissingEvidence,
    /// An artifact could not be tied to this head commit.
    StaleArtifact {
        /// The commit the artifact claims.
        produced_from: String,
        /// The commit we needed.
        expected: String,
    },
    /// Evidence came from a workflow this pull request modifies.
    GatesModified {
        /// Which gate paths the change touches.
        paths: Vec<String>,
    },
    /// Answering would exceed the configured cost budget.
    BudgetExceeded {
        /// The capability's declared cost class.
        cost: String,
        /// The configured ceiling.
        max: String,
    },
    /// The evidence did not answer the question.
    Inconclusive {
        /// Why not.
        reason: String,
    },
    /// The tool could not be run.
    ExecutionFailed {
        /// What went wrong.
        detail: String,
    },
    /// No plan could be produced for this capability.
    PlanFailed {
        /// What went wrong.
        detail: String,
    },
    /// Policy names a capability this build does not implement.
    UnknownCapability {
        /// The name policy used.
        id: String,
    },
    /// Policy names a parser this build does not implement.
    UnknownParser {
        /// The name policy used.
        id: String,
    },
    /// Adoption needs a forge and there is none.
    NoForge,
    /// The artifact declares a schema newer than this build supports.
    SchemaTooNew {
        /// What it declared.
        found: u32,
        /// What we support.
        supported: u32,
    },
    /// The artifact exceeded a size limit.
    Oversized {
        /// What the limit was and what was seen.
        detail: String,
    },
}

/// The reason code an unverified reason escalates with.
pub open spec fn unverified_code(r: UnverifiedReason) -> ReasonCode {
    match r {
        UnverifiedReason::UnknownCapability { .. } => ReasonCode::UnknownCapability,
        UnverifiedReason::UnknownParser { .. } => ReasonCode::UnknownParser,
        UnverifiedReason::BudgetExceeded { .. } => ReasonCode::BudgetExceeded,
        UnverifiedReason::GatesModified { .. } => ReasonCode::GatesModified,
        UnverifiedReason::StaleArtifact { .. } => ReasonCode::AdoptionStale,
        _ => ReasonCode::CapabilityUnverified,
    }
}

/// Whether an unverified reason is a fact about the policy rather than
/// about the code: only an unknown capability or parser.
pub open spec fn reason_is_policy_integrity(r: UnverifiedReason) -> bool {
    r is UnknownCapability || r is UnknownParser
}

/// The position `x` takes in the sorted `s`: before the first element that
/// sorts strictly after it, so equal elements keep their order.
pub open spec fn first_after(s: Seq<Seq<char>>, x: Seq<char>, from: int) -> int
    decreases s.len() - from,
{
    if from < 0 || from >= s.len() {
        s.len() as int
    } else if seq_lt(x, s[from]) {
        from
    } else {
        first_after(s, x, from + 1)
    }
}

/// `s` with `x` inserted in order.
pub open spec fn insert_sorted(s: Seq<Seq<char>>, x: Seq<char>) -> Seq<Seq<char>> {
    s.insert(first_after(s, x, 0), x)
}

/// `s` in ascending code-point order.
pub open spec fn sort_texts(s: Seq<Seq<char>>) -> Seq<Seq<char>>
    decreases s.len(),
{
    if s.len() == 0 {
        s
    } else {
        insert_sorted(sort_texts(s.drop_last()), s.last())
    }
}

/// Texts in non-decreasing code-point order.
pub open spec fn texts_ascending(s: Seq<Seq<char>>) -> bool {
    forall|i: int, j: int| 0 <= i < j < s.len() ==> !seq_lt(#[trigger] s[j], #[trigger] s[i])
}

proof fn lemma_first_after(s: Seq<Seq<char>>, x: Seq<char>, from: int)
    requires
        0 <= from <= s.len(),
    ensures
        from <= first_after(s, x, from) <= s.len(),
        forall|k: int| from <= k < first_after(s, x, from) ==> !seq_lt(x, #[trigger] s[k]),
        first_after(s, x, from) < s.len() ==> seq_lt(x, s[first_after(s, x, from)]),
    decreases s.len() - from,
{
    if from < s.len() && !seq_lt(x, s[from]) {
        lemma_first_after(s, x, from + 1);
    }
}

proof fn lemma_insert_sorted(s: Seq<Seq<char>>, x: Seq<char>)
    requires
        texts_ascending(s),
    ensures
        texts_ascending(insert_sorted(s, x)),
        insert_sorted(s, x).to_multiset() == s.to_multiset().insert(x),
{
    broadcast use vstd::seq_lib::group_to_multiset_ensures;

    let p = first_after(s, x, 0);
    lemma_first_after(s, x, 0);
    let r = s.insert(p, x);
    assert forall|i: int, j: int| 0 <= i < j < r.len() implies !seq_lt(#[trigger] r[j], #[trigger] r[i]) by {
        if j < p {
            assert(r[i] == s[i] && r[j] == s[j]);
        } else if j == p {
            assert(r[i] == s[i] && r[j] == x);
            assert(!seq_lt(x, s[i]));
        } else if i == p {
            assert(r[i] == x && r[j] == s[j - 1]);
            assert(seq_lt(x, s[p]));
            if j - 1 > p {
                assert(!seq_lt(s[j - 1], s[p]));
                if s[j - 1] != s[p] {
                    lemma_lt_total(s[j - 1], s[p]);
                    lemma_lt_transitive(x, s[p], s[j - 1]);
                }
            }
            lemma_lt_asymmetric(x, s[j - 1]);
        } else if i > p {
            assert(r[i] == s[i - 1] && r[j] == s[j - 1]);
        } else {
            assert(r[i] == s[i] && r[j] == s[j - 1]);
        }
    }
}

proof fn lemma_sort_texts(s: Seq<Seq<char>>)
    ensures
        texts_ascending(sort_texts(s)),
        sort_texts(s).to_multiset() == s.to_multiset(),
    decreases s.len(),
{
    broadcast use vstd::seq_lib::group_to_multiset_ensures;

    if s.len() == 0 {
        assert(sort_texts(s).to_multiset() =~= s.to_multiset());
    } else {
        lemma_sort_texts(s.drop_last());
        lemma_insert_sorted(sort_texts(s.drop_last()), s.last());
        assert(s =~= s.drop_last().push(s.last()));
    }
}

/// Two ascending arrangements of the same texts are the same arrangement.
proof fn lemma_ascending_unique(a: Seq<Seq<char>>, b: Seq<Seq<char>>)
    requires
        texts_ascending(a),
        texts_ascending(b),
        a.to_multiset() == b.to_multiset(),
    ensures
        a == b,
    decreases a.len(),
{
    broadcast use vstd::seq_lib::group_to_multiset_ensures;

    a.to_multiset_ensures();
    b.to_multiset_ensures();
    if a.len() == 0 {
        assert(a =~= b);
    } else {
        let x = a[0];
        let y = b[0];
        assert(a.contains(x));
        assert(b.to_multiset().count(x) > 0);
        assert(b.contains(x));
        assert(b.contains(y));
        assert(a.to_multiset().count(y) > 0);
        assert(a.contains(y));
        if x != y {
            let j = choose|j: int| 0 <= j < b.len() && b[j] == x;
            let k = choose|k: int| 0 <= k < a.len() && a[k] == y;
            if j > 0 {
                assert(!seq_lt(b[j], b[0]));
            }
            if k > 0 {
                assert(!seq_lt(a[k], a[0]));
            }
            lemma_lt_total(x, y);
        }
        assert(a.remove(0) =~= a.drop_first());
        assert(b.remove(0) =~= b.drop_first());
        let a1 = a.drop_first();
        let b1 = b.drop_first();
        assert forall|i: int, j: int| 0 <= i < j < a1.len() implies !seq_lt(#[trigger] a1[j], #[trigger] a1[i]) by {
            assert(a1[i] == a[i + 1] && a1[j] == a[j + 1]);
        }
        assert forall|i: int, j: int| 0 <= i < j < b1.len() implies !seq_lt(#[trigger] b1[j], #[trigger] b1[i]) by {
            assert(b1[i] == b[i + 1] && b1[j] == b[j + 1]);
        }
        lemma_ascending_unique(a1, b1);
        assert(a =~= seq![x] + a1);
        assert(b =~= seq![y] + b1);
    }
}

/// Gate paths are named in ascending order, whatever their order in the
/// reason: two reasons that hold the same paths, each as often, read alike.
pub proof fn law_gate_path_order_does_not_reach_the_detail(a: Vec<String>, b: Vec<String>)
    requires
        views(a@).to_multiset() == views(b@).to_multiset(),
    ensures
        texts_ascending(sort_texts(views(a@))),
        unverified_detail(UnverifiedReason::GatesModified { paths: a }) == unverified_detail(
            UnverifiedReason::GatesModified { paths: b },
        ),
{
    lemma_sort_texts(views(a@));
    lemma_sort_texts(views(b@));
    lemma_ascending_unique(sort_texts(views(a@)), sort_texts(views(b@)));
}

/// The sentence a maintainer reads for an unverified reason.
pub open spec fn unverified_detail(r: UnverifiedReason) -> Seq<char> {
    match r {
        UnverifiedReason::Unparseable { parser, detail } => "artifact could not be parsed by `"@ + parser@ + "`: "@
            + detail@,
        UnverifiedReason::NoArtifact { detail } => "no machine-readable artifact: "@ + detail@
            + ". A passing check is not evidence; it must upload a parseable result."@,
        UnverifiedReason::MissingEvidence => "expected evidence was never produced; the job may have been skipped or failed"@,
        UnverifiedReason::StaleArtifact { produced_from, expected } => "artifact was produced from "@
            + produced_from@ + " but the head is "@ + expected@
            + "; re-run the producing workflow for this commit"@,
        UnverifiedReason::GatesModified { paths } => "evidence comes from a workflow this change modifies ("@
            + join_text(sort_texts(views(paths@)), ", "@) + "); adopted results cannot be trusted here"@,
        UnverifiedReason::BudgetExceeded { cost, max } => "cost class `"@ + cost@
            + "` exceeds the configured maximum `"@ + max@ + "`"@,
        UnverifiedReason::Inconclusive { reason } => "evidence was inconclusive: "@ + reason@,
        UnverifiedReason::ExecutionFailed { detail } => "could not run the tool: "@ + detail@,
        UnverifiedReason::PlanFailed { detail } => "could not plan the capability: "@ + detail@,
        UnverifiedReason::UnknownCapability { id } => "policy requires capability `"@ + id@
            + "`, which this build does not implement; upgrade vibe-check or declare it in the policy"@,
        UnverifiedReason::UnknownParser { id } => "policy names parser `"@ + id@
            + "`, which this build does not implement"@,
        UnverifiedReason::NoForge => "adoption needs access to the forge; running locally without a token"@,
        UnverifiedReason::SchemaTooNew { found, supported } => "evidence declares schema v"@ + decimal(found as nat)
            + " but this build supports up to v"@ + decimal(supported as nat) + "; upgrade vibe-check"@,
        UnverifiedReason::Oversized { detail } => "artifact exceeded a size limit: "@ + detail@,
    }
}

/// A sorted copy of the views of `paths`.
fn sorted_paths(paths: &Vec<String>) -> (r: Vec<String>)
    ensures
        views(r@) == sort_texts(views(paths@)),
{
    let ghost vs = views(paths@);
    let mut out: Vec<String> = Vec::new();
    let mut i: usize = 0;
    proof {
        assert(vs.take(0) =~= Seq::<Seq<char>>::empty());
        assert(views(out@) =~= Seq::<Seq<char>>::empty());
    }
    while i < paths.len()
        invariant
            vs == views(paths@),
            i <= paths@.len(),
            views(out@) == sort_texts(vs.take(i as int)),
        decreases paths@.len() - i,
    {
        let x = &paths[i];
        let ghost sv = views(out@);
        let mut p: usize = 0;
        while p < out.len() && !str_lt(x.as_str(), out[p].as_str())
            invariant
                sv == views(out@),
                p <= out@.len(),
                first_after(sv, x@, 0) == first_after(sv, x@, p as int),
            decreases out@.len() - p,
        {
            proof {
                assert(sv[p as int] == out@[p as int]@);
            }
            p = p + 1;
        }
        proof {
            if p < out@.len() {
                assert(sv[p as int] == out@[p as int]@);
            }
            assert(first_after(sv, x@, p as int) == p);
        }
        out.insert(p, x.clone());
        proof {
            assert(vs.take(i as int + 1).drop_last() =~= vs.take(i as int));
            assert(vs.take(i as int + 1).last() == x@);
            assert(views(out@) =~= sv.insert(p as int, x@));
        }
        i = i + 1;
    }
    proof {
        assert(vs.take(i as int) =~= vs);
    }
    out
}

impl UnverifiedReason {
    /// The reason code this escalates with.
    pub fn reason_code(&self) -> (c: ReasonCode)
        ensures
            c == unverified_code(*self),
    {
        match self {
            UnverifiedReason::UnknownCapability { .. } => ReasonCode::UnknownCapability,
            UnverifiedReason::UnknownParser { .. } => ReasonCode::UnknownParser,
            UnverifiedReason::BudgetExceeded { .. } => ReasonCode::BudgetExceeded,
            UnverifiedReason::GatesModified { .. } => ReasonCode::GatesModified,
            UnverifiedReason::StaleArtifact { .. } => ReasonCode::AdoptionStale,
            _ => ReasonCode::CapabilityUnverified,
        }
    }

    /// Whether this is a fact about the policy rather than about the code.
    /// Never advisory: accounting overrides the requirement's enforcement to
    /// the enforcing lane whenever this holds.
    pub fn is_policy_integrity(&self) -> (r: bool)
        ensures
            r == reason_is_policy_integrity(*self),
    {
        match self {
            UnverifiedReason::UnknownCapability { .. } | UnverifiedReason::UnknownParser { .. } => true,
            UnverifiedReason::Unparseable { .. }
            | UnverifiedReason::NoArtifact { .. }
            | UnverifiedReason::MissingEvidence
            | UnverifiedReason::StaleArtifact { .. }
            | UnverifiedReason::GatesModified { .. }
            | UnverifiedReason::BudgetExceeded { .. }
            | UnverifiedReason::Inconclusive { .. }
            | UnverifiedReason::ExecutionFailed { .. }
            | UnverifiedReason::PlanFailed { .. }
            | UnverifiedReason::NoForge
            | UnverifiedReason::SchemaTooNew { .. }
            | UnverifiedReason::Oversized { .. } => false,
        }
    }

    /// A sentence a maintainer can act on. Gate paths are written in sorted
    /// order, on a local copy, so two runs of one commit write one sentence.
    pub fn detail(&self) -> (s: String)
        ensures
            s@ == unverified_detail(*self),
    {
        match self {
            UnverifiedReason::Unparseable { parser, detail } => {
                let mut s = string_of("artifact could not be parsed by `");
                push_str(&mut s, parser.as_str());
                push_str(&mut s, "`: ");
                push_str(&mut s, detail.as_str());
                s
            },
            UnverifiedReason::NoArtifact { detail } => {
                let mut s = string_of("no machine-readable artifact: ");
                push_str(&mut s, detail.as_str());
                push_str(&mut s, ". A passing check is not evidence; it must upload a parseable result.");
                s
            },
            UnverifiedReason::MissingEvidence => string_of(
                "expected evidence was never produced; the job may have been skipped or failed",
            ),
            UnverifiedReason::StaleArtifact { produced_from, expected } => {
                let mut s = string_of("artifact was produced from ");
                push_str(&mut s, produced_from.as_str());
                push_str(&mut s, " but the head is ");
                push_str(&mut s, expected.as_str());
                push_str(&mut s, "; re-run the producing workflow for this commit");
                s
            },
            UnverifiedReason::GatesModified { paths } => {
                let sorted = sorted_paths(paths);
                let mut s = string_of("evidence comes from a workflow this change modifies (");
                push_joined(&mut s, sorted.as_slice(), ", ");
                push_str(&mut s, "); adopted results cannot be trusted here");
                s
            },
            UnverifiedReason::BudgetExceeded { cost, max } => {
                let mut s = string_of("cost class `");
                push_str(&mut s, cost.as_str());
                push_str(&mut s, "` exceeds the configured maximum `");
                push_str(&mut s, max.as_str());
                push_str(&mut s, "`");
                s
            },
            UnverifiedReason::Inconclusive { reason } => {
                let mut s = string_of("evidence was inconclusive: ");
                push_str(&mut s, reason.as_str());
                s
            },
            UnverifiedReason::ExecutionFailed { detail } => {
                let mut s = string_of("could not run the tool: ");
                push_str(&mut s, detail.as_str());
                s
            },
            UnverifiedReason::PlanFailed { detail } => {
                let mut s = string_of("could not plan the capability: ");
                push_str(&mut s, detail.as_str());
                s
            },
            UnverifiedReason::UnknownCapability { id } => {
                let mut s = string_of("policy requires capability `");
                push_str(&mut s, id.as_str());
                push_str(
                    &mut s,
                    "`, which this build does not implement; upgrade vibe-check or declare it in the policy",
                );
                s
            },
            UnverifiedReason::UnknownParser { id } => {
                let mut s = string_of("policy names parser `");
                push_str(&mut s, id.as_str());
                push_str(&mut s, "`, which this build does not implement");
                s
            },
            UnverifiedReason::NoForge => string_of(
                "adoption needs access to the forge; running locally without a token",
            ),
            UnverifiedReason::SchemaTooNew { found, supported } => {
                let mut s = string_of("evidence declares schema v");
                push_u64(&mut s, *found as u64);
                push_str(&mut s, " but this build supports up to v");
                push_u64(&mut s, *supported as u64);
                push_str(&mut s, "; upgrade vibe-check");
                s
            },
            UnverifiedReason::Oversized { detail } => {
                let mut s = string_of("artifact exceeded a size limit: ");
                push_str(&mut s, detail.as_str());
                s
            },
        }
    }
}

/// Which of the four states a requirement landed in: the answering method,
/// not the answer. There is deliberately no derived order; the only order is
/// [`ResolutionState::confidence_rank`].
#[derive(Clone, Copy, PartialEq, Eq, Structural, Hash, Debug)]
pub enum ResolutionState {
    /// An existing artifact answered it.
    Adopt,
    /// vibe-check ran something to answer it.
    Run,
    /// Declared not applicable.
    Skip,
    /// Expected, and unavailable.
    Unverified,
}

/// How much is actually known: `Unverified` < `Skip` < `Adopt` < `Run`.
pub open spec fn confidence(s: ResolutionState) -> nat {
    match s {
        ResolutionState::Unverified => 0,
        ResolutionState::Skip => 1,
        ResolutionState::Adopt => 2,
        ResolutionState::Run => 3,
    }
}

/// The least confident of two states.
pub open spec fn spec_collapse(a: ResolutionState, b: ResolutionState) -> ResolutionState {
    if confidence(b) < confidence(a) { b } else { a }
}

/// The least confident of every state in `s`, or `None` when there are none.
pub open spec fn collapse_seq(s: Seq<ResolutionState>) -> Option<ResolutionState>
    decreases s.len(),
{
    if s.len() == 0 {
        None
    } else {
        match collapse_seq(s.drop_last()) {
            None => Some(s.last()),
            Some(acc) => Some(spec_collapse(acc, s.last())),
        }
    }
}

impl ResolutionState {
    /// Order by how much is actually known, least first:
    /// `Unverified` < `Skip` < `Adopt` < `Run`.
    pub fn confidence_rank(self) -> (r: u8)
        ensures
            r == confidence(self),
    {
        match self {
            ResolutionState::Unverified => 0,
            ResolutionState::Skip => 1,
            ResolutionState::Adopt => 2,
            ResolutionState::Run => 3,
        }
    }

    /// Combine two states for the same capability: least confident wins.
    pub fn collapse(self, other: ResolutionState) -> (r: ResolutionState)
        ensures
            r == spec_collapse(self, other),
    {
        if other.confidence_rank() < self.confidence_rank() {
            other
        } else {
            self
        }
    }

    /// `collapse` across every state a capability resolved to, or `None`
    /// when it resolved to none.
    pub fn collapse_all(states: &[ResolutionState]) -> (r: Option<ResolutionState>)
        ensures
            r == collapse_seq(states@),
    {
        let mut acc: Option<ResolutionState> = None;
        let mut i: usize = 0;
        while i < states.len()
            invariant
                i <= states@.len(),
                acc == collapse_seq(states@.take(i as int)),
            decreases states@.len() - i,
        {
            proof {
                assert(states@.take(i as int + 1).drop_last() =~= states@.take(i as int));
            }
            acc = match acc {
                None => Some(states[i]),
                Some(a) => Some(a.collapse(states[i])),
            };
            i = i + 1;
        }
        proof {
            assert(states@.take(i as int) =~= states@);
        }
        acc
    }
}

/// `collapse` is a meet: commutative, associative and idempotent, with
/// `Unverified` absorbing and `Run` the identity.
pub proof fn law_collapse_is_a_meet(a: ResolutionState, b: ResolutionState, c: ResolutionState)
    ensures
        spec_collapse(a, b) == spec_collapse(b, a),
        spec_collapse(spec_collapse(a, b), c) == spec_collapse(a, spec_collapse(b, c)),
        spec_collapse(a, a) == a,
        spec_collapse(a, ResolutionState::Unverified) == ResolutionState::Unverified,
        spec_collapse(a, ResolutionState::Run) == a,
{
}

/// Collapsing a capability's states gives the least confident of them: one
/// of them, and no more confident than any.
pub proof fn law_collapse_all_is_the_least_confident(s: Seq<ResolutionState>)
    ensures
        s.len() == 0 <==> collapse_seq(s) is None,
        collapse_seq(s) matches Some(m) ==> s.contains(m) && forall|i: int| 0 <= i < s.len() ==> confidence(m)
            <= confidence(#[trigger] s[i]),
    decreases s.len(),
{
    if s.len() > 0 {
        law_collapse_all_is_the_least_confident(s.drop_last());
        let m = collapse_seq(s)->0;
        assert forall|i: int| 0 <= i < s.len() implies confidence(m) <= confidence(#[trigger] s[i]) by {
            if i < s.len() - 1 {
                assert(s.drop_last()[i] == s[i]);
            }
        }
        if collapse_seq(s.drop_last()) is Some {
            let a = collapse_seq(s.drop_last())->0;
            if m == a {
                let j = choose|j: int| 0 <= j < s.drop_last().len() && s.drop_last()[j] == a;
                assert(s[j] == m);
            } else {
                assert(s[s.len() - 1] == m);
            }
        } else {
            assert(s[s.len() - 1] == m);
        }
    }
}

/// Scopes resolve concurrently, so collapsing must not depend on the order
/// the states arrived in: any rearrangement collapses to the same state.
pub proof fn law_collapse_all_ignores_order(a: Seq<ResolutionState>, b: Seq<ResolutionState>)
    requires
        a.to_multiset() == b.to_multiset(),
    ensures
        collapse_seq(a) == collapse_seq(b),
{
    broadcast use vstd::seq_lib::group_to_multiset_ensures;
    law_collapse_all_is_the_least_confident(a);
    law_collapse_all_is_the_least_confident(b);
    assert(a.len() == a.to_multiset().len());
    assert(b.len() == b.to_multiset().len());
    if a.len() > 0 {
        let ma = collapse_seq(a)->0;
        let mb = collapse_seq(b)->0;
        assert(a.to_multiset().count(ma) > 0);
        assert(b.contains(ma));
        assert(b.to_multiset().count(mb) > 0);
        assert(a.contains(mb));
        let i = choose|i: int| 0 <= i < b.len() && b[i] == ma;
        let j = choose|j: int| 0 <= j < a.len() && a[j] == mb;
        assert(confidence(mb) <= confidence(b[i]));
        assert(confidence(ma) <= confidence(a[j]));
    }
}

/// How a required capability was resolved. Four states, closed.
#[derive(Clone, PartialEq, Eq, Debug)]
pub enum CapabilityResolution {
    /// An existing artifact answered the question.
    Adopted {
        /// The normalized evidence.
        evidence: Box<Evidence>,
        /// What it says.
        judgement: Judgement,
    },
    /// vibe-check ran a tool to answer the question.
    Ran {
        /// The normalized evidence.
        evidence: Box<Evidence>,
        /// What it says.
        judgement: Judgement,
    },
    /// The question does not apply.
    Skipped {
        /// Why not.
        reason: SkipReason,
    },
    /// The question could not be answered.
    Unverified {
        /// Why not.
        reason: UnverifiedReason,
    },
}

/// Which of the four states a resolution is.
pub open spec fn state_of(r: CapabilityResolution) -> ResolutionState {
    match r {
        CapabilityResolution::Adopted { .. } => ResolutionState::Adopt,
        CapabilityResolution::Ran { .. } => ResolutionState::Run,
        CapabilityResolution::Skipped { .. } => ResolutionState::Skip,
        CapabilityResolution::Unverified { .. } => ResolutionState::Unverified,
    }
}

/// Whether a resolution is a fact about the policy, and so may never reach
/// the advisory ledger.
pub open spec fn resolution_is_policy_integrity(r: CapabilityResolution) -> bool {
    match r {
        CapabilityResolution::Unverified { reason } => reason_is_policy_integrity(reason),
        _ => false,
    }
}

/// The ledger a resolution escalates: the requirement's own, except that a
/// fact about the policy always goes to the enforcing one.
pub open spec fn lane_of(r: CapabilityResolution, enforcement: Enforcement) -> Enforcement {
    if resolution_is_policy_integrity(r) { Enforcement::Enforcing } else { enforcement }
}

/// What answered evidence escalates with: `None` for a measured
/// satisfaction, else the tier, the code and the sentence.
pub open spec fn answered_effect(evidence: Evidence, judgement: Judgement) -> Option<(Tier, ReasonCode, Seq<char>)> {
    let cap = evidence.spec_capability()@;
    if evidence.spec_provenance() is Declared {
        Some((Tier::T2, ReasonCode::CapabilityUnverified, "`"@ + cap
            + "` is backed only by a declaration, not a measurement"@))
    } else {
        match judgement {
            Judgement::Satisfied => None,
            Judgement::Violated { detail } => Some((Tier::T2, ReasonCode::CapabilityViolated, "`"@ + cap
                + "` failed: "@ + detail@)),
            Judgement::Inconclusive { reason } => Some((Tier::T2, ReasonCode::CapabilityUnverified, "`"@ + cap
                + "` was inconclusive: "@ + reason@)),
        }
    }
}

/// The sentence for a waiver that has lapsed.
pub open spec fn expired_waiver_text(
    policy_ref: PolicyRef,
    why: Seq<char>,
    owner: Seq<char>,
    expires: CivilDate,
    decision: CivilDate,
) -> Seq<char> {
    "waived by "@ + policy_ref_text(policy_ref) + " ("@ + why + "); owner "@ + owner + ". That waiver lapsed on "@
        + date_text(expires) + " and this commit is dated "@ + date_text(decision)
        + "; an expired waiver authorises nothing. Renew it or answer the capability."@
}

/// The sentence for a waiver that is still live.
pub open spec fn live_waiver_text(policy_ref: PolicyRef, why: Seq<char>, owner: Seq<char>, expires: CivilDate) -> Seq<
    char,
> {
    "waived by "@ + policy_ref_text(policy_ref) + " ("@ + why + "); owner "@ + owner + ", expires "@ + date_text(
        expires,
    )
}

/// The escalation one resolution causes when the decision date is
/// `decision`: `None` for nothing, else the tier, the code and the sentence.
pub open spec fn resolution_effect(r: CapabilityResolution, decision: CivilDate) -> Option<(Tier, ReasonCode, Seq<char>)> {
    match r {
        CapabilityResolution::Adopted { evidence, judgement } => answered_effect(*evidence, judgement),
        CapabilityResolution::Ran { evidence, judgement } => answered_effect(*evidence, judgement),
        CapabilityResolution::Skipped { reason } => match reason {
            SkipReason::Derived { .. } => None,
            SkipReason::Declared { policy_ref, reason: why, owner, expires } => if date_after(decision, expires) {
                Some((Tier::T2, ReasonCode::ExpiredSkip, expired_waiver_text(policy_ref, why@, owner@, expires, decision)))
            } else {
                Some((Tier::T1, ReasonCode::DeclaredSkip, live_waiver_text(policy_ref, why@, owner@, expires)))
            },
        },
        CapabilityResolution::Unverified { reason } => Some((Tier::T2, unverified_code(reason), unverified_detail(reason))),
    }
}

/// One ledger as its contents: the tier reached, and each escalation as
/// `(from, to, reason, detail, evidence)`.
pub type LedgerState = (Tier, Seq<(Tier, Tier, ReasonCode, Seq<char>, EvidenceRef)>);

/// An escalation as its contents.
pub open spec fn escalation_record(e: Escalation) -> (Tier, Tier, ReasonCode, Seq<char>, EvidenceRef) {
    (e.from, e.to, e.reason, e.detail@, e.evidence)
}

/// An adjudicator as its contents.
pub open spec fn ledger_state(a: Adjudicator) -> LedgerState {
    (a.spec_tier(), a.spec_ledger().map_values(|e: Escalation| escalation_record(e)))
}

/// Both ledgers as their contents: `(enforcing, advisory)`.
pub open spec fn lanes_state(a: Adjudicators) -> (LedgerState, LedgerState) {
    (ledger_state(a.spec_enforcing()), ledger_state(a.spec_advisory()))
}

/// A ledger after one more escalation to at least `at_least`.
pub open spec fn record(st: LedgerState, at_least: Tier, reason: ReasonCode, detail: Seq<char>, evidence: EvidenceRef) -> LedgerState {
    (spec_join(st.0, at_least), st.1.push((st.0, spec_join(st.0, at_least), reason, detail, evidence)))
}

/// Both ledgers after accounting how `requirement` resolved.
pub open spec fn account_one(
    st: (LedgerState, LedgerState),
    requirement: RequirementId,
    enforcement: Enforcement,
    r: CapabilityResolution,
    decision: CivilDate,
) -> (LedgerState, LedgerState) {
    match resolution_effect(r, decision) {
        None => st,
        Some((tier, code, detail)) => if lane_of(r, enforcement) == Enforcement::Enforcing {
            (record(st.0, tier, code, detail, EvidenceRef::Requirement(requirement)), st.1)
        } else {
            (st.0, record(st.1, tier, code, detail, EvidenceRef::Requirement(requirement)))
        },
    }
}

proof fn lemma_record_view(old_l: Seq<Escalation>, e: Escalation)
    ensures
        old_l.push(e).map_values(|x: Escalation| escalation_record(x)) == old_l.map_values(
            |x: Escalation| escalation_record(x),
        ).push(escalation_record(e)),
{
    assert(old_l.push(e).map_values(|x: Escalation| escalation_record(x)) =~= old_l.map_values(
        |x: Escalation| escalation_record(x),
    ).push(escalation_record(e)));
}

fn answered_text(prefix_cap: &CapabilityId, tail: &str, rest: &str) -> (s: String)
    ensures
        s@ == "`"@ + prefix_cap@ + tail@ + rest@,
{
    let mut s = string_of("`");
    push_str(&mut s, prefix_cap.as_str());
    push_str(&mut s, tail);
    push_str(&mut s, rest);
    s
}

impl CapabilityResolution {
    /// Which of the four states this is.
    pub fn state(&self) -> (s: ResolutionState)
        ensures
            s == state_of(*self),
    {
        match self {
            CapabilityResolution::Adopted { .. } => ResolutionState::Adopt,
            CapabilityResolution::Ran { .. } => ResolutionState::Run,
            CapabilityResolution::Skipped { .. } => ResolutionState::Skip,
            CapabilityResolution::Unverified { .. } => ResolutionState::Unverified,
        }
    }

    /// Whether this is a fact about the policy rather than about the code.
    fn is_policy_integrity(&self) -> (r: bool)
        ensures
            r == resolution_is_policy_integrity(*self),
    {
        match self {
            CapabilityResolution::Unverified { reason } => reason.is_policy_integrity(),
            CapabilityResolution::Adopted { .. } | CapabilityResolution::Ran { .. } | CapabilityResolution::Skipped {
                ..
            } => false,
        }
    }

    /// The capability this answers, when evidence is present.
    pub fn capability(&self) -> (c: Option<&CapabilityId>)
        ensures
            match *self {
                CapabilityResolution::Adopted { evidence, .. } => c == Some(&evidence.spec_capability()),
                CapabilityResolution::Ran { evidence, .. } => c == Some(&evidence.spec_capability()),
                _ => c is None,
            },
    {
        match self {
            CapabilityResolution::Adopted { evidence, .. } | CapabilityResolution::Ran { evidence, .. } => Some(
                evidence.capability(),
            ),
            CapabilityResolution::Skipped { .. } | CapabilityResolution::Unverified { .. } => None,
        }
    }

    /// What answered evidence escalates with, as the sentence it writes.
    fn answered(evidence: &Evidence, judgement: &Judgement) -> (r: Option<(Tier, ReasonCode, String)>)
        ensures
            match r {
                None => answered_effect(*evidence, *judgement) is None,
                Some((t, c, d)) => answered_effect(*evidence, *judgement) == Some((t, c, d@)),
            },
    {
        if !evidence.provenance().is_measured() {
            let d = answered_text(evidence.capability(), "` is backed only by a declaration, not a measurement", "");
            proof {
                reveal_strlit("");
                assert(d@ =~= "`"@ + evidence.spec_capability()@ + "` is backed only by a declaration, not a measurement"@);
            }
            return Some((Tier::T2, ReasonCode::CapabilityUnverified, d));
        }
        match judgement {
            Judgement::Satisfied => None,
            Judgement::Violated { detail } => {
                let d = answered_text(evidence.capability(), "` failed: ", detail.as_str());
                Some((Tier::T2, ReasonCode::CapabilityViolated, d))
            },
            Judgement::Inconclusive { reason } => {
                let d = answered_text(evidence.capability(), "` was inconclusive: ", reason.as_str());
                Some((Tier::T2, ReasonCode::CapabilityUnverified, d))
            },
        }
    }

    /// The escalation this resolution causes, as the sentence it writes.
    fn effect(&self, decision: &CivilDate) -> (r: Option<(Tier, ReasonCode, String)>)
        ensures
            match r {
                None => resolution_effect(*self, *decision) is None,
                Some((t, c, d)) => resolution_effect(*self, *decision) == Some((t, c, d@)),
            },
    {
        match self {
            CapabilityResolution::Adopted { evidence, judgement } => Self::answered(evidence, judgement),
            CapabilityResolution::Ran { evidence, judgement } => Self::answered(evidence, judgement),
            CapabilityResolution::Skipped { reason } => match reason {
                SkipReason::Derived { .. } => None,
                SkipReason::Declared { policy_ref, reason: why, owner, expires } => {
                    let mut s = string_of("waived by ");
                    let pr = policy_ref.to_string();
                    push_str(&mut s, pr.as_str());
                    push_str(&mut s, " (");
                    push_str(&mut s, why.as_str());
                    push_str(&mut s, "); owner ");
                    push_str(&mut s, owner.as_str());
                    let ex = expires.to_string();
                    if decision.is_after(expires) {
                        push_str(&mut s, ". That waiver lapsed on ");
                        push_str(&mut s, ex.as_str());
                        push_str(&mut s, " and this commit is dated ");
                        let dd = decision.to_string();
                        push_str(&mut s, dd.as_str());
                        push_str(
                            &mut s,
                            "; an expired waiver authorises nothing. Renew it or answer the capability.",
                        );
                        Some((Tier::T2, ReasonCode::ExpiredSkip, s))
                    } else {
                        push_str(&mut s, ", expires ");
                        push_str(&mut s, ex.as_str());
                        Some((Tier::T1, ReasonCode::DeclaredSkip, s))
                    }
                },
            },
            CapabilityResolution::Unverified { reason } => Some((Tier::T2, reason.reason_code(), reason.detail())),
        }
    }

    /// Apply this resolution to the ledgers. The only consumer of a
    /// resolution: no unanswered question leaves both tiers alone, and no fact
    /// about the policy reaches the advisory ledger. `at` is the committer
    /// date, and the only time this reads.
    pub(crate) fn account(
        &self,
        requirement: &RequirementId,
        enforcement: Enforcement,
        at: DecisionTime,
        adjudicators: &mut Adjudicators,
    )
        ensures
            lanes_state(*final(adjudicators)) == account_one(
                lanes_state(*old(adjudicators)),
                *requirement,
                enforcement,
                *self,
                at.spec_utc_date(),
            ),
    {
        let lane = if self.is_policy_integrity() {
            Enforcement::Enforcing
        } else {
            enforcement
        };
        let decision = at.utc_date();
        match self.effect(&decision) {
            None => {},
            Some((tier, code, detail)) => {
                let evidence_ref = EvidenceRef::Requirement(requirement.clone());
                let ghost d = detail@;
                let ghost before = *adjudicators;
                adjudicators.escalate_lane(lane, tier, code, detail, evidence_ref);
                proof {
                    let ghost e_old = if lane == Enforcement::Enforcing {
                        before.spec_enforcing()
                    } else {
                        before.spec_advisory()
                    };
                    let ghost pushed = Escalation {
                        from: e_old.spec_tier(),
                        to: spec_join(e_old.spec_tier(), tier),
                        reason: code,
                        detail,
                        evidence: evidence_ref,
                    };
                    lemma_record_view(e_old.spec_ledger(), pushed);
                }
            },
        }
    }
}

/// One requirement's outcome: its identifier, its enforcement, and how it
/// resolved.
pub type ResolutionEntry = (RequirementId, Enforcement, CapabilityResolution);

/// Entries in strictly ascending identifier order, so each identifier once.
pub open spec fn ascending(s: Seq<ResolutionEntry>) -> bool {
    forall|i: int, j: int| 0 <= i < j < s.len() ==> seq_lt(#[trigger] s[i].0@, #[trigger] s[j].0@)
}

/// Where an entry for `key` belongs: the first position at or after `from`
/// whose identifier does not sort before it.
pub open spec fn position_of(s: Seq<ResolutionEntry>, key: Seq<char>, from: int) -> int
    decreases s.len() - from,
{
    if from < 0 || from >= s.len() {
        s.len() as int
    } else if !seq_lt(s[from].0@, key) {
        from
    } else {
        position_of(s, key, from + 1)
    }
}

/// Both ledgers after accounting every entry of `s`, in order.
pub open spec fn account_all(st: (LedgerState, LedgerState), s: Seq<ResolutionEntry>, decision: CivilDate) -> (
    LedgerState,
    LedgerState,
)
    decreases s.len(),
{
    if s.len() == 0 {
        st
    } else {
        let e = s.last();
        account_one(account_all(st, s.drop_last(), decision), e.0, e.1, e.2, decision)
    }
}

/// Every requirement's outcome, in the one order accounting may use:
/// ascending by identifier, each identifier once.
#[derive(PartialEq, Eq, Debug)]
pub struct Resolutions(Vec<ResolutionEntry>);

impl View for Resolutions {
    type V = Seq<ResolutionEntry>;

    closed spec fn view(&self) -> Seq<ResolutionEntry> {
        self.0@
    }
}

proof fn lemma_position_of(s: Seq<ResolutionEntry>, key: Seq<char>, from: int)
    requires
        0 <= from <= s.len(),
    ensures
        from <= position_of(s, key, from) <= s.len(),
        forall|j: int| from <= j < position_of(s, key, from) ==> seq_lt(#[trigger] s[j].0@, key),
        position_of(s, key, from) < s.len() ==> !seq_lt(s[position_of(s, key, from)].0@, key),
    decreases s.len() - from,
{
    if from < s.len() && seq_lt(s[from].0@, key) {
        lemma_position_of(s, key, from + 1);
    }
}

impl Resolutions {
    /// Entries stay strictly ascending by identifier.
    #[verifier::type_invariant]
    closed spec fn inv(self) -> bool {
        ascending(self.0@)
    }

    /// An empty set.
    pub fn new() -> (r: Resolutions)
        ensures
            r@.len() == 0,
    {
        Resolutions(Vec::new())
    }

    /// Record how one requirement resolved, returning whatever it displaced
    /// so that a duplicate identifier is visible rather than silently lost.
    pub fn insert(&mut self, requirement: RequirementId, enforcement: Enforcement, resolution: CapabilityResolution) -> (displaced: Option<(Enforcement, CapabilityResolution)>)
        ensures
            ascending(final(self)@),
            ({
                let p = position_of(old(self)@, requirement@, 0);
                if p < old(self)@.len() && old(self)@[p].0@ == requirement@ {
                    &&& final(self)@ == old(self)@.update(p, (requirement, enforcement, resolution))
                    &&& displaced == Some((old(self)@[p].1, old(self)@[p].2))
                } else {
                    &&& final(self)@ == old(self)@.insert(p, (requirement, enforcement, resolution))
                    &&& displaced is None
                }
            }),
    {
        proof {
            use_type_invariant(&*self);
        }
        let ghost s0 = self.0@;
        let mut v: Vec<ResolutionEntry> = Vec::new();
        std::mem::swap(&mut v, &mut self.0);
        let mut p: usize = 0;
        while p < v.len() && str_lt(v[p].0.as_str(), requirement.as_str())
            invariant
                v@ == s0,
                ascending(s0),
                p <= s0.len(),
                position_of(s0, requirement@, 0) == position_of(s0, requirement@, p as int),
            decreases s0.len() - p,
        {
            p = p + 1;
        }
        proof {
            assert(position_of(s0, requirement@, p as int) == p);
            lemma_position_of(s0, requirement@, 0);
        }
        if p < v.len() && str_eq(v[p].0.as_str(), requirement.as_str()) {
            let old_entry = v.remove(p);
            v.insert(p, (requirement, enforcement, resolution));
            proof {
                assert(v@ =~= s0.update(p as int, (requirement, enforcement, resolution)));
                assert forall|i: int, j: int| 0 <= i < j < v@.len() implies seq_lt(#[trigger] v@[i].0@, #[trigger] v@[j].0@) by {
                    assert(s0[i].0@ == v@[i].0@);
                    assert(s0[j].0@ == v@[j].0@);
                }
            }
            self.0 = v;
            Some((old_entry.1, old_entry.2))
        } else {
            let ghost k = requirement@;
            v.insert(p, (requirement, enforcement, resolution));
            proof {
                let n = v@;
                assert(n =~= s0.insert(p as int, (requirement, enforcement, resolution)));
                if p < s0.len() {
                    assert(!seq_lt(s0[p as int].0@, k));
                    assert(s0[p as int].0@ != k);
                    lemma_lt_total(s0[p as int].0@, k);
                }
                assert forall|i: int, j: int| 0 <= i < j < n.len() implies seq_lt(#[trigger] n[i].0@, #[trigger] n[j].0@) by {
                    if j < p {
                        assert(n[i] == s0[i] && n[j] == s0[j]);
                    } else if j == p {
                        assert(n[i] == s0[i]);
                    } else if i == p {
                        assert(n[j] == s0[j - 1]);
                        if j - 1 > p {
                            assert(seq_lt(s0[p as int].0@, s0[j - 1].0@));
                            lemma_lt_transitive(k, s0[p as int].0@, s0[j - 1].0@);
                        }
                    } else if i < p {
                        assert(n[i] == s0[i] && n[j] == s0[j - 1]);
                        if i < j - 1 {
                        } else {
                            assert(false);
                        }
                    } else {
                        assert(n[i] == s0[i - 1] && n[j] == s0[j - 1]);
                    }
                }
            }
            self.0 = v;
            None
        }
    }

    /// Account every resolution, ascending by identifier, all at the one
    /// decision time `at`.
    pub fn account_into(&self, at: DecisionTime, adjudicators: &mut Adjudicators)
        ensures
            lanes_state(*final(adjudicators)) == account_all(lanes_state(*old(adjudicators)), self@, at.spec_utc_date()),
    {
        let ghost st0 = lanes_state(*adjudicators);
        let mut i: usize = 0;
        while i < self.0.len()
            invariant
                i <= self@.len(),
                lanes_state(*adjudicators) == account_all(st0, self@.take(i as int), at.spec_utc_date()),
            decreases self@.len() - i,
        {
            proof {
                assert(self@.take(i as int + 1).drop_last() =~= self@.take(i as int));
            }
            let entry = &self.0[i];
            entry.2.account(&entry.0, entry.1, at, adjudicators);
            i = i + 1;
        }
        proof {
            assert(self@.take(i as int) =~= self@);
        }
    }

    /// The `(state, enforcement)` of every entry, ascending by identifier:
    /// what the confidence tally counts, from the same map the ledgers come
    /// from.
    pub fn states(&self) -> (r: Vec<(ResolutionState, Enforcement)>)
        ensures
            r@.len() == self@.len(),
            forall|i: int| 0 <= i < r@.len() ==> #[trigger] r@[i] == (state_of(self@[i].2), self@[i].1),
    {
        let mut r: Vec<(ResolutionState, Enforcement)> = Vec::new();
        let mut i: usize = 0;
        while i < self.0.len()
            invariant
                i <= self@.len(),
                r@.len() == i,
                forall|k: int| 0 <= k < i ==> #[trigger] r@[k] == (state_of(self@[k].2), self@[k].1),
            decreases self@.len() - i,
        {
            r.push((self.0[i].2.state(), self.0[i].1));
            i = i + 1;
        }
        r
    }

    /// Every entry, ascending by identifier.
    pub fn iter(&self) -> (r: &[ResolutionEntry])
        ensures
            r@ == self@,
            ascending(r@),
    {
        proof {
            use_type_invariant(self);
        }
        self.0.as_slice()
    }

    /// How many requirements resolved.
    pub fn len(&self) -> (n: usize)
        ensures
            n == self@.len(),
    {
        self.0.len()
    }

    /// Whether no requirement resolved.
    pub fn is_empty(&self) -> (r: bool)
        ensures
            r == (self@.len() == 0),
    {
        self.0.len() == 0
    }
}

/// A fact about the policy is never advisory: whatever the requirement's
/// enforcement, it escalates the enforced ledger to the top and leaves the
/// advisory ledger as it was.
pub proof fn law_policy_integrity_is_never_advisory(
    st: (LedgerState, LedgerState),
    requirement: RequirementId,
    enforcement: Enforcement,
    r: CapabilityResolution,
    decision: CivilDate,
)
    requires
        resolution_is_policy_integrity(r),
    ensures
        account_one(st, requirement, enforcement, r, decision).1 == st.1,
        account_one(st, requirement, enforcement, r, decision).0.0 == Tier::T2,
{
}

/// An advisory requirement's outcome, when it is not a fact about the
/// policy, leaves the enforced ledger exactly as it was.
pub proof fn law_advisory_outcomes_never_move_the_enforced_ledger(
    st: (LedgerState, LedgerState),
    requirement: RequirementId,
    r: CapabilityResolution,
    decision: CivilDate,
)
    requires
        !resolution_is_policy_integrity(r),
    ensures
        account_one(st, requirement, Enforcement::Advisory, r, decision).0 == st.0,
{
}

/// Fail-closed: the only resolutions that leave both ledgers alone are a
/// measured satisfaction and an engine-derived skip; every unverified one
/// escalates its ledger to the top.
pub proof fn law_only_a_measured_pass_or_a_derived_skip_is_free(r: CapabilityResolution, decision: CivilDate)
    ensures
        resolution_effect(r, decision) is None <==> match r {
            CapabilityResolution::Adopted { evidence, judgement } => !(evidence.spec_provenance() is Declared)
                && judgement is Satisfied,
            CapabilityResolution::Ran { evidence, judgement } => !(evidence.spec_provenance() is Declared)
                && judgement is Satisfied,
            CapabilityResolution::Skipped { reason } => reason is Derived,
            CapabilityResolution::Unverified { .. } => false,
        },
        r is Unverified ==> (resolution_effect(r, decision) matches Some((t, _, _)) && t == Tier::T2),
{
}

/// A waiver is live through the whole of its expiry day and costs `T1`
/// while live; from the next day it costs the top, with its own code.
pub proof fn law_a_waiver_lapses_the_day_after_it_expires(
    policy_ref: PolicyRef,
    why: String,
    owner: String,
    expires: CivilDate,
    decision: CivilDate,
)
    ensures
        ({
            let r = CapabilityResolution::Skipped {
                reason: SkipReason::Declared { policy_ref, reason: why, owner, expires },
            };
            &&& !date_after(decision, expires) ==> (resolution_effect(r, decision) matches Some((t, c, _)) && t
                == Tier::T1 && c == ReasonCode::DeclaredSkip)
            &&& date_after(decision, expires) ==> (resolution_effect(r, decision) matches Some((t, c, _)) && t
                == Tier::T2 && c == ReasonCode::ExpiredSkip)
        }),
{
}

proof fn lemma_ascending_same_entries_are_equal(a: Seq<ResolutionEntry>, b: Seq<ResolutionEntry>)
    requires
        ascending(a),
        ascending(b),
        a.to_set() == b.to_set(),
    ensures
        a == b,
    decreases a.len(),
{
    broadcast use vstd::seq_lib::group_seq_properties;
    if a.len() == 0 {
        if b.len() > 0 {
            assert(b.to_set().contains(b[0]));
        }
        assert(b.len() == 0);
    } else {
        assert(a.to_set().contains(a[0]));
        assert(b.contains(a[0]));
        let j = choose|j: int| 0 <= j < b.len() && b[j] == a[0];
        assert(b.to_set().contains(b[0]));
        assert(a.contains(b[0]));
        let i = choose|i: int| 0 <= i < a.len() && a[i] == b[0];
        if j > 0 {
            assert(seq_lt(b[0].0@, b[j].0@));
            if i > 0 {
                assert(seq_lt(a[0].0@, a[i].0@));
                lemma_lt_transitive(b[0].0@, a[0].0@, b[0].0@);
                lemma_lt_irreflexive(b[0].0@);
            } else {
                lemma_lt_irreflexive(b[0].0@);
            }
        }
        assert(a[0] == b[0]);
        let ta = a.drop_first();
        let tb = b.drop_first();
        assert forall|x: ResolutionEntry| ta.to_set().contains(x) implies tb.to_set().contains(x) by {
            let k = choose|k: int| 0 <= k < ta.len() && ta[k] == x;
            assert(a[k + 1] == x);
            assert(a.contains(x));
            assert(a.to_set().contains(x));
            assert(b.to_set().contains(x));
            assert(b.contains(x));
            let m = choose|m: int| 0 <= m < b.len() && b[m] == x;
            if m == 0 {
                assert(seq_lt(a[0].0@, a[k + 1].0@));
                lemma_lt_irreflexive(a[0].0@);
            }
            assert(tb[m - 1] == x);
        }
        assert forall|x: ResolutionEntry| tb.to_set().contains(x) implies ta.to_set().contains(x) by {
            let k = choose|k: int| 0 <= k < tb.len() && tb[k] == x;
            assert(b[k + 1] == x);
            assert(b.contains(x));
            assert(b.to_set().contains(x));
            assert(a.to_set().contains(x));
            assert(a.contains(x));
            let m = choose|m: int| 0 <= m < a.len() && a[m] == x;
            if m == 0 {
                assert(seq_lt(b[0].0@, b[k + 1].0@));
                lemma_lt_irreflexive(b[0].0@);
            }
            assert(ta[m - 1] == x);
        }
        assert(ta.to_set() =~= tb.to_set());
        lemma_ascending_same_entries_are_equal(ta, tb);
        assert(a =~= seq![a[0]] + ta);
        assert(b =~= seq![b[0]] + tb);
    }
}

/// Accounting is a property of the data, not of the engine's scheduling:
/// two resolution sets holding the same entries, however they were
/// assembled, produce identical ledgers.
pub proof fn law_ledgers_depend_on_which_entries_not_on_arrival_order(
    a: Resolutions,
    b: Resolutions,
    st: (LedgerState, LedgerState),
    decision: CivilDate,
)
    requires
        ascending(a@),
        ascending(b@),
        a@.to_set() == b@.to_set(),
    ensures
        account_all(st, a@, decision) == account_all(st, b@, decision),
{
    lemma_ascending_same_entries_are_equal(a@, b@);
}

/// Adopted and ran evidence are judged alike, and only a measured "yes" costs
/// nothing: anything else an answered capability says escalates its lane to
/// the top. A measured "no" is a violation, whether it was adopted or run, so
/// an enforcing requirement it answers ends at the top tier.
pub proof fn law_only_a_measured_yes_passes(
    e: Evidence,
    j: Judgement,
    st: (LedgerState, LedgerState),
    requirement: RequirementId,
    decision: CivilDate,
)
    ensures
        resolution_effect(CapabilityResolution::Adopted { evidence: Box::new(e), judgement: j }, decision)
            == resolution_effect(CapabilityResolution::Ran { evidence: Box::new(e), judgement: j }, decision),
        resolution_effect(CapabilityResolution::Adopted { evidence: Box::new(e), judgement: j }, decision) is None
            <==> (!(e.spec_provenance() is Declared) && j is Satisfied),
        resolution_effect(CapabilityResolution::Adopted { evidence: Box::new(e), judgement: j }, decision) matches Some(
            (t, _, _),
        ) ==> t == Tier::T2,
        !(e.spec_provenance() is Declared) && j is Violated ==> resolution_effect(
            CapabilityResolution::Adopted { evidence: Box::new(e), judgement: j },
            decision,
        ) matches Some((_, ReasonCode::CapabilityViolated, _)),
        !(e.spec_provenance() is Declared) && j is Violated ==> account_one(
            st,
            requirement,
            Enforcement::Enforcing,
            CapabilityResolution::Adopted { evidence: Box::new(e), judgement: j },
            decision,
        ).0.0 == Tier::T2,
        !(e.spec_provenance() is Declared) && j is Violated ==> account_one(
            st,
            requirement,
            Enforcement::Enforcing,
            CapabilityResolution::Ran { evidence: Box::new(e), judgement: j },
            decision,
        ).0.0 == Tier::T2,
{
}

/// Only a fact about the policy crosses from the advisory ledger to the
/// enforced one: an unknown capability or parser. Any other reason an
/// advisory requirement could not be answered escalates the advisory ledger
/// to the top and leaves the enforced ledger exactly as it was.
pub proof fn law_an_advisory_gap_never_blocks(
    st: (LedgerState, LedgerState),
    requirement: RequirementId,
    reason: UnverifiedReason,
    decision: CivilDate,
)
    ensures
        !(reason is UnknownCapability) && !(reason is UnknownParser) ==> {
            let after = account_one(
                st,
                requirement,
                Enforcement::Advisory,
                CapabilityResolution::Unverified { reason },
                decision,
            );
            &&& after.0 == st.0
            &&& after.1.0 == Tier::T2
        },
        (reason is UnknownCapability || reason is UnknownParser) ==> {
            let after = account_one(
                st,
                requirement,
                Enforcement::Advisory,
                CapabilityResolution::Unverified { reason },
                decision,
            );
            &&& after.0.0 == Tier::T2
            &&& after.1 == st.1
        },
{
}

/// A declared waiver holds through its expiry day: accounted on a day no
/// later than the one it expires on, it asks for interface review; on any
/// later day it has lapsed and asks for a human.
pub proof fn law_a_waiver_holds_through_its_expiry_day(
    policy_ref: PolicyRef,
    why: String,
    owner: String,
    expires: CivilDate,
    decision: CivilDate,
)
    requires
        expires.wf(),
        decision.wf(),
    ensures
        ({
            let effect = resolution_effect(
                CapabilityResolution::Skipped {
                    reason: SkipReason::Declared { policy_ref, reason: why, owner, expires },
                },
                decision,
            );
            let day = days_from_civil(decision.spec_year() as int, decision.spec_month() as int, decision.spec_day() as int);
            let last = days_from_civil(expires.spec_year() as int, expires.spec_month() as int, expires.spec_day() as int);
            &&& day <= last ==> (effect matches Some((Tier::T1, ReasonCode::DeclaredSkip, _)))
            &&& day > last ==> (effect matches Some((Tier::T2, ReasonCode::ExpiredSkip, _)))
        }),
{
    law_date_after_is_the_order_of_days(decision, expires);
}

} // verus!
