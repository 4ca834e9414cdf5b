//! Identifiers that may name something this build does not implement.
//!
//! A policy document can name a risk flag, capability or parser this build
//! cannot evaluate. Refusing the document is wrong (you cannot escalate over
//! what you refused to represent) and dropping the entry is worse (it turns
//! "cannot check" into "nothing demanded"). So the unknown case is
//! representable, and the only way to the value takes an [`Adjudicator`],
//! which is escalated to the top as a side effect when there is no value.

use vstd::prelude::*;
use crate::adjudicate::accumulator::Adjudicator;
use crate::reason::{EvidenceRef, ReasonCode};
use crate::text::{push_str, string_of};
use crate::tier::Tier;

verus! {

/// What kind of thing an unknown identifier was supposed to name.
#[derive(Clone, Copy, PartialEq, Eq, Structural, PartialOrd, Ord, Hash, Debug)]
#[non_exhaustive]
pub enum UnknownKind {
    /// A risk flag no registered analyzer emits.
    RiskFlag,
    /// A capability this build does not implement.
    Capability,
    /// An evidence parser this build does not implement.
    Parser,
    /// A key the policy schema does not define.
    PolicyKey,
    /// A cost class outside the known set.
    CostClass,
    /// A scheduling lane outside the configured set.
    Lane,
}

/// The reason code an unknown of this kind escalates with.
pub open spec fn unknown_reason(k: UnknownKind) -> ReasonCode {
    match k {
        UnknownKind::RiskFlag => ReasonCode::UnknownRiskFlag,
        UnknownKind::Capability => ReasonCode::UnknownCapability,
        UnknownKind::Parser => ReasonCode::UnknownParser,
        _ => ReasonCode::UnknownPolicyKey,
    }
}

/// The noun for an unknown of this kind.
pub open spec fn unknown_noun(k: UnknownKind) -> Seq<char> {
    match k {
        UnknownKind::RiskFlag => "risk flag"@,
        UnknownKind::Capability => "capability"@,
        UnknownKind::Parser => "parser"@,
        UnknownKind::PolicyKey => "policy key"@,
        UnknownKind::CostClass => "cost class"@,
        UnknownKind::Lane => "lane"@,
    }
}

impl UnknownKind {
    /// The reason code an unknown of this kind escalates with.
    pub fn reason(self) -> (r: ReasonCode)
        ensures
            r == unknown_reason(self),
    {
        match self {
            UnknownKind::RiskFlag => ReasonCode::UnknownRiskFlag,
            UnknownKind::Capability => ReasonCode::UnknownCapability,
            UnknownKind::Parser => ReasonCode::UnknownParser,
            UnknownKind::PolicyKey | UnknownKind::CostClass | UnknownKind::Lane => ReasonCode::UnknownPolicyKey,
        }
    }

    /// Human-readable noun, for error messages.
    pub fn noun(self) -> (s: &'static str)
        ensures
            s@ == unknown_noun(self),
    {
        match self {
            UnknownKind::RiskFlag => "risk flag",
            UnknownKind::Capability => "capability",
            UnknownKind::Parser => "parser",
            UnknownKind::PolicyKey => "policy key",
            UnknownKind::CostClass => "cost class",
            UnknownKind::Lane => "lane",
        }
    }
}

/// The ledger line an unknown identifier escalates with.
pub open spec fn unknown_detail(kind: UnknownKind, id: Seq<char>) -> Seq<char> {
    "policy references "@ + unknown_noun(kind) + " `"@ + id
        + "`, which this build does not implement; upgrade vibe-check or remove the reference. This change is escalated to human review until then."@
}

/// Private, so that [`Known::get`] is the only path to the value.
#[derive(Clone, PartialEq, Eq, Debug)]
enum Inner<T> {
    Known(T),
    Unknown { id: String, kind: UnknownKind, origin: EvidenceRef },
}

/// Either a resolved `T`, or an identifier this build does not recognize.
#[derive(Clone, PartialEq, Eq, Debug)]
pub struct Known<T>(Inner<T>);

impl<T> Known<T> {
    /// The value, when the identifier resolved.
    pub closed spec fn spec_value(&self) -> Option<T> {
        match self.0 {
            Inner::Known(v) => Some(v),
            Inner::Unknown { .. } => None,
        }
    }

    /// The identifier, its kind and where it came from, when it did not
    /// resolve.
    pub closed spec fn spec_unknown(&self) -> Option<(Seq<char>, UnknownKind, EvidenceRef)> {
        match self.0 {
            Inner::Known(_) => None,
            Inner::Unknown { id, kind, origin } => Some((id@, kind, origin)),
        }
    }

    /// Wrap a value that resolved successfully.
    pub fn resolved(value: T) -> (k: Known<T>)
        ensures
            k.spec_value() == Some(value),
            k.spec_unknown() is None,
    {
        Known(Inner::Known(value))
    }

    /// Record an identifier that did not resolve.
    pub fn unresolved(id: &str, kind: UnknownKind, origin: EvidenceRef) -> (k: Known<T>)
        ensures
            k.spec_value() is None,
            k.spec_unknown() == Some((id@, kind, origin)),
    {
        Known(Inner::Unknown { id: string_of(id), kind, origin })
    }

    /// Resolve `id` through `lookup`, remembering the identifier either way.
    pub fn resolve<F: FnOnce(&str) -> Option<T>>(id: &str, kind: UnknownKind, origin: EvidenceRef, lookup: F) -> (k: Known<T>)
        requires
            call_requires(lookup, (id,)),
        ensures
            exists|found: Option<T>|
                #![trigger call_ensures(lookup, (id,), found)]
                call_ensures(lookup, (id,), found) && match found {
                    Some(v) => k.spec_value() == Some(v) && k.spec_unknown() is None,
                    None => k.spec_value() is None && k.spec_unknown() == Some((id@, kind, origin)),
                },
    {
        match lookup(id) {
            Some(value) => Known(Inner::Known(value)),
            None => Known(Inner::Unknown { id: string_of(id), kind, origin }),
        }
    }

    /// Whether the identifier resolved. Does not hand back the value.
    pub fn is_known(&self) -> (r: bool)
        ensures
            r == (self.spec_value() is Some),
    {
        match &self.0 {
            Inner::Known(_) => true,
            Inner::Unknown { .. } => false,
        }
    }

    /// The kind of thing that failed to resolve, if it failed.
    pub fn unknown_kind(&self) -> (r: Option<UnknownKind>)
        ensures
            match self.spec_unknown() {
                Some((_, kind, _)) => r == Some(kind),
                None => r is None,
            },
    {
        match &self.0 {
            Inner::Known(_) => None,
            Inner::Unknown { kind, .. } => Some(*kind),
        }
    }

    /// Take the value, escalating to the top when it did not resolve: the
    /// only way to reach the inner value, so observing an unknown identifier
    /// without escalating is not expressible.
    pub fn get(self, adjudicator: &mut Adjudicator) -> (r: Option<T>)
        ensures
            r == self.spec_value(),
            self.spec_value() is Some ==> *final(adjudicator) == *old(adjudicator),
            self.spec_unknown() matches Some((id, kind, origin)) ==> {
                let e = final(adjudicator).spec_ledger().last();
                &&& final(adjudicator).spec_tier() == Tier::T2
                &&& final(adjudicator).spec_ledger().len() == old(adjudicator).spec_ledger().len() + 1
                &&& final(adjudicator).spec_ledger().drop_last() == old(adjudicator).spec_ledger()
                &&& e.from == old(adjudicator).spec_tier()
                &&& e.to == Tier::T2
                &&& e.reason == unknown_reason(kind)
                &&& e.detail@ == unknown_detail(kind, id)
                &&& e.evidence == origin
            },
    {
        match self.0 {
            Inner::Known(value) => Some(value),
            Inner::Unknown { id, kind, origin } => {
                let mut detail = string_of("policy references ");
                push_str(&mut detail, kind.noun());
                push_str(&mut detail, " `");
                push_str(&mut detail, id.as_str());
                push_str(
                    &mut detail,
                    "`, which this build does not implement; upgrade vibe-check or remove the reference. This change is escalated to human review until then.",
                );
                adjudicator.escalate(Tier::TOP, kind.reason(), detail, origin);
                proof {
                    assert(final(adjudicator).spec_ledger().drop_last() =~= old(adjudicator).spec_ledger());
                }
                None
            },
        }
    }
}

impl Known<crate::ids::RiskFlagId> {
    /// The identifier, whether or not it resolved.
    pub fn id(&self) -> (s: &str)
        ensures
            match self.spec_unknown() {
                Some((id, _, _)) => s@ == id,
                None => self.spec_value() matches Some(v) && s@ == v@,
            },
    {
        match &self.0 {
            Inner::Known(value) => value.as_str(),
            Inner::Unknown { id, .. } => id.as_str(),
        }
    }

    /// The identifier, with ` (unknown)` after it when it did not resolve.
    pub fn to_string(&self) -> (s: String)
        ensures
            match self.spec_unknown() {
                Some((id, _, _)) => s@ == id + " (unknown)"@,
                None => self.spec_value() matches Some(v) && s@ == v@,
            },
    {
        let mut s = string_of(self.id());
        if !self.is_known() {
            push_str(&mut s, " (unknown)");
        }
        s
    }
}

impl Known<crate::ids::CapabilityId> {
    /// The identifier, whether or not it resolved.
    pub fn id(&self) -> (s: &str)
        ensures
            match self.spec_unknown() {
                Some((id, _, _)) => s@ == id,
                None => self.spec_value() matches Some(v) && s@ == v@,
            },
    {
        match &self.0 {
            Inner::Known(value) => value.as_str(),
            Inner::Unknown { id, .. } => id.as_str(),
        }
    }

    /// The identifier, with ` (unknown)` after it when it did not resolve.
    pub fn to_string(&self) -> (s: String)
        ensures
            match self.spec_unknown() {
                Some((id, _, _)) => s@ == id + " (unknown)"@,
                None => self.spec_value() matches Some(v) && s@ == v@,
            },
    {
        let mut s = string_of(self.id());
        if !self.is_known() {
            push_str(&mut s, " (unknown)");
        }
        s
    }
}

} // verus!
