//! Advisory requirements, expressed as a second adjudicator rather than as a
//! ceiling: there is no downward operation anywhere.

use vstd::prelude::*;
use super::accumulator::{replay, Adjudication, Adjudicator, Escalation};
use crate::reason::{EvidenceRef, ReasonCode};
use crate::tier::{spec_join, spec_verdict, Tier, Verdict};

verus! {

/// Whether a requirement's outcome may raise the enforced tier.
#[derive(Clone, Copy, PartialEq, Eq, Structural, PartialOrd, Ord, Hash, Debug)]
pub enum Enforcement {
    /// The outcome may raise the enforced tier, and so the verdict.
    Enforcing,
    /// The outcome is recorded and reported, only in the advisory ledger.
    Advisory,
}

/// The wire string of an enforcement.
pub open spec fn enforcement_wire(e: Enforcement) -> Seq<char> {
    match e {
        Enforcement::Enforcing => "enforcing"@,
        Enforcement::Advisory => "advisory"@,
    }
}

impl Enforcement {
    /// The stable wire string for this value.
    pub fn as_str(self) -> (s: &'static str)
        ensures
            s@ == enforcement_wire(self),
    {
        match self {
            Enforcement::Enforcing => "enforcing",
            Enforcement::Advisory => "advisory",
        }
    }
}

/// The two independent ledgers a run accumulates into. Only the enforcing
/// one becomes a verdict.
#[derive(Debug)]
pub struct Adjudicators {
    enforcing: Adjudicator,
    advisory: Adjudicator,
}

impl Adjudicators {
    /// The enforcing ledger.
    pub closed spec fn spec_enforcing(&self) -> Adjudicator {
        self.enforcing
    }

    /// The advisory ledger.
    pub closed spec fn spec_advisory(&self) -> Adjudicator {
        self.advisory
    }

    /// A fresh pair, both at the bottom.
    pub fn new() -> (a: Adjudicators)
        ensures
            a.spec_enforcing().spec_tier() == Tier::T0,
            a.spec_enforcing().spec_ledger() == Seq::<Escalation>::empty(),
            a.spec_advisory().spec_tier() == Tier::T0,
            a.spec_advisory().spec_ledger() == Seq::<Escalation>::empty(),
    {
        Adjudicators { enforcing: Adjudicator::new(), advisory: Adjudicator::new() }
    }

    /// Escalate the ledger an outcome with this enforcement belongs in.
    /// Crate-private: the routing decision belongs to resolution accounting,
    /// which applies the policy-integrity override first.
    pub(crate) fn escalate_lane(
        &mut self,
        lane: Enforcement,
        at_least: Tier,
        reason: ReasonCode,
        detail: String,
        evidence: EvidenceRef,
    )
        ensures
            lane == Enforcement::Enforcing ==> {
                &&& final(self).spec_advisory() == old(self).spec_advisory()
                &&& final(self).spec_enforcing().spec_tier() == spec_join(old(self).spec_enforcing().spec_tier(), at_least)
                &&& final(self).spec_enforcing().spec_ledger() == old(self).spec_enforcing().spec_ledger().push(
                    Escalation {
                        from: old(self).spec_enforcing().spec_tier(),
                        to: spec_join(old(self).spec_enforcing().spec_tier(), at_least),
                        reason,
                        detail,
                        evidence,
                    },
                )
            },
            lane == Enforcement::Advisory ==> {
                &&& final(self).spec_enforcing() == old(self).spec_enforcing()
                &&& final(self).spec_advisory().spec_tier() == spec_join(old(self).spec_advisory().spec_tier(), at_least)
                &&& final(self).spec_advisory().spec_ledger() == old(self).spec_advisory().spec_ledger().push(
                    Escalation {
                        from: old(self).spec_advisory().spec_tier(),
                        to: spec_join(old(self).spec_advisory().spec_tier(), at_least),
                        reason,
                        detail,
                        evidence,
                    },
                )
            },
    {
        match lane {
            Enforcement::Enforcing => self.enforcing.escalate(at_least, reason, detail, evidence),
            Enforcement::Advisory => self.advisory.escalate(at_least, reason, detail, evidence),
        }
    }

    /// The ledger for facts about the policy itself: always the enforcing
    /// one. The only `&mut Adjudicator` reachable from outside the crate.
    pub fn integrity(&mut self) -> (a: &mut Adjudicator)
        ensures
            *a == old(self).spec_enforcing(),
            final(self).spec_enforcing() == *final(a),
            final(self).spec_advisory() == old(self).spec_advisory(),
    {
        &mut self.enforcing
    }

    /// The enforced tier so far.
    pub fn enforced_tier(&self) -> (t: Tier)
        ensures
            t == self.spec_enforcing().spec_tier(),
    {
        self.enforcing.tier()
    }

    /// The advisory tier so far.
    pub fn advisory_tier(&self) -> (t: Tier)
        ensures
            t == self.spec_advisory().spec_tier(),
    {
        self.advisory.tier()
    }

    /// Finish both ledgers, as two distinct types so they cannot be bound
    /// transposed.
    pub fn finish(self) -> (r: (EnforcedAdjudication, AdvisoryAdjudication))
        ensures
            r.0.spec_inner().tier == self.spec_enforcing().spec_tier(),
            r.0.spec_inner().verdict == spec_verdict(self.spec_enforcing().spec_tier()),
            r.0.spec_inner().escalations@ == self.spec_enforcing().spec_ledger(),
            r.1.spec_tier() == self.spec_advisory().spec_tier(),
            r.1.spec_escalations() == self.spec_advisory().spec_ledger(),
            replay(r.1.spec_escalations()) == Some(r.1.spec_tier()),
    {
        let advisory = self.advisory.finish();
        (
            EnforcedAdjudication { inner: self.enforcing.finish() },
            AdvisoryAdjudication { tier: advisory.tier, escalations: advisory.escalations },
        )
    }
}

/// A finished adjudication that is allowed to become a verdict.
#[derive(Clone, PartialEq, Eq, Debug)]
pub struct EnforcedAdjudication {
    inner: Adjudication,
}

impl EnforcedAdjudication {
    /// The finished enforcing ledger.
    pub closed spec fn spec_inner(&self) -> Adjudication {
        self.inner
    }

    /// The enforced tier.
    pub fn tier(&self) -> (t: Tier)
        ensures
            t == self.spec_inner().tier,
    {
        self.inner.tier
    }

    /// The verdict, derived from the enforced tier.
    pub fn verdict(&self) -> (v: Verdict)
        ensures
            v == self.spec_inner().verdict,
    {
        self.inner.verdict
    }

    /// The full adjudication, for rendering.
    pub fn adjudication(&self) -> (a: &Adjudication)
        ensures
            *a == self.spec_inner(),
    {
        &self.inner
    }

    /// Take the adjudication, for the bundle's `adjudication` field.
    pub fn into_adjudication(self) -> (a: Adjudication)
        ensures
            a == self.spec_inner(),
    {
        self.inner
    }
}

/// A finished advisory ledger: a tier and its escalations, and no verdict.
#[derive(Clone, PartialEq, Eq, Debug)]
pub struct AdvisoryAdjudication {
    tier: Tier,
    escalations: Vec<Escalation>,
}

impl AdvisoryAdjudication {
    /// The tier the advisory ledger reached on its own.
    pub closed spec fn spec_tier(&self) -> Tier {
        self.tier
    }

    /// The advisory escalations, in order.
    pub closed spec fn spec_escalations(&self) -> Seq<Escalation> {
        self.escalations@
    }

    /// The tier the advisory-routed outcomes reached on their own. The
    /// counterfactual "had everything been enforcing" is this joined with the
    /// enforced tier.
    pub fn tier(&self) -> (t: Tier)
        ensures
            t == self.spec_tier(),
    {
        self.tier
    }

    /// Every advisory escalation, in order.
    pub fn escalations(&self) -> (l: &[Escalation])
        ensures
            l@ == self.spec_escalations(),
    {
        self.escalations.as_slice()
    }

    /// Take the escalations, for the bundle's `advisory_escalations` field.
    pub fn into_escalations(self) -> (l: Vec<Escalation>)
        ensures
            l@ == self.spec_escalations(),
    {
        self.escalations
    }

    /// The advisory escalations that raised the advisory tier, in order.
    pub fn raising(&self) -> (r: Vec<&Escalation>)
        ensures
            r@.len() == super::accumulator::raising_of(self.spec_escalations()).len(),
            forall|i: int| 0 <= i < r@.len() ==> *r@[i] == super::accumulator::raising_of(self.spec_escalations())[i],
    {
        let mut r: Vec<&Escalation> = Vec::new();
        let mut i: usize = 0;
        let ghost l = self.escalations@;
        while i < self.escalations.len()
            invariant
                l == self.escalations@,
                i <= l.len(),
                r@.len() == super::accumulator::raising_of(l.take(i as int)).len(),
                forall|k: int| 0 <= k < r@.len() ==> *r@[k] == super::accumulator::raising_of(l.take(i as int))[k],
            decreases l.len() - i,
        {
            proof {
                reveal_with_fuel(Seq::filter, 1);
                assert(l.take(i as int + 1).drop_last() =~= l.take(i as int));
            }
            let e = &self.escalations[i];
            if e.raised_tier() {
                r.push(e);
            }
            i = i + 1;
        }
        proof {
            assert(l.take(i as int) =~= l);
        }
        r
    }

    /// How many advisory escalations were recorded.
    pub fn count(&self) -> (n: usize)
        ensures
            n == self.spec_escalations().len(),
    {
        self.escalations.len()
    }
}

} // verus!
