//! The escalation accumulator: a tier that only rises, and an append-only
//! ledger that replays to it.

use vstd::prelude::*;
use crate::reason::{EvidenceRef, ReasonCode};
use crate::tier::{join_all, law_join_all_ignores_order, le, rank, spec_join, spec_verdict, Tier, Verdict};

verus! {

/// One recorded rise in scrutiny. `to` may equal `from`: a further reason
/// for the same tier is still recorded.
#[derive(Clone, PartialEq, Eq, Debug)]
#[non_exhaustive]
pub struct Escalation {
    /// The tier before this escalation.
    pub from: Tier,
    /// The tier after it.
    pub to: Tier,
    /// Why, as a stable groupable code.
    pub reason: ReasonCode,
    /// Why, in a sentence a human can act on.
    pub detail: String,
    /// What this points at.
    pub evidence: EvidenceRef,
}

/// Whether an escalation raised the tier rather than restating it.
pub open spec fn raises(e: Escalation) -> bool {
    rank(e.to) > rank(e.from)
}

/// Walking a ledger from the bottom: every entry starts where the previous
/// one ended and never falls. `Some(t)` when it does, `t` being where it
/// arrives; `None` when it does not.
pub open spec fn replay(l: Seq<Escalation>) -> Option<Tier>
    decreases l.len(),
{
    if l.len() == 0 {
        Some(Tier::T0)
    } else {
        match replay(l.drop_last()) {
            Some(t) => if l.last().from == t && le(l.last().from, l.last().to) {
                Some(l.last().to)
            } else {
                None
            },
            None => None,
        }
    }
}

/// The tiers a ledger reached, in order.
pub open spec fn tos(l: Seq<Escalation>) -> Seq<Tier> {
    l.map_values(|e: Escalation| e.to)
}

impl Escalation {
    /// Whether this escalation raised the tier.
    pub fn raised_tier(&self) -> (r: bool)
        ensures
            r == raises(*self),
    {
        self.to.rank() > self.from.rank()
    }
}

/// Accumulates escalations, and nothing else. Starts at the bottom and can
/// only rise; `escalate` is its only mutator.
#[derive(Debug)]
pub struct Adjudicator {
    tier: Tier,
    ledger: Vec<Escalation>,
}

impl Adjudicator {
    /// The tier reached so far.
    pub closed spec fn spec_tier(&self) -> Tier {
        self.tier
    }

    /// The escalations recorded so far, in order.
    pub closed spec fn spec_ledger(&self) -> Seq<Escalation> {
        self.ledger@
    }

    /// What every adjudicator keeps: its ledger replays to its tier.
    #[verifier::type_invariant]
    spec fn replays_to_tier(&self) -> bool {
        replay(self.ledger@) == Some(self.tier)
    }

    /// A fresh adjudicator at the bottom, with an empty ledger.
    pub fn new() -> (a: Adjudicator)
        ensures
            a.spec_tier() == Tier::T0,
            a.spec_ledger() == Seq::<Escalation>::empty(),
    {
        Adjudicator { tier: Tier::BOTTOM, ledger: Vec::new() }
    }

    /// Raise the tier to at least `at_least`, recording why. Every call is
    /// recorded, including calls that do not raise the tier.
    pub fn escalate(&mut self, at_least: Tier, reason: ReasonCode, detail: String, evidence: EvidenceRef)
        ensures
            final(self).spec_tier() == spec_join(old(self).spec_tier(), at_least),
            final(self).spec_ledger() == old(self).spec_ledger().push(
                Escalation {
                    from: old(self).spec_tier(),
                    to: spec_join(old(self).spec_tier(), at_least),
                    reason,
                    detail,
                    evidence,
                },
            ),
    {
        let mut current = Adjudicator::new();
        std::mem::swap(&mut current, self);
        proof {
            use_type_invariant(&current);
        }
        let from = current.tier;
        let to = from.join(at_least);
        let mut ledger = current.ledger;
        ledger.push(Escalation { from, to, reason, detail, evidence });
        proof {
            assert(ledger@.drop_last() == old(self).ledger@);
        }
        *self = Adjudicator { tier: to, ledger };
    }

    /// The tier reached so far.
    pub fn tier(&self) -> (t: Tier)
        ensures
            t == self.spec_tier(),
    {
        self.tier
    }

    /// The verdict implied by the tier reached so far.
    pub fn verdict(&self) -> (v: Verdict)
        ensures
            v == spec_verdict(self.spec_tier()),
    {
        self.tier.verdict()
    }

    /// The escalations recorded so far.
    pub fn ledger(&self) -> (l: &[Escalation])
        ensures
            l@ == self.spec_ledger(),
    {
        self.ledger.as_slice()
    }

    /// Finish, producing an immutable [`Adjudication`].
    pub fn finish(self) -> (a: Adjudication)
        ensures
            a.tier == self.spec_tier(),
            a.verdict == spec_verdict(self.spec_tier()),
            a.escalations@ == self.spec_ledger(),
            replay(a.escalations@) == Some(a.tier),
    {
        proof {
            use_type_invariant(&self);
        }
        Adjudication { verdict: self.tier.verdict(), tier: self.tier, escalations: self.ledger }
    }
}

/// A completed adjudication: the tier, the verdict that follows from it,
/// and every escalation in accounting order.
#[derive(Clone, PartialEq, Eq, Debug)]
#[non_exhaustive]
pub struct Adjudication {
    /// The tier reached.
    pub tier: Tier,
    /// The verdict, derived from the tier.
    pub verdict: Verdict,
    /// Every escalation, in accounting order.
    pub escalations: Vec<Escalation>,
}

/// The escalations of `l` that raised the tier, in order.
pub open spec fn raising_of(l: Seq<Escalation>) -> Seq<Escalation> {
    l.filter(|e: Escalation| raises(e))
}

/// Why a recorded adjudication is not one `Adjudicator::finish` could have
/// written.
#[derive(Clone, Copy, PartialEq, Eq, Structural, Debug)]
#[non_exhaustive]
pub enum ReplayError {
    /// An escalation whose tier fell.
    TierFell {
        /// The tier the escalation claims to start from.
        from: Tier,
        /// The lower tier it claims to reach.
        to: Tier,
    },
    /// The verdict does not agree with the tier beside it.
    VerdictDisagrees {
        /// The recorded tier.
        tier: Tier,
        /// The recorded verdict.
        verdict: Verdict,
        /// The verdict the recorded tier implies.
        expected: Verdict,
    },
    /// An escalation does not start where the previous one ended.
    LedgerDiscontinuous {
        /// Position of the offending escalation.
        index: usize,
        /// The tier the walk had reached.
        expected: Tier,
        /// The tier the escalation claims to start from.
        found: Tier,
    },
    /// The ledger replays to a different tier than the one recorded.
    LedgerDoesNotReplay {
        /// The tier the adjudication claims.
        recorded: Tier,
        /// The tier its own escalations arrive at.
        replayed: Tier,
    },
}

/// The tier reached by walking the first `n` entries, trusting continuity.
pub open spec fn walk_to(l: Seq<Escalation>, n: int) -> Tier {
    if n <= 0 { Tier::T0 } else { l[n - 1].to }
}

/// The first index whose escalation falls, if any.
pub open spec fn first_fall(l: Seq<Escalation>, from: int) -> Option<int>
    decreases l.len() - from,
{
    if from < 0 || from >= l.len() {
        None
    } else if !le(l[from].from, l[from].to) {
        Some(from)
    } else {
        first_fall(l, from + 1)
    }
}

/// The first index whose escalation does not start where the previous ended.
pub open spec fn first_break(l: Seq<Escalation>, from: int) -> Option<int>
    decreases l.len() - from,
{
    if from < 0 || from >= l.len() {
        None
    } else if l[from].from != walk_to(l, from) {
        Some(from)
    } else {
        first_break(l, from + 1)
    }
}

/// What reading back `(tier, verdict, escalations)` owes: the first fault, in
/// the order the checks are made, or `None` when the record is one `finish`
/// could have written.
pub open spec fn replay_fault(tier: Tier, verdict: Verdict, l: Seq<Escalation>) -> Option<ReplayError> {
    match first_fall(l, 0) {
        Some(i) => Some(ReplayError::TierFell { from: l[i].from, to: l[i].to }),
        None => if verdict != spec_verdict(tier) {
            Some(ReplayError::VerdictDisagrees { tier, verdict, expected: spec_verdict(tier) })
        } else {
            match first_break(l, 0) {
                Some(i) => Some(
                    ReplayError::LedgerDiscontinuous {
                        index: i as usize,
                        expected: walk_to(l, i),
                        found: l[i].from,
                    },
                ),
                None => if walk_to(l, l.len() as int) != tier {
                    Some(ReplayError::LedgerDoesNotReplay { recorded: tier, replayed: walk_to(l, l.len() as int) })
                } else {
                    None
                },
            }
        },
    }
}

proof fn lemma_first_fall(l: Seq<Escalation>, from: int)
    requires
        0 <= from,
    ensures
        first_fall(l, from) is None <==> forall|j: int| from <= j < l.len() ==> le(#[trigger] l[j].from, l[j].to),
    decreases l.len() - from,
{
    if from < l.len() && le(l[from].from, l[from].to) {
        lemma_first_fall(l, from + 1);
    }
}

proof fn lemma_first_break(l: Seq<Escalation>, from: int)
    requires
        0 <= from,
    ensures
        first_break(l, from) is None <==> forall|j: int| from <= j < l.len() ==> #[trigger] l[j].from == walk_to(l, j),
    decreases l.len() - from,
{
    if from < l.len() && l[from].from == walk_to(l, from) {
        lemma_first_break(l, from + 1);
    }
}

/// A ledger replays exactly when no entry falls, every entry starts where the
/// previous ended, and then it arrives where its last entry ends.
proof fn lemma_replay_characterised(l: Seq<Escalation>)
    ensures
        replay(l) is Some <==> (
            (forall|j: int| 0 <= j < l.len() ==> le(#[trigger] l[j].from, l[j].to))
            && (forall|j: int| 0 <= j < l.len() ==> #[trigger] l[j].from == walk_to(l, j))
        ),
        replay(l) is Some ==> replay(l) == Some(walk_to(l, l.len() as int)),
    decreases l.len(),
{
    if l.len() > 0 {
        let p = l.drop_last();
        lemma_replay_characterised(p);
        assert forall|j: int| 0 <= j < p.len() implies walk_to(p, j) == walk_to(l, j) by {
            if j > 0 {
                assert(p[j - 1] == l[j - 1]);
            }
        }
        if replay(l) is Some {
            assert forall|j: int| 0 <= j < l.len() implies le(#[trigger] l[j].from, l[j].to) by {
                if j < p.len() {
                    assert(p[j] == l[j]);
                }
            }
            assert forall|j: int| 0 <= j < l.len() implies #[trigger] l[j].from == walk_to(l, j) by {
                if j < p.len() {
                    assert(p[j] == l[j]);
                } else {
                    if p.len() > 0 {
                        assert(p[p.len() - 1] == l[p.len() - 1]);
                    }
                }
            }
        } else {
            if (forall|j: int| 0 <= j < l.len() ==> le(#[trigger] l[j].from, l[j].to))
                && (forall|j: int| 0 <= j < l.len() ==> #[trigger] l[j].from == walk_to(l, j)) {
                assert forall|j: int| 0 <= j < p.len() implies le(#[trigger] p[j].from, p[j].to) by {
                    assert(p[j] == l[j]);
                }
                assert forall|j: int| 0 <= j < p.len() implies #[trigger] p[j].from == walk_to(p, j) by {
                    assert(p[j] == l[j]);
                }
                let last = l.len() - 1;
                assert(l[last].from == walk_to(l, last));
                if p.len() > 0 {
                    assert(p[p.len() - 1] == l[p.len() - 1]);
                }
                assert(false);
            }
        }
    }
}

/// A record reads back exactly when it is one `Adjudicator::finish` could
/// have written: its verdict is its tier's, and its ledger replays to its
/// tier.
pub proof fn law_read_back_admits_exactly_what_finish_writes(tier: Tier, verdict: Verdict, l: Seq<Escalation>)
    ensures
        replay_fault(tier, verdict, l) is None <==> (verdict == spec_verdict(tier) && replay(l) == Some(tier)),
{
    lemma_first_fall(l, 0);
    lemma_first_break(l, 0);
    lemma_replay_characterised(l);
}

/// The ledger replays to the tier it reports: joining every entry's `to`
/// from the bottom gives the tier.
pub proof fn law_ledger_replays_to_the_same_tier(l: Seq<Escalation>, t: Tier)
    requires
        replay(l) == Some(t),
    ensures
        join_all(tos(l)) == t,
    decreases l.len(),
{
    if l.len() > 0 {
        let p = l.drop_last();
        let tp = replay(p)->0;
        law_ledger_replays_to_the_same_tier(p, tp);
        assert(tos(l).drop_last() =~= tos(p));
        assert(tos(l).last() == l.last().to);
    }
}

/// No entry of a replaying ledger lowers the tier, and the tier reached is
/// at least every entry's starting tier.
pub proof fn law_tier_never_decreases(l: Seq<Escalation>, t: Tier)
    requires
        replay(l) == Some(t),
    ensures
        forall|j: int| 0 <= j < l.len() ==> le(#[trigger] l[j].from, l[j].to) && le(l[j].to, t),
    decreases l.len(),
{
    if l.len() > 0 {
        let p = l.drop_last();
        let tp = replay(p)->0;
        law_tier_never_decreases(p, tp);
        assert forall|j: int| 0 <= j < l.len() implies le(#[trigger] l[j].from, l[j].to) && le(l[j].to, t) by {
            if j < p.len() {
                assert(p[j] == l[j]);
            }
        }
    }
}

/// Each state is the one before it, escalated to at least the matching
/// demand.
pub open spec fn escalations_follow(states: Seq<Adjudicator>, demands: Seq<Tier>) -> bool {
    &&& states.len() == demands.len() + 1
    &&& forall|i: int|
        0 <= i < demands.len() ==> states[i + 1].spec_tier() == spec_join(
            states[i].spec_tier(),
            #[trigger] demands[i],
        )
}

proof fn lemma_tier_after_demands(states: Seq<Adjudicator>, demands: Seq<Tier>, k: int)
    requires
        escalations_follow(states, demands),
        states[0].spec_tier() == Tier::T0,
        0 <= k <= demands.len(),
    ensures
        states[k].spec_tier() == join_all(demands.take(k)),
    decreases k,
{
    if k == 0 {
        assert(demands.take(0) =~= Seq::<Tier>::empty());
    } else {
        lemma_tier_after_demands(states, demands, k - 1);
        assert(demands.take(k).drop_last() =~= demands.take(k - 1));
        assert(demands.take(k).last() == demands[k - 1]);
        assert(states[k].spec_tier() == spec_join(states[k - 1].spec_tier(), demands[k - 1]));
    }
}

/// Starting from a fresh adjudicator, a sequence of escalations ends at the
/// join of every tier demanded, whatever order the demands arrived in
/// (`reordered` is any rearrangement of them).
pub proof fn law_the_finished_tier_is_the_join_of_every_demand(
    states: Seq<Adjudicator>,
    demands: Seq<Tier>,
    reordered: Seq<Tier>,
)
    requires
        escalations_follow(states, demands),
        states[0].spec_tier() == Tier::T0,
        reordered.to_multiset() == demands.to_multiset(),
    ensures
        states.last().spec_tier() == join_all(demands),
        states.last().spec_tier() == join_all(reordered),
{
    lemma_tier_after_demands(states, demands, demands.len() as int);
    assert(demands.take(demands.len() as int) =~= demands);
    law_join_all_ignores_order(demands, reordered);
}

impl Adjudication {
    /// The escalations that actually raised the tier, in order.
    pub fn raising(&self) -> (r: Vec<&Escalation>)
        ensures
            r@.len() == raising_of(self.escalations@).len(),
            forall|i: int| 0 <= i < r@.len() ==> *r@[i] == raising_of(self.escalations@)[i],
    {
        let mut r: Vec<&Escalation> = Vec::new();
        let mut i: usize = 0;
        let ghost l = self.escalations@;
        while i < self.escalations.len()
            invariant
                l == self.escalations@,
                i <= l.len(),
                r@.len() == raising_of(l.take(i as int)).len(),
                forall|k: int| 0 <= k < r@.len() ==> *r@[k] == raising_of(l.take(i as int))[k],
            decreases l.len() - i,
        {
            proof {
                reveal_with_fuel(Seq::filter, 1);
                assert(l.take(i as int + 1).drop_last() =~= l.take(i as int));
            }
            let e = &self.escalations[i];
            if e.raised_tier() {
                r.push(e);
            }
            i = i + 1;
        }
        proof {
            assert(l.take(i as int) =~= l);
        }
        r
    }

    /// The first escalation that reached the final tier, if any: the
    /// "driven by" line of a report.
    pub fn primary_cause(&self) -> (r: Option<&Escalation>)
        ensures
            match r {
                Some(e) => exists|i: int| 0 <= i < self.escalations@.len()
                    && *e == self.escalations@[i]
                    && e.to == self.tier
                    && forall|j: int| 0 <= j < i ==> #[trigger] self.escalations@[j].to != self.tier,
                None => forall|j: int| 0 <= j < self.escalations@.len() ==> #[trigger] self.escalations@[j].to != self.tier,
            },
    {
        let mut i: usize = 0;
        while i < self.escalations.len()
            invariant
                i <= self.escalations@.len(),
                forall|j: int| 0 <= j < i ==> #[trigger] self.escalations@[j].to != self.tier,
            decreases self.escalations@.len() - i,
        {
            if self.escalations[i].to == self.tier {
                return Some(&self.escalations[i]);
            }
            i = i + 1;
        }
        None
    }

    /// Rebuild a recorded adjudication, or say why it is not one. Checks, in
    /// order: that no escalation falls, that the verdict is the tier's, that
    /// the ledger is continuous from the bottom, and that it arrives at the
    /// recorded tier.
    pub fn from_wire(tier: Tier, verdict: Verdict, escalations: Vec<Escalation>) -> (r: Result<Adjudication, ReplayError>)
        ensures
            match r {
                Ok(a) => replay_fault(tier, verdict, escalations@) is None
                    && a.tier == tier && a.verdict == verdict && a.escalations@ == escalations@,
                Err(e) => replay_fault(tier, verdict, escalations@) == Some(e),
            },
    {
        let ghost l = escalations@;
        let mut i: usize = 0;
        while i < escalations.len()
            invariant
                l == escalations@,
                i <= l.len(),
                first_fall(l, 0) == first_fall(l, i as int),
            decreases l.len() - i,
        {
            let from = escalations[i].from;
            let to = escalations[i].to;
            if to.rank() < from.rank() {
                proof {
                    assert(first_fall(l, i as int) == Some(i as int));
                }
                return Err(ReplayError::TierFell { from, to });
            }
            proof {
                assert(first_fall(l, i as int) == first_fall(l, i as int + 1));
            }
            i = i + 1;
        }
        proof {
            assert(first_fall(l, i as int) is None);
        }
        let expected = tier.verdict();
        if verdict != expected {
            return Err(ReplayError::VerdictDisagrees { tier, verdict, expected });
        }
        let mut replayed = Tier::BOTTOM;
        let mut k: usize = 0;
        while k < escalations.len()
            invariant
                l == escalations@,
                k <= l.len(),
                first_fall(l, 0) is None,
                verdict == spec_verdict(tier),
                replayed == walk_to(l, k as int),
                first_break(l, 0) == first_break(l, k as int),
            decreases l.len() - k,
        {
            if escalations[k].from != replayed {
                proof {
                    assert(first_break(l, k as int) == Some(k as int));
                }
                return Err(
                    ReplayError::LedgerDiscontinuous { index: k, expected: replayed, found: escalations[k].from },
                );
            }
            proof {
                assert(first_break(l, k as int) == first_break(l, k as int + 1));
            }
            replayed = escalations[k].to;
            k = k + 1;
        }
        proof {
            assert(first_break(l, k as int) is None);
        }
        if replayed != tier {
            return Err(ReplayError::LedgerDoesNotReplay { recorded: tier, replayed });
        }
        Ok(Adjudication { tier, verdict, escalations })
    }
}

/// Read-back checking for a single escalation: one whose tier falls is
/// refused.
impl Escalation {
    /// Rebuild a recorded escalation, refusing one that lowers the tier.
    pub fn from_wire(from: Tier, to: Tier, reason: ReasonCode, detail: String, evidence: EvidenceRef) -> (r: Result<Escalation, ReplayError>)
        ensures
            match r {
                Ok(e) => le(from, to) && e == (Escalation { from, to, reason, detail, evidence }),
                Err(err) => !le(from, to) && err == (ReplayError::TierFell { from, to }),
            },
    {
        if to.rank() < from.rank() {
            return Err(ReplayError::TierFell { from, to });
        }
        Ok(Escalation { from, to, reason, detail, evidence })
    }
}

} // verus!
