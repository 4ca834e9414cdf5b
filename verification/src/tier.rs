//! The scrutiny lattice and the verdict derived from it.
//!
//! Adjudication is a join-semilattice: tiers combine by taking the greater,
//! never by assignment, so nothing in a pull request can lower its own tier.
//! [`Verdict`] is a total function of [`Tier`].

use vstd::prelude::*;

verus! {

/// How much scrutiny a change requires, ordered `T0 < T1 < T2`.
#[derive(Clone, Copy, PartialEq, Eq, Structural, PartialOrd, Ord, Hash, Debug)]
pub enum Tier {
    /// No human attention required.
    T0,
    /// The change alters an interface, which someone should look at.
    T1,
    /// A human must review this change.
    T2,
}

/// What should happen to the pull request. Derived from [`Tier`] only.
#[derive(Clone, Copy, PartialEq, Eq, Structural, PartialOrd, Ord, Hash, Debug)]
pub enum Verdict {
    /// Merge without human review.
    Auto,
    /// Someone should check the interface change.
    InterfaceReview,
    /// A human must review.
    Human,
}

/// The position of a tier in the lattice order.
pub open spec fn rank(t: Tier) -> nat {
    match t {
        Tier::T0 => 0,
        Tier::T1 => 1,
        Tier::T2 => 2,
    }
}

/// The lattice order on tiers.
pub open spec fn le(a: Tier, b: Tier) -> bool {
    rank(a) <= rank(b)
}

/// The join: the greater of two tiers.
pub open spec fn spec_join(a: Tier, b: Tier) -> Tier {
    if rank(a) >= rank(b) { a } else { b }
}

/// The join of every tier in `s`, starting from the bottom.
pub open spec fn join_all(s: Seq<Tier>) -> Tier
    decreases s.len(),
{
    if s.len() == 0 {
        Tier::T0
    } else {
        spec_join(join_all(s.drop_last()), s.last())
    }
}

/// The verdict a tier implies.
pub open spec fn spec_verdict(t: Tier) -> Verdict {
    match t {
        Tier::T0 => Verdict::Auto,
        Tier::T1 => Verdict::InterfaceReview,
        Tier::T2 => Verdict::Human,
    }
}

/// The position of a verdict in its order.
pub open spec fn verdict_rank(v: Verdict) -> nat {
    match v {
        Verdict::Auto => 0,
        Verdict::InterfaceReview => 1,
        Verdict::Human => 2,
    }
}

/// The process exit code a tier implies.
pub open spec fn spec_exit_code(t: Tier) -> u8 {
    match t {
        Tier::T0 => 0,
        Tier::T1 => 10,
        Tier::T2 => 20,
    }
}

impl Tier {
    /// The identity of `join`: the least scrutiny.
    pub const BOTTOM: Tier = Tier::T0;

    /// The absorbing element of `join`: the most scrutiny.
    pub const TOP: Tier = Tier::T2;

    /// This tier's position in the lattice order.
    pub fn rank(self) -> (r: u8)
        ensures
            r == rank(self),
    {
        match self {
            Tier::T0 => 0,
            Tier::T1 => 1,
            Tier::T2 => 2,
        }
    }

    /// Whether `self` is at most `other` in the lattice order.
    pub fn is_at_most(self, other: Tier) -> (r: bool)
        ensures
            r == le(self, other),
    {
        self.rank() <= other.rank()
    }

    /// Combine two tiers, taking the greater. The lattice join.
    pub fn join(self, other: Tier) -> (r: Tier)
        ensures
            r == spec_join(self, other),
            rank(r) == if rank(self) >= rank(other) { rank(self) } else { rank(other) },
    {
        if self.rank() >= other.rank() {
            self
        } else {
            other
        }
    }

    /// The most scrutiny demanded by any tier in `tiers`; the bottom when
    /// there are none.
    pub fn most_scrutiny(tiers: &[Tier]) -> (r: Tier)
        ensures
            r == join_all(tiers@),
    {
        let mut acc = Tier::BOTTOM;
        let mut i: usize = 0;
        while i < tiers.len()
            invariant
                i <= tiers@.len(),
                acc == join_all(tiers@.take(i as int)),
            decreases tiers@.len() - i,
        {
            proof {
                assert(tiers@.take(i as int + 1).drop_last() =~= tiers@.take(i as int));
            }
            acc = acc.join(tiers[i]);
            i = i + 1;
        }
        proof {
            assert(tiers@.take(i as int) =~= tiers@);
        }
        acc
    }

    /// The verdict this tier implies. Total, and the only mapping.
    pub fn verdict(self) -> (v: Verdict)
        ensures
            v == spec_verdict(self),
    {
        match self {
            Tier::T0 => Verdict::Auto,
            Tier::T1 => Verdict::InterfaceReview,
            Tier::T2 => Verdict::Human,
        }
    }

    /// The process exit code this tier implies: `0`, `10` or `20`. `1` is
    /// reserved for vibe-check itself failing.
    pub fn exit_code(self) -> (c: u8)
        ensures
            c == spec_exit_code(self),
            c != 1,
    {
        match self {
            Tier::T0 => 0,
            Tier::T1 => 10,
            Tier::T2 => 20,
        }
    }

    /// The rendered name: `T0`, `T1` or `T2`.
    pub fn name(self) -> (s: &'static str)
        ensures
            s@ == tier_name(self),
    {
        match self {
            Tier::T0 => "T0",
            Tier::T1 => "T1",
            Tier::T2 => "T2",
        }
    }
}

/// The rendered name of a tier.
pub open spec fn tier_name(t: Tier) -> Seq<char> {
    match t {
        Tier::T0 => "T0"@,
        Tier::T1 => "T1"@,
        Tier::T2 => "T2"@,
    }
}

impl Verdict {
    /// The rendered name: `auto`, `interface-review` or `human`.
    pub fn name(self) -> (s: &'static str)
        ensures
            s@ == verdict_name(self),
    {
        match self {
            Verdict::Auto => "auto",
            Verdict::InterfaceReview => "interface-review",
            Verdict::Human => "human",
        }
    }

    /// This verdict's position in its order.
    pub fn rank(self) -> (r: u8)
        ensures
            r == verdict_rank(self),
    {
        match self {
            Verdict::Auto => 0,
            Verdict::InterfaceReview => 1,
            Verdict::Human => 2,
        }
    }
}

/// The rendered name of a verdict.
pub open spec fn verdict_name(v: Verdict) -> Seq<char> {
    match v {
        Verdict::Auto => "auto"@,
        Verdict::InterfaceReview => "interface-review"@,
        Verdict::Human => "human"@,
    }
}

/// A join never returns less than either input, and it is one of them.
pub proof fn law_join_is_an_upper_bound(a: Tier, b: Tier)
    ensures
        le(a, spec_join(a, b)),
        le(b, spec_join(a, b)),
        spec_join(a, b) == a || spec_join(a, b) == b,
{
}

/// The order tiers arrive in does not change their join.
pub proof fn law_join_is_commutative(a: Tier, b: Tier)
    ensures
        spec_join(a, b) == spec_join(b, a),
{
}

/// Grouping does not change the join.
pub proof fn law_join_is_associative(a: Tier, b: Tier, c: Tier)
    ensures
        spec_join(spec_join(a, b), c) == spec_join(a, spec_join(b, c)),
{
}

/// Seeing the same tier twice changes nothing.
pub proof fn law_join_is_idempotent(a: Tier)
    ensures
        spec_join(a, a) == a,
{
}

/// The bottom is the identity of the join.
pub proof fn law_bottom_is_the_identity(a: Tier)
    ensures
        spec_join(a, Tier::T0) == a,
        spec_join(Tier::T0, a) == a,
{
}

/// Once human review is demanded nothing can talk it back down.
pub proof fn law_top_absorbs(a: Tier)
    ensures
        spec_join(a, Tier::T2) == Tier::T2,
        spec_join(Tier::T2, a) == Tier::T2,
{
}

/// More scrutiny never yields a more permissive verdict or a smaller exit
/// code.
pub proof fn law_verdict_and_exit_code_are_monotone(a: Tier, b: Tier)
    requires
        le(a, b),
    ensures
        verdict_rank(spec_verdict(a)) <= verdict_rank(spec_verdict(b)),
        spec_exit_code(a) <= spec_exit_code(b),
{
}

/// The join of a sequence is its maximum: at least every member, and one of
/// them (or the bottom when there are none).
pub proof fn law_join_all_is_the_maximum(s: Seq<Tier>)
    ensures
        forall|i: int| 0 <= i < s.len() ==> le(#[trigger] s[i], join_all(s)),
        s.len() == 0 ==> join_all(s) == Tier::T0,
        s.len() > 0 ==> exists|i: int| 0 <= i < s.len() && s[i] == join_all(s),
    decreases s.len(),
{
    if s.len() > 0 {
        law_join_all_is_the_maximum(s.drop_last());
        assert forall|i: int| 0 <= i < s.len() implies le(#[trigger] s[i], join_all(s)) by {
            if i < s.len() - 1 {
                assert(s.drop_last()[i] == s[i]);
            }
        }
        if join_all(s) != s.last() {
            let j = choose|j: int| 0 <= j < s.drop_last().len() && s.drop_last()[j] == join_all(s.drop_last());
            if s.len() > 1 {
                assert(s[j] == join_all(s));
            }
        } else {
            assert(s[s.len() - 1] == join_all(s));
        }
    }
}

/// The join of a sequence does not depend on the order of its members:
/// demands that arrive in any order reach the same tier.
pub proof fn law_join_all_ignores_order(a: Seq<Tier>, b: Seq<Tier>)
    requires
        a.to_multiset() == b.to_multiset(),
    ensures
        join_all(a) == join_all(b),
{
    broadcast use vstd::seq_lib::group_to_multiset_ensures;

    a.to_multiset_ensures();
    b.to_multiset_ensures();
    law_join_all_is_the_maximum(a);
    law_join_all_is_the_maximum(b);
    if a.len() > 0 {
        let i = choose|i: int| 0 <= i < a.len() && a[i] == join_all(a);
        let j = choose|j: int| 0 <= j < b.len() && b[j] == join_all(b);
        assert(a.contains(a[i]));
        assert(b.to_multiset().count(a[i]) > 0);
        assert(b.contains(a[i]));
        let k = choose|k: int| 0 <= k < b.len() && b[k] == a[i];
        assert(le(b[k], join_all(b)));
        assert(b.contains(b[j]));
        assert(a.to_multiset().count(b[j]) > 0);
        assert(a.contains(b[j]));
        let m = choose|m: int| 0 <= m < a.len() && a[m] == b[j];
        assert(le(a[m], join_all(a)));
    }
}

} // verus!
