//! The evidence bundle: the frozen core, what produced it, the verdict and
//! both ledgers, and the counts that say how much of the picture we had.
//!
//! [`BundleCore`] never changes; everything around it is additive. Counting
//! is over requirements, except the one count that can only be over
//! capabilities, which says so in the sentence it prints.

use vstd::prelude::*;
use crate::adjudicate::accumulator::{Adjudication, Escalation};
use crate::adjudicate::enforcement::{AdvisoryAdjudication, EnforcedAdjudication, Enforcement};
use crate::ids::{CapabilityId, RiskFlagId};
use crate::json::Json;
use crate::resolution::ResolutionState;
use crate::schema::SchemaVersion;
use crate::text::{decimal, join_text, push_joined, push_str, push_u64, seq_lt, str_eq, views};
use crate::tier::{le, spec_join, Tier, Verdict};

verus! {

/// The part of the bundle that is guaranteed stable forever.
#[derive(Clone, PartialEq, Eq, Debug)]
pub struct BundleCore {
    /// Stable identifier, derived from content digests.
    pub bundle_id: String,
    /// `owner/repo`.
    pub repo: String,
    /// Pull request number; absent for local runs.
    pub pr: Option<u64>,
    /// The commit whose changes were classified.
    pub head_sha: String,
    /// The base branch.
    pub base_ref: String,
    /// The merge base actually used, computed rather than taken from the
    /// event payload.
    pub merge_base_sha: String,
    /// The tier reached.
    pub tier: Tier,
    /// The verdict, derived from the tier.
    pub verdict: Verdict,
    /// The tier the advisory-routed outcomes reached on their own; never
    /// contributes to `tier`. The counterfactual is `tier.join(advisory_tier)`.
    pub advisory_tier: Tier,
    /// Every risk flag the classifier emitted, sorted.
    pub flag_ids: Vec<RiskFlagId>,
    /// The least confident answering method each required capability ended
    /// on, ascending by capability. Says nothing about whether anything
    /// passed.
    pub capability_states: Vec<(CapabilityId, ResolutionState)>,
    /// Digest over the canonicalized verdict-bearing subtree.
    pub verdict_digest: String,
}

/// Each capability once, in ascending code-point order: the shape a map
/// keyed by capability has.
pub open spec fn capabilities_ascending(s: Seq<(CapabilityId, ResolutionState)>) -> bool {
    forall|i: int, j: int| #![trigger s[i], s[j]] 0 <= i < j < s.len() ==> seq_lt(s[i].0@, s[j].0@)
}

impl BundleCore {
    /// A core whose capability table is keyed as a map is: ascending, each
    /// capability once.
    pub open spec fn wf(&self) -> bool {
        capabilities_ascending(self.capability_states@)
    }

    /// A new core from the two finished ledgers. They arrive as distinct
    /// types, so `tier` and `verdict` can only come from the enforced
    /// adjudication and `advisory_tier` only from the advisory one. (A core
    /// read back from a recorded bundle keeps the fields it was written
    /// with.)
    pub fn new(
        bundle_id: String,
        repo: String,
        pr: Option<u64>,
        head_sha: String,
        base_ref: String,
        merge_base_sha: String,
        flag_ids: Vec<RiskFlagId>,
        capability_states: Vec<(CapabilityId, ResolutionState)>,
        verdict_digest: String,
        enforced: &EnforcedAdjudication,
        advisory: &AdvisoryAdjudication,
    ) -> (c: BundleCore)
        requires
            capabilities_ascending(capability_states@),
        ensures
            c.wf(),
            c.bundle_id == bundle_id,
            c.repo == repo,
            c.pr == pr,
            c.head_sha == head_sha,
            c.base_ref == base_ref,
            c.merge_base_sha == merge_base_sha,
            c.tier == enforced.spec_inner().tier,
            c.verdict == enforced.spec_inner().verdict,
            c.advisory_tier == advisory.spec_tier(),
            c.flag_ids == flag_ids,
            c.capability_states == capability_states,
            c.verdict_digest == verdict_digest,
    {
        BundleCore {
            bundle_id,
            repo,
            pr,
            head_sha,
            base_ref,
            merge_base_sha,
            tier: enforced.tier(),
            verdict: enforced.verdict(),
            advisory_tier: advisory.tier(),
            flag_ids,
            capability_states,
            verdict_digest,
        }
    }

    /// The tier that would have been enforced had every requirement been
    /// enforcing: the join of the two fields.
    pub fn counterfactual_tier(&self) -> (t: Tier)
        ensures
            t == spec_join(self.tier, self.advisory_tier),
    {
        self.tier.join(self.advisory_tier)
    }
}

/// Reading `advisory_tier` alone undercounts: the counterfactual is at
/// least the enforced tier and at least the advisory one, and is one of them.
pub proof fn law_the_counterfactual_covers_both_ledgers(tier: Tier, advisory_tier: Tier)
    ensures
        le(tier, spec_join(tier, advisory_tier)),
        le(advisory_tier, spec_join(tier, advisory_tier)),
        spec_join(tier, advisory_tier) == tier || spec_join(tier, advisory_tier) == advisory_tier,
{
}

/// What produced a bundle.
#[derive(Clone, PartialEq, Eq, Debug)]
pub struct Generator {
    /// Always `vibe-check`.
    pub name: String,
    /// The binary's version.
    pub version: String,
    /// The commit it was built from, when known.
    pub git_sha: Option<String>,
    /// Digest over the capability declarations and analyzer registrations in
    /// force.
    pub registry_digest: String,
}

/// How much of the picture we actually have: counts over requirements, plus
/// two over capabilities.
#[derive(Clone, Copy, PartialEq, Eq, Structural, Debug)]
#[non_exhaustive]
pub struct Confidence {
    /// Total requirements considered.
    pub requirements: usize,
    /// Answered by an existing artifact.
    pub adopted: usize,
    /// Answered by running something.
    pub ran: usize,
    /// Declared not applicable.
    pub skipped: usize,
    /// Expected and unavailable.
    pub unverified: usize,
    /// Capabilities, not requirements, whose per-requirement states
    /// disagreed.
    pub partial: usize,
    /// Requirements whose outcome could not raise the enforced tier.
    pub advisory: usize,
    /// How many distinct capabilities those requirements covered; zero when
    /// nobody grouped by capability.
    pub capabilities: usize,
}

impl Default for Confidence {
    /// Every count zero.
    fn default() -> (c: Confidence)
        ensures
            c == (Confidence {
                requirements: 0,
                adopted: 0,
                ran: 0,
                skipped: 0,
                unverified: 0,
                partial: 0,
                advisory: 0,
                capabilities: 0,
            }),
    {
        Confidence {
            requirements: 0,
            adopted: 0,
            ran: 0,
            skipped: 0,
            unverified: 0,
            partial: 0,
            advisory: 0,
            capabilities: 0,
        }
    }
}

/// How many pairs in `s` ended in state `st`.
pub open spec fn count_state(s: Seq<(ResolutionState, Enforcement)>, st: ResolutionState) -> nat
    decreases s.len(),
{
    if s.len() == 0 {
        0
    } else {
        count_state(s.drop_last(), st) + if s.last().0 == st { 1nat } else { 0nat }
    }
}

/// How many pairs in `s` were advisory.
pub open spec fn count_advisory(s: Seq<(ResolutionState, Enforcement)>) -> nat
    decreases s.len(),
{
    if s.len() == 0 {
        0
    } else {
        count_advisory(s.drop_last()) + if s.last().1 == Enforcement::Advisory { 1nat } else { 0nat }
    }
}

/// The per-requirement counts of `s`.
pub open spec fn counts_match(c: Confidence, s: Seq<(ResolutionState, Enforcement)>) -> bool {
    &&& c.requirements == s.len()
    &&& c.adopted == count_state(s, ResolutionState::Adopt)
    &&& c.ran == count_state(s, ResolutionState::Run)
    &&& c.skipped == count_state(s, ResolutionState::Skip)
    &&& c.unverified == count_state(s, ResolutionState::Unverified)
    &&& c.advisory == count_advisory(s)
}

proof fn lemma_counts_bounded(s: Seq<(ResolutionState, Enforcement)>)
    ensures
        count_state(s, ResolutionState::Adopt) + count_state(s, ResolutionState::Run) + count_state(
            s,
            ResolutionState::Skip,
        ) + count_state(s, ResolutionState::Unverified) == s.len(),
        count_advisory(s) <= s.len(),
    decreases s.len(),
{
    if s.len() > 0 {
        lemma_counts_bounded(s.drop_last());
    }
}

/// Every requirement is in exactly one of the four states, and at most all
/// of them were advisory.
pub proof fn law_the_state_counts_partition_the_requirements(s: Seq<(ResolutionState, Enforcement)>)
    ensures
        count_state(s, ResolutionState::Adopt) + count_state(s, ResolutionState::Run) + count_state(
            s,
            ResolutionState::Skip,
        ) + count_state(s, ResolutionState::Unverified) == s.len(),
        count_advisory(s) <= s.len(),
{
    lemma_counts_bounded(s);
}

impl Confidence {
    /// Count one resolved requirement into every per-requirement field.
    fn count(&mut self, state: ResolutionState, enforcement: Enforcement)
        requires
            old(self).requirements < usize::MAX,
            old(self).adopted <= old(self).requirements,
            old(self).ran <= old(self).requirements,
            old(self).skipped <= old(self).requirements,
            old(self).unverified <= old(self).requirements,
            old(self).advisory <= old(self).requirements,
        ensures
            final(self).requirements == old(self).requirements + 1,
            final(self).adopted == old(self).adopted + if state == ResolutionState::Adopt { 1int } else { 0int },
            final(self).ran == old(self).ran + if state == ResolutionState::Run { 1int } else { 0int },
            final(self).skipped == old(self).skipped + if state == ResolutionState::Skip { 1int } else { 0int },
            final(self).unverified == old(self).unverified + if state == ResolutionState::Unverified { 1int } else { 0int },
            final(self).advisory == old(self).advisory + if enforcement == Enforcement::Advisory { 1int } else { 0int },
            final(self).partial == old(self).partial,
            final(self).capabilities == old(self).capabilities,
    {
        self.requirements = self.requirements + 1;
        if enforcement == Enforcement::Advisory {
            self.advisory = self.advisory + 1;
        }
        match state {
            ResolutionState::Adopt => self.adopted = self.adopted + 1,
            ResolutionState::Run => self.ran = self.ran + 1,
            ResolutionState::Skip => self.skipped = self.skipped + 1,
            ResolutionState::Unverified => self.unverified = self.unverified + 1,
        }
    }

    /// Tally a set of resolution states and the enforcement they carried.
    /// Nothing groups by capability here, so `partial` and `capabilities`
    /// stay zero.
    pub fn tally(states: &[(ResolutionState, Enforcement)]) -> (c: Confidence)
        ensures
            counts_match(c, states@),
            c.partial == 0,
            c.capabilities == 0,
    {
        let mut c = Confidence::default();
        let mut i: usize = 0;
        while i < states.len()
            invariant
                i <= states@.len(),
                counts_match(c, states@.take(i as int)),
                c.partial == 0,
                c.capabilities == 0,
            decreases states@.len() - i,
        {
            proof {
                assert(states@.take(i as int + 1).drop_last() =~= states@.take(i as int));
                lemma_counts_bounded(states@.take(i as int));
            }
            let (state, enforcement) = states[i];
            c.count(state, enforcement);
            i = i + 1;
        }
        proof {
            assert(states@.take(i as int) =~= states@);
        }
        c
    }
}

/// A requirement's outcome together with the capability it answers.
pub type CapabilityResolved = (CapabilityId, ResolutionState, Enforcement);

/// The `(state, enforcement)` pairs of `s`.
pub open spec fn resolved_pairs(s: Seq<CapabilityResolved>) -> Seq<(ResolutionState, Enforcement)> {
    s.map_values(|x: CapabilityResolved| (x.1, x.2))
}

/// The distinct capabilities `s` covers.
pub open spec fn capability_keys(s: Seq<CapabilityResolved>) -> Set<Seq<char>> {
    s.map_values(|x: CapabilityResolved| x.0@).to_set()
}

/// Whether two of `c`'s requirements in `s` ended in different states.
pub open spec fn disagrees(s: Seq<CapabilityResolved>, c: Seq<char>) -> bool {
    exists|i: int, j: int|
        0 <= i < s.len() && 0 <= j < s.len() && #[trigger] s[i].0@ == c && #[trigger] s[j].0@ == c && s[i].1
            != s[j].1
}

/// The capabilities whose requirements in `s` disagreed.
pub open spec fn partial_capabilities(s: Seq<CapabilityResolved>) -> Set<Seq<char>> {
    capability_keys(s).filter(|c: Seq<char>| disagrees(s, c))
}

/// Whether some row of `table` is for capability `k`.
spec fn has_row(p: Seq<CapabilityResolved>, table: Seq<(usize, ResolutionState, bool)>, k: Seq<char>) -> bool {
    exists|t: int| 0 <= t < table.len() && p[(#[trigger] table[t]).0 as int].0@ == k
}

/// The grouping table is right for the prefix `p`: one row per distinct
/// capability, pointing at its first requirement, flagged when a later one
/// ended differently.
spec fn table_ok(p: Seq<CapabilityResolved>, table: Seq<(usize, ResolutionState, bool)>) -> bool {
    &&& forall|t: int| 0 <= t < table.len() ==> (#[trigger] table[t]).0 < p.len() && table[t].1 == p[table[t].0 as int].1
    &&& forall|t1: int, t2: int|
        0 <= t1 < table.len() && 0 <= t2 < table.len() && t1 != t2 ==> p[(#[trigger] table[t1]).0 as int].0@
            != p[(#[trigger] table[t2]).0 as int].0@
    &&& forall|j: int| 0 <= j < p.len() ==> has_row(p, table, #[trigger] p[j].0@)
    &&& forall|t: int| 0 <= t < table.len() ==> ((#[trigger] table[t]).2 <==> exists|j: int|
        0 <= j < p.len() && (#[trigger] p[j]).0@ == p[table[t].0 as int].0@ && p[j].1 != table[t].1)
}

proof fn lemma_flag_is_disagreement(p: Seq<CapabilityResolved>, table: Seq<(usize, ResolutionState, bool)>, t: int)
    requires
        table_ok(p, table),
        0 <= t < table.len(),
    ensures
        table[t].2 <==> disagrees(p, p[table[t].0 as int].0@),
{
    let k = p[table[t].0 as int].0@;
    let f = table[t].0 as int;
    if table[t].2 {
        let j = choose|j: int| 0 <= j < p.len() && (#[trigger] p[j]).0@ == k && p[j].1 != table[t].1;
        assert(p[f].0@ == k && p[j].0@ == k && p[f].1 != p[j].1);
    }
    if disagrees(p, k) {
        let (a, b) = choose|a: int, b: int|
            0 <= a < p.len() && 0 <= b < p.len() && #[trigger] p[a].0@ == k && #[trigger] p[b].0@ == k && p[a].1
                != p[b].1;
        if p[a].1 != table[t].1 {
            assert(p[a].0@ == k);
        } else {
            assert(p[b].0@ == k && p[b].1 != table[t].1);
        }
    }
}

proof fn lemma_disagrees_extend(p: Seq<CapabilityResolved>, x: CapabilityResolved, c: Seq<char>)
    requires
        x.0@ != c,
    ensures
        disagrees(p.push(x), c) == disagrees(p, c),
{
    let q = p.push(x);
    if disagrees(q, c) {
        let (a, b) = choose|a: int, b: int|
            0 <= a < q.len() && 0 <= b < q.len() && #[trigger] q[a].0@ == c && #[trigger] q[b].0@ == c && q[a].1 != q[b].1;
        assert(a < p.len() && b < p.len());
        assert(q[a] == p[a] && q[b] == p[b]);
    }
    if disagrees(p, c) {
        let (a, b) = choose|a: int, b: int|
            0 <= a < p.len() && 0 <= b < p.len() && #[trigger] p[a].0@ == c && #[trigger] p[b].0@ == c && p[a].1 != p[b].1;
        assert(q[a] == p[a] && q[b] == p[b]);
        assert(0 <= a < q.len() && 0 <= b < q.len() && q[a].0@ == c && q[b].0@ == c && q[a].1 != q[b].1);
    }
}

proof fn lemma_keys_push(p: Seq<CapabilityResolved>, x: CapabilityResolved)
    ensures
        capability_keys(p.push(x)) == capability_keys(p).insert(x.0@),
        capability_keys(p).finite(),
        partial_capabilities(p).finite(),
{
    broadcast use vstd::seq_lib::seq_to_set_is_finite;
    assert(p.push(x).map_values(|y: CapabilityResolved| y.0@) =~= p.map_values(|y: CapabilityResolved| y.0@) + seq![x.0@]);
    Seq::<Seq<char>>::lemma_to_set_insert_commutes(p.map_values(|y: CapabilityResolved| y.0@), x.0@);
    vstd::set_lib::lemma_len_subset(partial_capabilities(p), capability_keys(p));
}

proof fn lemma_step_existing(p: Seq<CapabilityResolved>, x: CapabilityResolved, tb: Seq<(usize, ResolutionState, bool)>, t: int)
    requires
        table_ok(p, tb),
        0 <= t < tb.len(),
        p[tb[t].0 as int].0@ == x.0@,
    ensures
        ({
            let newly = !tb[t].2 && tb[t].1 != x.1;
            let tb2 = if newly { tb.update(t, (tb[t].0, tb[t].1, true)) } else { tb };
            &&& table_ok(p.push(x), tb2)
            &&& capability_keys(p.push(x)) == capability_keys(p)
            &&& newly ==> !partial_capabilities(p).contains(x.0@)
            &&& partial_capabilities(p.push(x)) == if newly {
                partial_capabilities(p).insert(x.0@)
            } else {
                partial_capabilities(p)
            }
        }),
{
    let k = x.0@;
    let q = p.push(x);
    let newly = !tb[t].2 && tb[t].1 != x.1;
    let tb2 = if newly { tb.update(t, (tb[t].0, tb[t].1, true)) } else { tb };
    lemma_keys_push(p, x);
    assert(p.map_values(|y: CapabilityResolved| y.0@)[tb[t].0 as int] == k);
    assert(capability_keys(p).contains(k));
    assert(capability_keys(q) =~= capability_keys(p));
    assert forall|u: int| 0 <= u < tb2.len() implies (#[trigger] tb2[u]).0 < q.len() && tb2[u].1 == q[tb2[u].0 as int].1 by {
        assert(tb2[u].0 == tb[u].0 && tb2[u].1 == tb[u].1);
        assert(q[tb[u].0 as int] == p[tb[u].0 as int]);
    }
    assert forall|u1: int, u2: int|
        0 <= u1 < tb2.len() && 0 <= u2 < tb2.len() && u1 != u2 implies q[(#[trigger] tb2[u1]).0 as int].0@ != q[(
        #[trigger] tb2[u2]).0 as int].0@ by {
        assert(tb2[u1].0 == tb[u1].0 && tb2[u2].0 == tb[u2].0);
        assert(q[tb[u1].0 as int] == p[tb[u1].0 as int]);
        assert(q[tb[u2].0 as int] == p[tb[u2].0 as int]);
        assert(p[(tb[u1]).0 as int].0@ != p[(tb[u2]).0 as int].0@);
    }
    assert forall|j: int| 0 <= j < q.len() implies has_row(q, tb2, #[trigger] q[j].0@) by {
        if j < p.len() {
            assert(q[j] == p[j]);
            assert(has_row(p, tb, p[j].0@));
            let u = choose|u: int| 0 <= u < tb.len() && p[(#[trigger] tb[u]).0 as int].0@ == p[j].0@;
            assert(tb2[u].0 == tb[u].0);
            assert(q[tb[u].0 as int] == p[tb[u].0 as int]);
            assert(q[(tb2[u]).0 as int].0@ == q[j].0@);
        } else {
            assert(tb2[t].0 == tb[t].0);
            assert(q[tb[t].0 as int] == p[tb[t].0 as int]);
            assert(q[(tb2[t]).0 as int].0@ == q[j].0@);
        }
    }
    assert forall|u: int| 0 <= u < tb2.len() implies ((#[trigger] tb2[u]).2 <==> exists|j: int|
        0 <= j < q.len() && (#[trigger] q[j]).0@ == q[tb2[u].0 as int].0@ && q[j].1 != tb2[u].1) by {
        assert(tb2[u].0 == tb[u].0 && tb2[u].1 == tb[u].1);
        assert(q[tb[u].0 as int] == p[tb[u].0 as int]);
        if tb[u].2 {
            let j = choose|j: int| 0 <= j < p.len() && (#[trigger] p[j]).0@ == p[tb[u].0 as int].0@ && p[j].1 != tb[u].1;
            assert(q[j] == p[j]);
        }
        if u != t {
            assert(tb2[u] == tb[u]);
            assert(p[(tb[u]).0 as int].0@ != p[(tb[t]).0 as int].0@);
            if exists|j: int| 0 <= j < q.len() && (#[trigger] q[j]).0@ == q[tb2[u].0 as int].0@ && q[j].1 != tb2[u].1 {
                let j = choose|j: int| 0 <= j < q.len() && (#[trigger] q[j]).0@ == q[tb2[u].0 as int].0@ && q[j].1 != tb2[u].1;
                assert(j < p.len());
                assert(q[j] == p[j]);
            }
        } else {
            if newly {
                assert(q[p.len() as int] == x);
            }
            if exists|j: int| 0 <= j < q.len() && (#[trigger] q[j]).0@ == q[tb2[u].0 as int].0@ && q[j].1 != tb2[u].1 {
                let j = choose|j: int| 0 <= j < q.len() && (#[trigger] q[j]).0@ == q[tb2[u].0 as int].0@ && q[j].1 != tb2[u].1;
                if j < p.len() {
                    assert(q[j] == p[j]);
                }
            }
        }
    }
    assert(table_ok(q, tb2));
    lemma_flag_is_disagreement(q, tb2, t);
    lemma_flag_is_disagreement(p, tb, t);
    assert(q[tb2[t].0 as int] == p[tb[t].0 as int]);
    assert forall|cc: Seq<char>| cc != k implies disagrees(q, cc) == disagrees(p, cc) by {
        lemma_disagrees_extend(p, x, cc);
    }
    if newly {
        assert(partial_capabilities(q) =~= partial_capabilities(p).insert(k));
    } else {
        assert(partial_capabilities(q) =~= partial_capabilities(p));
    }
}

proof fn lemma_step_new(p: Seq<CapabilityResolved>, x: CapabilityResolved, tb: Seq<(usize, ResolutionState, bool)>)
    requires
        table_ok(p, tb),
        p.len() <= usize::MAX,
        forall|u: int| 0 <= u < tb.len() ==> p[(#[trigger] tb[u]).0 as int].0@ != x.0@,
    ensures
        table_ok(p.push(x), tb.push((p.len() as usize, x.1, false))),
        !capability_keys(p).contains(x.0@),
        capability_keys(p.push(x)) == capability_keys(p).insert(x.0@),
        partial_capabilities(p.push(x)) == partial_capabilities(p),
{
    let k = x.0@;
    let q = p.push(x);
    let tb2 = tb.push((p.len() as usize, x.1, false));
    lemma_keys_push(p, x);
    assert(!capability_keys(p).contains(k)) by {
        if capability_keys(p).contains(k) {
            let ks = p.map_values(|y: CapabilityResolved| y.0@);
            let j = choose|j: int| 0 <= j < ks.len() && #[trigger] ks[j] == k;
            assert(p[j].0@ == k);
            assert(has_row(p, tb, p[j].0@));
            let u = choose|u: int| 0 <= u < tb.len() && p[(#[trigger] tb[u]).0 as int].0@ == p[j].0@;
        }
    }
    assert forall|j: int| 0 <= j < p.len() implies #[trigger] p[j].0@ != k by {
        assert(p.map_values(|y: CapabilityResolved| y.0@)[j] == p[j].0@);
    }
    assert forall|u: int| 0 <= u < tb2.len() implies (#[trigger] tb2[u]).0 < q.len() && tb2[u].1 == q[tb2[u].0 as int].1 by {
        if u < tb.len() {
            assert(tb2[u] == tb[u]);
            assert(q[tb[u].0 as int] == p[tb[u].0 as int]);
        } else {
            assert(tb2[u] == (p.len() as usize, x.1, false));
            assert(q[p.len() as int] == x);
        }
    }
    assert forall|u1: int, u2: int|
        0 <= u1 < tb2.len() && 0 <= u2 < tb2.len() && u1 != u2 implies q[(#[trigger] tb2[u1]).0 as int].0@ != q[(
        #[trigger] tb2[u2]).0 as int].0@ by {
        if u1 < tb.len() {
            assert(tb2[u1] == tb[u1]);
            assert(q[tb[u1].0 as int] == p[tb[u1].0 as int]);
        }
        if u2 < tb.len() {
            assert(tb2[u2] == tb[u2]);
            assert(q[tb[u2].0 as int] == p[tb[u2].0 as int]);
        }
    }
    assert forall|j: int| 0 <= j < q.len() implies has_row(q, tb2, #[trigger] q[j].0@) by {
        if j < p.len() {
            assert(q[j] == p[j]);
            assert(has_row(p, tb, p[j].0@));
            let u = choose|u: int| 0 <= u < tb.len() && p[(#[trigger] tb[u]).0 as int].0@ == p[j].0@;
            assert(tb2[u] == tb[u]);
            assert(q[tb[u].0 as int] == p[tb[u].0 as int]);
            assert(q[(tb2[u]).0 as int].0@ == q[j].0@);
        } else {
            assert(tb2[tb.len() as int].0 == p.len());
            assert(q[(tb2[tb.len() as int]).0 as int].0@ == q[j].0@);
        }
    }
    assert forall|u: int| 0 <= u < tb2.len() implies ((#[trigger] tb2[u]).2 <==> exists|j: int|
        0 <= j < q.len() && (#[trigger] q[j]).0@ == q[tb2[u].0 as int].0@ && q[j].1 != tb2[u].1) by {
        if u < tb.len() {
            assert(tb2[u] == tb[u]);
            assert(q[tb[u].0 as int] == p[tb[u].0 as int]);
            if tb[u].2 {
                let j = choose|j: int| 0 <= j < p.len() && (#[trigger] p[j]).0@ == p[tb[u].0 as int].0@ && p[j].1 != tb[u].1;
                assert(q[j] == p[j]);
            }
            if exists|j: int| 0 <= j < q.len() && (#[trigger] q[j]).0@ == q[tb2[u].0 as int].0@ && q[j].1 != tb2[u].1 {
                let j = choose|j: int| 0 <= j < q.len() && (#[trigger] q[j]).0@ == q[tb2[u].0 as int].0@ && q[j].1 != tb2[u].1;
                assert(j < p.len());
                assert(q[j] == p[j]);
            }
        } else {
            assert(tb2[u] == (p.len() as usize, x.1, false));
            assert(q[p.len() as int] == x);
            if exists|j: int| 0 <= j < q.len() && (#[trigger] q[j]).0@ == q[tb2[u].0 as int].0@ && q[j].1 != tb2[u].1 {
                let j = choose|j: int| 0 <= j < q.len() && (#[trigger] q[j]).0@ == q[tb2[u].0 as int].0@ && q[j].1 != tb2[u].1;
                if j < p.len() {
                    assert(q[j] == p[j]);
                    assert(p[j].0@ != k);
                }
            }
        }
    }
    assert(table_ok(q, tb2));
    assert(!disagrees(q, k)) by {
        if disagrees(q, k) {
            let (a, b) = choose|a: int, b: int|
                0 <= a < q.len() && 0 <= b < q.len() && #[trigger] q[a].0@ == k && #[trigger] q[b].0@ == k && q[a].1
                    != q[b].1;
            if a < p.len() {
                assert(q[a] == p[a]);
            }
            if b < p.len() {
                assert(q[b] == p[b]);
            }
        }
    }
    assert forall|cc: Seq<char>| cc != k implies disagrees(q, cc) == disagrees(p, cc) by {
        lemma_disagrees_extend(p, x, cc);
    }
    assert(partial_capabilities(q) =~= partial_capabilities(p));
}

impl Confidence {
    /// Tally the same way, plus `capabilities` (distinct capabilities
    /// covered) and `partial` (those whose requirements ended in different
    /// states), from requirements that carry the capability they resolve.
    pub fn tally_by_capability(resolved: &[CapabilityResolved]) -> (c: Confidence)
        ensures
            counts_match(c, resolved_pairs(resolved@)),
            c.capabilities == capability_keys(resolved@).len(),
            c.partial == partial_capabilities(resolved@).len(),
    {
        broadcast use vstd::seq_lib::seq_to_set_is_finite;
        let ghost s = resolved@;
        let mut c = Confidence::default();
        let mut table: Vec<(usize, ResolutionState, bool)> = Vec::new();
        let mut i: usize = 0;
        proof {
            assert(s.take(0).map_values(|x: CapabilityResolved| x.0@).to_set() =~= Set::<Seq<char>>::empty());
            assert(partial_capabilities(s.take(0)) =~= Set::<Seq<char>>::empty());
        }
        while i < resolved.len()
            invariant
                s == resolved@,
                i <= s.len(),
                counts_match(c, resolved_pairs(s.take(i as int))),
                table_ok(s.take(i as int), table@),
                table@.len() == c.capabilities,
                c.capabilities == capability_keys(s.take(i as int)).len(),
                c.partial == partial_capabilities(s.take(i as int)).len(),
                c.capabilities <= i,
                c.partial <= c.capabilities,
            decreases s.len() - i,
        {
            let ghost p = s.take(i as int);
            let ghost p2 = s.take(i as int + 1);
            proof {
                assert(resolved_pairs(p2).drop_last() =~= resolved_pairs(p));
                lemma_counts_bounded(resolved_pairs(p));
                assert(p2.drop_last() =~= p);
                assert(forall|j: int| 0 <= j < p.len() ==> #[trigger] p2[j] == p[j]);
                assert(p2[i as int] == s[i as int]);
            }
            let (cap, state, enforcement) = (&resolved[i].0, resolved[i].1, resolved[i].2);
            c.count(state, enforcement);
            let ghost k = cap@;
            let mut t: usize = 0;
            let mut found = false;
            while !found && t < table.len()
                invariant
                    s == resolved@,
                    i < s.len(),
                    p == s.take(i as int),
                    k == s[i as int].0@,
                    *cap == s[i as int].0,
                    table_ok(p, table@),
                    t <= table@.len(),
                    found ==> t < table@.len() && p[table@[t as int].0 as int].0@ == k,
                    !found ==> forall|u: int| 0 <= u < t ==> p[(#[trigger] table@[u]).0 as int].0@ != k,
                decreases table@.len() - t + if found { 0int } else { 1int },
            {
                let first = table[t].0;
                proof {
                    assert(table@[t as int].0 < p.len());
                    assert(p[first as int] == s[first as int]);
                }
                if str_eq(resolved[first].0.as_str(), cap.as_str()) {
                    found = true;
                } else {
                    t = t + 1;
                }
            }
            let ghost x = s[i as int];
            let ghost tb_old = table@;
            proof {
                assert(p2 =~= p.push(x));
            }
            if found {
                let old_row = table[t];
                let newly = !old_row.2 && old_row.1 != state;
                proof {
                    lemma_step_existing(p, x, tb_old, t as int);
                }
                if newly {
                    table.set(t, (old_row.0, old_row.1, true));
                    proof {
                        vstd::set::axiom_set_insert_len(partial_capabilities(p), k);
                    }
                    c.partial = c.partial + 1;
                }
                proof {
                    vstd::set_lib::lemma_len_subset(partial_capabilities(p2), capability_keys(p2));
                }
            } else {
                proof {
                    assert forall|u: int| 0 <= u < tb_old.len() implies p[(#[trigger] tb_old[u]).0 as int].0@ != k by {
                        assert(tb_old[u] == table@[u]);
                    }
                    lemma_step_new(p, x, tb_old);
                    vstd::set::axiom_set_insert_len(capability_keys(p), k);
                }
                table.push((i, state, false));
                c.capabilities = c.capabilities + 1;
                proof {
                    vstd::set_lib::lemma_len_subset(partial_capabilities(p2), capability_keys(p2));
                }
            }
            i = i + 1;
        }
        proof {
            assert(s.take(i as int) =~= s);
        }
        c
    }
}

/// One clause of the sentence: the count and its label, or nothing at zero.
pub open spec fn count_part(n: nat, label: Seq<char>) -> Seq<Seq<char>> {
    if n > 0 { seq![decimal(n) + label] } else { Seq::empty() }
}

/// The clauses after the leading count: advisory first, then the four
/// states, then the capability count that names its own unit.
pub open spec fn sentence_parts(c: Confidence) -> Seq<Seq<char>> {
    count_part(c.advisory as nat, " advisory"@) + count_part(c.adopted as nat, " adopted"@) + count_part(
        c.ran as nat,
        " run"@,
    ) + count_part(c.skipped as nat, " skipped"@) + count_part(c.unverified as nat, " unverified"@) + count_part(
        c.partial as nat,
        if c.partial == 1 { " capability partial across scopes"@ } else { " capabilities partial across scopes"@ },
    )
}

/// The confidence sentence, without the leading tier:
/// `4 requirements · 1 advisory · 2 adopted · 1 run · 1 unverified`.
pub open spec fn sentence_text(c: Confidence) -> Seq<char> {
    let noun = if c.requirements == 1 { "requirement"@ } else { "requirements"@ };
    let parts = sentence_parts(c);
    decimal(c.requirements as nat) + " "@ + noun + if parts.len() == 0 {
        Seq::<char>::empty()
    } else {
        " · "@ + join_text(parts, " · "@)
    }
}

fn push_part(parts: &mut Vec<String>, n: usize, label: &str)
    ensures
        views(final(parts)@) == views(old(parts)@) + count_part(n as nat, label@),
{
    if n > 0 {
        let mut t = String::new();
        push_u64(&mut t, n as u64);
        push_str(&mut t, label);
        let ghost before = old(parts)@;
        parts.push(t);
        proof {
            assert(Seq::<char>::empty() + decimal(n as nat) =~= decimal(n as nat));
            assert(views(parts@) =~= views(before) + seq![decimal(n as nat) + label@]);
        }
    } else {
        proof {
            assert(views(parts@) =~= views(parts@) + Seq::<Seq<char>>::empty());
        }
    }
}

impl Confidence {
    /// The confidence sentence, without the leading tier, generated from the
    /// counts so it cannot drift from them.
    pub fn sentence(&self) -> (s: String)
        ensures
            s@ == sentence_text(*self),
    {
        let mut parts: Vec<String> = Vec::new();
        proof {
            assert(views(parts@) =~= Seq::<Seq<char>>::empty());
        }
        push_part(&mut parts, self.advisory, " advisory");
        push_part(&mut parts, self.adopted, " adopted");
        push_part(&mut parts, self.ran, " run");
        push_part(&mut parts, self.skipped, " skipped");
        push_part(&mut parts, self.unverified, " unverified");
        let unit = if self.partial == 1 {
            " capability partial across scopes"
        } else {
            " capabilities partial across scopes"
        };
        push_part(&mut parts, self.partial, unit);
        proof {
            assert(views(parts@) =~= sentence_parts(*self));
        }
        let mut s = String::new();
        push_u64(&mut s, self.requirements as u64);
        push_str(&mut s, " ");
        if self.requirements == 1 {
            push_str(&mut s, "requirement");
        } else {
            push_str(&mut s, "requirements");
        }
        if parts.len() > 0 {
            push_str(&mut s, " · ");
            push_joined(&mut s, parts.as_slice(), " · ");
        }
        proof {
            assert(Seq::<char>::empty() + decimal(self.requirements as nat) =~= decimal(self.requirements as nat));
            if parts@.len() == 0 {
                assert(s@ =~= sentence_text(*self));
            }
        }
        s
    }
}

/// The complete record of one evaluation.
#[derive(Clone, PartialEq, Eq, Debug)]
pub struct EvidenceBundle {
    /// Schema major version.
    pub schema_version: SchemaVersion,
    /// The frozen part.
    pub core: BundleCore,
    /// What produced this.
    pub generator: Generator,
    /// The verdict and every escalation that led to it.
    pub adjudication: Adjudication,
    /// Every escalation the advisory ledger recorded and did not enforce.
    pub advisory_escalations: Vec<Escalation>,
    /// Requirement counts.
    pub confidence: Confidence,
    /// Fields written by a newer build, kept on rewrite.
    pub extensions: Vec<(String, Json)>,
}

impl EvidenceBundle {
    /// Whether this bundle can be read by a build that writes `current`.
    pub fn readable_by(&self, current: SchemaVersion) -> (r: bool)
        ensures
            r == (self.schema_version.0 <= current.0),
    {
        self.schema_version.readable_by(current)
    }
}

} // verus!
