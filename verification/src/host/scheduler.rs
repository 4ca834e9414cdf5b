//! Units of schedulable work, and the batch that keeps their identifiers
//! distinct.
//!
//! A leaf's identifier is also its artifact-name suffix: two leaves sharing
//! one upload two artifacts under one name, which a forge treats as an error
//! rather than a merge. [`Leaves::new`] is the only way to build a batch, so
//! the check happens once, where a batch is made.

use vstd::prelude::*;
use crate::host::exec::ProcessPlan;
use crate::ids::{LaneId, LeafId, RequirementId};
use crate::text::{push_str, str_eq, string_of};

verus! {

/// One unit of schedulable work.
#[derive(Clone, PartialEq, Eq, Debug)]
pub struct Leaf {
    /// Stable identifier, unique within a run.
    pub id: LeafId,
    /// The requirement this answers.
    pub requirement: RequirementId,
    /// What to run.
    pub plan: ProcessPlan,
    /// Which lane, for grouping and budgets.
    pub lane: LaneId,
}

/// Why a batch of leaves was rejected: the identifier that appeared twice.
#[derive(Clone, PartialEq, Eq, Debug)]
#[non_exhaustive]
pub struct DuplicateLeafId {
    /// The identifier that appeared more than once.
    pub id: LeafId,
}

/// The message of a rejected batch.
pub open spec fn duplicate_leaf_text(id: Seq<char>) -> Seq<char> {
    "leaf id `"@ + id + "` appears more than once in one batch; a leaf id is also the artifact-name suffix, and uploading two artifacts under one name is an error rather than a merge"@
}

impl DuplicateLeafId {
    /// The message, naming the identifier and why a duplicate is not a merge.
    pub fn to_string(&self) -> (s: String)
        ensures
            s@ == duplicate_leaf_text(self.id@),
    {
        let mut s = string_of("leaf id `");
        push_str(&mut s, self.id.as_str());
        push_str(
            &mut s,
            "` appears more than once in one batch; a leaf id is also the artifact-name suffix, and uploading two artifacts under one name is an error rather than a merge",
        );
        s
    }
}

/// The identifiers of a sequence of leaves.
pub open spec fn leaf_ids(s: Seq<Leaf>) -> Seq<Seq<char>> {
    s.map_values(|l: Leaf| l.id@)
}

/// Whether `ids[j]` already appeared before position `j`.
pub open spec fn seen_before(ids: Seq<Seq<char>>, j: int) -> bool {
    exists|i: int| 0 <= i < j && ids[i] == ids[j]
}

/// The first position at or after `from` whose identifier already appeared
/// before it.
pub open spec fn first_repeat(ids: Seq<Seq<char>>, from: int) -> Option<int>
    decreases ids.len() - from,
{
    if from < 0 || from >= ids.len() {
        None
    } else if seen_before(ids, from) {
        Some(from)
    } else {
        first_repeat(ids, from + 1)
    }
}

/// No identifier appears twice.
pub open spec fn all_distinct(ids: Seq<Seq<char>>) -> bool {
    forall|i: int, j: int| 0 <= i < j < ids.len() ==> ids[i] != ids[j]
}

proof fn lemma_first_repeat(ids: Seq<Seq<char>>, from: int)
    requires
        0 <= from,
    ensures
        first_repeat(ids, from) is None <==> forall|j: int| from <= j < ids.len() ==> !#[trigger] seen_before(ids, j),
    decreases ids.len() - from,
{
    if from < ids.len() && !seen_before(ids, from) {
        lemma_first_repeat(ids, from + 1);
    }
}

/// A batch of leaves whose identifiers are distinct.
#[derive(Clone, PartialEq, Eq, Debug)]
pub struct Leaves(Vec<Leaf>);

impl View for Leaves {
    type V = Seq<Leaf>;

    closed spec fn view(&self) -> Seq<Leaf> {
        self.0@
    }
}

impl Leaves {
    /// Build a batch, rejecting one that repeats an identifier; the error
    /// names the first leaf, in batch order, whose identifier was already
    /// seen.
    pub fn new(leaves: Vec<Leaf>) -> (r: Result<Leaves, DuplicateLeafId>)
        ensures
            match r {
                Ok(b) => b@ == leaves@ && all_distinct(leaf_ids(leaves@)),
                Err(e) => first_repeat(leaf_ids(leaves@), 0) matches Some(j) && e.id == leaves@[j].id,
            },
    {
        let ghost ids = leaf_ids(leaves@);
        let mut j: usize = 0;
        while j < leaves.len()
            invariant
                ids == leaf_ids(leaves@),
                j <= leaves@.len(),
                first_repeat(ids, 0) == first_repeat(ids, j as int),
            decreases leaves@.len() - j,
        {
            let mut i: usize = 0;
            while i < j
                invariant
                    ids == leaf_ids(leaves@),
                    i <= j < leaves@.len(),
                    first_repeat(ids, 0) == first_repeat(ids, j as int),
                    forall|k: int| 0 <= k < i ==> ids[k] != ids[j as int],
                decreases j - i,
            {
                proof {
                    assert(ids[i as int] == leaves@[i as int].id@);
                    assert(ids[j as int] == leaves@[j as int].id@);
                }
                if str_eq(leaves[i].id.as_str(), leaves[j].id.as_str()) {
                    proof {
                        assert(ids[i as int] == ids[j as int]);
                        assert(seen_before(ids, j as int));
                        assert(first_repeat(ids, j as int) == Some(j as int));
                    }
                    let id = leaves[j].id.clone();
                    return Err(DuplicateLeafId { id });
                }
                i = i + 1;
            }
            proof {
                assert(!seen_before(ids, j as int));
            }
            j = j + 1;
        }
        proof {
            lemma_first_repeat(ids, 0);
            assert forall|a: int, b: int| 0 <= a < b < ids.len() implies ids[a] != ids[b] by {
                assert(!seen_before(ids, b));
            }
        }
        Ok(Leaves(leaves))
    }

    /// The leaves, in the order they were given.
    pub fn as_slice(&self) -> (s: &[Leaf])
        ensures
            s@ == self@,
    {
        self.0.as_slice()
    }

    /// How many leaves are in the batch.
    pub fn len(&self) -> (n: usize)
        ensures
            n == self@.len(),
    {
        self.0.len()
    }

    /// Whether the batch is empty; an empty batch is well-formed.
    pub fn is_empty(&self) -> (r: bool)
        ensures
            r == (self@.len() == 0),
    {
        self.0.len() == 0
    }

    /// Take the leaves, in order.
    pub fn into_vec(self) -> (v: Vec<Leaf>)
        ensures
            v@ == self@,
    {
        self.0
    }
}

/// The same check as [`Leaves::new`], through `TryFrom`.
impl TryFrom<Vec<Leaf>> for Leaves {
    type Error = DuplicateLeafId;

    fn try_from(leaves: Vec<Leaf>) -> (r: Result<Leaves, DuplicateLeafId>)
        ensures
            match r {
                Ok(b) => b@ == leaves@ && all_distinct(leaf_ids(leaves@)),
                Err(e) => first_repeat(leaf_ids(leaves@), 0) matches Some(j) && e.id == leaves@[j].id,
            },
    {
        Leaves::new(leaves)
    }
}

impl vstd::std_specs::convert::TryFromSpecImpl<Vec<Leaf>> for Leaves {
    open spec fn obeys_try_from_spec() -> bool {
        false
    }

    open spec fn try_from_spec(v: Vec<Leaf>) -> Result<Leaves, DuplicateLeafId> {
        arbitrary()
    }
}

/// Where a scheduler put the work.
#[derive(Clone, PartialEq, Eq, Debug)]
#[non_exhaustive]
pub enum Dispatch {
    /// The leaves ran here, and their evidence is available now.
    Completed {
        /// Identifiers of leaves that ran to a conclusion.
        leaf_ids: Vec<LeafId>,
        /// Identifiers of leaves whose task panicked; disjoint from
        /// `leaf_ids`, and together with it everything dispatched.
        panicked: Vec<LeafId>,
    },
    /// The leaves were handed to an external scheduler; evidence arrives
    /// later, as artifacts.
    Deferred {
        /// An opaque payload for the external scheduler, e.g. a job matrix.
        payload: String,
    },
}

} // verus!
