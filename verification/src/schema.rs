//! Document versioning: a major schema version, and who may read what.
//!
//! Older documents migrate forward; a document from the future may rely on
//! semantics this build does not implement, so it is not readable and the
//! caller escalates.

use vstd::prelude::*;
use crate::text::{decimal, push_char, push_u64};

verus! {

/// A major schema version. Within a major, changes are additive only.
#[derive(Clone, Copy, PartialEq, Eq, Structural, PartialOrd, Ord, Hash, Debug)]
pub struct SchemaVersion(pub u32);

impl SchemaVersion {
    /// The evidence-envelope schema this build writes.
    pub fn evidence() -> (v: SchemaVersion)
        ensures
            v == SchemaVersion(1),
    {
        SchemaVersion(1)
    }

    /// The bundle schema this build writes.
    pub fn bundle() -> (v: SchemaVersion)
        ensures
            v == SchemaVersion(1),
    {
        SchemaVersion(1)
    }

    /// The policy schema this build understands.
    pub fn policy() -> (v: SchemaVersion)
        ensures
            v == SchemaVersion(1),
    {
        SchemaVersion(1)
    }

    /// Whether a document at this version can be read by a build that writes
    /// `current`: older or equal is fine, newer is not.
    pub fn readable_by(self, current: SchemaVersion) -> (r: bool)
        ensures
            r == (self.0 <= current.0),
    {
        self.0 <= current.0
    }

    /// The rendering `v1`.
    pub fn to_string(&self) -> (s: String)
        ensures
            s@ == seq!['v'] + decimal(self.0 as nat),
    {
        let mut s = String::new();
        push_char(&mut s, 'v');
        push_u64(&mut s, self.0 as u64);
        proof {
            assert(Seq::<char>::empty().push('v') =~= seq!['v']);
        }
        s
    }
}

} // verus!
