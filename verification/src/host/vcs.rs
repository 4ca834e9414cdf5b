//! Version-control data: how a file changed, and how a repository operation
//! fails.

use vstd::prelude::*;
use crate::text::{push_str, string_of};

verus! {

/// How a file changed between two revisions.
#[derive(Clone, Copy, PartialEq, Eq, Structural, PartialOrd, Ord, Hash, Debug)]
#[non_exhaustive]
pub enum ChangeKind {
    /// Newly added.
    Added,
    /// Contents changed.
    Modified,
    /// Removed.
    Deleted,
    /// Moved, possibly with edits.
    Renamed,
}

/// How a repository reports a file's state in a range of changes, before it
/// is read as a [`ChangeKind`].
#[derive(Clone, Copy, PartialEq, Eq, Structural, Debug)]
pub enum ChangeStatus {
    /// Added to the index.
    Added,
    /// Present in the tree but not tracked.
    Untracked,
    /// Removed.
    Deleted,
    /// Moved.
    Renamed,
    /// Contents changed.
    Modified,
    /// Left in conflict.
    Conflicted,
    /// A state this build does not know.
    Other,
}

/// The change kind a reported state reads as: an untracked file is an
/// added one, and anything not added, deleted or renamed, a conflict or a
/// state this build does not know included, is a modification, so that it
/// stays in the classifier's view rather than being dropped.
pub open spec fn kind_of_status(s: ChangeStatus) -> ChangeKind {
    match s {
        ChangeStatus::Added | ChangeStatus::Untracked => ChangeKind::Added,
        ChangeStatus::Deleted => ChangeKind::Deleted,
        ChangeStatus::Renamed => ChangeKind::Renamed,
        _ => ChangeKind::Modified,
    }
}

impl ChangeStatus {
    /// The change kind this state reads as.
    pub fn change_kind(self) -> (k: ChangeKind)
        ensures
            k == kind_of_status(self),
    {
        match self {
            ChangeStatus::Added | ChangeStatus::Untracked => ChangeKind::Added,
            ChangeStatus::Deleted => ChangeKind::Deleted,
            ChangeStatus::Renamed => ChangeKind::Renamed,
            _ => ChangeKind::Modified,
        }
    }
}

/// One changed file, with both sides of its contents, so the classifier can
/// compare syntax trees rather than a textual patch.
#[derive(Clone, PartialEq, Eq, Debug)]
pub struct FileChange {
    /// Path at head.
    pub path: String,
    /// Path at base, when the file moved.
    pub old_path: Option<String>,
    /// What kind of change.
    pub kind: ChangeKind,
    /// Whether the contents are binary, in which case both sides are empty.
    pub is_binary: bool,
    /// Contents at the merge base.
    pub old: String,
    /// Contents at head.
    pub new: String,
}

/// Why a version-control operation failed.
#[derive(Clone, PartialEq, Eq, Debug)]
#[non_exhaustive]
pub enum VcsError {
    /// The two revisions share no common ancestor, or history is too shallow.
    /// Never falls back to head policy: the caller escalates instead.
    NoMergeBase {
        /// Base revision.
        base: String,
        /// Head revision.
        head: String,
        /// What went wrong, commonly a shallow clone.
        detail: String,
    },
    /// A revision could not be resolved.
    BadRevision(String),
    /// A path was not valid UTF-8; rejected rather than lossily converted.
    NonUtf8Path(String),
    /// Anything else.
    Git(String),
}

/// The message of a version-control failure.
pub open spec fn vcs_error_text(e: VcsError) -> Seq<char> {
    match e {
        VcsError::NoMergeBase { base, head, detail } => "no merge base between "@ + base@ + " and "@ + head@
            + ": "@ + detail@,
        VcsError::BadRevision(r) => "cannot resolve revision `"@ + r@ + "`"@,
        VcsError::NonUtf8Path(p) => "path is not valid UTF-8: "@ + p@,
        VcsError::Git(d) => "git operation failed: "@ + d@,
    }
}

impl VcsError {
    /// The message, naming the revisions and the likely cause.
    pub fn to_string(&self) -> (s: String)
        ensures
            s@ == vcs_error_text(*self),
    {
        match self {
            VcsError::NoMergeBase { base, head, detail } => {
                let mut s = string_of("no merge base between ");
                push_str(&mut s, base.as_str());
                push_str(&mut s, " and ");
                push_str(&mut s, head.as_str());
                push_str(&mut s, ": ");
                push_str(&mut s, detail.as_str());
                s
            },
            VcsError::BadRevision(r) => {
                let mut s = string_of("cannot resolve revision `");
                push_str(&mut s, r.as_str());
                push_str(&mut s, "`");
                s
            },
            VcsError::NonUtf8Path(p) => {
                let mut s = string_of("path is not valid UTF-8: ");
                push_str(&mut s, p.as_str());
                s
            },
            VcsError::Git(d) => {
                let mut s = string_of("git operation failed: ");
                push_str(&mut s, d.as_str());
                s
            },
        }
    }
}

} // verus!
