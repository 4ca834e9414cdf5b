//! Recording what the tiers actually cost: the two git-notes refs the
//! escape-rate loop reads and writes, and how a store operation fails.

use vstd::prelude::*;
use crate::text::{push_str, string_of};

verus! {

/// The ref holding one adjudication per merge commit: the denominator.
pub const ADJUDICATIONS_REF: &'static str = "refs/notes/vibe-check/adjudications";

/// The ref holding defect records: the numerator.
pub const ESCAPES_REF: &'static str = "refs/notes/vibe-check/escapes";

/// Why an escape-store operation failed.
#[derive(Clone, PartialEq, Eq, Debug)]
#[non_exhaustive]
pub enum EscapeError {
    /// The ref does not exist yet, which is the normal state before the first
    /// record.
    Empty(String),
    /// Anything else.
    Store(String),
}

/// The message of an escape-store failure.
pub open spec fn escape_error_text(e: EscapeError) -> Seq<char> {
    match e {
        EscapeError::Empty(r) => "no records under "@ + r@,
        EscapeError::Store(d) => "escape store failed: "@ + d@,
    }
}

impl EscapeError {
    /// The message: `no records under <ref>` or `escape store failed: <why>`.
    pub fn to_string(&self) -> (s: String)
        ensures
            s@ == escape_error_text(*self),
    {
        match self {
            EscapeError::Empty(r) => {
                let mut s = string_of("no records under ");
                push_str(&mut s, r.as_str());
                s
            },
            EscapeError::Store(d) => {
                let mut s = string_of("escape store failed: ");
                push_str(&mut s, d.as_str());
                s
            },
        }
    }
}

} // verus!
