//! What the repository reader decides around git: how a missing merge base
//! is reported, and how the answer `git cat-file` gave is read.
//!
//! The calls into git stay with the caller; these functions take what git
//! answered and say what it means.

use vstd::prelude::*;
use crate::host::vcs::VcsError;
use crate::text::{chars_of, push_str, string_from_chars, string_of};

verus! {

/// What a missing merge base is blamed on.
pub const SHALLOW_CLONE_HINT: &'static str = "no common ancestor; in CI this usually means a shallow clone (set `fetch-depth: 0` on actions/checkout)";

/// The merge base git found, or, when it found none, the error that names
/// both revisions and the likely cause.
pub fn merge_base_outcome(base_rev: &str, head_rev: &str, found: Option<String>) -> (r: Result<String, VcsError>)
    ensures
        match found {
            Some(sha) => (r matches Ok(s) && s@ == sha@),
            None => (r matches Err(VcsError::NoMergeBase { base, head, detail }) && base@ == base_rev@
                && head@ == head_rev@ && detail@ == SHALLOW_CLONE_HINT@),
        },
{
    match found {
        Some(sha) => Ok(sha),
        None => Err(
            VcsError::NoMergeBase {
                base: string_of(base_rev),
                head: string_of(head_rev),
                detail: string_of(SHALLOW_CLONE_HINT),
            },
        ),
    }
}

/// A Unicode `White_Space` character, the set `str::trim` removes.
pub open spec fn is_white_space(c: char) -> bool {
    ||| ('\u{09}' <= c && c <= '\u{0d}')
    ||| c == ' '
    ||| c == '\u{85}'
    ||| c == '\u{a0}'
    ||| c == '\u{1680}'
    ||| ('\u{2000}' <= c && c <= '\u{200a}')
    ||| c == '\u{2028}'
    ||| c == '\u{2029}'
    ||| c == '\u{202f}'
    ||| c == '\u{205f}'
    ||| c == '\u{3000}'
}

/// `s` without its leading white space.
pub open spec fn trim_start(s: Seq<char>) -> Seq<char>
    decreases s.len(),
{
    if s.len() > 0 && is_white_space(s[0]) {
        trim_start(s.drop_first())
    } else {
        s
    }
}

/// `s` without its trailing white space.
pub open spec fn trim_end(s: Seq<char>) -> Seq<char>
    decreases s.len(),
{
    if s.len() > 0 && is_white_space(s.last()) {
        trim_end(s.drop_last())
    } else {
        s
    }
}

/// `s` without white space at either end.
pub open spec fn trimmed(s: Seq<char>) -> Seq<char> {
    trim_end(trim_start(s))
}

/// `needle` occurs in `hay`.
pub open spec fn has_text(hay: Seq<char>, needle: Seq<char>) -> bool {
    exists|i: int| 0 <= i && i + needle.len() <= hay.len() && #[trigger] hay.subrange(i, i + needle.len()) == needle
}

fn is_white(c: char) -> (r: bool)
    ensures
        r == is_white_space(c),
{
    ('\u{09}' <= c && c <= '\u{0d}') || c == ' ' || c == '\u{85}' || c == '\u{a0}' || c == '\u{1680}' || (
    '\u{2000}' <= c && c <= '\u{200a}') || c == '\u{2028}' || c == '\u{2029}' || c == '\u{202f}' || c
        == '\u{205f}' || c == '\u{3000}'
}

fn trim_text(s: &str) -> (r: String)
    ensures
        r@ == trimmed(s@),
{
    let cs = chars_of(s);
    let mut lo: usize = 0;
    proof {
        assert(cs@.subrange(0, cs@.len() as int) =~= cs@);
    }
    while lo < cs.len() && is_white(cs[lo])
        invariant
            cs@ == s@,
            lo <= cs@.len(),
            trim_start(s@) == trim_start(cs@.subrange(lo as int, cs@.len() as int)),
        decreases cs@.len() - lo,
    {
        proof {
            assert(cs@.subrange(lo as int, cs@.len() as int).drop_first() =~= cs@.subrange(
                lo as int + 1,
                cs@.len() as int,
            ));
        }
        lo = lo + 1;
    }
    let mut hi: usize = cs.len();
    proof {
        assert(trim_start(s@) == cs@.subrange(lo as int, cs@.len() as int));
    }
    while hi > lo && is_white(cs[hi - 1])
        invariant
            cs@ == s@,
            lo <= hi <= cs@.len(),
            trimmed(s@) == trim_end(cs@.subrange(lo as int, hi as int)),
        decreases hi - lo,
    {
        proof {
            assert(cs@.subrange(lo as int, hi as int).drop_last() =~= cs@.subrange(lo as int, hi as int - 1));
        }
        hi = hi - 1;
    }
    string_from_chars(&cs, lo, hi)
}

fn contains_text(hay: &Vec<char>, needle: &str) -> (r: bool)
    ensures
        r == has_text(hay@, needle@),
{
    let nv = chars_of(needle);
    let n = nv.len();
    if n > hay.len() {
        return false;
    }
    let mut i: usize = 0;
    while i <= hay.len() - n
        invariant
            nv@ == needle@,
            n == nv@.len(),
            n <= hay@.len(),
            i <= hay@.len() - n + 1,
            forall|j: int| 0 <= j < i ==> #[trigger] hay@.subrange(j, j + n) != nv@,
        decreases hay@.len() - i,
    {
        let mut k: usize = 0;
        while k < n
            invariant
                nv@ == needle@,
                n == nv@.len(),
                i + n <= hay.len(),
                k <= n,
                forall|m: int| 0 <= m < k ==> hay@[i + m] == nv@[m],
            ensures
                k <= n,
                forall|m: int| 0 <= m < k ==> hay@[i + m] == nv@[m],
                k < n ==> hay@[i + k] != nv@[k as int],
            decreases n - k,
        {
            if hay[i + k] != nv[k] {
                break;
            }
            k = k + 1;
        }
        if k == n {
            proof {
                assert(hay@.subrange(i as int, i + n) =~= nv@);
            }
            return true;
        }
        proof {
            assert(hay@.subrange(i as int, i + n)[k as int] != nv@[k as int]);
        }
        i = i + 1;
    }
    proof {
        assert forall|j: int| 0 <= j && j + n <= hay@.len() implies #[trigger] hay@.subrange(j, j + n) != nv@ by {}
    }
    false
}

/// How git reports a path absent at a revision: the revision exists, the
/// path does not.
pub open spec fn reports_absent_path(stderr: Seq<char>) -> bool {
    has_text(stderr, "does not exist"@) || has_text(stderr, "exists on disk, but not in"@)
}

/// What reading a blob at a revision gave: the bytes git wrote when it
/// succeeded; nothing when git said the path is absent at that revision,
/// which is not an error; otherwise the revision could not be resolved, and
/// the error names `rev:path` with git's trimmed complaint.
pub fn blob_at_rev_outcome(
    rev: &str,
    path: &str,
    succeeded: bool,
    stdout: Vec<u8>,
    stderr: &str,
) -> (r: Result<Option<Vec<u8>>, VcsError>)
    ensures
        succeeded ==> (r matches Ok(Some(bytes)) && bytes@ == stdout@),
        !succeeded && reports_absent_path(stderr@) ==> r matches Ok(None),
        !succeeded && !reports_absent_path(stderr@) ==> (r matches Err(VcsError::BadRevision(m)) && m@
            == rev@ + ":"@ + path@ + " ("@ + trimmed(stderr@) + ")"@),
{
    if succeeded {
        return Ok(Some(stdout));
    }
    let cs = chars_of(stderr);
    if contains_text(&cs, "does not exist") || contains_text(&cs, "exists on disk, but not in") {
        return Ok(None);
    }
    let mut m = string_of(rev);
    push_str(&mut m, ":");
    push_str(&mut m, path);
    push_str(&mut m, " (");
    let t = trim_text(stderr);
    push_str(&mut m, t.as_str());
    push_str(&mut m, ")");
    Err(VcsError::BadRevision(m))
}

} // verus!
