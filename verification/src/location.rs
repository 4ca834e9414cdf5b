//! Source locations: a repository-relative path at a revision, optionally
//! narrowed to a line range and an enclosing item.

use vstd::prelude::*;
use crate::text::{decimal, push_char, push_str, push_u64, string_of};

verus! {

/// A one-based, inclusive range of lines.
#[derive(Clone, Copy, PartialEq, Eq, Structural, PartialOrd, Ord, Hash, Debug)]
pub struct LineRange {
    /// First line, one-based and inclusive.
    pub start: u32,
    /// Last line, one-based and inclusive.
    pub end: u32,
}

/// Whether two ranges share a line.
pub open spec fn ranges_overlap(a: LineRange, b: LineRange) -> bool {
    a.start <= b.end && b.start <= a.end
}

/// `88` for a single line, `88-94` for a span.
pub open spec fn line_range_text(r: LineRange) -> Seq<char> {
    if r.start == r.end {
        decimal(r.start as nat)
    } else {
        decimal(r.start as nat) + seq!['-'] + decimal(r.end as nat)
    }
}

impl LineRange {
    /// A range covering a single line.
    pub fn single(line: u32) -> (r: LineRange)
        ensures
            r.start == line,
            r.end == line,
    {
        LineRange { start: line, end: line }
    }

    /// Whether `line` falls within this range.
    pub fn contains(&self, line: u32) -> (r: bool)
        ensures
            r == (self.start <= line && line <= self.end),
    {
        line >= self.start && line <= self.end
    }

    /// Whether two ranges share any line. Touching at one endpoint counts.
    pub fn overlaps(&self, other: &LineRange) -> (r: bool)
        ensures
            r == ranges_overlap(*self, *other),
    {
        self.start <= other.end && other.start <= self.end
    }

    /// The rendering: `88`, or `88-94` for a span.
    pub fn to_string(&self) -> (s: String)
        ensures
            s@ == line_range_text(*self),
    {
        let mut s = String::new();
        push_u64(&mut s, self.start as u64);
        if self.start != self.end {
            push_char(&mut s, '-');
            push_u64(&mut s, self.end as u64);
        }
        proof {
            assert(Seq::<char>::empty() + decimal(self.start as nat) =~= decimal(self.start as nat));
        }
        s
    }
}

/// Overlap does not depend on which range is asked.
pub proof fn law_overlap_is_symmetric(a: LineRange, b: LineRange)
    ensures
        ranges_overlap(a, b) == ranges_overlap(b, a),
{
}

/// A location in a source file at a particular revision.
#[derive(Clone, PartialEq, Eq, PartialOrd, Ord, Hash, Debug)]
pub struct Location {
    /// Repository-relative path.
    pub path: String,
    /// Git blob hash of the file this location was computed against.
    pub blob_sha: Option<String>,
    /// Line range, when finer-grained than the whole file.
    pub lines: Option<LineRange>,
    /// The enclosing item, e.g. `kono_core::ring::Ring::push_unchecked`.
    pub item: Option<String>,
}

/// `path`, or `path:lines` when the location has a line range.
pub open spec fn location_text(l: Location) -> Seq<char> {
    match l.lines {
        Some(r) => l.path@ + seq![':'] + line_range_text(r),
        None => l.path@,
    }
}

impl Location {
    /// A location referring to a whole file.
    pub fn file(path: &str) -> (l: Location)
        ensures
            l.path@ == path@,
            l.blob_sha is None,
            l.lines is None,
            l.item is None,
    {
        Location { path: string_of(path), blob_sha: None, lines: None, item: None }
    }

    /// Narrow this location to a line range.
    pub fn at_lines(self, lines: LineRange) -> (l: Location)
        ensures
            l == (Location { lines: Some(lines), ..self }),
    {
        Location { lines: Some(lines), ..self }
    }

    /// Attach the enclosing item path.
    pub fn in_item(self, item: &str) -> (l: Location)
        ensures
            l.path == self.path,
            l.blob_sha == self.blob_sha,
            l.lines == self.lines,
            l.item matches Some(i) && i@ == item@,
    {
        Location { item: Some(string_of(item)), ..self }
    }

    /// Attach the blob hash of the file this location was computed against.
    pub fn at_blob(self, blob_sha: &str) -> (l: Location)
        ensures
            l.path == self.path,
            l.item == self.item,
            l.lines == self.lines,
            l.blob_sha matches Some(b) && b@ == blob_sha@,
    {
        Location { blob_sha: Some(string_of(blob_sha)), ..self }
    }

    /// The rendering an editor can follow: `path` or `path:line[-line]`.
    pub fn to_string(&self) -> (s: String)
        ensures
            s@ == location_text(*self),
    {
        let mut s = String::new();
        push_str(&mut s, self.path.as_str());
        match self.lines {
            Some(r) => {
                push_char(&mut s, ':');
                let t = r.to_string();
                push_str(&mut s, t.as_str());
            },
            None => {},
        }
        proof {
            assert(Seq::<char>::empty() + self.path@ =~= self.path@);
        }
        s
    }
}

} // verus!
