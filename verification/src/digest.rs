//! Canonical JSON (RFC 8785) and the two digests computed over it.
//!
//! `verdict_digest` covers exactly the paths on an inclusion list, so a new
//! bundle section does not change historical digests; `bundle_id` covers
//! everything but an exclusion list, because it is a content address. Object
//! keys are ordered by UTF-16 code unit, strings are escaped the way
//! `JSON.stringify` does, and numbers written as doubles, or integers beyond
//! the range ECMAScript represents exactly, are refused with their path
//! rather than formatted.

use vstd::prelude::*;
use vstd::string::StrSliceExecFns;
use crate::ids::{blake3_hex, blake3_hex_of, is_lower_hex};
use crate::json::{
    clone_json, json_members_view, json_seq_view, json_view, lemma_json_members_view_index,
    lemma_json_seq_view_index, lemma_json_seq_view_len, Json, JsonNumber,
    JsonValue,
};
use crate::text::{
    chars_of, decimal, join_text, push_char, push_i64, push_joined, push_str, push_u64, signed_decimal,
    string_of, views,
};

verus! {

/// The largest integer ECMAScript represents exactly.
pub open spec fn max_safe_integer() -> int {
    9_007_199_254_740_991
}

/// A lowercase hexadecimal digit.
pub open spec fn hex_digit(n: int) -> char {
    if n < 10 {
        ((n + 48) as u32) as char
    } else {
        ((n + 87) as u32) as char
    }
}

/// How `JSON.stringify` writes one character inside a string literal.
pub open spec fn escape_char(c: char) -> Seq<char> {
    if c == '"' {
        seq!['\\', '"']
    } else if c == '\\' {
        seq!['\\', '\\']
    } else if c == '\u{08}' {
        seq!['\\', 'b']
    } else if c == '\u{09}' {
        seq!['\\', 't']
    } else if c == '\u{0a}' {
        seq!['\\', 'n']
    } else if c == '\u{0c}' {
        seq!['\\', 'f']
    } else if c == '\u{0d}' {
        seq!['\\', 'r']
    } else if (c as u32) < 0x20 {
        seq!['\\', 'u', '0', '0', hex_digit(((c as u32) / 16) as int), hex_digit(((c as u32) % 16) as int)]
    } else {
        seq![c]
    }
}

/// The escaped body of a string literal.
pub open spec fn escaped(s: Seq<char>) -> Seq<char>
    decreases s.len(),
{
    if s.len() == 0 {
        Seq::empty()
    } else {
        escaped(s.drop_last()) + escape_char(s.last())
    }
}

/// A JSON string literal, written the way `JSON.stringify` does.
pub open spec fn json_string_text(s: Seq<char>) -> Seq<char> {
    seq!['"'] + escaped(s) + seq!['"']
}

fn hex_char(n: u32) -> (c: char)
    requires
        n < 16,
    ensures
        c == hex_digit(n as int),
{
    if n < 10 {
        ((n + 48) as u8) as char
    } else {
        ((n + 87) as u8) as char
    }
}

/// Append `s` as a JSON string literal.
fn write_string(out: &mut String, s: &str)
    ensures
        final(out)@ == old(out)@ + json_string_text(s@),
{
    let cs = chars_of(s);
    push_char(out, '"');
    let ghost start = out@;
    let mut i: usize = 0;
    proof {
        assert(escaped(cs@.take(0)) =~= Seq::<char>::empty());
        assert(start =~= start + escaped(cs@.take(0)));
    }
    while i < cs.len()
        invariant
            cs@ == s@,
            i <= cs@.len(),
            out@ == start + escaped(cs@.take(i as int)),
        decreases cs@.len() - i,
    {
        let c = cs[i];
        let ghost before = out@;
        if c == '"' {
            push_str(out, "\\\"");
        } else if c == '\\' {
            push_str(out, "\\\\");
        } else if c == '\u{08}' {
            push_str(out, "\\b");
        } else if c == '\u{09}' {
            push_str(out, "\\t");
        } else if c == '\u{0a}' {
            push_str(out, "\\n");
        } else if c == '\u{0c}' {
            push_str(out, "\\f");
        } else if c == '\u{0d}' {
            push_str(out, "\\r");
        } else if (c as u32) < 0x20 {
            push_str(out, "\\u00");
            push_char(out, hex_char((c as u32) / 16));
            push_char(out, hex_char((c as u32) % 16));
        } else {
            push_char(out, c);
        }
        proof {
            reveal_strlit("\\\"");
            reveal_strlit("\\\\");
            reveal_strlit("\\b");
            reveal_strlit("\\t");
            reveal_strlit("\\n");
            reveal_strlit("\\f");
            reveal_strlit("\\r");
            reveal_strlit("\\u00");
            assert(out@ =~= before + escape_char(c));
            assert(cs@.take(i as int + 1).drop_last() =~= cs@.take(i as int));
        }
        i = i + 1;
    }
    proof {
        assert(cs@.take(i as int) =~= cs@);
    }
    push_char(out, '"');
    proof {
        assert(out@ =~= old(out)@ + json_string_text(s@));
    }
}

// --- ordering keys by UTF-16 code unit ---------------------------------------

/// The UTF-16 code units of one character: itself in the Basic Multilingual
/// Plane, a surrogate pair above it.
pub open spec fn utf16_units(c: char) -> Seq<int> {
    let n = (c as u32) as int;
    if n < 0x10000 {
        seq![n]
    } else {
        seq![0xD800 + (n - 0x10000) / 0x400, 0xDC00 + (n - 0x10000) % 0x400]
    }
}

/// The UTF-16 encoding of a string, as code units.
pub open spec fn utf16_of(s: Seq<char>) -> Seq<int>
    decreases s.len(),
{
    if s.len() == 0 {
        Seq::empty()
    } else {
        utf16_of(s.drop_last()) + utf16_units(s.last())
    }
}

/// `a` sorts strictly before `b`: lexicographic, a proper prefix first.
pub open spec fn units_lt(a: Seq<int>, b: Seq<int>) -> bool
    decreases a.len(),
{
    if b.len() == 0 {
        false
    } else if a.len() == 0 {
        true
    } else if a[0] < b[0] {
        true
    } else if a[0] > b[0] {
        false
    } else {
        units_lt(a.drop_first(), b.drop_first())
    }
}

/// The key order of canonical JSON: by UTF-16 code unit.
pub open spec fn utf16_lt(a: Seq<char>, b: Seq<char>) -> bool {
    units_lt(utf16_of(a), utf16_of(b))
}

/// Code units as integers.
pub open spec fn units_view(v: Seq<u32>) -> Seq<int> {
    v.map_values(|u: u32| u as int)
}

fn utf16_code_units(s: &str) -> (r: Vec<u32>)
    ensures
        units_view(r@) == utf16_of(s@),
{
    let cs = chars_of(s);
    let mut r: Vec<u32> = Vec::new();
    let mut i: usize = 0;
    proof {
        assert(cs@.take(0) =~= Seq::<char>::empty());
        assert(units_view(r@) =~= Seq::<int>::empty());
    }
    while i < cs.len()
        invariant
            cs@ == s@,
            i <= cs@.len(),
            units_view(r@) == utf16_of(cs@.take(i as int)),
        decreases cs@.len() - i,
    {
        let c = cs[i];
        let n = c as u32;
        let ghost before = r@;
        if n < 0x10000 {
            r.push(n);
        } else {
            let m = n - 0x10000;
            r.push(0xD800 + m / 0x400);
            r.push(0xDC00 + m % 0x400);
        }
        proof {
            assert(cs@.take(i as int + 1).drop_last() =~= cs@.take(i as int));
            assert(cs@.take(i as int + 1).last() == c);
            assert(units_view(r@) =~= units_view(before) + utf16_units(c));
        }
        i = i + 1;
    }
    proof {
        assert(cs@.take(i as int) =~= cs@);
    }
    r
}

fn units_less(a: &Vec<u32>, b: &Vec<u32>) -> (r: bool)
    ensures
        r == units_lt(units_view(a@), units_view(b@)),
{
    let ghost ua = units_view(a@);
    let ghost ub = units_view(b@);
    let mut i: usize = 0;
    proof {
        assert(ua.skip(0) =~= ua);
        assert(ub.skip(0) =~= ub);
    }
    while i < a.len() && i < b.len()
        invariant
            ua == units_view(a@),
            ub == units_view(b@),
            i <= a@.len(),
            i <= b@.len(),
            units_lt(ua, ub) == units_lt(ua.skip(i as int), ub.skip(i as int)),
        decreases a@.len() - i,
    {
        let x = a[i];
        let y = b[i];
        proof {
            assert(ua.skip(i as int)[0] == x as int);
            assert(ub.skip(i as int)[0] == y as int);
        }
        if x < y {
            return true;
        }
        if x > y {
            return false;
        }
        proof {
            assert(ua.skip(i as int).drop_first() =~= ua.skip(i as int + 1));
            assert(ub.skip(i as int).drop_first() =~= ub.skip(i as int + 1));
        }
        i = i + 1;
    }
    proof {
        assert(ua.skip(i as int).len() == a@.len() - i);
        assert(ub.skip(i as int).len() == b@.len() - i);
    }
    i < b.len()
}

/// Whether key `a` sorts strictly before key `b` in canonical JSON.
fn key_less(a: &str, b: &str) -> (r: bool)
    ensures
        r == utf16_lt(a@, b@),
{
    let x = utf16_code_units(a);
    let y = utf16_code_units(b);
    units_less(&x, &y)
}

// --- canonical JSON -----------------------------------------------------------

/// Why a value could not be canonicalized, as mathematics sees it: the kind of
/// refusal and the path at which it happened.
pub enum Refusal {
    /// A number written in a form read as a double.
    Float(Seq<char>),
    /// An integer outside `±(2^53 − 1)`.
    NotExact(Seq<char>),
}

/// Why a value could not be canonicalized.
///
/// Every variant names the path at which the problem was found, as a
/// slash-separated path from the root (`/` for the root itself).
#[derive(Clone, PartialEq, Eq, Debug)]
pub enum CanonicalError {
    /// A number written in a form this library reads as a double.
    Float {
        /// Where in the document.
        path: String,
    },
    /// An integer outside `±(2^53 − 1)`.
    IntegerNotExact {
        /// Where in the document.
        path: String,
    },
}

impl CanonicalError {
    /// The refusal this error reports.
    pub open spec fn view(&self) -> Refusal {
        match self {
            CanonicalError::Float { path } => Refusal::Float(path@),
            CanonicalError::IntegerNotExact { path } => Refusal::NotExact(path@),
        }
    }
}

impl CanonicalError {
    /// The message, naming the path.
    pub fn to_string(&self) -> (r: String)
        ensures
            r@ == match self {
                CanonicalError::Float { path } => "the number at `"@ + path@ + FLOAT_REFUSAL@,
                CanonicalError::IntegerNotExact { path } => "the integer at `"@ + path@ + NOT_EXACT_REFUSAL@,
            },
    {
        let mut r = String::new();
        match self {
            CanonicalError::Float { path } => {
                push_str(&mut r, "the number at `");
                push_str(&mut r, path.as_str());
                push_str(&mut r, FLOAT_REFUSAL);
            },
            CanonicalError::IntegerNotExact { path } => {
                push_str(&mut r, "the integer at `");
                push_str(&mut r, path.as_str());
                push_str(&mut r, NOT_EXACT_REFUSAL);
            },
        }
        r
    }
}

/// What a refused double is told, after its path.
pub const FLOAT_REFUSAL: &'static str = "` was written in a form this build reads as a double (a decimal point, an exponent, or a signed zero — the value may still be a whole number). Canonicalizing it needs ECMAScript shortest-round-trip formatting, which this build deliberately does not implement. Every typed number in the model is integral; if this came from an untyped bag (`facts.extra`, `extensions`), write it as a bare integer such as `10000000000`, or as a string";

/// What a refused integer is told, after its path.
pub const NOT_EXACT_REFUSAL: &'static str = "` is outside ±(2^53 − 1) and has no exact ECMAScript representation, so two conforming canonicalizers may disagree on how to write it";

/// A canonicalization result as mathematics sees it.
pub open spec fn result_view(r: Result<String, CanonicalError>) -> Result<Seq<char>, Refusal> {
    match r {
        Ok(t) => Ok(t@),
        Err(e) => Err(e@),
    }
}

/// The path reported for a refusal: `/` at the root.
pub open spec fn root_or(path: Seq<char>) -> Seq<char> {
    if path.len() == 0 {
        seq!['/']
    } else {
        path
    }
}

/// The path one step below `path`.
pub open spec fn child_path(path: Seq<char>, step: Seq<char>) -> Seq<char> {
    path + seq!['/'] + step
}

/// The texts of a sequence of results, or the first refusal among them.
pub open spec fn collect(rs: Seq<Result<Seq<char>, Refusal>>) -> Result<Seq<Seq<char>>, Refusal>
    decreases rs.len(),
{
    if rs.len() == 0 {
        Ok(Seq::empty())
    } else {
        match collect(rs.drop_last()) {
            Err(e) => Err(e),
            Ok(ts) => match rs.last() {
                Err(e) => Err(e),
                Ok(t) => Ok(ts.push(t)),
            },
        }
    }
}

/// Texts joined by commas between two brackets, or the refusal.
pub open spec fn bracketed(r: Result<Seq<Seq<char>>, Refusal>, open: char, close: char) -> Result<Seq<char>, Refusal> {
    match r {
        Ok(ts) => Ok(seq![open] + join_text(ts, seq![',']) + seq![close]),
        Err(e) => Err(e),
    }
}

/// The canonical text of each array element, at its index's path.
pub open spec fn item_results(items: Seq<JsonValue>, path: Seq<char>) -> Seq<Result<Seq<char>, Refusal>>
    decreases items,
{
    if items.len() == 0 {
        Seq::empty()
    } else {
        proof {
            assert(decreases_to!(items => items.last()));
        }
        item_results(items.drop_last(), path).push(
            canonical(items.last(), child_path(path, decimal((items.len() - 1) as nat))),
        )
    }
}

/// Each object member's key with the canonical text of its value, at the
/// key's path, in the order the members were written.
pub open spec fn member_results(
    members: Seq<(Seq<char>, JsonValue)>,
    path: Seq<char>,
) -> Seq<(Seq<char>, Result<Seq<char>, Refusal>)>
    decreases members,
{
    if members.len() == 0 {
        Seq::empty()
    } else {
        proof {
            assert(decreases_to!(members => members.last()));
            assert(decreases_to!(members.last() => members.last().1));
        }
        let m = members.last();
        member_results(members.drop_last(), path).push((m.0, canonical(m.1, child_path(path, m.0))))
    }
}

/// Insert one member after every member whose key does not sort after it.
pub open spec fn insert_by_key(
    sorted: Seq<(Seq<char>, Result<Seq<char>, Refusal>)>,
    e: (Seq<char>, Result<Seq<char>, Refusal>),
) -> Seq<(Seq<char>, Result<Seq<char>, Refusal>)>
    decreases sorted.len(),
{
    if sorted.len() == 0 {
        seq![e]
    } else if utf16_lt(e.0, sorted.last().0) {
        insert_by_key(sorted.drop_last(), e).push(sorted.last())
    } else {
        sorted.push(e)
    }
}

/// Members ordered by key in UTF-16 code-unit order; members with equal keys
/// keep the order they were written in.
pub open spec fn sort_by_key(
    s: Seq<(Seq<char>, Result<Seq<char>, Refusal>)>,
) -> Seq<(Seq<char>, Result<Seq<char>, Refusal>)>
    decreases s.len(),
{
    if s.len() == 0 {
        Seq::empty()
    } else {
        insert_by_key(sort_by_key(s.drop_last()), s.last())
    }
}

/// The canonical text of one member, `"key":value`, or its refusal.
pub open spec fn member_text(e: (Seq<char>, Result<Seq<char>, Refusal>)) -> Result<Seq<char>, Refusal> {
    match e.1 {
        Ok(t) => Ok(json_string_text(e.0) + seq![':'] + t),
        Err(r) => Err(r),
    }
}

/// The canonical texts of members, in the order given.
pub open spec fn member_texts(
    s: Seq<(Seq<char>, Result<Seq<char>, Refusal>)>,
) -> Seq<Result<Seq<char>, Refusal>> {
    s.map_values(|e: (Seq<char>, Result<Seq<char>, Refusal>)| member_text(e))
}

/// The RFC 8785 canonical text of `v`, found at `path`, or the first refusal
/// in canonical order: no whitespace, object members ordered by key in
/// UTF-16 code-unit order, strings escaped as `JSON.stringify` does, integers
/// within `±(2^53 − 1)` in decimal, every other number refused.
pub open spec fn canonical(v: JsonValue, path: Seq<char>) -> Result<Seq<char>, Refusal>
    decreases v,
{
    match v {
        JsonValue::Null => Ok(seq!['n', 'u', 'l', 'l']),
        JsonValue::Bool(b) => Ok(
            if b {
                seq!['t', 'r', 'u', 'e']
            } else {
                seq!['f', 'a', 'l', 's', 'e']
            },
        ),
        JsonValue::Int(n) => if n > max_safe_integer() || n < -max_safe_integer() {
            Err(Refusal::NotExact(root_or(path)))
        } else {
            Ok(signed_decimal(n))
        },
        JsonValue::Double(_) => Err(Refusal::Float(root_or(path))),
        JsonValue::Str(s) => Ok(json_string_text(s)),
        JsonValue::Arr(items) => bracketed(collect(item_results(items, path)), '[', ']'),
        JsonValue::Obj(members) => bracketed(
            collect(member_texts(sort_by_key(member_results(members, path)))),
            '{',
            '}',
        ),
    }
}

/// A refusal among the first results stays the answer however many follow.
proof fn lemma_collect_keeps_the_first_refusal(
    rs: Seq<Result<Seq<char>, Refusal>>,
    more: Seq<Result<Seq<char>, Refusal>>,
)
    requires
        collect(rs) is Err,
    ensures
        collect(rs + more) == collect(rs),
    decreases more.len(),
{
    if more.len() > 0 {
        lemma_collect_keeps_the_first_refusal(rs, more.drop_last());
        assert((rs + more).drop_last() =~= rs + more.drop_last());
    } else {
        assert(rs + more =~= rs);
    }
}

/// Inserting at the first position, counted from the back, whose predecessor
/// does not sort after the new member.
proof fn lemma_insert_by_key_at(
    s: Seq<(Seq<char>, Result<Seq<char>, Refusal>)>,
    e: (Seq<char>, Result<Seq<char>, Refusal>),
    p: int,
)
    requires
        0 <= p <= s.len(),
        forall|j: int| p <= j < s.len() ==> utf16_lt(e.0, #[trigger] s[j].0),
        p == 0 || !utf16_lt(e.0, s[p - 1].0),
    ensures
        insert_by_key(s, e) == s.insert(p, e),
    decreases s.len(),
{
    if s.len() == 0 {
        assert(s.insert(p, e) =~= seq![e]);
    } else if p == s.len() {
        assert(s.insert(p, e) =~= s.push(e));
    } else {
        assert(utf16_lt(e.0, s[s.len() - 1].0));
        lemma_insert_by_key_at(s.drop_last(), e, p);
        assert(s.drop_last().insert(p, e).push(s.last()) =~= s.insert(p, e));
    }
}

/// A member and its canonical text, as the object branch keeps them.
type MemberResult = (String, Result<String, CanonicalError>);

/// The views of the kept members.
pub open spec fn member_result_views(
    es: Seq<(String, Result<String, CanonicalError>)>,
) -> Seq<(Seq<char>, Result<Seq<char>, Refusal>)> {
    es.map_values(|e: (String, Result<String, CanonicalError>)| (e.0@, result_view(e.1)))
}

fn sort_members(v: Vec<MemberResult>) -> (r: Vec<MemberResult>)
    ensures
        member_result_views(r@) == sort_by_key(member_result_views(v@)),
{
    let ghost input = member_result_views(v@);
    let ghost n = v@.len();
    let mut sorted: Vec<MemberResult> = Vec::new();
    let mut rest = v;
    proof {
        assert(input.take(0) =~= Seq::<(Seq<char>, Result<Seq<char>, Refusal>)>::empty());
        assert(member_result_views(sorted@) =~= Seq::<(Seq<char>, Result<Seq<char>, Refusal>)>::empty());
        assert(member_result_views(rest@) =~= input.skip(0));
    }
    while rest.len() > 0
        invariant
            n == input.len(),
            rest@.len() <= n,
            member_result_views(sorted@) == sort_by_key(input.take(n - rest@.len())),
            member_result_views(rest@) == input.skip(n - rest@.len()),
        decreases rest@.len(),
    {
        let ghost k = n - rest@.len();
        let ghost old_rest = rest@;
        let e = rest.remove(0);
        let ghost ev = (e.0@, result_view(e.1));
        proof {
            assert(input.skip(k)[0] == ev);
            assert(input[k] == ev);
            assert(rest@ =~= old_rest.skip(1));
            assert(member_result_views(rest@) =~= member_result_views(old_rest).skip(1));
            assert(input.skip(k).skip(1) =~= input.skip(k + 1));
        }
        let mut p: usize = sorted.len();
        while p > 0
            invariant
                p <= sorted@.len(),
                forall|j: int| p <= j < sorted@.len() ==> utf16_lt(e.0@, #[trigger] sorted@[j].0@),
            ensures
                p <= sorted@.len(),
                forall|j: int| p <= j < sorted@.len() ==> utf16_lt(e.0@, #[trigger] sorted@[j].0@),
                p == 0 || !utf16_lt(e.0@, sorted@[p - 1].0@),
            decreases p,
        {
            if !key_less(e.0.as_str(), sorted[p - 1].0.as_str()) {
                break;
            }
            p = p - 1;
        }
        let ghost sv = member_result_views(sorted@);
        proof {
            assert forall|j: int| p <= j < sv.len() implies utf16_lt(ev.0, #[trigger] sv[j].0) by {
                assert(sv[j].0 == sorted@[j].0@);
            }
            if p > 0 {
                assert(sv[p - 1].0 == sorted@[p - 1].0@);
            }
            lemma_insert_by_key_at(sv, ev, p as int);
        }
        sorted.insert(p, e);
        proof {
            assert(member_result_views(sorted@) =~= sv.insert(p as int, ev));
            assert(input.take(k + 1).drop_last() =~= input.take(k));
            assert(input.take(k + 1).last() == ev);
        }
    }
    proof {
        assert(input.take(n as int) =~= input);
    }
    sorted
}

fn copy_error(e: &CanonicalError) -> (r: CanonicalError)
    ensures
        r@ == e@,
{
    match e {
        CanonicalError::Float { path } => CanonicalError::Float { path: string_of(path.as_str()) },
        CanonicalError::IntegerNotExact { path } => CanonicalError::IntegerNotExact {
            path: string_of(path.as_str()),
        },
    }
}

fn extend_path(path: &String, step: &str) -> (r: String)
    ensures
        r@ == child_path(path@, step@),
{
    let mut r = string_of(path.as_str());
    push_char(&mut r, '/');
    push_str(&mut r, step);
    proof {
        assert(r@ =~= child_path(path@, step@));
    }
    r
}

fn index_path(path: &String, i: usize) -> (r: String)
    ensures
        r@ == child_path(path@, decimal(i as nat)),
{
    let mut r = string_of(path.as_str());
    push_char(&mut r, '/');
    push_u64(&mut r, i as u64);
    proof {
        assert(r@ =~= child_path(path@, decimal(i as nat)));
    }
    r
}

fn refused_path(path: &String) -> (r: String)
    ensures
        r@ == root_or(path@),
{
    if path.as_str().unicode_len() == 0 {
        let mut r = String::new();
        push_char(&mut r, '/');
        proof {
            assert(r@ =~= seq!['/']);
        }
        r
    } else {
        string_of(path.as_str())
    }
}

fn bracket(open: char, texts: &Vec<String>, close: char) -> (r: String)
    ensures
        r@ == seq![open] + join_text(views(texts@), seq![',']) + seq![close],
{
    let mut r = String::new();
    push_char(&mut r, open);
    push_joined(&mut r, texts.as_slice(), ",");
    push_char(&mut r, close);
    proof {
        reveal_strlit(",");
        assert(","@ =~= seq![',']);
        assert(r@ =~= seq![open] + join_text(views(texts@), seq![',']) + seq![close]);
    }
    r
}

fn write_canonical(v: &Json, path: &String) -> (r: Result<String, CanonicalError>)
    ensures
        result_view(r) == canonical(json_view(*v), path@),
    decreases v,
{
    match v {
        Json::Null => {
            let mut r = String::new();
            push_str(&mut r, "null");
            proof {
                reveal_strlit("null");
                assert(r@ =~= seq!['n', 'u', 'l', 'l']);
            }
            Ok(r)
        },
        Json::Bool(b) => {
            let mut r = String::new();
            if *b {
                push_str(&mut r, "true");
                proof {
                    reveal_strlit("true");
                    assert(r@ =~= seq!['t', 'r', 'u', 'e']);
                }
            } else {
                push_str(&mut r, "false");
                proof {
                    reveal_strlit("false");
                    assert(r@ =~= seq!['f', 'a', 'l', 's', 'e']);
                }
            }
            Ok(r)
        },
        Json::Number(JsonNumber::PosInt(u)) => {
            if *u > 9_007_199_254_740_991 {
                Err(CanonicalError::IntegerNotExact { path: refused_path(path) })
            } else {
                let mut r = String::new();
                push_u64(&mut r, *u);
                proof {
                    assert(r@ =~= decimal(*u as nat));
                }
                Ok(r)
            }
        },
        Json::Number(JsonNumber::NegInt(i)) => {
            if *i < -9_007_199_254_740_991 || *i > 9_007_199_254_740_991 {
                Err(CanonicalError::IntegerNotExact { path: refused_path(path) })
            } else {
                let mut r = String::new();
                push_i64(&mut r, *i);
                proof {
                    assert(r@ =~= signed_decimal(*i as int));
                }
                Ok(r)
            }
        },
        Json::Number(JsonNumber::Double(_)) => Err(CanonicalError::Float { path: refused_path(path) }),
        Json::String(s) => {
            let mut r = String::new();
            write_string(&mut r, s.as_str());
            proof {
                assert(r@ =~= json_string_text(s@));
            }
            Ok(r)
        },
        Json::Array(items) => {
            let ghost vs = json_seq_view(items@);
            let mut texts: Vec<String> = Vec::new();
            let mut i: usize = 0;
            proof {
                assert(items@.take(0) =~= Seq::<Json>::empty());
                assert(views(texts@) =~= Seq::<Seq<char>>::empty());
            }
            while i < items.len()
                invariant
                    i <= items@.len(),
                    *v == Json::Array(*items),
                    collect(item_results(json_seq_view(items@.take(i as int)), path@)) == Ok::<
                        Seq<Seq<char>>,
                        Refusal,
                    >(views(texts@)),
                decreases items@.len() - i,
            {
                proof {
                    broadcast use vstd::std_specs::vec::axiom_vec_index_decreases;
                    assert(decreases_to!(*v => (*v)->Array_0));
                    assert(decreases_to!(*items => items[i as int]));
                }
                let p = index_path(path, i);
                let r = write_canonical(&items[i], &p);
                let ghost pre = json_seq_view(items@.take(i as int));
                proof {
                    assert(items@.take(i as int + 1).drop_last() =~= items@.take(i as int));
                    assert(items@.take(i as int + 1).last() == items@[i as int]);
                    lemma_json_seq_view_len(items@.take(i as int));
                    let post = json_seq_view(items@.take(i as int + 1));
                    assert(post == pre.push(json_view(items@[i as int])));
                    assert(post.drop_last() =~= pre);
                    assert(item_results(post, path@) == item_results(pre, path@).push(
                        canonical(json_view(items@[i as int]), child_path(path@, decimal(i as nat))),
                    ));
                    assert(item_results(post, path@).drop_last() =~= item_results(pre, path@));
                }
                match r {
                    Err(e) => {
                        proof {
                            let post = json_seq_view(items@.take(i as int + 1));
                            assert(collect(item_results(post, path@)) is Err);
                            assert(items@.skip(i as int + 1).len() >= 0);
                            lemma_items_extend(items@, i as int + 1, path@);
                        }
                        return Err(e);
                    },
                    Ok(t) => {
                        let ghost before = texts@;
                        texts.push(t);
                        proof {
                            assert(views(texts@) =~= views(before).push(t@));
                        }
                    },
                }
                i = i + 1;
            }
            proof {
                assert(items@.take(i as int) =~= items@);
            }
            Ok(bracket('[', &texts, ']'))
        },
        Json::Object(members) => {
            let mut entries: Vec<MemberResult> = Vec::new();
            let mut i: usize = 0;
            proof {
                assert(members@.take(0) =~= Seq::<(String, Json)>::empty());
                assert(member_result_views(entries@) =~= Seq::<(Seq<char>, Result<Seq<char>, Refusal>)>::empty());
            }
            while i < members.len()
                invariant
                    i <= members@.len(),
                    *v == Json::Object(*members),
                    member_result_views(entries@) == member_results(
                        json_members_view(members@.take(i as int)),
                        path@,
                    ),
                decreases members@.len() - i,
            {
                proof {
                    broadcast use vstd::std_specs::vec::axiom_vec_index_decreases;
                    assert(decreases_to!(*v => (*v)->Object_0));
                    assert(decreases_to!(*members => members[i as int]));
                    assert(decreases_to!(members[i as int] => members[i as int].1));
                }
                let p = extend_path(path, members[i].0.as_str());
                let r = write_canonical(&members[i].1, &p);
                let ghost before = entries@;
                entries.push((string_of(members[i].0.as_str()), r));
                proof {
                    let pre = json_members_view(members@.take(i as int));
                    let post = json_members_view(members@.take(i as int + 1));
                    assert(members@.take(i as int + 1).drop_last() =~= members@.take(i as int));
                    assert(members@.take(i as int + 1).last() == members@[i as int]);
                    assert(post == pre.push((members@[i as int].0@, json_view(members@[i as int].1))));
                    assert(post.drop_last() =~= pre);
                    assert(member_result_views(entries@) =~= member_result_views(before).push(
                        (members@[i as int].0@, result_view(r)),
                    ));
                }
                i = i + 1;
            }
            proof {
                assert(members@.take(i as int) =~= members@);
            }
            let ghost unsorted = member_result_views(entries@);
            let sorted = sort_members(entries);
            let ghost sv = member_result_views(sorted@);
            let ghost texts_all = member_texts(sv);
            proof {
                assert(unsorted == member_results(json_members_view(members@), path@));
            }
            let mut texts: Vec<String> = Vec::new();
            let mut k: usize = 0;
            proof {
                assert(texts_all.take(0) =~= Seq::<Result<Seq<char>, Refusal>>::empty());
                assert(views(texts@) =~= Seq::<Seq<char>>::empty());
            }
            while k < sorted.len()
                invariant
                    k <= sorted@.len(),
                    *v == Json::Object(*members),
                    sv == sort_by_key(member_results(json_members_view(members@), path@)),
                    sv == member_result_views(sorted@),
                    texts_all == member_texts(sv),
                    collect(texts_all.take(k as int)) == Ok::<Seq<Seq<char>>, Refusal>(views(texts@)),
                decreases sorted@.len() - k,
            {
                proof {
                    assert(texts_all.take(k as int + 1).drop_last() =~= texts_all.take(k as int));
                    assert(texts_all.take(k as int + 1).last() == member_text(sv[k as int]));
                    assert(sv[k as int] == (sorted@[k as int].0@, result_view(sorted@[k as int].1)));
                }
                match &sorted[k].1 {
                    Err(e) => {
                        proof {
                            assert(sv[k as int].1 == Err::<Seq<char>, Refusal>(e@));
                            assert(member_text(sv[k as int]) == Err::<Seq<char>, Refusal>(e@));
                            assert(collect(texts_all.take(k as int + 1)) == Err::<Seq<Seq<char>>, Refusal>(e@));
                            lemma_collect_keeps_the_first_refusal(
                                texts_all.take(k as int + 1),
                                texts_all.skip(k as int + 1),
                            );
                            assert(texts_all.take(k as int + 1) + texts_all.skip(k as int + 1) =~= texts_all);
                        }
                        return Err(copy_error(e));
                    },
                    Ok(t) => {
                        let mut m = String::new();
                        write_string(&mut m, sorted[k].0.as_str());
                        push_char(&mut m, ':');
                        push_str(&mut m, t.as_str());
                        let ghost before = texts@;
                        proof {
                            assert(m@ =~= json_string_text(sorted@[k as int].0@) + seq![':'] + t@);
                        }
                        texts.push(m);
                        proof {
                            assert(views(texts@) =~= views(before).push(m@));
                        }
                    },
                }
                k = k + 1;
            }
            proof {
                assert(texts_all.take(k as int) =~= texts_all);
            }
            Ok(bracket('{', &texts, '}'))
        },
    }
}

/// Once the elements up to `k` are refused, the whole array is.
proof fn lemma_items_extend(items: Seq<Json>, k: int, path: Seq<char>)
    requires
        0 <= k <= items.len(),
        collect(item_results(json_seq_view(items.take(k)), path)) is Err,
    ensures
        collect(item_results(json_seq_view(items), path)) == collect(
            item_results(json_seq_view(items.take(k)), path),
        ),
    decreases items.len() - k,
{
    if k < items.len() {
        let pre = json_seq_view(items.take(k));
        let post = json_seq_view(items.take(k + 1));
        assert(items.take(k + 1).drop_last() =~= items.take(k));
        assert(post.drop_last() =~= pre);
        assert(item_results(post, path).drop_last() =~= item_results(pre, path));
        lemma_items_extend(items, k + 1, path);
    } else {
        assert(items.take(k) =~= items);
    }
}

/// The RFC 8785 canonical form of `value`.
///
/// Refuses, with the path at which it was found, any number written as a
/// double and any integer outside `±(2^53 − 1)`.
pub fn canonicalize(value: &Json) -> (r: Result<String, CanonicalError>)
    ensures
        result_view(r) == canonical(json_view(*value), Seq::empty()),
{
    let path = String::new();
    write_canonical(value, &path)
}

// --- the digest ---------------------------------------------------------------

/// The algorithm prefix every digest carries.
pub open spec fn digest_prefix() -> Seq<char> {
    seq!['b', 'l', 'a', 'k', 'e', '3', ':']
}

/// `s` starts with the digest prefix.
pub open spec fn has_digest_prefix(s: Seq<char>) -> bool {
    s.len() >= 7 && s.take(7) == digest_prefix()
}

/// `s` is a rendered digest: the prefix, then 64 lowercase hexadecimal
/// characters.
pub open spec fn is_digest_text(s: Seq<char>) -> bool {
    &&& has_digest_prefix(s)
    &&& s.len() == 71
    &&& forall|i: int| 7 <= i < 71 ==> is_lower_hex(#[trigger] s[i])
}

/// A content digest, rendered as `blake3:<64 lowercase hex>`.
#[derive(PartialEq, Eq, PartialOrd, Ord, Hash, Debug)]
pub struct Digest {
    text: String,
}

/// Why a string is not a [`Digest`].
#[derive(Clone, PartialEq, Eq, Debug)]
pub enum DigestParseError {
    /// No `blake3:` prefix.
    Prefix(String),
    /// The body is not 64 lowercase hexadecimal characters.
    Body(String),
}

impl DigestParseError {
    /// The message, naming the refused text.
    pub fn to_string(&self) -> (r: String)
        ensures
            r@ == match self {
                DigestParseError::Prefix(t) => "digest `"@ + t@ + "` does not start with `blake3:`"@,
                DigestParseError::Body(t) => "digest `"@ + t@
                    + "` body is not 64 lowercase hexadecimal characters"@,
            },
    {
        let mut r = String::new();
        push_str(&mut r, "digest `");
        match self {
            DigestParseError::Prefix(t) => {
                push_str(&mut r, t.as_str());
                push_str(&mut r, "` does not start with `blake3:`");
            },
            DigestParseError::Body(t) => {
                push_str(&mut r, t.as_str());
                push_str(&mut r, "` body is not 64 lowercase hexadecimal characters");
            },
        }
        r
    }
}

impl Digest {
    #[verifier::type_invariant]
    spec fn well_formed(self) -> bool {
        is_digest_text(self.text@)
    }

    /// The rendered form, prefix included.
    pub closed spec fn view(&self) -> Seq<char> {
        self.text@
    }

    /// The algorithm prefix every digest carries.
    pub const PREFIX: &'static str = "blake3:";

    /// Borrow the rendered form, prefix included.
    pub fn as_str(&self) -> (r: &str)
        ensures
            r@ == self@,
            is_digest_text(r@),
    {
        proof {
            use_type_invariant(self);
        }
        self.text.as_str()
    }

    /// The rendered form, as a fresh string.
    pub fn to_string(&self) -> (r: String)
        ensures
            r@ == self@,
            is_digest_text(r@),
    {
        proof {
            use_type_invariant(self);
        }
        string_of(self.text.as_str())
    }

    /// The rendered form, giving the digest up.
    pub fn into_string(self) -> (r: String)
        ensures
            r@ == self@,
            is_digest_text(r@),
    {
        proof {
            use_type_invariant(&self);
        }
        self.text
    }

    /// Read a digest back from its rendered form.
    ///
    /// Accepts exactly the texts a digest renders as; refuses a text without
    /// the prefix as [`DigestParseError::Prefix`] and any other as
    /// [`DigestParseError::Body`], each carrying the refused text.
    pub fn parse(s: &str) -> (r: Result<Digest, DigestParseError>)
        ensures
            r is Ok <==> is_digest_text(s@),
            r matches Ok(d) ==> d@ == s@,
            r matches Err(DigestParseError::Prefix(t)) ==> (!has_digest_prefix(s@) && t@ == s@),
            r matches Err(DigestParseError::Body(t)) ==> (has_digest_prefix(s@) && t@ == s@),
            r is Err ==> (r matches Err(DigestParseError::Prefix(_)) <==> !has_digest_prefix(s@)),
    {
        let cs = chars_of(s);
        let prefix = chars_of("blake3:");
        proof {
            reveal_strlit("blake3:");
            assert(prefix@ =~= digest_prefix());
        }
        if cs.len() < 7 {
            return Err(DigestParseError::Prefix(string_of(s)));
        }
        let mut i: usize = 0;
        while i < 7
            invariant
                i <= 7,
                cs@ == s@,
                cs@.len() >= 7,
                prefix@ == digest_prefix(),
                cs@.take(i as int) == digest_prefix().take(i as int),
            decreases 7 - i,
        {
            if cs[i] != prefix[i] {
                proof {
                    if has_digest_prefix(cs@) {
                        assert(cs@.take(7)[i as int] == cs@[i as int]);
                    }
                }
                return Err(DigestParseError::Prefix(string_of(s)));
            }
            proof {
                assert(cs@.take(i as int + 1) =~= cs@.take(i as int).push(cs@[i as int]));
                assert(digest_prefix().take(i as int + 1) =~= digest_prefix().take(i as int).push(
                    digest_prefix()[i as int],
                ));
            }
            i = i + 1;
        }
        proof {
            assert(digest_prefix().take(7) =~= digest_prefix());
            assert(has_digest_prefix(s@));
        }
        if cs.len() != 71 {
            return Err(DigestParseError::Body(string_of(s)));
        }
        let mut k: usize = 7;
        while k < 71
            invariant
                7 <= k <= 71,
                cs@ == s@,
                has_digest_prefix(s@),
                cs@.len() == 71,
                forall|j: int| 7 <= j < k ==> is_lower_hex(#[trigger] cs@[j]),
            decreases 71 - k,
        {
            let c = cs[k];
            if !(('0' <= c && c <= '9') || ('a' <= c && c <= 'f')) {
                return Err(DigestParseError::Body(string_of(s)));
            }
            k = k + 1;
        }
        Ok(Digest { text: string_of(s) })
    }
}

impl Clone for Digest {
    fn clone(&self) -> (r: Digest)
        ensures
            r@ == self@,
    {
        proof {
            use_type_invariant(self);
        }
        Digest { text: string_of(self.text.as_str()) }
    }
}

impl std::str::FromStr for Digest {
    type Err = DigestParseError;

    fn from_str(s: &str) -> (r: Result<Digest, DigestParseError>)
        ensures
            r is Ok <==> is_digest_text(s@),
            r matches Ok(d) ==> d@ == s@,
            r matches Err(DigestParseError::Prefix(t)) ==> (!has_digest_prefix(s@) && t@ == s@),
            r matches Err(DigestParseError::Body(t)) ==> (has_digest_prefix(s@) && t@ == s@),
    {
        Digest::parse(s)
    }
}

/// The rendered digest of a canonical text.
pub open spec fn digest_of_text(canonical_text: Seq<char>) -> Seq<char> {
    digest_prefix() + blake3_hex(canonical_text)
}

/// What [`digest_of`] gives for `v`: the digest of its canonical form, or
/// the refusal that stopped canonicalization.
pub open spec fn digest_result(v: JsonValue) -> Result<Seq<char>, Refusal> {
    match canonical(v, Seq::empty()) {
        Ok(t) => Ok(digest_of_text(t)),
        Err(e) => Err(e),
    }
}

/// A digest result as mathematics sees it.
pub open spec fn digest_view(r: Result<Digest, CanonicalError>) -> Result<Seq<char>, Refusal> {
    match r {
        Ok(d) => Ok(d@),
        Err(e) => Err(e@),
    }
}

/// blake3 over the canonical form of `value`.
pub fn digest_of(value: &Json) -> (r: Result<Digest, CanonicalError>)
    ensures
        digest_view(r) == digest_result(json_view(*value)),
{
    match canonicalize(value) {
        Err(e) => Err(e),
        Ok(text) => {
            let hex = blake3_hex_of(text.as_str());
            let mut s = String::new();
            push_str(&mut s, "blake3:");
            push_str(&mut s, hex.as_str());
            proof {
                reveal_strlit("blake3:");
                assert("blake3:"@ =~= digest_prefix());
                assert(s@ =~= digest_of_text(text@));
                assert(s@.take(7) =~= digest_prefix());
                assert forall|i: int| 7 <= i < 71 implies is_lower_hex(#[trigger] s@[i]) by {
                    assert(s@[i] == hex@[i - 7]);
                }
            }
            Ok(Digest { text: s })
        },
    }
}

// --- paths ----------------------------------------------------------------------

/// One step of a path, as mathematics sees it.
pub enum Step {
    /// An object key.
    Key(Seq<char>),
    /// Every element of an array.
    Each,
}

/// One step of a path.
pub enum Segment {
    /// An object key.
    Key(String),
    /// Every element of an array.
    Each,
}

impl Segment {
    /// The step this segment takes.
    pub open spec fn view(&self) -> Step {
        match self {
            Segment::Key(k) => Step::Key(k@),
            Segment::Each => Step::Each,
        }
    }
}

/// The steps of a sequence of segments.
pub open spec fn steps_of(segs: Seq<Segment>) -> Seq<Step> {
    segs.map_values(|g: Segment| g@)
}

/// The pieces of `s` between slashes, as `str::split('/')` gives them.
pub open spec fn slash_pieces(s: Seq<char>) -> Seq<Seq<char>>
    decreases s.len(),
{
    if s.len() == 0 {
        seq![Seq::empty()]
    } else {
        let p = slash_pieces(s.drop_last());
        if s.last() == '/' {
            p.push(Seq::empty())
        } else {
            p.update(p.len() - 1, p.last().push(s.last()))
        }
    }
}

/// The step a non-empty piece names: `[]` is every element, anything else a
/// key.
pub open spec fn step_of(piece: Seq<char>) -> Step {
    if piece == seq!['[', ']'] {
        Step::Each
    } else {
        Step::Key(piece)
    }
}

/// The steps of the non-empty pieces, in order.
pub open spec fn steps_of_pieces(pieces: Seq<Seq<char>>) -> Seq<Step>
    decreases pieces.len(),
{
    if pieces.len() == 0 {
        Seq::empty()
    } else if pieces.last().len() == 0 {
        steps_of_pieces(pieces.drop_last())
    } else {
        steps_of_pieces(pieces.drop_last()).push(step_of(pieces.last()))
    }
}

/// The steps a slash-separated path names; empty pieces name nothing.
pub open spec fn path_steps(path: Seq<char>) -> Seq<Step> {
    steps_of_pieces(slash_pieces(path))
}

proof fn lemma_slash_pieces_nonempty(s: Seq<char>)
    ensures
        slash_pieces(s).len() >= 1,
    decreases s.len(),
{
    if s.len() > 0 {
        lemma_slash_pieces_nonempty(s.drop_last());
    }
}

fn piece_step(piece: &String) -> (r: Segment)
    ensures
        r@ == step_of(piece@),
{
    let cs = chars_of(piece.as_str());
    if cs.len() == 2 && cs[0] == '[' && cs[1] == ']' {
        proof {
            assert(piece@ =~= seq!['[', ']']);
        }
        Segment::Each
    } else {
        proof {
            if piece@ == seq!['[', ']'] {
                assert(cs@[0] == '[' && cs@[1] == ']');
            }
        }
        Segment::Key(string_of(piece.as_str()))
    }
}

/// The segments of a slash-separated path.
fn parse_path(path: &str) -> (r: Vec<Segment>)
    ensures
        steps_of(r@) == path_steps(path@),
{
    let cs = chars_of(path);
    let mut segs: Vec<Segment> = Vec::new();
    let mut cur = String::new();
    let mut i: usize = 0;
    proof {
        assert(cs@.take(0) =~= Seq::<char>::empty());
        assert(steps_of(segs@) =~= Seq::<Step>::empty());
        assert(slash_pieces(Seq::<char>::empty()).drop_last() =~= Seq::<Seq<char>>::empty());
    }
    while i < cs.len()
        invariant
            cs@ == path@,
            i <= cs@.len(),
            slash_pieces(cs@.take(i as int)).len() >= 1,
            steps_of(segs@) == steps_of_pieces(slash_pieces(cs@.take(i as int)).drop_last()),
            cur@ == slash_pieces(cs@.take(i as int)).last(),
        decreases cs@.len() - i,
    {
        let c = cs[i];
        let ghost pre = slash_pieces(cs@.take(i as int));
        proof {
            assert(cs@.take(i as int + 1).drop_last() =~= cs@.take(i as int));
            assert(cs@.take(i as int + 1).last() == c);
        }
        if c == '/' {
            let ghost before = segs@;
            if cur.as_str().unicode_len() > 0 {
                let g = piece_step(&cur);
                segs.push(g);
                proof {
                    assert(steps_of(segs@) =~= steps_of(before).push(g@));
                }
            }
            cur = String::new();
            proof {
                let post = slash_pieces(cs@.take(i as int + 1));
                assert(post == pre.push(Seq::empty()));
                assert(post.drop_last() =~= pre);
                assert(pre.drop_last().push(pre.last()) =~= pre);
                assert(cur@ =~= Seq::<char>::empty());
            }
        } else {
            push_char(&mut cur, c);
            proof {
                let post = slash_pieces(cs@.take(i as int + 1));
                assert(post.drop_last() =~= pre.drop_last());
            }
        }
        i = i + 1;
    }
    proof {
        assert(cs@.take(i as int) =~= cs@);
        lemma_slash_pieces_nonempty(path@);
    }
    let ghost before = segs@;
    let ghost pieces = slash_pieces(path@);
    proof {
        assert(pieces.drop_last().push(pieces.last()) =~= pieces);
    }
    if cur.as_str().unicode_len() > 0 {
        let g = piece_step(&cur);
        segs.push(g);
        proof {
            assert(steps_of(segs@) =~= steps_of(before).push(g@));
        }
    }
    segs
}

/// The position of the first member with key `key`.
pub open spec fn key_index(members: Seq<(Seq<char>, JsonValue)>, key: Seq<char>) -> Option<int>
    decreases members.len(),
{
    if members.len() == 0 {
        None
    } else if members[0].0 == key {
        Some(0)
    } else {
        match key_index(members.drop_first(), key) {
            Some(i) => Some(i + 1),
            None => None,
        }
    }
}

proof fn lemma_key_index(members: Seq<(Seq<char>, JsonValue)>, key: Seq<char>)
    ensures
        key_index(members, key) matches Some(i) ==> (0 <= i < members.len() && members[i].0 == key
            && forall|j: int| 0 <= j < i ==> #[trigger] members[j].0 != key),
        key_index(members, key) is None ==> forall|j: int|
            0 <= j < members.len() ==> #[trigger] members[j].0 != key,
    decreases members.len(),
{
    if members.len() > 0 {
        lemma_key_index(members.drop_first(), key);
        assert forall|j: int| 1 <= j < members.len() implies #[trigger] members[j].0
            == members.drop_first()[j - 1].0 by {}
    }
}

/// The value at `key` in `v`: the first member with that key when `v` is an
/// object, nothing otherwise.
pub open spec fn member_at(v: JsonValue, key: Seq<char>) -> Option<JsonValue> {
    match v {
        JsonValue::Obj(ms) => match key_index(ms, key) {
            Some(i) => Some(ms[i].1),
            None => None,
        },
        _ => None,
    }
}

/// The slot an array offers at `i`: its element there, or `null` past its end.
pub open spec fn slot_at(slots: Seq<JsonValue>, i: int) -> JsonValue {
    if 0 <= i < slots.len() {
        slots[i]
    } else {
        JsonValue::Null
    }
}

/// `dst` with the part of `src` that `steps` names copied in. A step that
/// finds nothing in `src` leaves `dst` as it is; a key step makes `dst` an
/// object if it is not one and adds the key if it is absent; an every-element
/// step makes `dst` an array as long as `src`'s, element by element.
pub open spec fn graft(src: JsonValue, dst: JsonValue, steps: Seq<Step>) -> JsonValue
    decreases steps.len(),
{
    if steps.len() == 0 {
        src
    } else {
        let tail = steps.drop_first();
        match steps[0] {
            Step::Key(k) => match member_at(src, k) {
                None => dst,
                Some(child) => {
                    let ms = match dst {
                        JsonValue::Obj(ms) => ms,
                        _ => Seq::empty(),
                    };
                    match key_index(ms, k) {
                        Some(i) => JsonValue::Obj(ms.update(i, (k, graft(child, ms[i].1, tail)))),
                        None => JsonValue::Obj(ms.push((k, graft(child, JsonValue::Null, tail)))),
                    }
                },
            },
            Step::Each => match src {
                JsonValue::Arr(items) => {
                    let slots = match dst {
                        JsonValue::Arr(d) => d,
                        _ => Seq::empty(),
                    };
                    JsonValue::Arr(
                        Seq::new(items.len(), |i: int| graft(items[i], slot_at(slots, i), tail)),
                    )
                },
                _ => dst,
            },
        }
    }
}

fn find_key(ms: &Vec<(String, Json)>, key: &str) -> (r: Option<usize>)
    ensures
        match r {
            Some(i) => key_index(json_members_view(ms@), key@) == Some(i as int),
            None => key_index(json_members_view(ms@), key@) is None,
        },
{
    let ghost mv = json_members_view(ms@);
    proof {
        lemma_json_members_view_index(ms@);
        lemma_key_index(mv, key@);
    }
    let mut i: usize = 0;
    while i < ms.len()
        invariant
            i <= ms@.len(),
            mv == json_members_view(ms@),
            mv.len() == ms@.len(),
            forall|j: int| 0 <= j < ms@.len() ==> #[trigger] mv[j] == (ms@[j].0@, json_view(ms@[j].1)),
            forall|j: int| 0 <= j < i ==> #[trigger] mv[j].0 != key@,
            key_index(mv, key@) matches Some(x) ==> (0 <= x < mv.len() && mv[x].0 == key@ && forall|j: int|
                0 <= j < x ==> #[trigger] mv[j].0 != key@),
            key_index(mv, key@) is None ==> forall|j: int| 0 <= j < mv.len() ==> #[trigger] mv[j].0 != key@,
        decreases ms@.len() - i,
    {
        if crate::text::str_eq(ms[i].0.as_str(), key) {
            proof {
                assert(mv[i as int].0 == key@);
                match key_index(mv, key@) {
                    Some(x) => {
                        if x < i {
                            assert(mv[x].0 != key@);
                        }
                        if x > i {
                            assert(mv[i as int].0 != key@);
                        }
                    },
                    None => {
                        assert(mv[i as int].0 != key@);
                    },
                }
            }
            return Some(i);
        }
        i = i + 1;
    }
    proof {
        if let Some(x) = key_index(mv, key@) {
            assert(mv[x].0 != key@);
        }
    }
    None
}

fn get_member<'a>(v: &'a Json, key: &str) -> (r: Option<&'a Json>)
    ensures
        match r {
            Some(c) => member_at(json_view(*v), key@) == Some(json_view(*c)),
            None => member_at(json_view(*v), key@) is None,
        },
{
    match v {
        Json::Object(ms) => match find_key(ms, key) {
            Some(i) => {
                proof {
                    lemma_json_members_view_index(ms@);
                    lemma_key_index(json_members_view(ms@), key@);
                }
                Some(&ms[i].1)
            },
            None => None,
        },
        _ => None,
    }
}

fn graft_exec(src: &Json, dst: Json, segs: &Vec<Segment>, at: usize) -> (r: Json)
    requires
        at <= segs@.len(),
    ensures
        json_view(r) == graft(json_view(*src), json_view(dst), steps_of(segs@).skip(at as int)),
    decreases segs@.len() - at,
{
    let ghost steps = steps_of(segs@).skip(at as int);
    if at == segs.len() {
        proof {
            assert(steps.len() == 0);
        }
        return clone_json(src);
    }
    let ghost tail = steps_of(segs@).skip(at as int + 1);
    proof {
        assert(steps.drop_first() =~= tail);
        assert(steps[0] == segs@[at as int]@);
    }
    match &segs[at] {
        Segment::Key(key) => {
            match get_member(src, key.as_str()) {
                None => dst,
                Some(child) => {
                    let ghost dv = json_view(dst);
                    let mut ms: Vec<(String, Json)> = match dst {
                        Json::Object(ms) => ms,
                        _ => Vec::new(),
                    };
                    let ghost m0 = json_members_view(ms@);
                    proof {
                        assert(m0 == match dv {
                            JsonValue::Obj(x) => x,
                            _ => Seq::<(Seq<char>, JsonValue)>::empty(),
                        }) by {
                            if !(dv is Obj) {
                                assert(m0 =~= Seq::<(Seq<char>, JsonValue)>::empty());
                            }
                        }
                        lemma_json_members_view_index(ms@);
                    }
                    match find_key(&ms, key.as_str()) {
                        Some(i) => {
                            proof {
                                lemma_key_index(m0, key@);
                            }
                            let ghost before = ms@;
                            let (k, old) = ms.remove(i);
                            let newv = graft_exec(child, old, segs, at + 1);
                            proof {
                                assert(k@ == key@);
                            }
                            ms.insert(i, (k, newv));
                            proof {
                                lemma_json_members_view_index(ms@);
                                assert(ms@ =~= before.update(i as int, ms@[i as int]));
                                assert(json_members_view(ms@) =~= m0.update(
                                    i as int,
                                    (key@, graft(json_view(*child), m0[i as int].1, tail)),
                                ));
                            }
                        },
                        None => {
                            let ghost before = ms@;
                            let newv = graft_exec(child, Json::Null, segs, at + 1);
                            ms.push((string_of(key.as_str()), newv));
                            proof {
                                assert(ms@.drop_last() =~= before);
                            }
                        },
                    }
                    proof {
                        assert(json_view(Json::Object(ms)) == graft(json_view(*src), dv, steps));
                    }
                    Json::Object(ms)
                },
            }
        },
        Segment::Each => {
            match src {
                Json::Array(items) => {
                    let ghost dv = json_view(dst);
                    let mut old: Vec<Json> = match dst {
                        Json::Array(d) => d,
                        _ => Vec::new(),
                    };
                    let ghost d0 = old@;
                    let ghost slots = json_seq_view(d0);
                    let ghost iv = json_seq_view(items@);
                    proof {
                        assert(slots == match dv {
                            JsonValue::Arr(x) => x,
                            _ => Seq::<JsonValue>::empty(),
                        }) by {
                            if !(dv is Arr) {
                                assert(slots =~= Seq::<JsonValue>::empty());
                            }
                        }
                        lemma_json_seq_view_index(d0);
                        lemma_json_seq_view_index(items@);
                    }
                    let mut out: Vec<Json> = Vec::new();
                    let mut i: usize = 0;
                    while i < items.len()
                        invariant
                            i <= items@.len(),
                            at < segs.len(),
                            tail == steps_of(segs@).skip(at as int + 1),
                            slots == json_seq_view(d0),
                            slots.len() == d0.len(),
                            forall|j: int| 0 <= j < d0.len() ==> #[trigger] slots[j] == json_view(d0[j]),
                            iv == json_seq_view(items@),
                            iv.len() == items@.len(),
                            forall|j: int| 0 <= j < items@.len() ==> #[trigger] iv[j] == json_view(items@[j]),
                            old@.len() == (if i <= d0.len() { d0.len() - i } else { 0 }),
                            forall|j: int| 0 <= j < old@.len() ==> #[trigger] old@[j] == d0[i + j],
                            out@.len() == i,
                            forall|j: int| 0 <= j < i ==> #[trigger] json_view(out@[j]) == graft(
                                iv[j],
                                slot_at(slots, j),
                                tail,
                            ),
                        decreases items@.len() - i,
                    {
                        let ghost before = old@;
                        let slot = if old.len() > 0 {
                            old.remove(0)
                        } else {
                            Json::Null
                        };
                        proof {
                            assert(json_view(slot) == slot_at(slots, i as int));
                        }
                        let g = graft_exec(&items[i], slot, segs, at + 1);
                        out.push(g);
                        proof {
                            assert forall|j: int| 0 <= j < old@.len() implies #[trigger] old@[j] == d0[i + 1 + j] by {
                                assert(old@[j] == before[j + 1]);
                            }
                        }
                        i = i + 1;
                    }
                    proof {
                        lemma_json_seq_view_index(out@);
                        assert(json_seq_view(out@) =~= Seq::new(
                            iv.len(),
                            |j: int| graft(iv[j], slot_at(slots, j), tail),
                        ));
                        let expected = graft(json_view(*src), dv, steps);
                        assert(steps[0] == Step::Each);
                        assert(json_view(*src) == JsonValue::Arr(iv));
                        assert(expected is Arr);
                        assert(expected->Arr_0.len() == iv.len());
                        assert forall|j: int| 0 <= j < iv.len() implies #[trigger] expected->Arr_0[j] == graft(
                            iv[j],
                            slot_at(slots, j),
                            tail,
                        ) by {}
                        assert(expected->Arr_0 =~= json_seq_view(out@));
                        assert(json_view(Json::Array(out)) == expected);
                    }
                    Json::Array(out)
                },
                _ => dst,
            }
        },
    }
}

/// `v` without the part `steps` names. A key step that ends the path removes
/// the key from an object; earlier steps descend into the first member with
/// the key, or into every element of an array; a step that finds nothing
/// leaves `v` as it is.
pub open spec fn prune(v: JsonValue, steps: Seq<Step>) -> JsonValue
    decreases steps.len(),
{
    if steps.len() == 0 {
        v
    } else {
        let tail = steps.drop_first();
        match steps[0] {
            Step::Key(k) => match v {
                JsonValue::Obj(ms) => match key_index(ms, k) {
                    Some(i) => if tail.len() == 0 {
                        JsonValue::Obj(ms.remove(i))
                    } else {
                        JsonValue::Obj(ms.update(i, (ms[i].0, prune(ms[i].1, tail))))
                    },
                    None => v,
                },
                _ => v,
            },
            Step::Each => match v {
                JsonValue::Arr(items) => JsonValue::Arr(Seq::new(items.len(), |i: int| prune(items[i], tail))),
                _ => v,
            },
        }
    }
}

fn prune_exec(v: Json, segs: &Vec<Segment>, at: usize) -> (r: Json)
    requires
        at <= segs@.len(),
    ensures
        json_view(r) == prune(json_view(v), steps_of(segs@).skip(at as int)),
    decreases segs@.len() - at,
{
    let ghost steps = steps_of(segs@).skip(at as int);
    let ghost vv = json_view(v);
    if at == segs.len() {
        proof {
            assert(steps.len() == 0);
        }
        return v;
    }
    let ghost tail = steps_of(segs@).skip(at as int + 1);
    proof {
        assert(steps.drop_first() =~= tail);
        assert(steps[0] == segs@[at as int]@);
    }
    match &segs[at] {
        Segment::Key(key) => {
            match v {
                Json::Object(ms) => {
                    let mut ms = ms;
                    let ghost m0 = json_members_view(ms@);
                    proof {
                        lemma_json_members_view_index(ms@);
                    }
                    match find_key(&ms, key.as_str()) {
                        Some(i) => {
                            proof {
                                lemma_key_index(m0, key@);
                            }
                            let ghost before = ms@;
                            let (k, child) = ms.remove(i);
                            if at + 1 == segs.len() {
                                proof {
                                    lemma_json_members_view_index(ms@);
                                    assert(ms@ =~= before.remove(i as int));
                                    assert(json_members_view(ms@) =~= m0.remove(i as int));
                                }
                            } else {
                                let pruned = prune_exec(child, segs, at + 1);
                                ms.insert(i, (k, pruned));
                                proof {
                                    lemma_json_members_view_index(ms@);
                                    assert(ms@ =~= before.update(i as int, ms@[i as int]));
                                    assert(json_members_view(ms@) =~= m0.update(
                                        i as int,
                                        (m0[i as int].0, prune(m0[i as int].1, tail)),
                                    ));
                                }
                            }
                            Json::Object(ms)
                        },
                        None => Json::Object(ms),
                    }
                },
                other => other,
            }
        },
        Segment::Each => {
            match v {
                Json::Array(items) => {
                    let mut items = items;
                    let ghost d0 = items@;
                    let ghost iv = json_seq_view(d0);
                    proof {
                        lemma_json_seq_view_index(d0);
                    }
                    let mut out: Vec<Json> = Vec::new();
                    let n = items.len();
                    let mut i: usize = 0;
                    while i < n
                        invariant
                            n == d0.len(),
                            i <= n,
                            at < segs.len(),
                            tail == steps_of(segs@).skip(at as int + 1),
                            iv == json_seq_view(d0),
                            iv.len() == d0.len(),
                            forall|j: int| 0 <= j < d0.len() ==> #[trigger] iv[j] == json_view(d0[j]),
                            items@.len() == n - i,
                            forall|j: int| 0 <= j < items@.len() ==> #[trigger] items@[j] == d0[i + j],
                            out@.len() == i,
                            forall|j: int| 0 <= j < i ==> #[trigger] json_view(out@[j]) == prune(iv[j], tail),
                        decreases n - i,
                    {
                        let ghost before = items@;
                        let item = items.remove(0);
                        let g = prune_exec(item, segs, at + 1);
                        out.push(g);
                        proof {
                            assert forall|j: int| 0 <= j < items@.len() implies #[trigger] items@[j] == d0[i + 1
                                + j] by {
                                assert(items@[j] == before[j + 1]);
                            }
                        }
                        i = i + 1;
                    }
                    proof {
                        lemma_json_seq_view_index(out@);
                        let expected = prune(vv, steps);
                        assert(steps[0] == Step::Each);
                        assert(expected is Arr);
                        assert forall|j: int| 0 <= j < iv.len() implies #[trigger] expected->Arr_0[j] == prune(
                            iv[j],
                            tail,
                        ) by {}
                        assert(expected->Arr_0 =~= json_seq_view(out@));
                    }
                    Json::Array(out)
                },
                other => other,
            }
        },
    }
}

/// Whether `steps` resolves in `v`. With `every`, a path crossing an array
/// must resolve in every element; without it, in one. An empty array
/// resolves under neither.
pub open spec fn walk(v: JsonValue, steps: Seq<Step>, every: bool) -> bool
    decreases steps.len(), 0nat,
{
    if steps.len() == 0 {
        true
    } else {
        let tail = steps.drop_first();
        match steps[0] {
            Step::Key(k) => match member_at(v, k) {
                Some(c) => walk(c, tail, every),
                None => false,
            },
            Step::Each => match v {
                JsonValue::Arr(items) => items.len() > 0 && walk_items(items, tail, every),
                _ => false,
            },
        }
    }
}

/// With `every`, whether `tail` resolves in every one of `items`; without
/// it, whether it resolves in one of them.
pub open spec fn walk_items(items: Seq<JsonValue>, tail: Seq<Step>, every: bool) -> bool
    decreases tail.len(), items.len(),
{
    if items.len() == 0 {
        every
    } else if every {
        walk_items(items.drop_last(), tail, every) && walk(items.last(), tail, every)
    } else {
        walk_items(items.drop_last(), tail, every) || walk(items.last(), tail, every)
    }
}

proof fn lemma_walk_items(items: Seq<JsonValue>, tail: Seq<Step>, every: bool)
    ensures
        every ==> (walk_items(items, tail, every) <==> forall|i: int|
            0 <= i < items.len() ==> #[trigger] walk(items[i], tail, every)),
        !every ==> (walk_items(items, tail, every) <==> exists|i: int|
            0 <= i < items.len() && #[trigger] walk(items[i], tail, every)),
    decreases items.len(),
{
    if items.len() > 0 {
        let init = items.drop_last();
        lemma_walk_items(init, tail, every);
        assert forall|i: int| 0 <= i < init.len() implies #[trigger] init[i] == items[i] by {}
        if every {
            if walk_items(items, tail, every) {
                assert forall|i: int| 0 <= i < items.len() implies #[trigger] walk(items[i], tail, every) by {
                    if i < init.len() {
                        assert(walk(init[i], tail, every));
                    }
                }
            }
            if forall|i: int| 0 <= i < items.len() ==> #[trigger] walk(items[i], tail, every) {
                assert forall|i: int| 0 <= i < init.len() implies #[trigger] walk(init[i], tail, every) by {
                    assert(walk(items[i], tail, every));
                }
                assert(walk(items[items.len() - 1], tail, every));
            }
        } else {
            if walk_items(items, tail, every) {
                if walk(items.last(), tail, every) {
                    assert(walk(items[items.len() - 1], tail, every));
                } else {
                    let i = choose|i: int| 0 <= i < init.len() && #[trigger] walk(init[i], tail, every);
                    assert(walk(items[i], tail, every));
                }
            }
            if exists|i: int| 0 <= i < items.len() && #[trigger] walk(items[i], tail, every) {
                let i = choose|i: int| 0 <= i < items.len() && #[trigger] walk(items[i], tail, every);
                if i < init.len() {
                    assert(walk(init[i], tail, every));
                }
            }
        }
    }
}

fn walk_exec(v: &Json, segs: &Vec<Segment>, at: usize, every: bool) -> (r: bool)
    requires
        at <= segs@.len(),
    ensures
        r == walk(json_view(*v), steps_of(segs@).skip(at as int), every),
    decreases segs@.len() - at,
{
    let ghost steps = steps_of(segs@).skip(at as int);
    if at == segs.len() {
        proof {
            assert(steps.len() == 0);
        }
        return true;
    }
    let ghost tail = steps_of(segs@).skip(at as int + 1);
    proof {
        assert(steps.drop_first() =~= tail);
        assert(steps[0] == segs@[at as int]@);
    }
    match &segs[at] {
        Segment::Key(key) => match get_member(v, key.as_str()) {
            Some(c) => walk_exec(c, segs, at + 1, every),
            None => false,
        },
        Segment::Each => match v {
            Json::Array(items) => {
                if items.len() == 0 {
                    return false;
                }
                let ghost iv = json_seq_view(items@);
                proof {
                    lemma_json_seq_view_index(items@);
                    lemma_walk_items(iv, tail, every);
                    assert(json_view(*v) == JsonValue::Arr(iv));
                    assert(steps[0] == Step::Each);
                }
                let mut i: usize = 0;
                while i < items.len()
                    invariant
                        i <= items@.len(),
                        at < segs.len(),
                        tail == steps_of(segs@).skip(at as int + 1),
                        iv == json_seq_view(items@),
                        iv.len() == items@.len(),
                        forall|j: int| 0 <= j < items@.len() ==> #[trigger] iv[j] == json_view(items@[j]),
                        json_view(*v) == JsonValue::Arr(iv),
                        steps == steps_of(segs@).skip(at as int),
                        steps.len() > 0,
                        steps[0] == Step::Each,
                        steps.drop_first() == tail,
                        every ==> forall|j: int| 0 <= j < i ==> #[trigger] walk(iv[j], tail, every),
                        !every ==> forall|j: int| 0 <= j < i ==> !#[trigger] walk(iv[j], tail, every),
                    decreases items@.len() - i,
                {
                    let hit = walk_exec(&items[i], segs, at + 1, every);
                    if every && !hit {
                        proof {
                            assert(!walk(iv[i as int], tail, every));
                            lemma_walk_items(iv, tail, every);
                        }
                        return false;
                    }
                    if !every && hit {
                        proof {
                            assert(walk(iv[i as int], tail, every));
                            lemma_walk_items(iv, tail, every);
                        }
                        return true;
                    }
                    i = i + 1;
                }
                every
            },
            _ => false,
        },
    }
}

/// Whether `path` resolves in **every** element of every array it crosses.
///
/// A path that resolves in three escalations out of five does not cover the
/// ledger. An empty array resolves nothing.
pub fn path_resolves(value: &Json, path: &str) -> (r: bool)
    ensures
        r == walk(json_view(*value), path_steps(path@), true),
{
    let segs = parse_path(path);
    proof {
        assert(steps_of(segs@).skip(0) =~= steps_of(segs@));
    }
    walk_exec(value, &segs, 0, true)
}

/// Whether `path` resolves in **at least one** element of every array it
/// crosses.
pub fn path_resolves_somewhere(value: &Json, path: &str) -> (r: bool)
    ensures
        r == walk(json_view(*value), path_steps(path@), false),
{
    let segs = parse_path(path);
    proof {
        assert(steps_of(segs@).skip(0) =~= steps_of(segs@));
    }
    walk_exec(value, &segs, 0, false)
}

/// A path that resolves in every element of the arrays it crosses resolves
/// in at least one of them.
pub proof fn law_resolving_everywhere_resolves_somewhere(v: JsonValue, steps: Seq<Step>)
    requires
        walk(v, steps, true),
    ensures
        walk(v, steps, false),
    decreases steps.len(),
{
    if steps.len() > 0 {
        let tail = steps.drop_first();
        match steps[0] {
            Step::Key(k) => {
                law_resolving_everywhere_resolves_somewhere(member_at(v, k)->Some_0, tail);
            },
            Step::Each => {
                let items = v->Arr_0;
                lemma_walk_items(items, tail, true);
                lemma_walk_items(items, tail, false);
                assert(walk(items[0], tail, true));
                law_resolving_everywhere_resolves_somewhere(items[0], tail);
                assert(walk(items[0], tail, false));
            },
        }
    }
}

// --- what the digests cover ----------------------------------------------------
/// One entry on a digest's path list, with the reason it is there.
#[derive(Clone, Copy, PartialEq, Eq, PartialOrd, Ord, Debug)]
pub struct DigestPath {
    /// Slash-separated path from the document root. The segment `[]` matches
    /// every element of an array; every other segment is an object key.
    pub path: &'static str,
    /// Why this path is on this list.
    pub reason: &'static str,
}

/// The path and reason of each entry.
pub open spec fn entries_of(s: Seq<DigestPath>) -> Seq<(Seq<char>, Seq<char>)> {
    s.map_values(|p: DigestPath| (p.path@, p.reason@))
}

/// The paths of a list of entries.
pub open spec fn paths_of(entries: Seq<(Seq<char>, Seq<char>)>) -> Seq<Seq<char>> {
    entries.map_values(|e: (Seq<char>, Seq<char>)| e.0)
}

/// Why `schema_version` is where it is.
pub const WHY_SCHEMA_VERSION: &'static str = "the inclusion list below is versioned by the bundle schema major, so a digest computed under one major must not compare equal to a digest computed under another";

/// Why `core/repo` is where it is.
pub const WHY_CORE_REPO: &'static str = "identity of what was evaluated; the same diff in a different repository is not the same evaluation";

/// Why `core/pr` is where it is.
pub const WHY_CORE_PR: &'static str = "identity; absent for local runs, which is itself a distinction worth digesting";

/// Why `core/head_sha` is where it is.
pub const WHY_CORE_HEAD_SHA: &'static str = "the commit whose changes were classified — the input";

/// Why `core/base_ref` is where it is.
pub const WHY_CORE_BASE_REF: &'static str = "the base branch selects which policy applied";

/// Why `core/merge_base_sha` is where it is.
pub const WHY_CORE_MERGE_BASE_SHA: &'static str = "the other end of the diff; a different merge base is a different set of changes";

/// Why `core/tier` is where it is.
pub const WHY_CORE_TIER: &'static str = "the verdict itself — the one value the replay corpus exists to hold still";

/// Why `core/verdict` is where it is.
pub const WHY_CORE_VERDICT_FIELD: &'static str = "a function of `core/tier`, and covered anyway: a bundle whose two fields differ must not hash equal to one where they match";

/// Why `core/advisory_tier` is where it is.
pub const WHY_CORE_ADVISORY_TIER: &'static str = "half of the measurement that distinguishes `nothing failed` from `nothing that failed counted` — see BundleCore, which already declares this field to be on the inclusion list";

/// Why `core/flag_ids` is where it is.
pub const WHY_CORE_FLAG_IDS: &'static str = "what the classifier found; sorted at construction, so the order is not incidental";

/// Why `core/capability_states` is where it is.
pub const WHY_CORE_CAPABILITY_STATES: &'static str = "the least-confident answering method for each capability. A lossy collapse over scopes, so it is not the basis for the tier — the escalations are — but two evaluations that answered the same questions by different methods are not the same evaluation";

/// Why `adjudication/tier` is where it is.
pub const WHY_ADJUDICATION_TIER: &'static str = "the enforced ledger's own tier; must agree with `core/tier` and must digest differently when it does not";

/// Why `adjudication/verdict` is where it is.
pub const WHY_ADJUDICATION_VERDICT_FIELD: &'static str = "a function of the enforced ledger, duplicated on the wire, and covered so that a mismatch between the two copies is visible rather than invisible";

/// Why `adjudication/escalations/[]/from` is where it is.
pub const WHY_ADJUDICATION_ESCALATIONS_FROM: &'static str = "the ledger replays to the tier it reports only if the sequence is intact";

/// Why `adjudication/escalations/[]/to` is where it is.
pub const WHY_ADJUDICATION_ESCALATIONS_TO: &'static str = "the other end of the same step; `from`/`to` together are what make the ledger replay to the tier it reports";

/// Why `adjudication/escalations/[]/reason` is where it is.
pub const WHY_ADJUDICATION_ESCALATIONS_REASON: &'static str = "the stable groupable code — why the verdict is what it is";

/// Why `adjudication/escalations/[]/evidence` is where it is.
pub const WHY_ADJUDICATION_ESCALATIONS_EVIDENCE: &'static str = "what the escalation points at; an escalation attributed to a different requirement is a different decision";

/// Why `advisory_escalations/[]/from` is where it is.
pub const WHY_ADVISORY_ESCALATIONS_FROM: &'static str = "the advisory ledger is digested on the same terms as the enforced one; `core/advisory_tier` is a summary of it and a summary is not the basis";

/// Why `advisory_escalations/[]/to` is where it is.
pub const WHY_ADVISORY_ESCALATIONS_TO: &'static str = "the other end of the same step, on the same terms as the enforced ledger";

/// Why `advisory_escalations/[]/reason` is where it is.
pub const WHY_ADVISORY_ESCALATIONS_REASON: &'static str = "the stable groupable code for an outcome that was reported and not enforced; the escape-rate loop groups on it";

/// Why `advisory_escalations/[]/evidence` is where it is.
pub const WHY_ADVISORY_ESCALATIONS_EVIDENCE: &'static str = "what the advisory escalation points at; re-attributing one is a different record even at an unchanged tier";

/// Why `confidence` is where it is.
pub const WHY_CONFIDENCE: &'static str = "how much of the picture we had. Digested whole rather than field by field, because `Confidence` is `#[non_exhaustive]` and additive by contract: a count added later — `capabilities` was — enters the digest with the release that adds it rather than waiting for someone to remember this list. This is the one place the enumerate-everything rule is relaxed, and it is safe because the whole struct is counts. It must be covered: a misspelled `confidence` key deserializes to all-zeros and lands in `extensions`, rendering as `0 capabilities`, which reads as `nothing was required`, and that must not digest equal to a run that really required nothing";

/// Why `evidence/[]/provenance/produced_from_commit` is where it is.
pub const WHY_EVIDENCE_PROVENANCE_PRODUCED_FROM_COMMIT: &'static str = "the anti-gaming spine: evidence adopted from a different commit must digest differently from evidence produced for this one";

/// Why `evidence/[]/provenance/sha256` is where it is.
pub const WHY_EVIDENCE_PROVENANCE_SHA256: &'static str = "identity of the artifact that was parsed";

/// Why `evidence/[]/provenance/plan_digest` is where it is.
pub const WHY_EVIDENCE_PROVENANCE_PLAN_DIGEST: &'static str = "proves the tool ran with retries disabled and a fixed thread count, rather than merely that it ran";

/// Why `evidence/[]/provenance/exit_code` is where it is.
pub const WHY_EVIDENCE_PROVENANCE_EXIT_CODE: &'static str = "what the tool actually reported";

/// Why `evidence/[]/provenance/toolchain` is where it is.
pub const WHY_EVIDENCE_PROVENANCE_TOOLCHAIN: &'static str = "the same source under a different toolchain is a different measurement";

/// Why `evidence/[]/facts` is where it is.
pub const WHY_EVIDENCE_FACTS: &'static str = "the measurement itself, minus `facts/extra`, which is an untyped bag and can hold a float";

/// Why `core/bundle_id` is where it is.
pub const WHY_CORE_BUNDLE_ID: &'static str = "a content address cannot contain itself; the field is filled in from this function's result";

/// The paths [`verdict_digest`] covers, and nothing else: adding a section
/// to the document does not extend this list; only editing it does.
pub open spec fn verdict_digest_entries() -> Seq<(Seq<char>, Seq<char>)> {
    seq![
        ("schema_version"@, WHY_SCHEMA_VERSION@),
        ("core/repo"@, WHY_CORE_REPO@),
        ("core/pr"@, WHY_CORE_PR@),
        ("core/head_sha"@, WHY_CORE_HEAD_SHA@),
        ("core/base_ref"@, WHY_CORE_BASE_REF@),
        ("core/merge_base_sha"@, WHY_CORE_MERGE_BASE_SHA@),
        ("core/tier"@, WHY_CORE_TIER@),
        ("core/verdict"@, WHY_CORE_VERDICT_FIELD@),
        ("core/advisory_tier"@, WHY_CORE_ADVISORY_TIER@),
        ("core/flag_ids"@, WHY_CORE_FLAG_IDS@),
        ("core/capability_states"@, WHY_CORE_CAPABILITY_STATES@),
        ("adjudication/tier"@, WHY_ADJUDICATION_TIER@),
        ("adjudication/verdict"@, WHY_ADJUDICATION_VERDICT_FIELD@),
        ("adjudication/escalations/[]/from"@, WHY_ADJUDICATION_ESCALATIONS_FROM@),
        ("adjudication/escalations/[]/to"@, WHY_ADJUDICATION_ESCALATIONS_TO@),
        ("adjudication/escalations/[]/reason"@, WHY_ADJUDICATION_ESCALATIONS_REASON@),
        ("adjudication/escalations/[]/evidence"@, WHY_ADJUDICATION_ESCALATIONS_EVIDENCE@),
        ("advisory_escalations/[]/from"@, WHY_ADVISORY_ESCALATIONS_FROM@),
        ("advisory_escalations/[]/to"@, WHY_ADVISORY_ESCALATIONS_TO@),
        ("advisory_escalations/[]/reason"@, WHY_ADVISORY_ESCALATIONS_REASON@),
        ("advisory_escalations/[]/evidence"@, WHY_ADVISORY_ESCALATIONS_EVIDENCE@),
        ("confidence"@, WHY_CONFIDENCE@),
    ]
}

/// The paths [`verdict_digest`] covers, and nothing else: adding a section
/// to the document does not extend this list; only editing it does.
pub fn verdict_digest_paths() -> (r: Vec<DigestPath>)
    ensures
        entries_of(r@) == verdict_digest_entries(),
{
    let r = vec![
        DigestPath { path: "schema_version", reason: WHY_SCHEMA_VERSION },
        DigestPath { path: "core/repo", reason: WHY_CORE_REPO },
        DigestPath { path: "core/pr", reason: WHY_CORE_PR },
        DigestPath { path: "core/head_sha", reason: WHY_CORE_HEAD_SHA },
        DigestPath { path: "core/base_ref", reason: WHY_CORE_BASE_REF },
        DigestPath { path: "core/merge_base_sha", reason: WHY_CORE_MERGE_BASE_SHA },
        DigestPath { path: "core/tier", reason: WHY_CORE_TIER },
        DigestPath { path: "core/verdict", reason: WHY_CORE_VERDICT_FIELD },
        DigestPath { path: "core/advisory_tier", reason: WHY_CORE_ADVISORY_TIER },
        DigestPath { path: "core/flag_ids", reason: WHY_CORE_FLAG_IDS },
        DigestPath { path: "core/capability_states", reason: WHY_CORE_CAPABILITY_STATES },
        DigestPath { path: "adjudication/tier", reason: WHY_ADJUDICATION_TIER },
        DigestPath { path: "adjudication/verdict", reason: WHY_ADJUDICATION_VERDICT_FIELD },
        DigestPath { path: "adjudication/escalations/[]/from", reason: WHY_ADJUDICATION_ESCALATIONS_FROM },
        DigestPath { path: "adjudication/escalations/[]/to", reason: WHY_ADJUDICATION_ESCALATIONS_TO },
        DigestPath { path: "adjudication/escalations/[]/reason", reason: WHY_ADJUDICATION_ESCALATIONS_REASON },
        DigestPath { path: "adjudication/escalations/[]/evidence", reason: WHY_ADJUDICATION_ESCALATIONS_EVIDENCE },
        DigestPath { path: "advisory_escalations/[]/from", reason: WHY_ADVISORY_ESCALATIONS_FROM },
        DigestPath { path: "advisory_escalations/[]/to", reason: WHY_ADVISORY_ESCALATIONS_TO },
        DigestPath { path: "advisory_escalations/[]/reason", reason: WHY_ADVISORY_ESCALATIONS_REASON },
        DigestPath { path: "advisory_escalations/[]/evidence", reason: WHY_ADVISORY_ESCALATIONS_EVIDENCE },
        DigestPath { path: "confidence", reason: WHY_CONFIDENCE },
    ];
    proof {
        assert(entries_of(r@) =~= verdict_digest_entries());
    }
    r
}

/// Paths that belong in [`verdict_digest`] and name fields the document does
/// not carry yet. Not applied.
pub open spec fn deferred_verdict_digest_entries() -> Seq<(Seq<char>, Seq<char>)> {
    seq![
        ("evidence/[]/provenance/produced_from_commit"@, WHY_EVIDENCE_PROVENANCE_PRODUCED_FROM_COMMIT@),
        ("evidence/[]/provenance/sha256"@, WHY_EVIDENCE_PROVENANCE_SHA256@),
        ("evidence/[]/provenance/plan_digest"@, WHY_EVIDENCE_PROVENANCE_PLAN_DIGEST@),
        ("evidence/[]/provenance/exit_code"@, WHY_EVIDENCE_PROVENANCE_EXIT_CODE@),
        ("evidence/[]/provenance/toolchain"@, WHY_EVIDENCE_PROVENANCE_TOOLCHAIN@),
        ("evidence/[]/facts"@, WHY_EVIDENCE_FACTS@),
    ]
}

/// Paths that belong in [`verdict_digest`] and name fields the document does
/// not carry yet. Not applied.
pub fn deferred_verdict_digest_paths() -> (r: Vec<DigestPath>)
    ensures
        entries_of(r@) == deferred_verdict_digest_entries(),
{
    let r = vec![
        DigestPath { path: "evidence/[]/provenance/produced_from_commit", reason: WHY_EVIDENCE_PROVENANCE_PRODUCED_FROM_COMMIT },
        DigestPath { path: "evidence/[]/provenance/sha256", reason: WHY_EVIDENCE_PROVENANCE_SHA256 },
        DigestPath { path: "evidence/[]/provenance/plan_digest", reason: WHY_EVIDENCE_PROVENANCE_PLAN_DIGEST },
        DigestPath { path: "evidence/[]/provenance/exit_code", reason: WHY_EVIDENCE_PROVENANCE_EXIT_CODE },
        DigestPath { path: "evidence/[]/provenance/toolchain", reason: WHY_EVIDENCE_PROVENANCE_TOOLCHAIN },
        DigestPath { path: "evidence/[]/facts", reason: WHY_EVIDENCE_FACTS },
    ];
    proof {
        assert(entries_of(r@) =~= deferred_verdict_digest_entries());
    }
    r
}

/// Paths [`bundle_id`] must not cover; everything else participates.
pub open spec fn bundle_id_excluded_entries() -> Seq<(Seq<char>, Seq<char>)> {
    seq![
        ("core/bundle_id"@, WHY_CORE_BUNDLE_ID@),
    ]
}

/// Paths [`bundle_id`] must not cover; everything else participates.
pub fn bundle_id_excluded_paths() -> (r: Vec<DigestPath>)
    ensures
        entries_of(r@) == bundle_id_excluded_entries(),
{
    let r = vec![
        DigestPath { path: "core/bundle_id", reason: WHY_CORE_BUNDLE_ID },
    ];
    proof {
        assert(entries_of(r@) =~= bundle_id_excluded_entries());
    }
    r
}

/// The reason of the first entry whose path is `path`.
pub open spec fn first_reason(entries: Seq<(Seq<char>, Seq<char>)>, path: Seq<char>) -> Option<Seq<char>>
    decreases entries.len(),
{
    if entries.len() == 0 {
        None
    } else if entries[0].0 == path {
        Some(entries[0].1)
    } else {
        first_reason(entries.drop_first(), path)
    }
}

/// Why [`verdict_digest`] covers `path`, or `None` when it does not.
pub fn verdict_digest_covers(path: &str) -> (r: Option<&'static str>)
    ensures
        match r {
            Some(reason) => first_reason(verdict_digest_entries(), path@) == Some(reason@),
            None => first_reason(verdict_digest_entries(), path@) is None,
        },
{
    let ps = verdict_digest_paths();
    let ghost es = entries_of(ps@);
    let mut i: usize = 0;
    proof {
        assert(es.skip(0) =~= es);
    }
    while i < ps.len()
        invariant
            es == entries_of(ps@),
            es == verdict_digest_entries(),
            i <= ps@.len(),
            first_reason(es, path@) == first_reason(es.skip(i as int), path@),
        decreases ps@.len() - i,
    {
        proof {
            assert(es.skip(i as int)[0] == (ps@[i as int].path@, ps@[i as int].reason@));
            assert(es.skip(i as int).drop_first() =~= es.skip(i as int + 1));
        }
        if crate::text::str_eq(ps[i].path, path) {
            return Some(ps[i].reason);
        }
        i = i + 1;
    }
    None
}

/// The part of `v` the listed paths name, grafted in the order listed onto
/// `null`.
pub open spec fn projection(v: JsonValue, paths: Seq<Seq<char>>) -> JsonValue
    decreases paths.len(),
{
    if paths.len() == 0 {
        JsonValue::Null
    } else {
        graft(v, projection(v, paths.drop_last()), path_steps(paths.last()))
    }
}

/// `v` with each listed path removed, in the order listed.
pub open spec fn pruned(v: JsonValue, paths: Seq<Seq<char>>) -> JsonValue
    decreases paths.len(),
{
    if paths.len() == 0 {
        v
    } else {
        prune(pruned(v, paths.drop_last()), path_steps(paths.last()))
    }
}

fn project(src: &Json, paths: &Vec<DigestPath>) -> (r: Json)
    ensures
        json_view(r) == projection(json_view(*src), paths_of(entries_of(paths@))),
{
    let ghost ps = paths_of(entries_of(paths@));
    let mut out = Json::Null;
    let mut i: usize = 0;
    proof {
        assert(ps.take(0) =~= Seq::<Seq<char>>::empty());
    }
    while i < paths.len()
        invariant
            ps == paths_of(entries_of(paths@)),
            ps.len() == paths@.len(),
            i <= paths@.len(),
            json_view(out) == projection(json_view(*src), ps.take(i as int)),
        decreases paths@.len() - i,
    {
        let segs = parse_path(paths[i].path);
        proof {
            assert(steps_of(segs@).skip(0) =~= steps_of(segs@));
            assert(ps.take(i as int + 1).drop_last() =~= ps.take(i as int));
            assert(ps.take(i as int + 1).last() == paths@[i as int].path@);
        }
        out = graft_exec(src, out, &segs, 0);
        i = i + 1;
    }
    proof {
        assert(ps.take(i as int) =~= ps);
    }
    out
}

/// The digest of the verdict-bearing part of a document: exactly the paths
/// [`verdict_digest_paths`] names, projected and canonicalized.
///
/// Two documents with the same value here decided the same thing about the
/// same input; everything else about them may differ.
pub fn verdict_digest(whole: &Json) -> (r: Result<Digest, CanonicalError>)
    ensures
        digest_view(r) == digest_result(projection(json_view(*whole), paths_of(verdict_digest_entries()))),
{
    let paths = verdict_digest_paths();
    let projected = project(whole, &paths);
    digest_of(&projected)
}

/// The content address of a whole document, minus the paths
/// [`bundle_id_excluded_paths`] names.
///
/// Derived from content rather than from a timestamp or a random source, so
/// the same document always has the same identifier.
pub fn bundle_id(whole: &Json) -> (r: Result<Digest, CanonicalError>)
    ensures
        digest_view(r) == digest_result(pruned(json_view(*whole), paths_of(bundle_id_excluded_entries()))),
{
    let paths = bundle_id_excluded_paths();
    let ghost ps = paths_of(entries_of(paths@));
    let mut doc = clone_json(whole);
    let mut i: usize = 0;
    proof {
        assert(ps.take(0) =~= Seq::<Seq<char>>::empty());
    }
    while i < paths.len()
        invariant
            ps == paths_of(entries_of(paths@)),
            ps == paths_of(bundle_id_excluded_entries()),
            ps.len() == paths@.len(),
            i <= paths@.len(),
            json_view(doc) == pruned(json_view(*whole), ps.take(i as int)),
        decreases paths@.len() - i,
    {
        let segs = parse_path(paths[i].path);
        proof {
            assert(steps_of(segs@).skip(0) =~= steps_of(segs@));
            assert(ps.take(i as int + 1).drop_last() =~= ps.take(i as int));
            assert(ps.take(i as int + 1).last() == paths@[i as int].path@);
        }
        doc = prune_exec(doc, &segs, 0);
        i = i + 1;
    }
    proof {
        assert(ps.take(i as int) =~= ps);
    }
    digest_of(&doc)
}

// --- projection only ever copies ------------------------------------------------

/// `a` is a part of `b`: `null`, or `b` itself, or an object each of whose
/// reachable members (the first with its key) is a part of `b`'s first member
/// with that key, or an array as long as `b`'s whose elements are parts of
/// `b`'s elements.
pub open spec fn part_of(a: JsonValue, b: JsonValue) -> bool
    decreases a,
{
    match a {
        JsonValue::Null => true,
        JsonValue::Obj(ms) => match b {
            JsonValue::Obj(bms) => members_part_of(ms, ms, bms),
            _ => false,
        },
        JsonValue::Arr(items) => match b {
            JsonValue::Arr(bitems) => items.len() == bitems.len() && items_part_of(items, bitems),
            _ => false,
        },
        _ => a == b,
    }
}

/// Each member of `ms` that is the first in `whole` with its key is a part
/// of the first member of `bms` with that key.
pub open spec fn members_part_of(
    ms: Seq<(Seq<char>, JsonValue)>,
    whole: Seq<(Seq<char>, JsonValue)>,
    bms: Seq<(Seq<char>, JsonValue)>,
) -> bool
    decreases ms,
{
    if ms.len() == 0 {
        true
    } else {
        proof {
            assert(decreases_to!(ms => ms.last()));
            assert(decreases_to!(ms.last() => ms.last().1));
        }
        members_part_of(ms.drop_last(), whole, bms) && (key_index(whole, ms.last().0) == Some(
            (ms.len() - 1) as int,
        ) ==> match key_index(bms, ms.last().0) {
            Some(i) => part_of(ms.last().1, bms[i].1),
            None => false,
        })
    }
}

/// Each of `items` is a part of the element of `bitems` at its position.
pub open spec fn items_part_of(items: Seq<JsonValue>, bitems: Seq<JsonValue>) -> bool
    decreases items,
{
    if items.len() == 0 {
        true
    } else {
        proof {
            assert(decreases_to!(items => items.last()));
        }
        items_part_of(items.drop_last(), bitems) && part_of(items.last(), bitems[items.len() - 1])
    }
}

/// Each member of `ms` reachable by its key is a part of the member of `bms`
/// reachable by that key.
pub open spec fn reachable_parts(ms: Seq<(Seq<char>, JsonValue)>, bms: Seq<(Seq<char>, JsonValue)>) -> bool {
    forall|j: int|
        0 <= j < ms.len() && key_index(ms, #[trigger] ms[j].0) == Some(j) ==> match key_index(bms, ms[j].0) {
            Some(i) => part_of(ms[j].1, bms[i].1),
            None => false,
        }
}

proof fn lemma_members_part_of(
    ms: Seq<(Seq<char>, JsonValue)>,
    whole: Seq<(Seq<char>, JsonValue)>,
    bms: Seq<(Seq<char>, JsonValue)>,
)
    requires
        ms.len() <= whole.len(),
        forall|j: int| 0 <= j < ms.len() ==> #[trigger] ms[j] == whole[j],
    ensures
        members_part_of(ms, whole, bms) <==> forall|j: int|
            0 <= j < ms.len() && key_index(whole, #[trigger] ms[j].0) == Some(j) ==> match key_index(
                bms,
                ms[j].0,
            ) {
                Some(i) => part_of(ms[j].1, bms[i].1),
                None => false,
            },
    decreases ms.len(),
{
    if ms.len() > 0 {
        let init = ms.drop_last();
        lemma_members_part_of(init, whole, bms);
        assert forall|j: int| 0 <= j < init.len() implies #[trigger] init[j] == ms[j] by {}
        let l = ms.len() - 1;
        assert(ms[l] == ms.last());
        if members_part_of(ms, whole, bms) {
            assert forall|j: int|
                0 <= j < ms.len() && key_index(whole, #[trigger] ms[j].0) == Some(j) implies match key_index(
                bms,
                ms[j].0,
            ) {
                Some(i) => part_of(ms[j].1, bms[i].1),
                None => false,
            } by {
                if j < l {
                    assert(init[j] == ms[j]);
                    assert(key_index(whole, init[j].0) == Some(j));
                }
            }
        }
        if forall|j: int|
            0 <= j < ms.len() && key_index(whole, #[trigger] ms[j].0) == Some(j) ==> match key_index(
                bms,
                ms[j].0,
            ) {
                Some(i) => part_of(ms[j].1, bms[i].1),
                None => false,
            } {
            assert forall|j: int|
                0 <= j < init.len() && key_index(whole, #[trigger] init[j].0) == Some(j) implies match key_index(
                bms,
                init[j].0,
            ) {
                Some(i) => part_of(init[j].1, bms[i].1),
                None => false,
            } by {
                assert(init[j] == ms[j]);
            }
        }
    }
}

/// `part_of` on objects is `reachable_parts`.
proof fn lemma_object_part_of(ms: Seq<(Seq<char>, JsonValue)>, bms: Seq<(Seq<char>, JsonValue)>)
    ensures
        part_of(JsonValue::Obj(ms), JsonValue::Obj(bms)) <==> reachable_parts(ms, bms),
{
    lemma_members_part_of(ms, ms, bms);
}

proof fn lemma_items_part_of(items: Seq<JsonValue>, bitems: Seq<JsonValue>)
    ensures
        items_part_of(items, bitems) <==> forall|j: int|
            0 <= j < items.len() ==> part_of(#[trigger] items[j], bitems[j]),
    decreases items.len(),
{
    if items.len() > 0 {
        let init = items.drop_last();
        lemma_items_part_of(init, bitems);
        assert forall|j: int| 0 <= j < init.len() implies #[trigger] init[j] == items[j] by {}
        if items_part_of(items, bitems) {
            assert forall|j: int| 0 <= j < items.len() implies part_of(#[trigger] items[j], bitems[j]) by {
                if j < init.len() {
                    assert(part_of(init[j], bitems[j]));
                }
            }
        }
        if forall|j: int| 0 <= j < items.len() ==> part_of(#[trigger] items[j], bitems[j]) {
            assert forall|j: int| 0 <= j < init.len() implies part_of(#[trigger] init[j], bitems[j]) by {
                assert(part_of(items[j], bitems[j]));
            }
            let l = items.len() - 1;
            assert(part_of(items[l], bitems[l]));
        }
    }
}

/// The first member with a key is where the key leads: `key_index` is the
/// first position holding the key.
proof fn lemma_key_index_is_first(ms: Seq<(Seq<char>, JsonValue)>, k: Seq<char>, j: int)
    requires
        0 <= j < ms.len(),
        ms[j].0 == k,
        forall|x: int| 0 <= x < j ==> #[trigger] ms[x].0 != k,
    ensures
        key_index(ms, k) == Some(j),
{
    lemma_key_index(ms, k);
    match key_index(ms, k) {
        Some(i) => {
            if i < j {
                assert(ms[i].0 != k);
            } else if i > j {
                assert(ms[j].0 != k);
            }
        },
        None => {
            assert(ms[j].0 != k);
        },
    }
}

/// `key_index` reads the keys and nothing else.
proof fn lemma_key_index_reads_keys(a: Seq<(Seq<char>, JsonValue)>, b: Seq<(Seq<char>, JsonValue)>, k: Seq<char>)
    requires
        a.len() == b.len(),
        forall|j: int| 0 <= j < a.len() ==> #[trigger] a[j].0 == b[j].0,
    ensures
        key_index(a, k) == key_index(b, k),
{
    lemma_key_index(a, k);
    lemma_key_index(b, k);
    match key_index(a, k) {
        Some(i) => {
            assert forall|x: int| 0 <= x < i implies #[trigger] b[x].0 != k by {
                assert(a[x].0 != k);
            }
            lemma_key_index_is_first(b, k, i);
        },
        None => {
            if let Some(i) = key_index(b, k) {
                assert(a[i].0 == b[i].0);
            }
        },
    }
}

/// A document is a part of itself.
proof fn lemma_part_of_itself(v: JsonValue)
    ensures
        part_of(v, v),
    decreases v,
{
    match v {
        JsonValue::Obj(ms) => {
            assert forall|j: int|
                0 <= j < ms.len() && key_index(ms, #[trigger] ms[j].0) == Some(j) implies match key_index(
                ms,
                ms[j].0,
            ) {
                Some(i) => part_of(ms[j].1, ms[i].1),
                None => false,
            } by {
                assert(decreases_to!(ms => ms[j]));
                lemma_part_of_itself(ms[j].1);
            }
            lemma_object_part_of(ms, ms);
        },
        JsonValue::Arr(items) => {
            assert forall|j: int| 0 <= j < items.len() implies part_of(#[trigger] items[j], items[j]) by {
                lemma_part_of_itself(items[j]);
            }
            lemma_items_part_of(items, items);
        },
        _ => {},
    }
}

/// Grafting a part of `src` onto a part of `src` gives a part of `src`.
proof fn lemma_graft_is_part(src: JsonValue, dst: JsonValue, steps: Seq<Step>)
    requires
        part_of(dst, src),
    ensures
        part_of(graft(src, dst, steps), src),
    decreases steps.len(),
{
    if steps.len() == 0 {
        lemma_part_of_itself(src);
    } else {
        let tail = steps.drop_first();
        match steps[0] {
            Step::Key(k) => {
                if let Some(child) = member_at(src, k) {
                    let sms = src->Obj_0;
                    lemma_key_index(sms, k);
                    let ms = match dst {
                        JsonValue::Obj(ms) => ms,
                        _ => Seq::<(Seq<char>, JsonValue)>::empty(),
                    };
                    lemma_object_part_of(ms, sms);
                    assert(reachable_parts(ms, sms));
                    match key_index(ms, k) {
                        Some(i) => {
                            lemma_key_index(ms, k);
                            assert(key_index(ms, ms[i].0) == Some(i));
                            assert(part_of(ms[i].1, child));
                            lemma_graft_is_part(child, ms[i].1, tail);
                            let nms = ms.update(i, (k, graft(child, ms[i].1, tail)));
                            assert forall|j: int|
                                0 <= j < nms.len() && key_index(nms, #[trigger] nms[j].0) == Some(j) implies match key_index(
                                sms,
                                nms[j].0,
                            ) {
                                Some(x) => part_of(nms[j].1, sms[x].1),
                                None => false,
                            } by {
                                lemma_key_index_reads_keys(nms, ms, nms[j].0);
                                if j != i {
                                    assert(nms[j] == ms[j]);
                                }
                            }
                            lemma_object_part_of(nms, sms);
                            assert(graft(src, dst, steps) == JsonValue::Obj(nms));
                        },
                        None => {
                            lemma_key_index(ms, k);
                            lemma_graft_is_part(child, JsonValue::Null, tail);
                            let nms = ms.push((k, graft(child, JsonValue::Null, tail)));
                            assert forall|j: int|
                                0 <= j < nms.len() && key_index(nms, #[trigger] nms[j].0) == Some(j) implies match key_index(
                                sms,
                                nms[j].0,
                            ) {
                                Some(x) => part_of(nms[j].1, sms[x].1),
                                None => false,
                            } by {
                                if j < ms.len() {
                                    assert(nms[j] == ms[j]);
                                    lemma_key_index(nms, nms[j].0);
                                    assert forall|x: int| 0 <= x < j implies #[trigger] ms[x].0 != ms[j].0 by {
                                        assert(nms[x] == ms[x]);
                                    }
                                    lemma_key_index_is_first(ms, ms[j].0, j);
                                }
                            }
                            lemma_object_part_of(nms, sms);
                            assert(graft(src, dst, steps) == JsonValue::Obj(nms));
                        },
                    }
                }
            },
            Step::Each => {
                if let JsonValue::Arr(items) = src {
                    let slots = match dst {
                        JsonValue::Arr(d) => d,
                        _ => Seq::<JsonValue>::empty(),
                    };
                    if dst is Arr {
                        lemma_items_part_of(slots, items);
                    }
                    let out = Seq::new(items.len(), |i: int| graft(items[i], slot_at(slots, i), tail));
                    assert forall|i: int| 0 <= i < out.len() implies part_of(#[trigger] out[i], items[i]) by {
                        assert(part_of(slot_at(slots, i), items[i]));
                        lemma_graft_is_part(items[i], slot_at(slots, i), tail);
                    }
                    lemma_items_part_of(out, items);
                    let expected = graft(src, dst, steps);
                    assert(expected is Arr);
                    assert forall|j: int| 0 <= j < items.len() implies #[trigger] expected->Arr_0[j] == graft(
                        items[j],
                        slot_at(slots, j),
                        tail,
                    ) by {}
                    assert(expected->Arr_0 =~= out);
                }
            },
        }
    }
}

/// Whatever resolves in a part of `b` resolves in `b`.
proof fn lemma_walk_in_part(a: JsonValue, b: JsonValue, steps: Seq<Step>, every: bool)
    requires
        part_of(a, b),
        walk(a, steps, every),
    ensures
        walk(b, steps, every),
    decreases steps.len(),
{
    if steps.len() > 0 {
        let tail = steps.drop_first();
        match steps[0] {
            Step::Key(k) => {
                let ams = a->Obj_0;
                let bms = b->Obj_0;
                lemma_key_index(ams, k);
                let i = key_index(ams, k)->Some_0;
                lemma_object_part_of(ams, bms);
                assert(ams[i].0 == k);
                assert(key_index(ams, ams[i].0) == Some(i));
                let x = key_index(bms, ams[i].0)->Some_0;
                assert(member_at(b, k) == Some(bms[x].1));
                lemma_walk_in_part(ams[i].1, bms[x].1, tail, every);
            },
            Step::Each => {
                let ai = a->Arr_0;
                let bi = b->Arr_0;
                lemma_items_part_of(ai, bi);
                lemma_walk_items(ai, tail, every);
                lemma_walk_items(bi, tail, every);
                if every {
                    assert forall|i: int| 0 <= i < bi.len() implies #[trigger] walk(bi[i], tail, every) by {
                        assert(walk(ai[i], tail, every));
                        lemma_walk_in_part(ai[i], bi[i], tail, every);
                    }
                } else {
                    let i = choose|i: int| 0 <= i < ai.len() && #[trigger] walk(ai[i], tail, every);
                    lemma_walk_in_part(ai[i], bi[i], tail, every);
                }
            },
        }
    }
}

proof fn lemma_projection_is_part(v: JsonValue, paths: Seq<Seq<char>>)
    ensures
        part_of(projection(v, paths), v),
    decreases paths.len(),
{
    if paths.len() > 0 {
        lemma_projection_is_part(v, paths.drop_last());
        lemma_graft_is_part(v, projection(v, paths.drop_last()), path_steps(paths.last()));
    }
}

/// Projection never invents a path: whatever resolves, in every element or
/// in some, in the part of a document that a list of paths projects also
/// resolves in the document. The projection is a restriction, never a
/// transformation.
pub proof fn law_projection_never_invents_a_path(
    v: JsonValue,
    paths: Seq<Seq<char>>,
    path: Seq<char>,
    every: bool,
)
    requires
        walk(projection(v, paths), path_steps(path), every),
    ensures
        walk(v, path_steps(path), every),
{
    lemma_projection_is_part(v, paths);
    lemma_walk_in_part(projection(v, paths), v, path_steps(path), every);
}

// --- what a change off the listed paths leaves alone ------------------------------

/// `v` with the value reached through `keys` (each the first member with that
/// key) replaced by `x`; `v` itself when the keys lead nowhere.
pub open spec fn set_at(v: JsonValue, keys: Seq<Seq<char>>, x: JsonValue) -> JsonValue
    decreases keys.len(),
{
    if keys.len() == 0 {
        x
    } else {
        match v {
            JsonValue::Obj(ms) => match key_index(ms, keys[0]) {
                Some(i) => JsonValue::Obj(ms.update(i, (ms[i].0, set_at(ms[i].1, keys.drop_first(), x)))),
                None => v,
            },
            _ => v,
        }
    }
}

/// The path that goes through `keys`, one key step each.
pub open spec fn key_steps(keys: Seq<Seq<char>>) -> Seq<Step> {
    keys.map_values(|k: Seq<char>| Step::Key(k))
}

/// One hop to a place in a document: a key of an object, or a position in
/// an array.
pub enum Hop {
    /// An object key.
    Key(Seq<char>),
    /// A position in an array, from zero.
    At(int),
}

/// `v` with the value at `hops` replaced by `x`; where `hops` leads nowhere,
/// `v` as it is.
pub open spec fn set_in(v: JsonValue, hops: Seq<Hop>, x: JsonValue) -> JsonValue
    decreases hops.len(),
{
    if hops.len() == 0 {
        x
    } else {
        match hops[0] {
            Hop::Key(k) => match v {
                JsonValue::Obj(ms) => match key_index(ms, k) {
                    Some(i) => JsonValue::Obj(ms.update(i, (ms[i].0, set_in(ms[i].1, hops.drop_first(), x)))),
                    None => v,
                },
                _ => v,
            },
            Hop::At(n) => match v {
                JsonValue::Arr(items) => if 0 <= n < items.len() {
                    JsonValue::Arr(items.update(n, set_in(items[n], hops.drop_first(), x)))
                } else {
                    v
                },
                _ => v,
            },
        }
    }
}

/// A path step goes through a hop: the same key, or every element through
/// one position.
pub open spec fn step_meets(s: Step, h: Hop) -> bool {
    match s {
        Step::Key(k) => h == Hop::Key(k),
        Step::Each => h is At,
    }
}

/// The path `steps` leaves the place `hops` before either ends: it goes
/// through a prefix of `hops`, then takes a different key, or a key where
/// `hops` takes a position, or every element where `hops` takes a key.
pub open spec fn diverges(hops: Seq<Hop>, steps: Seq<Step>) -> bool {
    exists|i: int|
        0 <= i < hops.len() && i < steps.len() && (forall|j: int| 0 <= j < i ==> #[trigger] step_meets(steps[j], hops[j]))
            && !#[trigger] step_meets(steps[i], hops[i])
}

proof fn lemma_set_at_keys(ms: Seq<(Seq<char>, JsonValue)>, i: int, y: JsonValue, k: Seq<char>)
    requires
        0 <= i < ms.len(),
    ensures
        key_index(ms.update(i, (ms[i].0, y)), k) == key_index(ms, k),
{
    let n = ms.update(i, (ms[i].0, y));
    assert forall|j: int| 0 <= j < ms.len() implies #[trigger] n[j].0 == ms[j].0 by {}
    lemma_key_index_reads_keys(n, ms, k);
}

proof fn lemma_diverges_tail(hops: Seq<Hop>, steps: Seq<Step>)
    requires
        diverges(hops, steps),
        steps.len() > 0,
        hops.len() > 0,
        step_meets(steps[0], hops[0]),
    ensures
        diverges(hops.drop_first(), steps.drop_first()),
{
    let i = choose|i: int|
        0 <= i < hops.len() && i < steps.len() && (forall|j: int| 0 <= j < i ==> #[trigger] step_meets(steps[j], hops[j]))
            && !#[trigger] step_meets(steps[i], hops[i]);
    assert(i > 0);
    let hs = hops.drop_first();
    let ss = steps.drop_first();
    assert(ss[i - 1] == steps[i] && hs[i - 1] == hops[i]);
    assert forall|j: int| 0 <= j < i - 1 implies #[trigger] step_meets(ss[j], hs[j]) by {
        assert(step_meets(steps[j + 1], hops[j + 1]));
    }
}

/// Grafting along a path that leaves `hops` copies nothing from under them.
proof fn lemma_graft_off_the_place(src: JsonValue, dst: JsonValue, steps: Seq<Step>, hops: Seq<Hop>, x: JsonValue)
    requires
        diverges(hops, steps),
    ensures
        graft(set_in(src, hops, x), dst, steps) == graft(src, dst, steps),
    decreases steps.len(),
{
    let i0 = choose|i: int|
        0 <= i < hops.len() && i < steps.len() && (forall|j: int| 0 <= j < i ==> #[trigger] step_meets(steps[j], hops[j]))
            && !#[trigger] step_meets(steps[i], hops[i]);
    let changed = set_in(src, hops, x);
    let tail = steps.drop_first();
    match hops[0] {
        Hop::Key(h) => {
            if let JsonValue::Obj(ms) = src {
                if let Some(ki) = key_index(ms, h) {
                    lemma_key_index(ms, h);
                    let y = set_in(ms[ki].1, hops.drop_first(), x);
                    let nms = ms.update(ki, (ms[ki].0, y));
                    assert(changed == JsonValue::Obj(nms));
                    if let Step::Key(k) = steps[0] {
                        lemma_set_at_keys(ms, ki, y, k);
                        if k == h {
                            assert(i0 > 0) by {
                                if i0 == 0 {
                                    assert(!step_meets(steps[0], hops[0]));
                                }
                            }
                            assert(member_at(changed, k) == Some(y));
                            lemma_diverges_tail(hops, steps);
                            let ms_dst = match dst {
                                JsonValue::Obj(d) => d,
                                _ => Seq::<(Seq<char>, JsonValue)>::empty(),
                            };
                            match key_index(ms_dst, k) {
                                Some(di) => {
                                    lemma_graft_off_the_place(ms[ki].1, ms_dst[di].1, tail, hops.drop_first(), x);
                                },
                                None => {
                                    lemma_graft_off_the_place(ms[ki].1, JsonValue::Null, tail, hops.drop_first(), x);
                                },
                            }
                        } else {
                            if let Some(kk) = key_index(ms, k) {
                                lemma_key_index(ms, k);
                                assert(kk != ki);
                                assert(nms[kk] == ms[kk]);
                            }
                            assert(member_at(changed, k) == member_at(src, k));
                        }
                    }
                } else {
                    assert(changed == src);
                }
            } else {
                assert(changed == src);
            }
        },
        Hop::At(n) => {
            if let JsonValue::Arr(items) = src {
                if 0 <= n < items.len() {
                    let y = set_in(items[n], hops.drop_first(), x);
                    let nitems = items.update(n, y);
                    assert(changed == JsonValue::Arr(nitems));
                    if let Step::Each = steps[0] {
                        assert(i0 > 0) by {
                            if i0 == 0 {
                                assert(!step_meets(steps[0], hops[0]));
                            }
                        }
                        lemma_diverges_tail(hops, steps);
                        let slots = match dst {
                            JsonValue::Arr(d) => d,
                            _ => Seq::<JsonValue>::empty(),
                        };
                        lemma_graft_off_the_place(items[n], slot_at(slots, n), tail, hops.drop_first(), x);
                        let after = Seq::new(nitems.len(), |i: int| graft(nitems[i], slot_at(slots, i), tail));
                        let before = Seq::new(items.len(), |i: int| graft(items[i], slot_at(slots, i), tail));
                        assert(after =~= before);
                        assert(steps.len() > 0);
                        assert(steps[0] is Each);
                        let ga = graft(changed, dst, steps);
                        let gb = graft(src, dst, steps);
                        assert(ga is Arr);
                        assert(gb is Arr);
                        assert(ga->Arr_0.len() == after.len());
                        assert(ga->Arr_0 =~= after);
                        assert(gb->Arr_0 =~= before);
                    }
                } else {
                    assert(changed == src);
                }
            } else {
                assert(changed == src);
            }
        },
    }
}

/// Changing the value at a place that every listed path leaves before
/// reaching it does not reach the projection onto those paths, nor the digest
/// of it. So the verdict digest, the digest of the projection onto the
/// verdict paths, does not see a change to a value no verdict path reaches:
/// `generator/version`, `core/bundle_id`, an `extensions` section, or the
/// `detail` of the escalation at some position of `adjudication/escalations`.
pub proof fn law_a_value_off_the_listed_paths_does_not_reach_the_projection(
    v: JsonValue,
    paths: Seq<Seq<char>>,
    hops: Seq<Hop>,
    x: JsonValue,
)
    requires
        forall|i: int| 0 <= i < paths.len() ==> diverges(hops, path_steps(#[trigger] paths[i])),
    ensures
        projection(set_in(v, hops, x), paths) == projection(v, paths),
        digest_result(projection(set_in(v, hops, x), paths)) == digest_result(projection(v, paths)),
    decreases paths.len(),
{
    if paths.len() > 0 {
        let init = paths.drop_last();
        assert forall|i: int| 0 <= i < init.len() implies diverges(hops, path_steps(#[trigger] init[i])) by {
            assert(init[i] == paths[i]);
        }
        law_a_value_off_the_listed_paths_does_not_reach_the_projection(v, init, hops, x);
        assert(diverges(hops, path_steps(paths[paths.len() - 1])));
        lemma_graft_off_the_place(v, projection(v, init), path_steps(paths.last()), hops, x);
    }
}

/// Removing a key path removes whatever was under it: a document and the
/// same document with the value at that path replaced prune alike.
pub proof fn law_pruning_a_path_forgets_its_value(v: JsonValue, keys: Seq<Seq<char>>, x: JsonValue)
    requires
        keys.len() > 0,
    ensures
        prune(set_at(v, keys, x), key_steps(keys)) == prune(v, key_steps(keys)),
    decreases keys.len(),
{
    let steps = key_steps(keys);
    let tail = steps.drop_first();
    assert(steps[0] == Step::Key(keys[0]));
    assert(tail =~= key_steps(keys.drop_first()));
    if let JsonValue::Obj(ms) = v {
        if let Some(ki) = key_index(ms, keys[0]) {
            lemma_key_index(ms, keys[0]);
            let y = set_at(ms[ki].1, keys.drop_first(), x);
            let nms = ms.update(ki, (ms[ki].0, y));
            lemma_set_at_keys(ms, ki, y, keys[0]);
            if keys.len() == 1 {
                assert(nms.remove(ki) =~= ms.remove(ki));
            } else {
                law_pruning_a_path_forgets_its_value(ms[ki].1, keys.drop_first(), x);
                assert(nms.update(ki, (nms[ki].0, prune(nms[ki].1, tail))) =~= ms.update(
                    ki,
                    (ms[ki].0, prune(ms[ki].1, tail)),
                ));
            }
        }
    }
}

proof fn lemma_slash_pieces_extend(p: Seq<char>, t: Seq<char>)
    requires
        forall|i: int| 0 <= i < t.len() ==> #[trigger] t[i] != '/',
    ensures
        slash_pieces(p + t) == slash_pieces(p).update(
            slash_pieces(p).len() - 1,
            slash_pieces(p).last() + t,
        ),
    decreases t.len(),
{
    lemma_slash_pieces_nonempty(p);
    if t.len() == 0 {
        assert(p + t =~= p);
        assert(slash_pieces(p).last() + t =~= slash_pieces(p).last());
        assert(slash_pieces(p).update(slash_pieces(p).len() - 1, slash_pieces(p).last()) =~= slash_pieces(p));
    } else {
        let t0 = t.drop_last();
        assert forall|i: int| 0 <= i < t0.len() implies #[trigger] t0[i] != '/' by {
            assert(t0[i] == t[i]);
        }
        lemma_slash_pieces_extend(p, t0);
        assert((p + t).drop_last() =~= p + t0);
        assert((p + t).last() == t.last());
        assert(t[t.len() - 1] != '/');
        let q = slash_pieces(p);
        let q0 = q.update(q.len() - 1, q.last() + t0);
        assert(q0.last() == q.last() + t0);
        let s = p + t;
        assert(s.drop_last() =~= p + t0);
        assert(s.last() == t.last());
        assert(slash_pieces(s) == q0.update(q0.len() - 1, q0.last().push(s.last())));
        assert((q.last() + t0).push(t.last()) =~= q.last() + t);
        assert(q0.update(q0.len() - 1, q0.last().push(t.last())) =~= q.update(q.len() - 1, q.last() + t));
    }
}

/// The steps of `a/b`, for two keys that hold no slash and are not `[]`.
proof fn lemma_two_key_path(a: Seq<char>, b: Seq<char>)
    requires
        a.len() > 0,
        b.len() > 0,
        forall|i: int| 0 <= i < a.len() ==> #[trigger] a[i] != '/',
        forall|i: int| 0 <= i < b.len() ==> #[trigger] b[i] != '/',
        a != seq!['[', ']'],
        b != seq!['[', ']'],
    ensures
        path_steps(a + seq!['/'] + b) == key_steps(seq![a, b]),
{
    let e = Seq::<char>::empty();
    lemma_slash_pieces_extend(e, a);
    assert(e + a =~= a);
    assert(slash_pieces(e) == seq![e]);
    assert(slash_pieces(a) =~= seq![a]) by {
        assert(e + a =~= a);
    }
    let s1 = a + seq!['/'];
    assert(s1.drop_last() =~= a);
    assert(slash_pieces(s1) =~= seq![a, e]);
    lemma_slash_pieces_extend(s1, b);
    assert(e + b =~= b);
    assert(slash_pieces(s1 + b) =~= seq![a, b]);
    let pieces = seq![a, b];
    assert(pieces.drop_last() =~= seq![a]);
    assert(seq![a].drop_last() =~= Seq::<Seq<char>>::empty());
    assert(step_of(a) == Step::Key(a));
    assert(step_of(b) == Step::Key(b));
    assert(steps_of_pieces(Seq::<Seq<char>>::empty()) =~= Seq::<Step>::empty());
    assert(steps_of_pieces(seq![a]) =~= seq![Step::Key(a)]);
    assert(steps_of_pieces(pieces) == steps_of_pieces(seq![a]).push(step_of(b)));
    assert(steps_of_pieces(pieces) =~= seq![Step::Key(a), Step::Key(b)]);
    assert(key_steps(seq![a, b]) =~= seq![Step::Key(a), Step::Key(b)]);
}

/// The content address does not see its own field: two documents that
/// differ only in the value at `core/bundle_id` have the same `bundle_id`.
pub proof fn law_bundle_id_ignores_its_own_field(v: JsonValue, x: JsonValue)
    ensures
        pruned(set_at(v, seq!["core"@, "bundle_id"@], x), paths_of(bundle_id_excluded_entries())) == pruned(
            v,
            paths_of(bundle_id_excluded_entries()),
        ),
        digest_result(pruned(set_at(v, seq!["core"@, "bundle_id"@], x), paths_of(bundle_id_excluded_entries())))
            == digest_result(pruned(v, paths_of(bundle_id_excluded_entries()))),
{
    reveal_strlit("core");
    reveal_strlit("bundle_id");
    reveal_strlit("core/bundle_id");
    let a = "core"@;
    let b = "bundle_id"@;
    let keys = seq![a, b];
    assert("core/bundle_id"@ =~= a + seq!['/'] + b);
    assert(a != seq!['[', ']']) by {
        assert(a.len() != 2);
    }
    assert(b != seq!['[', ']']) by {
        assert(b.len() != 2);
    }
    lemma_two_key_path(a, b);
    let ps = paths_of(bundle_id_excluded_entries());
    assert(ps =~= seq!["core/bundle_id"@]);
    assert(ps.drop_last() =~= Seq::<Seq<char>>::empty());
    assert(ps.last() == a + seq!['/'] + b);
    let steps = key_steps(keys);
    assert(path_steps(ps.last()) == steps);
    let w = set_at(v, keys, x);
    assert(pruned(v, ps) == prune(v, steps)) by {
        assert(pruned(v, ps.drop_last()) == v);
    }
    assert(pruned(w, ps) == prune(w, steps)) by {
        assert(pruned(w, ps.drop_last()) == w);
    }
    law_pruning_a_path_forgets_its_value(v, keys, x);
}

} // verus!
