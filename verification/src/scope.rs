//! What a requirement is about: the crates and paths it covers, and the
//! injective encoding a requirement identifier is derived from.
//!
//! Two scopes that encode alike would get one identifier, and one resolution
//! would displace the other. So the encoding is injective: members of a set
//! are separated by U+001F, the two sets by U+001E, neither separator can
//! occur in a member (every control character is refused), and no member is
//! empty. Paths are refused, never rewritten, when they are not already in
//! normal form.

use vstd::prelude::*;
use crate::ids::CrateId;
use crate::path_order::{lemma_sort_paths, paths_ascending, sort_paths, sorted_by_path};
use crate::text::{byte_offset, char_byte_offset, chars_of, first_control, is_control, is_control_char,
    join_text, lemma_ascending_texts_are_canonical, lemma_lt_total, lemma_lt_transitive, push_char, push_joined,
    push_str, seq_lt, str_debug, str_debug_text, char_debug, char_debug_text, str_eq, str_lt, string_of, views,
    decimal, push_u64, string_from_chars};

verus! {

/// Separates the members of one set in the canonical encoding.
pub const UNIT_SEPARATOR: char = '\u{1f}';

/// Separates one set from the next in the canonical encoding.
pub const RECORD_SEPARATOR: char = '\u{1e}';

/// Why a scope was rejected: the rule that failed, echoing the value.
#[derive(Clone, PartialEq, Eq, Debug)]
#[non_exhaustive]
pub enum ScopeError {
    /// A crate identifier was empty.
    EmptyCrate,
    /// A path was empty.
    EmptyPath,
    /// A member contained a control character, which could impersonate a
    /// separator.
    ControlCharacter {
        /// The offending member, echoed whole.
        text: String,
        /// Byte offset of the offending character.
        at: usize,
        /// The offending character.
        found: char,
    },
    /// A path began with `./`.
    LeadingCurrentDirectory {
        /// The offending path.
        path: String,
        /// The same path with the prefix removed.
        suggestion: String,
    },
    /// A path ended with `/`.
    TrailingSlash {
        /// The offending path.
        path: String,
    },
    /// A path was absolute, or held `.`, `..` or an empty component.
    NotNormalized {
        /// The offending path.
        path: String,
    },
}

/// The message of a rejected scope.
pub open spec fn scope_error_text(e: ScopeError) -> Seq<char> {
    match e {
        ScopeError::EmptyCrate => "a scope's crate identifier must not be empty"@,
        ScopeError::EmptyPath => "a scope's path must not be empty"@,
        ScopeError::ControlCharacter { text, at, found } => "a scope member must not contain control characters, found "@
            + char_debug_text(found) + " at byte "@ + decimal(at as nat) + " of "@ + str_debug_text(text@),
        ScopeError::LeadingCurrentDirectory { path, suggestion } => "a scope path must not begin with `./`, found "@
            + str_debug_text(path@) + "; write it as "@ + str_debug_text(suggestion@),
        ScopeError::TrailingSlash { path } => "a scope path must not end with `/`, found "@ + str_debug_text(path@),
        ScopeError::NotNormalized { path } => "a scope path must be repository-relative and already normalized \u{2014} no `.`, no `..`, no `//`, no leading `/` \u{2014} found "@
            + str_debug_text(path@),
    }
}

impl ScopeError {
    /// The message, naming the rule and echoing the offending value.
    pub fn to_string(&self) -> (s: String)
        ensures
            s@ == scope_error_text(*self),
    {
        match self {
            ScopeError::EmptyCrate => string_of("a scope's crate identifier must not be empty"),
            ScopeError::EmptyPath => string_of("a scope's path must not be empty"),
            ScopeError::ControlCharacter { text, at, found } => {
                let mut s = string_of("a scope member must not contain control characters, found ");
                let f = char_debug(*found);
                push_str(&mut s, f.as_str());
                push_str(&mut s, " at byte ");
                push_u64(&mut s, *at as u64);
                push_str(&mut s, " of ");
                let t = str_debug(text.as_str());
                push_str(&mut s, t.as_str());
                s
            },
            ScopeError::LeadingCurrentDirectory { path, suggestion } => {
                let mut s = string_of("a scope path must not begin with `./`, found ");
                let p = str_debug(path.as_str());
                push_str(&mut s, p.as_str());
                push_str(&mut s, "; write it as ");
                let g = str_debug(suggestion.as_str());
                push_str(&mut s, g.as_str());
                s
            },
            ScopeError::TrailingSlash { path } => {
                let mut s = string_of("a scope path must not end with `/`, found ");
                let p = str_debug(path.as_str());
                push_str(&mut s, p.as_str());
                s
            },
            ScopeError::NotNormalized { path } => {
                let mut s = string_of(
                    "a scope path must be repository-relative and already normalized \u{2014} no `.`, no `..`, no `//`, no leading `/` \u{2014} found ",
                );
                let p = str_debug(path.as_str());
                push_str(&mut s, p.as_str());
                s
            },
        }
    }
}

/// One component of a path, as camino splits it.
#[derive(Clone, Debug)]
pub enum PathPart {
    /// A Windows prefix such as `C:`, as written.
    Prefix(String),
    /// The root separator that begins an absolute path.
    RootDir,
    /// `.`.
    CurDir,
    /// `..`.
    ParentDir,
    /// A name.
    Normal(String),
}

/// A path component as text.
pub enum PartView {
    /// A Windows prefix, as written.
    Prefix(Seq<char>),
    /// The root separator.
    RootDir,
    /// `.`.
    CurDir,
    /// `..`.
    ParentDir,
    /// A name.
    Normal(Seq<char>),
}

impl View for PathPart {
    type V = PartView;

    open spec fn view(&self) -> PartView {
        match self {
            PathPart::Prefix(t) => PartView::Prefix(t@),
            PathPart::RootDir => PartView::RootDir,
            PathPart::CurDir => PartView::CurDir,
            PathPart::ParentDir => PartView::ParentDir,
            PathPart::Normal(t) => PartView::Normal(t@),
        }
    }
}

/// The views of a sequence of components.
pub open spec fn part_views(s: Seq<PathPart>) -> Seq<PartView> {
    s.map_values(|p: PathPart| p@)
}

/// The components camino splits `raw` into, in order.
pub uninterp spec fn camino_components(raw: Seq<char>) -> Seq<PartView>;

/// The components of `raw`.
///
/// Trusted: converts what `camino::Utf8Path::components` yields, one
/// component for each, variant for variant. What they are is camino's, and
/// follows the path rules of the target the crate is built for (on Windows,
/// a backslash separates too and a drive prefix is a component of its own), so the
/// contract names the outcome and claims nothing more of it.
#[verifier::external_body]
fn components_of(raw: &str) -> (r: Vec<PathPart>)
    ensures
        part_views(r@) == camino_components(raw@),
{
    let mut parts = Vec::new();
    for component in camino::Utf8Path::new(raw).components() {
        parts.push(match component {
            camino::Utf8Component::Prefix(p) => PathPart::Prefix(p.as_str().to_owned()),
            camino::Utf8Component::RootDir => PathPart::RootDir,
            camino::Utf8Component::CurDir => PathPart::CurDir,
            camino::Utf8Component::ParentDir => PathPart::ParentDir,
            camino::Utf8Component::Normal(name) => PathPart::Normal(name.to_owned()),
        });
    }
    parts
}

/// The path camino builds by pushing `names`, in order, onto an empty path.
pub uninterp spec fn camino_join(names: Seq<Seq<char>>) -> Seq<char>;

/// Push `names`, in order, onto an empty path.
///
/// Trusted: calls `camino::Utf8PathBuf::push` for each name, then
/// `into_string`. The separator it joins with is the target's (`/` on Unix,
/// a backslash on Windows), so the contract names the outcome and claims nothing
/// more of it.
#[verifier::external_body]
fn join_names(names: &Vec<String>) -> (r: String)
    ensures
        r@ == camino_join(views(names@)),
{
    let mut joined = camino::Utf8PathBuf::new();
    for name in names {
        joined.push(name);
    }
    joined.into_string()
}

/// Every component is a name.
pub open spec fn all_names(parts: Seq<PartView>) -> bool {
    forall|i: int| 0 <= i < parts.len() ==> #[trigger] parts[i] is Normal
}

/// The text of each component that is a name; nothing for the others.
pub open spec fn name_texts(parts: Seq<PartView>) -> Seq<Seq<char>> {
    parts.map_values(
        |p: PartView|
            match p {
                PartView::Normal(t) => t,
                _ => Seq::empty(),
            },
    )
}

/// What `raw` spells when rebuilt from its own components: `None` when one of
/// them is not a name, else the names pushed in order onto an empty path.
pub open spec fn respelling(raw: Seq<char>) -> Option<Seq<char>> {
    let parts = camino_components(raw);
    if all_names(parts) {
        Some(camino_join(name_texts(parts)))
    } else {
        None
    }
}

/// Whether `p` begins with `./`.
pub open spec fn starts_dot_slash(p: Seq<char>) -> bool {
    p.len() >= 2 && p[0] == '.' && p[1] == '/'
}

/// Whether `p` ends with `/`.
pub open spec fn ends_slash(p: Seq<char>) -> bool {
    p.len() > 0 && p[p.len() - 1] == '/'
}

/// A crate identifier a scope accepts: non-empty, no control character.
pub open spec fn crate_is_accepted(c: Seq<char>) -> bool {
    c.len() > 0 && first_control(c, 0) is None
}

/// A path a scope accepts: non-empty, no control character, no leading
/// `./`, no trailing `/`, and spelled exactly as its own components rebuild
/// it, every one of them a name.
pub open spec fn path_is_accepted(p: Seq<char>) -> bool {
    &&& p.len() > 0
    &&& first_control(p, 0) is None
    &&& !starts_dot_slash(p)
    &&& !ends_slash(p)
    &&& respelling(p) == Some(p)
}

/// `e` is the control-character refusal of `t`.
pub open spec fn control_error_matches(e: ScopeError, t: Seq<char>) -> bool {
    &&& e matches ScopeError::ControlCharacter { text, at, found }
    &&& first_control(t, 0) matches Some(k)
    &&& text@ == t
    &&& at == byte_offset(t, k)
    &&& found == t[k]
}

/// `e` is the refusal a crate identifier `c` owes: the first rule it breaks.
pub open spec fn crate_error_matches(e: ScopeError, c: Seq<char>) -> bool {
    if c.len() == 0 {
        e == ScopeError::EmptyCrate
    } else {
        control_error_matches(e, c)
    }
}

/// `e` is the refusal a path `p` owes: the first rule it breaks.
pub open spec fn path_error_matches(e: ScopeError, p: Seq<char>) -> bool {
    if p.len() == 0 {
        e == ScopeError::EmptyPath
    } else if first_control(p, 0) is Some {
        control_error_matches(e, p)
    } else if starts_dot_slash(p) {
        e matches ScopeError::LeadingCurrentDirectory { path, suggestion } && path@ == p && suggestion@ == p.skip(2)
    } else if ends_slash(p) {
        e matches ScopeError::TrailingSlash { path } && path@ == p
    } else {
        respelling(p) != Some(p) && (e matches ScopeError::NotNormalized { path } && path@ == p)
    }
}

fn reject_control_characters(text: &str) -> (r: Result<(), ScopeError>)
    ensures
        r is Ok <==> first_control(text@, 0) is None,
        r matches Err(e) ==> control_error_matches(e, text@),
{
    let cs = chars_of(text);
    let mut i: usize = 0;
    while i < cs.len()
        invariant
            cs@ == text@,
            i <= cs@.len(),
            first_control(text@, 0) == first_control(text@, i as int),
        decreases cs@.len() - i,
    {
        if is_control(cs[i]) {
            proof {
                assert(first_control(text@, i as int) == Some(i as int));
            }
            let at = char_byte_offset(text, i);
            return Err(ScopeError::ControlCharacter { text: string_of(text), at, found: cs[i] });
        }
        proof {
            assert(first_control(text@, i as int) == first_control(text@, i as int + 1));
        }
        i = i + 1;
    }
    Ok(())
}

/// Check one crate identifier.
fn check_crate(id: &str) -> (r: Result<(), ScopeError>)
    ensures
        r is Ok <==> crate_is_accepted(id@),
        r matches Err(e) ==> crate_error_matches(e, id@),
{
    if id.unicode_len() == 0 {
        return Err(ScopeError::EmptyCrate);
    }
    reject_control_characters(id)
}

proof fn lemma_one_more_name(pv: Seq<PartView>, i: int, t: Seq<char>)
    requires
        0 <= i < pv.len(),
        pv[i] == PartView::Normal(t),
        all_names(pv.take(i)),
    ensures
        all_names(pv.take(i + 1)),
        name_texts(pv.take(i + 1)) == name_texts(pv.take(i)).push(t),
{
    let next = pv.take(i + 1);
    assert forall|j: int| 0 <= j < i + 1 implies #[trigger] next[j] is Normal by {
        if j < i {
            assert(next[j] == pv.take(i)[j]);
        }
    }
    assert(name_texts(next) =~= name_texts(pv.take(i)).push(t));
}

/// Check one path, which is returned unchanged or refused, never rewritten.
fn check_path(raw: &str) -> (r: Result<(), ScopeError>)
    ensures
        r is Ok <==> path_is_accepted(raw@),
        r matches Err(e) ==> path_error_matches(e, raw@),
{
    let cs = chars_of(raw);
    if cs.len() == 0 {
        return Err(ScopeError::EmptyPath);
    }
    match reject_control_characters(raw) {
        Err(e) => return Err(e),
        Ok(()) => {},
    }
    if cs.len() >= 2 && cs[0] == '.' && cs[1] == '/' {
        let suggestion = string_from_chars(&cs, 2, cs.len());
        proof {
            assert(suggestion@ =~= raw@.skip(2));
        }
        return Err(ScopeError::LeadingCurrentDirectory { path: string_of(raw), suggestion });
    }
    if cs[cs.len() - 1] == '/' {
        return Err(ScopeError::TrailingSlash { path: string_of(raw) });
    }
    let parts = components_of(raw);
    let ghost pv = part_views(parts@);
    let mut names: Vec<String> = Vec::new();
    let mut i: usize = 0;
    proof {
        assert(name_texts(pv.take(0)) =~= views(names@));
    }
    while i < parts.len()
        invariant
            pv == part_views(parts@),
            pv.len() == parts@.len(),
            pv == camino_components(raw@),
            raw@.len() > 0,
            first_control(raw@, 0) is None,
            !starts_dot_slash(raw@),
            !ends_slash(raw@),
            i <= parts@.len(),
            all_names(pv.take(i as int)),
            views(names@) == name_texts(pv.take(i as int)),
        decreases parts@.len() - i,
    {
        assert(pv[i as int] == parts@[i as int]@);
        match &parts[i] {
            PathPart::Normal(name) => {
                let ghost before = names@;
                names.push(name.clone());
                proof {
                    assert(views(names@) =~= views(before).push(name@));
                    lemma_one_more_name(pv, i as int, name@);
                }
            },
            _ => {
                proof {
                    assert(!(pv[i as int] is Normal));
                    assert(!all_names(pv));
                }
                return Err(ScopeError::NotNormalized { path: string_of(raw) });
            },
        }
        i = i + 1;
    }
    proof {
        assert(pv.take(i as int) =~= pv);
    }
    let joined = join_names(&names);
    if str_eq(joined.as_str(), raw) {
        Ok(())
    } else {
        Err(ScopeError::NotNormalized { path: string_of(raw) })
    }
}

/// Texts in strictly ascending code-point order.
pub open spec fn ascending_texts(s: Seq<Seq<char>>) -> bool {
    forall|i: int, j: int| 0 <= i < j < s.len() ==> seq_lt(#[trigger] s[i], #[trigger] s[j])
}

/// A scope as its two ordered sets: `(crates, paths)`.
pub type ScopeView = (Seq<Seq<char>>, Seq<Seq<char>>);

/// Both sets ascending, and every member accepted.
pub open spec fn scope_wf(v: ScopeView) -> bool {
    &&& ascending_texts(v.0)
    &&& ascending_texts(v.1)
    &&& forall|i: int| 0 <= i < v.0.len() ==> crate_is_accepted(#[trigger] v.0[i])
    &&& forall|i: int| 0 <= i < v.1.len() ==> path_is_accepted(#[trigger] v.1[i])
}

/// The injective encoding: crates joined by U+001F, then U+001E, then paths
/// joined by U+001F, each set in code-point order.
pub open spec fn canonical_text(v: ScopeView) -> Seq<char> {
    join_text(v.0, seq![UNIT_SEPARATOR]) + seq![RECORD_SEPARATOR] + join_text(v.1, seq![UNIT_SEPARATOR])
}

/// The first position at or after `from` of a crate identifier a scope
/// refuses.
pub open spec fn first_bad_crate(cs: Seq<Seq<char>>, from: int) -> Option<int>
    decreases cs.len() - from,
{
    if from < 0 || from >= cs.len() {
        None
    } else if !crate_is_accepted(cs[from]) {
        Some(from)
    } else {
        first_bad_crate(cs, from + 1)
    }
}

/// The first position at or after `from` of a path a scope refuses.
pub open spec fn first_bad_path(ps: Seq<Seq<char>>, from: int) -> Option<int>
    decreases ps.len() - from,
{
    if from < 0 || from >= ps.len() {
        None
    } else if !path_is_accepted(ps[from]) {
        Some(from)
    } else {
        first_bad_path(ps, from + 1)
    }
}

/// Add `x` to the ascending set `v`.
fn insert_text(v: &mut Vec<String>, x: &str)
    requires
        ascending_texts(views(old(v)@)),
    ensures
        ascending_texts(views(final(v)@)),
        views(final(v)@).to_set() == views(old(v)@).to_set().insert(x@),
        forall|i: int| 0 <= i < views(final(v)@).len() ==> (#[trigger] views(final(v)@)[i] == x@ || views(old(v)@).contains(views(final(v)@)[i])),
{
    broadcast use vstd::seq_lib::group_seq_properties;
    let ghost s0 = views(v@);
    let mut p: usize = 0;
    while p < v.len() && str_lt(v[p].as_str(), x)
        invariant
            s0 == views(v@),
            p <= s0.len(),
            forall|j: int| 0 <= j < p ==> seq_lt(#[trigger] s0[j], x@),
        decreases s0.len() - p,
    {
        proof {
            assert(s0[p as int] == v@[p as int]@);
        }
        p = p + 1;
    }
    if p < v.len() && str_eq(v[p].as_str(), x) {
        proof {
            assert(s0[p as int] == x@);
            assert(s0.contains(x@));
            assert(s0.to_set().insert(x@) =~= s0.to_set());
        }
        return;
    }
    let ghost before = v@;
    v.insert(p, string_of(x));
    proof {
        let n = views(v@);
        assert(n =~= s0.insert(p as int, x@));
        if p < s0.len() {
            assert(s0[p as int] == before[p as int]@);
            assert(!seq_lt(s0[p as int], x@));
            assert(s0[p as int] != x@);
            lemma_lt_total(s0[p as int], x@);
        }
        assert forall|i: int, j: int| 0 <= i < j < n.len() implies seq_lt(#[trigger] n[i], #[trigger] n[j]) by {
            if j < p {
                assert(n[i] == s0[i] && n[j] == s0[j]);
            } else if j == p {
                assert(n[i] == s0[i]);
            } else if i == p {
                assert(n[j] == s0[j - 1]);
                if j - 1 > p {
                    assert(seq_lt(s0[p as int], s0[j - 1]));
                    lemma_lt_transitive(x@, s0[p as int], s0[j - 1]);
                }
            } else if i < p {
                assert(n[i] == s0[i] && n[j] == s0[j - 1]);
            } else {
                assert(n[i] == s0[i - 1] && n[j] == s0[j - 1]);
            }
        }
        assert forall|y: Seq<char>| n.to_set().contains(y) <==> s0.to_set().insert(x@).contains(y) by {
            if n.contains(y) {
                let k = choose|k: int| 0 <= k < n.len() && n[k] == y;
                if k < p {
                    assert(s0[k] == y);
                } else if k > p {
                    assert(s0[k - 1] == y);
                }
            }
            if s0.contains(y) {
                let k = choose|k: int| 0 <= k < s0.len() && s0[k] == y;
                if k < p {
                    assert(n[k] == y);
                } else {
                    assert(n[k + 1] == y);
                }
            }
            if y == x@ {
                assert(n[p as int] == y);
            }
        }
        assert(n.to_set() =~= s0.to_set().insert(x@));
        assert forall|i: int| 0 <= i < n.len() implies (#[trigger] n[i] == x@ || s0.contains(n[i])) by {
            if i < p {
                assert(n[i] == s0[i]);
            } else if i > p {
                assert(n[i] == s0[i - 1]);
            }
        }
    }
}

/// A requirement's scope: two sets, each sorted and deduplicated by
/// construction, so the identifier derived from it does not depend on the
/// order the planner unioned things in.
#[derive(PartialEq, Eq, Debug)]
pub struct RequirementScope {
    crates: Vec<String>,
    paths: Vec<String>,
}

impl View for RequirementScope {
    type V = ScopeView;

    closed spec fn view(&self) -> ScopeView {
        (views(self.crates@), views(self.paths@))
    }
}

proof fn lemma_take_push_to_set(s: Seq<Seq<char>>, i: int)
    requires
        0 <= i < s.len(),
    ensures
        s.take(i + 1).to_set() == s.take(i).to_set().insert(s[i]),
{
    assert(s.take(i) + seq![s[i]] =~= s.take(i + 1));
    Seq::<Seq<char>>::lemma_to_set_insert_commutes(s.take(i), s[i]);
}

proof fn lemma_first_bad_crate(cs: Seq<Seq<char>>, from: int)
    requires
        0 <= from,
    ensures
        first_bad_crate(cs, from) is None <==> forall|j: int| from <= j < cs.len() ==> crate_is_accepted(#[trigger] cs[j]),
    decreases cs.len() - from,
{
    if from < cs.len() && crate_is_accepted(cs[from]) {
        lemma_first_bad_crate(cs, from + 1);
    }
}

proof fn lemma_first_bad_path(ps: Seq<Seq<char>>, from: int)
    requires
        0 <= from,
    ensures
        first_bad_path(ps, from) is None <==> forall|j: int| from <= j < ps.len() ==> path_is_accepted(#[trigger] ps[j]),
    decreases ps.len() - from,
{
    if from < ps.len() && path_is_accepted(ps[from]) {
        lemma_first_bad_path(ps, from + 1);
    }
}

/// The identifiers of a sequence of crates.
pub open spec fn crate_views(cs: Seq<CrateId>) -> Seq<Seq<char>> {
    cs.map_values(|c: CrateId| c@)
}

/// The diagnostic rendering of a scope: `<whole repository>`, or its crates
/// then its paths in path order, separated by `, `. Lossy, and not the digest
/// input.
pub open spec fn scope_text(v: ScopeView) -> Seq<char> {
    if v.0.len() == 0 && v.1.len() == 0 {
        "<whole repository>"@
    } else {
        join_text(v.0 + sort_paths(v.1), ", "@)
    }
}

impl RequirementScope {
    /// Both sets stay ascending and every member stays accepted.
    #[verifier::type_invariant]
    closed spec fn inv(self) -> bool {
        scope_wf(self@)
    }

    /// Build a scope, refusing anything the encoding could not represent
    /// unambiguously. Crates are checked before paths, each in the order
    /// given, and the first refusal is returned.
    pub fn new(crates: Vec<CrateId>, paths: Vec<String>) -> (r: Result<RequirementScope, ScopeError>)
        ensures
            match r {
                Ok(sc) => {
                    &&& first_bad_crate(crate_views(crates@), 0) is None
                    &&& first_bad_path(views(paths@), 0) is None
                    &&& scope_wf(sc@)
                    &&& sc@.0.to_set() == crate_views(crates@).to_set()
                    &&& sc@.1.to_set() == views(paths@).to_set()
                },
                Err(e) => match first_bad_crate(crate_views(crates@), 0) {
                    Some(i) => crate_error_matches(e, crate_views(crates@)[i]),
                    None => first_bad_path(views(paths@), 0) matches Some(j) && path_error_matches(
                        e,
                        views(paths@)[j],
                    ),
                },
            },
    {
        let ghost cv = crate_views(crates@);
        let ghost pv = views(paths@);
        let mut checked_crates: Vec<String> = Vec::new();
        let mut i: usize = 0;
        proof {
            assert(views(checked_crates@) =~= Seq::<Seq<char>>::empty());
            assert(cv.take(0).to_set() =~= Set::<Seq<char>>::empty());
        }
        while i < crates.len()
            invariant
                cv == crate_views(crates@),
                i <= cv.len(),
                first_bad_crate(cv, 0) == first_bad_crate(cv, i as int),
                ascending_texts(views(checked_crates@)),
                views(checked_crates@).to_set() == cv.take(i as int).to_set(),
                forall|k: int| 0 <= k < views(checked_crates@).len() ==> crate_is_accepted(#[trigger] views(checked_crates@)[k]),
            decreases cv.len() - i,
        {
            proof {
                assert(cv[i as int] == crates@[i as int]@);
            }
            match check_crate(crates[i].as_str()) {
                Err(e) => {
                    proof {
                        assert(first_bad_crate(cv, i as int) == Some(i as int));
                    }
                    return Err(e);
                },
                Ok(()) => {},
            }
            let ghost old_c = views(checked_crates@);
            insert_text(&mut checked_crates, crates[i].as_str());
            proof {
                assert(first_bad_crate(cv, i as int) == first_bad_crate(cv, i as int + 1));
                lemma_take_push_to_set(cv, i as int);
                assert forall|k: int| 0 <= k < views(checked_crates@).len() implies crate_is_accepted(#[trigger] views(checked_crates@)[k]) by {
                    if views(checked_crates@)[k] != cv[i as int] {
                        let m = choose|m: int| 0 <= m < old_c.len() && old_c[m] == views(checked_crates@)[k];
                    }
                }
            }
            i = i + 1;
        }
        proof {
            assert(cv.take(i as int) =~= cv);
        }
        let mut checked_paths: Vec<String> = Vec::new();
        let mut j: usize = 0;
        proof {
            assert(views(checked_paths@) =~= Seq::<Seq<char>>::empty());
            assert(pv.take(0).to_set() =~= Set::<Seq<char>>::empty());
        }
        while j < paths.len()
            invariant
                pv == views(paths@),
                cv == crate_views(crates@),
                j <= pv.len(),
                first_bad_crate(cv, 0) is None,
                first_bad_path(pv, 0) == first_bad_path(pv, j as int),
                ascending_texts(views(checked_paths@)),
                views(checked_paths@).to_set() == pv.take(j as int).to_set(),
                forall|k: int| 0 <= k < views(checked_paths@).len() ==> path_is_accepted(#[trigger] views(checked_paths@)[k]),
            decreases pv.len() - j,
        {
            proof {
                assert(pv[j as int] == paths@[j as int]@);
            }
            match check_path(paths[j].as_str()) {
                Err(e) => {
                    proof {
                        assert(first_bad_path(pv, j as int) == Some(j as int));
                    }
                    return Err(e);
                },
                Ok(()) => {},
            }
            let ghost old_p = views(checked_paths@);
            insert_text(&mut checked_paths, paths[j].as_str());
            proof {
                assert(first_bad_path(pv, j as int) == first_bad_path(pv, j as int + 1));
                lemma_take_push_to_set(pv, j as int);
                assert forall|k: int| 0 <= k < views(checked_paths@).len() implies path_is_accepted(#[trigger] views(checked_paths@)[k]) by {
                    if views(checked_paths@)[k] != pv[j as int] {
                        let m = choose|m: int| 0 <= m < old_p.len() && old_p[m] == views(checked_paths@)[k];
                    }
                }
            }
            j = j + 1;
        }
        proof {
            assert(pv.take(j as int) =~= pv);
        }
        Ok(RequirementScope { crates: checked_crates, paths: checked_paths })
    }

    /// An empty scope: the whole repository, narrowed by nothing.
    pub fn everything() -> (sc: RequirementScope)
        ensures
            sc@.0.len() == 0,
            sc@.1.len() == 0,
    {
        let sc = RequirementScope { crates: Vec::new(), paths: Vec::new() };
        proof {
            assert(views(sc.crates@) =~= Seq::<Seq<char>>::empty());
            assert(views(sc.paths@) =~= Seq::<Seq<char>>::empty());
        }
        sc
    }

    /// The crates in this scope, ascending.
    pub fn crates(&self) -> (r: Vec<CrateId>)
        ensures
            crate_views(r@) == self@.0,
    {
        let mut r: Vec<CrateId> = Vec::new();
        let mut i: usize = 0;
        while i < self.crates.len()
            invariant
                i <= self.crates@.len(),
                crate_views(r@) == views(self.crates@).take(i as int),
            decreases self.crates@.len() - i,
        {
            let ghost before = r@;
            let c = CrateId::new(self.crates[i].as_str());
            r.push(c);
            proof {
                assert(r@ == before.push(c));
                assert(c@ == self.crates@[i as int]@);
                assert(views(self.crates@)[i as int] == self.crates@[i as int]@);
                assert(crate_views(r@) =~= crate_views(before).push(c@));
                assert(crate_views(r@) =~= views(self.crates@).take(i as int + 1));
            }
            i = i + 1;
        }
        proof {
            assert(views(self.crates@).take(i as int) =~= views(self.crates@));
        }
        r
    }

    /// The paths in this scope, in path order: component by component. That
    /// is not the order the encoding uses, which is by code point, so nothing
    /// that feeds a digest reads this.
    pub fn paths(&self) -> (r: Vec<String>)
        ensures
            paths_ascending(views(r@)),
            views(r@).to_multiset() == self@.1.to_multiset(),
    {
        let r = sorted_by_path(&self.paths);
        proof {
            lemma_sort_paths(views(self.paths@));
        }
        r
    }

    /// Whether this scope narrows anything at all.
    pub fn is_empty(&self) -> (r: bool)
        ensures
            r == (self@.0.len() == 0 && self@.1.len() == 0),
    {
        self.crates.len() == 0 && self.paths.len() == 0
    }

    /// Every scope is well formed.
    pub fn well_formed(&self) -> (r: bool)
        ensures
            r,
            scope_wf(self@),
    {
        proof {
            use_type_invariant(self);
        }
        true
    }

    /// The injective encoding a requirement identifier is derived from. An
    /// input to a digest, not a serialization format.
    pub(crate) fn canonical_text(&self) -> (s: String)
        ensures
            s@ == canonical_text(self@),
    {
        let mut s = String::new();
        push_joined(&mut s, self.crates.as_slice(), "\u{1f}");
        push_char(&mut s, '\u{1e}');
        push_joined(&mut s, self.paths.as_slice(), "\u{1f}");
        proof {
            reveal_strlit("\u{1f}");
            assert("\u{1f}"@ =~= seq![UNIT_SEPARATOR]);
            assert(s@ =~= canonical_text(self@));
        }
        s
    }

    /// A human-readable rendering for diagnostics: lossy, not the digest
    /// input.
    pub fn to_string(&self) -> (s: String)
        ensures
            s@ == scope_text(self@),
    {
        if self.crates.len() == 0 && self.paths.len() == 0 {
            return string_of("<whole repository>");
        }
        let mut all: Vec<String> = Vec::new();
        let mut i: usize = 0;
        while i < self.crates.len()
            invariant
                i <= self.crates@.len(),
                views(all@) == views(self.crates@).take(i as int),
            decreases self.crates@.len() - i,
        {
            let ghost before = all@;
            let c = string_of(self.crates[i].as_str());
            all.push(c);
            proof {
                assert(all@ == before.push(c));
                assert(views(self.crates@)[i as int] == self.crates@[i as int]@);
                assert(views(all@) =~= views(before).push(c@));
                assert(views(all@) =~= views(self.crates@).take(i as int + 1));
            }
            i = i + 1;
        }
        let ordered = sorted_by_path(&self.paths);
        let mut j: usize = 0;
        while j < ordered.len()
            invariant
                i == self.crates@.len(),
                j <= ordered@.len(),
                views(ordered@) == sort_paths(views(self.paths@)),
                views(all@) == views(self.crates@) + views(ordered@).take(j as int),
            decreases ordered@.len() - j,
        {
            let ghost before = all@;
            let c = string_of(ordered[j].as_str());
            all.push(c);
            proof {
                assert(all@ == before.push(c));
                assert(views(ordered@)[j as int] == ordered@[j as int]@);
                assert(views(all@) =~= views(before).push(c@));
                assert(views(all@) =~= views(self.crates@) + views(ordered@).take(j as int + 1));
            }
            j = j + 1;
        }
        proof {
            assert(views(self.crates@).take(i as int) =~= views(self.crates@));
            assert(views(ordered@).take(j as int) =~= views(ordered@));
        }
        let mut s = String::new();
        push_joined(&mut s, all.as_slice(), ", ");
        proof {
            assert(s@ =~= scope_text(self@));
        }
        s
    }
}

/// `s` never holds `c`.
pub open spec fn lacks(s: Seq<char>, c: char) -> bool {
    forall|i: int| 0 <= i < s.len() ==> s[i] != c
}

proof fn lemma_first_control_none(s: Seq<char>, from: int)
    requires
        0 <= from,
        first_control(s, from) is None,
    ensures
        forall|j: int| from <= j < s.len() ==> !is_control_char(#[trigger] s[j]),
    decreases s.len() - from,
{
    if from < s.len() {
        lemma_first_control_none(s, from + 1);
    }
}

proof fn lemma_accepted_lacks_separators(s: Seq<char>)
    requires
        first_control(s, 0) is None,
    ensures
        lacks(s, UNIT_SEPARATOR),
        lacks(s, RECORD_SEPARATOR),
{
    lemma_first_control_none(s, 0);
}

proof fn lemma_join_lacks(xs: Seq<Seq<char>>, sep: char, c: char)
    requires
        sep != c,
        forall|i: int| 0 <= i < xs.len() ==> lacks(#[trigger] xs[i], c),
    ensures
        lacks(join_text(xs, seq![sep]), c),
    decreases xs.len(),
{
    if xs.len() >= 2 {
        lemma_join_lacks(xs.drop_last(), sep, c);
        assert(lacks(xs[xs.len() - 1], c));
        let j = join_text(xs, seq![sep]);
        let p = join_text(xs.drop_last(), seq![sep]);
        assert forall|i: int| 0 <= i < j.len() implies j[i] != c by {
            if i < p.len() {
                assert(j[i] == p[i]);
            } else if i > p.len() {
                assert(j[i] == xs.last()[i - p.len() - 1]);
            }
        }
    } else if xs.len() == 1 {
        assert(lacks(xs[0], c));
    }
}

proof fn lemma_join_injective(xs: Seq<Seq<char>>, ys: Seq<Seq<char>>, sep: char)
    requires
        forall|i: int| 0 <= i < xs.len() ==> (#[trigger] xs[i]).len() > 0 && lacks(xs[i], sep),
        forall|i: int| 0 <= i < ys.len() ==> (#[trigger] ys[i]).len() > 0 && lacks(ys[i], sep),
        join_text(xs, seq![sep]) == join_text(ys, seq![sep]),
    ensures
        xs == ys,
    decreases xs.len() + ys.len(),
{
    let jx = join_text(xs, seq![sep]);
    let jy = join_text(ys, seq![sep]);
    if xs.len() == 0 || ys.len() == 0 {
        if xs.len() > 0 {
            assert(xs[xs.len() - 1].len() > 0);
            if xs.len() >= 2 {
                assert(jx.len() > 0);
            }
        }
        if ys.len() > 0 {
            assert(ys[ys.len() - 1].len() > 0);
            if ys.len() >= 2 {
                assert(jy.len() > 0);
            }
        }
        assert(xs =~= ys);
    } else {
        let n = jx.len();
        let lx = xs.last();
        let ly = ys.last();
        let px = if xs.len() == 1 { Seq::<char>::empty() } else { join_text(xs.drop_last(), seq![sep]) + seq![sep] };
        let py = if ys.len() == 1 { Seq::<char>::empty() } else { join_text(ys.drop_last(), seq![sep]) + seq![sep] };
        assert(jx =~= px + lx);
        assert(jy =~= py + ly);
        assert(lacks(lx, sep));
        assert(lacks(ly, sep));
        if lx.len() < ly.len() {
            assert(px.len() > 0);
            assert(xs.len() >= 2);
            assert(jx[px.len() - 1] == sep);
            let k = (px.len() - 1) - py.len();
            assert(jy[px.len() - 1] == ly[k]);
        }
        if ly.len() < lx.len() {
            assert(py.len() > 0);
            assert(ys.len() >= 2);
            assert(jy[py.len() - 1] == sep);
            let k = (py.len() - 1) - px.len();
            assert(jx[py.len() - 1] == lx[k]);
        }
        assert(lx.len() == ly.len());
        assert(lx =~= jx.subrange(px.len() as int, n as int));
        assert(ly =~= jy.subrange(py.len() as int, n as int));
        assert(lx == ly);
        assert(px =~= jx.subrange(0, px.len() as int));
        assert(py =~= jy.subrange(0, py.len() as int));
        assert(px == py);
        if xs.len() == 1 && ys.len() >= 2 {
            assert(py.len() > 0);
        }
        if ys.len() == 1 && xs.len() >= 2 {
            assert(px.len() > 0);
        }
        if xs.len() >= 2 && ys.len() >= 2 {
            let qx = join_text(xs.drop_last(), seq![sep]);
            let qy = join_text(ys.drop_last(), seq![sep]);
            assert(qx =~= px.subrange(0, px.len() - 1));
            assert(qy =~= py.subrange(0, py.len() - 1));
            assert forall|i: int| 0 <= i < xs.drop_last().len() implies (#[trigger] xs.drop_last()[i]).len() > 0 && lacks(xs.drop_last()[i], sep) by {
                assert(xs.drop_last()[i] == xs[i]);
            }
            assert forall|i: int| 0 <= i < ys.drop_last().len() implies (#[trigger] ys.drop_last()[i]).len() > 0 && lacks(ys.drop_last()[i], sep) by {
                assert(ys.drop_last()[i] == ys[i]);
            }
            lemma_join_injective(xs.drop_last(), ys.drop_last(), sep);
            assert(xs =~= xs.drop_last().push(lx));
            assert(ys =~= ys.drop_last().push(ly));
        } else {
            assert(xs =~= seq![lx]);
            assert(ys =~= seq![ly]);
        }
    }
}

/// The encoding can be read back, which is what injective means: two
/// well-formed scopes that encode alike are the same scope.
pub proof fn law_the_encoding_is_injective(a: ScopeView, b: ScopeView)
    requires
        scope_wf(a),
        scope_wf(b),
        canonical_text(a) == canonical_text(b),
    ensures
        a == b,
{
    let us = UNIT_SEPARATOR;
    let rs = RECORD_SEPARATOR;
    assert forall|i: int| 0 <= i < a.0.len() implies (#[trigger] a.0[i]).len() > 0 && lacks(a.0[i], us) && lacks(a.0[i], rs) by {
        assert(crate_is_accepted(a.0[i]));
        lemma_accepted_lacks_separators(a.0[i]);
    }
    assert forall|i: int| 0 <= i < b.0.len() implies (#[trigger] b.0[i]).len() > 0 && lacks(b.0[i], us) && lacks(b.0[i], rs) by {
        assert(crate_is_accepted(b.0[i]));
        lemma_accepted_lacks_separators(b.0[i]);
    }
    assert forall|i: int| 0 <= i < a.1.len() implies (#[trigger] a.1[i]).len() > 0 && lacks(a.1[i], us) && lacks(a.1[i], rs) by {
        assert(path_is_accepted(a.1[i]));
        lemma_accepted_lacks_separators(a.1[i]);
    }
    assert forall|i: int| 0 <= i < b.1.len() implies (#[trigger] b.1[i]).len() > 0 && lacks(b.1[i], us) && lacks(b.1[i], rs) by {
        assert(path_is_accepted(b.1[i]));
        lemma_accepted_lacks_separators(b.1[i]);
    }
    let ja0 = join_text(a.0, seq![us]);
    let jb0 = join_text(b.0, seq![us]);
    let ja1 = join_text(a.1, seq![us]);
    let jb1 = join_text(b.1, seq![us]);
    lemma_join_lacks(a.0, us, rs);
    lemma_join_lacks(b.0, us, rs);
    let ca = canonical_text(a);
    let cb = canonical_text(b);
    if ja0.len() < jb0.len() {
        assert(ca[ja0.len() as int] == rs);
        assert(cb[ja0.len() as int] == jb0[ja0.len() as int]);
    }
    if jb0.len() < ja0.len() {
        assert(cb[jb0.len() as int] == rs);
        assert(ca[jb0.len() as int] == ja0[jb0.len() as int]);
    }
    assert(ja0.len() == jb0.len());
    assert(ja0 =~= ca.subrange(0, ja0.len() as int));
    assert(jb0 =~= cb.subrange(0, jb0.len() as int));
    assert(ja1 =~= ca.subrange(ja0.len() as int + 1, ca.len() as int));
    assert(jb1 =~= cb.subrange(jb0.len() as int + 1, cb.len() as int));
    lemma_join_injective(a.0, b.0, us);
    lemma_join_injective(a.1, b.1, us);
}

/// A scope is its two sets: scopes built from the same members, in any
/// order and with any repetition, are the same scope and so encode alike.
pub proof fn law_a_scope_is_its_sets(a: ScopeView, b: ScopeView)
    requires
        scope_wf(a),
        scope_wf(b),
        a.0.to_set() == b.0.to_set(),
        a.1.to_set() == b.1.to_set(),
    ensures
        a == b,
        canonical_text(a) == canonical_text(b),
{
    lemma_ascending_texts_are_canonical(a.0, b.0);
    lemma_ascending_texts_are_canonical(a.1, b.1);
}

/// Every path a scope holds is in normal form: its components are all
/// names, they rebuild it exactly, and it neither starts with `./` nor ends
/// with `/`.
pub proof fn law_accepted_paths_are_in_normal_form(v: ScopeView, i: int)
    requires
        scope_wf(v),
        0 <= i < v.1.len(),
    ensures
        all_names(camino_components(v.1[i])),
        camino_join(name_texts(camino_components(v.1[i]))) == v.1[i],
        !starts_dot_slash(v.1[i]),
        !ends_slash(v.1[i]),
{
    assert(path_is_accepted(v.1[i]));
}

} // verus!
