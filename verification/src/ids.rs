//! Domain identifiers.
//!
//! Every identifier here is a newtype over a string rather than a closed enum:
//! a document may name a flag or capability this build has never heard of, and
//! it must stay representable so that it can be escalated on. Two identifiers
//! are minted rather than quoted, and are checked: [`RequirementId`] and
//! [`LeafId`].

use vstd::prelude::*;
use vstd::string::StringSliceAdditionalSpecFns;
use crate::text::{chars_of, char_debug, char_debug_text, decimal, push_char, push_str, push_u64, str_debug, str_debug_text, string_from_chars, string_of};
use crate::scope::{canonical_text, RequirementScope, RECORD_SEPARATOR};

verus! {

/// Identifies a capability: a question about a change, never a tool,
/// such as `tests-pass` or `api-diff-empty`.
///
/// An open, interned-string identifier: a value this build has never heard of
/// is still representable, so that it can be escalated on.
#[derive(PartialEq, Eq, PartialOrd, Ord, Hash, Debug)]
pub struct CapabilityId(String);

impl View for CapabilityId {
    type V = Seq<char>;

    closed spec fn view(&self) -> Seq<char> {
        self.0@
    }
}

impl Clone for CapabilityId {
    fn clone(&self) -> (r: Self)
        ensures
            r == *self,
    {
        CapabilityId(self.0.clone())
    }
}

impl CapabilityId {
    /// The identifier's text, as `Display` renders it.
    pub fn to_string(&self) -> (s: String)
        ensures
            s@ == self@,
    {
        string_of(self.0.as_str())
    }

    /// Construct from any string.
    pub fn new(id: &str) -> (r: Self)
        ensures
            r@ == id@,
    {
        CapabilityId(string_of(id))
    }

    /// Borrow the identifier as a string slice.
    pub fn as_str(&self) -> (s: &str)
        ensures
            s@ == self@,
    {
        self.0.as_str()
    }
}

/// Identifies a risk flag emitted by the classifier, such as `unsafe`.
///
/// An open, interned-string identifier: a value this build has never heard of
/// is still representable, so that it can be escalated on.
#[derive(PartialEq, Eq, PartialOrd, Ord, Hash, Debug)]
pub struct RiskFlagId(String);

impl View for RiskFlagId {
    type V = Seq<char>;

    closed spec fn view(&self) -> Seq<char> {
        self.0@
    }
}

impl Clone for RiskFlagId {
    fn clone(&self) -> (r: Self)
        ensures
            r == *self,
    {
        RiskFlagId(self.0.clone())
    }
}

impl RiskFlagId {
    /// The identifier's text, as `Display` renders it.
    pub fn to_string(&self) -> (s: String)
        ensures
            s@ == self@,
    {
        string_of(self.0.as_str())
    }

    /// Construct from any string.
    pub fn new(id: &str) -> (r: Self)
        ensures
            r@ == id@,
    {
        RiskFlagId(string_of(id))
    }

    /// Borrow the identifier as a string slice.
    pub fn as_str(&self) -> (s: &str)
        ensures
            s@ == self@,
    {
        self.0.as_str()
    }
}

/// Identifies an evidence parser, e.g. `junit@1`; the version suffix is part
/// of the identifier.
///
/// An open, interned-string identifier: a value this build has never heard of
/// is still representable, so that it can be escalated on.
#[derive(PartialEq, Eq, PartialOrd, Ord, Hash, Debug)]
pub struct ParserId(String);

impl View for ParserId {
    type V = Seq<char>;

    closed spec fn view(&self) -> Seq<char> {
        self.0@
    }
}

impl Clone for ParserId {
    fn clone(&self) -> (r: Self)
        ensures
            r == *self,
    {
        ParserId(self.0.clone())
    }
}

impl ParserId {
    /// The identifier's text, as `Display` renders it.
    pub fn to_string(&self) -> (s: String)
        ensures
            s@ == self@,
    {
        string_of(self.0.as_str())
    }

    /// Construct from any string.
    pub fn new(id: &str) -> (r: Self)
        ensures
            r@ == id@,
    {
        ParserId(string_of(id))
    }

    /// Borrow the identifier as a string slice.
    pub fn as_str(&self) -> (s: &str)
        ensures
            s@ == self@,
    {
        self.0.as_str()
    }
}

/// Identifies a risk analyzer, the unit that emits flags.
///
/// An open, interned-string identifier: a value this build has never heard of
/// is still representable, so that it can be escalated on.
#[derive(PartialEq, Eq, PartialOrd, Ord, Hash, Debug)]
pub struct AnalyzerId(String);

impl View for AnalyzerId {
    type V = Seq<char>;

    closed spec fn view(&self) -> Seq<char> {
        self.0@
    }
}

impl Clone for AnalyzerId {
    fn clone(&self) -> (r: Self)
        ensures
            r == *self,
    {
        AnalyzerId(self.0.clone())
    }
}

impl AnalyzerId {
    /// The identifier's text, as `Display` renders it.
    pub fn to_string(&self) -> (s: String)
        ensures
            s@ == self@,
    {
        string_of(self.0.as_str())
    }

    /// Construct from any string.
    pub fn new(id: &str) -> (r: Self)
        ensures
            r@ == id@,
    {
        AnalyzerId(string_of(id))
    }

    /// Borrow the identifier as a string slice.
    pub fn as_str(&self) -> (s: &str)
        ensures
            s@ == self@,
    {
        self.0.as_str()
    }
}

/// Identifies an adoption source: where an existing artifact was found.
///
/// An open, interned-string identifier: a value this build has never heard of
/// is still representable, so that it can be escalated on.
#[derive(PartialEq, Eq, PartialOrd, Ord, Hash, Debug)]
pub struct AdoptionSourceId(String);

impl View for AdoptionSourceId {
    type V = Seq<char>;

    closed spec fn view(&self) -> Seq<char> {
        self.0@
    }
}

impl Clone for AdoptionSourceId {
    fn clone(&self) -> (r: Self)
        ensures
            r == *self,
    {
        AdoptionSourceId(self.0.clone())
    }
}

impl AdoptionSourceId {
    /// The identifier's text, as `Display` renders it.
    pub fn to_string(&self) -> (s: String)
        ensures
            s@ == self@,
    {
        string_of(self.0.as_str())
    }

    /// Construct from any string.
    pub fn new(id: &str) -> (r: Self)
        ensures
            r@ == id@,
    {
        AdoptionSourceId(string_of(id))
    }

    /// Borrow the identifier as a string slice.
    pub fn as_str(&self) -> (s: &str)
        ensures
            s@ == self@,
    {
        self.0.as_str()
    }
}

/// Identifies a lane: a scheduling class with a time budget.
///
/// An open, interned-string identifier: a value this build has never heard of
/// is still representable, so that it can be escalated on.
#[derive(PartialEq, Eq, PartialOrd, Ord, Hash, Debug)]
pub struct LaneId(String);

impl View for LaneId {
    type V = Seq<char>;

    closed spec fn view(&self) -> Seq<char> {
        self.0@
    }
}

impl Clone for LaneId {
    fn clone(&self) -> (r: Self)
        ensures
            r == *self,
    {
        LaneId(self.0.clone())
    }
}

impl LaneId {
    /// The identifier's text, as `Display` renders it.
    pub fn to_string(&self) -> (s: String)
        ensures
            s@ == self@,
    {
        string_of(self.0.as_str())
    }

    /// Construct from any string.
    pub fn new(id: &str) -> (r: Self)
        ensures
            r@ == id@,
    {
        LaneId(string_of(id))
    }

    /// Borrow the identifier as a string slice.
    pub fn as_str(&self) -> (s: &str)
        ensures
            s@ == self@,
    {
        self.0.as_str()
    }
}

/// Identifies a rule in the policy document.
///
/// An open, interned-string identifier: a value this build has never heard of
/// is still representable, so that it can be escalated on.
#[derive(PartialEq, Eq, PartialOrd, Ord, Hash, Debug)]
pub struct RuleId(String);

impl View for RuleId {
    type V = Seq<char>;

    closed spec fn view(&self) -> Seq<char> {
        self.0@
    }
}

impl Clone for RuleId {
    fn clone(&self) -> (r: Self)
        ensures
            r == *self,
    {
        RuleId(self.0.clone())
    }
}

impl RuleId {
    /// The identifier's text, as `Display` renders it.
    pub fn to_string(&self) -> (s: String)
        ensures
            s@ == self@,
    {
        string_of(self.0.as_str())
    }

    /// Construct from any string.
    pub fn new(id: &str) -> (r: Self)
        ensures
            r@ == id@,
    {
        RuleId(string_of(id))
    }

    /// Borrow the identifier as a string slice.
    pub fn as_str(&self) -> (s: &str)
        ensures
            s@ == self@,
    {
        self.0.as_str()
    }
}

/// Identifies a crate in the workspace, or a pseudo-crate such as
/// `@workspace`.
///
/// An open, interned-string identifier: a value this build has never heard of
/// is still representable, so that it can be escalated on.
#[derive(PartialEq, Eq, PartialOrd, Ord, Hash, Debug)]
pub struct CrateId(String);

impl View for CrateId {
    type V = Seq<char>;

    closed spec fn view(&self) -> Seq<char> {
        self.0@
    }
}

impl Clone for CrateId {
    fn clone(&self) -> (r: Self)
        ensures
            r == *self,
    {
        CrateId(self.0.clone())
    }
}

impl CrateId {
    /// The identifier's text, as `Display` renders it.
    pub fn to_string(&self) -> (s: String)
        ensures
            s@ == self@,
    {
        string_of(self.0.as_str())
    }

    /// Construct from any string.
    pub fn new(id: &str) -> (r: Self)
        ensures
            r@ == id@,
    {
        CrateId(string_of(id))
    }

    /// Borrow the identifier as a string slice.
    pub fn as_str(&self) -> (s: &str)
        ensures
            s@ == self@,
    {
        self.0.as_str()
    }
}

/// Identifies a metric within evidence, e.g. `coverage.lines.pct`.
///
/// An open, interned-string identifier: a value this build has never heard of
/// is still representable, so that it can be escalated on.
#[derive(PartialEq, Eq, PartialOrd, Ord, Hash, Debug)]
pub struct MetricKey(String);

impl View for MetricKey {
    type V = Seq<char>;

    closed spec fn view(&self) -> Seq<char> {
        self.0@
    }
}

impl Clone for MetricKey {
    fn clone(&self) -> (r: Self)
        ensures
            r == *self,
    {
        MetricKey(self.0.clone())
    }
}

impl MetricKey {
    /// The identifier's text, as `Display` renders it.
    pub fn to_string(&self) -> (s: String)
        ensures
            s@ == self@,
    {
        string_of(self.0.as_str())
    }

    /// Construct from any string.
    pub fn new(id: &str) -> (r: Self)
        ensures
            r@ == id@,
    {
        MetricKey(string_of(id))
    }

    /// Borrow the identifier as a string slice.
    pub fn as_str(&self) -> (s: &str)
        ensures
            s@ == self@,
    {
        self.0.as_str()
    }
}

/// Identifies a fact produced by an extractor and consumed by analyzers.
///
/// An open, interned-string identifier: a value this build has never heard of
/// is still representable, so that it can be escalated on.
#[derive(PartialEq, Eq, PartialOrd, Ord, Hash, Debug)]
pub struct FactKey(String);

impl View for FactKey {
    type V = Seq<char>;

    closed spec fn view(&self) -> Seq<char> {
        self.0@
    }
}

impl Clone for FactKey {
    fn clone(&self) -> (r: Self)
        ensures
            r == *self,
    {
        FactKey(self.0.clone())
    }
}

impl FactKey {
    /// The identifier's text, as `Display` renders it.
    pub fn to_string(&self) -> (s: String)
        ensures
            s@ == self@,
    {
        string_of(self.0.as_str())
    }

    /// Construct from any string.
    pub fn new(id: &str) -> (r: Self)
        ensures
            r@ == id@,
    {
        FactKey(string_of(id))
    }

    /// Borrow the identifier as a string slice.
    pub fn as_str(&self) -> (s: &str)
        ensures
            s@ == self@,
    {
        self.0.as_str()
    }
}


/// A lowercase ASCII letter.
pub open spec fn is_lower(c: char) -> bool {
    'a' <= c && c <= 'z'
}

/// An ASCII digit.
pub open spec fn is_digit(c: char) -> bool {
    '0' <= c && c <= '9'
}

/// A lowercase hexadecimal digit.
pub open spec fn is_lower_hex(c: char) -> bool {
    is_digit(c) || ('a' <= c && c <= 'f')
}

/// What may appear in the readable half of a requirement identifier:
/// `[a-z0-9.-]`. `_` is excluded because it is the field separator.
pub open spec fn is_requirement_char(c: char) -> bool {
    is_lower(c) || is_digit(c) || c == '.' || c == '-'
}

/// What may appear after the first character of a leaf identifier:
/// `[a-z0-9._-]`.
pub open spec fn is_leaf_char(c: char) -> bool {
    is_lower(c) || is_digit(c) || c == '.' || c == '_' || c == '-'
}

/// The first index at or after `from` whose character is not a leaf
/// character.
pub open spec fn first_non_leaf(s: Seq<char>, from: int) -> Option<int>
    decreases s.len() - from,
{
    if from < 0 || from >= s.len() {
        None
    } else if !is_leaf_char(s[from]) {
        Some(from)
    } else {
        first_non_leaf(s, from + 1)
    }
}

/// The first index at or after `from` whose character is not a requirement
/// character.
pub open spec fn first_non_requirement(s: Seq<char>, from: int) -> Option<int>
    decreases s.len() - from,
{
    if from < 0 || from >= s.len() {
        None
    } else if !is_requirement_char(s[from]) {
        Some(from)
    } else {
        first_non_requirement(s, from + 1)
    }
}

/// The greatest length a leaf identifier may have, in bytes.
pub const LEAF_ID_MAX_LEN: usize = 64;

/// Why a leaf identifier was rejected: the first rule that failed.
#[derive(Clone, Copy, PartialEq, Eq, Structural, Debug)]
#[non_exhaustive]
pub enum LeafIdError {
    /// The identifier was empty.
    Empty,
    /// Longer than 64 bytes.
    TooLong {
        /// How long it was, in bytes.
        len: usize,
    },
    /// Did not begin with a lowercase ASCII letter or a digit.
    BadLeadingCharacter {
        /// The offending first character.
        found: char,
    },
    /// Contained something outside `[a-z0-9._-]`.
    DisallowedCharacter {
        /// Byte offset of the offending character (every character before it
        /// is ASCII, so this is also its position).
        at: usize,
        /// The offending character.
        found: char,
    },
}

/// The outcome `LeafId::new_checked` owes for text `s` of `byte_len` bytes:
/// `None` when it is a leaf identifier, else the first rule that failed.
pub open spec fn leaf_id_rejection(s: Seq<char>, byte_len: nat) -> Option<LeafIdError> {
    if s.len() == 0 {
        Some(LeafIdError::Empty)
    } else if byte_len > 64 {
        Some(LeafIdError::TooLong { len: byte_len as usize })
    } else if !(is_lower(s[0]) || is_digit(s[0])) {
        Some(LeafIdError::BadLeadingCharacter { found: s[0] })
    } else {
        match first_non_leaf(s, 1) {
            Some(k) => Some(LeafIdError::DisallowedCharacter { at: k as usize, found: s[k] }),
            None => None,
        }
    }
}

/// The documented pattern `^[a-z0-9][a-z0-9._-]{0,63}$`, over characters
/// and a byte length.
pub open spec fn matches_leaf_id_pattern(s: Seq<char>, byte_len: nat) -> bool {
    &&& s.len() > 0
    &&& byte_len <= 64
    &&& (is_lower(s[0]) || is_digit(s[0]))
    &&& forall|j: int| 1 <= j < s.len() ==> is_leaf_char(#[trigger] s[j])
}

proof fn lemma_first_non_leaf(s: Seq<char>, from: int)
    requires
        0 <= from,
    ensures
        first_non_leaf(s, from) is None <==> forall|j: int| from <= j < s.len() ==> is_leaf_char(#[trigger] s[j]),
        first_non_leaf(s, from) matches Some(k) ==> from <= k < s.len() && !is_leaf_char(s[k])
            && forall|j: int| from <= j < k ==> is_leaf_char(#[trigger] s[j]),
    decreases s.len() - from,
{
    if from < s.len() && is_leaf_char(s[from]) {
        lemma_first_non_leaf(s, from + 1);
    }
}

proof fn lemma_first_non_requirement(s: Seq<char>, from: int)
    requires
        0 <= from,
    ensures
        first_non_requirement(s, from) is None <==> forall|j: int| from <= j < s.len() ==> is_requirement_char(#[trigger] s[j]),
        first_non_requirement(s, from) matches Some(k) ==> from <= k < s.len() && !is_requirement_char(s[k])
            && forall|j: int| from <= j < k ==> is_requirement_char(#[trigger] s[j]),
    decreases s.len() - from,
{
    if from < s.len() && is_requirement_char(s[from]) {
        lemma_first_non_requirement(s, from + 1);
    }
}

/// `new_checked` accepts exactly the documented pattern, no more and no less.
pub proof fn law_leaf_id_check_is_the_pattern(s: Seq<char>, byte_len: nat)
    ensures
        leaf_id_rejection(s, byte_len) is None <==> matches_leaf_id_pattern(s, byte_len),
{
    lemma_first_non_leaf(s, 1);
}

/// Identifies one leaf of a plan: one capability against one scope,
/// dispatched as one unit of work. Every value matches
/// `^[a-z0-9][a-z0-9._-]{0,63}$`; [`LeafId::new_checked`] is the only way in.
#[derive(PartialEq, Eq, PartialOrd, Ord, Hash, Debug)]
pub struct LeafId(String);

impl View for LeafId {
    type V = Seq<char>;

    closed spec fn view(&self) -> Seq<char> {
        self.0@
    }
}

impl Clone for LeafId {
    fn clone(&self) -> (r: Self)
        ensures
            r == *self,
    {
        LeafId(self.0.clone())
    }
}

impl LeafId {
    /// The identifier's text, as `Display` renders it.
    pub fn to_string(&self) -> (s: String)
        ensures
            s@ == self@,
    {
        string_of(self.0.as_str())
    }

    /// Construct from a string, rejecting anything GitHub will not accept as
    /// an artifact-name suffix.
    pub fn new_checked(id: &str) -> (r: Result<LeafId, LeafIdError>)
        ensures
            match r {
                Ok(l) => leaf_id_rejection(id@, id.len() as nat) is None && l@ == id@,
                Err(e) => leaf_id_rejection(id@, id.len() as nat) == Some(e),
            },
    {
        let cs = chars_of(id);
        if cs.len() == 0 {
            return Err(LeafIdError::Empty);
        }
        let n = id.len();
        if n > LEAF_ID_MAX_LEN {
            return Err(LeafIdError::TooLong { len: n });
        }
        let first = cs[0];
        proof {
            assert(id@[0] == first);
        }
        if !(('a' <= first && first <= 'z') || ('0' <= first && first <= '9')) {
            return Err(LeafIdError::BadLeadingCharacter { found: first });
        }
        let mut i: usize = 1;
        while i < cs.len()
            invariant
                cs@ == id@,
                1 <= i <= cs@.len(),
                id.len() <= 64,
                is_lower(id@[0]) || is_digit(id@[0]),
                first_non_leaf(id@, 1) == first_non_leaf(id@, i as int),
            decreases cs@.len() - i,
        {
            let c = cs[i];
            proof {
                assert(id@[i as int] == c);
            }
            if !(('a' <= c && c <= 'z') || ('0' <= c && c <= '9') || c == '.' || c == '_' || c == '-') {
                proof {
                    assert(first_non_leaf(id@, i as int) == Some(i as int));
                }
                return Err(LeafIdError::DisallowedCharacter { at: i, found: c });
            }
            proof {
                assert(first_non_leaf(id@, i as int) == first_non_leaf(id@, i as int + 1));
            }
            i = i + 1;
        }
        proof {
            assert(first_non_leaf(id@, i as int) is None);
        }
        Ok(LeafId(string_of(id)))
    }

    /// Borrow the identifier as a string slice.
    pub fn as_str(&self) -> (s: &str)
        ensures
            s@ == self@,
    {
        self.0.as_str()
    }
}

/// The prefix every requirement identifier carries.
pub open spec fn requirement_prefix() -> Seq<char> {
    seq!['r', 'e', 'q', '_']
}

/// The index of the last `_` in `s`, if any.
pub open spec fn last_underscore(s: Seq<char>) -> Option<int>
    decreases s.len(),
{
    if s.len() == 0 {
        None
    } else if s.last() == '_' {
        Some(s.len() - 1)
    } else {
        last_underscore(s.drop_last())
    }
}

/// Exactly sixteen lowercase hexadecimal characters.
pub open spec fn is_requirement_digest(d: Seq<char>) -> bool {
    d.len() == 16 && forall|j: int| 0 <= j < d.len() ==> is_lower_hex(#[trigger] d[j])
}

/// The shape of a derived requirement identifier:
/// `req_<[a-z0-9.-]*>_<16 lowercase hex>`, split at the last `_`.
pub open spec fn is_requirement_wire(s: Seq<char>) -> bool {
    &&& s.len() >= 4
    &&& s.take(4) == requirement_prefix()
    &&& last_underscore(s.skip(4)) matches Some(k)
    &&& is_requirement_digest(s.skip(4).skip(k + 1))
    &&& first_non_requirement(s.skip(4).take(k), 0) is None
}

/// Why a recorded requirement identifier was rejected: the first rule that
/// failed. Shape only; whether the digest was correctly derived cannot be
/// rechecked without the scope.
#[derive(Clone, PartialEq, Eq, Debug)]
#[non_exhaustive]
pub enum RequirementIdError {
    /// Did not start with `req_`.
    MissingPrefix {
        /// The value as it arrived.
        got: String,
    },
    /// Carried no `_` after the prefix, so there was no digest to find.
    MissingDigest {
        /// The value as it arrived.
        got: String,
    },
    /// The trailing field was not exactly 16 lowercase hex characters.
    MalformedDigest {
        /// The trailing field as it arrived.
        got: String,
    },
    /// The readable half held something `derive` never emits.
    DisallowedCharacter {
        /// The readable half as it arrived.
        got: String,
        /// Byte offset of the offending character within the readable half.
        at: usize,
        /// The offending character.
        found: char,
    },
}

/// Identifies a requirement: a (capability × scope) pair. Minted by
/// `derive`, re-read by `from_wire`; there is no other constructor.
#[derive(PartialEq, Eq, PartialOrd, Ord, Hash, Debug)]
pub struct RequirementId(String);

impl View for RequirementId {
    type V = Seq<char>;

    closed spec fn view(&self) -> Seq<char> {
        self.0@
    }
}

impl Clone for RequirementId {
    fn clone(&self) -> (r: Self)
        ensures
            r == *self,
    {
        RequirementId(self.0.clone())
    }
}

impl RequirementId {
    /// The identifier's text, as `Display` renders it.
    pub fn to_string(&self) -> (s: String)
        ensures
            s@ == self@,
    {
        string_of(self.0.as_str())
    }

    /// Borrow the identifier as a string slice.
    pub fn as_str(&self) -> (s: &str)
        ensures
            s@ == self@,
    {
        self.0.as_str()
    }

    /// Re-read an identifier that was already derived. Checks the shape
    /// `req_<[a-z0-9.-]*>_<16 lowercase hex>` and nothing about derivation.
    pub fn from_wire(id: &str) -> (r: Result<RequirementId, RequirementIdError>)
        ensures
            r is Ok <==> is_requirement_wire(id@),
            r matches Ok(v) ==> v@ == id@,
            r matches Err(RequirementIdError::MissingPrefix { got }) ==> got@ == id@
                && !(id@.len() >= 4 && id@.take(4) == requirement_prefix()),
            r matches Err(RequirementIdError::MissingDigest { got }) ==> got@ == id@
                && id@.len() >= 4 && id@.take(4) == requirement_prefix()
                && last_underscore(id@.skip(4)) is None,
            r matches Err(RequirementIdError::MalformedDigest { got }) ==> {
                &&& id@.len() >= 4 && id@.take(4) == requirement_prefix()
                &&& last_underscore(id@.skip(4)) matches Some(k)
                &&& got@ == id@.skip(4).skip(k + 1)
                &&& !is_requirement_digest(got@)
            },
            r matches Err(RequirementIdError::DisallowedCharacter { got, at, found }) ==> {
                &&& id@.len() >= 4 && id@.take(4) == requirement_prefix()
                &&& last_underscore(id@.skip(4)) matches Some(k)
                &&& is_requirement_digest(id@.skip(4).skip(k + 1))
                &&& got@ == id@.skip(4).take(k)
                &&& first_non_requirement(got@, 0) == Some(at as int)
                &&& found == got@[at as int]
            },
    {
        let cs = chars_of(id);
        let n = cs.len();
        if !(n >= 4 && cs[0] == 'r' && cs[1] == 'e' && cs[2] == 'q' && cs[3] == '_') {
            proof {
                if id@.len() >= 4 && id@.take(4) == requirement_prefix() {
                    assert(id@.take(4)[0] == 'r');
                    assert(id@.take(4)[1] == 'e');
                    assert(id@.take(4)[2] == 'q');
                    assert(id@.take(4)[3] == '_');
                }
            }
            return Err(RequirementIdError::MissingPrefix { got: string_of(id) });
        }
        proof {
            assert(id@.take(4) =~= requirement_prefix());
        }
        let ghost rest = id@.skip(4);
        proof {
            assert(rest.take(n - 4) =~= rest);
        }
        // Find the last `_` after the prefix.
        let mut j: usize = n;
        while j > 4 && cs[j - 1] != '_'
            invariant
                cs@ == id@,
                n == cs@.len(),
                4 <= j <= n,
                rest == id@.skip(4),
                last_underscore(rest) == last_underscore(rest.take(j - 4)),
            decreases j,
        {
            proof {
                assert(rest.take(j - 4).drop_last() =~= rest.take(j - 5));
            }
            j = j - 1;
        }
        if j == 4 {
            proof {
                assert(rest.take(0) =~= Seq::<char>::empty());
            }
            return Err(RequirementIdError::MissingDigest { got: string_of(id) });
        }
        let ghost k: int = j - 5;
        proof {
            assert(rest.take(j - 4).last() == '_');
            assert(last_underscore(rest) == Some(k));
        }
        // The digest is `cs[j..n]`.
        let mut ok = n - j == 16;
        let mut d = j;
        while d < n
            invariant
                cs@ == id@,
                n == cs@.len(),
                j <= d <= n,
                ok == (n - j == 16 && forall|t: int| j <= t < d ==> is_lower_hex(#[trigger] cs@[t])),
            decreases n - d,
        {
            let c = cs[d];
            if !(('0' <= c && c <= '9') || ('a' <= c && c <= 'f')) {
                ok = false;
            }
            d = d + 1;
        }
        proof {
            let dg = rest.skip(k + 1);
            assert(dg =~= cs@.subrange(j as int, n as int));
            if ok {
                assert forall|t: int| 0 <= t < dg.len() implies is_lower_hex(#[trigger] dg[t]) by {
                    assert(dg[t] == cs@[j + t]);
                }
            } else if n - j == 16 {
                let t = choose|t: int| j <= t < n && !is_lower_hex(#[trigger] cs@[t]);
                assert(dg[t - j] == cs@[t]);
            }
        }
        if !ok {
            return Err(RequirementIdError::MalformedDigest { got: string_from_chars(&cs, j, n) });
        }
        // The readable half is `cs[4..j-1]`.
        let mut i: usize = 4;
        let ghost cap = rest.take(k);
        proof {
            assert(cap =~= cs@.subrange(4, j - 1));
        }
        while i < j - 1
            invariant
                cs@ == id@,
                n == cs@.len(),
                4 <= i <= j - 1,
                j - 1 < n,
                k == j - 5,
                id@.len() >= 4 && id@.take(4) == requirement_prefix(),
                rest == id@.skip(4),
                last_underscore(rest) == Some(k),
                is_requirement_digest(rest.skip(k + 1)),
                cap == rest.take(k),
                cap =~= cs@.subrange(4, j - 1),
                first_non_requirement(cap, 0) == first_non_requirement(cap, i - 4),
            decreases j - i,
        {
            let c = cs[i];
            proof {
                assert(cap[i - 4] == c);
            }
            if !(('a' <= c && c <= 'z') || ('0' <= c && c <= '9') || c == '.' || c == '-') {
                proof {
                    assert(first_non_requirement(cap, i - 4) == Some(i - 4));
                    lemma_first_non_requirement(cap, 0);
                    assert(id@.skip(4).take(k) == cap);
                }
                let got = string_from_chars(&cs, 4, j - 1);
                proof {
                    assert(got@ =~= cap);
                    assert(!is_requirement_wire(id@));
                }
                return Err(RequirementIdError::DisallowedCharacter { got, at: i - 4, found: c });
            }
            proof {
                assert(first_non_requirement(cap, i - 4) == first_non_requirement(cap, i - 4 + 1));
            }
            i = i + 1;
        }
        proof {
            assert(first_non_requirement(cap, i - 4) is None);
        }
        Ok(RequirementId(string_of(id)))
    }
}
/// The lowercase hexadecimal rendering of the BLAKE3 hash of the UTF-8
/// encoding of `input`.
pub uninterp spec fn blake3_hex(input: Seq<char>) -> Seq<char>;

/// The BLAKE3 hash of `input`'s UTF-8 bytes, in hexadecimal.
///
/// Trusted: calls `blake3::hash` on `str::as_bytes` and renders the result
/// with `Hash::to_hex`, which blake3 documents as 64 lowercase hexadecimal
/// characters. The contract names the hash and claims only that shape.
#[verifier::external_body]
pub(crate) fn blake3_hex_of(input: &str) -> (r: String)
    ensures
        r@ == blake3_hex(input@),
        r@.len() == 64,
        forall|i: int| 0 <= i < r@.len() ==> is_lower_hex(#[trigger] r@[i]),
{
    blake3::hash(input.as_bytes()).to_hex().as_str().to_owned()
}

/// `c` with ASCII uppercase lowered.
pub open spec fn ascii_lower(c: char) -> char {
    if 'A' <= c && c <= 'Z' {
        ((c as u32) + 32) as char
    } else {
        c
    }
}

/// The readable half's spelling of one character of a capability: lowered,
/// and `-` for anything outside `[a-z0-9.-]`.
pub open spec fn readable_char(c: char) -> char {
    if is_requirement_char(ascii_lower(c)) { ascii_lower(c) } else { '-' }
}

/// The readable half of a requirement identifier for capability `cap`.
pub open spec fn readable_text(cap: Seq<char>) -> Seq<char> {
    cap.map_values(|c: char| readable_char(c))
}

/// What a digest is taken over: the capability as written, U+001E, and the
/// scope's encoding.
pub open spec fn derivation_input(cap: Seq<char>, scope: crate::scope::ScopeView) -> Seq<char> {
    cap + seq![RECORD_SEPARATOR] + canonical_text(scope)
}

/// The identifier derived for a capability and a scope.
pub open spec fn derived_text(cap: Seq<char>, scope: crate::scope::ScopeView) -> Seq<char> {
    requirement_prefix() + readable_text(cap) + seq!['_'] + blake3_hex(derivation_input(cap, scope)).take(16)
}

fn readable_of(c: char) -> (r: char)
    ensures
        r == readable_char(c),
{
    let l = if 'A' <= c && c <= 'Z' {
        ((c as u8) + 32) as char
    } else {
        c
    };
    if ('a' <= l && l <= 'z') || ('0' <= l && l <= '9') || l == '.' || l == '-' {
        l
    } else {
        '-'
    }
}

proof fn lemma_last_underscore_suffix(p: Seq<char>, q: Seq<char>)
    requires
        forall|i: int| 0 <= i < q.len() ==> q[i] != '_',
    ensures
        last_underscore(p + seq!['_'] + q) == Some(p.len() as int),
    decreases q.len(),
{
    let s = p + seq!['_'] + q;
    if q.len() == 0 {
        assert(s.last() == '_');
    } else {
        assert(s.last() == q.last());
        assert(s.drop_last() =~= p + seq!['_'] + q.drop_last());
        lemma_last_underscore_suffix(p, q.drop_last());
    }
}

/// Every identifier `derive` mints has the shape `from_wire` accepts, so a
/// derived identifier always reads back.
proof fn lemma_derived_reads_back(cap: Seq<char>, d: Seq<char>)
    requires
        d.len() == 16,
        forall|i: int| 0 <= i < d.len() ==> is_lower_hex(#[trigger] d[i]),
    ensures
        is_requirement_wire(requirement_prefix() + readable_text(cap) + seq!['_'] + d),
{
    let r = readable_text(cap);
    let s = requirement_prefix() + r + seq!['_'] + d;
    assert(s.take(4) =~= requirement_prefix());
    assert(s.skip(4) =~= r + seq!['_'] + d);
    lemma_last_underscore_suffix(r, d);
    assert(s.skip(4).skip(r.len() as int + 1) =~= d);
    assert(s.skip(4).take(r.len() as int) =~= r);
    assert forall|j: int| 0 <= j < r.len() implies is_requirement_char(#[trigger] r[j]) by {
        assert(r[j] == readable_char(cap[j]));
    }
    lemma_first_non_requirement(r, 0);
}

impl RequirementId {
    /// Derive the identifier for a capability and a scope. The same pair
    /// derives to the same identifier in every process, and because a scope
    /// is a pair of sets, whatever order its members arrived in. The readable
    /// half is lossy; the digest is taken over the capability as written.
    pub fn derive(capability: &CapabilityId, scope: &RequirementScope) -> (r: RequirementId)
        ensures
            r@ == derived_text(capability@, scope@),
            is_requirement_wire(r@),
    {
        let mut input = string_of(capability.as_str());
        push_char(&mut input, '\u{1e}');
        let canonical = scope.canonical_text();
        push_str(&mut input, canonical.as_str());
        let digest = blake3_hex_of(input.as_str());
        let cs = chars_of(capability.as_str());
        let mut id = string_of("req_");
        let mut i: usize = 0;
        proof {
            reveal_strlit("req_");
            assert("req_"@ =~= requirement_prefix());
            assert(requirement_prefix() + readable_text(capability@).take(0) =~= requirement_prefix());
        }
        while i < cs.len()
            invariant
                cs@ == capability@,
                i <= cs@.len(),
                id@ == requirement_prefix() + readable_text(capability@).take(i as int),
            decreases cs@.len() - i,
        {
            push_char(&mut id, readable_of(cs[i]));
            proof {
                assert(readable_text(capability@).take(i as int + 1) =~= readable_text(capability@).take(i as int).push(
                    readable_char(cs@[i as int]),
                ));
            }
            i = i + 1;
        }
        proof {
            reveal_strlit("req_");
            assert(readable_text(capability@).take(i as int) =~= readable_text(capability@));
        }
        push_char(&mut id, '_');
        let dg = chars_of(digest.as_str());
        let head = string_from_chars(&dg, 0, 16);
        push_str(&mut id, head.as_str());
        proof {
            assert(input@ =~= derivation_input(capability@, scope@));
            assert(dg@.subrange(0, 16) =~= blake3_hex(derivation_input(capability@, scope@)).take(16));
            assert(id@ =~= derived_text(capability@, scope@));
            lemma_derived_reads_back(capability@, head@);
        }
        RequirementId(id)
    }
}
/// The message of a rejected leaf identifier.
pub open spec fn leaf_id_error_text(e: LeafIdError) -> Seq<char> {
    match e {
        LeafIdError::Empty => "a leaf id must not be empty"@,
        LeafIdError::TooLong { len } => "a leaf id must be at most 64 bytes, got "@ + decimal(len as nat),
        LeafIdError::BadLeadingCharacter { found } => "a leaf id must start with a lowercase letter or a digit, found "@
            + char_debug_text(found),
        LeafIdError::DisallowedCharacter { at, found } => "a leaf id may contain only lowercase letters, digits, `.`, `_`, and `-`; found "@
            + char_debug_text(found) + " at byte "@ + decimal(at as nat),
    }
}

/// The byte length of text holding `s`, as `str::len` reports it.
pub open spec fn str_len(s: Seq<char>) -> nat {
    (vstd::utf8::encode_utf8(s).len() as usize) as nat
}

/// The same check as [`LeafId::new_checked`], through `TryFrom`.
impl<'a> TryFrom<&'a str> for LeafId {
    type Error = LeafIdError;

    fn try_from(id: &'a str) -> (r: Result<LeafId, LeafIdError>)
        ensures
            match r {
                Ok(l) => leaf_id_rejection(id@, id.len() as nat) is None && l@ == id@,
                Err(e) => leaf_id_rejection(id@, id.len() as nat) == Some(e),
            },
    {
        LeafId::new_checked(id)
    }
}

impl<'a> vstd::std_specs::convert::TryFromSpecImpl<&'a str> for LeafId {
    open spec fn obeys_try_from_spec() -> bool {
        false
    }

    open spec fn try_from_spec(v: &'a str) -> Result<LeafId, LeafIdError> {
        arbitrary()
    }
}

/// The same check as [`LeafId::new_checked`], through `TryFrom`.
impl TryFrom<String> for LeafId {
    type Error = LeafIdError;

    fn try_from(id: String) -> (r: Result<LeafId, LeafIdError>)
        ensures
            match r {
                Ok(l) => leaf_id_rejection(id@, str_len(id@)) is None && l@ == id@,
                Err(e) => leaf_id_rejection(id@, str_len(id@)) == Some(e),
            },
    {
        LeafId::new_checked(id.as_str())
    }
}

impl vstd::std_specs::convert::TryFromSpecImpl<String> for LeafId {
    open spec fn obeys_try_from_spec() -> bool {
        false
    }

    open spec fn try_from_spec(v: String) -> Result<LeafId, LeafIdError> {
        arbitrary()
    }
}

/// The same check as [`RequirementId::from_wire`], through `TryFrom`.
impl<'a> TryFrom<&'a str> for RequirementId {
    type Error = RequirementIdError;

    fn try_from(id: &'a str) -> (r: Result<RequirementId, RequirementIdError>)
        ensures
            r is Ok <==> is_requirement_wire(id@),
            r matches Ok(v) ==> v@ == id@,
            r matches Err(RequirementIdError::MissingPrefix { got }) ==> got@ == id@
                && !(id@.len() >= 4 && id@.take(4) == requirement_prefix()),
            r matches Err(RequirementIdError::MissingDigest { got }) ==> got@ == id@
                && id@.len() >= 4 && id@.take(4) == requirement_prefix()
                && last_underscore(id@.skip(4)) is None,
            r matches Err(RequirementIdError::MalformedDigest { got }) ==> {
                &&& id@.len() >= 4 && id@.take(4) == requirement_prefix()
                &&& last_underscore(id@.skip(4)) matches Some(k)
                &&& got@ == id@.skip(4).skip(k + 1)
                &&& !is_requirement_digest(got@)
            },
            r matches Err(RequirementIdError::DisallowedCharacter { got, at, found }) ==> {
                &&& id@.len() >= 4 && id@.take(4) == requirement_prefix()
                &&& last_underscore(id@.skip(4)) matches Some(k)
                &&& is_requirement_digest(id@.skip(4).skip(k + 1))
                &&& got@ == id@.skip(4).take(k)
                &&& first_non_requirement(got@, 0) == Some(at as int)
                &&& found == got@[at as int]
            },
    {
        RequirementId::from_wire(id)
    }
}

impl<'a> vstd::std_specs::convert::TryFromSpecImpl<&'a str> for RequirementId {
    open spec fn obeys_try_from_spec() -> bool {
        false
    }

    open spec fn try_from_spec(v: &'a str) -> Result<RequirementId, RequirementIdError> {
        arbitrary()
    }
}

/// The same check as [`RequirementId::from_wire`], through `TryFrom`.
impl TryFrom<String> for RequirementId {
    type Error = RequirementIdError;

    fn try_from(id: String) -> (r: Result<RequirementId, RequirementIdError>)
        ensures
            r is Ok <==> is_requirement_wire(id@),
            r matches Ok(v) ==> v@ == id@,
            r matches Err(RequirementIdError::MissingPrefix { got }) ==> got@ == id@
                && !(id@.len() >= 4 && id@.take(4) == requirement_prefix()),
            r matches Err(RequirementIdError::MissingDigest { got }) ==> got@ == id@
                && id@.len() >= 4 && id@.take(4) == requirement_prefix()
                && last_underscore(id@.skip(4)) is None,
            r matches Err(RequirementIdError::MalformedDigest { got }) ==> {
                &&& id@.len() >= 4 && id@.take(4) == requirement_prefix()
                &&& last_underscore(id@.skip(4)) matches Some(k)
                &&& got@ == id@.skip(4).skip(k + 1)
                &&& !is_requirement_digest(got@)
            },
            r matches Err(RequirementIdError::DisallowedCharacter { got, at, found }) ==> {
                &&& id@.len() >= 4 && id@.take(4) == requirement_prefix()
                &&& last_underscore(id@.skip(4)) matches Some(k)
                &&& is_requirement_digest(id@.skip(4).skip(k + 1))
                &&& got@ == id@.skip(4).take(k)
                &&& first_non_requirement(got@, 0) == Some(at as int)
                &&& found == got@[at as int]
            },
    {
        RequirementId::from_wire(id.as_str())
    }
}

impl vstd::std_specs::convert::TryFromSpecImpl<String> for RequirementId {
    open spec fn obeys_try_from_spec() -> bool {
        false
    }

    open spec fn try_from_spec(v: String) -> Result<RequirementId, RequirementIdError> {
        arbitrary()
    }
}

impl LeafIdError {
    /// The message, naming the rule that failed and where.
    pub fn to_string(&self) -> (s: String)
        ensures
            s@ == leaf_id_error_text(*self),
    {
        match self {
            LeafIdError::Empty => string_of("a leaf id must not be empty"),
            LeafIdError::TooLong { len } => {
                let mut s = string_of("a leaf id must be at most 64 bytes, got ");
                push_u64(&mut s, *len as u64);
                s
            },
            LeafIdError::BadLeadingCharacter { found } => {
                let mut s = string_of("a leaf id must start with a lowercase letter or a digit, found ");
                let f = char_debug(*found);
                push_str(&mut s, f.as_str());
                s
            },
            LeafIdError::DisallowedCharacter { at, found } => {
                let mut s = string_of(
                    "a leaf id may contain only lowercase letters, digits, `.`, `_`, and `-`; found ",
                );
                let f = char_debug(*found);
                push_str(&mut s, f.as_str());
                push_str(&mut s, " at byte ");
                push_u64(&mut s, *at as u64);
                s
            },
        }
    }
}

/// The message of a rejected requirement identifier.
pub open spec fn requirement_id_error_text(e: RequirementIdError) -> Seq<char> {
    match e {
        RequirementIdError::MissingPrefix { got } => "a requirement id must start with `req_`, got "@ + str_debug_text(got@),
        RequirementIdError::MissingDigest { got } => "a requirement id must be `req_<capability>_<16 hex>`;          "@
            + str_debug_text(got@) + " has no digest separator"@,
        RequirementIdError::MalformedDigest { got } => "a requirement id's digest must be 16 lowercase hex          characters, got "@
            + str_debug_text(got@),
        RequirementIdError::DisallowedCharacter { got, at, found } => "a requirement id's capability may contain only lowercase letters, digits,          `.` and `-`; found "@
            + char_debug_text(found) + " at byte "@ + decimal(at as nat) + " of "@ + str_debug_text(got@),
    }
}

impl RequirementIdError {
    /// The message, naming the rule that failed.
    pub fn to_string(&self) -> (s: String)
        ensures
            s@ == requirement_id_error_text(*self),
    {
        match self {
            RequirementIdError::MissingPrefix { got } => {
                let mut s = string_of("a requirement id must start with `req_`, got ");
                let g = str_debug(got.as_str());
                push_str(&mut s, g.as_str());
                s
            },
            RequirementIdError::MissingDigest { got } => {
                let mut s = string_of("a requirement id must be `req_<capability>_<16 hex>`;          ");
                let g = str_debug(got.as_str());
                push_str(&mut s, g.as_str());
                push_str(&mut s, " has no digest separator");
                s
            },
            RequirementIdError::MalformedDigest { got } => {
                let mut s = string_of("a requirement id's digest must be 16 lowercase hex          characters, got ");
                let g = str_debug(got.as_str());
                push_str(&mut s, g.as_str());
                s
            },
            RequirementIdError::DisallowedCharacter { got, at, found } => {
                let mut s = string_of(
                    "a requirement id's capability may contain only lowercase letters, digits,          `.` and `-`; found ",
                );
                let f = char_debug(*found);
                push_str(&mut s, f.as_str());
                push_str(&mut s, " at byte ");
                push_u64(&mut s, *at as u64);
                push_str(&mut s, " of ");
                let g = str_debug(got.as_str());
                push_str(&mut s, g.as_str());
                s
            },
        }
    }
}

/// The identifier does not depend on the order the planner unioned the
/// scope's members in, nor on repetitions: scopes with the same members
/// derive the same identifier for the same capability.
pub proof fn law_derivation_ignores_member_order(cap: Seq<char>, a: crate::scope::ScopeView, b: crate::scope::ScopeView)
    requires
        crate::scope::scope_wf(a),
        crate::scope::scope_wf(b),
        a.0.to_set() == b.0.to_set(),
        a.1.to_set() == b.1.to_set(),
    ensures
        derived_text(cap, a) == derived_text(cap, b),
{
    crate::scope::law_a_scope_is_its_sets(a, b);
}
} // verus!
