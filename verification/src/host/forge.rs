//! Forge data: repositories, pull requests, check runs and artifacts, and the
//! forge that is not there.
//!
//! [`CheckRun`] has no conversion into [`Artifact`] and none into evidence: a
//! check's name and conclusion are not evidence about the code. [`Artifact`]
//! cannot be built without bytes, so every route to evidence runs through
//! bytes and a parser.

use vstd::prelude::*;
use crate::text::{chars_of, find_char, index_of, index_of_from, lemma_index_of_from, push_char, push_str, push_u64, string_from_chars, string_of, decimal};
use crate::time::Timestamp;

verus! {

/// Which repository.
#[derive(Clone, PartialEq, Eq, PartialOrd, Ord, Hash, Debug)]
pub struct RepoId {
    /// Owner or organization.
    pub owner: String,
    /// Repository name.
    pub name: String,
}

/// How `owner/name` splits: at the first `/`, into a non-empty owner and a
/// non-empty name that holds no further `/`.
pub open spec fn repo_split(s: Seq<char>) -> Option<(Seq<char>, Seq<char>)> {
    match index_of(s, '/') {
        None => None,
        Some(k) => {
            let owner = s.take(k);
            let name = s.skip(k + 1);
            if owner.len() > 0 && name.len() > 0 && index_of(name, '/') is None {
                Some((owner, name))
            } else {
                None
            }
        },
    }
}

impl RepoId {
    /// Parse `owner/name`.
    pub fn parse(full_name: &str) -> (r: Option<RepoId>)
        ensures
            match r {
                Some(id) => repo_split(full_name@) == Some((id.owner@, id.name@)),
                None => repo_split(full_name@) is None,
            },
    {
        let cs = chars_of(full_name);
        let k = match find_char(&cs, '/', 0) {
            Some(k) => k,
            None => return None,
        };
        proof {
            lemma_index_of_from(cs@, '/', 0);
            assert(index_of_from(cs@, '/', 0) == Some(k as int));
            assert(k < cs@.len());
        }
        let n = cs.len();
        let more = if k < n { find_char(&cs, '/', k + 1) } else { None };
        let ghost name = full_name@.skip(k + 1);
        proof {
            lemma_index_of_from(full_name@, '/', k + 1);
            lemma_index_of_from(name, '/', 0);
            assert forall|j: int| 0 <= j < name.len() implies #[trigger] name[j] == full_name@[k + 1 + j] by {}
            if more is None {
                assert(index_of(name, '/') is None);
            } else {
                let m = more->0 as int;
                assert(name[m - k - 1] == '/');
                assert(index_of(name, '/') is Some);
            }
        }
        if k == 0 || k + 1 == cs.len() || more.is_some() {
            return None;
        }
        let owner = string_from_chars(&cs, 0, k);
        let name_s = string_from_chars(&cs, k + 1, cs.len());
        proof {
            assert(owner@ =~= full_name@.take(k as int));
            assert(name_s@ =~= full_name@.skip(k + 1));
        }
        Some(RepoId { owner, name: name_s })
    }

    /// Render as `owner/name`.
    pub fn full_name(&self) -> (s: String)
        ensures
            s@ == self.owner@ + seq!['/'] + self.name@,
    {
        let mut s = string_of(self.owner.as_str());
        push_char(&mut s, '/');
        push_str(&mut s, self.name.as_str());
        s
    }
}

/// Rendering a well-formed repository identifier and parsing it back gives
/// the same identifier.
pub proof fn law_repo_id_round_trips(owner: Seq<char>, name: Seq<char>)
    requires
        owner.len() > 0,
        name.len() > 0,
        index_of(owner, '/') is None,
        index_of(name, '/') is None,
    ensures
        repo_split(owner + seq!['/'] + name) == Some((owner, name)),
{
    let s = owner + seq!['/'] + name;
    lemma_index_of_from(owner, '/', 0);
    lemma_index_of_from(s, '/', 0);
    assert(s[owner.len() as int] == '/');
    assert forall|j: int| 0 <= j < owner.len() implies #[trigger] s[j] != '/' by {
        assert(s[j] == owner[j]);
    }
    assert(index_of(s, '/') == Some(owner.len() as int));
    assert(s.take(owner.len() as int) =~= owner);
    assert(s.skip(owner.len() as int + 1) =~= name);
}

/// What parses renders back to exactly the text it was parsed from.
pub proof fn law_parsed_repo_id_renders_back(s: Seq<char>)
    requires
        repo_split(s) is Some,
    ensures
        ({
            let (owner, name) = repo_split(s)->0;
            owner + seq!['/'] + name == s
        }),
{
    let k = index_of(s, '/')->0;
    lemma_index_of_from(s, '/', 0);
    assert(s.take(k) + seq!['/'] + s.skip(k + 1) =~= s);
}

/// Identifies a workflow run and attempt.
#[derive(Clone, Copy, PartialEq, Eq, Structural, PartialOrd, Ord, Hash, Debug)]
pub struct RunRef {
    /// Run identifier.
    pub id: u64,
    /// Which attempt; the highest wins when the same evidence arrives twice.
    pub attempt: u32,
}

/// The pull request under evaluation.
#[derive(Clone, PartialEq, Eq, Debug)]
pub struct PullRequest {
    /// Number.
    pub number: u64,
    /// Head commit: the identity every staleness check keys on.
    pub head_sha: String,
    /// The repository the head branch lives in: the fork, for a fork pull
    /// request. A consistency check, never a trust anchor.
    pub head_repo: Option<RepoId>,
    /// Base branch name.
    pub base_ref: String,
    /// Base branch tip at event time; not the merge base.
    pub base_sha_at_event: String,
    /// Whether the pull request is a draft.
    pub draft: bool,
    /// Labels, for policy that keys on them.
    pub labels: Vec<String>,
}

/// How a check run concluded. Carried for reporting only.
#[derive(Clone, Copy, PartialEq, Eq, Structural, Debug)]
#[non_exhaustive]
pub enum CheckConclusion {
    /// Passed.
    Success,
    /// Failed.
    Failure,
    /// Neither.
    Neutral,
    /// Cancelled.
    Cancelled,
    /// Timed out.
    TimedOut,
    /// Skipped: renders as a green tick in most branch protection.
    Skipped,
    /// Still running.
    Pending,
}

/// A check run on a commit. Inert: nothing done with it produces evidence.
#[derive(Clone, PartialEq, Eq, Debug)]
pub struct CheckRun {
    /// Check identifier.
    pub id: u64,
    /// Display name, e.g. `quality`.
    pub name: String,
    /// How it concluded.
    pub conclusion: CheckConclusion,
    /// Link for humans.
    pub html_url: Option<String>,
}

/// Metadata about an uploaded artifact, without its bytes.
#[derive(Clone, PartialEq, Eq, Debug)]
pub struct ArtifactMeta {
    /// Artifact identifier.
    pub id: u64,
    /// Name, e.g. `vibe-check-evidence-miri-core-0`.
    pub name: String,
    /// Size in bytes, as reported before download.
    pub size_bytes: u64,
    /// Whether the retention window has passed.
    pub expired: bool,
    /// The run that produced it.
    pub run: RunRef,
    /// The commit that run was for.
    pub head_sha: String,
    /// The repository the head branch of the producing run lived in.
    pub head_repo: Option<RepoId>,
    /// When it was created.
    pub created_at: Timestamp,
    /// Digest the API reports, when it reports one.
    pub digest: Option<String>,
}

/// A downloaded artifact. Cannot be constructed without bytes.
#[derive(Clone, PartialEq, Eq, Debug)]
pub struct Artifact {
    meta: ArtifactMeta,
    bytes: Vec<u8>,
    sha256: String,
}

impl Artifact {
    /// Its metadata.
    pub closed spec fn spec_meta(&self) -> ArtifactMeta {
        self.meta
    }

    /// Its bytes.
    pub closed spec fn spec_bytes(&self) -> Seq<u8> {
        self.bytes@
    }

    /// The digest over its bytes.
    pub closed spec fn spec_sha256(&self) -> Seq<char> {
        self.sha256@
    }

    /// Wrap downloaded bytes together with the digest the downloader computed
    /// over them.
    pub fn new(meta: ArtifactMeta, bytes: Vec<u8>, sha256: String) -> (a: Artifact)
        ensures
            a.spec_meta() == meta,
            a.spec_bytes() == bytes@,
            a.spec_sha256() == sha256@,
    {
        Artifact { meta, bytes, sha256 }
    }

    /// Metadata.
    pub fn meta(&self) -> (m: &ArtifactMeta)
        ensures
            *m == self.spec_meta(),
    {
        &self.meta
    }

    /// The bytes.
    pub fn bytes(&self) -> (b: &[u8])
        ensures
            b@ == self.spec_bytes(),
    {
        self.bytes.as_slice()
    }

    /// Digest over the bytes actually read.
    pub fn sha256(&self) -> (s: &str)
        ensures
            s@ == self.spec_sha256(),
    {
        self.sha256.as_str()
    }
}

/// A marker identifying vibe-check's own comment, which is upserted, never
/// appended.
#[derive(Clone, PartialEq, Eq, Debug)]
pub struct CommentMarker(pub String);

impl Default for CommentMarker {
    /// An HTML comment: invisible when rendered, findable when listing.
    fn default() -> (m: CommentMarker)
        ensures
            m.0@ == "<!-- vibe-check -->"@,
    {
        CommentMarker(string_of("<!-- vibe-check -->"))
    }
}

/// A comment identifier.
#[derive(Clone, Copy, PartialEq, Eq, Structural, PartialOrd, Ord, Hash, Debug)]
pub struct CommentId(pub u64);

/// A check run to create or update.
#[derive(Clone, PartialEq, Eq, Debug)]
pub struct CheckRequest {
    /// Check name as it appears in the UI.
    pub name: String,
    /// The commit it applies to.
    pub head_sha: String,
    /// How it concluded.
    pub conclusion: CheckConclusion,
    /// One-line summary.
    pub title: String,
    /// Markdown body.
    pub summary: String,
    /// Opaque value round-tripped through the API.
    pub external_id: Option<String>,
}

/// Why a forge operation did not happen.
#[derive(Clone, PartialEq, Eq, Debug)]
#[non_exhaustive]
pub enum ForgeError {
    /// There is no forge in this context. Not an error at call sites: the
    /// adoption layer maps it to an unverified capability.
    Unavailable(&'static str),
    /// The forge asked us to slow down.
    RateLimited {
        /// Seconds to wait.
        retry_after_secs: u64,
    },
    /// The thing does not exist, or we cannot see it.
    NotFound(String),
    /// Anything else.
    Request(String),
}

/// The message of a forge failure.
pub open spec fn forge_error_text(e: ForgeError) -> Seq<char> {
    match e {
        ForgeError::Unavailable(why) => "no forge available: "@ + why@,
        ForgeError::RateLimited { retry_after_secs } => "rate limited; retry after "@ + decimal(
            retry_after_secs as nat,
        ) + "s"@,
        ForgeError::NotFound(what) => "not found: "@ + what@,
        ForgeError::Request(why) => "forge request failed: "@ + why@,
    }
}

impl ForgeError {
    /// The message: `no forge available: ...`, `rate limited; retry after Ns`,
    /// `not found: ...` or `forge request failed: ...`.
    pub fn to_string(&self) -> (s: String)
        ensures
            s@ == forge_error_text(*self),
    {
        match self {
            ForgeError::Unavailable(why) => {
                let mut s = string_of("no forge available: ");
                push_str(&mut s, why);
                s
            },
            ForgeError::RateLimited { retry_after_secs } => {
                let mut s = string_of("rate limited; retry after ");
                push_u64(&mut s, *retry_after_secs);
                push_str(&mut s, "s");
                s
            },
            ForgeError::NotFound(what) => {
                let mut s = string_of("not found: ");
                push_str(&mut s, what.as_str());
                s
            },
            ForgeError::Request(why) => {
                let mut s = string_of("forge request failed: ");
                push_str(&mut s, why.as_str());
                s
            },
        }
    }
}

/// What the forge that is not there says to every request.
pub const NO_FORGE: &'static str = "running without forge access";

/// A forge that is not there: every request is refused with
/// [`ForgeError::Unavailable`], so local runs degrade to a more cautious
/// verdict instead of an error.
#[derive(Clone, Copy, Debug, Default)]
pub struct NullForge;

impl NullForge {
    /// The refusal every request gets.
    pub open spec fn refusal() -> ForgeError {
        ForgeError::Unavailable(NO_FORGE)
    }

    /// Fetch a pull request: refused.
    pub fn pull_request(&self, number: u64) -> (r: Result<PullRequest, ForgeError>)
        ensures
            r == Err::<PullRequest, ForgeError>(Self::refusal()),
    {
        Err(ForgeError::Unavailable(NO_FORGE))
    }

    /// List check runs: refused.
    pub fn check_runs(&self, head_sha: &str) -> (r: Result<Vec<CheckRun>, ForgeError>)
        ensures
            r == Err::<Vec<CheckRun>, ForgeError>(Self::refusal()),
    {
        Err(ForgeError::Unavailable(NO_FORGE))
    }

    /// List workflow runs: refused.
    pub fn workflow_runs(&self, head_sha: &str) -> (r: Result<Vec<RunRef>, ForgeError>)
        ensures
            r == Err::<Vec<RunRef>, ForgeError>(Self::refusal()),
    {
        Err(ForgeError::Unavailable(NO_FORGE))
    }

    /// List a run's artifacts: refused.
    pub fn artifacts(&self, run: RunRef) -> (r: Result<Vec<ArtifactMeta>, ForgeError>)
        ensures
            r == Err::<Vec<ArtifactMeta>, ForgeError>(Self::refusal()),
    {
        Err(ForgeError::Unavailable(NO_FORGE))
    }

    /// Download an artifact: refused.
    pub fn download(&self, meta: &ArtifactMeta) -> (r: Result<Artifact, ForgeError>)
        ensures
            r == Err::<Artifact, ForgeError>(Self::refusal()),
    {
        Err(ForgeError::Unavailable(NO_FORGE))
    }
}

} // verus!
