use vibe_check::host::escape::{EscapeError, ADJUDICATIONS_REF, ESCAPES_REF};
use vibe_check::host::exec::{ExecError, NetworkPolicy, ProcessOutput, ProcessPlan};
use vibe_check::host::forge::{CommentMarker, ForgeError, NullForge, RepoId, RunRef};
use vibe_check::host::vcs::{ChangeKind, ChangeStatus, VcsError};

#[test]
fn the_refs_are_namespaced_under_vibe_check() {
    assert!(ADJUDICATIONS_REF.starts_with("refs/notes/vibe-check/"));
    assert!(ESCAPES_REF.starts_with("refs/notes/vibe-check/"));
    assert_ne!(ADJUDICATIONS_REF, ESCAPES_REF);
}

#[test]
fn escape_errors_name_the_ref() {
    assert_eq!(
        EscapeError::Empty(ESCAPES_REF.to_owned()).to_string(),
        "no records under refs/notes/vibe-check/escapes"
    );
    assert_eq!(
        EscapeError::Store("disk full".to_owned()).to_string(),
        "escape store failed: disk full"
    );
}

#[test]
fn parses_owner_and_name() {
    let id = RepoId::parse("getkono/vibe-check").expect("parses");
    assert_eq!(id.owner, "getkono");
    assert_eq!(id.name, "vibe-check");
    assert_eq!(id.full_name(), "getkono/vibe-check");
}

#[test]
fn rejects_malformed_repository_names() {
    for bad in ["", "no-slash", "/name", "owner/", "a/b/c"] {
        assert!(RepoId::parse(bad).is_none(), "{bad:?} must not parse");
    }
}

#[test]
fn a_parsed_repository_renders_back_to_its_text() {
    for good in ["a/b", "getkono/vibe-check", "x-y.z/ü"] {
        let id = RepoId::parse(good).expect("parses");
        assert_eq!(id.full_name(), good);
    }
}

#[test]
fn the_default_comment_marker_is_an_html_comment() {
    let marker = CommentMarker::default();
    assert!(marker.0.starts_with("<!--"));
    assert!(marker.0.contains("vibe-check"));
}

#[test]
fn unavailable_reads_as_a_condition_not_a_crash() {
    let err = ForgeError::Unavailable("running locally without a token");
    assert!(err.to_string().contains("no forge available"));
}

#[test]
fn forge_errors_render_their_cause() {
    assert_eq!(
        ForgeError::RateLimited { retry_after_secs: 30 }.to_string(),
        "rate limited; retry after 30s"
    );
    assert_eq!(ForgeError::NotFound("run 7".into()).to_string(), "not found: run 7");
    assert_eq!(
        ForgeError::Request("502".into()).to_string(),
        "forge request failed: 502"
    );
}

#[test]
fn the_null_forge_refuses_every_request() {
    let forge = NullForge;
    let refused = |e: ForgeError| e.to_string() == "no forge available: running without forge access";
    assert!(refused(forge.pull_request(1).expect_err("no forge")));
    assert!(refused(forge.check_runs("9f3c").expect_err("no forge")));
    assert!(refused(forge.workflow_runs("9f3c").expect_err("no forge")));
    assert!(refused(forge.artifacts(RunRef { id: 7, attempt: 1 }).expect_err("no forge")));
}

#[test]
fn a_missing_merge_base_names_the_likely_cause() {
    let err = VcsError::NoMergeBase {
        base: "master".into(),
        head: "9f3c".into(),
        detail: "shallow clone; set fetch-depth: 0".into(),
    };
    let msg = err.to_string();
    assert!(msg.contains("master"));
    assert!(msg.contains("fetch-depth"));
    assert_eq!(
        msg,
        "no merge base between master and 9f3c: shallow clone; set fetch-depth: 0"
    );
}

#[test]
fn vcs_errors_render_their_cause() {
    assert_eq!(
        VcsError::BadRevision("nope".into()).to_string(),
        "cannot resolve revision `nope`"
    );
    assert_eq!(
        VcsError::NonUtf8Path("a\u{fffd}".into()).to_string(),
        "path is not valid UTF-8: a\u{fffd}"
    );
    assert_eq!(VcsError::Git("boom".into()).to_string(), "git operation failed: boom");
}

#[test]
fn defaults_are_the_cautious_ones() {
    let plan = ProcessPlan::new("cargo", vec!["test".to_owned()]);
    assert_eq!(plan.network, NetworkPolicy::Denied);
    assert!(plan.determinism.retries_disabled);
    assert_eq!(plan.env.inherit, ["CARGO_HOME", "HOME", "PATH", "RUSTUP_HOME"]);
}

#[test]
fn the_digest_distinguishes_determinism_settings() {
    let strict = ProcessPlan::new("cargo", vec!["test".to_owned()]);
    let mut loose = strict.clone();
    loose.determinism.retries_disabled = false;
    assert_ne!(strict.digest_input(), loose.digest_input());
}

#[test]
fn the_digest_distinguishes_arguments() {
    let all = ProcessPlan::new("cargo", vec!["test".to_owned(), "--all-features".to_owned()]);
    let some = ProcessPlan::new("cargo", vec!["test".to_owned()]);
    assert_ne!(all.digest_input(), some.digest_input());
}

#[test]
fn the_digest_is_not_confusable_by_argument_splitting() {
    let joined = ProcessPlan::new("cargo", vec!["a b".to_owned()]);
    let split = ProcessPlan::new("cargo", vec!["a".to_owned(), "b".to_owned()]);
    assert_ne!(joined.digest_input(), split.digest_input());
}

#[test]
fn the_digest_is_stable_across_calls() {
    let plan = ProcessPlan::new("cargo", vec!["miri".to_owned(), "test".to_owned()]);
    assert_eq!(plan.digest_input(), plan.digest_input());
}

#[test]
fn the_digest_input_is_the_documented_string() {
    let plan = ProcessPlan::new("cargo", vec!["miri".to_owned(), "test".to_owned()]);
    assert_eq!(
        plan.digest_input(),
        "cargo\u{1f}miri\u{1f}test\u{1e}cwd=.\u{1e}inherit=CARGO_HOME,HOME,PATH,RUSTUP_HOME\
         \u{1e}LC_ALL=C\u{1e}TZ=UTC\u{1e}network=Denied\u{1e}timeout=600\
         \u{1e}retries_disabled=true\u{1e}threads=Some(1)\u{1e}seed=Some(0)"
    );
}

#[test]
fn a_timeout_is_not_a_success() {
    let out = ProcessOutput {
        exit_code: Some(0),
        stdout: Vec::new(),
        stderr: Vec::new(),
        duration_ms: 1,
        timed_out: true,
    };
    assert!(!out.succeeded());
    let clean = ProcessOutput { timed_out: false, ..out.clone() };
    assert!(clean.succeeded());
    let killed = ProcessOutput { exit_code: None, ..clean };
    assert!(!killed.succeeded());
}

#[test]
fn exec_errors_name_the_program() {
    assert_eq!(
        ExecError::NotFound { program: "miri".into(), detail: "not installed".into() }.to_string(),
        "`miri` is not available: not installed"
    );
    assert_eq!(
        ExecError::Spawn { program: "cargo".into(), detail: "EPERM".into() }.to_string(),
        "could not run `cargo`: EPERM"
    );
}

#[test]
fn every_reported_state_reads_as_a_change_kind() {
    assert_eq!(ChangeStatus::Added.change_kind(), ChangeKind::Added);
    assert_eq!(ChangeStatus::Untracked.change_kind(), ChangeKind::Added);
    assert_eq!(ChangeStatus::Deleted.change_kind(), ChangeKind::Deleted);
    assert_eq!(ChangeStatus::Renamed.change_kind(), ChangeKind::Renamed);
    assert_eq!(ChangeStatus::Modified.change_kind(), ChangeKind::Modified);
    assert_eq!(ChangeStatus::Conflicted.change_kind(), ChangeKind::Modified);
    assert_eq!(ChangeStatus::Other.change_kind(), ChangeKind::Modified);
}
