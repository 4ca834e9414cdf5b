use vibe_check::diff::{blob_at_rev_outcome, merge_base_outcome, SHALLOW_CLONE_HINT};
use vibe_check::host::clock::{Clock, FixedClock, SystemClock};
use vibe_check::host::vcs::VcsError;
use vibe_check::time::Timestamp;

#[test]
fn a_fixed_clock_does_not_move() {
    let clock = FixedClock::default();
    assert_eq!(clock.now(), clock.now());
    assert_eq!(clock.now(), Timestamp::unix_epoch());
}

#[test]
fn the_system_clock_reads_after_the_epoch() {
    assert!(SystemClock.now().as_second() > 0);
}

#[test]
fn reads_a_blob_at_the_merge_base() {
    let at_base = blob_at_rev_outcome("1a77", "src/lib.rs", true, b"pub fn safe() {}\n".to_vec(), "")
        .expect("read")
        .expect("present at base");
    assert_eq!(String::from_utf8(at_base).expect("utf-8"), "pub fn safe() {}\n");
}

#[test]
fn a_file_absent_at_a_revision_is_not_an_error() {
    let missing = blob_at_rev_outcome(
        "1a77",
        "src/new.rs",
        false,
        Vec::new(),
        "fatal: path 'src/new.rs' does not exist in '1a77'\n",
    )
    .expect("read");
    assert!(missing.is_none());
    let on_disk = blob_at_rev_outcome(
        "1a77",
        "src/new.rs",
        false,
        Vec::new(),
        "fatal: path 'src/new.rs' exists on disk, but not in '1a77'\n",
    )
    .expect("read");
    assert!(on_disk.is_none());
}

#[test]
fn an_unresolvable_revision_is_an_error() {
    let err = blob_at_rev_outcome(
        "no-such-rev",
        "src/lib.rs",
        false,
        Vec::new(),
        "  fatal: invalid object name 'no-such-rev'.\n",
    )
    .expect_err("bad revision");
    assert!(matches!(err, VcsError::BadRevision(_)));
    assert_eq!(
        err,
        VcsError::BadRevision("no-such-rev:src/lib.rs (fatal: invalid object name 'no-such-rev'.)".to_owned())
    );
}

#[test]
fn unrelated_histories_explain_the_likely_cause() {
    let err = merge_base_outcome("master", "master~1", None).expect_err("no common ancestor");
    assert_eq!(
        err,
        VcsError::NoMergeBase {
            base: "master".to_owned(),
            head: "master~1".to_owned(),
            detail: SHALLOW_CLONE_HINT.to_owned(),
        }
    );
    assert!(err.to_string().contains("fetch-depth: 0"));
    assert_eq!(merge_base_outcome("master", "feature", Some("1a77".to_owned())), Ok("1a77".to_owned()));
}

#[test]
fn a_reading_outside_the_range_is_the_epoch() {
    assert_eq!(SystemClock::instant_of(None), Timestamp::unix_epoch());
    let t = SystemClock::instant_of(Some((1_772_582_400, 5)));
    assert_eq!((t.as_second(), t.subsec_nanosecond()), (1_772_582_400, 5));
}
