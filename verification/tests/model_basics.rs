use vibe_check::evidence::{CaseStatus, Metric};
use vibe_check::location::LineRange;
use vibe_check::schema::SchemaVersion;

#[test]
fn error_and_timeout_are_not_conclusive() {
    assert!(CaseStatus::Pass.is_conclusive());
    assert!(CaseStatus::Fail.is_conclusive());
    assert!(!CaseStatus::Error.is_conclusive());
    assert!(!CaseStatus::Timeout.is_conclusive());
    assert!(!CaseStatus::Skip.is_conclusive());
}

#[test]
fn metrics_carry_their_unit() {
    assert_eq!(Metric::count(3).unit, "count");
    assert_eq!(Metric::count(3).value, 3);
    assert_eq!(Metric::ppm(-12).unit, "ppm");
    assert_eq!(Metric::ppm(-12).value, -12);
}

#[test]
fn overlap_is_symmetric_and_inclusive() {
    let a = LineRange { start: 10, end: 20 };
    let touching = LineRange { start: 20, end: 30 };
    let apart = LineRange { start: 21, end: 30 };
    assert!(a.overlaps(&touching));
    assert!(touching.overlaps(&a));
    assert!(!a.overlaps(&apart));
    assert!(!apart.overlaps(&a));
}

#[test]
fn a_future_document_is_not_readable() {
    assert!(!SchemaVersion(2).readable_by(SchemaVersion(1)));
    assert!(SchemaVersion(1).readable_by(SchemaVersion(1)));
    assert!(SchemaVersion(1).readable_by(SchemaVersion(2)));
}

#[test]
fn a_schema_version_renders_with_its_prefix() {
    assert_eq!(SchemaVersion::bundle().to_string(), "v1");
    assert_eq!(SchemaVersion(12).to_string(), "v12");
}
