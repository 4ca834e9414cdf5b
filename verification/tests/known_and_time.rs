use vibe_check::adjudicate::accumulator::Adjudicator;
use vibe_check::ids::{CapabilityId, RiskFlagId};
use vibe_check::known::{Known, UnknownKind};
use vibe_check::reason::{EvidenceRef, ReasonCode};
use vibe_check::tier::Tier;
use vibe_check::time::{CivilDate, DecisionTime, Timestamp};

fn registry_lookup(id: &str) -> Option<CapabilityId> {
    matches!(id, "tests-pass" | "api-diff-empty").then(|| CapabilityId::new(id))
}

#[test]
fn a_known_identifier_resolves_without_escalating() {
    let mut adj = Adjudicator::new();
    let k = Known::resolve("tests-pass", UnknownKind::Capability, EvidenceRef::Unattributed, registry_lookup);
    assert!(k.is_known());
    assert_eq!(k.get(&mut adj), Some(CapabilityId::new("tests-pass")));
    assert_eq!(adj.tier(), Tier::T0);
    assert!(adj.ledger().is_empty());
}

#[test]
fn an_unknown_identifier_escalates_to_the_top_when_observed() {
    let mut adj = Adjudicator::new();
    let k = Known::resolve("loom-clean", UnknownKind::Capability, EvidenceRef::Unattributed, registry_lookup);
    assert!(!k.is_known());
    assert_eq!(k.unknown_kind(), Some(UnknownKind::Capability));
    assert_eq!(k.get(&mut adj), None);
    assert_eq!(adj.tier(), Tier::TOP);
    assert_eq!(adj.ledger().len(), 1);
    assert_eq!(adj.ledger()[0].reason, ReasonCode::UnknownCapability);
}

#[test]
fn the_error_message_names_the_identifier_and_says_what_to_do() {
    let mut adj = Adjudicator::new();
    let _ = Known::<CapabilityId>::unresolved("loom-clean", UnknownKind::Capability, EvidenceRef::Unattributed)
        .get(&mut adj);
    let detail = &adj.ledger()[0].detail;
    assert!(detail.contains("loom-clean"), "names the identifier: {detail}");
    assert!(detail.contains("capability"), "names the kind: {detail}");
    assert!(detail.contains("upgrade"), "says what to do: {detail}");
}

#[test]
fn unknown_kinds_map_to_their_own_reason_codes() {
    assert_eq!(UnknownKind::RiskFlag.reason(), ReasonCode::UnknownRiskFlag);
    assert_eq!(UnknownKind::Capability.reason(), ReasonCode::UnknownCapability);
    assert_eq!(UnknownKind::Parser.reason(), ReasonCode::UnknownParser);
    assert_eq!(UnknownKind::Lane.reason(), ReasonCode::UnknownPolicyKey);
    assert_eq!(UnknownKind::CostClass.noun(), "cost class");
}

#[test]
fn renders_the_unknown_state_visibly() {
    let unknown = Known::<RiskFlagId>::unresolved("ffi", UnknownKind::RiskFlag, EvidenceRef::Unattributed);
    assert_eq!(unknown.to_string(), "ffi (unknown)");
    assert_eq!(unknown.id(), "ffi");
    let known = Known::resolved(RiskFlagId::new("unsafe"));
    assert_eq!(known.to_string(), "unsafe");
}

fn decision(rfc3339: &str) -> DecisionTime {
    let at: jiff::Timestamp = rfc3339.parse().expect("a well-formed fixture timestamp");
    DecisionTime::from_committer_date(Timestamp::from_parts(at.as_second(), at.subsec_nanosecond()).expect("in range"))
}

#[test]
fn a_decision_time_keeps_the_committer_date_it_was_given() {
    assert_eq!(decision("2026-03-04T05:06:07Z").utc_date(), CivilDate::new(2026, 3, 4).expect("a day"));
}

#[test]
fn the_civil_date_is_utc_and_not_the_local_zone() {
    let d = decision("2026-03-04T11:30:00Z");
    assert_eq!(d.utc_date(), CivilDate::new(2026, 3, 4).expect("a day"));
    let before_epoch = decision("1969-12-31T23:59:59.5Z");
    assert_eq!(before_epoch.utc_date(), CivilDate::new(1969, 12, 31).expect("a day"));
}

#[test]
fn two_decision_times_from_the_same_commit_are_equal() {
    assert_eq!(decision("2026-03-04T05:06:07Z"), decision("2026-03-04T05:06:07Z"));
}

#[test]
fn civil_dates_are_checked_and_rendered_in_iso_form() {
    assert!(CivilDate::new(2024, 2, 29).is_some());
    assert!(CivilDate::new(2023, 2, 29).is_none());
    assert!(CivilDate::new(1900, 2, 29).is_none());
    assert!(CivilDate::new(2000, 2, 29).is_some());
    assert!(CivilDate::new(2026, 4, 31).is_none());
    assert!(CivilDate::new(2026, 13, 1).is_none());
    assert_eq!(CivilDate::new(2027, 1, 1).expect("a day").to_string(), "2027-01-01");
    assert_eq!(CivilDate::new(7, 11, 9).expect("a day").to_string(), "0007-11-09");
    assert_eq!(CivilDate::new(-44, 3, 15).expect("a day").to_string(), "-000044-03-15");
    let later = CivilDate::new(2027, 1, 2).expect("a day");
    let earlier = CivilDate::new(2027, 1, 1).expect("a day");
    assert!(later.is_after(&earlier));
    assert!(!earlier.is_after(&later));
    assert!(!earlier.is_after(&earlier));
}

#[test]
fn timestamps_are_normalized_and_bounded() {
    assert!(Timestamp::from_parts(0, -5).is_some());
    assert!(Timestamp::from_parts(1, -5).is_none());
    assert!(Timestamp::from_parts(-1, 5).is_none());
    assert!(Timestamp::from_parts(253402207200, 999_999_999).is_some());
    assert!(Timestamp::from_parts(253402207201, 0).is_none());
    assert!(Timestamp::from_parts(-377705023201, 0).is_some());
    assert!(Timestamp::from_parts(-377705023201, -1).is_none());
    assert_eq!(Timestamp::unix_epoch().as_second(), 0);
}
