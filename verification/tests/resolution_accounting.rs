use vibe_check::adjudicate::enforcement::{Adjudicators, Enforcement};
use vibe_check::adjudicate::accumulator::Escalation;
use vibe_check::evidence::{Evidence, EvidenceFacts, ParsedEvidence, Provenance};
use vibe_check::ids::{CapabilityId, ParserId, RequirementId};
use vibe_check::reason::{PolicyRef, ReasonCode};
use vibe_check::resolution::{
    CapabilityResolution, Judgement, ResolutionState, Resolutions, SkipReason, UnverifiedReason,
};
use vibe_check::tier::{Tier, Verdict};
use vibe_check::time::{CivilDate, DecisionTime, Timestamp};

fn requirement() -> RequirementId {
    RequirementId::from_wire("req_tests-pass_0000000000000000").expect("a well-formed fixture identifier")
}

fn date(y: i16, m: i8, d: i8) -> CivilDate {
    CivilDate::new(y, m, d).expect("a real day")
}

/// A decision time at the given instant, written as RFC 3339.
fn decision_at_instant(rfc3339: &str) -> DecisionTime {
    let at: jiff::Timestamp = rfc3339.parse().expect("a well-formed fixture timestamp");
    DecisionTime::from_committer_date(
        Timestamp::from_parts(at.as_second(), at.subsec_nanosecond()).expect("in range"),
    )
}

/// A decision time at midnight UTC on the given civil date.
fn decision_at(y: i16, m: i8, d: i8) -> DecisionTime {
    decision_at_instant(&format!("{y:04}-{m:02}-{d:02}T00:00:00Z"))
}

fn waiver(expires: CivilDate) -> CapabilityResolution {
    CapabilityResolution::Skipped {
        reason: SkipReason::Declared {
            policy_ref: PolicyRef {
                path: ".vibe-check/policy.toml".into(),
                kind: "skip".into(),
                id: "macros-no-miri".into(),
                blob_sha: None,
            },
            reason: "proc-macro crate forbids unsafe".into(),
            owner: "@kono/platform".into(),
            expires,
        },
    }
}

fn evidence_with(provenance: Provenance) -> Box<Evidence> {
    Box::new(Evidence::from_parsed(
        ParsedEvidence::new(CapabilityId::new("tests-pass"), ParserId::new("junit@1"), EvidenceFacts::default()),
        provenance,
    ))
}

fn measured() -> Box<Evidence> {
    evidence_with(Provenance::Executed {
        plan_digest: "blake3:abcd".into(),
        exit_code: 0,
        started_at: Timestamp::unix_epoch(),
        duration_ms: 1,
        toolchain: "1.97.1".into(),
    })
}

fn some_decision_time() -> DecisionTime {
    decision_at(2026, 3, 4)
}

/// Account one resolution and return both finished ledgers.
fn accounted(
    resolution: CapabilityResolution,
    enforcement: Enforcement,
    at: DecisionTime,
) -> (Tier, Verdict, Vec<Escalation>, Tier, Vec<Escalation>) {
    let mut resolutions = Resolutions::new();
    assert!(resolutions.insert(requirement(), enforcement, resolution).is_none());
    let mut adjudicators = Adjudicators::new();
    resolutions.account_into(at, &mut adjudicators);
    let (enforced, advisory) = adjudicators.finish();
    (
        enforced.tier(),
        enforced.verdict(),
        enforced.adjudication().escalations.clone(),
        advisory.tier(),
        advisory.escalations().to_vec(),
    )
}

fn verdict_of_at(resolution: CapabilityResolution, enforcement: Enforcement, at: DecisionTime) -> Verdict {
    accounted(resolution, enforcement, at).1
}

fn verdict_of(resolution: CapabilityResolution, enforcement: Enforcement) -> Verdict {
    verdict_of_at(resolution, enforcement, some_decision_time())
}

fn tiers_of(resolution: CapabilityResolution, enforcement: Enforcement) -> (Tier, Tier) {
    let (t, _, _, a, _) = accounted(resolution, enforcement, some_decision_time());
    (t, a)
}

fn only_escalation(resolution: CapabilityResolution, at: DecisionTime) -> Escalation {
    let (_, _, mut escalations, _, _) = accounted(resolution, Enforcement::Enforcing, at);
    assert_eq!(escalations.len(), 1, "one requirement contributes one ledger row");
    escalations.remove(0)
}

fn all_unverified_reasons() -> Vec<UnverifiedReason> {
    vec![
        UnverifiedReason::Unparseable { parser: ParserId::new("junit@1"), detail: "not xml".into() },
        UnverifiedReason::NoArtifact { detail: "check `tests` succeeded but uploaded nothing".into() },
        UnverifiedReason::MissingEvidence,
        UnverifiedReason::StaleArtifact { produced_from: "aaaa".into(), expected: "bbbb".into() },
        UnverifiedReason::GatesModified { paths: vec![".github/workflows/ci.yml".into()] },
        UnverifiedReason::BudgetExceeded { cost: "extreme".into(), max: "high".into() },
        UnverifiedReason::Inconclusive { reason: "no data".into() },
        UnverifiedReason::ExecutionFailed { detail: "miri not installed".into() },
        UnverifiedReason::PlanFailed { detail: "no config".into() },
        UnverifiedReason::UnknownCapability { id: "loom-clean".into() },
        UnverifiedReason::UnknownParser { id: "loom-json@1".into() },
        UnverifiedReason::NoForge,
        UnverifiedReason::SchemaTooNew { found: 9, supported: 1 },
        UnverifiedReason::Oversized { detail: "72 MiB > 64 MiB".into() },
    ]
}

#[test]
fn satisfied_measured_evidence_leaves_the_verdict_alone() {
    assert_eq!(
        verdict_of(
            CapabilityResolution::Ran { evidence: measured(), judgement: Judgement::Satisfied },
            Enforcement::Enforcing
        ),
        Verdict::Auto
    );
}

#[test]
fn every_unverified_reason_forces_human_review() {
    for reason in all_unverified_reasons() {
        let detail = reason.detail();
        assert_eq!(
            verdict_of(CapabilityResolution::Unverified { reason: reason.clone() }, Enforcement::Enforcing),
            Verdict::Human,
            "{reason:?} must escalate"
        );
        assert!(!detail.is_empty(), "{reason:?} must explain itself");
    }
}

#[test]
fn a_green_check_with_no_artifact_says_so_in_the_message() {
    let reason = UnverifiedReason::NoArtifact { detail: "check `tests` succeeded but uploaded nothing".into() };
    let detail = reason.detail();
    assert!(detail.contains("not evidence"), "{detail}");
    assert!(detail.contains("parseable"), "{detail}");
}

#[test]
fn unverified_details_are_the_documented_sentences() {
    assert_eq!(
        UnverifiedReason::Unparseable { parser: ParserId::new("junit@1"), detail: "not xml".into() }.detail(),
        "artifact could not be parsed by `junit@1`: not xml"
    );
    assert_eq!(
        UnverifiedReason::SchemaTooNew { found: 9, supported: 1 }.detail(),
        "evidence declares schema v9 but this build supports up to v1; upgrade vibe-check"
    );
    assert_eq!(
        UnverifiedReason::BudgetExceeded { cost: "extreme".into(), max: "high".into() }.detail(),
        "cost class `extreme` exceeds the configured maximum `high`"
    );
    assert_eq!(
        UnverifiedReason::StaleArtifact { produced_from: "aaaa".into(), expected: "bbbb".into() }.detail(),
        "artifact was produced from aaaa but the head is bbbb; re-run the producing workflow for this commit"
    );
}

#[test]
fn reason_codes_follow_the_reason() {
    let codes: Vec<ReasonCode> = all_unverified_reasons().iter().map(|r| r.reason_code()).collect();
    assert_eq!(
        codes,
        [
            ReasonCode::CapabilityUnverified,
            ReasonCode::CapabilityUnverified,
            ReasonCode::CapabilityUnverified,
            ReasonCode::AdoptionStale,
            ReasonCode::GatesModified,
            ReasonCode::BudgetExceeded,
            ReasonCode::CapabilityUnverified,
            ReasonCode::CapabilityUnverified,
            ReasonCode::CapabilityUnverified,
            ReasonCode::UnknownCapability,
            ReasonCode::UnknownParser,
            ReasonCode::CapabilityUnverified,
            ReasonCode::CapabilityUnverified,
            ReasonCode::CapabilityUnverified,
        ]
    );
}

#[test]
fn an_inconclusive_answer_is_not_a_pass() {
    assert_eq!(
        verdict_of(
            CapabilityResolution::Ran {
                evidence: measured(),
                judgement: Judgement::Inconclusive { reason: "added tests do not compile against base".into() },
            },
            Enforcement::Enforcing
        ),
        Verdict::Human
    );
}

#[test]
fn a_declaration_cannot_satisfy_a_capability() {
    let resolution = CapabilityResolution::Adopted {
        evidence: evidence_with(Provenance::Declared { by: "policy#skip:x".into(), reason: "trust me".into() }),
        judgement: Judgement::Satisfied,
    };
    assert_eq!(verdict_of(resolution.clone(), Enforcement::Enforcing), Verdict::Human);
    let escalated = only_escalation(resolution, some_decision_time());
    assert_eq!(escalated.detail, "`tests-pass` is backed only by a declaration, not a measurement");
    assert_eq!(escalated.reason, ReasonCode::CapabilityUnverified);
}

#[test]
fn a_violation_names_the_capability_and_what_failed() {
    let escalated = only_escalation(
        CapabilityResolution::Ran { evidence: measured(), judgement: Judgement::Violated { detail: "2 tests failed".into() } },
        some_decision_time(),
    );
    assert_eq!(escalated.detail, "`tests-pass` failed: 2 tests failed");
    assert_eq!(escalated.reason, ReasonCode::CapabilityViolated);
    assert_eq!(escalated.to, Tier::T2);
}

#[test]
fn derived_skips_are_free_and_declared_waivers_are_not() {
    let derived = CapabilityResolution::Skipped {
        reason: SkipReason::Derived { detail: "no unsafe in changed hunks".into() },
    };
    assert_eq!(verdict_of(derived, Enforcement::Enforcing), Verdict::Auto);
    let declared = waiver(date(2027, 1, 1));
    assert_eq!(
        verdict_of_at(declared, Enforcement::Enforcing, decision_at(2026, 6, 1)),
        Verdict::InterfaceReview
    );
}

#[test]
fn an_expired_waiver_costs_more_than_a_live_one() {
    let declared = waiver(date(2027, 1, 1));
    let live = decision_at(2026, 6, 1);
    let expired = decision_at(2027, 6, 1);
    assert_eq!(verdict_of_at(declared.clone(), Enforcement::Enforcing, live), Verdict::InterfaceReview);
    assert_eq!(verdict_of_at(declared.clone(), Enforcement::Enforcing, expired), Verdict::Human);
    assert_eq!(only_escalation(declared.clone(), live).reason, ReasonCode::DeclaredSkip);
    let escalated = only_escalation(declared, expired);
    assert_eq!(escalated.reason, ReasonCode::ExpiredSkip);
    assert_eq!(escalated.to, Tier::T2);
    assert!(
        escalated.detail.contains("2027-01-01") && escalated.detail.contains("2027-06-01"),
        "the message names both the expiry and the commit's date: {}",
        escalated.detail
    );
}

#[test]
fn waiver_messages_are_the_documented_sentences() {
    let declared = waiver(date(2027, 1, 1));
    assert_eq!(
        only_escalation(declared.clone(), decision_at(2026, 6, 1)).detail,
        "waived by .vibe-check/policy.toml#skip:macros-no-miri (proc-macro crate forbids unsafe); \
         owner @kono/platform, expires 2027-01-01"
    );
    assert_eq!(
        only_escalation(declared, decision_at(2027, 6, 1)).detail,
        "waived by .vibe-check/policy.toml#skip:macros-no-miri (proc-macro crate forbids unsafe); \
         owner @kono/platform. That waiver lapsed on 2027-01-01 and this commit is dated 2027-06-01; \
         an expired waiver authorises nothing. Renew it or answer the capability."
    );
}

#[test]
fn expiry_is_measured_against_the_committer_date_and_not_the_wall_clock() {
    let ancient = waiver(date(2020, 1, 1));
    assert_eq!(
        verdict_of_at(ancient, Enforcement::Enforcing, decision_at(2019, 6, 1)),
        Verdict::InterfaceReview
    );
    let distant = waiver(date(2099, 1, 1));
    assert_eq!(
        verdict_of_at(distant, Enforcement::Enforcing, decision_at(2100, 1, 1)),
        Verdict::Human
    );
}

#[test]
fn the_expiry_boundary_is_the_committer_dates_utc_date() {
    let decision = decision_at_instant("2026-12-31T23:30:00Z");
    assert_eq!(decision.utc_date(), date(2026, 12, 31));
    let declared = waiver(date(2026, 12, 31));
    assert_eq!(verdict_of_at(declared.clone(), Enforcement::Enforcing, decision), Verdict::InterfaceReview);
    assert_eq!(only_escalation(declared, decision).reason, ReasonCode::DeclaredSkip);
}

#[test]
fn the_expiry_boundary_is_inclusive_of_the_expiry_day() {
    let declared = waiver(date(2027, 1, 1));
    assert_eq!(only_escalation(declared.clone(), decision_at(2027, 1, 1)).reason, ReasonCode::DeclaredSkip);
    assert_eq!(only_escalation(declared, decision_at(2027, 1, 2)).reason, ReasonCode::ExpiredSkip);
}

#[test]
fn an_advisory_failure_does_not_move_the_enforced_tier() {
    let violated = CapabilityResolution::Ran {
        evidence: measured(),
        judgement: Judgement::Violated { detail: "2 tests failed".into() },
    };
    let (enforced, _) = tiers_of(violated, Enforcement::Advisory);
    assert_eq!(enforced, Tier::BOTTOM);
    assert_eq!(enforced.verdict(), Verdict::Auto);
}

#[test]
fn an_advisory_failure_does_move_the_advisory_tier() {
    let violated = CapabilityResolution::Ran {
        evidence: measured(),
        judgement: Judgement::Violated { detail: "2 tests failed".into() },
    };
    let (_, advisory) = tiers_of(violated, Enforcement::Advisory);
    assert_eq!(advisory, Tier::TOP);
}

#[test]
fn a_policy_integrity_fact_is_never_advisory() {
    let integrity = [
        UnverifiedReason::UnknownCapability { id: "tetss-pass".into() },
        UnverifiedReason::UnknownParser { id: "junti@1".into() },
    ];
    for reason in integrity {
        assert!(reason.is_policy_integrity(), "{reason:?}");
        for enforcement in [Enforcement::Enforcing, Enforcement::Advisory] {
            let (enforced, advisory) =
                tiers_of(CapabilityResolution::Unverified { reason: reason.clone() }, enforcement);
            assert_eq!(enforced, Tier::TOP);
            assert_eq!(enforced.verdict(), Verdict::Human);
            assert_eq!(advisory, Tier::BOTTOM);
        }
    }
}

#[test]
fn every_other_unverified_reason_is_a_result_not_a_policy_fact() {
    for reason in [
        UnverifiedReason::MissingEvidence,
        UnverifiedReason::NoForge,
        UnverifiedReason::Inconclusive { reason: "no data".into() },
        UnverifiedReason::GatesModified { paths: vec![".github/workflows/ci.yml".into()] },
    ] {
        assert!(!reason.is_policy_integrity(), "{reason:?}");
        let (enforced, advisory) = tiers_of(CapabilityResolution::Unverified { reason }, Enforcement::Advisory);
        assert_eq!(enforced, Tier::BOTTOM);
        assert_eq!(advisory, Tier::TOP);
    }
}

#[test]
fn gate_paths_are_reported_in_a_stable_order() {
    let unsorted = UnverifiedReason::GatesModified {
        paths: vec![".github/workflows/release.yml".into(), ".github/workflows/ci.yml".into()],
    };
    let sorted = UnverifiedReason::GatesModified {
        paths: vec![".github/workflows/ci.yml".into(), ".github/workflows/release.yml".into()],
    };
    assert_eq!(unsorted.detail(), sorted.detail());
    assert!(
        unsorted.detail().contains(".github/workflows/ci.yml, .github/workflows/release.yml"),
        "{}",
        unsorted.detail()
    );
    let UnverifiedReason::GatesModified { paths } = &unsorted else {
        panic!("constructed as `GatesModified`")
    };
    assert_eq!(paths[0], ".github/workflows/release.yml");
}

#[test]
fn least_confident_wins_when_aggregating_across_crates() {
    let mut states = [ResolutionState::Run, ResolutionState::Unverified, ResolutionState::Adopt];
    states.sort_by_key(|s| s.confidence_rank());
    assert_eq!(states[0], ResolutionState::Unverified);
}

#[test]
fn collapsing_a_capability_keeps_the_least_confident_scope() {
    assert_eq!(ResolutionState::Adopt.collapse(ResolutionState::Unverified), ResolutionState::Unverified);
    assert_eq!(
        ResolutionState::collapse_all(&[ResolutionState::Run, ResolutionState::Skip, ResolutionState::Adopt]),
        Some(ResolutionState::Skip)
    );
}

#[test]
fn the_confidence_order_is_not_the_declaration_order() {
    let by_confidence = [
        ResolutionState::Unverified,
        ResolutionState::Skip,
        ResolutionState::Adopt,
        ResolutionState::Run,
    ];
    let mut ranks = by_confidence.map(ResolutionState::confidence_rank);
    ranks.sort_unstable();
    assert_eq!(ranks, by_confidence.map(ResolutionState::confidence_rank));
    assert_eq!(
        ResolutionState::collapse_all(&[ResolutionState::Adopt, ResolutionState::Unverified]),
        Some(ResolutionState::Unverified)
    );
}

#[test]
fn a_state_is_the_answering_method_and_not_the_answer() {
    let ran_and_failed = CapabilityResolution::Ran {
        evidence: measured(),
        judgement: Judgement::Violated { detail: "2 tests failed".into() },
    };
    assert_eq!(ran_and_failed.state(), ResolutionState::Run);
    assert_eq!(
        ResolutionState::collapse_all(&[ran_and_failed.state(), ResolutionState::Adopt]),
        Some(ResolutionState::Adopt)
    );
}

#[test]
fn a_capability_nothing_required_collapses_to_nothing() {
    assert_eq!(ResolutionState::collapse_all(&[]), None);
}

#[test]
fn collapsing_is_a_meet() {
    let all = [ResolutionState::Adopt, ResolutionState::Run, ResolutionState::Skip, ResolutionState::Unverified];
    for a in all {
        assert_eq!(a.collapse(a), a);
        assert_eq!(a.collapse(ResolutionState::Unverified), ResolutionState::Unverified);
        assert_eq!(a.collapse(ResolutionState::Run), a);
        for b in all {
            assert_eq!(a.collapse(b), b.collapse(a));
            for c in all {
                assert_eq!(a.collapse(b).collapse(c), a.collapse(b.collapse(c)));
            }
        }
    }
}

#[test]
fn a_duplicate_requirement_is_visible_not_silently_replaced() {
    let mut resolutions = Resolutions::new();
    let first = CapabilityResolution::Unverified { reason: UnverifiedReason::MissingEvidence };
    let second = CapabilityResolution::Skipped { reason: SkipReason::Derived { detail: "n/a".into() } };
    assert!(resolutions.insert(requirement(), Enforcement::Enforcing, first.clone()).is_none());
    let displaced = resolutions.insert(requirement(), Enforcement::Advisory, second);
    assert_eq!(displaced, Some((Enforcement::Enforcing, first)));
    assert_eq!(resolutions.len(), 1);
}

#[test]
fn accounting_walks_requirements_in_ascending_order_whatever_the_insertion_order() {
    let ids = ["req_b_0000000000000000", "req_a_0000000000000000", "req_c_0000000000000000"];
    let build = |order: &[usize]| {
        let mut r = Resolutions::new();
        for &i in order {
            let _ = r.insert(
                RequirementId::from_wire(ids[i]).expect("fixture"),
                Enforcement::Enforcing,
                CapabilityResolution::Unverified { reason: UnverifiedReason::NoForge },
            );
        }
        r
    };
    let one = build(&[0, 1, 2]);
    let other = build(&[2, 0, 1]);
    assert_eq!(one, other);
    let order: Vec<&str> = one.iter().iter().map(|(id, _, _)| id.as_str()).collect();
    assert_eq!(order, ["req_a_0000000000000000", "req_b_0000000000000000", "req_c_0000000000000000"]);

    let ledger = |r: &Resolutions| {
        let mut adjudicators = Adjudicators::new();
        r.account_into(some_decision_time(), &mut adjudicators);
        adjudicators.finish().0.into_adjudication().escalations
    };
    assert_eq!(ledger(&one), ledger(&other));
    assert_eq!(one.states().len(), 3);
    assert!(!one.is_empty());
}
