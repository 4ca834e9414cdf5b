use vibe_check::adjudicate::accumulator::Adjudicator;
use vibe_check::adjudicate::enforcement::{Adjudicators, Enforcement};
use vibe_check::bundle::BundleCore;
use vibe_check::evidence::{
    CaseOutcome, CaseStatus, Evidence, EvidenceFacts, LocatedFinding, ParsedEvidence, Provenance, Severity,
};
use vibe_check::host::exec::ProcessPlan;
use vibe_check::host::forge::{Artifact, ArtifactMeta, RunRef};
use vibe_check::host::scheduler::{Dispatch, Leaf, Leaves};
use vibe_check::ids::{CapabilityId, CrateId, LaneId, LeafId, ParserId, RequirementId, RiskFlagId, RuleId};
use vibe_check::resolution::ResolutionState;
use vibe_check::known::{Known, UnknownKind};
use vibe_check::location::{LineRange, Location};
use vibe_check::reason::{EvidenceRef, PolicyRef, ReasonCode};
use vibe_check::resolution::{CapabilityResolution, Judgement, Resolutions, SkipReason, UnverifiedReason};
use vibe_check::schema::SchemaVersion;
use vibe_check::tier::{Tier, Verdict};
use vibe_check::time::{CivilDate, DecisionTime, Timestamp};

// --- one ledger -------------------------------------------------------------------

fn escalate_to(adj: &mut Adjudicator, tier: Tier) {
    adj.escalate(tier, ReasonCode::RuleTierAtLeast, "test".to_owned(), EvidenceRef::Unattributed);
}

#[test]
fn starts_at_the_bottom() {
    let adj = Adjudicator::new();
    assert_eq!(adj.tier(), Tier::T0);
    assert_eq!(adj.verdict(), Verdict::Auto);
    assert!(adj.ledger().is_empty());
}

#[test]
fn records_non_raising_escalations() {
    let mut adj = Adjudicator::new();
    adj.escalate(
        Tier::T2,
        ReasonCode::RuleTierAtLeast,
        "rule `core-unsafe` requires T2".to_owned(),
        EvidenceRef::Unattributed,
    );
    adj.escalate(
        Tier::T2,
        ReasonCode::CapabilityUnverified,
        "loom-clean unverified".to_owned(),
        EvidenceRef::Capability(CapabilityId::new("loom-clean")),
    );
    adj.escalate(
        Tier::T2,
        ReasonCode::GateIntegrity,
        "modifies .github/workflows".to_owned(),
        EvidenceRef::Unattributed,
    );

    let done = adj.finish();
    assert_eq!(done.tier, Tier::T2);
    assert_eq!(done.escalations.len(), 3);
    assert_eq!(done.raising().len(), 1);
    assert_eq!(done.primary_cause().map(|e| e.reason), Some(ReasonCode::RuleTierAtLeast));
}

#[test]
fn the_finished_tier_is_the_highest_demand_in_any_order() {
    let demands = [Tier::T1, Tier::T2, Tier::T0];
    let mut forward = Adjudicator::new();
    for t in demands {
        escalate_to(&mut forward, t);
    }
    let mut backward = Adjudicator::new();
    for t in demands.iter().rev() {
        escalate_to(&mut backward, *t);
    }
    let (f, b) = (forward.finish(), backward.finish());
    assert_eq!(f.tier, Tier::T2);
    assert_eq!(b.tier, Tier::T2);
    assert_eq!(f.escalations.len(), 3);
    assert_eq!(f.escalations[2].from, Tier::T2);
    assert_eq!(f.escalations[2].to, Tier::T2);
}

#[test]
fn gate_integrity_forces_human_from_any_starting_point() {
    for start in [Tier::T0, Tier::T1, Tier::T2] {
        let mut adj = Adjudicator::new();
        escalate_to(&mut adj, start);
        adj.escalate(
            Tier::TOP,
            ReasonCode::GateIntegrity,
            "pull request modifies its own gates".to_owned(),
            EvidenceRef::Unattributed,
        );
        assert_eq!(adj.finish().verdict, Verdict::Human);
    }
}

// --- two ledgers --------------------------------------------------------------------

fn requirement(n: usize) -> RequirementId {
    RequirementId::from_wire(&format!("req_tests-pass_{n:016x}")).expect("a well-formed fixture identifier")
}

fn measured() -> Box<Evidence> {
    Box::new(Evidence::from_parsed(
        ParsedEvidence::new(CapabilityId::new("tests-pass"), ParserId::new("junit@1"), EvidenceFacts::default()),
        Provenance::Executed {
            plan_digest: "blake3:abcd".into(),
            exit_code: 0,
            started_at: Timestamp::unix_epoch(),
            duration_ms: 1,
            toolchain: "1.97.1".into(),
        },
    ))
}

fn decision_time() -> DecisionTime {
    DecisionTime::from_committer_date(Timestamp::from_parts(1_772_582_400, 0).expect("in range"))
}

fn waiver() -> CapabilityResolution {
    CapabilityResolution::Skipped {
        reason: SkipReason::Declared {
            policy_ref: PolicyRef {
                path: ".vibe-check/policy.toml".into(),
                kind: "skip".into(),
                id: "macros-no-miri".into(),
                blob_sha: None,
            },
            reason: "proc-macro crate forbids unsafe".into(),
            owner: "@kono/platform".into(),
            expires: CivilDate::new(2027, 1, 1).expect("a real day"),
        },
    }
}

/// Account each pair under its own requirement, as a run that resolved them
/// would.
fn account_all(pairs: Vec<(CapabilityResolution, Enforcement)>) -> Adjudicators {
    let mut resolutions = Resolutions::new();
    for (i, (resolution, enforcement)) in pairs.into_iter().enumerate() {
        assert!(resolutions.insert(requirement(i), enforcement, resolution).is_none());
    }
    let mut adjudicators = Adjudicators::new();
    resolutions.account_into(decision_time(), &mut adjudicators);
    adjudicators
}

#[test]
fn both_ledgers_start_at_the_bottom() {
    let adjudicators = Adjudicators::new();
    assert_eq!(adjudicators.enforced_tier(), Tier::BOTTOM);
    assert_eq!(adjudicators.advisory_tier(), Tier::BOTTOM);
}

#[test]
fn integrity_is_the_enforcing_lane() {
    let mut adjudicators = Adjudicators::new();
    adjudicators.integrity().escalate(
        Tier::T1,
        ReasonCode::UnknownCapability,
        "policy names something this build cannot evaluate".to_owned(),
        EvidenceRef::Unattributed,
    );
    assert_eq!(adjudicators.enforced_tier(), Tier::T1);
    assert_eq!(adjudicators.advisory_tier(), Tier::BOTTOM);
}

#[test]
fn an_unknown_identifier_escalates_the_enforced_ledger() {
    let mut adjudicators = Adjudicators::new();
    let unknown = Known::<CapabilityId>::unresolved("tetss-pass", UnknownKind::Capability, EvidenceRef::Unattributed);

    assert!(unknown.get(adjudicators.integrity()).is_none());

    let (enforced, advisory) = adjudicators.finish();
    assert_eq!(enforced.tier(), Tier::TOP);
    assert_eq!(enforced.verdict(), Verdict::Human);
    assert_eq!(advisory.tier(), Tier::BOTTOM);
    assert_eq!(advisory.count(), 0);
}

#[test]
fn an_advisory_policy_integrity_fact_still_raises_the_enforced_tier() {
    let pairs = vec![(
        CapabilityResolution::Unverified {
            reason: UnverifiedReason::UnknownCapability { id: "tetss-pass".into() },
        },
        Enforcement::Advisory,
    )];

    let (enforced, advisory) = account_all(pairs).finish();
    assert_eq!(enforced.tier(), Tier::TOP);
    assert_eq!(enforced.verdict(), Verdict::Human);
    assert_eq!(advisory.tier(), Tier::BOTTOM);

    let (deleted, _) = account_all(Vec::new()).finish();
    assert_eq!(deleted.tier(), Tier::BOTTOM);
}

#[test]
fn the_advisory_tier_is_not_the_counterfactual_on_its_own() {
    let pairs = vec![
        (waiver(), Enforcement::Enforcing),
        (
            CapabilityResolution::Ran { evidence: measured(), judgement: Judgement::Satisfied },
            Enforcement::Advisory,
        ),
    ];

    let (enforced, advisory) = account_all(pairs).finish();

    assert_eq!(enforced.tier(), Tier::T1);
    assert_eq!(advisory.tier(), Tier::BOTTOM, "the advisory lane saw only a satisfied requirement");
    assert_eq!(
        enforced.tier().join(advisory.tier()),
        Tier::T1,
        "the counterfactual is the join of the two, and it is never below `tier`"
    );
}

#[test]
fn the_advisory_ledger_records_what_it_did_not_enforce() {
    let pairs = vec![(
        CapabilityResolution::Ran {
            evidence: measured(),
            judgement: Judgement::Violated { detail: "2 failures".into() },
        },
        Enforcement::Advisory,
    )];

    let (enforced, advisory) = account_all(pairs).finish();
    assert_eq!(enforced.tier(), Tier::BOTTOM);
    assert!(enforced.adjudication().escalations.is_empty());
    assert_eq!(advisory.tier(), Tier::TOP);
    assert_eq!(advisory.count(), 1);
    assert_eq!(advisory.raising().len(), 1);
    assert_eq!(advisory.escalations()[0].reason, ReasonCode::CapabilityViolated);
}

#[test]
fn the_counterfactual_tier_is_the_join_of_the_two_fields() {
    let mut adjudicators = Adjudicators::new();
    adjudicators.integrity().escalate(
        Tier::T1,
        ReasonCode::RuleTierAtLeast,
        "rule `core-unsafe` requires T1".to_owned(),
        EvidenceRef::Unattributed,
    );
    let mut resolutions = Resolutions::new();
    assert!(resolutions
        .insert(
            requirement(0),
            Enforcement::Advisory,
            CapabilityResolution::Ran {
                evidence: measured(),
                judgement: Judgement::Violated { detail: "3 mutants survived".into() },
            },
        )
        .is_none());
    resolutions.account_into(decision_time(), &mut adjudicators);
    let (enforced, advisory) = adjudicators.finish();
    let core = BundleCore::new(
        "vc_test".into(),
        "getkono/kono".into(),
        Some(412),
        "9f3c".into(),
        "master".into(),
        "1a77".into(),
        vec![RiskFlagId::new("unsafe")],
        vec![(CapabilityId::new("tests-pass"), ResolutionState::Adopt)],
        "blake3:7c1e".into(),
        &enforced,
        &advisory,
    );
    assert_eq!(core.tier, Tier::T1);
    assert_eq!(core.advisory_tier, Tier::T2);
    assert_eq!(core.tier.join(core.advisory_tier), Tier::T2);
    assert!(core.tier.join(core.advisory_tier) >= core.tier);
}

#[test]
fn enforcement_names_its_wire_form() {
    assert_eq!(Enforcement::Enforcing.as_str(), "enforcing");
    assert_eq!(Enforcement::Advisory.as_str(), "advisory");
}

// --- the lattice -----------------------------------------------------------------------

#[test]
fn empty_evidence_is_bottom_not_a_safety_claim() {
    assert_eq!(Tier::most_scrutiny(&[]), Tier::T0);
}

#[test]
fn exit_code_one_is_reserved_for_tool_failure() {
    for tier in [Tier::T0, Tier::T1, Tier::T2] {
        assert_ne!(tier.exit_code(), 1);
    }
}

// --- where things are --------------------------------------------------------------------

#[test]
fn renders_the_way_an_editor_expects() {
    let loc = Location::file("crates/core/src/ring.rs").at_lines(LineRange::single(88));
    assert_eq!(loc.to_string(), "crates/core/src/ring.rs:88");
}

#[test]
fn renders_a_span_as_a_range() {
    let loc = Location::file("a.rs").at_lines(LineRange { start: 88, end: 94 });
    assert_eq!(loc.to_string(), "a.rs:88-94");
}

#[test]
fn policy_ref_renders_traceably() {
    let r = PolicyRef {
        path: ".vibe-check/policy.toml".into(),
        kind: "rule".into(),
        id: "core-unsafe".into(),
        blob_sha: Some("e41d".into()),
    };
    assert_eq!(r.to_string(), ".vibe-check/policy.toml#rule:core-unsafe@blob:e41d");
}

fn wire_kind(evidence: &EvidenceRef) -> &'static str {
    match evidence {
        EvidenceRef::Policy(_) => "policy",
        EvidenceRef::Requirement(_) => "requirement",
        EvidenceRef::Capability(_) => "capability",
        EvidenceRef::Flag { .. } => "flag",
        EvidenceRef::Crate(_) => "crate",
        EvidenceRef::Rule(_) => "rule",
        EvidenceRef::Path(_) => "path",
        EvidenceRef::Unattributed => "unattributed",
        _ => unreachable!("a variant without a wire kind"),
    }
}

const EVERY_WIRE_KIND: &[&str] = &["policy", "requirement", "capability", "flag", "crate", "rule", "path", "unattributed"];

fn every_variant() -> Vec<EvidenceRef> {
    vec![
        EvidenceRef::Policy(PolicyRef {
            path: ".vibe-check/policy.toml".into(),
            kind: "rule".into(),
            id: "core-unsafe".into(),
            blob_sha: Some("e41d".into()),
        }),
        EvidenceRef::Requirement(
            RequirementId::from_wire("req_tests-pass_0000000000000000").expect("a well-formed fixture identifier"),
        ),
        EvidenceRef::Capability(CapabilityId::new("loom-clean")),
        EvidenceRef::Flag {
            flag: RiskFlagId::new("unsafe"),
            locations: vec![Location::file("a.rs").at_lines(LineRange::single(88))],
        },
        EvidenceRef::Crate(CrateId::new("vibe-check-model")),
        EvidenceRef::Rule(RuleId::new("core-unsafe")),
        EvidenceRef::Path("crates/vibe-check-model/src/reason.rs".into()),
        EvidenceRef::Unattributed,
    ]
}

#[test]
fn every_variant_is_sampled() {
    let mut sampled: Vec<&str> = every_variant().iter().map(wire_kind).collect();
    sampled.sort_unstable();
    let mut promised = EVERY_WIRE_KIND.to_vec();
    promised.sort_unstable();
    assert_eq!(sampled, promised, "every wire `kind` needs exactly one sample in `every_variant`");
}

#[test]
fn flag_ref_summarizes_extra_locations() {
    let r = EvidenceRef::Flag {
        flag: RiskFlagId::new("unsafe"),
        locations: vec![
            Location::file("a.rs").at_lines(LineRange::single(88)),
            Location::file("b.rs").at_lines(LineRange::single(12)),
        ],
    };
    assert_eq!(r.to_string(), "flag:unsafe @ a.rs:88 (+1 more)");
}

// --- evidence --------------------------------------------------------------------------------

fn facts_with_one_pass() -> EvidenceFacts {
    EvidenceFacts {
        cases: vec![CaseOutcome {
            id: "core::tests::works".into(),
            status: CaseStatus::Pass,
            duration_ms: Some(3),
            location: None,
            retries: 0,
            message: None,
        }],
        ..EvidenceFacts::default()
    }
}

fn executed() -> Provenance {
    Provenance::Executed {
        plan_digest: "blake3:abcd".into(),
        exit_code: 0,
        started_at: Timestamp::unix_epoch(),
        duration_ms: 12,
        toolchain: "1.97.1-x86_64-unknown-linux-gnu".into(),
    }
}

#[test]
fn evidence_carries_the_parser_that_produced_it() {
    let parsed = ParsedEvidence::new(CapabilityId::new("tests-pass"), ParserId::new("junit@1"), facts_with_one_pass());
    let ev = Evidence::from_parsed(parsed, executed());
    assert_eq!(ev.capability().as_str(), "tests-pass");
    assert_eq!(ev.parser().map(ParserId::as_str), Some("junit@1"));
    assert_eq!(ev.schema(), SchemaVersion::evidence());
}

#[test]
fn a_declaration_is_not_a_measurement() {
    assert!(!Provenance::Declared {
        by: "policy#skip:macros-no-miri".into(),
        reason: "proc-macro crate forbids unsafe".into(),
    }
    .is_measured());
    assert!(executed().is_measured());
}

#[test]
fn findings_scope_to_the_changed_lines() {
    let changed = [LineRange { start: 10, end: 20 }];
    let inside = LocatedFinding {
        location: Location::file("a.rs").at_lines(LineRange::single(15)),
        severity: Severity::Warning,
        rule: None,
        message: "m".into(),
    };
    let outside = LocatedFinding {
        location: Location::file("a.rs").at_lines(LineRange::single(30)),
        severity: Severity::Warning,
        rule: None,
        message: "m".into(),
    };
    let unlocated = LocatedFinding {
        location: Location::file("a.rs"),
        severity: Severity::Warning,
        rule: None,
        message: "m".into(),
    };
    assert!(inside.is_in_scope(&changed));
    assert!(!outside.is_in_scope(&changed));
    assert!(unlocated.is_in_scope(&changed));
}

// --- forge records ---------------------------------------------------------------------------

#[test]
fn an_artifact_cannot_exist_without_bytes() {
    let meta = ArtifactMeta {
        id: 1,
        name: "vibe-check-evidence".into(),
        size_bytes: 3,
        expired: false,
        run: RunRef { id: 7, attempt: 1 },
        head_sha: "9f3c".into(),
        head_repo: None,
        created_at: Timestamp::unix_epoch(),
        digest: None,
    };
    let artifact = Artifact::new(meta, b"xml".to_vec(), "sha".into());
    assert_eq!(artifact.bytes(), b"xml");
}

// --- batches of leaves -----------------------------------------------------------------------

fn requirement_for(id: &str) -> RequirementId {
    RequirementId::from_wire(&format!("req_{id}_0000000000000000")).expect("a well-formed fixture identifier")
}

fn leaf(id: &str, lane: &str) -> Leaf {
    Leaf {
        id: LeafId::new_checked(id).expect("a well-formed fixture leaf id"),
        requirement: requirement_for(id),
        plan: ProcessPlan::new("cargo", vec!["check".to_owned()]),
        lane: LaneId::new(lane),
    }
}

#[test]
fn a_leaf_carries_its_lane_as_a_lane_id() {
    let leaf = leaf("miri-core-0", "heavy");
    let lane: LaneId = leaf.lane.clone();
    assert_eq!(lane.as_str(), "heavy");
    assert_eq!(leaf.lane, LaneId::new("heavy"));
    assert_eq!(leaf.id.as_str(), "miri-core-0");
    assert_eq!(leaf.requirement.as_str(), "req_miri-core-0_0000000000000000");
}

#[test]
fn a_batch_of_distinct_ids_is_accepted() {
    let leaves = Leaves::new(vec![leaf("a", "cheap"), leaf("b", "cheap"), leaf("c", "heavy")]).expect("distinct ids");
    assert_eq!(leaves.len(), 3);
    assert!(!leaves.is_empty());
    assert_eq!(
        leaves.as_slice().iter().map(|leaf| leaf.id.as_str()).collect::<Vec<_>>(),
        ["a", "b", "c"],
        "the batch preserves the order it was given"
    );
}

#[test]
fn a_repeated_leaf_id_is_rejected_and_named() {
    let error = Leaves::new(vec![leaf("a", "cheap"), leaf("b", "cheap"), leaf("a", "heavy")])
        .expect_err("a repeated id is not a batch");
    assert_eq!(error.id.as_str(), "a");
    assert!(
        error.to_string().contains("artifact-name suffix"),
        "the message says why a duplicate is not a merge: {}",
        error.to_string()
    );
}

#[test]
fn duplicate_detection_reads_the_id_and_nothing_else() {
    let mut second = leaf("shared", "heavy");
    second.requirement = requirement_for("something-else");
    second.plan = ProcessPlan::new("miri", vec!["test".to_owned()]);
    let error = Leaves::new(vec![leaf("shared", "cheap"), second])
        .expect_err("differing elsewhere does not make two ids distinct");
    assert_eq!(error.id.as_str(), "shared");

    let a = leaf("a", "cheap");
    let mut b = leaf("b", "cheap");
    b.requirement = a.requirement.clone();
    b.plan = a.plan.clone();
    assert!(Leaves::new(vec![a, b]).is_ok(), "only the id decides whether two leaves collide");
}

#[test]
fn the_first_repetition_is_the_one_reported() {
    let error = Leaves::new(vec![leaf("a", "cheap"), leaf("b", "cheap"), leaf("b", "cheap"), leaf("a", "cheap")])
        .expect_err("two repetitions are still a rejection");
    assert_eq!(error.id.as_str(), "b", "the error names the first collision, in batch order");
}

#[test]
fn an_empty_batch_is_well_formed() {
    let leaves = Leaves::new(Vec::new()).expect("an empty batch has no duplicates");
    assert!(leaves.is_empty());
    assert_eq!(leaves.len(), 0);
}

#[test]
fn try_from_is_the_same_check() {
    assert!(Leaves::try_from(vec![leaf("a", "cheap")]).is_ok());
    assert_eq!(
        Leaves::try_from(vec![leaf("a", "cheap"), leaf("a", "cheap")])
            .expect_err("still rejected through TryFrom")
            .id
            .as_str(),
        "a"
    );
}

#[test]
fn the_two_variants_are_not_equal() {
    let completed = Dispatch::Completed { leaf_ids: Vec::new(), panicked: Vec::new() };
    let deferred = Dispatch::Deferred { payload: String::new() };
    assert_ne!(completed, deferred);
}

#[test]
fn the_most_scrutiny_does_not_depend_on_arrival_order() {
    let forward = [Tier::T1, Tier::T2, Tier::T0];
    let backward = [Tier::T0, Tier::T2, Tier::T1];
    assert_eq!(Tier::most_scrutiny(&forward), Tier::most_scrutiny(&backward));
    assert_eq!(Tier::most_scrutiny(&forward), Tier::T2);
}

#[test]
fn failures_are_the_cases_that_did_not_pass() {
    let case = |id: &str, status: CaseStatus| CaseOutcome {
        id: id.into(),
        status,
        duration_ms: None,
        location: None,
        retries: 0,
        message: None,
    };
    let facts = EvidenceFacts {
        cases: vec![
            case("a", CaseStatus::Pass),
            case("b", CaseStatus::Fail),
            case("c", CaseStatus::Skip),
            case("d", CaseStatus::Error),
            case("e", CaseStatus::Timeout),
        ],
        ..EvidenceFacts::default()
    };
    let ids: Vec<&str> = facts.failures().iter().map(|c| c.id.as_str()).collect();
    assert_eq!(ids, ["b", "c", "d", "e"]);
}
