use vibe_check::adjudicate::enforcement::{Adjudicators, Enforcement};
use vibe_check::bundle::{BundleCore, Confidence, EvidenceBundle, Generator};
use vibe_check::ids::{CapabilityId, RiskFlagId};
use vibe_check::reason::{EvidenceRef, ReasonCode};
use vibe_check::resolution::ResolutionState;
use vibe_check::schema::SchemaVersion;
use vibe_check::tier::{Tier, Verdict};

fn bundle() -> EvidenceBundle {
    let mut adjudicators = Adjudicators::new();
    adjudicators.integrity().escalate(
        Tier::T1,
        ReasonCode::RuleTierAtLeast,
        "rule `core-unsafe` requires T1".into(),
        EvidenceRef::Unattributed,
    );
    let (enforced, advisory) = adjudicators.finish();
    EvidenceBundle {
        schema_version: SchemaVersion::bundle(),
        core: BundleCore::new(
            "vc_test".into(),
            "getkono/kono".into(),
            Some(412),
            "9f3c".into(),
            "master".into(),
            "1a77".into(),
            vec![RiskFlagId::new("unsafe")],
            vec![(CapabilityId::new("tests-pass"), ResolutionState::Adopt)],
            "blake3:7c1e".into(),
            &enforced,
            &advisory,
        ),
        generator: Generator {
            name: "vibe-check".into(),
            version: "0.1.0".into(),
            git_sha: None,
            registry_digest: "blake3:0f22".into(),
        },
        adjudication: enforced.into_adjudication(),
        advisory_escalations: advisory.into_escalations(),
        confidence: Confidence::tally(&[
            (ResolutionState::Adopt, Enforcement::Enforcing),
            (ResolutionState::Run, Enforcement::Enforcing),
            (ResolutionState::Unverified, Enforcement::Advisory),
        ]),
        extensions: Vec::new(),
    }
}

#[test]
fn the_core_takes_its_tiers_from_the_right_ledgers() {
    let core = bundle().core;
    assert_eq!(core.tier, Tier::T1);
    assert_eq!(core.verdict, Verdict::InterfaceReview);
    assert_eq!(core.advisory_tier, Tier::T0);
}

#[test]
fn a_bundle_from_the_future_is_not_readable() {
    let mut b = bundle();
    b.schema_version = SchemaVersion(99);
    assert!(!b.readable_by(SchemaVersion::bundle()));
    assert!(bundle().readable_by(SchemaVersion::bundle()));
}

#[test]
fn confidence_sentence_counts_requirements() {
    let c = Confidence::tally(&[
        (ResolutionState::Adopt, Enforcement::Enforcing),
        (ResolutionState::Adopt, Enforcement::Enforcing),
        (ResolutionState::Run, Enforcement::Enforcing),
        (ResolutionState::Unverified, Enforcement::Advisory),
    ]);
    assert_eq!(c.sentence(), "4 requirements · 1 advisory · 2 adopted · 1 run · 1 unverified");
}

#[test]
fn confidence_sentence_omits_empty_categories() {
    let c = Confidence::tally(&[(ResolutionState::Run, Enforcement::Enforcing)]);
    assert_eq!(c.sentence(), "1 requirement · 1 run");
}

#[test]
fn an_empty_tally_is_zero_requirements() {
    assert_eq!(Confidence::tally(&[]).sentence(), "0 requirements");
    assert_eq!(Confidence::tally(&[]), Confidence::default());
}

fn cap(id: &str, state: ResolutionState, enforcement: Enforcement) -> (CapabilityId, ResolutionState, Enforcement) {
    (CapabilityId::new(id), state, enforcement)
}

#[test]
fn a_capability_adopted_in_one_scope_and_unverified_in_another() {
    let resolved = [
        cap("tests-pass", ResolutionState::Adopt, Enforcement::Enforcing),
        cap("tests-pass", ResolutionState::Unverified, Enforcement::Enforcing),
    ];
    assert_eq!(
        ResolutionState::collapse_all(&resolved.iter().map(|(_, s, _)| *s).collect::<Vec<_>>()),
        Some(ResolutionState::Unverified)
    );
    let c = Confidence::tally_by_capability(&resolved);
    assert_eq!(c.requirements, 2);
    assert_eq!(c.partial, 1);
    assert_eq!(c.adopted, 1);
    assert_eq!(c.unverified, 1);
}

#[test]
fn agreeing_scopes_are_not_partial() {
    let c = Confidence::tally_by_capability(&[
        cap("tests-pass", ResolutionState::Run, Enforcement::Enforcing),
        cap("tests-pass", ResolutionState::Run, Enforcement::Enforcing),
        cap("clippy-clean", ResolutionState::Adopt, Enforcement::Advisory),
    ]);
    assert_eq!(c.partial, 0);
    assert_eq!(c.requirements, 3);
    assert_eq!(c.advisory, 1);
}

#[test]
fn the_two_tallies_agree_on_every_requirement_count() {
    let resolved = [
        cap("tests-pass", ResolutionState::Adopt, Enforcement::Enforcing),
        cap("tests-pass", ResolutionState::Unverified, Enforcement::Advisory),
        cap("clippy-clean", ResolutionState::Run, Enforcement::Enforcing),
        cap("miri-clean", ResolutionState::Skip, Enforcement::Enforcing),
    ];
    let by_capability = Confidence::tally_by_capability(&resolved);
    let flat = Confidence::tally(&resolved.iter().map(|(_, s, e)| (*s, *e)).collect::<Vec<_>>());
    assert_eq!(by_capability.requirements, flat.requirements);
    assert_eq!(by_capability.adopted, flat.adopted);
    assert_eq!(by_capability.ran, flat.ran);
    assert_eq!(by_capability.skipped, flat.skipped);
    assert_eq!(by_capability.unverified, flat.unverified);
    assert_eq!(by_capability.advisory, flat.advisory);
    assert_eq!((by_capability.partial, flat.partial), (1, 0));
}

#[test]
fn the_sentence_names_the_unit_it_counts_partial_in() {
    let c = Confidence::tally_by_capability(&[
        cap("tests-pass", ResolutionState::Adopt, Enforcement::Enforcing),
        cap("tests-pass", ResolutionState::Unverified, Enforcement::Enforcing),
    ]);
    assert_eq!(
        c.sentence(),
        "2 requirements · 1 adopted · 1 unverified · 1 capability partial across scopes"
    );
}

#[test]
fn the_two_denominators_are_never_the_same_number_when_both_appear() {
    let c = Confidence::tally_by_capability(&[
        cap("tests-pass", ResolutionState::Adopt, Enforcement::Enforcing),
        cap("tests-pass", ResolutionState::Unverified, Enforcement::Enforcing),
        cap("clippy-clean", ResolutionState::Run, Enforcement::Enforcing),
        cap("clippy-clean", ResolutionState::Skip, Enforcement::Enforcing),
    ]);
    assert_eq!((c.requirements, c.capabilities, c.partial), (4, 2, 2));
    assert_eq!(
        c.sentence(),
        "4 requirements · 1 adopted · 1 run · 1 skipped · 1 unverified · 2 capabilities partial across scopes"
    );
}

#[test]
fn the_capability_count_says_whether_partial_was_measured_at_all() {
    let not_measured = Confidence::tally(&[
        (ResolutionState::Adopt, Enforcement::Enforcing),
        (ResolutionState::Unverified, Enforcement::Enforcing),
    ]);
    assert_eq!((not_measured.capabilities, not_measured.partial), (0, 0));
    let measured_and_agreed = Confidence::tally_by_capability(&[
        cap("tests-pass", ResolutionState::Run, Enforcement::Enforcing),
        cap("clippy-clean", ResolutionState::Run, Enforcement::Enforcing),
    ]);
    assert_eq!((measured_and_agreed.capabilities, measured_and_agreed.partial), (2, 0));
    assert!(!measured_and_agreed.sentence().contains("partial"));
}

#[test]
fn several_partial_capabilities_are_pluralized() {
    let c = Confidence::tally_by_capability(&[
        cap("clippy-clean", ResolutionState::Run, Enforcement::Enforcing),
        cap("clippy-clean", ResolutionState::Skip, Enforcement::Enforcing),
        cap("tests-pass", ResolutionState::Adopt, Enforcement::Enforcing),
        cap("tests-pass", ResolutionState::Unverified, Enforcement::Enforcing),
    ]);
    assert_eq!(c.partial, 2);
    assert!(c.sentence().ends_with("2 capabilities partial across scopes"), "{}", c.sentence());
}

#[test]
fn a_bundle_can_say_nothing_that_failed_counted() {
    let mut adjudicators = Adjudicators::new();
    let mut resolutions = vibe_check::resolution::Resolutions::new();
    let _ = resolutions.insert(
        vibe_check::ids::RequirementId::from_wire("req_mutants-in-diff-killed_0000000000000000").expect("fixture"),
        Enforcement::Advisory,
        vibe_check::resolution::CapabilityResolution::Unverified {
            reason: vibe_check::resolution::UnverifiedReason::NoForge,
        },
    );
    let at = vibe_check::time::DecisionTime::from_committer_date(vibe_check::time::Timestamp::unix_epoch());
    resolutions.account_into(at, &mut adjudicators);
    let (enforced, advisory) = adjudicators.finish();
    let core = BundleCore::new(
        "vc_test".into(),
        "getkono/kono".into(),
        None,
        "9f3c".into(),
        "master".into(),
        "1a77".into(),
        Vec::new(),
        Vec::new(),
        "blake3:7c1e".into(),
        &enforced,
        &advisory,
    );
    assert_eq!(core.tier, Tier::T0);
    assert_eq!(core.verdict, Verdict::Auto);
    assert_eq!(core.advisory_tier, Tier::T2);
    assert_eq!(core.counterfactual_tier(), Tier::T2);
}
