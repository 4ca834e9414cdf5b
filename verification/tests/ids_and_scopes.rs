use vibe_check::ids::{CapabilityId, CrateId, LeafId, LeafIdError, RequirementId, RequirementIdError, RiskFlagId};
use vibe_check::scope::{RequirementScope, ScopeError};

fn scope(crates: &[&str], paths: &[&str]) -> Result<RequirementScope, ScopeError> {
    RequirementScope::new(
        crates.iter().map(|c| CrateId::new(c)).collect(),
        paths.iter().map(|p| (*p).to_owned()).collect(),
    )
}

#[test]
fn orders_lexicographically_for_stable_output() {
    let mut ids = [
        CapabilityId::new("tests-pass"),
        CapabilityId::new("api-diff-empty"),
        CapabilityId::new("mutants-in-diff-killed"),
    ];
    ids.sort();
    assert_eq!(
        ids.iter().map(CapabilityId::as_str).collect::<Vec<_>>(),
        ["api-diff-empty", "mutants-in-diff-killed", "tests-pass"]
    );
}

#[test]
fn debug_names_the_identifier_kind() {
    assert_eq!(format!("{:?}", RiskFlagId::new("unsafe")), r#"RiskFlagId("unsafe")"#);
    assert_eq!(RiskFlagId::new("unsafe").to_string(), "unsafe");
}

#[test]
fn accepts_the_ids_the_planner_mints() {
    let long = "a".repeat(64);
    for id in ["a", "0", "miri-core-0", "tests.workspace", "api_diff", "z9", long.as_str()] {
        let leaf = LeafId::new_checked(id).expect("a well-formed leaf id");
        assert_eq!(leaf.as_str(), id);
        assert_eq!(leaf.to_string(), id);
    }
}

#[test]
fn rejects_what_would_not_survive_the_four_hops() {
    let long = "a".repeat(65);
    for bad in [
        "",
        "Miri-core-0",
        "-leading",
        ".leading",
        "_leading",
        "a/b",
        "../../etc/passwd",
        "..",
        "a b",
        "$(rm -rf /)",
        "a\\nb",
        "café",
        long.as_str(),
    ] {
        assert!(LeafId::new_checked(bad).is_err(), "{bad:?} must not be a leaf id");
    }
}

#[test]
fn an_error_names_the_rule_that_failed() {
    assert_eq!(LeafId::new_checked(""), Err(LeafIdError::Empty));
    assert_eq!(LeafId::new_checked("-x"), Err(LeafIdError::BadLeadingCharacter { found: '-' }));
    assert_eq!(LeafId::new_checked("a/b"), Err(LeafIdError::DisallowedCharacter { at: 1, found: '/' }));
    assert_eq!(LeafId::new_checked(&"a".repeat(65)), Err(LeafIdError::TooLong { len: 65 }));
    assert!(LeafId::new_checked("a/b").expect_err("rejected").to_string().contains("at byte 1"));
    assert_eq!(
        LeafIdError::DisallowedCharacter { at: 1, found: '/' }.to_string(),
        "a leaf id may contain only lowercase letters, digits, `.`, `_`, and `-`; found '/' at byte 1"
    );
}

#[test]
fn the_debug_form_names_the_leaf_id() {
    let id = LeafId::new_checked("miri-core-0").expect("valid");
    assert_eq!(format!("{id:?}"), r#"LeafId("miri-core-0")"#);
}

#[test]
fn a_requirement_id_is_read_back_by_shape() {
    assert!(RequirementId::from_wire("req_tests-pass_0123456789abcdef").is_ok());
    assert_eq!(
        RequirementId::from_wire("tests-pass_0123456789abcdef"),
        Err(RequirementIdError::MissingPrefix { got: "tests-pass_0123456789abcdef".into() })
    );
    assert_eq!(
        RequirementId::from_wire("req_testspass"),
        Err(RequirementIdError::MissingDigest { got: "req_testspass".into() })
    );
    assert_eq!(
        RequirementId::from_wire("req_tests-pass_all"),
        Err(RequirementIdError::MalformedDigest { got: "all".into() })
    );
    assert_eq!(
        RequirementId::from_wire("req_Tests_0123456789abcdef"),
        Err(RequirementIdError::DisallowedCharacter { got: "Tests".into(), at: 0, found: 'T' })
    );
    assert_eq!(
        RequirementIdError::MissingPrefix { got: "x".into() }.to_string(),
        "a requirement id must start with `req_`, got \"x\""
    );
}

#[test]
fn accepts_the_scopes_a_policy_writes() {
    let scope = scope(&["kono-core", "@workspace"], &["crates/kono-core/src/lib.rs", "ci"]).expect("a well-formed scope");
    assert_eq!(
        scope.crates().iter().map(CrateId::as_str).collect::<Vec<_>>(),
        ["@workspace", "kono-core"]
    );
    assert_eq!(scope.paths(), ["ci", "crates/kono-core/src/lib.rs"]);
    assert!(!scope.is_empty());
}

#[test]
fn paths_come_out_component_by_component() {
    let scope = scope(&[], &["f-", "f/a", "f"]).expect("a well-formed scope");
    assert_eq!(scope.paths(), ["f", "f/a", "f-"]);
    assert_eq!(scope.to_string(), "f, f/a, f-");
}

#[test]
fn the_empty_scope_is_the_whole_repository() {
    let everything = RequirementScope::everything();
    assert!(everything.is_empty());
    assert_eq!(everything.to_string(), "<whole repository>");
    assert_eq!(scope(&[], &[]).expect("valid"), everything);
}

#[test]
fn a_scope_renders_its_members_for_diagnostics() {
    assert_eq!(scope(&["b", "a"], &["x"]).expect("valid").to_string(), "a, b, x");
}

#[test]
fn a_traversing_path_is_an_error_not_a_rewrite() {
    let error = scope(&[], &["foo/../bar"]).expect_err("must be rejected");
    assert_eq!(error, ScopeError::NotNormalized { path: "foo/../bar".into() });
}

#[test]
fn each_rejected_shape_names_its_own_rule() {
    assert_eq!(scope(&[], &[""]).expect_err("empty path"), ScopeError::EmptyPath);
    assert_eq!(
        scope(&[], &["./src"]).expect_err("leading ./"),
        ScopeError::LeadingCurrentDirectory { path: "./src".into(), suggestion: "src".to_owned() }
    );
    assert_eq!(scope(&[], &["src/"]).expect_err("trailing slash"), ScopeError::TrailingSlash { path: "src/".into() });
    for bad in [".", "..", "/etc/passwd", "a//b", "a/./b", "a/.."] {
        assert!(scope(&[], &[bad]).is_err(), "{bad:?} must not be a scope path");
    }
    assert_eq!(scope(&[""], &[]).expect_err("empty crate"), ScopeError::EmptyCrate);
    assert_eq!(
        ScopeError::TrailingSlash { path: "src/".into() }.to_string(),
        "a scope path must not end with `/`, found \"src/\""
    );
}

#[test]
fn a_separator_cannot_be_smuggled_in_as_data() {
    assert_eq!(
        scope(&["a\u{1f}b"], &[]).expect_err("control character"),
        ScopeError::ControlCharacter { text: "a\u{1f}b".to_owned(), at: 1, found: '\u{1f}' }
    );
    assert!(scope(&[], &["a\u{1e}b"]).is_err());
    assert!(scope(&[], &["a\nb"]).is_err());
    assert_eq!(
        scope(&["é\u{7}"], &[]).expect_err("control character"),
        ScopeError::ControlCharacter { text: "é\u{7}".to_owned(), at: 2, found: '\u{7}' },
        "the offset is in bytes"
    );
}

#[test]
fn insertion_order_and_duplicates_do_not_reach_the_encoding() {
    let one = scope(&["b", "a", "b"], &["y", "x"]).expect("valid");
    let other = scope(&["a", "b"], &["x", "y", "x"]).expect("valid");
    assert_eq!(one, other);
    let cap = CapabilityId::new("tests-pass");
    assert_eq!(RequirementId::derive(&cap, &one), RequirementId::derive(&cap, &other));
}

#[test]
fn the_encoding_distinguishes_the_two_sets() {
    let as_crates = scope(&["a", "b"], &[]).expect("valid");
    let split = scope(&["a"], &["b"]).expect("valid");
    let cap = CapabilityId::new("tests-pass");
    assert_ne!(RequirementId::derive(&cap, &as_crates), RequirementId::derive(&cap, &split));
}

#[test]
fn a_derived_identifier_is_the_documented_digest() {
    let cap = CapabilityId::new("Tests_Pass");
    let sc = scope(&["kono-core"], &["ci"]).expect("valid");
    let id = RequirementId::derive(&cap, &sc);
    let expected = blake3::hash("Tests_Pass\u{1e}kono-core\u{1e}ci".as_bytes()).to_hex();
    assert_eq!(id.as_str(), format!("req_tests-pass_{}", &expected.as_str()[..16]));
    assert!(RequirementId::from_wire(id.as_str()).is_ok(), "a derived identifier reads back");
    let everything = RequirementId::derive(&CapabilityId::new("miri-clean"), &RequirementScope::everything());
    let expected = blake3::hash("miri-clean\u{1e}\u{1e}".as_bytes()).to_hex();
    assert_eq!(everything.as_str(), format!("req_miri-clean_{}", &expected.as_str()[..16]));
}

#[test]
fn try_from_is_the_only_other_way_in() {
    assert_eq!(LeafId::try_from("ok-1").expect("valid").as_str(), "ok-1");
    assert_eq!(LeafId::try_from("ok-1".to_owned()).expect("valid").as_str(), "ok-1");
    assert!(LeafId::try_from("NOT OK").is_err());
}

#[test]
fn a_requirement_id_is_read_through_try_from_by_the_same_check() {
    assert!(RequirementId::try_from("req_tests-pass_0000000000000000").is_ok());
    assert!(RequirementId::try_from("req_tests-pass_0000000000000000".to_owned()).is_ok());
    assert!(RequirementId::try_from("tests-pass").is_err());
}
