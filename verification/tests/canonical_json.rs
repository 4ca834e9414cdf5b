use serde_json::Value;
use vibe_check::digest::{
    bundle_id, bundle_id_excluded_paths, canonicalize, deferred_verdict_digest_paths, digest_of,
    path_resolves, path_resolves_somewhere, verdict_digest, verdict_digest_covers, verdict_digest_paths,
    CanonicalError, Digest, DigestParseError,
};
use vibe_check::json::{Json, JsonNumber};

/// The library's value for a parsed JSON document, numbers classified the way
/// serde_json classifies them.
fn from_value(v: &Value) -> Json {
    match v {
        Value::Null => Json::Null,
        Value::Bool(b) => Json::Bool(*b),
        Value::Number(n) => Json::Number(if let Some(u) = n.as_u64() {
            JsonNumber::PosInt(u)
        } else if let Some(i) = n.as_i64() {
            JsonNumber::NegInt(i)
        } else {
            JsonNumber::Double(n.to_string())
        }),
        Value::String(s) => Json::String(s.clone()),
        Value::Array(items) => Json::Array(items.iter().map(from_value).collect()),
        Value::Object(map) => Json::Object(map.iter().map(|(k, v)| (k.clone(), from_value(v))).collect()),
    }
}

fn parse(text: &str) -> Json {
    from_value(&serde_json::from_str::<Value>(text).expect("parse"))
}

fn obj(members: Vec<(&str, Json)>) -> Json {
    Json::Object(members.into_iter().map(|(k, v)| (k.to_owned(), v)).collect())
}

fn num(n: u64) -> Json {
    Json::Number(JsonNumber::PosInt(n))
}

fn text(s: &str) -> Json {
    Json::String(s.to_owned())
}

/// A serialized bundle in which every path on the verdict inclusion list is
/// populated, including the optional ones.
fn bundle_value() -> Value {
    serde_json::from_str(
        r#"{
          "schema_version": 1,
          "core": {
            "bundle_id": "vc_test",
            "repo": "getkono/kono",
            "pr": 412,
            "head_sha": "9f3c",
            "base_ref": "master",
            "merge_base_sha": "1a77",
            "tier": "T1",
            "verdict": "review",
            "advisory_tier": "T2",
            "flag_ids": ["unsafe"],
            "capability_states": { "tests-pass": "adopt" },
            "verdict_digest": "blake3:7c1e"
          },
          "generator": {
            "name": "vibe-check",
            "version": "0.1.0",
            "git_sha": "cafe",
            "registry_digest": "blake3:0f22"
          },
          "adjudication": {
            "tier": "T1",
            "verdict": "review",
            "escalations": [
              { "from": "T0", "to": "T1", "reason": "rule_tier_at_least",
                "detail": "rule `core-unsafe` requires T1",
                "evidence": { "flag": "unsafe", "locations": [ { "path": "crates/core/src/ring.rs" } ] } },
              { "from": "T1", "to": "T1", "reason": "unknown_capability",
                "detail": "policy names a capability this build does not register",
                "evidence": { "capability": "mutants-in-diff-killed" } },
              { "from": "T1", "to": "T1", "reason": "declared_skip",
                "detail": "policy waives this for generated code",
                "evidence": { "policy": { "path": ".vibe-check/policy.toml", "kind": "skip", "id": "generated-api" } } }
            ]
          },
          "advisory_escalations": [
            { "from": "T0", "to": "T1", "reason": "adoption_stale",
              "detail": "the adopted artifact predates the merge base",
              "evidence": { "crate": "kono-net" } },
            { "from": "T1", "to": "T2", "reason": "capability_violated",
              "detail": "`mutants-in-diff-killed` failed: 3 mutants survived",
              "evidence": "unattributed" }
          ],
          "confidence": { "requirements": 3, "capabilities": 1, "run": 1, "adopted": 1, "unverified": 1 }
        }"#,
    )
    .expect("a well-formed fixture")
}

fn bundle() -> Json {
    from_value(&bundle_value())
}

// --- RFC 8785 ---------------------------------------------------------------

#[test]
fn jcs_orders_keys_by_utf16_code_unit_not_by_code_point() {
    let value = obj(vec![("\u{e000}", num(1)), ("\u{10000}", num(2))]);
    assert_eq!(
        canonicalize(&value).expect("canonicalize"),
        "{\"\u{10000}\":2,\"\u{e000}\":1}",
        "the supplementary character leads a private-use BMP character"
    );
    let mut map = serde_json::Map::new();
    map.insert("\u{e000}".to_owned(), Value::from(1));
    map.insert("\u{10000}".to_owned(), Value::from(2));
    let naive = serde_json::to_string(&Value::Object(map)).expect("serialize");
    assert_ne!(naive, canonicalize(&value).expect("canonicalize"));
}

#[test]
fn jcs_orders_bmp_keys_the_ordinary_way() {
    let value = obj(vec![("b", num(1)), ("A", num(2)), ("a", num(3)), ("\u{00e9}", num(4))]);
    assert_eq!(
        canonicalize(&value).expect("canonicalize"),
        "{\"A\":2,\"a\":3,\"b\":1,\"\u{00e9}\":4}"
    );
}

#[test]
fn jcs_emits_no_whitespace_and_preserves_array_order() {
    let value = parse("  { \"z\" : [ 3 , 1 , 2 ] ,\n \"a\" : null }  ");
    assert_eq!(canonicalize(&value).expect("canonicalize"), "{\"a\":null,\"z\":[3,1,2]}");
}

#[test]
fn jcs_escapes_the_way_json_stringify_does() {
    let value = obj(vec![("k", text("a\"b\\c\u{08}\u{09}\u{0a}\u{0c}\u{0d}\u{01}é/"))]);
    assert_eq!(
        canonicalize(&value).expect("canonicalize"),
        "{\"k\":\"a\\\"b\\\\c\\b\\t\\n\\f\\r\\u0001é/\"}"
    );
}

#[test]
fn a_float_is_refused_with_its_path() {
    let err = canonicalize(&parse("{ \"a\": { \"b\": [0, 1.5] } }")).expect_err("must refuse");
    assert_eq!(err, CanonicalError::Float { path: "/a/b/1".to_owned() });
}

#[test]
fn an_integer_beyond_the_ecmascript_safe_range_is_refused() {
    let err = canonicalize(&obj(vec![("n", num(9_007_199_254_740_992))])).expect_err("must refuse");
    assert!(matches!(err, CanonicalError::IntegerNotExact { .. }));
    assert!(canonicalize(&obj(vec![("n", num(9_007_199_254_740_991))])).is_ok());
}

#[test]
fn a_whole_number_written_as_a_double_is_refused_and_says_why() {
    for written in ["-0", "1e10", "1.0"] {
        let v = parse(&format!("{{\"n\":{written}}}"));
        let err = canonicalize(&v).expect_err("must refuse");
        assert!(matches!(err, CanonicalError::Float { .. }), "{written} should be refused as a double");
        let msg = err.to_string();
        assert!(!msg.contains("non-integer"), "the message must name the written form, not the value: {msg}");
        assert!(msg.contains("double"), "{msg}");
    }
    assert_eq!(
        canonicalize(&parse("{\"n\":10000000000}")).expect("canonicalize"),
        "{\"n\":10000000000}"
    );
}

#[test]
fn a_refusal_at_the_root_names_the_root() {
    let err = canonicalize(&Json::Number(JsonNumber::Double("1.5".to_owned()))).expect_err("must refuse");
    assert_eq!(err, CanonicalError::Float { path: "/".to_owned() });
    let err = canonicalize(&Json::Number(JsonNumber::NegInt(-9_007_199_254_740_992))).expect_err("must refuse");
    assert_eq!(err, CanonicalError::IntegerNotExact { path: "/".to_owned() });
    assert!(err.to_string().starts_with("the integer at `/` is outside"));
}

#[test]
fn the_first_refusal_in_key_order_is_the_one_reported() {
    let value = obj(vec![("b", Json::Number(JsonNumber::Double("2.5".to_owned()))), ("a", num(u64::MAX))]);
    assert_eq!(
        canonicalize(&value).expect_err("must refuse"),
        CanonicalError::IntegerNotExact { path: "/a".to_owned() }
    );
}

#[test]
fn scalars_and_nesting_are_written_compactly() {
    let value = Json::Array(vec![
        Json::Null,
        Json::Bool(true),
        Json::Bool(false),
        Json::Number(JsonNumber::NegInt(-12)),
        obj(vec![]),
        Json::Array(vec![]),
        text(""),
    ]);
    assert_eq!(canonicalize(&value).expect("canonicalize"), "[null,true,false,-12,{},[],\"\"]");
}

#[test]
fn equal_keys_keep_the_order_they_were_written_in() {
    let value = obj(vec![("k", num(2)), ("j", num(0)), ("k", num(1))]);
    assert_eq!(canonicalize(&value).expect("canonicalize"), "{\"j\":0,\"k\":2,\"k\":1}");
}

// --- the path lists -----------------------------------------------------------

#[test]
fn every_live_inclusion_path_resolves() {
    let value = bundle();
    for p in verdict_digest_paths() {
        assert!(path_resolves(&value, p.path), "`{}` resolves to nothing in a fully populated bundle", p.path);
    }
}

#[test]
fn the_two_quantifiers_differ_where_it_matters() {
    let mixed = parse("{ \"evidence\": [ { \"provenance\": { \"exit_code\": 0 } }, { \"provenance\": {} } ] }");
    assert!(path_resolves_somewhere(&mixed, "evidence/[]/provenance/exit_code"));
    assert!(!path_resolves(&mixed, "evidence/[]/provenance/exit_code"));
    let empty = parse("{ \"evidence\": [] }");
    assert!(!path_resolves(&empty, "evidence/[]/provenance/exit_code"));
    assert!(!path_resolves_somewhere(&empty, "evidence/[]/provenance/exit_code"));
}

#[test]
fn a_path_resolving_everywhere_resolves_somewhere() {
    let value = bundle();
    for p in verdict_digest_paths() {
        assert!(path_resolves(&value, p.path));
        assert!(path_resolves_somewhere(&value, p.path));
    }
    assert!(path_resolves(&value, ""), "the empty path is the document itself");
    assert!(!path_resolves(&value, "core/no_such_field"));
}

#[test]
fn no_exclusion_path_ends_in_an_array_segment() {
    for p in bundle_id_excluded_paths() {
        assert!(!p.path.ends_with("[]"), "`{}` ends in an array segment, which excludes nothing", p.path);
    }
}

#[test]
fn no_deferred_path_resolves_yet() {
    let value = bundle();
    for p in deferred_verdict_digest_paths() {
        assert!(!path_resolves_somewhere(&value, p.path), "`{}` now exists on the bundle", p.path);
    }
}

#[test]
fn every_path_entry_carries_a_reason_and_appears_once() {
    let mut seen = std::collections::BTreeSet::new();
    for p in verdict_digest_paths().into_iter().chain(deferred_verdict_digest_paths()) {
        assert!(!p.path.is_empty());
        assert!(p.reason.len() > 20, "`{}` has no real reason attached", p.path);
        assert!(seen.insert(p.path), "`{}` appears twice across the live and deferred lists", p.path);
    }
    let mut excluded = std::collections::BTreeSet::new();
    for p in bundle_id_excluded_paths() {
        assert!(p.reason.len() > 20, "`{}` has no reason", p.path);
        assert!(excluded.insert(p.path), "`{}` appears twice", p.path);
    }
}

#[test]
fn no_live_inclusion_path_is_a_prefix_of_another() {
    let paths = verdict_digest_paths();
    for a in &paths {
        for b in &paths {
            if a.path == b.path {
                continue;
            }
            assert!(!b.path.starts_with(&format!("{}/", a.path)), "`{}` is a prefix of `{}`", a.path, b.path);
        }
    }
}

#[test]
fn the_two_self_referential_core_fields_are_off_the_verdict_list() {
    assert!(verdict_digest_covers("core/verdict_digest").is_none());
    assert!(verdict_digest_covers("core/bundle_id").is_none());
    assert!(verdict_digest_covers("core/tier").is_some());
}

#[test]
fn the_covered_reason_is_the_listed_one() {
    let listed = verdict_digest_paths().into_iter().find(|p| p.path == "confidence").expect("listed");
    assert_eq!(verdict_digest_covers("confidence"), Some(listed.reason));
    assert_eq!(verdict_digest_covers("confidence/run"), None);
}

// --- what each digest is sensitive to -------------------------------------------

fn verdict(v: &Value) -> Digest {
    verdict_digest(&from_value(v)).expect("digest")
}

fn identity(v: &Value) -> Digest {
    bundle_id(&from_value(v)).expect("digest")
}

#[test]
fn the_verdict_digest_is_stable_across_runs() {
    let a = verdict(&bundle_value());
    let b = verdict(&bundle_value());
    assert_eq!(a, b);
    assert!(a.as_str().starts_with(Digest::PREFIX));
    assert_eq!(a.as_str().len(), Digest::PREFIX.len() + 64);
}

#[test]
fn changing_an_included_field_changes_the_verdict_digest() {
    let base = verdict(&bundle_value());

    let mut b = bundle_value();
    b["core"]["tier"] = Value::from("T3");
    assert_ne!(verdict(&b), base, "core/tier");

    let mut b = bundle_value();
    b["confidence"]["unverified"] = Value::from(2);
    assert_ne!(verdict(&b), base, "confidence");

    let mut b = bundle_value();
    b["adjudication"]["escalations"][0]["reason"] = Value::from("capability_unverified");
    assert_ne!(verdict(&b), base, "escalations[].reason");

    let mut b = bundle_value();
    b["adjudication"]["escalations"][0]["evidence"] = Value::from("unattributed");
    assert_ne!(verdict(&b), base, "escalations[].evidence");

    let mut b = bundle_value();
    b["advisory_escalations"][0]["from"] = Value::from("T2");
    assert_ne!(verdict(&b), base, "advisory_escalations[].from");

    let mut b = bundle_value();
    b["core"]["capability_states"]["mutants"] = Value::from("unverified");
    assert_ne!(verdict(&b), base, "core/capability_states");
}

#[test]
fn changing_an_excluded_field_does_not_change_the_verdict_digest() {
    let base = verdict(&bundle_value());

    let mut b = bundle_value();
    b["generator"]["version"] = Value::from("9.9.9");
    b["generator"]["git_sha"] = Value::from("deadbeef");
    assert_eq!(verdict(&b), base, "cutting a release must not invalidate the replay corpus");

    let mut b = bundle_value();
    b["generator"]["registry_digest"] = Value::from("blake3:ffff");
    assert_eq!(verdict(&b), base, "registering an analyzer is not a change to this adjudication");

    let mut b = bundle_value();
    b["adjudication"]["escalations"][0]["detail"] = Value::from("/tmp/.tmpXYZ/target/nextest");
    assert_eq!(verdict(&b), base, "free text can carry a path that differs between two runs");

    let mut b = bundle_value();
    b["core"]["verdict_digest"] = Value::from("blake3:whatever");
    b["core"]["bundle_id"] = Value::from("vc_other");
    assert_eq!(verdict(&b), base, "a digest cannot cover itself");

    let mut b = bundle_value();
    b["perf"] = serde_json::from_str("{ \"benchmarks\": [] }").expect("parse");
    assert_eq!(verdict(&b), base, "extensions");
}

#[test]
fn the_bundle_id_covers_what_the_verdict_digest_deliberately_drops() {
    let base = identity(&bundle_value());

    let mut b = bundle_value();
    b["generator"]["version"] = Value::from("9.9.9");
    assert_ne!(identity(&b), base, "generator/version");

    let mut b = bundle_value();
    b["generator"]["registry_digest"] = Value::from("blake3:ffff");
    assert_ne!(identity(&b), base, "generator/registry_digest");

    let mut b = bundle_value();
    b["perf"] = serde_json::from_str("{ \"benchmarks\": [] }").expect("parse");
    assert_ne!(identity(&b), base, "extensions");

    let mut b = bundle_value();
    b["adjudication"]["escalations"][0]["detail"] = Value::from("something else");
    assert_ne!(identity(&b), base, "escalations[].detail");
}

#[test]
fn the_bundle_id_ignores_only_itself() {
    let base = identity(&bundle_value());
    let mut b = bundle_value();
    b["core"]["bundle_id"] = Value::from("anything at all");
    assert_eq!(identity(&b), base, "a content address cannot contain itself");

    let mut b = bundle_value();
    b["core"]["verdict_digest"] = Value::from("blake3:ffff");
    assert_ne!(identity(&b), base, "the verdict digest is content");
}

#[test]
fn the_two_digests_are_not_the_same_value() {
    let b = bundle_value();
    assert_ne!(verdict(&b).as_str(), identity(&b).as_str());
}

#[test]
fn a_float_in_extensions_fails_bundle_id_rather_than_digesting_silently() {
    let mut b = bundle_value();
    b["perf"] = serde_json::from_str("{ \"p99_ms\": 12.5 }").expect("parse");
    assert!(matches!(bundle_id(&from_value(&b)), Err(CanonicalError::Float { .. })));
    assert!(verdict_digest(&from_value(&b)).is_ok(), "extensions are off the verdict inclusion list");
}

#[test]
fn the_verdict_digest_is_the_digest_of_the_projection() {
    // Only the covered paths survive: here, only `schema_version` and a
    // part of `core`.
    let doc = parse("{ \"schema_version\": 1, \"core\": { \"tier\": \"T1\", \"bundle_id\": \"x\" }, \"other\": 5 }");
    let projected = parse("{ \"schema_version\": 1, \"core\": { \"tier\": \"T1\" } }");
    assert_eq!(
        verdict_digest(&doc).expect("digest"),
        digest_of(&projected).expect("digest")
    );
    let pruned = parse("{ \"schema_version\": 1, \"core\": { \"tier\": \"T1\" }, \"other\": 5 }");
    assert_eq!(bundle_id(&doc).expect("digest"), digest_of(&pruned).expect("digest"));
}

#[test]
fn the_digest_is_blake3_over_the_canonical_text() {
    let value = parse("{ \"b\": [1, 2], \"a\": \"x\" }");
    let canonical = canonicalize(&value).expect("canonicalize");
    assert_eq!(canonical, "{\"a\":\"x\",\"b\":[1,2]}");
    let expected = format!("blake3:{}", blake3::hash(canonical.as_bytes()).to_hex());
    assert_eq!(digest_of(&value).expect("digest").as_str(), expected);
}

#[test]
fn the_key_order_of_the_source_text_does_not_reach_the_digest() {
    let ascending = obj(vec![("a", num(1)), ("b", num(2)), ("c", num(3))]);
    let descending = obj(vec![("c", num(3)), ("b", num(2)), ("a", num(1))]);
    assert_eq!(digest_of(&ascending).expect("digest"), digest_of(&descending).expect("digest"));
}

#[test]
fn projection_never_invents_a_path() {
    // Items without `from` stay without it in the projection.
    let doc = parse("{ \"adjudication\": { \"escalations\": [ { \"to\": \"T1\" }, { \"from\": \"T0\", \"to\": \"T1\" } ] } }");
    assert!(!path_resolves(&doc, "adjudication/escalations/[]/from"));
    let projected = parse("{ \"adjudication\": { \"escalations\": [ { \"to\": \"T1\" }, { \"from\": \"T0\", \"to\": \"T1\" } ] } }");
    assert_eq!(verdict_digest(&doc).expect("digest"), digest_of(&projected).expect("digest"));
}

// --- Digest ---------------------------------------------------------------------

#[test]
fn a_digest_round_trips_through_its_rendered_form() {
    let d = verdict(&bundle_value());
    let parsed: Digest = d.as_str().parse().expect("parse");
    assert_eq!(parsed, d);
    assert_eq!(d.clone().into_string(), d.to_string());
}

#[test]
fn a_digest_that_is_not_one_is_refused() {
    assert!("7c1e".parse::<Digest>().is_err());
    assert!("blake3:7c1e".parse::<Digest>().is_err());
    assert!(format!("blake3:{}", "A".repeat(64)).parse::<Digest>().is_err());
    assert!(format!("blake3:{}", "0".repeat(64)).parse::<Digest>().is_ok());
}

#[test]
fn each_parse_refusal_names_its_kind() {
    let e = Digest::parse("sha256:00").expect_err("no prefix");
    assert_eq!(e, DigestParseError::Prefix("sha256:00".to_owned()));
    assert_eq!(e.to_string(), "digest `sha256:00` does not start with `blake3:`");
    let e = Digest::parse("blake3:7c1e").expect_err("short body");
    assert_eq!(e, DigestParseError::Body("blake3:7c1e".to_owned()));
    assert_eq!(e.to_string(), "digest `blake3:7c1e` body is not 64 lowercase hexadecimal characters");
    assert!(Digest::parse(&format!("blake3:{}g", "0".repeat(63))).is_err());
}

#[test]
fn canonical_text_reparses_to_the_same_canonical_text() {
    let written = r#"{ "z": [1, -2, {"b": "\u00e9\n", "a": null}], "a": true, "é": "x", "m": {} }"#;
    let once = canonicalize(&parse(written)).expect("canonicalize");
    let twice = canonicalize(&parse(&once)).expect("canonicalize");
    assert_eq!(once, twice);
    let pretty = serde_json::to_string_pretty(&serde_json::from_str::<Value>(written).expect("parse")).expect("pretty");
    assert_eq!(digest_of(&parse(&pretty)).expect("digest"), digest_of(&parse(written)).expect("digest"));
}
