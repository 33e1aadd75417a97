use seamctl::cli::{Cli, Command, Invocation};
use seamctl::discovery::{discover_seam_files, is_seam_record_file};
use seamctl::error::SeamError;
use seamctl::graph::{build_graph, fits_in_graph, payload_value, render_dot, require_records};
use seamctl::json::{compile_schema, load_json};
use seamctl::model::{
    ChangeProcess, CheckStatus, Checks, CompatPolicy, ContractArtifact, DataFlow, FailureBehavior,
    Logs, Observability, Owner, RolloutBackout, SeamRecord, Tracing,
};
use seamctl::policy::policy_checks;
use seamctl::text::{contains_str, ends_with_str, trims_to_empty};
use seamctl::validate::{
    default_root, default_schema_path, require_seam_files, resolve_paths, ValidationOutcome,
    ValidationRun,
};

fn s(x: &str) -> String {
    x.to_string()
}

fn check(status: &str) -> CheckStatus {
    CheckStatus { status: s(status), notes: s("") }
}

fn record(id: &str, side_a: &str, side_b: &str) -> SeamRecord {
    SeamRecord {
        id: s(id),
        title: s("Test Seam"),
        status: s("active"),
        owners: vec![Owner { name: s("Alice"), contact: s("alice@example.com"), role: s("owner") }],
        side_a: s(side_a),
        side_b: s(side_b),
        boundary_type: s("http-api"),
        data_flows: vec![DataFlow { name: s("requests"), direction: s("a->b"), description: s("REST calls") }],
        contract_artifacts: vec![],
        compat_policy: CompatPolicy {
            strategy: s("semver"),
            rules: vec![s("no breaking changes")],
            deprecation_window_days: 90,
        },
        semantic_invariants: vec![s("idempotent")],
        security_invariants: vec![s("mTLS required")],
        privacy_invariants: vec![s("no PII in URL")],
        test_vectors: vec![],
        checks: Checks {
            conformance: check("pass"),
            no_hidden_channels: check("done"),
            evolution: check("pass"),
        },
        failure_behavior: FailureBehavior {
            timeouts: s("10s"),
            retries: s("3 with exponential back-off"),
            backpressure: s("token bucket"),
            idempotency: s("request-id header"),
        },
        observability: Observability {
            metrics: vec![s("requests_total")],
            logs: Logs { required_fields: vec![s("trace_id")] },
            tracing: Tracing { propagation: vec![s("W3C TraceContext")] },
        },
        change_process: ChangeProcess { required_reviewers: vec![s("seam-owners")], gates: vec![s("ci-pass")] },
        rollout_backout: RolloutBackout {
            rollout_steps: vec![s("blue-green deploy")],
            backout_steps: vec![s("rollback via feature flag")],
        },
    }
}

const RECORD_JSON: &str = r#"{"id": "seam-valid-001", "title": "Test Seam"}"#;
const PERMISSIVE_SCHEMA: &str =
    r#"{"$schema": "http://json-schema.org/draft-07/schema#", "type": "object"}"#;

// ---------------------------------------------------------------------------
// validate
// ---------------------------------------------------------------------------

/// A root that does not exist holds no seam record: validation stops with an error.
#[test]
fn nonexistent_root_returns_error() {
    let (root, schema) = resolve_paths(Some(s("/tmp/seamctl_nonexistent_path_abc123xyz")), None);
    assert_eq!(root, "/tmp/seamctl_nonexistent_path_abc123xyz");
    assert_eq!(schema, "/tmp/seamctl_nonexistent_path_abc123xyz/seams/schema/seam-record.schema.json");
    // Walking a missing directory yields no file.
    let files = discover_seam_files(&vec![]);
    let result = require_seam_files(&files);
    assert!(result.is_err(), "expected Err for nonexistent root");
    assert!(matches!(result, Err(SeamError::NoSeamFiles)));
}

#[test]
fn defaults_are_current_dir_and_standard_schema() {
    assert_eq!(default_root(), ".");
    assert_eq!(default_schema_path(), "seams/schema/seam-record.schema.json");
    let (root, schema) = resolve_paths(Some(s("r")), Some(s("x.json")));
    assert_eq!((root.as_str(), schema.as_str()), ("r", "x.json"));
    let (_, schema) = resolve_paths(Some(s("proj/")), None);
    assert_eq!(schema, "proj/seams/schema/seam-record.schema.json");
    let (_, schema) = resolve_paths(Some(s("")), None);
    assert_eq!(schema, "seams/schema/seam-record.schema.json");
}

#[test]
fn valid_record_passes_validation() {
    let schema = compile_schema(load_json(PERMISSIVE_SCHEMA).unwrap()).unwrap();
    let doc = load_json(RECORD_JSON).unwrap();
    let mut run = ValidationRun::new();
    let file = "./seams/records/seam-valid-001.seam.json";
    assert!(run.check_schema(file, &schema, &doc));
    run.check_policy(file, &record("seam-valid-001", "a", "b"), &vec![], &vec![]);
    let outcome = run.finish();
    assert!(matches!(outcome, ValidationOutcome::Valid));
    assert_eq!(outcome.exit_code(), 0);
    assert_eq!(outcome.lines(), vec![s("OK: seam records validated")]);
}

#[test]
fn multiple_valid_records_pass() {
    let schema = compile_schema(load_json(PERMISSIVE_SCHEMA).unwrap()).unwrap();
    let mut run = ValidationRun::new();
    for id in ["seam-multi-001", "seam-multi-002", "seam-multi-003"] {
        let file = format!("./seams/records/{id}.seam.json");
        let doc = load_json(&format!(r#"{{"id": "{id}"}}"#)).unwrap();
        assert!(run.check_schema(&file, &schema, &doc));
        run.check_policy(&file, &record(id, "service-alpha", "service-beta"), &vec![], &vec![]);
    }
    let outcome = run.finish();
    assert!(matches!(outcome, ValidationOutcome::Valid), "expected Ok for multiple valid records");
}

#[test]
fn schema_violation_is_reported_with_file_and_exit_2() {
    let schema = compile_schema(load_json(r#"{"type": "array"}"#).unwrap()).unwrap();
    let doc = load_json(RECORD_JSON).unwrap();
    let mut run = ValidationRun::new();
    assert!(!run.check_schema("f.seam.json", &schema, &doc));
    // A policy error of another file does not change the outcome.
    assert!(run.record_schema_result("g.seam.json", &vec![]));
    run.check_policy("g.seam.json", &SeamRecord { owners: vec![], ..record("x", "a", "b") }, &vec![], &vec![]);
    let outcome = run.finish();
    assert_eq!(outcome.exit_code(), 2);
    match &outcome {
        ValidationOutcome::SchemaInvalid(errs) => {
            assert_eq!(errs.len(), 1);
            assert!(errs[0].starts_with("f.seam.json: "));
        }
        other => panic!("unexpected {other:?}"),
    }
    let lines = outcome.lines();
    assert_eq!(lines[0], "Schema validation errors:");
    assert!(lines[1].starts_with("- f.seam.json: "));
}

#[test]
fn policy_violation_gives_exit_3() {
    let mut run = ValidationRun::new();
    assert!(run.record_schema_result("f", &vec![]));
    run.check_policy("f", &SeamRecord { owners: vec![], ..record("x", "a", "b") }, &vec![], &vec![]);
    let outcome = run.finish();
    assert_eq!(outcome.exit_code(), 3);
    assert_eq!(outcome.lines(), vec![s("Policy errors:"), s("- f: owners must be non-empty")]);
}

#[test]
fn schema_result_is_prefixed_by_file() {
    let mut run = ValidationRun::new();
    assert!(!run.record_schema_result("a.json", &vec![s("bad"), s("worse")]));
    match run.finish() {
        ValidationOutcome::SchemaInvalid(v) => assert_eq!(v, vec![s("a.json: bad"), s("a.json: worse")]),
        other => panic!("unexpected {other:?}"),
    }
}

#[test]
fn malformed_json_returns_error() {
    let r = load_json("{ not valid json }");
    assert!(matches!(r, Err(SeamError::Json(_))), "expected Err for malformed JSON");
}

#[test]
fn schema_that_does_not_compile_is_refused() {
    let doc = load_json(r#"{"type": 12}"#).unwrap();
    match compile_schema(doc) {
        Err(e @ SeamError::SchemaCompile(_)) => assert!(e.message().starts_with("schema compile failed: ")),
        Err(other) => panic!("unexpected {other:?}"),
        Ok(_) => panic!("expected a compile error"),
    }
}

#[test]
fn empty_file_list_is_refused_by_both_commands() {
    assert!(require_seam_files(&vec![]).is_err());
    assert!(require_records(&vec![]).is_err());
    assert!(require_seam_files(&vec![s("x")]).is_ok());
    assert!(require_records(&vec![s("x")]).is_ok());
    assert_eq!(
        SeamError::NoSeamFiles.message(),
        "no *.seam.json files found under seams/records or targets/**/seams/records"
    );
    assert_eq!(SeamError::NoSeamRecords.message(), "no seam records found");
}

// ---------------------------------------------------------------------------
// policy
// ---------------------------------------------------------------------------

#[test]
fn good_record_has_no_policy_errors() {
    assert!(policy_checks(&record("x", "a", "b"), "p", &vec![], &vec![]).is_empty());
}

#[test]
fn every_policy_rule_reports_in_order() {
    let mut r = record("x", "a", "b");
    r.owners = vec![];
    r.compat_policy.rules = vec![];
    r.compat_policy.deprecation_window_days = 0;
    r.checks.conformance.status = s("  \t");
    r.checks.no_hidden_channels.status = s("");
    r.checks.evolution.status = s("\u{3000}\u{a0}");
    r.contract_artifacts = vec![
        ContractArtifact { path: s("spec/api.yaml"), kind: s("openapi"), version: s("1") },
        ContractArtifact { path: s("spec/ok.yaml"), kind: s("openapi"), version: s("1") },
    ];
    r.test_vectors = vec![s("vectors/a.json")];
    let errs = policy_checks(&r, "seams/records/x.seam.json", &vec![false, true], &vec![false]);
    assert_eq!(
        errs,
        vec![
            s("owners must be non-empty"),
            s("compat_policy.rules must be non-empty"),
            s("compat_policy.deprecation_window_days must be >= 1"),
            s("checks.conformance.status must be non-empty"),
            s("checks.no_hidden_channels.status must be non-empty"),
            s("checks.evolution.status must be non-empty"),
            s("missing contract_artifact path: spec/api.yaml (from seams/records/x.seam.json)"),
            s("missing test_vectors path: vectors/a.json (from seams/records/x.seam.json)"),
        ]
    );
}

#[test]
fn deprecation_window_of_one_day_is_enough() {
    let mut r = record("x", "a", "b");
    r.compat_policy.deprecation_window_days = 1;
    assert!(policy_checks(&r, "p", &vec![], &vec![]).is_empty());
    r.compat_policy.deprecation_window_days = -5;
    assert_eq!(policy_checks(&r, "p", &vec![], &vec![]).len(), 1);
}

#[test]
fn status_with_text_around_spaces_is_not_blank() {
    assert!(trims_to_empty(""));
    assert!(trims_to_empty(" \n\r\t\u{85}\u{2028}"));
    assert!(!trims_to_empty("  ok "));
    assert!(!trims_to_empty("\u{200b}"));
}

// ---------------------------------------------------------------------------
// discovery
// ---------------------------------------------------------------------------

#[test]
fn only_seam_record_files_are_kept() {
    assert!(is_seam_record_file("./seams/records/a.seam.json"));
    assert!(is_seam_record_file("./targets/x/seams/records/b.seam.json"));
    assert!(!is_seam_record_file("./seams/records/a.json"));
    assert!(!is_seam_record_file("./seams/schema/a.seam.json"));
    assert!(!is_seam_record_file("seams/records/a.seam.json"));
    assert!(contains_str("abc", ""));
    assert!(ends_with_str("abc", "bc"));
    assert!(!ends_with_str("c", "bc"));
}

#[test]
fn discovered_files_are_sorted_by_path_components() {
    let walked = vec![
        s("./seams/records/b.seam.json"),
        s("./seams/records/notes.txt"),
        s("./seams/records/a-b.seam.json"),
        s("./seams/records/a/x.seam.json"),
        s("./seams/records/a.seam.json"),
    ];
    let files = discover_seam_files(&walked);
    assert_eq!(
        files,
        vec![
            s("./seams/records/a/x.seam.json"),
            s("./seams/records/a-b.seam.json"),
            s("./seams/records/a.seam.json"),
            s("./seams/records/b.seam.json"),
        ]
    );
}

// ---------------------------------------------------------------------------
// graph
// ---------------------------------------------------------------------------

#[test]
fn paths_that_compare_equal_keep_their_walk_order() {
    let walked = vec![
        "r//seams/records/b.seam.json".to_string(),
        "r/seams/records/a.seam.json".to_string(),
        "r/seams/records/b.seam.json".to_string(),
    ];
    assert_eq!(
        discover_seam_files(&walked),
        vec![
            "r/seams/records/a.seam.json".to_string(),
            "r//seams/records/b.seam.json".to_string(),
            "r/seams/records/b.seam.json".to_string(),
        ]
    );
}

#[test]
fn no_records_returns_error() {
    let r = require_records(&discover_seam_files(&vec![s("./README.md")]));
    assert!(matches!(r, Err(SeamError::NoSeamRecords)), "expected Err with no seam records");
}

#[test]
fn graph_has_one_node_per_component_and_one_edge_per_record() {
    let records = vec![record("s1", "web", "api"), record("s2", "api", "db"), record("s3", "web", "db")];
    let g = build_graph(&records);
    assert_eq!(g.components(), vec![s("web"), s("api"), s("db")]);
    assert_eq!(
        g.edge_list(),
        vec![
            (s("web"), s("api"), s("s1")),
            (s("api"), s("db"), s("s2")),
            (s("web"), s("db"), s("s3")),
        ]
    );
    assert_eq!(g.seams(), &vec![s("s1"), s("s2"), s("s3")]);
}

#[test]
fn self_loop_record_adds_one_component() {
    let g = build_graph(&vec![record("loop", "svc", "svc")]);
    assert_eq!(g.components(), vec![s("svc")]);
    assert_eq!(g.edge_list(), vec![(s("svc"), s("svc"), s("loop"))]);
}

#[test]
fn single_record_produces_json() {
    let g = build_graph(&vec![record("seam-graph-001", "service-alpha", "service-beta")]);
    let text = g.render("json").unwrap();
    let parsed: serde_json::Value = serde_json::from_str(&text).unwrap();
    assert!(parsed.get("edges").is_some(), "JSON output must have 'edges' key");
    assert_eq!(parsed["edges"][0]["from"], "service-alpha");
    assert_eq!(parsed["edges"][0]["to"], "service-beta");
    assert_eq!(parsed["edges"][0]["seam"], "seam-graph-001");
    assert_eq!(parsed["components"], serde_json::Value::from(vec!["service-alpha", "service-beta"]));
    assert_eq!(parsed["seams"], serde_json::Value::from(vec!["seam-graph-001"]));
    assert!(text.starts_with("{\n  \"components\": [\n"));
}

#[test]
fn dot_rendering_is_exact() {
    let g = build_graph(&vec![record("s1", "a", "b"), record("s2", "b", "c")]);
    assert_eq!(
        g.render("dot").unwrap(),
        "digraph seams {\n  \"a\" -> \"b\" [label=\"s1\"];\n  \"b\" -> \"c\" [label=\"s2\"];\n}\n"
    );
    assert_eq!(render_dot(&vec![]), "digraph seams {\n}\n");
}

#[test]
fn unsupported_format_returns_error() {
    let g = build_graph(&vec![record("seam-fmt-001", "a", "b")]);
    match g.render("xml") {
        Err(e @ SeamError::UnsupportedFormat(_)) => {
            assert_eq!(e.message(), "unsupported format: xml (use json|dot)")
        }
        other => panic!("expected Err for unsupported format, got {other:?}"),
    }
}

#[test]
fn self_referring_schema_is_refused() {
    for schema in [
        r##"{"$ref": "#"}"##,
        r##"{"allOf": [{"$ref": "#"}]}"##,
        r##"{"$defs": {"a": {"$ref": "#/$defs/a"}}, "$ref": "#/$defs/a"}"##,
        r##"{"$defs": {"a": {"not": {"$ref": "#/$defs/b"}}, "b": {"anyOf": [{"$ref": "#/$defs/a"}]}}, "$ref": "#/$defs/a"}"##,
        r##"{"properties": {"c": {"$ref": "#", "unevaluatedProperties": false}}}"##,
        r##"{"properties": {"a": {"$ref": "#/$defs/n"}}, "$defs": {"n": {"properties": {"c": {"$ref": "#/$defs/n", "unevaluatedProperties": false}}}}}"##,
        r##"{"properties": {"x": {"$ref": "other.json"}}}"##,
    ] {
        match compile_schema(load_json(schema).unwrap()) {
            Err(e @ SeamError::SchemaUnsupported) => assert!(e.message().starts_with("schema not supported: ")),
            Err(other) => panic!("unexpected {other:?} for {schema}"),
            Ok(_) => panic!("expected {schema} to be refused"),
        }
    }
}

#[test]
fn schemas_without_reference_cycles_compile() {
    for schema in [
        r##"{"$defs": {"a": {"anyOf": [{"type": "string"}, {"not": {"type": "null"}}]}}, "properties": {"x": {"$ref": "#/$defs/a"}}}"##,
        r##"{"properties": {"x": {"$id": "http://example.com/x", "type": "string"}}}"##,
        r##"{"properties": {"x": {"type": "string"}, "y": {"$ref": "#/properties/x"}}}"##,
        r##"{"$defs": {"a/b": {"type": "string"}, "c~d": {"type": "integer"}}, "properties": {"y": {"$ref": "#/$defs/a~1b"}, "z": {"$ref": "#/$defs/c~0d"}}}"##,
        r##"{"const": {"$ref": "#"}, "default": {"$ref": "#/default"}}"##,
        r##"{"properties": {"x": {"$dynamicRef": "#meta"}}}"##,
        r##"{"properties": {"next": {"$ref": "#"}}}"##,
        r##"{"prefixItems": [{"type": "string"}, {"$ref": "#/prefixItems/0"}]}"##,
        r##"{"$defs": {"n": {"properties": {"a": {"type": "string"}}}}, "$ref": "#/$defs/n", "unevaluatedProperties": false}"##,
    ] {
        match compile_schema(load_json(schema).unwrap()) {
            Ok(_) => {}
            Err(e) => panic!("expected {schema} to compile, got {e:?}"),
        }
    }
}

#[test]
fn unevaluated_properties_through_a_reference_are_checked() {
    let schema = compile_schema(
        load_json(
            r##"{"$defs": {"n": {"properties": {"a": {"type": "string"}}}}, "$ref": "#/$defs/n", "unevaluatedProperties": false}"##,
        )
        .unwrap(),
    )
    .unwrap();
    let mut run = ValidationRun::new();
    assert!(run.check_schema("ok", &schema, &load_json(r#"{"a": "x"}"#).unwrap()));
    assert!(!run.check_schema("extra", &schema, &load_json(r#"{"a": "x", "b": 1}"#).unwrap()));
    match run.finish() {
        ValidationOutcome::SchemaInvalid(v) => {
            assert_eq!(v.len(), 1);
            assert!(v[0].starts_with("extra: "));
        }
        other => panic!("unexpected {other:?}"),
    }
}

#[test]
fn schema_with_settled_references_validates() {
    let schema = compile_schema(
        load_json(
            r##"{"$defs": {"owner": {"type": "object", "required": ["name"], "properties": {"name": {"type": "string"}}}},
                "type": "object",
                "properties": {"owners": {"type": "array", "items": {"$ref": "#/$defs/owner"}},
                               "child": {"$ref": "#"}}}"##,
        )
        .unwrap(),
    )
    .unwrap();
    let mut run = ValidationRun::new();
    let good = load_json(r##"{"owners": [{"name": "Alice"}], "child": {"owners": []}}"##).unwrap();
    assert!(run.check_schema("good", &schema, &good));
    let bad = load_json(r##"{"owners": [{"role": "x"}], "child": {"owners": [{"name": 3}]}}"##).unwrap();
    assert!(!run.check_schema("bad", &schema, &bad));
    match run.finish() {
        ValidationOutcome::SchemaInvalid(v) => {
            assert_eq!(v.len(), 2);
            assert!(v.iter().all(|e| e.starts_with("bad: ")));
        }
        other => panic!("unexpected {other:?}"),
    }
}

#[test]
fn graph_payload_layout() {
    let g = build_graph(&vec![record("s1", "a", "b")]);
    let p = payload_value(&g.components(), &g.edge_list(), g.seams());
    let text = format!("{p:?}");
    assert_eq!(
        text,
        r#"Object([("components", Array([Str("a"), Str("b")])), ("edges", Array([Object([("from", Str("a")), ("to", Str("b")), ("seam", Str("s1"))])])), ("seams", Array([Str("s1")]))])"#
    );
}

#[test]
fn small_graphs_fit() {
    assert!(fits_in_graph(&vec![]));
    assert!(fits_in_graph(&vec![record("s1", "a", "b"), record("s2", "b", "a")]));
}

// ---------------------------------------------------------------------------
// command line
// ---------------------------------------------------------------------------

#[test]
fn exec_fills_in_defaults() {
    let v = Cli { cmd: Command::Validate { root: None, schema: None } }.exec();
    match v {
        Invocation::Validate { root, schema } => {
            assert_eq!(root, ".");
            assert_eq!(schema, "./seams/schema/seam-record.schema.json");
        }
        other => panic!("unexpected {other:?}"),
    }
    let g = Cli { cmd: Command::Graph { format: s("dot"), out: Some(s("g.dot")), root: Some(s("r")) } }.exec();
    match g {
        Invocation::Graph { root, format, out } => {
            assert_eq!((root.as_str(), format.as_str(), out), ("r", "dot", Some(s("g.dot"))));
        }
        other => panic!("unexpected {other:?}"),
    }
    let r = Cli { cmd: Command::Report { out: None, root: None } }.exec();
    assert!(matches!(r, Invocation::Report { root: None, out: None }));
}
