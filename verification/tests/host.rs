use std::io::Cursor;

use clarion::entity_id::entity_id;
use clarion::plugin::host::{
    analyze_file_request, capability_refusal, check_ontology_version, drain_exhausted,
    executable_refusal,
    exit_notification, initialize_request, initialized_notification, oversize_field,
    shutdown_request, Admission, HostError, HostFinding, PluginHost, RawEntity, Screen,
    FINDING_ENTITY_FIELD_OVERSIZE, FINDING_ENTITY_ID_MISMATCH, FINDING_MALFORMED_ENTITY,
    FINDING_UNDECLARED_KIND, FINDING_UNSUPPORTED_CAPABILITY, MAX_ENTITY_FIELD_BYTES,
};
use clarion::plugin::jail::JailError;
use clarion::plugin::limits::{EntityCountCap, FINDING_DISABLED_PATH_ESCAPE, FINDING_ENTITY_CAP, FINDING_PATH_ESCAPE};
use clarion::plugin::protocol::{
    AnalyzeFileParams, ExitNotification, InitializeParams, InitializedNotification, ProtocolError,
    Response, ShutdownParams,
};
use clarion::plugin::transport::{encode_frame, Frame};

type Host = PluginHost<Cursor<Vec<u8>>, Vec<u8>>;

fn host_with_responses(responses: &[&str]) -> Host {
    let mut input = Vec::new();
    for r in responses {
        input.extend(encode_frame(&Frame { body: r.as_bytes().to_vec() }));
    }
    PluginHost::new_inner(
        "mock".to_owned(),
        vec!["function".to_owned()],
        "/proj".to_owned(),
        Cursor::new(input),
        Vec::new(),
    )
}

fn decode_response(body: Vec<u8>) -> Option<Response> {
    let v: serde_json::Value = serde_json::from_slice(&body).ok()?;
    let obj = v.as_object()?;
    if obj.get("jsonrpc")?.as_str()? != "2.0" {
        return None;
    }
    let id = obj.get("id")?.as_i64()?;
    match (obj.get("result"), obj.get("error")) {
        (Some(r), None) => Some(Response { id, payload: Ok(r.to_string()) }),
        (None, Some(e)) => Some(Response {
            id,
            payload: Err(ProtocolError {
                code: e.get("code")?.as_i64()?,
                message: e.get("message")?.as_str()?.to_owned(),
                data: None,
            }),
        }),
        _ => None,
    }
}

fn decode_entities(result: String) -> Result<Vec<Result<RawEntity, String>>, String> {
    let v: serde_json::Value = serde_json::from_str(&result).map_err(|e| e.to_string())?;
    let arr = v
        .get("entities")
        .and_then(|e| e.as_array())
        .ok_or_else(|| "missing field `entities`".to_owned())?;
    Ok(arr
        .iter()
        .map(|e| {
            let s = |k: &str| e.get(k).and_then(|x| x.as_str()).map(str::to_owned);
            let file_path = e
                .get("source")
                .and_then(|src| src.get("file_path"))
                .and_then(|x| x.as_str())
                .map(str::to_owned);
            match (s("id"), s("kind"), s("qualified_name"), file_path) {
                (Some(id), Some(kind), Some(qualified_name), Some(file_path)) => Ok(RawEntity {
                    id,
                    kind,
                    qualified_name,
                    file_path,
                    extra_json: "{}".to_owned(),
                    source_extra_bytes: 0,
                }),
                _ => Err("missing field".to_owned()),
            }
        })
        .collect())
}

/// Paths in these tests are already canonical.
fn canonical_as_is(path: String) -> Result<Vec<u8>, std::io::Error> {
    Ok(path.into_bytes())
}

fn entity_json(kind: &str, qn: &str, path: &str) -> String {
    format!(
        "{{\"id\":\"mock:{kind}:{qn}\",\"kind\":\"{kind}\",\"qualified_name\":\"{qn}\",\"source\":{{\"file_path\":\"{path}\"}}}}"
    )
}

fn raw(kind: &str, qn: &str, path: &str) -> RawEntity {
    RawEntity {
        id: format!("mock:{kind}:{qn}"),
        kind: kind.to_owned(),
        qualified_name: qn.to_owned(),
        file_path: path.to_owned(),
        extra_json: "{}".to_owned(),
        source_extra_bytes: 0,
    }
}

#[test]
fn request_bodies_are_exact() {
    let init = InitializeParams { protocol_version: "1.0".to_owned(), project_root: "/p \"x\"".to_owned() };
    assert_eq!(
        String::from_utf8(initialize_request(&init, 1)).unwrap(),
        "{\"jsonrpc\":\"2.0\",\"method\":\"initialize\",\"params\":{\"project_root\":\"/p \\\"x\\\"\",\"protocol_version\":\"1.0\"},\"id\":1}"
    );
    let af = AnalyzeFileParams { file_path: "/p/a.py".to_owned() };
    assert_eq!(
        String::from_utf8(analyze_file_request(&af, 7)).unwrap(),
        "{\"jsonrpc\":\"2.0\",\"method\":\"analyze_file\",\"params\":{\"file_path\":\"/p/a.py\"},\"id\":7}"
    );
    assert_eq!(
        String::from_utf8(shutdown_request(&ShutdownParams {}, -3)).unwrap(),
        "{\"jsonrpc\":\"2.0\",\"method\":\"shutdown\",\"params\":{},\"id\":-3}"
    );
    assert_eq!(
        String::from_utf8(initialized_notification(&InitializedNotification {})).unwrap(),
        "{\"jsonrpc\":\"2.0\",\"method\":\"initialized\",\"params\":{}}"
    );
    assert_eq!(
        String::from_utf8(exit_notification(&ExitNotification {})).unwrap(),
        "{\"jsonrpc\":\"2.0\",\"method\":\"exit\",\"params\":{}}"
    );
}

#[test]
fn finding_messages_and_metadata() {
    let f = HostFinding::undeclared_kind("widget", "a.b");
    assert_eq!(f.subcode, FINDING_UNDECLARED_KIND);
    assert_eq!(f.message, "entity kind \"widget\" is not declared in the manifest ontology");
    assert_eq!(
        f.metadata,
        vec![("kind".to_owned(), "widget".to_owned()), ("qualified_name".to_owned(), "a.b".to_owned())]
    );
    let f = HostFinding::entity_id_mismatch("x", "y");
    assert_eq!(f.message, "entity id mismatch: got \"x\", expected \"y\"");
    assert_eq!(
        f.metadata,
        vec![("expected".to_owned(), "y".to_owned()), ("got".to_owned(), "x".to_owned())]
    );
    let f = HostFinding::entity_cap_exceeded_finding(10, 11);
    assert_eq!(f.subcode, FINDING_ENTITY_CAP);
    assert_eq!(f.message, "entity cap 10 would be exceeded (would reach 11)");
    let f = HostFinding::entity_field_oversize("qualified_name", 5000);
    assert_eq!(f.message, "entity field \"qualified_name\" is 5000 bytes, over the 4096-byte limit");
    assert_eq!(f.metadata[2], ("limit_bytes".to_owned(), "4096".to_owned()));
    let f = HostFinding::oom_killed("python", 9);
    assert_eq!(f.message, "plugin python killed by signal 9 (likely RLIMIT_AS enforcement per ADR-021 §2d)");
    let f = HostFinding::disabled_path_escape();
    assert_eq!(f.subcode, FINDING_DISABLED_PATH_ESCAPE);
    assert!(f.metadata.is_empty());
    let f = HostFinding::non_utf8_path("a\u{fffd}b");
    assert!(f.message.starts_with("file skipped: path is not valid UTF-8"));
}

#[test]
fn oversize_checks_fields_in_wire_order() {
    let mut r = raw("function", "demo.f", "/proj/a.py");
    assert_eq!(oversize_field(&r), None);
    r.qualified_name = "q".repeat(MAX_ENTITY_FIELD_BYTES + 1);
    r.file_path = "p".repeat(MAX_ENTITY_FIELD_BYTES + 2);
    assert_eq!(oversize_field(&r), Some(("qualified_name", MAX_ENTITY_FIELD_BYTES + 1)));
    let mut r = raw("function", "demo.f", "/proj/a.py");
    r.source_extra_bytes = 65537;
    assert_eq!(oversize_field(&r), Some(("source.extra", 65537)));
    // The serialised `extra` map is checked before `source.extra`.
    let blob = format!("{{\"blob\":\"{}\"}}", "x".repeat(65536));
    r.extra_json = blob.clone();
    assert_eq!(oversize_field(&r), Some(("extra", blob.len())));
    // An empty map, serialised as `{}`, is never over.
    r.extra_json = "{}".to_owned();
    r.source_extra_bytes = 0;
    assert_eq!(oversize_field(&r), None);
    // Multi-byte characters count in bytes.
    let mut r = raw("function", "demo.f", "/proj/a.py");
    r.kind = "é".repeat(2049);
    assert_eq!(oversize_field(&r), Some(("kind", 4098)));
}

#[test]
fn screen_entity_drops_undeclared_kind_and_mismatched_id() {
    let mut host = host_with_responses(&[]);
    assert!(matches!(host.screen_entity(&raw("class", "demo.C", "/proj/a.py")), Screen::Dropped));
    let mut bad_id = raw("function", "demo.f", "/proj/a.py");
    bad_id.id = "other:function:demo.f".to_owned();
    assert!(matches!(host.screen_entity(&bad_id), Screen::Dropped));
    let mut invalid = raw("function", "demo:f", "/proj/a.py");
    invalid.id = "x".to_owned();
    assert!(matches!(host.screen_entity(&invalid), Screen::Dropped));
    match host.screen_entity(&raw("function", "demo.f", "/proj/a.py")) {
        Screen::ToJail(id) => assert_eq!(id.as_str(), "mock:function:demo.f"),
        Screen::Dropped => panic!("compliant entity must pass screening"),
    }
    let findings = host.take_findings();
    assert_eq!(findings.len(), 3);
    assert_eq!(findings[0].subcode, FINDING_UNDECLARED_KIND);
    assert_eq!(findings[1].subcode, FINDING_ENTITY_ID_MISMATCH);
    assert_eq!(
        findings[2].message,
        "entity id mismatch: got \"x\", expected \"<invalid: segment canonical_qualified_name contains reserved ':' separator: \\\"demo:f\\\">\""
    );
    assert!(host.take_findings().is_empty());
}

#[test]
fn eleven_escapes_trip_the_breaker() {
    let mut host = host_with_responses(&[]);
    let id = entity_id("mock", "function", "demo.f").unwrap();
    for _ in 0..10 {
        let a = host.admit_jailed(
            raw("function", "demo.f", "/etc/passwd"),
            id.clone(),
            Err(JailError::EscapedRoot { offending: b"/etc/passwd".to_vec() }),
        );
        assert!(matches!(a, Admission::Dropped));
    }
    let a = host.admit_jailed(
        raw("function", "demo.f", "/etc/passwd"),
        id,
        Err(JailError::EscapedRoot { offending: b"/etc/passwd".to_vec() }),
    );
    assert!(matches!(a, Admission::BreakerTripped));
    let findings = host.take_findings();
    assert_eq!(findings.len(), 12);
    assert_eq!(findings[0].subcode, FINDING_PATH_ESCAPE);
    assert_eq!(findings[11].subcode, FINDING_DISABLED_PATH_ESCAPE);
}

#[test]
fn cap_exceeded_on_admission() {
    let mut host = host_with_responses(&[]);
    host.set_entity_cap_test(EntityCountCap::new(1));
    let id = entity_id("mock", "function", "demo.f").unwrap();
    let a = host.admit_jailed(raw("function", "demo.f", "/proj/a.py"), id.clone(), Ok("/proj/a.py".to_owned()));
    match a {
        Admission::Accepted(acc) => {
            assert_eq!(acc.source_file_path, "/proj/a.py");
            assert_eq!(acc.id.as_str(), "mock:function:demo.f");
        }
        _ => panic!("first entity must be accepted"),
    }
    let a = host.admit_jailed(raw("function", "demo.f", "/proj/a.py"), id, Ok("/proj/a.py".to_owned()));
    match a {
        Admission::CapExceeded(e) => {
            assert_eq!(e.cap, 1);
            assert_eq!(e.would_reach, 2);
        }
        _ => panic!("second entity must exceed the cap"),
    }
}

#[test]
fn analyze_file_accepts_compliant_entities_and_drops_the_rest() {
    let result = format!(
        "{{\"jsonrpc\":\"2.0\",\"id\":1,\"result\":{{\"entities\":[{},{},{},{{\"id\":1}}]}}}}",
        entity_json("function", "demo.hello", "/proj/demo.py"),
        entity_json("class", "demo.C", "/proj/demo.py"),
        entity_json("function", "demo.out", "/tmp/x.py"),
    );
    let mut host = host_with_responses(&[result.as_str()]);
    let accepted = host
        .analyze_file("/proj/demo.py", &decode_response, &decode_entities, &canonical_as_is)
        .expect("analyze_file");
    assert_eq!(accepted.len(), 1);
    assert_eq!(accepted[0].id.as_str(), "mock:function:demo.hello");
    let findings = host.take_findings();
    let codes: Vec<&str> = findings.iter().map(|f| f.subcode).collect();
    assert_eq!(codes, vec![FINDING_UNDECLARED_KIND, FINDING_PATH_ESCAPE, FINDING_MALFORMED_ENTITY]);
    let sent = String::from_utf8(host.writer_bytes_test().clone()).unwrap();
    assert!(sent.starts_with("Content-Length: "));
    assert!(sent.ends_with("{\"jsonrpc\":\"2.0\",\"method\":\"analyze_file\",\"params\":{\"file_path\":\"/proj/demo.py\"},\"id\":1}"));
    assert_eq!(host.next_request_id_test(), 2);
}

#[test]
fn analyze_file_drains_stale_frames_before_matching_response() {
    let mut host = host_with_responses(&[
        "not json",
        "{\"jsonrpc\":\"2.0\",\"id\":99,\"result\":{\"entities\":[]}}",
        "{\"jsonrpc\":\"2.0\",\"id\":1,\"result\":{\"entities\":[]}}",
    ]);
    let accepted = host
        .analyze_file("/proj/a.py", &decode_response, &decode_entities, &canonical_as_is)
        .expect("stale frames are discarded");
    assert!(accepted.is_empty());
}

#[test]
fn analyze_file_error_payload_returns_protocol_error() {
    let mut host = host_with_responses(&[
        "{\"jsonrpc\":\"2.0\",\"id\":1,\"error\":{\"code\":-32000,\"message\":\"boom\"}}",
    ]);
    let err = host
        .analyze_file("/proj/a.py", &decode_response, &decode_entities, &canonical_as_is)
        .expect_err("error payload");
    match err {
        HostError::Protocol(pe) => {
            assert_eq!(pe.code, -32000);
            assert_eq!(pe.message, "boom");
        }
        other => panic!("expected Protocol, got {other:?}"),
    }
}

#[test]
fn drain_budget_is_bounded() {
    let stale = "{\"jsonrpc\":\"2.0\",\"id\":99,\"result\":{}}";
    let frames: Vec<&str> = std::iter::repeat(stale).take(17).collect();
    let mut host = host_with_responses(&frames);
    let err = host
        .analyze_file("/proj/a.py", &decode_response, &decode_entities, &canonical_as_is)
        .expect_err("no matching response");
    match err {
        HostError::Protocol(pe) => {
            assert_eq!(pe, drain_exhausted("analyze_file", 1));
            assert_eq!(pe.message, "no matching analyze_file response after 16 frames (expected id 1)");
            assert_eq!(pe.code, -32600);
        }
        other => panic!("expected Protocol, got {other:?}"),
    }
}

#[test]
fn nonconforming_result_is_a_protocol_error() {
    let mut host = host_with_responses(&["{\"jsonrpc\":\"2.0\",\"id\":1,\"result\":{}}"]);
    let err = host
        .analyze_file("/proj/a.py", &decode_response, &decode_entities, &canonical_as_is)
        .expect_err("missing entities");
    match err {
        HostError::Protocol(pe) => {
            assert_eq!(pe.code, -32602);
            assert_eq!(
                pe.message,
                "analyze_file response did not conform to AnalyzeFileResult: missing field `entities`"
            );
        }
        other => panic!("expected Protocol, got {other:?}"),
    }
}

#[test]
fn cap_exceeded_shuts_the_plugin_down_and_shutdown_is_then_idempotent() {
    let result = format!(
        "{{\"jsonrpc\":\"2.0\",\"id\":1,\"result\":{{\"entities\":[{},{}]}}}}",
        entity_json("function", "demo.a", "/proj/demo.py"),
        entity_json("function", "demo.b", "/proj/demo.py"),
    );
    let mut host = host_with_responses(&[result.as_str(), "{\"jsonrpc\":\"2.0\",\"id\":2,\"result\":{}}"]);
    host.set_entity_cap_test(EntityCountCap::new(1));
    let err = host
        .analyze_file("/proj/demo.py", &decode_response, &decode_entities, &canonical_as_is)
        .expect_err("cap");
    assert!(matches!(err, HostError::EntityCapExceeded(ref e) if e.cap == 1 && e.would_reach == 2));
    let written = host.writer_bytes_test().len();
    host.shutdown(&decode_response).expect("second shutdown is a no-op");
    assert_eq!(host.writer_bytes_test().len(), written, "no bytes written by a repeated shutdown");
    let sent = String::from_utf8(host.writer_bytes_test().clone()).unwrap();
    assert!(sent.contains("\"method\":\"shutdown\""));
    assert!(sent.ends_with("{\"jsonrpc\":\"2.0\",\"method\":\"exit\",\"params\":{}}"));
}

#[test]
fn handshake_stores_ontology_version_and_refuses_capabilities() {
    let init = "{\"jsonrpc\":\"2.0\",\"id\":1,\"result\":{\"name\":\"m\",\"version\":\"0.1.0\",\"ontology_version\":\"0.1.0\",\"capabilities\":{}}}";
    let decode_init = |t: String| -> Result<String, String> {
        let v: serde_json::Value = serde_json::from_str(&t).map_err(|e| e.to_string())?;
        v.get("ontology_version")
            .and_then(|x| x.as_str())
            .map(str::to_owned)
            .ok_or_else(|| "missing field `ontology_version`".to_owned())
    };
    let mut host = host_with_responses(&[init]);
    assert_eq!(host.ontology_version(), None);
    host.handshake(&decode_response, &decode_init, None).expect("handshake");
    assert_eq!(host.ontology_version(), Some("0.1.0"));
    let sent = String::from_utf8(host.writer_bytes_test().clone()).unwrap();
    assert!(sent.contains("\"method\":\"initialize\""));
    assert!(sent.ends_with("{\"jsonrpc\":\"2.0\",\"method\":\"initialized\",\"params\":{}}"));

    let mut refused = host_with_responses(&[init, "{\"jsonrpc\":\"2.0\",\"id\":2,\"result\":{}}"]);
    let err = refused
        .handshake(&decode_response, &decode_init, capability_refusal(true))
        .expect_err("refused");
    assert!(matches!(err, HostError::Handshake(_)));
    let findings = refused.take_findings();
    assert_eq!(findings.len(), 1);
    assert_eq!(findings[0].subcode, FINDING_UNSUPPORTED_CAPABILITY);
    let sent = String::from_utf8(refused.writer_bytes_test().clone()).unwrap();
    assert!(!sent.contains("\"initialized\""));
    assert!(sent.contains("\"method\":\"shutdown\""));

    let blank = "{\"jsonrpc\":\"2.0\",\"id\":1,\"result\":{\"ontology_version\":\"  \"}}";
    let mut host = host_with_responses(&[blank]);
    let err = host.handshake(&decode_response, &decode_init, None).expect_err("blank version");
    assert!(matches!(err, HostError::Protocol(ref pe) if pe.message == "initialize response: ontology_version must not be empty"));
}

#[test]
fn ontology_version_check() {
    assert!(check_ontology_version("1").is_ok());
    assert!(check_ontology_version(" \t\n").is_err());
    assert!(check_ontology_version("").is_err());
}

#[test]
fn non_utf8_path_is_skipped_with_finding() {
    let mut host = host_with_responses(&[]);
    assert!(host.skip_non_utf8_path("a\u{fffd}b").is_empty());
    let f = host.take_findings();
    assert_eq!(f.len(), 1);
    assert_eq!(f[0].metadata, vec![("path_lossy".to_owned(), "a\u{fffd}b".to_owned())]);
}

#[test]
fn oversize_entity_in_response_is_dropped() {
    let long = "q".repeat(5000);
    let result = format!(
        "{{\"jsonrpc\":\"2.0\",\"id\":1,\"result\":{{\"entities\":[{}]}}}}",
        entity_json("function", &long, "/proj/demo.py"),
    );
    let mut host = host_with_responses(&[result.as_str()]);
    let accepted = host
        .analyze_file("/proj/demo.py", &decode_response, &decode_entities, &canonical_as_is)
        .unwrap();
    assert!(accepted.is_empty());
    let f = host.take_findings();
    assert_eq!(f[0].subcode, FINDING_ENTITY_FIELD_OVERSIZE);
    assert_eq!(f[0].metadata[0], ("actual_bytes".to_owned(), "5014".to_owned()));
}

#[test]
fn host_error_messages() {
    assert_eq!(HostError::PathEscapeBreakerTripped.message(), "path-escape breaker tripped; plugin killed");
    assert_eq!(
        HostError::Protocol(ProtocolError { code: -1, message: "m".to_owned(), data: None }).message(),
        "protocol error: code=-1, message=m"
    );
    assert_eq!(HostError::Spawn("x".to_owned()).message(), "plugin spawn failed: x");
    let e = entity_id("", "k", "n").unwrap_err();
    assert_eq!(HostError::EntityId(e).message(), "entity id error: segment plugin_id empty");
    let _ = FINDING_MALFORMED_ENTITY;
}

#[test]
fn t2_reads_outside_project_root_refused_at_handshake() {
    let init = "{\"jsonrpc\":\"2.0\",\"id\":1,\"result\":{\"name\":\"mock-plugin\",\"version\":\"0.1.0\",\"ontology_version\":\"0.1.0\",\"capabilities\":{}}}";
    let shutdown = "{\"jsonrpc\":\"2.0\",\"id\":2,\"result\":{}}";
    let decode_init = |t: String| -> Result<String, String> {
        let v: serde_json::Value = serde_json::from_str(&t).map_err(|e| e.to_string())?;
        v.get("ontology_version")
            .and_then(|x| x.as_str())
            .map(str::to_owned)
            .ok_or_else(|| "missing field `ontology_version`".to_owned())
    };
    let mut host = host_with_responses(&[init, shutdown]);
    host.set_next_request_id_test(1);
    let err = host
        .handshake(&decode_response, &decode_init, capability_refusal(true))
        .expect_err("handshake must fail for reads_outside=true");
    assert!(matches!(err, HostError::Handshake(_)), "error must be Handshake variant; got: {err:?}");
    let findings = host.take_findings();
    assert!(!findings.is_empty(), "must have at least one finding after refusal");
    assert!(findings.iter().any(|f| f.subcode == FINDING_UNSUPPORTED_CAPABILITY));
    let written = String::from_utf8_lossy(host.writer_bytes_test()).into_owned();
    assert!(!written.contains("analyze_file"));
    assert!(!written.contains(r#""method":"initialized""#));
}

#[test]
fn cross_plugin_plugin_id_spoof_is_rejected() {
    let spoof = "{\"id\":\"other:function:demo.f\",\"kind\":\"function\",\"qualified_name\":\"demo.f\",\"source\":{\"file_path\":\"/proj/a.py\"}}";
    let result = format!("{{\"jsonrpc\":\"2.0\",\"id\":1,\"result\":{{\"entities\":[{spoof}]}}}}");
    let mut host = host_with_responses(&[result.as_str()]);
    let accepted = host
        .analyze_file("/proj/a.py", &decode_response, &decode_entities, &canonical_as_is)
        .unwrap();
    assert!(accepted.is_empty());
    let f = host.take_findings();
    assert_eq!(f.len(), 1);
    assert_eq!(f[0].subcode, FINDING_ENTITY_ID_MISMATCH);
    assert_eq!(
        f[0].metadata,
        vec![
            ("expected".to_owned(), "mock:function:demo.f".to_owned()),
            ("got".to_owned(), "other:function:demo.f".to_owned()),
        ]
    );
}

#[test]
fn t10_manifest_executable_with_path_separator_is_refused() {
    assert_eq!(
        executable_refusal("/bin/sh", Some("clarion-plugin-x"), "/usr/bin/clarion-plugin-x"),
        Some("manifest plugin.executable \"/bin/sh\" contains a path separator; must be a bare basename matching the discovered binary".to_owned())
    );
    assert!(executable_refusal("..\\evil", Some("evil"), "evil").is_some());
}

#[test]
fn t11_manifest_executable_basename_mismatch_is_refused() {
    assert_eq!(
        executable_refusal("clarion-plugin-a", Some("clarion-plugin-b"), "/p/clarion-plugin-b"),
        Some("manifest plugin.executable \"clarion-plugin-a\" does not match discovered binary basename \"clarion-plugin-b\"".to_owned())
    );
    assert_eq!(
        executable_refusal("clarion-plugin-a", None, "/p/\u{fffd}"),
        Some("discovered executable /p/\u{fffd} has no UTF-8 basename".to_owned())
    );
    assert_eq!(executable_refusal("clarion-plugin-a", Some("clarion-plugin-a"), "/p/clarion-plugin-a"), None);
}

#[test]
fn request_text_escapes_json_as_serde_json_does() {
    let params = AnalyzeFileParams { file_path: "a\"b\\c\n\t\u{1}\u{7f}é".to_owned() };
    let body = analyze_file_request(&params, 3);
    assert_eq!(
        String::from_utf8(body).unwrap(),
        "{\"jsonrpc\":\"2.0\",\"method\":\"analyze_file\",\"params\":{\"file_path\":\"a\\\"b\\\\c\\n\\t\\u0001\u{7f}é\"},\"id\":3}"
    );
}

#[test]
fn entity_cap_of_two_refuses_the_third_entity() {
    let result = format!(
        "{{\"jsonrpc\":\"2.0\",\"id\":1,\"result\":{{\"entities\":[{},{},{}]}}}}",
        entity_json("function", "demo.a", "/proj/demo.py"),
        entity_json("function", "demo.b", "/proj/demo.py"),
        entity_json("function", "demo.c", "/proj/demo.py"),
    );
    let mut host = host_with_responses(&[result.as_str(), "{\"jsonrpc\":\"2.0\",\"id\":2,\"result\":{}}"]);
    host.set_entity_cap_test(EntityCountCap::new(2));
    let err = host
        .analyze_file("/proj/demo.py", &decode_response, &decode_entities, &canonical_as_is)
        .expect_err("cap");
    assert!(matches!(err, HostError::EntityCapExceeded(ref e) if e.cap == 2 && e.would_reach == 3));
    let findings = host.take_findings();
    assert_eq!(findings.len(), 1);
    assert_eq!(findings[0].subcode, FINDING_ENTITY_CAP);
    let meta: Vec<(String, String)> =
        findings[0].metadata.iter().map(|(k, v)| (k.to_string(), v.to_string())).collect();
    assert!(meta.contains(&("cap".to_owned(), "2".to_owned())), "{meta:?}");
    assert!(meta.contains(&("would_reach".to_owned(), "3".to_owned())), "{meta:?}");
    let sent = String::from_utf8(host.writer_bytes_test().clone()).unwrap();
    assert!(sent.contains("\"method\":\"shutdown\""));
}

#[test]
fn eleven_escaping_entities_trip_the_breaker_in_analyze_file() {
    let entities: Vec<String> =
        (0..11).map(|i| entity_json("function", &format!("demo.f{i}"), "/etc/passwd")).collect();
    let result = format!(
        "{{\"jsonrpc\":\"2.0\",\"id\":1,\"result\":{{\"entities\":[{}]}}}}",
        entities.join(",")
    );
    let mut host = host_with_responses(&[result.as_str(), "{\"jsonrpc\":\"2.0\",\"id\":2,\"result\":{}}"]);
    let err = host
        .analyze_file("/proj/demo.py", &decode_response, &decode_entities, &canonical_as_is)
        .expect_err("the eleventh escape trips the breaker");
    assert!(matches!(err, HostError::PathEscapeBreakerTripped));
    let findings = host.take_findings();
    assert_eq!(findings.len(), 12);
    assert_eq!(findings[11].subcode, FINDING_DISABLED_PATH_ESCAPE);
    let sent = String::from_utf8(host.writer_bytes_test().clone()).unwrap();
    assert!(sent.contains("\"method\":\"shutdown\""));
}
