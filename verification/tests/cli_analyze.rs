use clarion::cli::analyze::{
    classify_host_error, close_after_plugins, close_without_plugins, entities_stats_json, entity_record,
    extension_wanted, is_oom_signal, is_skipped_dir, lowercase_extensions, short_name, spawn_failure_reason,
    AfterFailure, PluginFailures, PluginSession, RunClose, RunOutcome, SessionStep,
};
use clarion::plugin::breaker::CrashLoopBreaker;
use clarion::entity_id::entity_id;
use clarion::plugin::host::{AcceptedEntity, HostError, RawEntity};
use clarion::plugin::limits::CapExceeded;
use clarion::plugin::protocol::ProtocolError;
use clarion::plugin::transport::TransportError;
use clarion::storage::commands::RunStatus;

#[test]
fn no_plugins_and_no_errors_skips() {
    match close_without_plugins(&Vec::new()) {
        RunClose::Commit { status, stats_json } => {
            assert_eq!(status, RunStatus::SkippedNoPlugins);
            assert_eq!(stats_json, "{\"entities_inserted\":0}");
        }
        _ => panic!("expected skip"),
    }
}

#[test]
fn discovery_errors_fail_the_run() {
    match close_without_plugins(&vec!["a".to_owned(), "b".to_owned()]) {
        RunClose::Fail { reason } => assert_eq!(
            reason,
            "all 2 discovered plugin manifest(s) failed to parse: a; b"
        ),
        _ => panic!("expected failure"),
    }
}

#[test]
fn completed_run_counts_entities() {
    match close_after_plugins(RunOutcome::Completed, 42, 0) {
        RunClose::Commit { status, stats_json } => {
            assert_eq!(status, RunStatus::Completed);
            assert_eq!(stats_json, "{\"entities_inserted\":42,\"ambiguous_edges_total\":0}");
        }
        _ => panic!(),
    }
    match close_after_plugins(RunOutcome::Failed { reason: "x".to_owned() }, 1, 0) {
        RunClose::Fail { reason } => assert_eq!(reason, "x"),
        _ => panic!(),
    }
    assert_eq!(entities_stats_json(u64::MAX), "{\"entities_inserted\":18446744073709551615}");
}

#[test]
fn short_names() {
    assert_eq!(short_name("demo.Foo.bar"), "bar");
    assert_eq!(short_name("plain"), "plain");
    assert_eq!(short_name("trailing."), "");
    assert_eq!(short_name(""), "");
}

#[test]
fn extensions_compare_case_insensitively() {
    let wanted = lowercase_extensions(&vec!["PY".to_owned(), "pyi".to_owned()]);
    assert_eq!(wanted, vec!["py".to_owned(), "pyi".to_owned()]);
    assert!(extension_wanted(Some("Py"), &wanted));
    assert!(!extension_wanted(Some("rs"), &wanted));
    assert!(!extension_wanted(None, &wanted));
}

#[test]
fn host_error_reasons() {
    assert_eq!(
        classify_host_error("py", &HostError::EntityCapExceeded(CapExceeded { would_reach: 2, cap: 1 })),
        "plugin py exceeded entity-count cap"
    );
    assert_eq!(
        classify_host_error("py", &HostError::PathEscapeBreakerTripped),
        "plugin py tripped path-escape breaker"
    );
    assert_eq!(
        classify_host_error("py", &HostError::Transport(TransportError::MissingContentLength)),
        "plugin py transport/protocol error: missing Content-Length header"
    );
    assert_eq!(
        classify_host_error(
            "py",
            &HostError::Protocol(ProtocolError { code: 7, message: "m".to_owned(), data: None })
        ),
        "plugin py transport/protocol error: code=7, message=m"
    );
    assert_eq!(
        classify_host_error("py", &HostError::Serde("bad".to_owned())),
        "plugin py error: json: bad"
    );
    assert_eq!(
        spawn_failure_reason("py", &HostError::Spawn("no such file".to_owned())),
        "failed to spawn plugin py: no such file"
    );
    assert_eq!(
        spawn_failure_reason("py", &HostError::Handshake("nope".to_owned())),
        "plugin py refused handshake: nope"
    );
    assert_eq!(
        spawn_failure_reason("py", &HostError::PathEscapeBreakerTripped),
        "plugin py spawn/handshake error: path-escape breaker tripped; plugin killed"
    );
}

#[test]
fn oom_signals() {
    assert!(is_oom_signal(9));
    assert!(is_oom_signal(11));
    assert!(!is_oom_signal(15));
}

#[test]
fn skipped_directories() {
    for d in [".clarion", ".git", ".hg", ".svn", ".jj", ".venv", "__pycache__", "node_modules"] {
        assert!(is_skipped_dir(d), "{d}");
    }
    assert!(!is_skipped_dir("src"));
    assert!(!is_skipped_dir(".GIT"));
}

#[test]
fn entity_record_carries_identity_and_extra_json() {
    let raw = RawEntity {
        id: "python:function:demo.pkg.hello".to_owned(),
        kind: "function".to_owned(),
        qualified_name: "demo.pkg.hello".to_owned(),
        file_path: "/proj/demo/pkg.py".to_owned(),
        extra_json: "{\"decorators\":[\"staticmethod\"]}".to_owned(),
        source_extra_bytes: 0,
    };
    let acc = AcceptedEntity {
        id: entity_id("python", "function", "demo.pkg.hello").unwrap(),
        kind: raw.kind.clone(),
        qualified_name: raw.qualified_name.clone(),
        source_file_path: raw.file_path.clone(),
        raw,
    };
    let r = entity_record(&acc, "python", "2026-01-02T03:04:05.000Z".to_owned());
    assert_eq!(r.id, "python:function:demo.pkg.hello");
    assert_eq!(r.plugin_id, "python");
    assert_eq!(r.kind, "function");
    assert_eq!(r.name, "demo.pkg.hello");
    assert_eq!(r.short_name, "hello");
    assert_eq!(r.properties_json, "{\"decorators\":[\"staticmethod\"]}");
    assert_eq!(r.created_at, "2026-01-02T03:04:05.000Z");
    assert_eq!(r.updated_at, r.created_at);
    assert_eq!(r.parent_id, None);
    assert_eq!(r.content_hash, None);
}

#[test]
fn a_crash_does_not_stop_the_other_plugins_until_the_breaker_trips() {
    let mut failures = PluginFailures::new();
    assert!(matches!(failures.outcome(), RunOutcome::Completed));
    let mut breaker = CrashLoopBreaker::default();
    for i in 0..3 {
        assert_eq!(
            failures.plugin_failed(&mut breaker, format!("plugin broken{i} refused handshake")),
            AfterFailure::Continue
        );
    }
    assert_eq!(
        failures.plugin_failed(&mut breaker, "plugin broken3 refused handshake".to_owned()),
        AfterFailure::StopCrashLoop
    );
    match failures.outcome() {
        RunOutcome::PluginsFailed { reason } => {
            for i in 0..4 {
                assert!(reason.contains(&format!("broken{i}")), "{reason}");
            }
            assert!(reason.starts_with("plugin broken0 refused handshake; plugin broken1"));
        }
        _ => panic!("failures must fail the run"),
    }
}

#[test]
fn stats_report_the_ambiguous_edges_total() {
    match close_after_plugins(RunOutcome::Completed, 3, 1) {
        RunClose::Commit { status, stats_json } => {
            assert_eq!(status, RunStatus::Completed);
            assert_eq!(stats_json, "{\"entities_inserted\":3,\"ambiguous_edges_total\":1}");
        }
        _ => panic!("a completed run commits"),
    }
}

#[test]
fn a_plugin_crash_keeps_the_other_plugins_entities_and_fails_the_run() {
    let mut failures = PluginFailures::new();
    let mut breaker = CrashLoopBreaker::default();
    assert_eq!(
        failures.plugin_failed(&mut breaker, "plugin broken refused handshake".to_owned()),
        AfterFailure::Continue
    );
    match close_after_plugins(failures.outcome(), 1, 0) {
        RunClose::CommitFailed { reason, stats_json } => {
            assert_eq!(reason, "plugin broken refused handshake");
            assert_eq!(stats_json, "{\"failure_reason\":\"plugin broken refused handshake\"}");
        }
        _ => panic!("the surviving plugins' entities are committed"),
    }
}

#[test]
fn a_session_analyses_in_order_then_shuts_down() {
    let mut s = PluginSession::new(2);
    assert_eq!(s.next_step(), SessionStep::Analyze(0));
    s.file_done(true);
    assert_eq!(s.next_step(), SessionStep::Analyze(1));
    s.file_done(true);
    assert_eq!(s.next_step(), SessionStep::Shutdown);
    s.shutdown_done(true);
    assert_eq!(s.next_step(), SessionStep::Reap);
}

#[test]
fn a_session_stops_at_the_first_failure_and_kills() {
    let mut s = PluginSession::new(3);
    s.file_done(true);
    s.file_done(false);
    assert_eq!(s.next_step(), SessionStep::Kill);
    s.killed();
    assert_eq!(s.next_step(), SessionStep::Reap);
    let mut t = PluginSession::new(0);
    assert_eq!(t.next_step(), SessionStep::Shutdown);
    t.shutdown_done(false);
    assert_eq!(t.next_step(), SessionStep::Kill);
}
