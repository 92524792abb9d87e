use clarion::storage::commands::{EdgeConfidence, EdgeRecord, RunStatus};
use clarion::storage::writer::{
    channel_closed_reason, edge_tally, enforce_edge_contract, failure_stats_json,
    missing_contains_message, orphan_contains_message, ActorState, EdgeTally, WriteKind,
    DEFAULT_BATCH_SIZE,
};

fn edge(kind: &str, confidence: EdgeConfidence, start: Option<i64>, end: Option<i64>) -> EdgeRecord {
    EdgeRecord {
        kind: kind.to_owned(),
        from_id: "python:module:demo".to_owned(),
        to_id: "python:function:demo.f".to_owned(),
        confidence,
        properties_json: None,
        source_file_id: Some("python:module:demo".to_owned()),
        source_byte_start: start,
        source_byte_end: end,
    }
}

#[test]
fn run_status_text() {
    assert_eq!(RunStatus::SkippedNoPlugins.as_str(), "skipped_no_plugins");
    assert_eq!(RunStatus::Completed.as_str(), "completed");
    assert_eq!(RunStatus::Failed.as_str(), "failed");
    assert_eq!(EdgeConfidence::Ambiguous.as_str(), "ambiguous");
}

#[test]
fn contains_edge_with_byte_offsets_rejected() {
    let err = enforce_edge_contract(&edge("contains", EdgeConfidence::Resolved, Some(0), Some(42)))
        .unwrap_err();
    assert_eq!(
        err,
        "CLA-INFRA-EDGE-SOURCE-RANGE-CONTRACT: edge kind \"contains\" MUST have NULL source_byte_start/end; got start=Some(0) end=Some(42) for (python:module:demo -> python:function:demo.f)"
    );
}

#[test]
fn structural_edge_needs_resolved_confidence() {
    let err = enforce_edge_contract(&edge("guides", EdgeConfidence::Ambiguous, None, None)).unwrap_err();
    assert_eq!(
        err,
        "CLA-INFRA-EDGE-CONFIDENCE-CONTRACT: structural edge kind \"guides\" MUST carry confidence=resolved; got confidence=Ambiguous for (python:module:demo -> python:function:demo.f)"
    );
    assert!(enforce_edge_contract(&edge("in_subsystem", EdgeConfidence::Inferred, None, None))
        .unwrap_err()
        .contains("CLA-INFRA-EDGE-CONFIDENCE-CONTRACT"));
    assert!(enforce_edge_contract(&edge("contains", EdgeConfidence::Resolved, None, None)).is_ok());
}

#[test]
fn anchored_edge_rules() {
    let err = enforce_edge_contract(&edge("calls", EdgeConfidence::Inferred, Some(1), Some(2))).unwrap_err();
    assert_eq!(
        err,
        "CLA-INFRA-EDGE-CONFIDENCE-CONTRACT: inferred-tier edges are query-time-only at scan time; got confidence=inferred for anchored edge kind \"calls\" (python:module:demo -> python:function:demo.f)"
    );
    let err = enforce_edge_contract(&edge("imports", EdgeConfidence::Resolved, None, None)).unwrap_err();
    assert_eq!(
        err,
        "CLA-INFRA-EDGE-SOURCE-RANGE-CONTRACT: edge kind \"imports\" MUST have Some source_byte_start AND source_byte_end; got None for (python:module:demo -> python:function:demo.f)"
    );
    // An anchored edge needs both offsets.
    assert!(enforce_edge_contract(&edge("decorates", EdgeConfidence::Ambiguous, Some(0), Some(4))).is_ok());
    assert!(enforce_edge_contract(&edge("decorates", EdgeConfidence::Ambiguous, None, Some(-4))).is_err());
    let err = enforce_edge_contract(&edge("calls", EdgeConfidence::Resolved, Some(10), None)).unwrap_err();
    assert!(err.starts_with("CLA-INFRA-EDGE-SOURCE-RANGE-CONTRACT"));
}

#[test]
fn unknown_edge_kind_rejected_strictly() {
    let err = enforce_edge_contract(&edge("smells_like", EdgeConfidence::Resolved, None, None)).unwrap_err();
    assert_eq!(
        err,
        "CLA-INFRA-EDGE-UNKNOWN-KIND: edge kind \"smells_like\" not in the v0.3.0 ontology; known kinds: [\"contains\", \"in_subsystem\", \"guides\", \"emits_finding\"] + [\"calls\", \"imports\", \"decorates\", \"inherits_from\"]"
    );
}

#[test]
fn batch_size_fifty_commits_every_fifty_writes() {
    let mut s = ActorState::new(DEFAULT_BATCH_SIZE);
    s.check_begin_run().unwrap();
    s.run_begun("run-1".to_owned());
    let mut commits = 0;
    for _ in 0..175 {
        s.check_write(WriteKind::Entity).unwrap();
        if s.needs_begin() {
            s.tx_opened();
        }
        if s.record_write() {
            commits += 1;
            s.tx_opened();
        }
    }
    assert_eq!(commits, 3);
    assert_eq!(s.writes_in_batch, 25);
    assert!(s.in_tx);
}

#[test]
fn writes_without_run_and_double_begin_are_protocol_violations() {
    let mut s = ActorState::new(2);
    assert_eq!(
        s.check_write(WriteKind::Entity).unwrap_err(),
        "InsertEntity received without a preceding BeginRun"
    );
    assert_eq!(
        s.check_write(WriteKind::Edge).unwrap_err(),
        "InsertEdge received without a preceding BeginRun"
    );
    s.run_begun("r".to_owned());
    assert_eq!(
        s.check_begin_run().unwrap_err(),
        "BeginRun received while a run is already in progress"
    );
    s.tx_closed();
    s.run_closed();
    assert!(s.check_begin_run().is_ok());
    assert!(s.current_run.is_none());
}

#[test]
fn channel_close_reports_open_transaction_and_run() {
    let mut s = ActorState::new(50);
    s.run_begun("r".to_owned());
    assert_eq!(s.channel_closed(), (true, Some("r".to_owned())));
    assert_eq!(s.channel_closed(), (false, None));
    assert_eq!(channel_closed_reason(), "writer channel closed unexpectedly");
}

#[test]
fn zero_batch_size_commits_every_write() {
    let mut s = ActorState::new(0);
    s.run_begun("r".to_owned());
    assert!(s.record_write());
    assert_eq!(s.writes_in_batch, 0);
}

#[test]
fn failure_stats_are_json() {
    assert_eq!(failure_stats_json("boom \"x\""), "{\"failure_reason\":\"boom \\\"x\\\"\"}");
}

#[test]
fn consistency_messages() {
    assert_eq!(
        missing_contains_message("e", Some("p"), None),
        "CLA-INFRA-PARENT-CONTAINS-MISMATCH: entity \"e\" declares parent_id=Some(\"p\") but no matching `contains` edge exists (closest contains.from_id=None)"
    );
    assert_eq!(
        orphan_contains_message("a", "b", None),
        "CLA-INFRA-PARENT-CONTAINS-MISMATCH: contains edge (\"a\" -> \"b\") has no matching child parent_id (child.parent_id=None)"
    );
}

#[test]
fn edge_tallies() {
    assert_eq!(edge_tally(0, EdgeConfidence::Ambiguous), EdgeTally::Deduped);
    assert_eq!(edge_tally(1, EdgeConfidence::Ambiguous), EdgeTally::Ambiguous);
    assert_eq!(edge_tally(1, EdgeConfidence::Resolved), EdgeTally::Plain);
}
