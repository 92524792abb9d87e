//! The writer actor's run and transaction protocol.
//!
//! The actor owns the sole write connection and handles one command at a
//! time: `BeginRun` opens a run and a transaction, each entity or edge
//! insert counts towards the current batch, and every `batch_size` writes the
//! batch is committed and a new one opened eagerly. `CommitRun` and
//! `FailRun` close the run. This module holds the actor's state and every
//! decision it makes; the SQL statements are issued by the caller in the
//! order these functions prescribe.

use vstd::prelude::*;
use vstd::arithmetic::div_mod::{lemma_fundamental_div_mod, lemma_fundamental_div_mod_converse};

use crate::storage::commands::{confidence_debug, EdgeConfidence, EdgeRecord};
use crate::text::{debug_quoted, debug_str, i64_to_string, json_quoted, json_string, same_text, signed_decimal};

verus! {

/// Default transaction batch size.
pub const DEFAULT_BATCH_SIZE: usize = 50;

/// Default command channel capacity.
pub const DEFAULT_CHANNEL_CAPACITY: usize = 256;

// ── Edge contract ─────────────────────────────────────────────────────────────

/// Structural edge kinds: confidence must be `resolved`, no source range.
pub open spec fn is_structural_kind(k: Seq<char>) -> bool {
    k == "contains"@ || k == "in_subsystem"@ || k == "guides"@ || k == "emits_finding"@
}

/// AST-anchored edge kinds: never `inferred`, a source range is required.
pub open spec fn is_anchored_kind(k: Seq<char>) -> bool {
    k == "calls"@ || k == "imports"@ || k == "decorates"@ || k == "inherits_from"@
}

/// `Debug` rendering of an optional offset: `None` or `Some(<n>)`.
pub open spec fn offset_debug(v: Option<i64>) -> Seq<char> {
    match v {
        None => "None"@,
        Some(n) => "Some("@ + signed_decimal(n as int) + ")"@,
    }
}

/// `Debug` rendering of an optional string: `None` or `Some("<escaped>")`.
pub open spec fn opt_text_debug(v: Option<Seq<char>>) -> Seq<char> {
    match v {
        None => "None"@,
        Some(s) => "Some("@ + debug_quoted(s) + ")"@,
    }
}

/// The edge carries a source offset: either offset is present.
pub open spec fn has_range(e: EdgeRecord) -> bool {
    e.source_byte_start is Some || e.source_byte_end is Some
}

/// The edge carries a full source range: both offsets are present.
pub open spec fn has_full_range(e: EdgeRecord) -> bool {
    e.source_byte_start is Some && e.source_byte_end is Some
}

/// Why the per-kind contract refuses an edge.
#[derive(Debug, Clone, Copy, PartialEq, Eq, Structural)]
pub enum EdgeBreach {
    /// A structural edge whose confidence is not `resolved`.
    StructuralConfidence,
    /// A structural edge with a source range.
    StructuralRange,
    /// An anchored edge with `inferred` confidence.
    AnchoredInferred,
    /// An anchored edge without both source offsets.
    AnchoredRange,
    /// A kind outside the ontology.
    UnknownKind,
}

/// The per-kind confidence and source-range contract: `None` when the edge
/// may be written.
pub open spec fn edge_breach(e: EdgeRecord) -> Option<EdgeBreach> {
    if is_structural_kind(e.kind@) {
        if e.confidence != EdgeConfidence::Resolved {
            Some(EdgeBreach::StructuralConfidence)
        } else if has_range(e) {
            Some(EdgeBreach::StructuralRange)
        } else {
            None
        }
    } else if is_anchored_kind(e.kind@) {
        if e.confidence == EdgeConfidence::Inferred {
            Some(EdgeBreach::AnchoredInferred)
        } else if !has_full_range(e) {
            Some(EdgeBreach::AnchoredRange)
        } else {
            None
        }
    } else {
        Some(EdgeBreach::UnknownKind)
    }
}

/// `" (<from> -> <to>)"` without the leading space, as the messages end.
pub open spec fn edge_ends(e: EdgeRecord) -> Seq<char> {
    "("@ + e.from_id@ + " -> "@ + e.to_id@ + ")"@
}

/// The protocol message for each breach; each starts with its finding code.
pub open spec fn breach_message(b: EdgeBreach, e: EdgeRecord) -> Seq<char> {
    match b {
        EdgeBreach::StructuralConfidence => "CLA-INFRA-EDGE-CONFIDENCE-CONTRACT: structural edge kind "@
            + debug_quoted(e.kind@) + " MUST carry confidence=resolved; got confidence="@
            + confidence_debug(e.confidence) + " for "@ + edge_ends(e),
        EdgeBreach::StructuralRange => "CLA-INFRA-EDGE-SOURCE-RANGE-CONTRACT: edge kind "@
            + debug_quoted(e.kind@) + " MUST have NULL source_byte_start/end; got start="@
            + offset_debug(e.source_byte_start) + " end="@ + offset_debug(e.source_byte_end)
            + " for "@ + edge_ends(e),
        EdgeBreach::AnchoredInferred =>
            "CLA-INFRA-EDGE-CONFIDENCE-CONTRACT: inferred-tier edges are query-time-only at scan time; got confidence=inferred for anchored edge kind "@
            + debug_quoted(e.kind@) + " "@ + edge_ends(e),
        EdgeBreach::AnchoredRange => "CLA-INFRA-EDGE-SOURCE-RANGE-CONTRACT: edge kind "@
            + debug_quoted(e.kind@)
            + " MUST have Some source_byte_start AND source_byte_end; got None for "@
            + edge_ends(e),
        EdgeBreach::UnknownKind => "CLA-INFRA-EDGE-UNKNOWN-KIND: edge kind "@ + debug_quoted(e.kind@)
            + unknown_kind_tail(),
    }
}

/// The end of the unknown-kind message: the ontology's known kinds.
pub open spec fn unknown_kind_tail() -> Seq<char> {
    " not in the v0.3.0 ontology; known kinds: [\"contains\", \"in_subsystem\", \"guides\", \"emits_finding\"] + [\"calls\", \"imports\", \"decorates\", \"inherits_from\"]"@
}

/// `k` is one of the eight kinds of the v0.3.0 edge ontology.
pub open spec fn ontology_kind(k: Seq<char>) -> bool {
    ||| k == "contains"@
    ||| k == "in_subsystem"@
    ||| k == "guides"@
    ||| k == "emits_finding"@
    ||| k == "calls"@
    ||| k == "imports"@
    ||| k == "decorates"@
    ||| k == "inherits_from"@
}

proof fn lemma_kind_literals_differ()
    ensures
        "contains"@ != "calls"@,
        "contains"@ != "imports"@,
        "contains"@ != "decorates"@,
        "contains"@ != "inherits_from"@,
        "in_subsystem"@ != "calls"@,
        "in_subsystem"@ != "imports"@,
        "in_subsystem"@ != "decorates"@,
        "in_subsystem"@ != "inherits_from"@,
        "guides"@ != "calls"@,
        "guides"@ != "imports"@,
        "guides"@ != "decorates"@,
        "guides"@ != "inherits_from"@,
        "emits_finding"@ != "calls"@,
        "emits_finding"@ != "imports"@,
        "emits_finding"@ != "decorates"@,
        "emits_finding"@ != "inherits_from"@,
{
    reveal_strlit("contains");
    reveal_strlit("in_subsystem");
    reveal_strlit("guides");
    reveal_strlit("emits_finding");
    reveal_strlit("calls");
    reveal_strlit("imports");
    reveal_strlit("decorates");
    reveal_strlit("inherits_from");
    assert("contains"@[1] != "calls"@[1]);
    assert("contains"@[0] != "imports"@[0]);
    assert("contains"@[0] != "decorates"@[0]);
    assert("contains"@[0] != "inherits_from"@[0]);
    assert("in_subsystem"@[0] != "calls"@[0]);
    assert("in_subsystem"@[1] != "imports"@[1]);
    assert("in_subsystem"@[0] != "decorates"@[0]);
    assert("in_subsystem"@[2] != "inherits_from"@[2]);
    assert("guides"@[0] != "calls"@[0]);
    assert("guides"@[0] != "imports"@[0]);
    assert("guides"@[0] != "decorates"@[0]);
    assert("guides"@[0] != "inherits_from"@[0]);
    assert("emits_finding"@[0] != "calls"@[0]);
    assert("emits_finding"@[0] != "imports"@[0]);
    assert("emits_finding"@[0] != "decorates"@[0]);
    assert("emits_finding"@[0] != "inherits_from"@[0]);
}

/// Law: the edge contract knows every kind of the ontology: an edge of
/// any of the eight kinds (`contains`, `in_subsystem`, `guides`,
/// `emits_finding`, `calls`, `imports`, `decorates`, `inherits_from`) is
/// never refused as of an unknown kind, and an edge of any other kind
/// always is.
pub proof fn law_edge_kinds_known_exactly(e: EdgeRecord)
    ensures
        ontology_kind(e.kind@) ==> edge_breach(e) != Some(EdgeBreach::UnknownKind),
        !ontology_kind(e.kind@) ==> edge_breach(e) == Some(EdgeBreach::UnknownKind),
{
}

/// Law: an AST-anchored edge — `calls`, `imports`, `decorates` or
/// `inherits_from` — with `resolved` or `ambiguous` confidence and both
/// source offsets is written.
pub proof fn law_anchored_edge_with_range_is_written(e: EdgeRecord)
    requires
        e.kind@ == "calls"@ || e.kind@ == "imports"@ || e.kind@ == "decorates"@ || e.kind@
            == "inherits_from"@,
        e.confidence != EdgeConfidence::Inferred,
        e.source_byte_start is Some,
        e.source_byte_end is Some,
    ensures
        edge_breach(e) is None,
{
    lemma_kind_literals_differ();
}

/// Law: a structural edge — `contains`, `in_subsystem`, `guides` or
/// `emits_finding` — with `resolved` confidence and no source offset is
/// written.
pub proof fn law_structural_edge_without_range_is_written(e: EdgeRecord)
    requires
        e.kind@ == "contains"@ || e.kind@ == "in_subsystem"@ || e.kind@ == "guides"@ || e.kind@
            == "emits_finding"@,
        e.confidence == EdgeConfidence::Resolved,
        e.source_byte_start is None,
        e.source_byte_end is None,
    ensures
        edge_breach(e) is None,
{
}

fn is_structural(kind: &str) -> (b: bool)
    ensures
        b == is_structural_kind(kind@),
{
    same_text(kind, "contains") || same_text(kind, "in_subsystem") || same_text(kind, "guides")
        || same_text(kind, "emits_finding")
}

fn is_anchored(kind: &str) -> (b: bool)
    ensures
        b == is_anchored_kind(kind@),
{
    same_text(kind, "calls") || same_text(kind, "imports") || same_text(kind, "decorates")
        || same_text(kind, "inherits_from")
}

fn offset_text(v: Option<i64>) -> (s: String)
    ensures
        s@ == offset_debug(v),
{
    match v {
        None => String::from_str("None"),
        Some(n) => {
            let mut s = String::from_str("Some(");
            s.append(i64_to_string(n).as_str());
            s.append(")");
            s
        },
    }
}

fn opt_text(v: Option<&str>) -> (s: String)
    ensures
        s@ == opt_text_debug(
            match v {
                None => None,
                Some(t) => Some(t@),
            },
        ),
{
    match v {
        None => String::from_str("None"),
        Some(t) => {
            let mut s = String::from_str("Some(");
            s.append(debug_str(t).as_str());
            s.append(")");
            s
        },
    }
}

fn append_ends(s: &mut String, e: &EdgeRecord)
    ensures
        final(s)@ == old(s)@ + edge_ends(*e),
{
    s.append("(");
    s.append(e.from_id.as_str());
    s.append(" -> ");
    s.append(e.to_id.as_str());
    s.append(")");
}

/// Enforce the per-kind confidence and source-range contract on an edge.
/// The error is the protocol message, which embeds
/// `CLA-INFRA-EDGE-CONFIDENCE-CONTRACT`, `CLA-INFRA-EDGE-SOURCE-RANGE-CONTRACT`
/// or `CLA-INFRA-EDGE-UNKNOWN-KIND`.
pub fn enforce_edge_contract(edge: &EdgeRecord) -> (r: Result<(), String>)
    ensures
        match edge_breach(*edge) {
            None => r is Ok,
            Some(b) => (r matches Err(m) && m@ == breach_message(b, *edge)),
        },
{
    let range = edge.source_byte_start.is_some() || edge.source_byte_end.is_some();
    let full_range = edge.source_byte_start.is_some() && edge.source_byte_end.is_some();
    let kind = edge.kind.as_str();
    if is_structural(kind) {
        if edge.confidence != EdgeConfidence::Resolved {
            let mut m = String::from_str("CLA-INFRA-EDGE-CONFIDENCE-CONTRACT: structural edge kind ");
            m.append(debug_str(kind).as_str());
            m.append(" MUST carry confidence=resolved; got confidence=");
            m.append(edge.confidence.debug_name());
            m.append(" for ");
            append_ends(&mut m, edge);
            return Err(m);
        }
        if range {
            let mut m = String::from_str("CLA-INFRA-EDGE-SOURCE-RANGE-CONTRACT: edge kind ");
            m.append(debug_str(kind).as_str());
            m.append(" MUST have NULL source_byte_start/end; got start=");
            m.append(offset_text(edge.source_byte_start).as_str());
            m.append(" end=");
            m.append(offset_text(edge.source_byte_end).as_str());
            m.append(" for ");
            append_ends(&mut m, edge);
            return Err(m);
        }
    } else if is_anchored(kind) {
        if edge.confidence == EdgeConfidence::Inferred {
            let mut m = String::from_str(
                "CLA-INFRA-EDGE-CONFIDENCE-CONTRACT: inferred-tier edges are query-time-only at scan time; got confidence=inferred for anchored edge kind ",
            );
            m.append(debug_str(kind).as_str());
            m.append(" ");
            append_ends(&mut m, edge);
            return Err(m);
        }
        if !full_range {
            let mut m = String::from_str("CLA-INFRA-EDGE-SOURCE-RANGE-CONTRACT: edge kind ");
            m.append(debug_str(kind).as_str());
            m.append(" MUST have Some source_byte_start AND source_byte_end; got None for ");
            append_ends(&mut m, edge);
            return Err(m);
        }
    } else {
        let mut m = String::from_str("CLA-INFRA-EDGE-UNKNOWN-KIND: edge kind ");
        m.append(debug_str(kind).as_str());
        m.append(
            " not in the v0.3.0 ontology; known kinds: [\"contains\", \"in_subsystem\", \"guides\", \"emits_finding\"] + [\"calls\", \"imports\", \"decorates\", \"inherits_from\"]",
        );
        return Err(m);
    }
    Ok(())
}

// ── Consistency-check and failure messages ───────────────────────────────────

/// Message for an entity whose `parent_id` has no matching `contains` edge.
pub open spec fn missing_contains_text(
    eid: Seq<char>,
    parent: Option<Seq<char>>,
    closest_from: Option<Seq<char>>,
) -> Seq<char> {
    "CLA-INFRA-PARENT-CONTAINS-MISMATCH: entity "@ + debug_quoted(eid) + " declares parent_id="@
        + opt_text_debug(parent)
        + " but no matching `contains` edge exists (closest contains.from_id="@
        + opt_text_debug(closest_from) + ")"@
}

/// Message for a `contains` edge whose child does not name its source as
/// parent.
pub open spec fn orphan_contains_text(
    from: Seq<char>,
    to: Seq<char>,
    child_parent: Option<Seq<char>>,
) -> Seq<char> {
    "CLA-INFRA-PARENT-CONTAINS-MISMATCH: contains edge ("@ + debug_quoted(from) + " -> "@
        + debug_quoted(to) + ") has no matching child parent_id (child.parent_id="@
        + opt_text_debug(child_parent) + ")"@
}

/// The view of an optional string argument.
pub open spec fn opt_view(v: Option<&str>) -> Option<Seq<char>> {
    match v {
        None => None,
        Some(t) => Some(t@),
    }
}

/// The parent/contains consistency message when an entity declares a parent
/// that no `contains` edge backs.
pub fn missing_contains_message(eid: &str, parent: Option<&str>, closest_from: Option<&str>) -> (s:
    String)
    ensures
        s@ == missing_contains_text(eid@, opt_view(parent), opt_view(closest_from)),
{
    let mut s = String::from_str("CLA-INFRA-PARENT-CONTAINS-MISMATCH: entity ");
    s.append(debug_str(eid).as_str());
    s.append(" declares parent_id=");
    s.append(opt_text(parent).as_str());
    s.append(" but no matching `contains` edge exists (closest contains.from_id=");
    s.append(opt_text(closest_from).as_str());
    s.append(")");
    s
}

/// The parent/contains consistency message when a `contains` edge has no
/// child naming its source as parent.
pub fn orphan_contains_message(from: &str, to: &str, child_parent: Option<&str>) -> (s: String)
    ensures
        s@ == orphan_contains_text(from@, to@, opt_view(child_parent)),
{
    let mut s = String::from_str("CLA-INFRA-PARENT-CONTAINS-MISMATCH: contains edge (");
    s.append(debug_str(from).as_str());
    s.append(" -> ");
    s.append(debug_str(to).as_str());
    s.append(") has no matching child parent_id (child.parent_id=");
    s.append(opt_text(child_parent).as_str());
    s.append(")");
    s
}

/// The `stats` JSON stored for a failed run: `{"failure_reason":<reason>}`.
pub open spec fn failure_stats_text(reason: Seq<char>) -> Seq<char> {
    "{\"failure_reason\":"@ + json_quoted(reason) + "}"@
}

/// The `stats` JSON stored for a failed run.
pub fn failure_stats_json(reason: &str) -> (s: String)
    ensures
        s@ == failure_stats_text(reason@),
{
    let mut s = String::from_str("{\"failure_reason\":");
    s.append(json_string(reason).as_str());
    s.append("}");
    s
}

/// The failure reason recorded when the command channel closes while a run
/// is still open.
pub fn channel_closed_reason() -> (s: &'static str)
    ensures
        s@ == "writer channel closed unexpectedly"@,
{
    "writer channel closed unexpectedly"
}

// ── Actor state ───────────────────────────────────────────────────────────────

/// Which insert a command asks for.
#[derive(Debug, Clone, Copy, PartialEq, Eq, Structural)]
pub enum WriteKind {
    Entity,
    Edge,
}

/// The protocol message for an insert that arrives without a run.
pub open spec fn no_run_text(k: WriteKind) -> Seq<char> {
    match k {
        WriteKind::Entity => "InsertEntity received without a preceding BeginRun"@,
        WriteKind::Edge => "InsertEdge received without a preceding BeginRun"@,
    }
}

/// The protocol message for a `BeginRun` during a run.
pub open spec fn run_in_progress_text() -> Seq<char> {
    "BeginRun received while a run is already in progress"@
}

/// The batch counter after one more write in a batch of `size`: back to 0
/// when the boundary is reached.
pub open spec fn next_writes(writes: nat, size: nat) -> nat {
    if writes + 1 >= size {
        0
    } else {
        writes + 1
    }
}

/// One more write in a batch of `size` reaches the commit boundary.
pub open spec fn reaches_boundary(writes: nat, size: nat) -> bool {
    writes + 1 >= size
}

/// The writer actor's per-connection state.
pub struct ActorState {
    /// Writes per transaction batch.
    pub batch_size: usize,
    /// Writes (entity inserts and edge inserts attempted) in the current
    /// batch.
    pub writes_in_batch: usize,
    /// A `BEGIN` has been issued and no `COMMIT`/`ROLLBACK` has followed.
    pub in_tx: bool,
    /// The run in progress, if any.
    pub current_run: Option<String>,
}

impl ActorState {
    /// The batch counter stays below the batch size (or at 0 when the size
    /// is 0, which commits after every write).
    pub open spec fn wf(&self) -> bool {
        self.writes_in_batch == 0 || self.writes_in_batch < self.batch_size
    }

    /// A fresh state: no run, no transaction, empty batch.
    pub fn new(batch_size: usize) -> (s: Self)
        ensures
            s.wf(),
            s.batch_size == batch_size,
            s.writes_in_batch == 0,
            !s.in_tx,
            s.current_run is None,
    {
        ActorState { batch_size, writes_in_batch: 0, in_tx: false, current_run: None }
    }

    /// `BeginRun` is refused while a run is in progress.
    pub fn check_begin_run(&self) -> (r: Result<(), String>)
        ensures
            r is Ok <==> self.current_run is None,
            r matches Err(m) ==> m@ == run_in_progress_text(),
    {
        if self.current_run.is_some() {
            return Err(String::from_str("BeginRun received while a run is already in progress"));
        }
        Ok(())
    }

    /// The run row is inserted and `BEGIN` issued: the run is open with an
    /// empty batch inside a transaction.
    pub fn run_begun(&mut self, run_id: String)
        requires
            old(self).wf(),
        ensures
            final(self).wf(),
            final(self).batch_size == old(self).batch_size,
            final(self).in_tx,
            final(self).writes_in_batch == 0,
            final(self).current_run == Some(run_id),
    {
        self.in_tx = true;
        self.writes_in_batch = 0;
        self.current_run = Some(run_id);
    }

    /// Inserts are refused without a run.
    pub fn check_write(&self, kind: WriteKind) -> (r: Result<(), String>)
        ensures
            r is Ok <==> self.current_run is Some,
            r matches Err(m) ==> m@ == no_run_text(kind),
    {
        if self.current_run.is_none() {
            return match kind {
                WriteKind::Entity => Err(
                    String::from_str("InsertEntity received without a preceding BeginRun"),
                ),
                WriteKind::Edge => Err(
                    String::from_str("InsertEdge received without a preceding BeginRun"),
                ),
            };
        }
        Ok(())
    }

    /// A write needs a `BEGIN` first when no transaction is open.
    pub fn needs_begin(&self) -> (b: bool)
        ensures
            b == !self.in_tx,
    {
        !self.in_tx
    }

    /// A `BEGIN` was issued.
    pub fn tx_opened(&mut self)
        requires
            old(self).wf(),
        ensures
            final(self).wf(),
            final(self).in_tx,
            final(self).batch_size == old(self).batch_size,
            final(self).writes_in_batch == old(self).writes_in_batch,
            final(self).current_run == old(self).current_run,
    {
        self.in_tx = true;
    }

    /// Count one write. Returns whether the batch boundary was reached: then
    /// the counter is reset and the transaction marked closed before the
    /// caller issues `COMMIT` (SQLite ends the transaction on a failed
    /// `COMMIT` too), after which the caller opens the next batch eagerly.
    pub fn record_write(&mut self) -> (commit: bool)
        requires
            old(self).wf(),
        ensures
            final(self).wf(),
            commit == reaches_boundary(old(self).writes_in_batch as nat, old(self).batch_size as nat),
            final(self).writes_in_batch == next_writes(
                old(self).writes_in_batch as nat,
                old(self).batch_size as nat,
            ),
            final(self).in_tx == (old(self).in_tx && !commit),
            final(self).batch_size == old(self).batch_size,
            final(self).current_run == old(self).current_run,
    {
        let w = self.writes_in_batch + 1;
        if w >= self.batch_size {
            self.writes_in_batch = 0;
            self.in_tx = false;
            true
        } else {
            self.writes_in_batch = w;
            false
        }
    }

    /// The transaction was committed or rolled back.
    pub fn tx_closed(&mut self)
        requires
            old(self).wf(),
        ensures
            final(self).wf(),
            !final(self).in_tx,
            final(self).batch_size == old(self).batch_size,
            final(self).writes_in_batch == old(self).writes_in_batch,
            final(self).current_run == old(self).current_run,
    {
        self.in_tx = false;
    }

    /// The batch counter is reset.
    pub fn batch_reset(&mut self)
        requires
            old(self).wf(),
        ensures
            final(self).wf(),
            final(self).writes_in_batch == 0,
            final(self).batch_size == old(self).batch_size,
            final(self).in_tx == old(self).in_tx,
            final(self).current_run == old(self).current_run,
    {
        self.writes_in_batch = 0;
    }

    /// The run ended (committed, failed, or refused at commit time): no run
    /// remains and the batch counter is reset.
    pub fn run_closed(&mut self)
        requires
            old(self).wf(),
        ensures
            final(self).wf(),
            final(self).current_run is None,
            final(self).writes_in_batch == 0,
            final(self).batch_size == old(self).batch_size,
            final(self).in_tx == old(self).in_tx,
    {
        self.current_run = None;
        self.writes_in_batch = 0;
    }

    /// The command channel closed: returns whether an open transaction must
    /// be rolled back, and the run (if any) that must be marked failed. No
    /// transaction and no run remain.
    pub fn channel_closed(&mut self) -> (r: (bool, Option<String>))
        requires
            old(self).wf(),
        ensures
            final(self).wf(),
            r.0 == old(self).in_tx,
            r.1 == old(self).current_run,
            !final(self).in_tx,
            final(self).current_run is None,
            final(self).batch_size == old(self).batch_size,
    {
        let rollback = self.in_tx;
        self.in_tx = false;
        let run = self.current_run.take();
        (rollback, run)
    }
}

/// Which counter an accepted edge insert moves.
#[derive(Debug, Clone, Copy, PartialEq, Eq, Structural)]
pub enum EdgeTally {
    /// The natural key already existed: the insert was ignored.
    Deduped,
    /// A new edge with `ambiguous` confidence.
    Ambiguous,
    /// A new edge; no counter moves.
    Plain,
}

/// Classify an edge insert by the number of rows it changed.
pub fn edge_tally(rows_changed: usize, confidence: EdgeConfidence) -> (t: EdgeTally)
    ensures
        t == (if rows_changed == 0 {
            EdgeTally::Deduped
        } else if confidence == EdgeConfidence::Ambiguous {
            EdgeTally::Ambiguous
        } else {
            EdgeTally::Plain
        }),
{
    if rows_changed == 0 {
        EdgeTally::Deduped
    } else if confidence == EdgeConfidence::Ambiguous {
        EdgeTally::Ambiguous
    } else {
        EdgeTally::Plain
    }
}

// ── Laws ──────────────────────────────────────────────────────────────────────

/// The batch counter after `k` more writes from `writes`.
pub open spec fn writes_after(writes: nat, size: nat, k: nat) -> nat
    decreases k,
{
    if k == 0 {
        writes
    } else {
        next_writes(writes_after(writes, size, (k - 1) as nat), size)
    }
}

/// The number of batch commits over `k` more writes from `writes`.
pub open spec fn commits_after(writes: nat, size: nat, k: nat) -> nat
    decreases k,
{
    if k == 0 {
        0
    } else {
        commits_after(writes, size, (k - 1) as nat) + if reaches_boundary(
            writes_after(writes, size, (k - 1) as nat),
            size,
        ) {
            1nat
        } else {
            0nat
        }
    }
}

/// Batch cadence: with a batch size `size >= 1`, starting from a counter
/// `writes < size`, `k` writes commit exactly `(writes + k) / size` times and
/// leave the counter at `(writes + k) % size`. Entity and edge inserts count
/// alike, so the cadence does not depend on the mix.
pub proof fn law_batch_commit_cadence(writes: nat, size: nat, k: nat)
    requires
        size >= 1,
        writes < size,
    ensures
        commits_after(writes, size, k) == (writes + k) / size,
        writes_after(writes, size, k) == (writes + k) % size,
    decreases k,
{
    if k == 0 {
        lemma_fundamental_div_mod_converse(writes as int, size as int, 0, writes as int);
    } else {
        let j = (k - 1) as nat;
        law_batch_commit_cadence(writes, size, j);
        let x = writes + j;
        let q = x / size;
        let r = x % size;
        lemma_fundamental_div_mod(x as int, size as int);
        assert(x == q * size + r) by (nonlinear_arith)
            requires
                x == size * (x / size) + x % size,
                q == x / size,
                r == x % size,
        ;
        if r + 1 >= size {
            assert(x + 1 == (q + 1) * size + 0) by (nonlinear_arith)
                requires
                    x == q * size + r,
                    r + 1 == size,
            ;
            lemma_fundamental_div_mod_converse(x as int + 1, size as int, q as int + 1, 0);
        } else {
            lemma_fundamental_div_mod_converse(x as int + 1, size as int, q as int, r as int + 1);
        }
    }
}

} // verus!
