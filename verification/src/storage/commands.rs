//! Records the writer persists, and the run status and edge confidence
//! vocabularies.
//!
//! Every persistent mutation goes through the single writer; entity and
//! edge records are plain data supplied by callers (content hashes and
//! timestamps included — the writer computes none of them).

use vstd::prelude::*;

verus! {

/// Run status values.
#[derive(Debug, Clone, Copy, PartialEq, Eq, Structural)]
pub enum RunStatus {
    /// `clarion analyze` ran with no plugins registered.
    SkippedNoPlugins,
    /// Normal successful completion.
    Completed,
    /// Explicit failure.
    Failed,
}

/// The text stored in `runs.status` for each status.
pub open spec fn run_status_text(s: RunStatus) -> Seq<char> {
    match s {
        RunStatus::SkippedNoPlugins => "skipped_no_plugins"@,
        RunStatus::Completed => "completed"@,
        RunStatus::Failed => "failed"@,
    }
}

impl RunStatus {
    /// The text stored in `runs.status`.
    pub fn as_str(self) -> (s: &'static str)
        ensures
            s@ == run_status_text(self),
    {
        match self {
            RunStatus::SkippedNoPlugins => "skipped_no_plugins",
            RunStatus::Completed => "completed",
            RunStatus::Failed => "failed",
        }
    }
}

/// How sure the emitting plugin is of an edge.
#[derive(Debug, Clone, Copy, PartialEq, Eq, Structural)]
pub enum EdgeConfidence {
    /// The target was resolved exactly.
    Resolved,
    /// One of several candidate targets.
    Ambiguous,
    /// Inferred heuristically; query-time only.
    Inferred,
}

/// The text stored in `edges.confidence` for each tier.
pub open spec fn confidence_text(c: EdgeConfidence) -> Seq<char> {
    match c {
        EdgeConfidence::Resolved => "resolved"@,
        EdgeConfidence::Ambiguous => "ambiguous"@,
        EdgeConfidence::Inferred => "inferred"@,
    }
}

/// The `Debug` rendering of each tier: its variant name.
pub open spec fn confidence_debug(c: EdgeConfidence) -> Seq<char> {
    match c {
        EdgeConfidence::Resolved => "Resolved"@,
        EdgeConfidence::Ambiguous => "Ambiguous"@,
        EdgeConfidence::Inferred => "Inferred"@,
    }
}

impl EdgeConfidence {
    /// The text stored in `edges.confidence`.
    pub fn as_str(self) -> (s: &'static str)
        ensures
            s@ == confidence_text(self),
    {
        match self {
            EdgeConfidence::Resolved => "resolved",
            EdgeConfidence::Ambiguous => "ambiguous",
            EdgeConfidence::Inferred => "inferred",
        }
    }

    /// The variant name, as `Debug` writes it.
    pub fn debug_name(self) -> (s: &'static str)
        ensures
            s@ == confidence_debug(self),
    {
        match self {
            EdgeConfidence::Resolved => "Resolved",
            EdgeConfidence::Ambiguous => "Ambiguous",
            EdgeConfidence::Inferred => "Inferred",
        }
    }
}

/// Plain-old-data entity record as seen by the writer.
#[derive(Debug, Clone)]
pub struct EntityRecord {
    pub id: String,
    pub plugin_id: String,
    pub kind: String,
    pub name: String,
    pub short_name: String,
    pub parent_id: Option<String>,
    pub source_file_id: Option<String>,
    pub source_byte_start: Option<i64>,
    pub source_byte_end: Option<i64>,
    pub source_line_start: Option<i64>,
    pub source_line_end: Option<i64>,
    /// JSON text; inserted verbatim.
    pub properties_json: String,
    pub content_hash: Option<String>,
    pub summary_json: Option<String>,
    pub wardline_json: Option<String>,
    pub first_seen_commit: Option<String>,
    pub last_seen_commit: Option<String>,
    /// ISO-8601 UTC; inserted verbatim.
    pub created_at: String,
    pub updated_at: String,
}

/// Plain-old-data edge record as seen by the writer. The natural key is
/// `(kind, from_id, to_id)`. The source byte range is kind-dispatched: absent
/// for structural edges such as `contains`, required for AST-anchored edges
/// such as `calls`.
#[derive(Debug, Clone)]
pub struct EdgeRecord {
    pub kind: String,
    pub from_id: String,
    pub to_id: String,
    pub confidence: EdgeConfidence,
    /// JSON text; inserted verbatim. `None` is stored as NULL.
    pub properties_json: Option<String>,
    /// Module entity id for the file the edge was emitted from.
    pub source_file_id: Option<String>,
    pub source_byte_start: Option<i64>,
    pub source_byte_end: Option<i64>,
}

} // verus!
