//! Plugin-host supervisor.
//!
//! `PluginHost` owns one plugin connection: the framed reader and writer,
//! the core-enforced limits (Content-Length ceiling, run-wide entity cap,
//! path-escape breaker), the request-id counter and the findings collected
//! along the way.
//!
//! # Enforcement pipeline (per entity in an `analyze_file` response)
//!
//! 0. **Field sizes**: `id`, `kind`, `qualified_name` and
//!    `source.file_path` are at most [`MAX_ENTITY_FIELD_BYTES`] bytes, the
//!    serialised `extra` maps at most [`MAX_ENTITY_EXTRA_BYTES`]. Violation →
//!    drop + finding.
//! 1. **Ontology**: `kind` must be declared by the manifest. Violation → drop
//!    + finding.
//! 2. **Identity**: `entity_id(plugin_id, kind, qualified_name)` must equal
//!    the returned `id`. Mismatch → drop + finding.
//! 3. **Jail**: `source.file_path` must canonicalise inside the project root.
//!    Escape → drop + finding and a tick of the [`PathEscapeBreaker`]; a
//!    tripped breaker kills the plugin.
//! 4. **Entity cap**: the run-wide count stays within the cap. Exceeded →
//!    the plugin is killed.
//!
//! Steps 0–2 are [`PluginHost::screen_entity`], steps 3–4
//! [`PluginHost::admit_jailed`]; canonicalising the path between them is
//! file-system work done by the caller. JSON encoding of requests is done
//! here, over the protocol's fixed envelopes; decoding responses is done by
//! the caller, which hands the decoded values back.

use std::io::{BufRead, Write};

use vstd::prelude::*;
use vstd::utf8::{decode_utf8, decode_utf8_encode_utf8, encode_utf8, valid_utf8};

use crate::entity_id::{assemble, entity_id, id_error_text, EntityId, EntityIdError, IdErrorModel};
use crate::plugin::jail::{
    jail_offender, jail_verdict, offender_text, path_within, JailError,
};
use crate::plugin::protocol::{
    AnalyzeFileParams, ExitNotification, InitializeParams, InitializedNotification, ProtocolError,
    Response, ShutdownParams,
};
use crate::plugin::window::{live_events, recorded};
use crate::plugin::limits::{
    saturated_total, BreakerState, CapExceeded, ContentLengthCeiling, EntityCountCap,
    PathEscapeBreaker, FINDING_DISABLED_PATH_ESCAPE, FINDING_ENTITY_CAP, FINDING_OOM_KILLED,
    FINDING_PATH_ESCAPE,
};
use crate::plugin::transport::{
    flat_lines, frame_bytes, frame_outcome, frame_read, header_continues, lines_well_formed, read_frame, wrote_prefix, write_frame, Frame, FrameReader, FrameWriter, TransportError,
};
use crate::text::{
    debug_quoted, debug_str, decimal, i64_to_string, json_quoted, json_string, signed_decimal,
    usize_to_string,
};

verus! {

// ── Finding subcodes and limits ──────────────────────────────────────────────

/// Emitted when a plugin emits an entity whose `kind` is not declared in the
/// manifest's ontology.
pub const FINDING_UNDECLARED_KIND: &'static str = "CLA-INFRA-PLUGIN-UNDECLARED-KIND";

/// Emitted when an entity's `id` differs from the ID assembled from its
/// plugin, kind and qualified name.
pub const FINDING_ENTITY_ID_MISMATCH: &'static str = "CLA-INFRA-PLUGIN-ENTITY-ID-MISMATCH";

/// Emitted when the manifest holds a capability this version does not
/// support.
pub const FINDING_UNSUPPORTED_CAPABILITY: &'static str = "CLA-INFRA-MANIFEST-UNSUPPORTED-CAPABILITY";

/// Emitted when an entity's JSON fails to decode; the entity is dropped.
pub const FINDING_MALFORMED_ENTITY: &'static str = "CLA-INFRA-PLUGIN-MALFORMED-ENTITY";

/// Emitted when a file path is not UTF-8 and cannot be sent on the JSON
/// wire; the file is skipped.
pub const FINDING_NON_UTF8_PATH: &'static str = "CLA-INFRA-HOST-NON-UTF8-PATH";

/// Emitted when an entity field exceeds its size bound; the entity is
/// dropped and the plugin kept.
pub const FINDING_ENTITY_FIELD_OVERSIZE: &'static str = "CLA-INFRA-PLUGIN-ENTITY-FIELD-OVERSIZE";

/// Per-string cap, in bytes, on `id`, `kind`, `qualified_name` and
/// `source.file_path`.
pub const MAX_ENTITY_FIELD_BYTES: usize = 4096;

/// Per-entity cap, in bytes, on the serialised `extra` and `source.extra`
/// maps.
pub const MAX_ENTITY_EXTRA_BYTES: usize = 65536;

/// Frames read while waiting for a response with the expected id before
/// giving up.
pub const MAX_DRAIN_FRAMES: usize = 16;

// ── Findings ──────────────────────────────────────────────────────────────────

/// Abstract form of a [`HostFinding`].
pub struct FindingView {
    pub subcode: Seq<char>,
    pub message: Seq<char>,
    pub metadata: Seq<(Seq<char>, Seq<char>)>,
}

/// An informational diagnostic collected during a host's lifetime.
#[derive(Debug, Clone)]
pub struct HostFinding {
    /// Finding subcode, e.g. `"CLA-INFRA-PLUGIN-PATH-ESCAPE"`.
    pub subcode: &'static str,
    /// Human-readable message.
    pub message: String,
    /// Structured metadata, in ascending key order, keys distinct.
    pub metadata: Vec<(String, String)>,
}

/// The view of a metadata list.
pub open spec fn meta_view(m: Seq<(String, String)>) -> Seq<(Seq<char>, Seq<char>)> {
    m.map_values(|p: (String, String)| (p.0@, p.1@))
}

impl View for HostFinding {
    type V = FindingView;

    open spec fn view(&self) -> FindingView {
        FindingView { subcode: self.subcode@, message: self.message@, metadata: meta_view(self.metadata@) }
    }
}

/// The views of a list of findings.
pub open spec fn findings_view(f: Seq<HostFinding>) -> Seq<FindingView> {
    f.map_values(|x: HostFinding| x@)
}

pub open spec fn undeclared_kind_view(kind: Seq<char>, qualified_name: Seq<char>) -> FindingView {
    FindingView {
        subcode: FINDING_UNDECLARED_KIND@,
        message: "entity kind "@ + debug_quoted(kind) + " is not declared in the manifest ontology"@,
        metadata: seq![("kind"@, kind), ("qualified_name"@, qualified_name)],
    }
}

pub open spec fn id_mismatch_view(got: Seq<char>, expected: Seq<char>) -> FindingView {
    FindingView {
        subcode: FINDING_ENTITY_ID_MISMATCH@,
        message: "entity id mismatch: got "@ + debug_quoted(got) + ", expected "@ + debug_quoted(
            expected,
        ),
        metadata: seq![("expected"@, expected), ("got"@, got)],
    }
}

pub open spec fn path_escape_view(offending: Seq<char>) -> FindingView {
    FindingView {
        subcode: FINDING_PATH_ESCAPE@,
        message: "entity source path escapes project root: "@ + debug_quoted(offending),
        metadata: seq![("offending_path"@, offending)],
    }
}

pub open spec fn disabled_path_escape_view() -> FindingView {
    FindingView {
        subcode: FINDING_DISABLED_PATH_ESCAPE@,
        message: "path-escape circuit breaker tripped; plugin killed"@,
        metadata: Seq::empty(),
    }
}

pub open spec fn cap_exceeded_view(cap: nat, would_reach: nat) -> FindingView {
    FindingView {
        subcode: FINDING_ENTITY_CAP@,
        message: "entity cap "@ + decimal(cap) + " would be exceeded (would reach "@ + decimal(
            would_reach,
        ) + ")"@,
        metadata: seq![("cap"@, decimal(cap)), ("would_reach"@, decimal(would_reach))],
    }
}

pub open spec fn unsupported_capability_view(detail: Seq<char>) -> FindingView {
    FindingView {
        subcode: FINDING_UNSUPPORTED_CAPABILITY@,
        message: "manifest has unsupported capability: "@ + detail,
        metadata: seq![("detail"@, detail)],
    }
}

pub open spec fn non_utf8_path_view(lossy: Seq<char>) -> FindingView {
    FindingView {
        subcode: FINDING_NON_UTF8_PATH@,
        message: "file skipped: path is not valid UTF-8 and cannot be expressed on the JSON wire protocol: "@
            + debug_quoted(lossy),
        metadata: seq![("path_lossy"@, lossy)],
    }
}

pub open spec fn malformed_entity_view(error: Seq<char>) -> FindingView {
    FindingView {
        subcode: FINDING_MALFORMED_ENTITY@,
        message: "plugin emitted an entity that failed to deserialise: "@ + error,
        metadata: seq![("serde_error"@, error)],
    }
}

pub open spec fn field_oversize_view(field: Seq<char>, actual: nat) -> FindingView {
    FindingView {
        subcode: FINDING_ENTITY_FIELD_OVERSIZE@,
        message: "entity field "@ + debug_quoted(field) + " is "@ + decimal(actual)
            + " bytes, over the 4096-byte limit"@,
        metadata: seq![
            ("actual_bytes"@, decimal(actual)),
            ("field"@, field),
            ("limit_bytes"@, decimal(MAX_ENTITY_FIELD_BYTES as nat)),
        ],
    }
}

pub open spec fn oom_killed_view(plugin_id: Seq<char>, signal: i32) -> FindingView {
    FindingView {
        subcode: FINDING_OOM_KILLED@,
        message: "plugin "@ + plugin_id + " killed by signal "@ + signed_decimal(signal as int)
            + " (likely RLIMIT_AS enforcement per ADR-021 §2d)"@,
        metadata: seq![("plugin_id"@, plugin_id), ("signal"@, signed_decimal(signal as int))],
    }
}

fn entry(k: &str, v: &str) -> (p: (String, String))
    ensures
        p.0@ == k@,
        p.1@ == v@,
{
    (String::from_str(k), String::from_str(v))
}

fn meta1(k: &str, v: &str) -> (m: Vec<(String, String)>)
    ensures
        meta_view(m@) == seq![(k@, v@)],
{
    let mut m = Vec::new();
    m.push(entry(k, v));
    assert(meta_view(m@) =~= seq![(k@, v@)]);
    m
}

fn meta2(k1: &str, v1: &str, k2: &str, v2: &str) -> (m: Vec<(String, String)>)
    ensures
        meta_view(m@) == seq![(k1@, v1@), (k2@, v2@)],
{
    let mut m = Vec::new();
    m.push(entry(k1, v1));
    m.push(entry(k2, v2));
    assert(meta_view(m@) =~= seq![(k1@, v1@), (k2@, v2@)]);
    m
}

impl HostFinding {
    /// An entity kind the manifest does not declare.
    pub fn undeclared_kind(kind: &str, qualified_name: &str) -> (f: Self)
        ensures
            f@ == undeclared_kind_view(kind@, qualified_name@),
    {
        let mut message = String::from_str("entity kind ");
        message.append(debug_str(kind).as_str());
        message.append(" is not declared in the manifest ontology");
        HostFinding {
            subcode: FINDING_UNDECLARED_KIND,
            message,
            metadata: meta2("kind", kind, "qualified_name", qualified_name),
        }
    }

    /// An entity whose `id` is not the assembled one.
    pub fn entity_id_mismatch(got: &str, expected: &str) -> (f: Self)
        ensures
            f@ == id_mismatch_view(got@, expected@),
    {
        let mut message = String::from_str("entity id mismatch: got ");
        message.append(debug_str(got).as_str());
        message.append(", expected ");
        message.append(debug_str(expected).as_str());
        HostFinding {
            subcode: FINDING_ENTITY_ID_MISMATCH,
            message,
            metadata: meta2("expected", expected, "got", got),
        }
    }

    /// An entity source path outside the project root.
    pub fn path_escape(offending_path: &str) -> (f: Self)
        ensures
            f@ == path_escape_view(offending_path@),
    {
        let mut message = String::from_str("entity source path escapes project root: ");
        message.append(debug_str(offending_path).as_str());
        HostFinding {
            subcode: FINDING_PATH_ESCAPE,
            message,
            metadata: meta1("offending_path", offending_path),
        }
    }

    /// The path-escape breaker tripped and the plugin was killed.
    pub fn disabled_path_escape() -> (f: Self)
        ensures
            f@ == disabled_path_escape_view(),
    {
        let f = HostFinding {
            subcode: FINDING_DISABLED_PATH_ESCAPE,
            message: String::from_str("path-escape circuit breaker tripped; plugin killed"),
            metadata: Vec::new(),
        };
        assert(meta_view(f.metadata@) =~= Seq::<(Seq<char>, Seq<char>)>::empty());
        f
    }

    /// The run-wide entity cap would be exceeded.
    pub fn entity_cap_exceeded_finding(cap: usize, would_reach: usize) -> (f: Self)
        ensures
            f@ == cap_exceeded_view(cap as nat, would_reach as nat),
    {
        let cap_text = usize_to_string(cap);
        let reach_text = usize_to_string(would_reach);
        let mut message = String::from_str("entity cap ");
        message.append(cap_text.as_str());
        message.append(" would be exceeded (would reach ");
        message.append(reach_text.as_str());
        message.append(")");
        HostFinding {
            subcode: FINDING_ENTITY_CAP,
            message,
            metadata: meta2("cap", cap_text.as_str(), "would_reach", reach_text.as_str()),
        }
    }

    /// The manifest holds an unsupported capability.
    pub fn unsupported_capability(detail: &str) -> (f: Self)
        ensures
            f@ == unsupported_capability_view(detail@),
    {
        let mut message = String::from_str("manifest has unsupported capability: ");
        message.append(detail);
        HostFinding {
            subcode: FINDING_UNSUPPORTED_CAPABILITY,
            message,
            metadata: meta1("detail", detail),
        }
    }

    /// A file skipped because its path is not UTF-8; `lossy` is its lossy
    /// rendering.
    pub fn non_utf8_path(lossy: &str) -> (f: Self)
        ensures
            f@ == non_utf8_path_view(lossy@),
    {
        let mut message = String::from_str(
            "file skipped: path is not valid UTF-8 and cannot be expressed on the JSON wire protocol: ",
        );
        message.append(debug_str(lossy).as_str());
        HostFinding { subcode: FINDING_NON_UTF8_PATH, message, metadata: meta1("path_lossy", lossy) }
    }

    /// An entity whose JSON failed to decode; `error` is the decoder's text.
    pub fn malformed_entity(error: &str) -> (f: Self)
        ensures
            f@ == malformed_entity_view(error@),
    {
        let mut message = String::from_str("plugin emitted an entity that failed to deserialise: ");
        message.append(error);
        HostFinding {
            subcode: FINDING_MALFORMED_ENTITY,
            message,
            metadata: meta1("serde_error", error),
        }
    }

    /// An entity field over its size bound.
    pub fn entity_field_oversize(field: &str, actual_bytes: usize) -> (f: Self)
        ensures
            f@ == field_oversize_view(field@, actual_bytes as nat),
    {
        let actual_text = usize_to_string(actual_bytes);
        let limit_text = usize_to_string(MAX_ENTITY_FIELD_BYTES);
        let mut message = String::from_str("entity field ");
        message.append(debug_str(field).as_str());
        message.append(" is ");
        message.append(actual_text.as_str());
        message.append(" bytes, over the 4096-byte limit");
        let mut metadata = Vec::new();
        metadata.push(entry("actual_bytes", actual_text.as_str()));
        metadata.push(entry("field", field));
        metadata.push(entry("limit_bytes", limit_text.as_str()));
        assert(meta_view(metadata@) =~= seq![
            ("actual_bytes"@, decimal(actual_bytes as nat)),
            ("field"@, field@),
            ("limit_bytes"@, decimal(MAX_ENTITY_FIELD_BYTES as nat)),
        ]);
        HostFinding { subcode: FINDING_ENTITY_FIELD_OVERSIZE, message, metadata }
    }

    /// The plugin was killed by `signal`, consistent with its address-space
    /// limit (SIGKILL or SIGSEGV).
    pub fn oom_killed(plugin_id: &str, signal: i32) -> (f: Self)
        ensures
            f@ == oom_killed_view(plugin_id@, signal),
    {
        let signal_text = i64_to_string(signal as i64);
        let mut message = String::from_str("plugin ");
        message.append(plugin_id);
        message.append(" killed by signal ");
        message.append(signal_text.as_str());
        message.append(" (likely RLIMIT_AS enforcement per ADR-021 §2d)");
        HostFinding {
            subcode: FINDING_OOM_KILLED,
            message,
            metadata: meta2("plugin_id", plugin_id, "signal", signal_text.as_str()),
        }
    }
}

// ── Wire entities ─────────────────────────────────────────────────────────────

/// An entity as received from the plugin. Its untyped `extra` map is held as
/// its JSON text (`{}` when empty), which is what gets persisted; the
/// source's `extra` map, which is only checked, by its serialised size (0
/// for an empty map, which is never checked).
#[derive(Debug, Clone)]
pub struct RawEntity {
    /// Three-segment entity ID: `plugin_id:kind:qualified_name`.
    pub id: String,
    /// Entity kind, e.g. `"function"`.
    pub kind: String,
    /// Canonical qualified name, e.g. `"auth.tokens.refresh"`.
    pub qualified_name: String,
    /// Source path; subject to the path jail.
    pub file_path: String,
    /// The entity's `extra` map, serialised as JSON.
    pub extra_json: String,
    /// Serialised size of the source's `extra` map, in bytes.
    pub source_extra_bytes: usize,
}

/// Length of `s` in UTF-8 bytes.
pub open spec fn byte_len(s: Seq<char>) -> nat {
    encode_utf8(s).len()
}

/// The first field of `raw` over its bound, with its size, checked in wire
/// order: `id`, `kind`, `qualified_name`, `source.file_path`, then the
/// serialised `extra` and `source.extra` maps.
pub open spec fn oversize(raw: RawEntity) -> Option<(Seq<char>, nat)> {
    if byte_len(raw.id@) > MAX_ENTITY_FIELD_BYTES {
        Some(("id"@, byte_len(raw.id@)))
    } else if byte_len(raw.kind@) > MAX_ENTITY_FIELD_BYTES {
        Some(("kind"@, byte_len(raw.kind@)))
    } else if byte_len(raw.qualified_name@) > MAX_ENTITY_FIELD_BYTES {
        Some(("qualified_name"@, byte_len(raw.qualified_name@)))
    } else if byte_len(raw.file_path@) > MAX_ENTITY_FIELD_BYTES {
        Some(("source.file_path"@, byte_len(raw.file_path@)))
    } else if byte_len(raw.extra_json@) > MAX_ENTITY_EXTRA_BYTES {
        Some(("extra"@, byte_len(raw.extra_json@)))
    } else if raw.source_extra_bytes > MAX_ENTITY_EXTRA_BYTES {
        Some(("source.extra"@, raw.source_extra_bytes as nat))
    } else {
        None
    }
}

/// The first field of `raw` over its bound, with its size in bytes.
pub fn oversize_field(raw: &RawEntity) -> (r: Option<(&'static str, usize)>)
    ensures
        match oversize(*raw) {
            None => r is None,
            Some((f, n)) => (r matches Some((g, m)) && g@ == f && m == n),
        },
{
    let n = raw.id.as_str().as_bytes().len();
    if n > MAX_ENTITY_FIELD_BYTES {
        return Some(("id", n));
    }
    let n = raw.kind.as_str().as_bytes().len();
    if n > MAX_ENTITY_FIELD_BYTES {
        return Some(("kind", n));
    }
    let n = raw.qualified_name.as_str().as_bytes().len();
    if n > MAX_ENTITY_FIELD_BYTES {
        return Some(("qualified_name", n));
    }
    let n = raw.file_path.as_str().as_bytes().len();
    if n > MAX_ENTITY_FIELD_BYTES {
        return Some(("source.file_path", n));
    }
    let n = raw.extra_json.as_str().as_bytes().len();
    if n > MAX_ENTITY_EXTRA_BYTES {
        return Some(("extra", n));
    }
    if raw.source_extra_bytes > MAX_ENTITY_EXTRA_BYTES {
        return Some(("source.extra", raw.source_extra_bytes));
    }
    None
}

/// An entity that passed every check.
#[derive(Debug, Clone)]
pub struct AcceptedEntity {
    /// The validated entity ID.
    pub id: EntityId,
    /// Kind (declared by the manifest).
    pub kind: String,
    /// Canonical qualified name.
    pub qualified_name: String,
    /// Jail-canonicalised, UTF-8 source path.
    pub source_file_path: String,
    /// The entity as received.
    pub raw: RawEntity,
}

/// The outcome of the checks before the jail.
pub enum PreJail {
    /// A field over its bound.
    Oversize(Seq<char>, nat),
    /// The kind is not declared.
    Undeclared,
    /// The segments do not assemble into an ID.
    IdInvalid(IdErrorModel),
    /// The assembled ID differs from the sent one.
    IdMismatch(Seq<char>),
    /// All checks passed; the assembled ID.
    Pass(Seq<char>),
}

/// The checks before the jail, in order: field sizes, ontology, identity.
pub open spec fn pre_jail(plugin_id: Seq<char>, kinds: Seq<Seq<char>>, raw: RawEntity) -> PreJail {
    match oversize(raw) {
        Some((f, n)) => PreJail::Oversize(f, n),
        None => if !kinds.contains(raw.kind@) {
            PreJail::Undeclared
        } else {
            match assemble(plugin_id, raw.kind@, raw.qualified_name@) {
                Err(e) => PreJail::IdInvalid(e),
                Ok(id) => if raw.id@ != id {
                    PreJail::IdMismatch(id)
                } else {
                    PreJail::Pass(id)
                },
            }
        },
    }
}

/// The text reported as the expected ID when the segments do not assemble.
pub open spec fn invalid_id_text(e: IdErrorModel) -> Seq<char> {
    "<invalid: "@ + id_error_text(e) + ">"@
}

/// The finding recorded when an entity is dropped before the jail.
pub open spec fn pre_jail_finding(p: PreJail, raw: RawEntity) -> FindingView {
    match p {
        PreJail::Oversize(f, n) => field_oversize_view(f, n),
        PreJail::Undeclared => undeclared_kind_view(raw.kind@, raw.qualified_name@),
        PreJail::IdInvalid(e) => id_mismatch_view(raw.id@, invalid_id_text(e)),
        PreJail::IdMismatch(id) => id_mismatch_view(raw.id@, id),
        PreJail::Pass(_) => disabled_path_escape_view(),
    }
}

/// What [`PluginHost::screen_entity`] decided.
pub enum Screen {
    /// Dropped, with a finding.
    Dropped,
    /// Passed; the jail decides next. Carries the assembled ID.
    ToJail(EntityId),
}

/// What [`PluginHost::admit_jailed`] decided.
pub enum Admission {
    /// Dropped, with a finding.
    Dropped,
    /// Accepted and counted against the cap.
    Accepted(AcceptedEntity),
    /// The path-escape breaker tripped: the plugin must be shut down.
    BreakerTripped,
    /// The entity cap would be exceeded: the plugin must be shut down.
    CapExceeded(CapExceeded),
}

/// `acc` passed the checks before the jail with its ID, and carries the
/// kind and qualified name it was sent with.
pub open spec fn accepted_by(plugin_id: Seq<char>, kinds: Seq<Seq<char>>, acc: AcceptedEntity) -> bool {
    &&& pre_jail(plugin_id, kinds, acc.raw) == PreJail::Pass(acc.id@)
    &&& acc.kind@ == acc.raw.kind@
    &&& acc.qualified_name@ == acc.raw.qualified_name@
}

/// Law: an entity the pipeline accepts carries the ID assembled from the
/// manifest's plugin id, its declared kind and its qualified name — so a
/// plugin cannot claim another plugin's IDs — and every field is within its
/// bound.
pub proof fn law_accepted_entity_identity(
    plugin_id: Seq<char>,
    kinds: Seq<Seq<char>>,
    acc: AcceptedEntity,
)
    requires
        accepted_by(plugin_id, kinds, acc),
    ensures
        acc.id@ == plugin_id + seq![':'] + acc.kind@ + seq![':'] + acc.qualified_name@,
        acc.raw.id@ == acc.id@,
        kinds.contains(acc.kind@),
        oversize(acc.raw) is None,
{
}

fn copy_raw(raw: &RawEntity) -> (c: RawEntity)
    ensures
        c == *raw,
{
    RawEntity {
        id: raw.id.clone(),
        kind: raw.kind.clone(),
        qualified_name: raw.qualified_name.clone(),
        file_path: raw.file_path.clone(),
        extra_json: raw.extra_json.clone(),
        source_extra_bytes: raw.source_extra_bytes,
    }
}

// ── Wire requests ─────────────────────────────────────────────────────────────

/// The JSON text of a request envelope.
pub open spec fn request_text(method: Seq<char>, params: Seq<char>, id: i64) -> Seq<char> {
    "{\"jsonrpc\":\"2.0\",\"method\":"@ + json_quoted(method) + ",\"params\":"@ + params
        + ",\"id\":"@ + signed_decimal(id as int) + "}"@
}

/// The JSON text of a notification envelope.
pub open spec fn notification_text(method: Seq<char>, params: Seq<char>) -> Seq<char> {
    "{\"jsonrpc\":\"2.0\",\"method\":"@ + json_quoted(method) + ",\"params\":"@ + params + "}"@
}

/// `initialize` parameters: the project root and the protocol version
/// (object keys in ascending order).
pub open spec fn initialize_params_text(project_root: Seq<char>, protocol_version: Seq<char>) -> Seq<char> {
    "{\"project_root\":"@ + json_quoted(project_root) + ",\"protocol_version\":"@ + json_quoted(
        protocol_version,
    ) + "}"@
}

/// `analyze_file` parameters.
pub open spec fn analyze_params_text(file_path: Seq<char>) -> Seq<char> {
    "{\"file_path\":"@ + json_quoted(file_path) + "}"@
}

fn request_bytes(method: &str, params: &str, id: i64) -> (b: Vec<u8>)
    ensures
        b@ == encode_utf8(request_text(method@, params@, id)),
{
    let mut s = String::from_str("{\"jsonrpc\":\"2.0\",\"method\":");
    s.append(json_string(method).as_str());
    s.append(",\"params\":");
    s.append(params);
    s.append(",\"id\":");
    s.append(i64_to_string(id).as_str());
    s.append("}");
    s.as_str().as_bytes_vec()
}

fn notification_bytes(method: &str, params: &str) -> (b: Vec<u8>)
    ensures
        b@ == encode_utf8(notification_text(method@, params@)),
{
    let mut s = String::from_str("{\"jsonrpc\":\"2.0\",\"method\":");
    s.append(json_string(method).as_str());
    s.append(",\"params\":");
    s.append(params);
    s.append("}");
    s.as_str().as_bytes_vec()
}

/// The `initialize` request body.
pub fn initialize_request(params: &InitializeParams, id: i64) -> (b: Vec<u8>)
    ensures
        b@ == encode_utf8(
            request_text(
                "initialize"@,
                initialize_params_text(params.project_root@, params.protocol_version@),
                id,
            ),
        ),
{
    let mut text = String::from_str("{\"project_root\":");
    text.append(json_string(params.project_root.as_str()).as_str());
    text.append(",\"protocol_version\":");
    text.append(json_string(params.protocol_version.as_str()).as_str());
    text.append("}");
    request_bytes("initialize", text.as_str(), id)
}

/// The `analyze_file` request body.
pub fn analyze_file_request(params: &AnalyzeFileParams, id: i64) -> (b: Vec<u8>)
    ensures
        b@ == encode_utf8(request_text("analyze_file"@, analyze_params_text(params.file_path@), id)),
{
    let mut text = String::from_str("{\"file_path\":");
    text.append(json_string(params.file_path.as_str()).as_str());
    text.append("}");
    request_bytes("analyze_file", text.as_str(), id)
}

/// The `shutdown` request body (empty parameters).
pub fn shutdown_request(params: &ShutdownParams, id: i64) -> (b: Vec<u8>)
    ensures
        b@ == encode_utf8(request_text("shutdown"@, "{}"@, id)),
{
    request_bytes("shutdown", "{}", id)
}

/// The `initialized` notification body (empty parameters).
pub fn initialized_notification(params: &InitializedNotification) -> (b: Vec<u8>)
    ensures
        b@ == encode_utf8(notification_text("initialized"@, "{}"@)),
{
    notification_bytes("initialized", "{}")
}

/// The `exit` notification body (empty parameters).
pub fn exit_notification(params: &ExitNotification) -> (b: Vec<u8>)
    ensures
        b@ == encode_utf8(notification_text("exit"@, "{}"@)),
{
    notification_bytes("exit", "{}")
}

// ── Protocol errors ───────────────────────────────────────────────────────────

/// JSON-RPC "invalid params" code, used for a result that does not conform.
pub const INVALID_PARAMS: i64 = -32602;

/// JSON-RPC "invalid request" code, used when no matching response arrives.
pub const INVALID_REQUEST: i64 = -32600;

/// The error for a response result that does not decode into the expected
/// shape; `what` names the shape and `detail` is the decoder's text.
pub fn nonconforming_result(method: &str, what: &str, detail: &str) -> (e: ProtocolError)
    ensures
        e.code == INVALID_PARAMS,
        e.message@ == method@ + " response did not conform to "@ + what@ + ": "@ + detail@,
        e.data is None,
{
    let mut message = String::from_str(method);
    message.append(" response did not conform to ");
    message.append(what);
    message.append(": ");
    message.append(detail);
    ProtocolError { code: INVALID_PARAMS, message, data: None }
}

/// The message when `MAX_DRAIN_FRAMES` frames passed without the response
/// to request `expected_id` of `method`.
pub open spec fn drain_text(method: Seq<char>, expected_id: i64) -> Seq<char> {
    "no matching "@ + method + " response after "@ + decimal(MAX_DRAIN_FRAMES as nat)
        + " frames (expected id "@ + signed_decimal(expected_id as int) + ")"@
}

/// The error when `MAX_DRAIN_FRAMES` frames passed without the response to
/// request `expected_id`.
pub fn drain_exhausted(method: &str, expected_id: i64) -> (e: ProtocolError)
    ensures
        e.code == INVALID_REQUEST,
        e.message@ == drain_text(method@, expected_id),
        e.data is None,
{
    let mut message = String::from_str("no matching ");
    message.append(method);
    message.append(" response after ");
    message.append(usize_to_string(MAX_DRAIN_FRAMES).as_str());
    message.append(" frames (expected id ");
    message.append(i64_to_string(expected_id).as_str());
    message.append(")");
    ProtocolError { code: INVALID_REQUEST, message, data: None }
}

/// What to do with one frame read while waiting for the response to
/// request `expected_id`: a frame that did not decode as a response, or a
/// response with another id, is discarded; the first with the id ends the
/// wait.
pub fn response_matches(expected_id: i64, decoded: &Option<Response>) -> (b: bool)
    ensures
        b == (decoded matches Some(r) && r.id == expected_id),
{
    match decoded {
        Some(r) => r.id == expected_id,
        None => false,
    }
}

/// The `ontology_version` an `initialize` result advertises must not be
/// empty once whitespace is trimmed.
pub fn check_ontology_version(version: &str) -> (r: Result<(), ProtocolError>)
    ensures
        r is Ok <==> crate::plugin::header::trim_ws(version@).len() > 0,
        r matches Err(e) ==> e.code == INVALID_PARAMS && e.message@
            == "initialize response: ontology_version must not be empty"@ && e.data is None,
{
    let chars = crate::text::chars_of(version);
    let ghost s = chars@;
    let mut i: usize = 0;
    while i < chars.len() && crate::plugin::header::is_ws_char(chars[i])
        invariant
            chars@ == s,
            i <= chars@.len(),
            forall|k: int| 0 <= k < i ==> crate::plugin::header::is_ws(#[trigger] s[k]),
        decreases chars@.len() - i,
    {
        i = i + 1;
    }
    proof {
        crate::plugin::header::lemma_trim_ws_empty(s);
    }
    if i == chars.len() {
        return Err(ProtocolError {
            code: INVALID_PARAMS,
            message: String::from_str("initialize response: ontology_version must not be empty"),
            data: None,
        });
    }
    assert(!crate::plugin::header::is_ws(s[i as int]));
    Ok(())
}

// ── Host errors ───────────────────────────────────────────────────────────────

/// Operational failures of the host.
#[derive(Debug)]
pub enum HostError {
    /// Transport failure (I/O or framing).
    Transport(TransportError),
    /// Protocol violation, or an error payload from the plugin.
    Protocol(ProtocolError),
    /// The manifest failed capability checks at handshake; carries the
    /// reason.
    Handshake(String),
    /// The run-wide entity cap was exceeded; the plugin was shut down.
    EntityCapExceeded(CapExceeded),
    /// The path-escape breaker tripped; the plugin was shut down.
    PathEscapeBreakerTripped,
    /// JSON encoding or decoding failed; carries the decoder's text.
    Serde(String),
    /// Low-level I/O failure outside the transport.
    Io(std::io::Error),
    /// Spawning the plugin failed.
    Spawn(String),
    /// An entity ID could not be assembled.
    EntityId(EntityIdError),
}

/// `s` contains a path separator (`/` or `\`).
pub open spec fn has_separator(s: Seq<char>) -> bool {
    s.contains('/') || s.contains('\\')
}

/// Why the manifest's declared executable may not be run, if it may not:
/// it must be a bare basename (no path separator) equal to the discovered
/// binary's UTF-8 basename. `discovered_display` is the discovered path as
/// displayed in messages.
pub open spec fn executable_refusal_text(
    declared: Seq<char>,
    discovered_basename: Option<Seq<char>>,
    discovered_display: Seq<char>,
) -> Option<Seq<char>> {
    if has_separator(declared) {
        Some(
            "manifest plugin.executable "@ + debug_quoted(declared)
                + " contains a path separator; must be a bare basename matching the discovered binary"@,
        )
    } else {
        match discovered_basename {
            None => Some(
                "discovered executable "@ + discovered_display + " has no UTF-8 basename"@,
            ),
            Some(b) => if declared != b {
                Some(
                    "manifest plugin.executable "@ + debug_quoted(declared)
                        + " does not match discovered binary basename "@ + debug_quoted(b),
                )
            } else {
                None
            },
        }
    }
}

fn contains_char(s: &str, c: char) -> (b: bool)
    ensures
        b == s@.contains(c),
{
    let chars = crate::text::chars_of(s);
    let mut i: usize = 0;
    while i < chars.len()
        invariant
            i <= chars@.len(),
            chars@ == s@,
            forall|k: int| 0 <= k < i ==> chars@[k] != c,
        decreases chars@.len() - i,
    {
        if chars[i] == c {
            assert(s@[i as int] == c);
            return true;
        }
        i = i + 1;
    }
    false
}

/// Why the manifest's declared executable may not be run, if it may not.
pub fn executable_refusal(
    declared: &str,
    discovered_basename: Option<&str>,
    discovered_display: &str,
) -> (r: Option<String>)
    ensures
        match executable_refusal_text(
            declared@,
            match discovered_basename {
                Some(b) => Some(b@),
                None => None,
            },
            discovered_display@,
        ) {
            None => r is None,
            Some(t) => (r matches Some(m) && m@ == t),
        },
{
    if contains_char(declared, '/') || contains_char(declared, '\\') {
        let mut m = String::from_str("manifest plugin.executable ");
        m.append(debug_str(declared).as_str());
        m.append(
            " contains a path separator; must be a bare basename matching the discovered binary",
        );
        return Some(m);
    }
    match discovered_basename {
        None => {
            let mut m = String::from_str("discovered executable ");
            m.append(discovered_display);
            m.append(" has no UTF-8 basename");
            Some(m)
        },
        Some(b) => {
            if !crate::text::same_text(declared, b) {
                let mut m = String::from_str("manifest plugin.executable ");
                m.append(debug_str(declared).as_str());
                m.append(" does not match discovered binary basename ");
                m.append(debug_str(b).as_str());
                Some(m)
            } else {
                None
            }
        },
    }
}

/// The reason a manifest is refused at handshake: a plugin may not ask to
/// read outside the project root.
pub open spec fn capability_refusal_text() -> Seq<char> {
    "capabilities.runtime.reads_outside_project_root = true is not supported"@
}

/// The capability refusal for a manifest, if any: present exactly when the
/// manifest asks to read outside the project root.
pub fn capability_refusal(reads_outside_project_root: bool) -> (r: Option<String>)
    ensures
        r is Some <==> reads_outside_project_root,
        r matches Some(t) ==> t@ == capability_refusal_text(),
{
    if reads_outside_project_root {
        Some(String::from_str("capabilities.runtime.reads_outside_project_root = true is not supported"))
    } else {
        None
    }
}

/// The text of a host error. `io` stands for the text of an I/O error,
/// which comes from the operating system and is not modelled.
pub open spec fn host_error_text(e: HostError, io: Seq<char>) -> Seq<char> {
    match e {
        HostError::Transport(te) => "transport: "@ + crate::plugin::transport::transport_error_text(
            te,
            io,
        ),
        HostError::Protocol(pe) => "protocol error: code="@ + signed_decimal(pe.code as int)
            + ", message="@ + pe.message@,
        HostError::Handshake(d) => "manifest validation at handshake: "@ + d@,
        HostError::EntityCapExceeded(_) => "entity cap exceeded"@,
        HostError::PathEscapeBreakerTripped => "path-escape breaker tripped; plugin killed"@,
        HostError::Serde(d) => "json: "@ + d@,
        HostError::Io(_) => "io: "@ + io,
        HostError::Spawn(d) => "plugin spawn failed: "@ + d@,
        HostError::EntityId(ie) => "entity id error: "@ + id_error_text(ie.model()),
    }
}

impl HostError {
    /// Human-readable description of the error.
    pub fn message(&self) -> (s: String)
        ensures
            exists|io: Seq<char>| s@ == #[trigger] host_error_text(*self, io),
    {
        match self {
            HostError::Transport(te) => {
                let mut s = String::from_str("transport: ");
                let t = te.message();
                s.append(t.as_str());
                let ghost io = choose|io: Seq<char>|
                    t@ == #[trigger] crate::plugin::transport::transport_error_text(*te, io);
                assert(s@ == host_error_text(*self, io));
                s
            },
            HostError::Protocol(pe) => {
                let mut s = String::from_str("protocol error: code=");
                s.append(i64_to_string(pe.code).as_str());
                s.append(", message=");
                s.append(pe.message.as_str());
                assert(s@ == host_error_text(*self, Seq::empty()));
                s
            },
            HostError::Handshake(d) => {
                let mut s = String::from_str("manifest validation at handshake: ");
                s.append(d.as_str());
                assert(s@ == host_error_text(*self, Seq::empty()));
                s
            },
            HostError::EntityCapExceeded(_) => {
                let s = String::from_str("entity cap exceeded");
                assert(s@ == host_error_text(*self, Seq::empty()));
                s
            },
            HostError::PathEscapeBreakerTripped => {
                let s = String::from_str("path-escape breaker tripped; plugin killed");
                assert(s@ == host_error_text(*self, Seq::empty()));
                s
            },
            HostError::Serde(d) => {
                let mut s = String::from_str("json: ");
                s.append(d.as_str());
                assert(s@ == host_error_text(*self, Seq::empty()));
                s
            },
            HostError::Io(e) => {
                let mut s = String::from_str("io: ");
                let t = crate::plugin::jail::io_error_text(e);
                s.append(t.as_str());
                assert(s@ == host_error_text(*self, t@));
                s
            },
            HostError::Spawn(d) => {
                let mut s = String::from_str("plugin spawn failed: ");
                s.append(d.as_str());
                assert(s@ == host_error_text(*self, Seq::empty()));
                s
            },
            HostError::EntityId(ie) => {
                let mut s = String::from_str("entity id error: ");
                s.append(ie.message().as_str());
                assert(s@ == host_error_text(*self, Seq::empty()));
                s
            },
        }
    }
}

/// Index of `kind` among the declared kinds, as a membership test.
fn kind_declared(kinds: &Vec<String>, kind: &String) -> (b: bool)
    ensures
        b == kinds@.map_values(|k: String| k@).contains(kind@),
{
    let ghost view = kinds@.map_values(|k: String| k@);
    let mut i: usize = 0;
    while i < kinds.len()
        invariant
            i <= kinds@.len(),
            view == kinds@.map_values(|k: String| k@),
            forall|j: int| 0 <= j < i ==> view[j] != kind@,
        decreases kinds@.len() - i,
    {
        if kinds[i] == *kind {
            assert(view[i as int] == kind@);
            return true;
        }
        i = i + 1;
    }
    false
}

/// `idx` picks, in increasing order, the position in `ents` of each entity
/// of `acc`: the accepted entities came out of `ents` in order, each as the
/// entity it was sent as.
pub open spec fn indexes_accepted(
    acc: Seq<AcceptedEntity>,
    ents: Seq<Result<RawEntity, String>>,
    idx: Seq<int>,
) -> bool {
    &&& idx.len() == acc.len()
    &&& forall|a: int, b: int| 0 <= a < b < idx.len() ==> idx[a] < idx[b]
    &&& forall|a: int|
        0 <= a < idx.len() ==> 0 <= #[trigger] idx[a] < ents.len() && ents[idx[a]] == Ok::<
            RawEntity,
            String,
        >(acc[a].raw)
}

/// The accepted entities are a subsequence of the decoded ones.
pub open spec fn accepted_from(acc: Seq<AcceptedEntity>, ents: Seq<Result<RawEntity, String>>) -> bool {
    exists|idx: Seq<int>| #[trigger] indexes_accepted(acc, ents, idx)
}

/// The findings the pipeline records for one decoded entity `e` when the
/// call completes, `v` being the jail's verdict on its source path (which
/// counts only when the entity reaches the jail): a malformed entity, a
/// failed check before the jail, or a path escape each leave one finding.
pub open spec fn entity_findings(
    plugin_id: Seq<char>,
    kinds: Seq<Seq<char>>,
    e: Result<RawEntity, String>,
    v: Result<String, JailError>,
) -> Seq<FindingView> {
    match e {
        Err(d) => seq![malformed_entity_view(d@)],
        Ok(raw) => match pre_jail(plugin_id, kinds, raw) {
            PreJail::Pass(_) => match v {
                Err(je) => seq![path_escape_view(offender_text(je, raw.file_path@))],
                Ok(_) => Seq::empty(),
            },
            p => seq![pre_jail_finding(p, raw)],
        },
    }
}

/// What the pipeline accepts of one decoded entity `e` when the call
/// completes: its assembled ID, its kind and qualified name, the entity,
/// and the jailed path.
pub open spec fn entity_accepted(
    plugin_id: Seq<char>,
    kinds: Seq<Seq<char>>,
    e: Result<RawEntity, String>,
    v: Result<String, JailError>,
) -> Seq<(Seq<char>, Seq<char>, Seq<char>, RawEntity, Seq<char>)> {
    match e {
        Ok(raw) => match pre_jail(plugin_id, kinds, raw) {
            PreJail::Pass(id) => match v {
                Ok(path) => seq![(id, raw.kind@, raw.qualified_name@, raw, path@)],
                Err(_) => Seq::empty(),
            },
            _ => Seq::empty(),
        },
        Err(_) => Seq::empty(),
    }
}

/// The findings recorded for `ents` in turn, `vs[k]` being the jail's
/// verdict for entity `k`.
pub open spec fn run_findings(
    plugin_id: Seq<char>,
    kinds: Seq<Seq<char>>,
    ents: Seq<Result<RawEntity, String>>,
    vs: Seq<Result<String, JailError>>,
) -> Seq<FindingView>
    decreases ents.len(),
{
    if ents.len() == 0 {
        Seq::empty()
    } else {
        run_findings(plugin_id, kinds, ents.drop_last(), vs) + entity_findings(
            plugin_id,
            kinds,
            ents.last(),
            vs[ents.len() - 1],
        )
    }
}

/// The entities accepted of `ents` in turn, `vs[k]` being the jail's
/// verdict for entity `k`.
pub open spec fn run_accepted(
    plugin_id: Seq<char>,
    kinds: Seq<Seq<char>>,
    ents: Seq<Result<RawEntity, String>>,
    vs: Seq<Result<String, JailError>>,
) -> Seq<(Seq<char>, Seq<char>, Seq<char>, RawEntity, Seq<char>)>
    decreases ents.len(),
{
    if ents.len() == 0 {
        Seq::empty()
    } else {
        run_accepted(plugin_id, kinds, ents.drop_last(), vs) + entity_accepted(
            plugin_id,
            kinds,
            ents.last(),
            vs[ents.len() - 1],
        )
    }
}

/// Entity `e`, whose jail verdict is `v`, is an escape: it reaches the jail
/// and the jail refuses its path.
pub open spec fn is_escape(
    plugin_id: Seq<char>,
    kinds: Seq<Seq<char>>,
    e: Result<RawEntity, String>,
    v: Result<String, JailError>,
) -> bool {
    reaches_jail(plugin_id, kinds, e) && v is Err
}

/// How many of `ents` are escapes, `vs[k]` being the verdict for entity
/// `k`.
pub open spec fn escape_count(
    plugin_id: Seq<char>,
    kinds: Seq<Seq<char>>,
    ents: Seq<Result<RawEntity, String>>,
    vs: Seq<Result<String, JailError>>,
) -> nat
    decreases ents.len(),
{
    if ents.len() == 0 {
        0
    } else {
        escape_count(plugin_id, kinds, ents.drop_last(), vs) + if is_escape(
            plugin_id,
            kinds,
            ents.last(),
            vs[ents.len() - 1],
        ) {
            1nat
        } else {
            0nat
        }
    }
}

/// A path-escape breaker that kept `kept` recorded `n` escapes, one at a
/// time at instants its clock chose, and now keeps `last`; before the last
/// escape it never held more than `threshold`, and after it it holds more
/// exactly when `tripped`.
pub open spec fn escapes_run(
    kept: Seq<u64>,
    n: nat,
    window: u64,
    threshold: nat,
    last: Seq<u64>,
    tripped: bool,
) -> bool {
    exists|ts: Seq<u64>|
        {
            &&& ts.len() == n
            &&& #[trigger] recorded(kept, ts, window) == last
            &&& forall|j: int|
                1 <= j < n ==> #[trigger] recorded(kept, ts.take(j), window).len() <= threshold
            &&& n > 0 ==> (last.len() > threshold) == tripped
            &&& n == 0 ==> !tripped
        }
}

/// Admitting one more entity after `a` admissions from `c0` on: when the
/// new total is within `max`, so is the total of `a + 1` admissions.
proof fn lemma_admit_total(c0: nat, a: nat, max: nat)
    requires
        max <= usize::MAX,
    ensures
        saturated_total(saturated_total(c0, a), 1) <= max ==> saturated_total(c0, a + 1) <= max,
{
}

proof fn lemma_escapes_start(kept: Seq<u64>, window: u64, threshold: nat)
    ensures
        escapes_run(kept, 0, window, threshold, kept, false),
{
    let ts = Seq::<u64>::empty();
    assert(recorded(kept, ts, window) == kept);
}

proof fn lemma_escapes_step(
    kept: Seq<u64>,
    n: nat,
    window: u64,
    threshold: nat,
    last: Seq<u64>,
    at: u64,
)
    requires
        escapes_run(kept, n, window, threshold, last, false),
    ensures
        escapes_run(
            kept,
            n + 1,
            window,
            threshold,
            live_events(last.push(at), at, window),
            live_events(last.push(at), at, window).len() > threshold,
        ),
{
    let ts = choose|ts: Seq<u64>|
        {
            &&& ts.len() == n
            &&& #[trigger] recorded(kept, ts, window) == last
            &&& forall|j: int|
                1 <= j < n ==> #[trigger] recorded(kept, ts.take(j), window).len() <= threshold
            &&& n > 0 ==> (last.len() > threshold) == false
            &&& n == 0 ==> !false
        };
    let ts2 = ts.push(at);
    let next = live_events(last.push(at), at, window);
    assert(ts2.drop_last() =~= ts);
    assert(ts2.last() == at);
    assert(recorded(kept, ts2, window) == next);
    assert forall|j: int| 1 <= j < n + 1 implies #[trigger] recorded(kept, ts2.take(j), window).len()
        <= threshold by {
        if j < n {
            assert(ts2.take(j) =~= ts.take(j));
        } else {
            assert(ts2.take(j) =~= ts);
        }
    }
    assert(escapes_run(kept, n + 1, window, threshold, next, next.len() > threshold));
}

/// The jail's verdict `v` on a path whose canonicalisation gave `c`, for a
/// project whose canonical root is `root` (as bytes): the canonicalisation
/// error; an escape when the path does not lie inside the root; the path as
/// text when it does and is UTF-8; else a non-UTF-8 refusal.
pub open spec fn jail_outcome(
    root: Seq<u8>,
    c: Result<Vec<u8>, std::io::Error>,
    v: Result<String, JailError>,
) -> bool {
    match c {
        Err(e) => v == Err::<String, JailError>(JailError::Io(e)),
        Ok(b) => if !path_within(root, b@) {
            v matches Err(JailError::EscapedRoot { offending }) && offending@ == b@
        } else if valid_utf8(b@) {
            v matches Ok(s) && s@ == decode_utf8(b@)
        } else {
            v matches Err(JailError::NonUtf8Path { offending }) && offending@ == b@
        },
    }
}

/// `vs[k]` is the jail's verdict on the source path of entity `k`, for
/// every entity that reaches the jail: the outcome of canonicalising it
/// (through `canonicalize`) and checking it against `root`.
pub open spec fn jail_verdicts<J: Fn(String) -> Result<Vec<u8>, std::io::Error>>(
    canonicalize: J,
    root: Seq<u8>,
    plugin_id: Seq<char>,
    kinds: Seq<Seq<char>>,
    ents: Seq<Result<RawEntity, String>>,
    vs: Seq<Result<String, JailError>>,
) -> bool {
    &&& vs.len() == ents.len()
    &&& forall|k: int|
        0 <= k < ents.len() ==> match #[trigger] ents[k] {
            Ok(raw) => pre_jail(plugin_id, kinds, raw) is Pass ==> exists|
                c: Result<Vec<u8>, std::io::Error>,
            |
                #![trigger call_ensures(canonicalize, (raw.file_path,), c)]
                call_ensures(canonicalize, (raw.file_path,), c) && jail_outcome(root, c, vs[k]),
            Err(_) => true,
        }
}

/// The view of an accepted entity that the pipeline fixes: its ID, kind,
/// qualified name, the entity as sent, and the jailed path.
pub open spec fn accepted_view(a: AcceptedEntity) -> (Seq<char>, Seq<char>, Seq<char>, RawEntity, Seq<char>) {
    (a.id@, a.kind@, a.qualified_name@, a.raw, a.source_file_path@)
}

/// Entity `e` passes the checks before the jail, so the jail is consulted.
pub open spec fn reaches_jail(plugin_id: Seq<char>, kinds: Seq<Seq<char>>, e: Result<RawEntity, String>) -> bool {
    match e {
        Ok(raw) => pre_jail(plugin_id, kinds, raw) is Pass,
        Err(_) => false,
    }
}

proof fn lemma_admitted_within(
    root: Seq<u8>,
    c: Result<Vec<u8>, std::io::Error>,
    v: Result<String, JailError>,
)
    requires
        jail_outcome(root, c, v),
        v is Ok,
    ensures
        path_within(root, encode_utf8(v->Ok_0@)),
{
    let b = c->Ok_0@;
    decode_utf8_encode_utf8(b);
}

proof fn lemma_verdicts_extend<J: Fn(String) -> Result<Vec<u8>, std::io::Error>>(
    canonicalize: J,
    root: Seq<u8>,
    plugin_id: Seq<char>,
    kinds: Seq<Seq<char>>,
    ents: Seq<Result<RawEntity, String>>,
    i: int,
    vs: Seq<Result<String, JailError>>,
    v: Result<String, JailError>,
)
    requires
        0 <= i < ents.len(),
        jail_verdicts(canonicalize, root, plugin_id, kinds, ents.take(i), vs),
        match ents[i] {
            Ok(raw) => pre_jail(plugin_id, kinds, raw) is Pass ==> exists|
                c: Result<Vec<u8>, std::io::Error>,
            |
                #![trigger call_ensures(canonicalize, (raw.file_path,), c)]
                call_ensures(canonicalize, (raw.file_path,), c) && jail_outcome(root, c, v),
            Err(_) => true,
        },
    ensures
        jail_verdicts(canonicalize, root, plugin_id, kinds, ents.take(i + 1), vs.push(v)),
        run_findings(plugin_id, kinds, ents.take(i + 1), vs.push(v)) == run_findings(
            plugin_id,
            kinds,
            ents.take(i),
            vs,
        ) + entity_findings(plugin_id, kinds, ents[i], v),
        run_accepted(plugin_id, kinds, ents.take(i + 1), vs.push(v)) == run_accepted(
            plugin_id,
            kinds,
            ents.take(i),
            vs,
        ) + entity_accepted(plugin_id, kinds, ents[i], v),
        escape_count(plugin_id, kinds, ents.take(i + 1), vs.push(v)) == escape_count(
            plugin_id,
            kinds,
            ents.take(i),
            vs,
        ) + if is_escape(plugin_id, kinds, ents[i], v) {
            1nat
        } else {
            0nat
        },
{
    let before = ents.take(i);
    let next = ents.take(i + 1);
    let vs2 = vs.push(v);
    assert(next.drop_last() =~= before);
    assert(next.last() == ents[i]);
    lemma_run_prefix(plugin_id, kinds, before, vs, vs2);
    assert forall|k: int| 0 <= k < next.len() implies match #[trigger] next[k] {
        Ok(raw) => pre_jail(plugin_id, kinds, raw) is Pass ==> exists|
            c: Result<Vec<u8>, std::io::Error>,
        |
            #![trigger call_ensures(canonicalize, (raw.file_path,), c)]
            call_ensures(canonicalize, (raw.file_path,), c) && jail_outcome(root, c, vs2[k]),
        Err(_) => true,
    } by {
        if k < i {
            assert(next[k] == before[k]);
            assert(vs2[k] == vs[k]);
        }
    }
}

proof fn lemma_run_prefix(
    plugin_id: Seq<char>,
    kinds: Seq<Seq<char>>,
    ents: Seq<Result<RawEntity, String>>,
    vs: Seq<Result<String, JailError>>,
    ws: Seq<Result<String, JailError>>,
)
    requires
        vs.len() >= ents.len(),
        ws.len() >= ents.len(),
        forall|k: int| 0 <= k < ents.len() ==> vs[k] == ws[k],
    ensures
        run_findings(plugin_id, kinds, ents, vs) == run_findings(plugin_id, kinds, ents, ws),
        run_accepted(plugin_id, kinds, ents, vs) == run_accepted(plugin_id, kinds, ents, ws),
        escape_count(plugin_id, kinds, ents, vs) == escape_count(plugin_id, kinds, ents, ws),
    decreases ents.len(),
{
    if ents.len() > 0 {
        lemma_run_prefix(plugin_id, kinds, ents.drop_last(), vs, ws);
        assert(vs[ents.len() - 1] == ws[ents.len() - 1]);
    }
}

/// The frame of the `initialize` request with id `id` for project root
/// `root`, protocol version `1.0`.
pub open spec fn initialize_frame(root: Seq<char>, id: i64) -> Seq<u8> {
    frame_bytes(encode_utf8(request_text("initialize"@, initialize_params_text(root, "1.0"@), id)))
}

/// The frame of the `initialized` notification.
pub open spec fn initialized_frame() -> Seq<u8> {
    frame_bytes(encode_utf8(notification_text("initialized"@, "{}"@)))
}

/// The frame of the `analyze_file` request with id `id` for `file_path`.
pub open spec fn analyze_frame(file_path: Seq<char>, id: i64) -> Seq<u8> {
    frame_bytes(encode_utf8(request_text("analyze_file"@, analyze_params_text(file_path), id)))
}

/// The frames of the shutdown exchange: the `shutdown` request with id
/// `id`, then the `exit` notification.
pub open spec fn shutdown_frames(id: i64) -> Seq<u8> {
    frame_bytes(encode_utf8(request_text("shutdown"@, "{}"@, id))) + frame_bytes(
        encode_utf8(notification_text("exit"@, "{}"@)),
    )
}

/// `after` is `before` followed by one frame read whose body is `body`.
pub open spec fn frame_with_body(before: Seq<u8>, after: Seq<u8>, ceiling: nat, body: Vec<u8>) -> bool {
    exists|clean: bool|
        #[trigger] frame_read(before, after, ceiling, Ok::<Frame, TransportError>(Frame { body }), clean)
}

/// The frames read from `cps[0]` on, the `i`-th from `cps[i]` to
/// `cps[i + 1]` with body `bodies[i]`, which `decode` turned into `ds[i]`;
/// none of those is the response to request `expected_id`.
pub open spec fn unanswered<D: Fn(Vec<u8>) -> Option<Response>>(
    decode: &D,
    cps: Seq<Seq<u8>>,
    ceiling: nat,
    bodies: Seq<Vec<u8>>,
    ds: Seq<Option<Response>>,
    expected_id: i64,
) -> bool {
    &&& cps.len() == bodies.len() + 1
    &&& bodies.len() == ds.len()
    &&& forall|i: int|
        0 <= i < bodies.len() ==> #[trigger] call_ensures(decode, (bodies[i],), ds[i])
            && frame_with_body(cps[i], cps[i + 1], ceiling, bodies[i]) && !(ds[i] matches Some(
            resp,
        ) && resp.id == expected_id)
}

/// A frame read from `before` on, ending at `after`, decoded (through
/// `decode`) as the response to request `id`, carrying `payload`.
pub open spec fn answered<D: Fn(Vec<u8>) -> Option<Response>>(
    decode: &D,
    before: Seq<u8>,
    after: Seq<u8>,
    ceiling: nat,
    id: i64,
    payload: Result<String, ProtocolError>,
) -> bool {
    exists|c: Seq<u8>, b: Vec<u8>, resp: Response|
        #![trigger call_ensures(decode, (b,), Some(resp)), frame_with_body(c, after, ceiling, b)]
        before.is_prefix_of(c) && frame_with_body(c, after, ceiling, b) && call_ensures(
            decode,
            (b,),
            Some(resp),
        ) && resp.id == id && resp.payload == payload
}

/// Why waiting, from `before` to `after`, for the response to request
/// `expected_id` of `method` failed with `pe`: [`MAX_DRAIN_FRAMES`] frames
/// were read and none decoded (through `decode`) as that response; or one
/// did, and it carried the plugin's error `pe`.
pub open spec fn response_refused<D: Fn(Vec<u8>) -> Option<Response>>(
    decode: &D,
    method: Seq<char>,
    expected_id: i64,
    before: Seq<u8>,
    after: Seq<u8>,
    ceiling: nat,
    pe: ProtocolError,
) -> bool {
    ||| pe.code == INVALID_REQUEST && pe.message@ == drain_text(method, expected_id) && pe.data is None
        && exists|cps: Seq<Seq<u8>>, bodies: Seq<Vec<u8>>, ds: Seq<Option<Response>>|
        bodies.len() == MAX_DRAIN_FRAMES && cps[0] == before && cps.last() == after
            && #[trigger] unanswered(decode, cps, ceiling, bodies, ds, expected_id)
    ||| answered(decode, before, after, ceiling, expected_id, Err::<String, ProtocolError>(pe))
}

/// `pe` is the error for a `method` result that did not conform to `what`,
/// as the decoder's `detail` says.
pub open spec fn nonconforming_view(
    method: Seq<char>,
    what: Seq<char>,
    detail: Seq<char>,
    pe: ProtocolError,
) -> bool {
    pe.code == INVALID_PARAMS && pe.message@ == method + " response did not conform to "@ + what
        + ": "@ + detail && pe.data is None
}

/// Why the `initialize` exchange for request `id`, reading from `before` to
/// `after`, failed with `pe`: the response was refused
/// ([`response_refused`]); or it was answered and `decode_initialize`
/// refused the result's text with `detail`; or it gave an ontology version
/// that is blank once whitespace is trimmed.
pub open spec fn handshake_refused<D, I>(
    decode: &D,
    decode_initialize: &I,
    id: i64,
    before: Seq<u8>,
    after: Seq<u8>,
    ceiling: nat,
    pe: ProtocolError,
) -> bool where D: Fn(Vec<u8>) -> Option<Response>, I: Fn(String) -> Result<String, String> {
    ||| response_refused(decode, "initialize"@, id, before, after, ceiling, pe)
    ||| exists|t: String, detail: String|
        #![trigger call_ensures(decode_initialize, (t,), Err::<String, String>(detail))]
        answered(decode, before, after, ceiling, id, Ok::<String, ProtocolError>(t))
            && call_ensures(decode_initialize, (t,), Err::<String, String>(detail))
            && nonconforming_view("initialize"@, "InitializeResult"@, detail@, pe)
    ||| exists|t: String, v: String|
        #![trigger call_ensures(decode_initialize, (t,), Ok::<String, String>(v))]
        answered(decode, before, after, ceiling, id, Ok::<String, ProtocolError>(t))
            && call_ensures(decode_initialize, (t,), Ok::<String, String>(v))
            && crate::plugin::header::trim_ws(v@).len() == 0 && pe.code == INVALID_PARAMS
            && pe.message@ == "initialize response: ontology_version must not be empty"@
            && pe.data is None
}

proof fn lemma_push_within(root: Seq<u8>, before: Seq<AcceptedEntity>, a: AcceptedEntity)
    requires
        forall|k: int|
            0 <= k < before.len() ==> path_within(
                root,
                encode_utf8(#[trigger] before[k].source_file_path@),
            ),
        path_within(root, encode_utf8(a.source_file_path@)),
    ensures
        forall|k: int|
            0 <= k < before.push(a).len() ==> path_within(
                root,
                encode_utf8(#[trigger] before.push(a)[k].source_file_path@),
            ),
{
    assert forall|k: int| 0 <= k < before.push(a).len() implies path_within(
        root,
        encode_utf8(#[trigger] before.push(a)[k].source_file_path@),
    ) by {
        if k < before.len() {
            assert(before.push(a)[k] == before[k]);
        }
    }
}

proof fn lemma_unanswered_push<D: Fn(Vec<u8>) -> Option<Response>>(
    decode: &D,
    cps: Seq<Seq<u8>>,
    ceiling: nat,
    bodies: Seq<Vec<u8>>,
    ds: Seq<Option<Response>>,
    expected_id: i64,
    c1: Seq<u8>,
    body: Vec<u8>,
    d: Option<Response>,
)
    requires
        unanswered(decode, cps, ceiling, bodies, ds, expected_id),
        call_ensures(decode, (body,), d),
        frame_with_body(cps.last(), c1, ceiling, body),
        !(d matches Some(resp) && resp.id == expected_id),
    ensures
        unanswered(decode, cps.push(c1), ceiling, bodies.push(body), ds.push(d), expected_id),
{
    let b2 = bodies.push(body);
    let d2 = ds.push(d);
    let p2 = cps.push(c1);
    assert forall|i: int| 0 <= i < b2.len() implies #[trigger] call_ensures(decode, (b2[i],), d2[i])
        && frame_with_body(p2[i], p2[i + 1], ceiling, b2[i]) && !(d2[i] matches Some(resp)
        && resp.id == expected_id) by {
        if i < bodies.len() {
            assert(b2[i] == bodies[i] && d2[i] == ds[i]);
            assert(p2[i] == cps[i] && p2[i + 1] == cps[i + 1]);
        } else {
            assert(b2[i] == body && d2[i] == d);
            assert(p2[i] == cps.last() && p2[i + 1] == c1);
        }
    }
}

proof fn lemma_is_prefix_trans(a: Seq<u8>, b: Seq<u8>, c: Seq<u8>)
    requires
        a.is_prefix_of(b),
        b.is_prefix_of(c),
    ensures
        a.is_prefix_of(c),
{
    assert forall|i: int| 0 <= i < a.len() implies a[i] == c[i] by {
        assert(a[i] == b.subrange(0, a.len() as int)[i]);
        assert(b[i] == c.subrange(0, b.len() as int)[i]);
    }
    assert(a =~= c.subrange(0, a.len() as int));
}

proof fn lemma_prefix_full(old: Seq<u8>, a: Seq<u8>)
    ensures
        wrote_prefix(old + a, old, a),
{
    assert(a.take(a.len() as int) =~= a);
}

proof fn lemma_prefix_then(w: Seq<u8>, old: Seq<u8>, a: Seq<u8>, b: Seq<u8>)
    requires
        wrote_prefix(w, old + a, b),
    ensures
        wrote_prefix(w, old, a + b),
{
    let k = choose|k: int| 0 <= k <= b.len() && w == old + a + b.take(k);
    assert((a + b).take(a.len() + k) =~= a + b.take(k));
    assert(w =~= old + (a + b).take(a.len() + k));
}

proof fn lemma_prefix_within(w: Seq<u8>, old: Seq<u8>, a: Seq<u8>, b: Seq<u8>)
    requires
        wrote_prefix(w, old, a),
    ensures
        wrote_prefix(w, old, a + b),
{
    let k = choose|k: int| 0 <= k <= a.len() && w == old + a.take(k);
    assert((a + b).take(k) =~= a.take(k));
}

// ── PluginHost ────────────────────────────────────────────────────────────────

/// Supervisor of one plugin connection, generic over the reader and writer
/// so that it can be driven in-process as well as over a child's pipes.
pub struct PluginHost<R, W> {
    plugin_id: String,
    entity_kinds: Vec<String>,
    project_root: String,
    reader: FrameReader<R>,
    writer: FrameWriter<W>,
    ceiling: ContentLengthCeiling,
    entity_cap: EntityCountCap,
    path_breaker: PathEscapeBreaker,
    next_request_id: i64,
    findings: Vec<HostFinding>,
    /// Set once a shutdown exchange has started; a later `shutdown` is a
    /// no-op rather than a write to a closed pipe.
    terminated: bool,
    /// The ontology version the plugin advertised at handshake.
    ontology_version: Option<String>,
}

impl<R: BufRead, W: Write> PluginHost<R, W> {
    /// The manifest's plugin id.
    pub closed spec fn plugin_id_view(&self) -> Seq<char> {
        self.plugin_id@
    }

    /// The entity kinds the manifest declares.
    pub closed spec fn kinds_view(&self) -> Seq<Seq<char>> {
        self.entity_kinds@.map_values(|k: String| k@)
    }

    /// The canonical project root, as text.
    pub closed spec fn project_root_view(&self) -> Seq<char> {
        self.project_root@
    }

    /// The id the next request will carry.
    pub closed spec fn request_counter(&self) -> i64 {
        self.next_request_id
    }

    /// The findings collected and not yet taken.
    pub closed spec fn findings_seq(&self) -> Seq<FindingView> {
        findings_view(self.findings@)
    }

    /// A shutdown exchange has started.
    pub closed spec fn is_terminated(&self) -> bool {
        self.terminated
    }

    /// The advertised ontology version.
    pub closed spec fn ontology(&self) -> Option<Seq<char>> {
        match self.ontology_version {
            Some(v) => Some(v@),
            None => None,
        }
    }

    /// The run-wide entity cap.
    pub closed spec fn cap(&self) -> EntityCountCap {
        self.entity_cap
    }

    /// The path-escape breaker.
    pub closed spec fn breaker(&self) -> PathEscapeBreaker {
        self.path_breaker
    }

    /// The frame ceiling.
    pub closed spec fn frame_ceiling(&self) -> ContentLengthCeiling {
        self.ceiling
    }

    /// The bytes written to the plugin so far.
    pub closed spec fn written(&self) -> Seq<u8> {
        self.writer.written()
    }

    /// The bytes read from the plugin so far.
    pub closed spec fn consumed(&self) -> Seq<u8> {
        self.reader.consumed()
    }

    /// How many reads from the plugin reported an error.
    pub closed spec fn reader_failures(&self) -> nat {
        self.reader.failures()
    }

    /// How many reads from the plugin reported the end of its output.
    pub closed spec fn reader_ends(&self) -> nat {
        self.reader.ends()
    }

    /// How many writes or flushes to the plugin reported an error.
    pub closed spec fn writer_failures(&self) -> nat {
        self.writer.failures()
    }

    /// Neither stream was touched: what was written and read, and the
    /// failures and ends reported, equal `other`'s.
    pub open spec fn same_streams(&self, other: &Self) -> bool {
        &&& self.written() == other.written()
        &&& self.consumed() == other.consumed()
        &&& self.reader_failures() == other.reader_failures()
        &&& self.reader_ends() == other.reader_ends()
        &&& self.writer_failures() == other.writer_failures()
    }

    /// The failures and ends the streams reported only grew from `other`'s,
    /// and what was read from the plugin extends `other`'s.
    pub open spec fn streams_extend(&self, other: &Self) -> bool {
        &&& self.reader_failures() >= other.reader_failures()
        &&& self.reader_ends() >= other.reader_ends()
        &&& self.writer_failures() >= other.writer_failures()
        &&& other.consumed().is_prefix_of(self.consumed())
    }

    /// The transport error `e`, met between `old` and `self`, came from the
    /// streams: the writer reported a failure; or `e` is an I/O error and a
    /// read reported an error or the end of the plugin's output; or `e` is
    /// the outcome of a frame read that ends what was read.
    pub open spec fn transport_explained(&self, old: &Self, e: TransportError) -> bool {
        ||| self.writer_failures() > old.writer_failures()
        ||| (e is Io && (self.reader_failures() > old.reader_failures() || self.reader_ends()
            > old.reader_ends()))
        ||| (!(e is Io) && exists|c: Seq<u8>, clean: bool|
            old.consumed().is_prefix_of(c) && #[trigger] frame_read(
                c,
                self.consumed(),
                old.frame_ceiling().bytes(),
                Err::<Frame, TransportError>(e),
                clean,
            ))
    }

    /// Everything but the findings, the streams and the request counter is
    /// unchanged from `old`.
    pub open spec fn keeps_limits(&self, old: &Self) -> bool {
        &&& self.plugin_id_view() == old.plugin_id_view()
        &&& self.kinds_view() == old.kinds_view()
        &&& self.project_root_view() == old.project_root_view()
        &&& self.frame_ceiling() == old.frame_ceiling()
    }

    /// Construct a host around a reader/writer pair, with the default
    /// limits, request ids starting at 1 and nothing collected. Does not
    /// perform the handshake.
    pub fn new_inner(
        plugin_id: String,
        entity_kinds: Vec<String>,
        project_root: String,
        reader: R,
        writer: W,
    ) -> (h: Self)
        ensures
            h.plugin_id_view() == plugin_id@,
            h.kinds_view() == entity_kinds@.map_values(|k: String| k@),
            h.project_root_view() == project_root@,
            h.request_counter() == 1,
            h.findings_seq() == Seq::<FindingView>::empty(),
            !h.is_terminated(),
            h.ontology() is None,
            h.cap().max_items() == EntityCountCap::DEFAULT_MAX,
            h.cap().consumed_items() == 0,
            h.breaker().window_nanos() == PathEscapeBreaker::DEFAULT_WINDOW_NANOS,
            h.breaker().threshold() == PathEscapeBreaker::DEFAULT_THRESHOLD,
            h.breaker().escapes() == Seq::<u64>::empty(),
            h.frame_ceiling().bytes() == ContentLengthCeiling::DEFAULT_BYTES,
            h.written() == Seq::<u8>::empty(),
            h.consumed() == Seq::<u8>::empty(),
    {
        let h = PluginHost {
            plugin_id,
            entity_kinds,
            project_root,
            reader: FrameReader::new(reader),
            writer: FrameWriter::new(writer),
            ceiling: ContentLengthCeiling::default(),
            entity_cap: EntityCountCap::new(EntityCountCap::DEFAULT_MAX),
            path_breaker: PathEscapeBreaker::new_default(),
            next_request_id: 1,
            findings: Vec::new(),
            terminated: false,
            ontology_version: None,
        };
        assert(findings_view(h.findings@) =~= Seq::<FindingView>::empty());
        h
    }

    /// The ontology version advertised during handshake; `None` before it.
    pub fn ontology_version(&self) -> (v: Option<&str>)
        ensures
            match v {
                Some(t) => self.ontology() == Some(t@),
                None => self.ontology() is None,
            },
    {
        match &self.ontology_version {
            Some(s) => Some(s.as_str()),
            None => None,
        }
    }

    /// Hand out the next request id.
    pub fn next_id(&mut self) -> (id: i64)
        requires
            old(self).request_counter() < i64::MAX,
        ensures
            id == old(self).request_counter(),
            final(self).request_counter() == id + 1,
            final(self).findings_seq() == old(self).findings_seq(),
            final(self).is_terminated() == old(self).is_terminated(),
            final(self).cap() == old(self).cap(),
            final(self).breaker() == old(self).breaker(),
            final(self).ontology() == old(self).ontology(),
            final(self).same_streams(old(self)),
            final(self).keeps_limits(old(self)),
    {
        let id = self.next_request_id;
        self.next_request_id = id + 1;
        id
    }

    /// Drain the collected findings, leaving none.
    pub fn take_findings(&mut self) -> (f: Vec<HostFinding>)
        ensures
            findings_view(f@) == old(self).findings_seq(),
            final(self).findings_seq() == Seq::<FindingView>::empty(),
            final(self).request_counter() == old(self).request_counter(),
            final(self).is_terminated() == old(self).is_terminated(),
            final(self).cap() == old(self).cap(),
            final(self).breaker() == old(self).breaker(),
            final(self).ontology() == old(self).ontology(),
            final(self).same_streams(old(self)),
            final(self).keeps_limits(old(self)),
    {
        let mut f = Vec::new();
        std::mem::swap(&mut f, &mut self.findings);
        assert(findings_view(self.findings@) =~= Seq::<FindingView>::empty());
        f
    }

    fn push_finding(&mut self, f: HostFinding)
        ensures
            final(self).findings_seq() == old(self).findings_seq().push(f@),
            final(self).request_counter() == old(self).request_counter(),
            final(self).is_terminated() == old(self).is_terminated(),
            final(self).cap() == old(self).cap(),
            final(self).breaker() == old(self).breaker(),
            final(self).ontology() == old(self).ontology(),
            final(self).same_streams(old(self)),
            final(self).keeps_limits(old(self)),
    {
        let ghost before = self.findings@;
        self.findings.push(f);
        assert(findings_view(self.findings@) =~= findings_view(before).push(f@));
    }

    /// Record that a file was skipped because its path is not UTF-8;
    /// `lossy` is its lossy rendering. No entities come from it.
    pub fn skip_non_utf8_path(&mut self, lossy: &str) -> (v: Vec<AcceptedEntity>)
        ensures
            v@.len() == 0,
            final(self).findings_seq() == old(self).findings_seq().push(non_utf8_path_view(lossy@)),
            final(self).request_counter() == old(self).request_counter(),
            final(self).is_terminated() == old(self).is_terminated(),
            final(self).cap() == old(self).cap(),
            final(self).breaker() == old(self).breaker(),
            final(self).same_streams(old(self)),
    {
        self.push_finding(HostFinding::non_utf8_path(lossy));
        Vec::new()
    }

    /// Steps 0–2 of the pipeline for one entity: field sizes, ontology,
    /// identity. A failing check drops the entity with one finding; passing
    /// entities go on to the jail with their assembled ID.
    pub fn screen_entity(&mut self, raw: &RawEntity) -> (s: Screen)
        ensures
            match pre_jail(old(self).plugin_id_view(), old(self).kinds_view(), *raw) {
                PreJail::Pass(id) => {
                    &&& (s matches Screen::ToJail(e) && e@ == id)
                    &&& final(self).findings_seq() == old(self).findings_seq()
                },
                p => {
                    &&& s is Dropped
                    &&& final(self).findings_seq() == old(self).findings_seq().push(
                        pre_jail_finding(p, *raw),
                    )
                },
            },
            final(self).request_counter() == old(self).request_counter(),
            final(self).is_terminated() == old(self).is_terminated(),
            final(self).cap() == old(self).cap(),
            final(self).breaker() == old(self).breaker(),
            final(self).ontology() == old(self).ontology(),
            final(self).same_streams(old(self)),
            final(self).keeps_limits(old(self)),
    {
        match oversize_field(raw) {
            Some((field, len)) => {
                self.push_finding(HostFinding::entity_field_oversize(field, len));
                return Screen::Dropped;
            },
            None => {},
        }
        if !kind_declared(&self.entity_kinds, &raw.kind) {
            self.push_finding(
                HostFinding::undeclared_kind(raw.kind.as_str(), raw.qualified_name.as_str()),
            );
            return Screen::Dropped;
        }
        match entity_id(self.plugin_id.as_str(), raw.kind.as_str(), raw.qualified_name.as_str()) {
            Err(e) => {
                let mut expected = String::from_str("<invalid: ");
                expected.append(e.message().as_str());
                expected.append(">");
                self.push_finding(HostFinding::entity_id_mismatch(raw.id.as_str(), expected.as_str()));
                Screen::Dropped
            },
            Ok(eid) => {
                if !crate::text::same_text(raw.id.as_str(), eid.as_str()) {
                    self.push_finding(HostFinding::entity_id_mismatch(raw.id.as_str(), eid.as_str()));
                    Screen::Dropped
                } else {
                    Screen::ToJail(eid)
                }
            },
        }
    }

    /// Steps 3–4 of the pipeline for an entity that passed screening, given
    /// the jail's verdict on its source path. An escape drops the entity
    /// with a finding and ticks the breaker; when the breaker trips, a
    /// second finding records that the plugin is disabled. An admitted path
    /// counts one entity against the cap; exceeding it records a finding.
    pub fn admit_jailed(&mut self, raw: RawEntity, id: EntityId, jail: Result<String, JailError>) -> (a:
        Admission)
        ensures
            final(self).request_counter() == old(self).request_counter(),
            final(self).is_terminated() == old(self).is_terminated(),
            final(self).ontology() == old(self).ontology(),
            final(self).same_streams(old(self)),
            final(self).keeps_limits(old(self)),
            final(self).breaker().window_nanos() == old(self).breaker().window_nanos(),
            final(self).breaker().threshold() == old(self).breaker().threshold(),
            final(self).cap().max_items() == old(self).cap().max_items(),
            match jail {
                Err(e) => {
                    let offender = offender_text(e, raw.file_path@);
                    let tripped = final(self).breaker().escapes().len() > old(
                        self,
                    ).breaker().threshold();
                    &&& final(self).cap() == old(self).cap()
                    &&& exists|at: u64|
                        final(self).breaker().escapes() == crate::plugin::window::live_events(
                            old(self).breaker().escapes().push(at),
                            at,
                            old(self).breaker().window_nanos(),
                        )
                    &&& tripped ==> (a is BreakerTripped && final(self).findings_seq() == old(
                        self,
                    ).findings_seq().push(path_escape_view(offender)).push(
                        disabled_path_escape_view(),
                    ))
                    &&& !tripped ==> (a is Dropped && final(self).findings_seq() == old(
                        self,
                    ).findings_seq().push(path_escape_view(offender)))
                },
                Ok(path) => {
                    let total = saturated_total(old(self).cap().consumed_items(), 1);
                    &&& final(self).breaker() == old(self).breaker()
                    &&& total > old(self).cap().max_items() ==> {
                        &&& a == Admission::CapExceeded(
                            CapExceeded {
                                would_reach: total as usize,
                                cap: old(self).cap().max_items() as usize,
                            },
                        )
                        &&& final(self).cap().consumed_items() == old(self).cap().consumed_items()
                        &&& final(self).findings_seq() == old(self).findings_seq().push(
                            cap_exceeded_view(old(self).cap().max_items(), total),
                        )
                    }
                    &&& total <= old(self).cap().max_items() ==> {
                        &&& a == Admission::Accepted(
                            AcceptedEntity {
                                id,
                                kind: raw.kind,
                                qualified_name: raw.qualified_name,
                                source_file_path: path,
                                raw,
                            },
                        )
                        &&& final(self).cap().consumed_items() == total
                        &&& final(self).findings_seq() == old(self).findings_seq()
                    }
                },
            },
    {
        match jail {
            Err(e) => {
                let offender = jail_offender(&e, raw.file_path.as_str());
                self.push_finding(HostFinding::path_escape(offender.as_str()));
                let state = self.path_breaker.record_escape();
                match state {
                    BreakerState::Tripped => {
                        self.push_finding(HostFinding::disabled_path_escape());
                        Admission::BreakerTripped
                    },
                    BreakerState::Open => Admission::Dropped,
                }
            },
            Ok(path) => match self.entity_cap.try_admit(1) {
                Err(e) => {
                    self.push_finding(HostFinding::entity_cap_exceeded_finding(e.cap, e.would_reach));
                    Admission::CapExceeded(e)
                },
                Ok(()) => {
                    let kind = raw.kind.clone();
                    let qualified_name = raw.qualified_name.clone();
                    Admission::Accepted(
                        AcceptedEntity { id, kind, qualified_name, source_file_path: path, raw },
                    )
                },
            },
        }
    }

    /// All host state but the streams and the findings equals `other`'s.
    pub open spec fn same_state(&self, other: &Self) -> bool {
        &&& self.request_counter() == other.request_counter()
        &&& self.is_terminated() == other.is_terminated()
        &&& self.cap() == other.cap()
        &&& self.breaker() == other.breaker()
        &&& self.ontology() == other.ontology()
        &&& self.keeps_limits(other)
    }

    /// From `old` on, the shutdown exchange for request `id`, begun once
    /// `base` was written, ran: its frames were written in full; or it
    /// failed on the streams (a transport error they explain); or the
    /// plugin's response to it was refused.
    pub open spec fn shutdown_ran<D: Fn(Vec<u8>) -> Option<Response>>(
        &self,
        old: &Self,
        decode: &D,
        id: i64,
        base: Seq<u8>,
    ) -> bool {
        ||| self.written() == base + shutdown_frames(id)
        ||| exists|e: TransportError| #[trigger] self.transport_explained(old, e)
        ||| exists|c: Seq<u8>, pe: ProtocolError|
            old.consumed().is_prefix_of(c) && #[trigger] response_refused(
                decode,
                "shutdown"@,
                id,
                c,
                self.consumed(),
                old.frame_ceiling().bytes(),
                pe,
            )
    }

    proof fn lemma_shutdown_ran<D: Fn(Vec<u8>) -> Option<Response>>(
        &self,
        h: &Self,
        old: &Self,
        decode: &D,
        r: Result<(), HostError>,
        base: Seq<u8>,
    )
        requires
            h.streams_extend(old),
            h.frame_ceiling() == old.frame_ceiling(),
            h.written() == base,
            r is Ok ==> self.written() == h.written() + shutdown_frames(h.request_counter()),
            r is Err ==> (r matches Err(HostError::Transport(_)) || r matches Err(
                HostError::Protocol(_),
            )),
            r matches Err(HostError::Transport(e)) ==> self.transport_explained(h, e),
            r matches Err(HostError::Protocol(pe)) ==> response_refused(
                decode,
                "shutdown"@,
                h.request_counter(),
                h.consumed(),
                self.consumed(),
                h.frame_ceiling().bytes(),
                pe,
            ),
        ensures
            self.shutdown_ran(old, decode, h.request_counter(), base),
    {
        match r {
            Ok(()) => {},
            Err(HostError::Transport(e)) => {
                self.lemma_explained_widen(h, old, e);
                assert(self.transport_explained(old, e));
            },
            Err(HostError::Protocol(pe)) => {
                assert(old.consumed().is_prefix_of(h.consumed()));
                assert(response_refused(
                    decode,
                    "shutdown"@,
                    h.request_counter(),
                    h.consumed(),
                    self.consumed(),
                    old.frame_ceiling().bytes(),
                    pe,
                ));
            },
            Err(_) => {},
        }
    }

    /// A transport error explained from `mid` on is explained from `old`
    /// on, when the streams only grew from `old` to `mid`.
    proof fn lemma_explained_widen(&self, mid: &Self, old: &Self, e: TransportError)
        requires
            self.transport_explained(mid, e),
            mid.streams_extend(old),
            mid.frame_ceiling() == old.frame_ceiling(),
        ensures
            self.transport_explained(old, e),
    {
        if !(e is Io) && self.writer_failures() <= mid.writer_failures() {
            let (c, clean) = choose|c: Seq<u8>, clean: bool|
                mid.consumed().is_prefix_of(c) && #[trigger] frame_read(
                    c,
                    self.consumed(),
                    mid.frame_ceiling().bytes(),
                    Err::<Frame, TransportError>(e),
                    clean,
                );
            lemma_is_prefix_trans(old.consumed(), mid.consumed(), c);
        }
    }

    /// Streams that grew from `a` to `b` and from `b` to `c` grew from `a`
    /// to `c`.
    proof fn lemma_streams_extend_trans(&self, b: &Self, a: &Self)
        requires
            self.streams_extend(b),
            b.streams_extend(a),
        ensures
            self.streams_extend(a),
    {
        lemma_is_prefix_trans(a.consumed(), b.consumed(), self.consumed());
    }

    /// Streams untouched from `a` on extend from `old` as `a`'s do.
    proof fn lemma_same_then_extend(&self, a: &Self, old: &Self)
        requires
            self.same_streams(a),
            a.streams_extend(old),
        ensures
            self.streams_extend(old),
    {
    }

    /// Write one frame to the plugin.
    pub fn send(&mut self, body: Vec<u8>) -> (r: Result<(), TransportError>)
        ensures
            final(self).same_state(old(self)),
            final(self).findings_seq() == old(self).findings_seq(),
            final(self).consumed() == old(self).consumed(),
            r matches Err(e) ==> e is Io,
            r is Ok ==> final(self).written() == old(self).written() + frame_bytes(body@),
            r is Err ==> wrote_prefix(final(self).written(), old(self).written(), frame_bytes(body@)),
            final(self).reader_failures() == old(self).reader_failures(),
            final(self).reader_ends() == old(self).reader_ends(),
            r is Ok ==> final(self).writer_failures() == old(self).writer_failures(),
            r is Err ==> final(self).writer_failures() > old(self).writer_failures(),
    {
        let frame = Frame { body };
        write_frame(&mut self.writer, &frame)
    }

    /// Read one frame from the plugin, within the frame ceiling; what was
    /// read and the outcome are as [`read_frame`] states.
    pub fn receive(&mut self) -> (r: Result<Frame, TransportError>)
        ensures
            final(self).same_state(old(self)),
            final(self).findings_seq() == old(self).findings_seq(),
            final(self).written() == old(self).written(),
            final(self).writer_failures() == old(self).writer_failures(),
            final(self).streams_extend(old(self)),
            r matches Ok(f) ==> f.body@.len() <= old(self).frame_ceiling().bytes(),
            frame_read(
                old(self).consumed(),
                final(self).consumed(),
                old(self).frame_ceiling().bytes(),
                r,
                final(self).reader_failures() == old(self).reader_failures() && final(self).reader_ends() == old(self).reader_ends(),
            ),
            r matches Err(TransportError::Io(_)) ==> final(self).reader_failures() > old(
                self,
            ).reader_failures() || final(self).reader_ends() > old(self).reader_ends(),
    {
        let r = read_frame(&mut self.reader, self.ceiling);
        proof {
            let clean = self.reader_failures() == old(self).reader_failures()
                && self.reader_ends() == old(self).reader_ends();
            let (lines, last, body) = choose|lines: Seq<Seq<char>>, last: Seq<u8>, body: Seq<u8>|
                {
                    &&& self.consumed() == old(self).consumed() + flat_lines(lines) + last + body
                    &&& header_continues(lines)
                    &&& lines_well_formed(lines)
                    &&& clean ==> crate::plugin::transport::clean_read(lines, last, r)
                    &&& #[trigger] frame_outcome(lines, last, body, self.ceiling.bytes(), r)
                };
            assert(frame_outcome(lines, last, body, old(self).frame_ceiling().bytes(), r));
            assert(old(self).consumed().is_prefix_of(self.consumed())) by {
                assert(self.consumed().subrange(0, old(self).consumed().len() as int)
                    =~= old(self).consumed());
            }
        }
        r
    }

    /// Read frames until one decodes (through `decode`) as the response to
    /// request `expected_id`, discarding at most [`MAX_DRAIN_FRAMES`] stale
    /// or undecodable frames. Returns the result's JSON text, or the
    /// plugin's error as a protocol error.
    pub fn read_response_matching<D>(&mut self, expected_id: i64, method: &str, decode: &D) -> (r:
        Result<String, HostError>) where D: Fn(Vec<u8>) -> Option<Response>
        requires
            forall|b: Vec<u8>| decode.requires((b,)),
        ensures
            final(self).same_state(old(self)),
            final(self).findings_seq() == old(self).findings_seq(),
            final(self).written() == old(self).written(),
            final(self).writer_failures() == old(self).writer_failures(),
            final(self).streams_extend(old(self)),
            r matches Err(e) ==> (e is Transport || e is Protocol),
            r matches Ok(v) ==> answered(
                decode,
                old(self).consumed(),
                final(self).consumed(),
                old(self).frame_ceiling().bytes(),
                expected_id,
                Ok::<String, ProtocolError>(v),
            ),
            r matches Err(HostError::Transport(e)) ==> final(self).transport_explained(old(self), e),
            r matches Err(HostError::Protocol(pe)) ==> response_refused(
                decode,
                method@,
                expected_id,
                old(self).consumed(),
                final(self).consumed(),
                old(self).frame_ceiling().bytes(),
                pe,
            ),
    {
        let mut attempt: usize = 0;
        let ghost ceiling = old(self).frame_ceiling().bytes();
        let ghost mut cps: Seq<Seq<u8>> = seq![self.consumed()];
        let ghost mut bodies: Seq<Vec<u8>> = Seq::empty();
        let ghost mut ds: Seq<Option<Response>> = Seq::empty();
        while attempt < MAX_DRAIN_FRAMES
            invariant
                self.same_state(old(self)),
                self.findings_seq() == old(self).findings_seq(),
                self.written() == old(self).written(),
                self.writer_failures() == old(self).writer_failures(),
                self.streams_extend(old(self)),
                forall|b: Vec<u8>| decode.requires((b,)),
                ceiling == old(self).frame_ceiling().bytes(),
                attempt <= MAX_DRAIN_FRAMES,
                bodies.len() == attempt,
                cps[0] == old(self).consumed(),
                cps.last() == self.consumed(),
                unanswered(decode, cps, ceiling, bodies, ds, expected_id),
            decreases MAX_DRAIN_FRAMES - attempt,
        {
            let ghost c0 = self.consumed();
            let ghost f0 = self.reader_failures();
            let ghost n0 = self.reader_ends();
            let frame = match self.receive() {
                Ok(f) => f,
                Err(e) => {
                    proof {
                        lemma_is_prefix_trans(old(self).consumed(), c0, self.consumed());
                        if !(e is Io) {
                            assert(frame_read(
                                c0,
                                self.consumed(),
                                old(self).frame_ceiling().bytes(),
                                Err::<Frame, TransportError>(e),
                                self.reader_failures() == f0 && self.reader_ends() == n0,
                            ));
                        }
                    }
                    return Err(HostError::Transport(e));
                },
            };
            let ghost c1 = self.consumed();
            let ghost body = frame.body;
            proof {
                lemma_is_prefix_trans(old(self).consumed(), c0, c1);
                assert(frame == Frame { body });
                assert(frame_read(
                    c0,
                    c1,
                    ceiling,
                    Ok::<Frame, TransportError>(Frame { body }),
                    self.reader_failures() == f0 && self.reader_ends() == n0,
                ));
                assert(frame_with_body(c0, c1, ceiling, body));
            }
            let decoded = decode(frame.body);
            if response_matches(expected_id, &decoded) {
                assert(call_ensures(decode, (body,), decoded));
                match decoded {
                    Some(resp) => {
                        return match resp.payload {
                            Ok(v) => {
                                assert(answered(
                                    decode,
                                    old(self).consumed(),
                                    c1,
                                    ceiling,
                                    expected_id,
                                    Ok::<String, ProtocolError>(v),
                                ));
                                Ok(v)
                            },
                            Err(pe) => {
                                assert(answered(
                                    decode,
                                    old(self).consumed(),
                                    c1,
                                    ceiling,
                                    expected_id,
                                    Err::<String, ProtocolError>(pe),
                                ));
                                Err(HostError::Protocol(pe))
                            },
                        };
                    },
                    None => {},
                }
            }
            proof {
                lemma_unanswered_push(decode, cps, ceiling, bodies, ds, expected_id, c1, body, decoded);
                bodies = bodies.push(body);
                ds = ds.push(decoded);
                cps = cps.push(c1);
            }
            attempt = attempt + 1;
        }
        let pe = drain_exhausted(method, expected_id);
        proof {
            assert(bodies.len() == MAX_DRAIN_FRAMES);
            assert(unanswered(decode, cps, ceiling, bodies, ds, expected_id));
        }
        Err(HostError::Protocol(pe))
    }

    /// The shutdown exchange: mark the host terminated first (so a failed
    /// exchange is not retried), send `shutdown`, wait for its response,
    /// then send `exit`.
    fn do_shutdown<D>(&mut self, decode: &D) -> (r: Result<(), HostError>) where
        D: Fn(Vec<u8>) -> Option<Response>,
        requires
            old(self).request_counter() < i64::MAX,
            forall|b: Vec<u8>| decode.requires((b,)),
        ensures
            final(self).is_terminated(),
            final(self).request_counter() == old(self).request_counter() + 1,
            final(self).cap() == old(self).cap(),
            final(self).breaker() == old(self).breaker(),
            final(self).ontology() == old(self).ontology(),
            final(self).keeps_limits(old(self)),
            final(self).findings_seq() == old(self).findings_seq(),
            r is Err ==> (r matches Err(HostError::Transport(_)) || r matches Err(
                HostError::Protocol(_),
            )),
            r is Ok ==> final(self).written() == old(self).written() + shutdown_frames(
                old(self).request_counter(),
            ),
            wrote_prefix(
                final(self).written(),
                old(self).written(),
                shutdown_frames(old(self).request_counter()),
            ),
            final(self).streams_extend(old(self)),
            r matches Err(HostError::Transport(e)) ==> final(self).transport_explained(old(self), e),
            r matches Err(HostError::Protocol(pe)) ==> response_refused(
                decode,
                "shutdown"@,
                old(self).request_counter(),
                old(self).consumed(),
                final(self).consumed(),
                old(self).frame_ceiling().bytes(),
                pe,
            ),
    {
        self.terminated = true;
        let id = self.next_id();
        let ghost w0 = self.written();
        let ghost a = frame_bytes(encode_utf8(request_text("shutdown"@, "{}"@, id)));
        let ghost b = frame_bytes(encode_utf8(notification_text("exit"@, "{}"@)));
        match self.send(shutdown_request(&ShutdownParams {}, id)) {
            Ok(()) => {},
            Err(e) => {
                proof {
                    lemma_prefix_within(self.written(), w0, a, b);
                }
                return Err(HostError::Transport(e));
            },
        }
        proof {
            lemma_prefix_full(w0, a);
            lemma_prefix_within(self.written(), w0, a, b);
        }
        let ghost h2 = *self;
        assert(h2.streams_extend(old(self))) by {
            assert(self.consumed().subrange(0, self.consumed().len() as int) =~= self.consumed());
        }
        let rr = self.read_response_matching(id, "shutdown", decode);
        proof {
            self.lemma_streams_extend_trans(&h2, old(self));
            if rr is Err && rr->Err_0 is Transport {
                self.lemma_explained_widen(&h2, old(self), rr->Err_0->Transport_0);
            }
        }
        match rr {
            Ok(_) => {},
            Err(e) => {
                return Err(e);
            },
        }
        let ghost w1 = self.written();
        let ghost h3 = *self;
        let r = self.send(exit_notification(&ExitNotification {}));
        proof {
            self.lemma_streams_extend_trans(&h3, old(self));
        }
        proof {
            if r is Ok {
                lemma_prefix_full(w1, b);
                assert(self.written() =~= w0 + (a + b));
            }
            lemma_prefix_then(self.written(), w0, a, b);
        }
        match r {
            Ok(()) => Ok(()),
            Err(e) => Err(HostError::Transport(e)),
        }
    }

    /// Send `shutdown` followed by `exit`. Idempotent: once a shutdown
    /// exchange has started (here or on a kill path), a further call returns
    /// `Ok` and writes nothing.
    pub fn shutdown<D>(&mut self, decode: &D) -> (r: Result<(), HostError>) where
        D: Fn(Vec<u8>) -> Option<Response>,
        requires
            !old(self).is_terminated() ==> old(self).request_counter() < i64::MAX,
            forall|b: Vec<u8>| decode.requires((b,)),
        ensures
            final(self).is_terminated(),
            old(self).is_terminated() ==> {
                &&& r is Ok
                &&& final(self).same_state(old(self))
                &&& final(self).written() == old(self).written()
            },
            final(self).cap() == old(self).cap(),
            final(self).breaker() == old(self).breaker(),
            final(self).findings_seq() == old(self).findings_seq(),
            !old(self).is_terminated() ==> final(self).request_counter() == old(self).request_counter()
                + 1,
            !old(self).is_terminated() ==> wrote_prefix(
                final(self).written(),
                old(self).written(),
                shutdown_frames(old(self).request_counter()),
            ),
            !old(self).is_terminated() && r is Ok ==> final(self).written() == old(self).written()
                + shutdown_frames(old(self).request_counter()),
            r is Err ==> (r matches Err(HostError::Transport(_)) || r matches Err(
                HostError::Protocol(_),
            )),
            old(self).is_terminated() ==> final(self).same_streams(old(self)),
            final(self).streams_extend(old(self)),
            r matches Err(HostError::Transport(e)) ==> final(self).transport_explained(old(self), e),
            r matches Err(HostError::Protocol(pe)) ==> response_refused(
                decode,
                "shutdown"@,
                old(self).request_counter(),
                old(self).consumed(),
                final(self).consumed(),
                old(self).frame_ceiling().bytes(),
                pe,
            ),
    {
        if self.terminated {
            assert(self.consumed().subrange(0, self.consumed().len() as int) =~= self.consumed());
            return Ok(());
        }
        self.do_shutdown(decode)
    }

    /// The `initialize` → `initialized` handshake.
    ///
    /// Sends `initialize`, waits for its response, decodes the result with
    /// `decode_initialize` (which yields the advertised ontology version),
    /// and requires that version to be non-blank. If the manifest was refused
    /// for an unsupported capability (`capability_refusal`), a finding is
    /// recorded, the plugin is shut down and no `initialized` is sent.
    /// Otherwise `initialized` is sent.
    pub fn handshake<D, I>(
        &mut self,
        decode: &D,
        decode_initialize: &I,
        capability_refusal: Option<String>,
    ) -> (r: Result<(), HostError>) where
        D: Fn(Vec<u8>) -> Option<Response>,
        I: Fn(String) -> Result<String, String>,
        requires
            old(self).request_counter() < i64::MAX - 1,
            forall|b: Vec<u8>| decode.requires((b,)),
            forall|t: String| decode_initialize.requires((t,)),
        ensures
            final(self).cap() == old(self).cap(),
            final(self).breaker() == old(self).breaker(),
            final(self).keeps_limits(old(self)),
            r is Ok ==> {
                &&& capability_refusal is None
                &&& final(self).ontology() matches Some(v) && crate::plugin::header::trim_ws(v).len()
                    > 0
                &&& final(self).findings_seq() == old(self).findings_seq()
                &&& final(self).is_terminated() == old(self).is_terminated()
                &&& final(self).request_counter() == old(self).request_counter() + 1
                &&& exists|t: String, v: String|
                    #![trigger call_ensures(decode_initialize, (t,), Ok::<String, String>(v))]
                    call_ensures(decode_initialize, (t,), Ok::<String, String>(v))
                        && final(self).ontology() == Some(v@) && answered(
                        decode,
                        old(self).consumed(),
                        final(self).consumed(),
                        old(self).frame_ceiling().bytes(),
                        old(self).request_counter(),
                        Ok::<String, ProtocolError>(t),
                    )
            },
            r is Err ==> {
                ||| r matches Err(HostError::Transport(_))
                ||| r matches Err(HostError::Protocol(_))
                ||| r matches Err(HostError::Handshake(_))
            },
            (r matches Err(HostError::Transport(_)) || r matches Err(HostError::Protocol(_)))
                ==> final(self).findings_seq() == old(self).findings_seq(),
            r matches Err(HostError::Handshake(d)) ==> {
                &&& capability_refusal == Some(d)
                &&& final(self).is_terminated()
                &&& final(self).findings_seq() == old(self).findings_seq().push(
                    unsupported_capability_view(d@),
                )
            },
            r is Ok ==> final(self).written() == old(self).written() + initialize_frame(
                old(self).project_root_view(),
                old(self).request_counter(),
            ) + initialized_frame(),
            (r matches Err(HostError::Transport(_)) || r matches Err(HostError::Protocol(_)))
                ==> wrote_prefix(
                final(self).written(),
                old(self).written(),
                initialize_frame(old(self).project_root_view(), old(self).request_counter())
                    + initialized_frame(),
            ),
            r matches Err(HostError::Handshake(_)) ==> wrote_prefix(
                final(self).written(),
                old(self).written() + initialize_frame(
                    old(self).project_root_view(),
                    old(self).request_counter(),
                ),
                shutdown_frames((old(self).request_counter() + 1) as i64),
            ),
            r matches Err(HostError::Handshake(_)) ==> final(self).shutdown_ran(
                old(self),
                decode,
                (old(self).request_counter() + 1) as i64,
                old(self).written() + initialize_frame(
                    old(self).project_root_view(),
                    old(self).request_counter(),
                ),
            ),
            final(self).streams_extend(old(self)),
            r matches Err(HostError::Transport(e)) ==> final(self).transport_explained(old(self), e),
            r matches Err(HostError::Protocol(pe)) ==> handshake_refused(
                decode,
                decode_initialize,
                old(self).request_counter(),
                old(self).consumed(),
                final(self).consumed(),
                old(self).frame_ceiling().bytes(),
                pe,
            ),
    {
        let ghost w0 = self.written();
        let ghost init = initialize_frame(self.project_root_view(), self.request_counter());
        let ghost note = initialized_frame();
        let id = self.next_id();
        let params = InitializeParams {
            protocol_version: String::from_str("1.0"),
            project_root: self.project_root.clone(),
        };
        let request = initialize_request(&params, id);
        match self.send(request) {
            Ok(()) => {},
            Err(e) => {
                proof {
                    lemma_prefix_within(self.written(), w0, init, note);
                }
                return Err(HostError::Transport(e));
            },
        }
        proof {
            lemma_prefix_full(w0, init);
            lemma_prefix_within(self.written(), w0, init, note);
        }
        let ghost h2 = *self;
        assert(h2.streams_extend(old(self))) by {
            assert(self.consumed().subrange(0, self.consumed().len() as int) =~= self.consumed());
        }
        let rr = self.read_response_matching(id, "initialize", decode);
        proof {
            self.lemma_streams_extend_trans(&h2, old(self));
            if rr is Err && rr->Err_0 is Transport {
                self.lemma_explained_widen(&h2, old(self), rr->Err_0->Transport_0);
            }
        }
        let value = match rr {
            Ok(v) => v,
            Err(e) => {
                return Err(e);
            },
        };
        let ghost text = value;
        let version = match decode_initialize(value) {
            Ok(v) => v,
            Err(detail) => {
                let pe = nonconforming_result("initialize", "InitializeResult", detail.as_str());
                assert(call_ensures(decode_initialize, (text,), Err::<String, String>(detail)));
                return Err(HostError::Protocol(pe));
            },
        };
        let ghost decoded_version = version;
        match check_ontology_version(version.as_str()) {
            Ok(()) => {},
            Err(pe) => {
                assert(call_ensures(decode_initialize, (text,), Ok::<String, String>(decoded_version)));
                return Err(HostError::Protocol(pe));
            },
        }
        let ghost advertised = version;
        self.ontology_version = Some(version);
        assert(call_ensures(decode_initialize, (text,), Ok::<String, String>(advertised)));
        let ghost h3 = *self;
        match capability_refusal {
            Some(detail) => {
                self.push_finding(HostFinding::unsupported_capability(detail.as_str()));
                let ghost h4 = *self;
                let r2 = self.do_shutdown(decode);
                proof {
                    h4.lemma_same_then_extend(&h3, old(self));
                    self.lemma_streams_extend_trans(&h4, old(self));
                    self.lemma_shutdown_ran(&h4, old(self), decode, r2, w0 + init);
                }
                return Err(HostError::Handshake(detail));
            },
            None => {},
        }
        let ghost w1 = self.written();
        assert(w1 == w0 + init);
        let r = self.send(initialized_notification(&InitializedNotification {}));
        proof {
            if r is Ok {
                lemma_prefix_full(w1, note);
            }
            lemma_prefix_then(self.written(), w0, init, note);
        }
        match r {
            Ok(()) => Ok(()),
            Err(e) => Err(HostError::Transport(e)),
        }
    }

    /// Send `analyze_file` for `file_path`, wait for the response, and run
    /// every returned entity through the enforcement pipeline.
    ///
    /// `decode_entities` turns the result's JSON text into the entities
    /// (each either decoded or the decoder's error text); `jail`
    /// canonicalises a source path against the project root. An entity that
    /// fails to decode is dropped with a finding. When the path-escape
    /// breaker trips or the entity cap is exceeded, the plugin is shut down
    /// (best effort) and the call fails.
    ///
    /// Given the entities `decode_entities` produced and the jail's verdicts,
    /// the findings recorded and the entities accepted are exactly those of
    /// [`run_findings`] and [`run_accepted`]; which response arrived, and
    /// what the two closures return, is theirs to decide. Every escape is
    /// recorded on the path-escape breaker ([`escapes_run`]), and the call
    /// fails with `PathEscapeBreakerTripped` exactly at the first escape
    /// that leaves more than the threshold in the window; it fails with
    /// `EntityCapExceeded` exactly at the first admission whose total would
    /// pass the cap, reporting that total.
    #[verifier::rlimit(100)]
    #[verifier::spinoff_prover]
    pub fn analyze_file<D, E, J>(
        &mut self,
        file_path: &str,
        decode: &D,
        decode_entities: &E,
        canonicalize: &J,
    ) -> (r: Result<Vec<AcceptedEntity>, HostError>) where
        D: Fn(Vec<u8>) -> Option<Response>,
        E: Fn(String) -> Result<Vec<Result<RawEntity, String>>, String>,
        J: Fn(String) -> Result<Vec<u8>, std::io::Error>,
        requires
            old(self).request_counter() < i64::MAX - 1,
            forall|b: Vec<u8>| decode.requires((b,)),
            forall|t: String| decode_entities.requires((t,)),
            forall|p: String| canonicalize.requires((p,)),
        ensures
            r is Ok ==> final(self).written() == old(self).written() + analyze_frame(
                file_path@,
                old(self).request_counter(),
            ),
            (r matches Err(HostError::Transport(_)) || r matches Err(HostError::Protocol(_)))
                ==> wrote_prefix(
                final(self).written(),
                old(self).written(),
                analyze_frame(file_path@, old(self).request_counter()),
            ),
            (r matches Err(HostError::PathEscapeBreakerTripped) || r matches Err(
                HostError::EntityCapExceeded(_),
            )) ==> wrote_prefix(
                final(self).written(),
                old(self).written() + analyze_frame(file_path@, old(self).request_counter()),
                shutdown_frames((old(self).request_counter() + 1) as i64),
            ),
            (r matches Err(HostError::PathEscapeBreakerTripped) || r matches Err(
                HostError::EntityCapExceeded(_),
            )) ==> final(self).shutdown_ran(
                old(self),
                decode,
                (old(self).request_counter() + 1) as i64,
                old(self).written() + analyze_frame(file_path@, old(self).request_counter()),
            ),
            final(self).keeps_limits(old(self)),
            final(self).ontology() == old(self).ontology(),
            final(self).cap().max_items() == old(self).cap().max_items(),
            old(self).cap().consumed_items() <= old(self).cap().max_items()
                ==> final(self).cap().consumed_items() <= final(self).cap().max_items(),
            r matches Ok(v) ==> {
                &&& v@.len() > 0 ==> saturated_total(old(self).cap().consumed_items(), v@.len())
                    <= old(self).cap().max_items()
                &&& final(self).cap().consumed_items() == saturated_total(
                    old(self).cap().consumed_items(),
                    v@.len(),
                )
                &&& forall|i: int|
                    0 <= i < v@.len() ==> accepted_by(
                        old(self).plugin_id_view(),
                        old(self).kinds_view(),
                        #[trigger] v@[i],
                    )
                &&& final(self).request_counter() == old(self).request_counter() + 1
                &&& final(self).is_terminated() == old(self).is_terminated()
                &&& forall|i: int|
                    0 <= i < v@.len() ==> path_within(
                        encode_utf8(old(self).project_root_view()),
                        encode_utf8(#[trigger] v@[i].source_file_path@),
                    )
                &&& final(self).breaker().window_nanos() == old(self).breaker().window_nanos()
                &&& final(self).breaker().threshold() == old(self).breaker().threshold()
                &&& exists|
                    t: String,
                    ents: Vec<Result<RawEntity, String>>,
                    vs: Seq<Result<String, JailError>>,
                |
                    #![trigger call_ensures(decode_entities, (t,), Ok::<Vec<Result<RawEntity, String>>, String>(ents)), jail_verdicts(canonicalize, encode_utf8(old(self).project_root_view()), old(self).plugin_id_view(), old(self).kinds_view(), ents@, vs)]
                    {
                        &&& answered(
                            decode,
                            old(self).consumed(),
                            final(self).consumed(),
                            old(self).frame_ceiling().bytes(),
                            old(self).request_counter(),
                            Ok::<String, ProtocolError>(t),
                        )
                        &&& call_ensures(
                            decode_entities,
                            (t,),
                            Ok::<Vec<Result<RawEntity, String>>, String>(ents),
                        )
                        &&& jail_verdicts(
                            canonicalize,
                            encode_utf8(old(self).project_root_view()),
                            old(self).plugin_id_view(),
                            old(self).kinds_view(),
                            ents@,
                            vs,
                        )
                        &&& final(self).findings_seq() == old(self).findings_seq() + run_findings(
                            old(self).plugin_id_view(),
                            old(self).kinds_view(),
                            ents@,
                            vs,
                        )
                        &&& v@.map_values(|a: AcceptedEntity| accepted_view(a)) == run_accepted(
                            old(self).plugin_id_view(),
                            old(self).kinds_view(),
                            ents@,
                            vs,
                        )
                        &&& accepted_from(v@, ents@)
                        &&& escapes_run(
                            old(self).breaker().escapes(),
                            escape_count(old(self).plugin_id_view(), old(self).kinds_view(), ents@, vs),
                            old(self).breaker().window_nanos(),
                            old(self).breaker().threshold(),
                            final(self).breaker().escapes(),
                            false,
                        )
                        &&& final(self).findings_seq().len() == old(self).findings_seq().len()
                            + ents@.len() - v@.len()
                    }
            },
            r is Err ==> {
                ||| r matches Err(HostError::Transport(_))
                ||| r matches Err(HostError::Protocol(_))
                ||| r matches Err(HostError::PathEscapeBreakerTripped)
                ||| r matches Err(HostError::EntityCapExceeded(_))
            },
            final(self).streams_extend(old(self)),
            r matches Err(HostError::Transport(e)) ==> final(self).transport_explained(old(self), e),
            r matches Err(HostError::Protocol(pe)) ==> {
                ||| response_refused(
                    decode,
                    "analyze_file"@,
                    old(self).request_counter(),
                    old(self).consumed(),
                    final(self).consumed(),
                    old(self).frame_ceiling().bytes(),
                    pe,
                )
                ||| exists|t: String, detail: String|
                    #![trigger call_ensures(decode_entities, (t,), Err::<Vec<Result<RawEntity, String>>, String>(detail))]
                    answered(
                        decode,
                        old(self).consumed(),
                        final(self).consumed(),
                        old(self).frame_ceiling().bytes(),
                        old(self).request_counter(),
                        Ok::<String, ProtocolError>(t),
                    ) && call_ensures(
                        decode_entities,
                        (t,),
                        Err::<Vec<Result<RawEntity, String>>, String>(detail),
                    ) && nonconforming_view("analyze_file"@, "AnalyzeFileResult"@, detail@, pe)
            },
            (r matches Err(HostError::Transport(_)) || r matches Err(HostError::Protocol(_))) ==> {
                &&& final(self).findings_seq() == old(self).findings_seq()
                &&& final(self).cap() == old(self).cap()
                &&& final(self).breaker() == old(self).breaker()
                &&& final(self).is_terminated() == old(self).is_terminated()
            },
            r matches Err(HostError::PathEscapeBreakerTripped) ==> {
                &&& final(self).is_terminated()
                &&& exists|
                    t: String,
                    ents: Vec<Result<RawEntity, String>>,
                    vs: Seq<Result<String, JailError>>,
                |
                    #![trigger call_ensures(decode_entities, (t,), Ok::<Vec<Result<RawEntity, String>>, String>(ents)), jail_verdicts(canonicalize, encode_utf8(old(self).project_root_view()), old(self).plugin_id_view(), old(self).kinds_view(), ents@.take(vs.len() as int), vs)]
                    {
                        &&& call_ensures(
                            decode_entities,
                            (t,),
                            Ok::<Vec<Result<RawEntity, String>>, String>(ents),
                        )
                        &&& 0 < vs.len() <= ents@.len()
                        &&& jail_verdicts(
                            canonicalize,
                            encode_utf8(old(self).project_root_view()),
                            old(self).plugin_id_view(),
                            old(self).kinds_view(),
                            ents@.take(vs.len() as int),
                            vs,
                        )
                        &&& reaches_jail(
                            old(self).plugin_id_view(),
                            old(self).kinds_view(),
                            ents@[vs.len() - 1],
                        )
                        &&& vs.last() is Err
                        &&& escapes_run(
                            old(self).breaker().escapes(),
                            escape_count(
                                old(self).plugin_id_view(),
                                old(self).kinds_view(),
                                ents@.take(vs.len() as int),
                                vs,
                            ),
                            old(self).breaker().window_nanos(),
                            old(self).breaker().threshold(),
                            final(self).breaker().escapes(),
                            true,
                        )
                        &&& run_accepted(
                            old(self).plugin_id_view(),
                            old(self).kinds_view(),
                            ents@.take(vs.len() as int - 1),
                            vs,
                        ).len() > 0 ==> saturated_total(
                            old(self).cap().consumed_items(),
                            run_accepted(
                            old(self).plugin_id_view(),
                            old(self).kinds_view(),
                            ents@.take(vs.len() as int - 1),
                            vs,
                        ).len(),
                        ) <= old(self).cap().max_items()
                        &&& final(self).findings_seq() == old(self).findings_seq() + run_findings(
                            old(self).plugin_id_view(),
                            old(self).kinds_view(),
                            ents@.take(vs.len() as int),
                            vs,
                        ).push(disabled_path_escape_view())
                    }
            },
            r matches Err(HostError::EntityCapExceeded(e)) ==> {
                &&& final(self).is_terminated()
                &&& e.cap == old(self).cap().max_items()
                &&& e.would_reach > e.cap
                &&& exists|
                    t: String,
                    ents: Vec<Result<RawEntity, String>>,
                    vs: Seq<Result<String, JailError>>,
                |
                    #![trigger call_ensures(decode_entities, (t,), Ok::<Vec<Result<RawEntity, String>>, String>(ents)), jail_verdicts(canonicalize, encode_utf8(old(self).project_root_view()), old(self).plugin_id_view(), old(self).kinds_view(), ents@.take(vs.len() as int), vs)]
                    {
                        &&& call_ensures(
                            decode_entities,
                            (t,),
                            Ok::<Vec<Result<RawEntity, String>>, String>(ents),
                        )
                        &&& 0 < vs.len() <= ents@.len()
                        &&& jail_verdicts(
                            canonicalize,
                            encode_utf8(old(self).project_root_view()),
                            old(self).plugin_id_view(),
                            old(self).kinds_view(),
                            ents@.take(vs.len() as int),
                            vs,
                        )
                        &&& reaches_jail(
                            old(self).plugin_id_view(),
                            old(self).kinds_view(),
                            ents@[vs.len() - 1],
                        )
                        &&& vs.last() is Ok
                        &&& escapes_run(
                            old(self).breaker().escapes(),
                            escape_count(
                                old(self).plugin_id_view(),
                                old(self).kinds_view(),
                                ents@.take(vs.len() as int),
                                vs,
                            ),
                            old(self).breaker().window_nanos(),
                            old(self).breaker().threshold(),
                            final(self).breaker().escapes(),
                            false,
                        )
                        &&& run_accepted(
                            old(self).plugin_id_view(),
                            old(self).kinds_view(),
                            ents@.take(vs.len() as int - 1),
                            vs,
                        ).len() > 0 ==> saturated_total(
                            old(self).cap().consumed_items(),
                            run_accepted(
                            old(self).plugin_id_view(),
                            old(self).kinds_view(),
                            ents@.take(vs.len() as int - 1),
                            vs,
                        ).len(),
                        ) <= old(self).cap().max_items()
                        &&& e.would_reach == saturated_total(
                            saturated_total(old(self).cap().consumed_items(), run_accepted(
                            old(self).plugin_id_view(),
                            old(self).kinds_view(),
                            ents@.take(vs.len() as int - 1),
                            vs,
                        ).len()),
                            1,
                        )
                        &&& final(self).findings_seq() == old(self).findings_seq() + run_findings(
                            old(self).plugin_id_view(),
                            old(self).kinds_view(),
                            ents@.take(vs.len() as int - 1),
                            vs,
                        ).push(cap_exceeded_view(e.cap as nat, e.would_reach as nat))
                    }
            },
    {
        let id = self.next_id();
        let params = AnalyzeFileParams { file_path: String::from_str(file_path) };
        let ghost w0 = old(self).written();
        let ghost req = analyze_frame(file_path@, old(self).request_counter());
        match self.send(analyze_file_request(&params, id)) {
            Ok(()) => {},
            Err(e) => {
                return Err(HostError::Transport(e));
            },
        }
        proof {
            lemma_prefix_full(w0, req);
        }
        let ghost h2 = *self;
        assert(h2.streams_extend(old(self))) by {
            assert(self.consumed().subrange(0, self.consumed().len() as int) =~= self.consumed());
        }
        let rr = self.read_response_matching(id, "analyze_file", decode);
        proof {
            self.lemma_streams_extend_trans(&h2, old(self));
            if rr is Err && rr->Err_0 is Transport {
                self.lemma_explained_widen(&h2, old(self), rr->Err_0->Transport_0);
            }
        }
        let value = match rr {
            Ok(v) => v,
            Err(e) => {
                return Err(e);
            },
        };
        let ghost text = value;
        let entities = match decode_entities(value) {
            Ok(v) => v,
            Err(detail) => {
                let pe = nonconforming_result("analyze_file", "AnalyzeFileResult", detail.as_str());
                assert(call_ensures(
                    decode_entities,
                    (text,),
                    Err::<Vec<Result<RawEntity, String>>, String>(detail),
                ));
                return Err(HostError::Protocol(pe));
            },
        };
        let ghost h3 = *self;
        proof {
            old(self).cap().lemma_bounds();
        }
        let mut accepted: Vec<AcceptedEntity> = Vec::new();
        let ghost mut idx: Seq<int> = Seq::empty();
        let ghost mut vs: Seq<Result<String, JailError>> = Seq::empty();
        let ghost pid = old(self).plugin_id_view();
        let ghost root = encode_utf8(old(self).project_root_view());
        assert(self.written() == w0 + req);
        let ghost kinds = old(self).kinds_view();
        proof {
            lemma_escapes_start(
                old(self).breaker().escapes(),
                old(self).breaker().window_nanos(),
                old(self).breaker().threshold(),
            );
            assert(entities@.take(0) =~= Seq::<Result<RawEntity, String>>::empty());
        }
        let mut i: usize = 0;
        while i < entities.len()
            invariant
                i <= entities@.len(),
                pid == old(self).plugin_id_view(),
                kinds == old(self).kinds_view(),
                self.written() == w0 + req,
                self.same_streams(&h3),
                h3.streams_extend(old(self)),
                root == encode_utf8(old(self).project_root_view()),
                forall|k: int|
                    0 <= k < accepted@.len() ==> path_within(
                        root,
                        encode_utf8(#[trigger] accepted@[k].source_file_path@),
                    ),
                req == analyze_frame(file_path@, old(self).request_counter()),
                w0 == old(self).written(),
                jail_verdicts(canonicalize, root, pid, kinds, entities@.take(i as int), vs),
                self.findings_seq() == old(self).findings_seq() + run_findings(
                    pid,
                    kinds,
                    entities@.take(i as int),
                    vs,
                ),
                accepted@.map_values(|a: AcceptedEntity| accepted_view(a)) == run_accepted(
                    pid,
                    kinds,
                    entities@.take(i as int),
                    vs,
                ),
                call_ensures(
                    decode_entities,
                    (text,),
                    Ok::<Vec<Result<RawEntity, String>>, String>(entities),
                ),
                idx.len() == accepted@.len(),
                forall|a: int, b: int| 0 <= a < b < idx.len() ==> idx[a] < idx[b],
                forall|a: int|
                    0 <= a < idx.len() ==> 0 <= #[trigger] idx[a] < i && entities@[idx[a]] == Ok::<
                        RawEntity,
                        String,
                    >(accepted@[a].raw),
                accepted@.len() <= i,
                escapes_run(
                    old(self).breaker().escapes(),
                    escape_count(pid, kinds, entities@.take(i as int), vs),
                    old(self).breaker().window_nanos(),
                    old(self).breaker().threshold(),
                    self.breaker().escapes(),
                    false,
                ),
                accepted@.len() > 0 ==> saturated_total(
                    old(self).cap().consumed_items(),
                    accepted@.len(),
                ) <= old(self).cap().max_items(),
                self.findings_seq().len() == old(self).findings_seq().len() + i - accepted@.len(),
                self.is_terminated() == old(self).is_terminated(),
                self.breaker().window_nanos() == old(self).breaker().window_nanos(),
                self.breaker().threshold() == old(self).breaker().threshold(),
                self.keeps_limits(old(self)),
                self.ontology() == old(self).ontology(),
                self.request_counter() == old(self).request_counter() + 1,
                old(self).request_counter() < i64::MAX - 1,
                self.cap().max_items() == old(self).cap().max_items(),
                old(self).cap().max_items() <= usize::MAX,
                self.cap().consumed_items() == saturated_total(
                    old(self).cap().consumed_items(),
                    accepted@.len(),
                ),
                old(self).cap().consumed_items() <= old(self).cap().max_items()
                    ==> self.cap().consumed_items() <= self.cap().max_items(),
                forall|k: int|
                    0 <= k < accepted@.len() ==> accepted_by(
                        old(self).plugin_id_view(),
                        old(self).kinds_view(),
                        #[trigger] accepted@[k],
                    ),
                forall|b: Vec<u8>| decode.requires((b,)),
                forall|p: String| canonicalize.requires((p,)),
            decreases entities@.len() - i,
        {
            let ghost mut v_i: Result<String, JailError> = vstd::pervasive::arbitrary();
            match &entities[i] {
                Err(detail) => {
                    self.push_finding(HostFinding::malformed_entity(detail.as_str()));
                },
                Ok(raw) => {
                    match self.screen_entity(raw) {
                        Screen::Dropped => {},
                        Screen::ToJail(eid) => {
                            let path = raw.file_path.clone();
                            let canon = canonicalize(path);
                            let ghost c = canon;
                            let verdict = match canon {
                                Err(e) => Err(JailError::Io(e)),
                                Ok(bytes) => jail_verdict(self.project_root.as_str().as_bytes(), bytes),
                            };
                            proof {
                                v_i = verdict;
                                assert(call_ensures(canonicalize, (raw.file_path,), c) && jail_outcome(
                                    root,
                                    c,
                                    v_i,
                                ));
                            }
                            let owned = copy_raw(raw);
                            let ghost esc0 = self.breaker().escapes();
                            let ghost n0 = escape_count(pid, kinds, entities@.take(i as int), vs);
                            let adm = self.admit_jailed(owned, eid, verdict);
                            proof {
                                if v_i is Err {
                                    let at = choose|at: u64|
                                        self.breaker().escapes() == live_events(
                                            esc0.push(at),
                                            at,
                                            old(self).breaker().window_nanos(),
                                        );
                                    lemma_escapes_step(
                                        old(self).breaker().escapes(),
                                        n0,
                                        old(self).breaker().window_nanos(),
                                        old(self).breaker().threshold(),
                                        esc0,
                                        at,
                                    );
                                }
                            }
                            match adm {
                                Admission::Dropped => {},
                                Admission::Accepted(acc) => {
                                    proof {
                                        lemma_admit_total(
                                            old(self).cap().consumed_items(),
                                            accepted@.len() as nat,
                                            old(self).cap().max_items(),
                                        );
                                        idx = idx.push(i as int);
                                        lemma_admitted_within(root, c, v_i);
                                        assert(acc.source_file_path == v_i->Ok_0);
                                    }
                                    let ghost before_acc = accepted@;
                                    let ghost acc_g = acc;
                                    proof {
                                        assert(path_within(root, encode_utf8(acc_g.source_file_path@)));
                                    }
                                    accepted.push(acc);
                                    proof {
                                        assert(accepted@ == before_acc.push(acc_g));
                                        lemma_push_within(root, before_acc, acc_g);
                                    }
                                },
                                Admission::BreakerTripped => {
                                    proof {
                                        assert(v_i is Err);
                                        assert(self.breaker().escapes().len() > old(
                                            self,
                                        ).breaker().threshold());
                                        lemma_run_prefix(
                                            pid,
                                            kinds,
                                            entities@.take(i as int),
                                            vs,
                                            vs.push(v_i),
                                        );
                                        assert(entities@.take(i as int + 1).drop_last() =~= entities@.take(i as int));
                                        lemma_verdicts_extend(
                                            canonicalize,
                                            root,
                                            pid,
                                            kinds,
                                            entities@,
                                            i as int,
                                            vs,
                                            v_i,
                                        );
                                    }
                                    let ghost h4 = *self;
                                    let r2 = self.do_shutdown(decode);
                                    proof {
                                        h4.lemma_same_then_extend(&h3, old(self));
                                        self.lemma_streams_extend_trans(&h4, old(self));
                                        self.lemma_shutdown_ran(&h4, old(self), decode, r2, w0 + req);
                                    }
                                    return Err(HostError::PathEscapeBreakerTripped);
                                },
                                Admission::CapExceeded(e) => {
                                    proof {
                                        lemma_admit_total(
                                            old(self).cap().consumed_items(),
                                            accepted@.len() as nat,
                                            old(self).cap().max_items(),
                                        );
                                        assert(entities@.take(i as int + 1).drop_last() =~= entities@.take(i as int));
                                        lemma_run_prefix(
                                            pid,
                                            kinds,
                                            entities@.take(i as int),
                                            vs,
                                            vs.push(v_i),
                                        );
                                        lemma_verdicts_extend(
                                            canonicalize,
                                            root,
                                            pid,
                                            kinds,
                                            entities@,
                                            i as int,
                                            vs,
                                            v_i,
                                        );
                                    }
                                    let ghost h4 = *self;
                                    let r2 = self.do_shutdown(decode);
                                    proof {
                                        h4.lemma_same_then_extend(&h3, old(self));
                                        self.lemma_streams_extend_trans(&h4, old(self));
                                        self.lemma_shutdown_ran(&h4, old(self), decode, r2, w0 + req);
                                    }
                                    return Err(HostError::EntityCapExceeded(e));
                                },
                            }
                        },
                    }
                },
            }
            proof {
                lemma_verdicts_extend(canonicalize, root, pid, kinds, entities@, i as int, vs, v_i);
                vs = vs.push(v_i);
            }
            i = i + 1;
        }
        assert(entities@.take(entities@.len() as int) =~= entities@);
        assert(indexes_accepted(accepted@, entities@, idx));
        proof {
            self.lemma_same_then_extend(&h3, old(self));
        }
        Ok(accepted)
    }

    /// The id the next request will carry.
    pub fn next_request_id_test(&self) -> (id: i64)
        ensures
            id == self.request_counter(),
    {
        self.next_request_id
    }

    /// Set the id the next request will carry.
    pub fn set_next_request_id_test(&mut self, id: i64)
        ensures
            final(self).request_counter() == id,
            final(self).findings_seq() == old(self).findings_seq(),
            final(self).is_terminated() == old(self).is_terminated(),
            final(self).cap() == old(self).cap(),
            final(self).breaker() == old(self).breaker(),
            final(self).keeps_limits(old(self)),
    {
        self.next_request_id = id;
    }

    /// Replace the run-wide entity cap.
    pub fn set_entity_cap_test(&mut self, cap: EntityCountCap)
        ensures
            final(self).cap() == cap,
            final(self).request_counter() == old(self).request_counter(),
            final(self).findings_seq() == old(self).findings_seq(),
            final(self).is_terminated() == old(self).is_terminated(),
            final(self).breaker() == old(self).breaker(),
            final(self).keeps_limits(old(self)),
    {
        self.entity_cap = cap;
    }

    /// The writer, to inspect what was sent.
    pub fn writer_bytes_test(&self) -> (w: &W) {
        self.writer.get_ref()
    }

}

} // verus!
