//! JSON-RPC 2.0 message types for the plugin protocol.
//!
//! Each method has its own parameter and result type. The envelope
//! (`jsonrpc`, `method`, `params`, `id`) stays separate from the
//! method-specific payload, as on the wire:
//!
//! ```json
//! {"jsonrpc":"2.0","method":"initialize","params":{...},"id":1}
//! ```
//!
//! Five methods exist: `initialize` (request/response), `initialized`
//! (notification), `analyze_file` (request/response), `shutdown`
//! (request/response, empty parameters and result) and `exit`
//! (notification).

use vstd::prelude::*;

use crate::text::{debug_quoted, debug_str, same_text};

verus! {

/// The protocol version marker, always `"2.0"` on the wire.
#[derive(Debug, Clone, PartialEq, Eq)]
pub struct JsonRpcVersion;

/// Why a `jsonrpc` member other than `"2.0"` is refused.
pub open spec fn version_refusal_text(v: Seq<char>) -> Seq<char> {
    "unsupported JSON-RPC version "@ + debug_quoted(v) + "; expected \"2.0\""@
}

impl JsonRpcVersion {
    /// Read the `jsonrpc` member of an envelope: only `"2.0"` is accepted.
    pub fn from_text(v: &str) -> (r: Result<JsonRpcVersion, String>)
        ensures
            v@ == "2.0"@ ==> r is Ok,
            v@ != "2.0"@ ==> (r matches Err(m) && m@ == version_refusal_text(v@)),
    {
        if same_text(v, "2.0") {
            Ok(JsonRpcVersion)
        } else {
            let mut m = String::from_str("unsupported JSON-RPC version ");
            m.append(debug_str(v).as_str());
            m.append("; expected \"2.0\"");
            Err(m)
        }
    }
}

/// JSON-RPC error object. `data`, when present, is kept as its JSON text.
#[derive(Debug, Clone, PartialEq, Eq)]
pub struct ProtocolError {
    pub code: i64,
    pub message: String,
    pub data: Option<String>,
}

/// A decoded response envelope: its id, and either the result (as JSON
/// text) or the error object. The wire form carries exactly one of
/// `result` and `error`.
pub struct Response {
    pub id: i64,
    pub payload: Result<String, ProtocolError>,
}

/// Why a response carrying both `result` and `error` is refused.
pub open spec fn both_present_text() -> Seq<char> {
    "response envelope must have exactly one of `result` or `error`, but both were present"@
}

/// Why a response carrying neither `result` nor `error` is refused.
pub open spec fn neither_present_text() -> Seq<char> {
    "response envelope must have exactly one of `result` or `error`, but neither was present"@
}

/// Assemble a response envelope from its `id` and its `result` (as JSON
/// text) and `error` members, each `None` when absent; the `error` member
/// comes decoded as an error object, or as the decoder's complaint.
/// JSON-RPC 2.0 requires exactly one of the two members: with both, a plugin
/// could hide an error behind a result; with neither, the response says
/// nothing. The `error` member matters only when it is the one present.
pub fn response_from_parts(
    id: i64,
    result: Option<String>,
    error: Option<Result<ProtocolError, String>>,
) -> (r: Result<Response, String>)
    ensures
        match (result, error) {
            (Some(v), None) => (r matches Ok(resp) && resp.id == id && resp.payload == Ok::<
                String,
                ProtocolError,
            >(v)),
            (None, Some(Ok(e))) => (r matches Ok(resp) && resp.id == id && resp.payload == Err::<
                String,
                ProtocolError,
            >(e)),
            (None, Some(Err(m))) => r == Err::<Response, String>(m),
            (Some(_), Some(_)) => (r matches Err(m) && m@ == both_present_text()),
            (None, None) => (r matches Err(m) && m@ == neither_present_text()),
        },
{
    match (result, error) {
        (Some(v), None) => Ok(Response { id, payload: Ok(v) }),
        (None, Some(Ok(e))) => Ok(Response { id, payload: Err(e) }),
        (None, Some(Err(m))) => Err(m),
        (Some(_), Some(_)) => Err(
            String::from_str(
                "response envelope must have exactly one of `result` or `error`, but both were present",
            ),
        ),
        (None, None) => Err(
            String::from_str(
                "response envelope must have exactly one of `result` or `error`, but neither was present",
            ),
        ),
    }
}

/// Parameters of `initialize`.
#[derive(Debug, Clone, PartialEq, Eq)]
pub struct InitializeParams {
    /// Protocol version the core speaks, e.g. `"1.0"`.
    pub protocol_version: String,
    /// The project root being analysed, as UTF-8 text.
    pub project_root: String,
}

/// Parameters of the `initialized` notification: none (an empty object on
/// the wire).
#[derive(Debug, Clone, PartialEq, Eq)]
pub struct InitializedNotification {}

/// Parameters of `analyze_file`.
#[derive(Debug, Clone, PartialEq, Eq)]
pub struct AnalyzeFileParams {
    /// Path of the file to analyse, as UTF-8 text.
    pub file_path: String,
}

/// Parameters of `shutdown`: none (an empty object on the wire).
#[derive(Debug, Clone, PartialEq, Eq)]
pub struct ShutdownParams {}

/// Result of `shutdown`: none (an empty object on the wire).
#[derive(Debug, Clone, PartialEq, Eq)]
pub struct ShutdownResult {}

/// Parameters of the `exit` notification: none (an empty object on the
/// wire).
#[derive(Debug, Clone, PartialEq, Eq)]
pub struct ExitNotification {}

} // verus!
