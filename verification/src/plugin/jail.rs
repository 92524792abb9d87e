//! The path jail.
//!
//! Every file path a plugin names must lie inside the project root once both
//! are canonicalised (symlinks followed). Canonicalising is file-system work
//! done by the caller; this module decides, from the two canonical paths,
//! whether the candidate lies inside the root ([`path_within`]) and what the
//! host is handed at the wire boundary ([`jail_verdict`]).

use vstd::prelude::*;

use vstd::utf8::{decode_utf8, valid_utf8};

use crate::plugin::transport::string_from_utf8;
use crate::text::{debug_quoted, debug_str};

verus! {

/// Why a candidate path was refused by the jail. Offending paths are held
/// as the bytes of the canonical path, exactly as the platform gave them.
#[derive(Debug)]
pub enum JailError {
    /// The candidate resolves outside the root.
    EscapedRoot { offending: Vec<u8> },
    /// Canonicalising failed: the candidate or the root does not exist, or
    /// permission was denied.
    Io(std::io::Error),
    /// The canonical path is not valid UTF-8.
    NonUtf8Path { offending: Vec<u8> },
}

/// The text of a jail error; an offending path appears as its lossy text.
/// `io` stands for the text of an I/O error, which comes from the operating
/// system and is not modelled.
pub open spec fn jail_error_text(e: JailError, io: Seq<char>) -> Seq<char> {
    match e {
        JailError::EscapedRoot { offending } => "path escape: "@ + debug_quoted(
            lossy_text(offending@),
        ) + " resolves outside the jail root"@,
        JailError::NonUtf8Path { offending } => "path is not valid UTF-8: "@ + debug_quoted(
            lossy_text(offending@),
        ),
        JailError::Io(_) => "jail canonicalize error: "@ + io,
    }
}

/// Wraps the `Display` impl of `std::io::Error`. Nothing is stated of the
/// text, which comes from the operating system.
#[verifier::external_body]
pub(crate) fn io_error_text(e: &std::io::Error) -> String {
    e.to_string()
}

impl JailError {
    /// Human-readable description of the error.
    pub fn message(&self) -> (s: String)
        ensures
            exists|io: Seq<char>| s@ == #[trigger] jail_error_text(*self, io),
    {
        match self {
            JailError::EscapedRoot { offending } => {
                let mut s = String::from_str("path escape: ");
                let text = lossy_string(offending.as_slice());
                s.append(debug_str(text.as_str()).as_str());
                s.append(" resolves outside the jail root");
                assert(s@ == jail_error_text(*self, Seq::empty()));
                s
            },
            JailError::Io(e) => {
                let mut s = String::from_str("jail canonicalize error: ");
                let t = io_error_text(e);
                s.append(t.as_str());
                assert(s@ == jail_error_text(*self, t@));
                s
            },
            JailError::NonUtf8Path { offending } => {
                let mut s = String::from_str("path is not valid UTF-8: ");
                let text = lossy_string(offending.as_slice());
                s.append(debug_str(text.as_str()).as_str());
                assert(s@ == jail_error_text(*self, Seq::empty()));
                s
            },
        }
    }
}

/// The path a finding reports for a jail refusal: the lossy text of the
/// resolved offending path where there is one, else the path the plugin
/// sent.
pub open spec fn offender_text(e: JailError, sent: Seq<char>) -> Seq<char> {
    match e {
        JailError::EscapedRoot { offending } => lossy_text(offending@),
        JailError::NonUtf8Path { offending } => lossy_text(offending@),
        JailError::Io(_) => sent,
    }
}

/// The path a finding reports for a jail refusal.
pub fn jail_offender(e: &JailError, sent: &str) -> (s: String)
    ensures
        s@ == offender_text(*e, sent@),
{
    match e {
        JailError::EscapedRoot { offending } => lossy_string(offending.as_slice()),
        JailError::NonUtf8Path { offending } => lossy_string(offending.as_slice()),
        JailError::Io(_) => String::from_str(sent),
    }
}

/// `candidate` lies inside `root`: `root` is a whole-component prefix of
/// `candidate`. Both are canonical paths as bytes (absolute, no `.` or `..`
/// component, no repeated separator, and no trailing separator but in the
/// root `/` itself), for which this is `Path::starts_with`.
pub open spec fn path_within(root: Seq<u8>, candidate: Seq<u8>) -> bool {
    &&& root.len() <= candidate.len()
    &&& candidate.take(root.len() as int) == root
    &&& {
        ||| candidate.len() == root.len()
        ||| (root.len() > 0 && root.last() == 47u8)
        ||| candidate[root.len() as int] == 47u8
    }
}

/// Whether the canonical path `candidate` lies inside the canonical path
/// `root` (see [`path_within`]).
pub fn is_within_root(root: &[u8], candidate: &[u8]) -> (b: bool)
    ensures
        b == path_within(root@, candidate@),
{
    if candidate.len() < root.len() {
        return false;
    }
    let mut i: usize = 0;
    while i < root.len()
        invariant
            root@.len() <= candidate@.len(),
            i <= root@.len(),
            forall|k: int| 0 <= k < i ==> candidate@[k] == root@[k],
        decreases root@.len() - i,
    {
        if candidate[i] != root[i] {
            assert(candidate@.take(root@.len() as int)[i as int] != root@[i as int]);
            return false;
        }
        i = i + 1;
    }
    assert(candidate@.take(root@.len() as int) =~= root@);
    candidate.len() == root.len() || (root.len() > 0 && root[root.len() - 1] == 47u8)
        || candidate[root.len()] == 47u8
}

/// The text of a path that may not be UTF-8: invalid sequences replaced by
/// U+FFFD.
pub uninterp spec fn lossy_text(bytes: Seq<u8>) -> Seq<char>;

/// Wraps `String::from_utf8_lossy`: the text of `bytes`, named
/// [`lossy_text`]; valid UTF-8 comes back unchanged, as its documentation
/// states.
#[verifier::external_body]
fn lossy_string(bytes: &[u8]) -> (s: String)
    ensures
        s@ == lossy_text(bytes@),
        valid_utf8(bytes@) ==> s@ == decode_utf8(bytes@),
{
    String::from_utf8_lossy(bytes).into_owned()
}

/// The jail's verdict on a candidate path, given the canonical root and the
/// canonical candidate as bytes: the candidate as UTF-8 text when it lies
/// inside the root; an escape when it does not; a non-UTF-8 refusal when it
/// lies inside but is not UTF-8 text. Offending paths are reported as their
/// bytes.
pub fn jail_verdict(canonical_root: &[u8], canonical_candidate: Vec<u8>) -> (r: Result<
    String,
    JailError,
>)
    ensures
        !path_within(canonical_root@, canonical_candidate@) ==> (r matches Err(
            JailError::EscapedRoot { offending },
        ) && offending@ == canonical_candidate@),
        path_within(canonical_root@, canonical_candidate@) && valid_utf8(canonical_candidate@) ==> (
        r matches Ok(s) && s@ == decode_utf8(canonical_candidate@)),
        path_within(canonical_root@, canonical_candidate@) && !valid_utf8(canonical_candidate@) ==> (
        r matches Err(JailError::NonUtf8Path { offending }) && offending@ == canonical_candidate@),
{
    if !is_within_root(canonical_root, canonical_candidate.as_slice()) {
        return Err(JailError::EscapedRoot { offending: canonical_candidate });
    }
    let bytes = canonical_candidate.clone();
    assert(bytes@ =~= canonical_candidate@);
    match string_from_utf8(canonical_candidate) {
        Ok(s) => Ok(s),
        Err(_) => Err(JailError::NonUtf8Path { offending: bytes }),
    }
}

} // verus!
