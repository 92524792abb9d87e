//! The decisions of `clarion analyze`.
//!
//! The command discovers plugins, walks the source tree once for the union
//! of their extensions, runs each plugin over its files, persists the
//! accepted entities through the writer, and closes the run: committed as
//! `completed` (or `skipped_no_plugins` when nothing was discovered), or
//! failed with a reason. The process work — spawning, file-system walks,
//! the writer channel — happens in the binary; the rules it follows are
//! here.

use vstd::prelude::*;

use crate::plugin::breaker::{crash_state, CrashLoopBreaker, CrashLoopState};
use crate::plugin::host::{host_error_text, AcceptedEntity, HostError};
use crate::plugin::window::live_events;
use crate::plugin::transport::transport_error_text;
use crate::storage::commands::{EntityRecord, RunStatus};
use crate::storage::writer::{failure_stats_json, failure_stats_text};
use crate::text::{decimal, i64_to_string, same_text, signed_decimal, u64_to_string, usize_to_string};

verus! {

// ── Closing a run ─────────────────────────────────────────────────────────────

/// How a run ends.
#[derive(Debug)]
pub enum RunClose {
    /// Commit the run with this status and statistics JSON.
    Commit { status: RunStatus, stats_json: String },
    /// Commit what was written, and mark the run failed for `reason`, with
    /// this statistics JSON: the entities of the plugins that ran to the
    /// end are kept.
    CommitFailed { reason: String, stats_json: String },
    /// Roll back what was written and fail the run with this reason.
    Fail { reason: String },
}

/// The run's outcome after the plugins ran.
#[derive(Debug)]
pub enum RunOutcome {
    Completed,
    /// Some plugins failed, each for the reason listed; the others ran.
    PluginsFailed { reason: String },
    /// The run could not go on (the writer refused an entity).
    Failed { reason: String },
}

/// The statistics JSON of a committed run: `{"entities_inserted":<n>}`.
pub open spec fn entities_stats_text(n: nat) -> Seq<char> {
    "{\"entities_inserted\":"@ + decimal(n) + "}"@
}

/// The statistics JSON of a committed run.
pub fn entities_stats_json(count: u64) -> (s: String)
    ensures
        s@ == entities_stats_text(count as nat),
{
    let mut s = String::from_str("{\"entities_inserted\":");
    s.append(u64_to_string(count).as_str());
    s.append("}");
    s
}

/// The statistics JSON of a completed run:
/// `{"entities_inserted":<n>,"ambiguous_edges_total":<m>}`.
pub open spec fn run_stats_text(entities: nat, ambiguous_edges: nat) -> Seq<char> {
    "{\"entities_inserted\":"@ + decimal(entities) + ",\"ambiguous_edges_total\":"@ + decimal(
        ambiguous_edges,
    ) + "}"@
}

/// The statistics JSON of a completed run.
pub fn run_stats_json(entities: u64, ambiguous_edges: u64) -> (s: String)
    ensures
        s@ == run_stats_text(entities as nat, ambiguous_edges as nat),
{
    let mut s = String::from_str("{\"entities_inserted\":");
    s.append(u64_to_string(entities).as_str());
    s.append(",\"ambiguous_edges_total\":");
    s.append(u64_to_string(ambiguous_edges).as_str());
    s.append("}");
    s
}

/// `parts` joined with `sep` between consecutive elements.
pub open spec fn joined(parts: Seq<Seq<char>>, sep: Seq<char>) -> Seq<char>
    decreases parts.len(),
{
    if parts.len() == 0 {
        Seq::empty()
    } else if parts.len() == 1 {
        parts[0]
    } else {
        joined(parts.drop_last(), sep) + sep + parts.last()
    }
}

/// The view of a list of strings.
pub open spec fn texts(v: Seq<String>) -> Seq<Seq<char>> {
    v.map_values(|s: String| s@)
}

fn join_texts(parts: &Vec<String>, sep: &str) -> (s: String)
    ensures
        s@ == joined(texts(parts@), sep@),
{
    let mut s = String::new();
    let mut i: usize = 0;
    while i < parts.len()
        invariant
            i <= parts@.len(),
            s@ == joined(texts(parts@.take(i as int)), sep@),
        decreases parts@.len() - i,
    {
        let ghost before = texts(parts@.take(i as int));
        let ghost after = texts(parts@.take(i as int + 1));
        assert(after.drop_last() =~= before);
        assert(after.last() == parts@[i as int]@);
        if i > 0 {
            s.append(sep);
        }
        s.append(parts[i].as_str());
        i = i + 1;
    }
    assert(parts@.take(parts@.len() as int) =~= parts@);
    s
}

/// The reason a run fails when every discovered plugin's manifest failed:
/// `all <n> discovered plugin manifest(s) failed to parse: <e1>; <e2>...`.
pub open spec fn discovery_failure_text(errors: Seq<Seq<char>>) -> Seq<char> {
    "all "@ + decimal(errors.len()) + " discovered plugin manifest(s) failed to parse: "@ + joined(
        errors,
        "; "@,
    )
}

/// How a run with no usable plugin ends: failed when plugins were found but
/// all of their manifests failed (a configuration error the operator must
/// see), else committed as `skipped_no_plugins` with no entities.
pub fn close_without_plugins(discovery_errors: &Vec<String>) -> (c: RunClose)
    ensures
        discovery_errors@.len() == 0 ==> (c matches RunClose::Commit { status, stats_json } && status
            == RunStatus::SkippedNoPlugins && stats_json@ == entities_stats_text(0)),
        discovery_errors@.len() > 0 ==> (c matches RunClose::Fail { reason } && reason@
            == discovery_failure_text(texts(discovery_errors@))),
{
    if discovery_errors.len() == 0 {
        return RunClose::Commit {
            status: RunStatus::SkippedNoPlugins,
            stats_json: entities_stats_json(0),
        };
    }
    let mut reason = String::from_str("all ");
    reason.append(usize_to_string(discovery_errors.len()).as_str());
    reason.append(" discovered plugin manifest(s) failed to parse: ");
    reason.append(join_texts(discovery_errors, "; ").as_str());
    RunClose::Fail { reason }
}

/// How a run ends once the plugins ran: committed as `completed` with the
/// number of entities inserted and of ambiguous edges accepted; when some
/// plugins failed, the entities of the others are committed and the run is
/// marked failed with the plugins' reasons; when the writer refused an
/// entity, the run is rolled back and failed.
pub fn close_after_plugins(outcome: RunOutcome, entities_inserted: u64, ambiguous_edges: u64) -> (c:
    RunClose)
    ensures
        outcome is Completed ==> (c matches RunClose::Commit { status, stats_json } && status
            == RunStatus::Completed && stats_json@ == run_stats_text(
            entities_inserted as nat,
            ambiguous_edges as nat,
        )),
        outcome matches RunOutcome::PluginsFailed { reason } ==> (c matches RunClose::CommitFailed {
            reason: r,
            stats_json,
        } && r == reason && stats_json@ == failure_stats_text(reason@)),
        outcome matches RunOutcome::Failed { reason } ==> (c matches RunClose::Fail { reason: r } && r
            == reason),
{
    match outcome {
        RunOutcome::Completed => RunClose::Commit {
            status: RunStatus::Completed,
            stats_json: run_stats_json(entities_inserted, ambiguous_edges),
        },
        RunOutcome::PluginsFailed { reason } => {
            let stats_json = failure_stats_json(reason.as_str());
            RunClose::CommitFailed { reason, stats_json }
        },
        RunOutcome::Failed { reason } => RunClose::Fail { reason },
    }
}

// ── Plugin failures ───────────────────────────────────────────────────────────

/// What to do after a plugin failed.
#[derive(Debug, Clone, Copy, PartialEq, Eq)]
pub enum AfterFailure {
    /// Go on with the next plugin: one plugin's crash does not stop the
    /// others.
    Continue,
    /// The crash-loop breaker tripped: skip the remaining plugins.
    StopCrashLoop,
}

/// The failures of the plugins run so far, each the fail-run reason naming
/// its plugin.
pub struct PluginFailures {
    reasons: Vec<String>,
}

/// The reason a run fails after plugins failed: their reasons, in order,
/// separated by `; `.
pub open spec fn plugin_failures_text(reasons: Seq<Seq<char>>) -> Seq<char> {
    joined(reasons, "; "@)
}

impl PluginFailures {
    /// The reasons recorded, in order.
    pub closed spec fn reasons(&self) -> Seq<Seq<char>> {
        texts(self.reasons@)
    }

    /// No failure yet.
    pub fn new() -> (f: Self)
        ensures
            f.reasons() == Seq::<Seq<char>>::empty(),
    {
        let f = PluginFailures { reasons: Vec::new() };
        assert(f.reasons() =~= Seq::<Seq<char>>::empty());
        f
    }

    /// A plugin failed (it crashed, or its spawn, handshake or transport
    /// failed) for `reason`: the reason is recorded and the crash counted on
    /// the crash-loop breaker. The run goes on with the next plugin unless
    /// the breaker tripped.
    pub fn plugin_failed(&mut self, breaker: &mut CrashLoopBreaker, reason: String) -> (a:
        AfterFailure)
        ensures
            final(self).reasons() == old(self).reasons().push(reason@),
            final(breaker).window_nanos() == old(breaker).window_nanos(),
            final(breaker).threshold() == old(breaker).threshold(),
            exists|at: u64|
                final(breaker).crashes() == live_events(
                    old(breaker).crashes().push(at),
                    at,
                    old(breaker).window_nanos(),
                ),
            a == (if crash_state(final(breaker).crashes().len(), old(breaker).threshold())
                == CrashLoopState::Tripped {
                AfterFailure::StopCrashLoop
            } else {
                AfterFailure::Continue
            }),
    {
        let ghost before = self.reasons@;
        let ghost text = reason@;
        self.reasons.push(reason);
        assert(texts(self.reasons@) =~= texts(before).push(text));
        match breaker.record_crash() {
            CrashLoopState::Tripped => AfterFailure::StopCrashLoop,
            _ => AfterFailure::Continue,
        }
    }

    /// The run's outcome once the plugins ran: completed when none failed,
    /// else failed with every plugin's reason (the other plugins' work is
    /// kept).
    pub fn outcome(&self) -> (o: RunOutcome)
        ensures
            self.reasons().len() == 0 ==> o is Completed,
            self.reasons().len() > 0 ==> (o matches RunOutcome::PluginsFailed { reason } && reason@
                == plugin_failures_text(self.reasons())),
    {
        if self.reasons.len() == 0 {
            RunOutcome::Completed
        } else {
            RunOutcome::PluginsFailed { reason: join_texts(&self.reasons, "; ") }
        }
    }
}

// ── A plugin's session ────────────────────────────────────────────────────────

/// What a plugin's session does next.
#[derive(Debug, Clone, Copy, PartialEq, Eq, Structural)]
pub enum SessionStep {
    /// Analyse the file at this index of the plugin's files.
    Analyze(usize),
    /// Every file was analysed: send the plugin the shutdown exchange.
    Shutdown,
    /// A file's analysis failed, or the shutdown did: kill the child.
    Kill,
    /// Wait on the child and classify its exit; the session is over.
    Reap,
}

/// A plugin's session over its files: the files are analysed in order
/// until one fails; the plugin is then shut down when every file was
/// analysed and killed otherwise; a failed shutdown also kills it; the
/// child is reaped last.
pub struct PluginSession {
    files: usize,
    step: SessionStep,
}

/// The step that follows the file at `index` of `files` whose analysis
/// succeeded or not.
pub open spec fn after_file(files: nat, index: nat, ok: bool) -> SessionStep {
    if !ok {
        SessionStep::Kill
    } else if index + 1 < files {
        SessionStep::Analyze((index + 1) as usize)
    } else {
        SessionStep::Shutdown
    }
}

impl PluginSession {
    /// The number of files the session covers.
    pub closed spec fn file_count(&self) -> nat {
        self.files as nat
    }

    /// The step the session is at.
    pub closed spec fn at(&self) -> SessionStep {
        self.step
    }

    /// A session over `files` files: the first file's analysis, or the
    /// shutdown when there is none.
    pub fn new(files: usize) -> (s: Self)
        ensures
            s.file_count() == files,
            s.at() == if files > 0 {
                SessionStep::Analyze(0)
            } else {
                SessionStep::Shutdown
            },
    {
        let step = if files > 0 {
            SessionStep::Analyze(0)
        } else {
            SessionStep::Shutdown
        };
        PluginSession { files, step }
    }

    /// The step the session is at.
    pub fn next_step(&self) -> (s: SessionStep)
        ensures
            s == self.at(),
    {
        self.step
    }

    /// The file being analysed is done, successfully or not: the next file,
    /// the shutdown after the last one, or the kill after a failure.
    pub fn file_done(&mut self, ok: bool)
        requires
            old(self).at() is Analyze,
            old(self).at()->Analyze_0 < old(self).file_count(),
        ensures
            final(self).file_count() == old(self).file_count(),
            final(self).at() == after_file(
                old(self).file_count(),
                old(self).at()->Analyze_0 as nat,
                ok,
            ),
            final(self).at() matches SessionStep::Analyze(i) ==> i < final(self).file_count(),
    {
        if let SessionStep::Analyze(i) = self.step {
            self.step = if !ok {
                SessionStep::Kill
            } else if i + 1 < self.files {
                SessionStep::Analyze(i + 1)
            } else {
                SessionStep::Shutdown
            };
        }
    }

    /// The shutdown exchange ended: reap the child when it succeeded, else
    /// kill it first.
    pub fn shutdown_done(&mut self, ok: bool)
        requires
            old(self).at() is Shutdown,
        ensures
            final(self).file_count() == old(self).file_count(),
            final(self).at() == if ok {
                SessionStep::Reap
            } else {
                SessionStep::Kill
            },
    {
        self.step = if ok {
            SessionStep::Reap
        } else {
            SessionStep::Kill
        };
    }

    /// The child was killed: reap it.
    pub fn killed(&mut self)
        requires
            old(self).at() is Kill,
        ensures
            final(self).file_count() == old(self).file_count(),
            final(self).at() == SessionStep::Reap,
    {
        self.step = SessionStep::Reap;
    }
}

// ── Extensions ────────────────────────────────────────────────────────────────

/// `c` with ASCII upper case mapped to lower case.
pub open spec fn ascii_lower_char(c: char) -> char {
    if 'A' <= c && c <= 'Z' {
        ((c as u32) + 32) as char
    } else {
        c
    }
}

/// `s` with ASCII upper case mapped to lower case.
pub open spec fn ascii_lower_text(s: Seq<char>) -> Seq<char> {
    s.map_values(|c: char| ascii_lower_char(c))
}

/// Wraps `str::to_ascii_lowercase`: a copy of `s` with ASCII `A`–`Z` mapped
/// to `a`–`z` and every other character unchanged.
#[verifier::external_body]
fn to_ascii_lowercase(s: &str) -> (t: String)
    ensures
        t@ == ascii_lower_text(s@),
{
    s.to_ascii_lowercase()
}

/// The lower-cased form of each extension a plugin declares.
pub fn lowercase_extensions(extensions: &Vec<String>) -> (v: Vec<String>)
    ensures
        v@.len() == extensions@.len(),
        forall|j: int| 0 <= j < v@.len() ==> #[trigger] v@[j]@ == ascii_lower_text(extensions@[j]@),
{
    let mut v: Vec<String> = Vec::new();
    let mut i: usize = 0;
    while i < extensions.len()
        invariant
            i <= extensions@.len(),
            v@.len() == i,
            forall|j: int| 0 <= j < i ==> #[trigger] v@[j]@ == ascii_lower_text(extensions@[j]@),
        decreases extensions@.len() - i,
    {
        v.push(to_ascii_lowercase(extensions[i].as_str()));
        i = i + 1;
    }
    v
}

/// A file belongs to a plugin when it has an extension whose ASCII
/// lower-case form is among the plugin's (lower-cased) extensions.
pub fn extension_wanted(extension: Option<&str>, wanted: &Vec<String>) -> (b: bool)
    ensures
        b == (extension matches Some(e) && texts(wanted@).contains(ascii_lower_text(e@))),
{
    match extension {
        None => false,
        Some(e) => {
            let lower = to_ascii_lowercase(e);
            let mut i: usize = 0;
            while i < wanted.len()
                invariant
                    i <= wanted@.len(),
                    lower@ == ascii_lower_text(e@),
                    extension == Some(e),
                    forall|j: int| 0 <= j < i ==> texts(wanted@)[j] != lower@,
                decreases wanted@.len() - i,
            {
                if wanted[i] == lower {
                    assert(texts(wanted@)[i as int] == lower@);
                    assert(texts(wanted@).contains(lower@));
                    return true;
                }
                i = i + 1;
            }
            false
        },
    }
}

/// Directory names the source walk does not enter: version-control
/// directories, Clarion's own state, and common virtual-environment and
/// dependency directories.
pub open spec fn is_skipped_dir_name(name: Seq<char>) -> bool {
    name == ".clarion"@ || name == ".git"@ || name == ".hg"@ || name == ".svn"@ || name == ".jj"@
        || name == ".venv"@ || name == "__pycache__"@ || name == "node_modules"@
}

/// Law: the source walk skips a directory exactly when its name is one of
/// `.clarion`, `.git`, `.hg`, `.svn`, `.jj`, `.venv`, `__pycache__` and
/// `node_modules`; it enters every other directory, `tests` and `src`
/// among them.
pub proof fn law_walk_skips_exactly_the_listed_directories(name: Seq<char>)
    ensures
        is_skipped_dir_name(name) <==> {
            ||| name == ".clarion"@
            ||| name == ".git"@
            ||| name == ".hg"@
            ||| name == ".svn"@
            ||| name == ".jj"@
            ||| name == ".venv"@
            ||| name == "__pycache__"@
            ||| name == "node_modules"@
        },
        !is_skipped_dir_name("tests"@),
        !is_skipped_dir_name("src"@),
{
    reveal_strlit("tests");
    reveal_strlit("src");
    reveal_strlit(".clarion");
    reveal_strlit(".git");
    reveal_strlit(".hg");
    reveal_strlit(".svn");
    reveal_strlit(".jj");
    reveal_strlit(".venv");
    reveal_strlit("__pycache__");
    reveal_strlit("node_modules");
    assert("tests"@[0] != ".clarion"@[0]);
    assert("tests"@[0] != "__pycache__"@[0]);
    assert("tests"@.len() != "node_modules"@.len());
    assert("src"@[0] != ".clarion"@[0]);
    assert("src"@[0] != "__pycache__"@[0]);
    assert("src"@.len() != "node_modules"@.len());
}

/// The source walk does not enter a directory with this name.
pub fn is_skipped_dir(name: &str) -> (b: bool)
    ensures
        b == is_skipped_dir_name(name@),
{
    same_text(name, ".clarion") || same_text(name, ".git") || same_text(name, ".hg") || same_text(
        name,
        ".svn",
    ) || same_text(name, ".jj") || same_text(name, ".venv") || same_text(name, "__pycache__")
        || same_text(name, "node_modules")
}

// ── Entity records ────────────────────────────────────────────────────────────

/// The last `.`-separated segment of a qualified name (the whole name when
/// it has no `.`).
pub open spec fn short_name_of(q: Seq<char>) -> Seq<char>
    decreases q.len(),
{
    if q.len() == 0 {
        q
    } else if q.last() == '.' {
        Seq::empty()
    } else {
        short_name_of(q.drop_last()).push(q.last())
    }
}

/// The last `.`-separated segment of a qualified name.
pub fn short_name(qualified_name: &str) -> (s: String)
    ensures
        s@ == short_name_of(qualified_name@),
{
    let chars = crate::text::chars_of(qualified_name);
    let mut start = chars.len();
    assert(chars@.take(start as int) =~= chars@);
    assert(short_name_of(chars@) + chars@.subrange(start as int, start as int) =~= short_name_of(
        chars@,
    ));
    while start > 0 && chars[start - 1] != '.'
        invariant
            start <= chars@.len(),
            chars@ == qualified_name@,
            short_name_of(chars@) == short_name_of(chars@.take(start as int)) + chars@.subrange(
                start as int,
                chars@.len() as int,
            ),
        decreases start,
    {
        let ghost pre = chars@.take(start as int);
        assert(pre.drop_last() =~= chars@.take(start as int - 1));
        assert(chars@.subrange(start as int - 1, chars@.len() as int) =~= seq![chars@[start - 1]]
            + chars@.subrange(start as int, chars@.len() as int));
        start = start - 1;
    }
    assert(short_name_of(chars@.take(start as int)) =~= Seq::<char>::empty()) by {
        if start > 0 {
            assert(chars@.take(start as int).last() == '.');
        }
    }
    let tail = qualified_name.substring_char(start, chars.len());
    assert(Seq::<char>::empty() + chars@.subrange(start as int, chars@.len() as int) =~= chars@.subrange(
        start as int,
        chars@.len() as int,
    ));
    String::from_str(tail)
}

/// The writer record for an accepted entity: its ID, plugin, kind,
/// qualified name as both name and (last segment) short name, its `extra`
/// map's JSON as properties, and `now` as creation and update time; every
/// other column empty.
pub fn entity_record(entity: &AcceptedEntity, plugin_id: &str, now: String) -> (r: EntityRecord)
    ensures
        r.id@ == entity.id@,
        r.plugin_id@ == plugin_id@,
        r.kind@ == entity.kind@,
        r.name@ == entity.qualified_name@,
        r.short_name@ == short_name_of(entity.qualified_name@),
        r.parent_id is None,
        r.source_file_id is None,
        r.source_byte_start is None,
        r.source_byte_end is None,
        r.source_line_start is None,
        r.source_line_end is None,
        r.properties_json@ == entity.raw.extra_json@,
        r.content_hash is None,
        r.summary_json is None,
        r.wardline_json is None,
        r.first_seen_commit is None,
        r.last_seen_commit is None,
        r.created_at@ == now@,
        r.updated_at@ == now@,
{
    let created_at = now.clone();
    EntityRecord {
        id: entity.id.to_string(),
        plugin_id: String::from_str(plugin_id),
        kind: entity.kind.clone(),
        name: entity.qualified_name.clone(),
        short_name: short_name(entity.qualified_name.as_str()),
        parent_id: None,
        source_file_id: None,
        source_byte_start: None,
        source_byte_end: None,
        source_line_start: None,
        source_line_end: None,
        properties_json: entity.raw.extra_json.clone(),
        content_hash: None,
        summary_json: None,
        wardline_json: None,
        first_seen_commit: None,
        last_seen_commit: None,
        created_at,
        updated_at: now,
    }
}

// ── Failure reasons ───────────────────────────────────────────────────────────

/// The fail-run reason for an error from `analyze_file`. `io` stands for
/// the text of an I/O error, which comes from the operating system and is
/// not modelled.
pub open spec fn host_failure_text(plugin_id: Seq<char>, e: HostError, io: Seq<char>) -> Seq<char> {
    match e {
        HostError::EntityCapExceeded(_) => "plugin "@ + plugin_id + " exceeded entity-count cap"@,
        HostError::PathEscapeBreakerTripped => "plugin "@ + plugin_id
            + " tripped path-escape breaker"@,
        HostError::Spawn(m) => "failed to spawn plugin "@ + plugin_id + ": "@ + m@,
        HostError::Handshake(m) => "plugin "@ + plugin_id + " refused handshake: "@ + m@,
        HostError::Transport(te) => "plugin "@ + plugin_id + " transport/protocol error: "@
            + transport_error_text(te, io),
        HostError::Protocol(pe) => "plugin "@ + plugin_id + " transport/protocol error: code="@
            + signed_decimal(pe.code as int) + ", message="@ + pe.message@,
        other => "plugin "@ + plugin_id + " error: "@ + host_error_text(other, io),
    }
}

/// The fail-run reason for an error from `analyze_file`.
pub fn classify_host_error(plugin_id: &str, e: &HostError) -> (s: String)
    ensures
        exists|io: Seq<char>| s@ == #[trigger] host_failure_text(plugin_id@, *e, io),
{
    let mut s = String::new();
    match e {
        HostError::EntityCapExceeded(_) => {
            s.append("plugin ");
            s.append(plugin_id);
            s.append(" exceeded entity-count cap");
            assert(s@ == host_failure_text(plugin_id@, *e, Seq::empty()));
        },
        HostError::PathEscapeBreakerTripped => {
            s.append("plugin ");
            s.append(plugin_id);
            s.append(" tripped path-escape breaker");
            assert(s@ == host_failure_text(plugin_id@, *e, Seq::empty()));
        },
        HostError::Spawn(m) => {
            s.append("failed to spawn plugin ");
            s.append(plugin_id);
            s.append(": ");
            s.append(m.as_str());
            assert(s@ == host_failure_text(plugin_id@, *e, Seq::empty()));
        },
        HostError::Handshake(m) => {
            s.append("plugin ");
            s.append(plugin_id);
            s.append(" refused handshake: ");
            s.append(m.as_str());
            assert(s@ == host_failure_text(plugin_id@, *e, Seq::empty()));
        },
        HostError::Transport(te) => {
            s.append("plugin ");
            s.append(plugin_id);
            s.append(" transport/protocol error: ");
            let t = te.message();
            s.append(t.as_str());
            let ghost io = choose|io: Seq<char>| t@ == #[trigger] transport_error_text(*te, io);
            assert(s@ == host_failure_text(plugin_id@, *e, io));
        },
        HostError::Protocol(pe) => {
            s.append("plugin ");
            s.append(plugin_id);
            s.append(" transport/protocol error: code=");
            s.append(i64_to_string(pe.code).as_str());
            s.append(", message=");
            s.append(pe.message.as_str());
            assert(s@ == host_failure_text(plugin_id@, *e, Seq::empty()));
        },
        other => {
            s.append("plugin ");
            s.append(plugin_id);
            s.append(" error: ");
            let t = other.message();
            s.append(t.as_str());
            let ghost io = choose|io: Seq<char>| t@ == #[trigger] host_error_text(*other, io);
            assert(s@ == host_failure_text(plugin_id@, *e, io));
        },
    }
    s
}

/// The fail-run reason when spawning a plugin or its handshake fails. `io`
/// stands for the text of an I/O error, which comes from the operating
/// system and is not modelled.
pub open spec fn spawn_failure_text(plugin_id: Seq<char>, e: HostError, io: Seq<char>) -> Seq<char> {
    match e {
        HostError::Spawn(m) => "failed to spawn plugin "@ + plugin_id + ": "@ + m@,
        HostError::Handshake(m) => "plugin "@ + plugin_id + " refused handshake: "@ + m@,
        other => "plugin "@ + plugin_id + " spawn/handshake error: "@ + host_error_text(other, io),
    }
}

/// The fail-run reason when spawning a plugin or its handshake fails.
pub fn spawn_failure_reason(plugin_id: &str, e: &HostError) -> (s: String)
    ensures
        exists|io: Seq<char>| s@ == #[trigger] spawn_failure_text(plugin_id@, *e, io),
{
    let mut s = String::new();
    match e {
        HostError::Spawn(m) => {
            s.append("failed to spawn plugin ");
            s.append(plugin_id);
            s.append(": ");
            s.append(m.as_str());
            assert(s@ == spawn_failure_text(plugin_id@, *e, Seq::empty()));
        },
        HostError::Handshake(m) => {
            s.append("plugin ");
            s.append(plugin_id);
            s.append(" refused handshake: ");
            s.append(m.as_str());
            assert(s@ == spawn_failure_text(plugin_id@, *e, Seq::empty()));
        },
        other => {
            s.append("plugin ");
            s.append(plugin_id);
            s.append(" spawn/handshake error: ");
            let t = other.message();
            s.append(t.as_str());
            let ghost io = choose|io: Seq<char>| t@ == #[trigger] host_error_text(*other, io);
            assert(s@ == spawn_failure_text(plugin_id@, *e, io));
        },
    }
    s
}

/// A plugin killed by SIGKILL (9) or SIGSEGV (11) most likely hit its
/// address-space limit.
pub fn is_oom_signal(signal: i32) -> (b: bool)
    ensures
        b == (signal == 9 || signal == 11),
{
    signal == 9 || signal == 11
}

} // verus!
