//! Entity-ID assembler.
//!
//! Every Clarion entity has a stable 3-segment ID:
//! `{plugin_id}:{kind}:{canonical_qualified_name}`.
//!
//! - `plugin_id` and `kind` must match the grammar `[a-z][a-z0-9_]*`.
//! - `canonical_qualified_name` is opaque to this assembler: its internal
//!   shape is the emitting plugin's concern.
//! - No segment may contain a literal `:` — the separator is reserved.

use vstd::prelude::*;
use vstd::string::*;

use crate::text::{chars_of, debug_quoted, debug_str};

verus! {

// ── Grammar ───────────────────────────────────────────────────────────────────

/// `c` is an ASCII lowercase letter.
pub open spec fn is_lower(c: char) -> bool {
    'a' <= c && c <= 'z'
}

/// `c` may follow the first character of an identifier: `[a-z0-9_]`.
pub open spec fn is_ident_tail(c: char) -> bool {
    is_lower(c) || ('0' <= c && c <= '9') || c == '_'
}

/// `s` matches the identifier grammar `[a-z][a-z0-9_]*`.
pub open spec fn matches_grammar(s: Seq<char>) -> bool {
    &&& s.len() > 0
    &&& is_lower(s[0])
    &&& forall|i: int| 1 <= i < s.len() ==> is_ident_tail(#[trigger] s[i])
}

/// Abstract form of an [`EntityIdError`]: the field name and offending value
/// as character sequences.
pub enum IdErrorModel {
    EmptySegment(Seq<char>),
    GrammarViolation(Seq<char>, Seq<char>),
    SegmentContainsColon(Seq<char>, Seq<char>),
    MalformedId(Seq<char>),
}

/// The error, if any, for segment `value` named `field` under the identifier
/// grammar. Checks run in order: emptiness, the reserved `:`, the grammar.
pub open spec fn grammar_error(field: Seq<char>, value: Seq<char>) -> Option<IdErrorModel> {
    if value.len() == 0 {
        Some(IdErrorModel::EmptySegment(field))
    } else if value.contains(':') {
        Some(IdErrorModel::SegmentContainsColon(field, value))
    } else if !matches_grammar(value) {
        Some(IdErrorModel::GrammarViolation(field, value))
    } else {
        None
    }
}

/// The error, if any, for the opaque qualified-name segment: it must be
/// non-empty and free of `:`.
pub open spec fn name_error(value: Seq<char>) -> Option<IdErrorModel> {
    if value.len() == 0 {
        Some(IdErrorModel::EmptySegment("canonical_qualified_name"@))
    } else if value.contains(':') {
        Some(IdErrorModel::SegmentContainsColon("canonical_qualified_name"@, value))
    } else {
        None
    }
}

/// The outcome of assembling an ID from three segments: the first failing
/// check (plugin id, then kind, then qualified name), or the joined ID.
pub open spec fn assemble(plugin_id: Seq<char>, kind: Seq<char>, name: Seq<char>) -> Result<
    Seq<char>,
    IdErrorModel,
> {
    if let Some(e) = grammar_error("plugin_id"@, plugin_id) {
        Err(e)
    } else if let Some(e) = grammar_error("kind"@, kind) {
        Err(e)
    } else if let Some(e) = name_error(name) {
        Err(e)
    } else {
        Ok(plugin_id + seq![':'] + kind + seq![':'] + name)
    }
}

/// Index of the first `:` in `s` at or after `from`, if any.
pub open spec fn colon_from(s: Seq<char>, from: int) -> Option<int>
    decreases s.len() - from,
{
    if from < 0 || from >= s.len() {
        None
    } else if s[from] == ':' {
        Some(from)
    } else {
        colon_from(s, from + 1)
    }
}

/// The outcome of parsing `s` as a 3-segment ID: split at the first two
/// colons (everything after the second colon is the third segment), then
/// assemble.
pub open spec fn parse_id(s: Seq<char>) -> Result<Seq<char>, IdErrorModel> {
    match colon_from(s, 0) {
        None => Err(IdErrorModel::MalformedId(s)),
        Some(i) => match colon_from(s, i + 1) {
            None => Err(IdErrorModel::MalformedId(s)),
            Some(j) => assemble(s.subrange(0, i), s.subrange(i + 1, j), s.subrange(j + 1, s.len() as int)),
        },
    }
}

// ── Types ─────────────────────────────────────────────────────────────────────

/// A validated 3-segment entity ID.
#[derive(Debug, Clone, PartialEq, Eq, Hash)]
pub struct EntityId(String);

impl View for EntityId {
    type V = Seq<char>;

    closed spec fn view(&self) -> Seq<char> {
        self.0@
    }
}

impl EntityId {
    /// Returns the entity ID as a string slice in its canonical 3-segment form.
    pub fn as_str(&self) -> (s: &str)
        ensures
            s@ == self@,
    {
        self.0.as_str()
    }

    /// The entity ID as an owned string.
    pub fn to_string(&self) -> (s: String)
        ensures
            s@ == self@,
    {
        self.0.clone()
    }

    /// Parse a 3-segment ID, validating every segment through [`entity_id`].
    /// Text after the second `:` forms the third segment (and is then
    /// rejected by the assembler, since it contains `:`).
    pub fn parse(s: &str) -> (r: Result<EntityId, EntityIdError>)
        ensures
            id_result_model(r) == parse_id(s@),
    {
        let chars = chars_of(s);
        let n = chars.len();
        let first = find_colon(&chars, 0);
        match first {
            None => {
                assert(colon_from(s@, 0) is None);
                let e = EntityIdError::MalformedId { value: String::from_str(s) };
                Err(e)
            },
            Some(i) => {
                let second = find_colon(&chars, i + 1);
                match second {
                    None => Err(EntityIdError::MalformedId { value: String::from_str(s) }),
                    Some(j) => {
                        let plugin_id = s.substring_char(0, i);
                        let kind = s.substring_char(i + 1, j);
                        let name = s.substring_char(j + 1, n);
                        entity_id(plugin_id, kind, name)
                    },
                }
            },
        }
    }
}

impl std::str::FromStr for EntityId {
    type Err = EntityIdError;

    fn from_str(s: &str) -> (r: Result<Self, Self::Err>)
        ensures
            id_result_model(r) == parse_id(s@),
    {
        EntityId::parse(s)
    }
}

/// Why an entity ID could not be assembled or parsed.
#[derive(Debug, PartialEq, Eq)]
pub enum EntityIdError {
    /// A segment is empty.
    EmptySegment { field: &'static str },
    /// `plugin_id` or `kind` violates `[a-z][a-z0-9_]*`.
    GrammarViolation { field: &'static str, value: String },
    /// A segment contains the reserved `:` separator.
    SegmentContainsColon { field: &'static str, value: String },
    /// The text does not have three colon-separated segments.
    MalformedId { value: String },
}

impl EntityIdError {
    /// The abstract form of this error.
    pub open spec fn model(&self) -> IdErrorModel {
        match self {
            EntityIdError::EmptySegment { field } => IdErrorModel::EmptySegment(field@),
            EntityIdError::GrammarViolation { field, value } => IdErrorModel::GrammarViolation(
                field@,
                value@,
            ),
            EntityIdError::SegmentContainsColon { field, value } => IdErrorModel::SegmentContainsColon(
                field@,
                value@,
            ),
            EntityIdError::MalformedId { value } => IdErrorModel::MalformedId(value@),
        }
    }
}

/// The human-readable text of an error.
pub open spec fn id_error_text(e: IdErrorModel) -> Seq<char> {
    match e {
        IdErrorModel::EmptySegment(field) => "segment "@ + field + " empty"@,
        IdErrorModel::GrammarViolation(field, value) => "segment "@ + field
            + " violates ADR-022 grammar [a-z][a-z0-9_]*: "@ + debug_quoted(value),
        IdErrorModel::SegmentContainsColon(field, value) => "segment "@ + field
            + " contains reserved ':' separator: "@ + debug_quoted(value),
        IdErrorModel::MalformedId(value) => "EntityId must have exactly 3 colon-separated segments, got: "@
            + debug_quoted(value),
    }
}

impl EntityIdError {
    /// Human-readable description of the error.
    pub fn message(&self) -> (s: String)
        ensures
            s@ == id_error_text(self.model()),
    {
        match self {
            EntityIdError::EmptySegment { field } => {
                let mut s = String::from_str("segment ");
                s.append(field);
                s.append(" empty");
                s
            },
            EntityIdError::GrammarViolation { field, value } => {
                let mut s = String::from_str("segment ");
                s.append(field);
                s.append(" violates ADR-022 grammar [a-z][a-z0-9_]*: ");
                s.append(debug_str(value.as_str()).as_str());
                s
            },
            EntityIdError::SegmentContainsColon { field, value } => {
                let mut s = String::from_str("segment ");
                s.append(field);
                s.append(" contains reserved ':' separator: ");
                s.append(debug_str(value.as_str()).as_str());
                s
            },
            EntityIdError::MalformedId { value } => {
                let mut s = String::from_str(
                    "EntityId must have exactly 3 colon-separated segments, got: ",
                );
                s.append(debug_str(value.as_str()).as_str());
                s
            },
        }
    }
}

/// The abstract form of an assembly or parse result.
pub open spec fn id_result_model(r: Result<EntityId, EntityIdError>) -> Result<Seq<char>, IdErrorModel> {
    match r {
        Ok(id) => Ok(id@),
        Err(e) => Err(e.model()),
    }
}

// ── Helpers ───────────────────────────────────────────────────────────────────

/// Index of the first `:` in `chars` at or after `from`.
fn find_colon(chars: &Vec<char>, from: usize) -> (r: Option<usize>)
    requires
        from <= chars@.len(),
    ensures
        r is None <==> colon_from(chars@, from as int) is None,
        r matches Some(i) ==> colon_from(chars@, from as int) == Some(i as int) && from <= i < chars@.len(),
    decreases chars@.len() - from,
{
    if from >= chars.len() {
        None
    } else if chars[from] == ':' {
        Some(from)
    } else {
        find_colon(chars, from + 1)
    }
}

/// `chars` contains no `:`.
fn no_colon(chars: &Vec<char>) -> (b: bool)
    ensures
        b == !chars@.contains(':'),
{
    let mut i: usize = 0;
    while i < chars.len()
        invariant
            0 <= i <= chars@.len(),
            forall|j: int| 0 <= j < i ==> chars@[j] != ':',
        decreases chars@.len() - i,
    {
        if chars[i] == ':' {
            assert(chars@[i as int] == ':');
            return false;
        }
        i = i + 1;
    }
    true
}

/// Validate that a string matches the identifier grammar `[a-z][a-z0-9_]*`.
pub fn validate_kind_grammar(value: &str) -> (b: bool)
    ensures
        b == matches_grammar(value@),
{
    let chars = chars_of(value);
    grammar_holds(&chars)
}

fn grammar_holds(chars: &Vec<char>) -> (b: bool)
    ensures
        b == matches_grammar(chars@),
{
    if chars.len() == 0 {
        return false;
    }
    let first = chars[0];
    if !('a' <= first && first <= 'z') {
        return false;
    }
    let mut i: usize = 1;
    while i < chars.len()
        invariant
            1 <= i <= chars@.len(),
            forall|j: int| 1 <= j < i ==> is_ident_tail(#[trigger] chars@[j]),
        decreases chars@.len() - i,
    {
        let c = chars[i];
        if !(('a' <= c && c <= 'z') || ('0' <= c && c <= '9') || c == '_') {
            assert(!is_ident_tail(chars@[i as int]));
            return false;
        }
        i = i + 1;
    }
    true
}

/// Check one grammar-bound segment (`plugin_id` or `kind`).
fn validate_grammar(field: &'static str, value: &str) -> (r: Result<(), EntityIdError>)
    ensures
        match grammar_error(field@, value@) {
            None => r is Ok,
            Some(e) => r matches Err(err) && err.model() == e,
        },
{
    let chars = chars_of(value);
    if chars.len() == 0 {
        return Err(EntityIdError::EmptySegment { field });
    }
    validate_no_colon(field, value, &chars)?;
    if !grammar_holds(&chars) {
        return Err(EntityIdError::GrammarViolation { field, value: String::from_str(value) });
    }
    Ok(())
}

/// Reject a segment that contains `:`.
fn validate_no_colon(field: &'static str, value: &str, chars: &Vec<char>) -> (r: Result<
    (),
    EntityIdError,
>)
    requires
        chars@ == value@,
    ensures
        r is Ok <==> !value@.contains(':'),
        r matches Err(err) ==> err.model() == IdErrorModel::SegmentContainsColon(field@, value@),
{
    if !no_colon(chars) {
        return Err(EntityIdError::SegmentContainsColon { field, value: String::from_str(value) });
    }
    Ok(())
}

/// Assemble an [`EntityId`] from its three segments.
///
/// `plugin_id` and `kind` are validated against `[a-z][a-z0-9_]*`;
/// `canonical_qualified_name` is opaque but must be non-empty and may not
/// contain `:`. The first failing check determines the error.
pub fn entity_id(plugin_id: &str, kind: &str, canonical_qualified_name: &str) -> (r: Result<
    EntityId,
    EntityIdError,
>)
    ensures
        id_result_model(r) == assemble(plugin_id@, kind@, canonical_qualified_name@),
{
    proof {
        reveal_strlit("plugin_id");
        reveal_strlit("kind");
        reveal_strlit("canonical_qualified_name");
        reveal_strlit(":");
    }
    validate_grammar("plugin_id", plugin_id)?;
    validate_grammar("kind", kind)?;
    let name_chars = chars_of(canonical_qualified_name);
    if name_chars.len() == 0 {
        return Err(EntityIdError::EmptySegment { field: "canonical_qualified_name" });
    }
    validate_no_colon("canonical_qualified_name", canonical_qualified_name, &name_chars)?;
    let mut id = String::from_str(plugin_id);
    id.append(":");
    id.append(kind);
    id.append(":");
    id.append(canonical_qualified_name);
    assert(":"@ =~= seq![':']);
    Ok(EntityId(id))
}

// ── Laws ──────────────────────────────────────────────────────────────────────

/// Law: an ID assembled from three segments parses back to the same ID.
pub proof fn law_assemble_then_parse(plugin_id: Seq<char>, kind: Seq<char>, name: Seq<char>)
    requires
        assemble(plugin_id, kind, name) is Ok,
    ensures
        parse_id(assemble(plugin_id, kind, name)->Ok_0) == assemble(plugin_id, kind, name),
{
    let s = plugin_id + seq![':'] + kind + seq![':'] + name;
    assert(s == assemble(plugin_id, kind, name)->Ok_0);
    let i = plugin_id.len() as int;
    let j = i + 1 + kind.len();
    lemma_colon_from_skips(s, 0, i);
    lemma_colon_from_skips(s, i + 1, j);
    assert(s.subrange(0, i) =~= plugin_id);
    assert(s.subrange(i + 1, j) =~= kind);
    assert(s.subrange(j + 1, s.len() as int) =~= name);
}

/// Scanning from `from` finds the colon at `at` when no colon precedes it.
proof fn lemma_colon_from_skips(s: Seq<char>, from: int, at: int)
    requires
        0 <= from <= at < s.len(),
        s[at] == ':',
        forall|k: int| from <= k < at ==> s[k] != ':',
    ensures
        colon_from(s, from) == Some(at),
    decreases at - from,
{
    if from < at {
        lemma_colon_from_skips(s, from + 1, at);
    }
}

/// Law: every successfully assembled ID has exactly three segments whose
/// first two match the identifier grammar and none of which holds `:`.
pub proof fn law_assembled_id_shape(plugin_id: Seq<char>, kind: Seq<char>, name: Seq<char>)
    requires
        assemble(plugin_id, kind, name) is Ok,
    ensures
        matches_grammar(plugin_id),
        matches_grammar(kind),
        name.len() > 0,
        !plugin_id.contains(':'),
        !kind.contains(':'),
        !name.contains(':'),
{
}

} // verus!
