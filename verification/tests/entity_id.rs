use std::str::FromStr;

use clarion::entity_id::{entity_id, validate_kind_grammar, EntityId, EntityIdError};

#[test]
fn module_level_function() {
    let id = entity_id("python", "function", "demo.hello").unwrap();
    assert_eq!(id.as_str(), "python:function:demo.hello");
}

#[test]
fn class_method() {
    let id = entity_id("python", "function", "demo.Foo.bar").unwrap();
    assert_eq!(id.as_str(), "python:function:demo.Foo.bar");
}

#[test]
fn nested_function_uses_python_locals_marker() {
    let id = entity_id("python", "function", "demo.outer.<locals>.inner").unwrap();
    assert_eq!(id.as_str(), "python:function:demo.outer.<locals>.inner");
}

#[test]
fn core_reserved_file_kind() {
    let id = entity_id("core", "file", "src/demo.py").unwrap();
    assert_eq!(id.as_str(), "core:file:src/demo.py");
}

#[test]
fn core_reserved_subsystem_kind() {
    let id = entity_id("core", "subsystem", "a1b2c3d4").unwrap();
    assert_eq!(id.as_str(), "core:subsystem:a1b2c3d4");
}

#[test]
fn rejects_empty_plugin_id() {
    assert_eq!(
        entity_id("", "function", "demo.hello"),
        Err(EntityIdError::EmptySegment { field: "plugin_id" }),
    );
}

#[test]
fn rejects_empty_kind() {
    assert_eq!(
        entity_id("python", "", "demo.hello"),
        Err(EntityIdError::EmptySegment { field: "kind" }),
    );
}

#[test]
fn rejects_empty_qualified_name() {
    assert_eq!(
        entity_id("python", "function", ""),
        Err(EntityIdError::EmptySegment {
            field: "canonical_qualified_name",
        }),
    );
}

#[test]
fn rejects_uppercase_plugin_id() {
    assert!(matches!(
        entity_id("Python", "function", "demo.hello"),
        Err(EntityIdError::GrammarViolation {
            field: "plugin_id",
            ..
        })
    ));
}

#[test]
fn rejects_digit_prefixed_kind() {
    assert!(matches!(
        entity_id("python", "1function", "demo.hello"),
        Err(EntityIdError::GrammarViolation { field: "kind", .. })
    ));
}

#[test]
fn rejects_hyphen_in_kind() {
    assert!(matches!(
        entity_id("python", "func-tion", "demo.hello"),
        Err(EntityIdError::GrammarViolation { field: "kind", .. })
    ));
}

#[test]
fn rejects_colon_in_qualified_name() {
    assert!(matches!(
        entity_id("python", "function", "demo:hello"),
        Err(EntityIdError::SegmentContainsColon {
            field: "canonical_qualified_name",
            ..
        })
    ));
}

#[test]
fn rejects_colon_in_plugin_id() {
    let err = entity_id("py:thon", "function", "demo.hello").unwrap_err();
    assert!(matches!(
        err,
        EntityIdError::SegmentContainsColon {
            field: "plugin_id",
            ..
        }
    ));
}

#[test]
fn parse_roundtrip_via_from_str() {
    let id = entity_id("python", "function", "demo.hello").unwrap();
    let parsed = EntityId::from_str(id.as_str()).unwrap();
    assert_eq!(parsed, id);
}

#[test]
fn from_str_rejects_fewer_than_three_segments() {
    let err = EntityId::from_str("python:function").unwrap_err();
    assert!(matches!(err, EntityIdError::MalformedId { .. }));
}

#[test]
fn from_str_rejects_empty_segments_via_underlying_validator() {
    let err = EntityId::from_str("::demo.hello").unwrap_err();
    assert!(matches!(
        err,
        EntityIdError::EmptySegment { field: "plugin_id" }
    ));
}

// ── Further cases ─────────────────────────────────────────────────────────────

#[test]
fn grammar_violation_carries_the_offending_value() {
    assert_eq!(
        entity_id("python", "Function", "x"),
        Err(EntityIdError::GrammarViolation {
            field: "kind",
            value: "Function".to_owned(),
        }),
    );
}

#[test]
fn colon_check_precedes_grammar_check_for_kind() {
    assert_eq!(
        entity_id("python", "fun:c", "x"),
        Err(EntityIdError::SegmentContainsColon {
            field: "kind",
            value: "fun:c".to_owned(),
        }),
    );
}

#[test]
fn parse_keeps_text_after_second_colon_in_third_segment() {
    assert_eq!(
        EntityId::parse("python:function:a:b"),
        Err(EntityIdError::SegmentContainsColon {
            field: "canonical_qualified_name",
            value: "a:b".to_owned(),
        }),
    );
}

#[test]
fn parse_without_colon_is_malformed() {
    assert_eq!(
        EntityId::parse("notanid"),
        Err(EntityIdError::MalformedId {
            value: "notanid".to_owned()
        }),
    );
}

#[test]
fn to_string_matches_as_str() {
    let id = entity_id("core", "file", "a/b.py").unwrap();
    assert_eq!(id.to_string(), "core:file:a/b.py");
}

#[test]
fn underscore_and_digits_allowed_after_first_letter() {
    let id = entity_id("py_3", "k9_x", "q").unwrap();
    assert_eq!(id.as_str(), "py_3:k9_x:q");
}

#[test]
fn kind_grammar_is_lowercase_identifier() {
    assert!(validate_kind_grammar("function"));
    assert!(validate_kind_grammar("a_1"));
    assert!(!validate_kind_grammar(""));
    assert!(!validate_kind_grammar("1abc"));
    assert!(!validate_kind_grammar("_x"));
    assert!(!validate_kind_grammar("Function"));
    assert!(!validate_kind_grammar("fn-name"));
}
