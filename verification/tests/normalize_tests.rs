use gemini_structured_output::json::{json_eq, JsonMember, JsonValue};
use gemini_structured_output::normalize::{normalize_candidate, prune_nulls};
use gemini_structured_output::parse::parse_json;
use gemini_structured_output::validate::{schema_check, validation_errors};

fn obj(members: Vec<(&str, JsonValue)>) -> JsonValue {
    JsonValue::Obj(
        members
            .into_iter()
            .map(|(k, v)| JsonMember {
                key: k.to_string(),
                value: v,
            })
            .collect(),
    )
}

#[test]
fn test_prune_null_fields_basic() {
    let candidate = parse_json(r#"{"keep": 1, "drop": null, "nested": {"x": null, "y": 2}}"#)
        .unwrap();
    let pruned = prune_nulls(candidate);
    let expected = parse_json(r#"{"keep": 1, "nested": {"y": 2}}"#).unwrap();
    assert!(json_eq(&pruned, &expected));
}

#[test]
fn test_prune_null_array_elements() {
    let candidate = parse_json(r#"[1, null, 2, null]"#).unwrap();
    let pruned = prune_nulls(candidate);
    let expected = parse_json(r#"[1, 2]"#).unwrap();
    assert!(json_eq(&pruned, &expected));
}

#[test]
fn coerce_enum_string_values() {
    // "Operating Activities" narrows to the allowed value "Operating".
    let schema = parse_json(r#"{"enum": ["Operating", "Investing", "Financing"]}"#).unwrap();
    let candidate = JsonValue::Text("Operating Activities".to_string());
    let fixed = normalize_candidate(candidate, &schema);
    assert!(json_eq(&fixed, &JsonValue::Text("Operating".to_string())));

    // Case-insensitive exact match.
    let candidate = JsonValue::Text("investing".to_string());
    let fixed = normalize_candidate(candidate, &schema);
    assert!(json_eq(&fixed, &JsonValue::Text("Investing".to_string())));

    // An exact value stays as it is.
    let candidate = JsonValue::Text("Financing".to_string());
    let fixed = normalize_candidate(candidate, &schema);
    assert!(json_eq(&fixed, &JsonValue::Text("Financing".to_string())));
}

#[test]
fn recover_internally_tagged_enum_from_string() {
    let schema = parse_json(
        r#"{"anyOf": [
            {"properties": {"type": {"const": "mstl"}, "seasonal": {"type": "integer"}}},
            {"properties": {"type": {"const": "ets"}}}
        ]}"#,
    )
    .unwrap();
    let candidate = JsonValue::Text("Mstl".to_string());
    let fixed = normalize_candidate(candidate, &schema);
    let expected = parse_json(r#"{"type": "mstl"}"#).unwrap();
    assert!(json_eq(&fixed, &expected));
}

#[test]
fn test_recover_tag_injected_into_object() {
    let schema = parse_json(
        r#"{"anyOf": [
            {"properties": {"type": {"const": "mstl"}, "seasonal": {"type": "integer"}}},
            {"properties": {"type": {"const": "ets"}, "alpha": {"type": "number"}}}
        ]}"#,
    )
    .unwrap();
    let candidate = parse_json(r#"{"alpha": 0.5}"#).unwrap();
    let fixed = normalize_candidate(candidate, &schema);
    // the tag member is injected in front of the existing members
    let expected = obj(vec![
        ("type", JsonValue::Text("ets".to_string())),
        ("alpha", JsonValue::Num("0.5".to_string())),
    ]);
    assert!(json_eq(&fixed, &expected));
}

#[test]
fn test_unflatten_externally_tagged_enum() {
    let schema = parse_json(
        r#"{"anyOf": [
            {"properties": {"Linear": {"type": "object", "properties": {"slope": {}}}}},
            {"properties": {"Flat": {"type": "object", "properties": {"level": {}, "noise": {}}}}}
        ]}"#,
    )
    .unwrap();
    // A flat object whose field set matches one variant's payload exactly.
    let candidate = parse_json(r#"{"slope": 3}"#).unwrap();
    let fixed = normalize_candidate(candidate, &schema);
    let expected = parse_json(r#"{"Linear": {"slope": 3}}"#).unwrap();
    assert!(json_eq(&fixed, &expected));
}

#[test]
fn test_case_insensitive_variant_key_renamed() {
    let schema = parse_json(
        r#"{"anyOf": [
            {"properties": {"Linear": {"type": "object", "properties": {"slope": {}}}}}
        ]}"#,
    )
    .unwrap();
    let candidate = parse_json(r#"{"linear": {"slope": 3}}"#).unwrap();
    let fixed = normalize_candidate(candidate, &schema);
    let expected = parse_json(r#"{"Linear": {"slope": 3}}"#).unwrap();
    assert!(json_eq(&fixed, &expected));
}

#[test]
fn test_array_wrapped_into_array_variant() {
    let schema = parse_json(
        r#"{"anyOf": [
            {"properties": {"Steps": {"type": "array"}}}
        ]}"#,
    )
    .unwrap();
    let candidate = parse_json(r#"[1, 2, 3]"#).unwrap();
    let fixed = normalize_candidate(candidate, &schema);
    let expected = parse_json(r#"{"Steps": [1, 2, 3]}"#).unwrap();
    assert!(json_eq(&fixed, &expected));
}

#[test]
fn test_normalizer_idempotence_scenario() {
    let schema = parse_json(
        r#"{
            "type": "object",
            "properties": {
                "mode": {"enum": ["Fast", "Slow"]},
                "proc": {"anyOf": [
                    {"properties": {"type": {"const": "mstl"}, "p": {}}},
                    {"properties": {"type": {"const": "ets"}}}
                ]}
            }
        }"#,
    )
    .unwrap();
    let candidate = parse_json(r#"{"mode": "fast mode", "proc": "ETS", "junk": null}"#).unwrap();
    let once = normalize_candidate(candidate.clone(), &schema);
    let twice = normalize_candidate(once.clone(), &schema);
    assert!(json_eq(&once, &twice));
}

#[test]
fn test_schema_validator() {
    let schema = parse_json(
        r#"{
            "type": "object",
            "properties": {"a": {"type": "integer"}, "tags": {"type": "array", "items": {"type": "string"}}},
            "required": ["a"]
        }"#,
    )
    .unwrap();
    let good = parse_json(r#"{"a": 1, "tags": ["x", "y"]}"#).unwrap();
    assert!(schema_check(&schema, &good));
    assert!(validation_errors(&schema, &good).is_empty());

    let missing = parse_json(r#"{"tags": []}"#).unwrap();
    assert!(!schema_check(&schema, &missing));
    assert_eq!(validation_errors(&schema, &missing).len(), 1);

    let wrong_type = parse_json(r#"{"a": "one"}"#).unwrap();
    assert!(!schema_check(&schema, &wrong_type));

    let bad_item = parse_json(r#"{"a": 1, "tags": [5]}"#).unwrap();
    assert!(!schema_check(&schema, &bad_item));
}

#[test]
fn test_schema_validator_enum_and_anyof() {
    let schema = parse_json(r#"{"enum": ["a", "b"]}"#).unwrap();
    assert!(schema_check(&schema, &JsonValue::Text("a".to_string())));
    assert!(!schema_check(&schema, &JsonValue::Text("c".to_string())));

    let schema = parse_json(r#"{"anyOf": [{"type": "integer"}, {"type": "string"}]}"#).unwrap();
    assert!(schema_check(&schema, &JsonValue::Int(1)));
    assert!(schema_check(&schema, &JsonValue::Text("x".to_string())));
    assert!(!schema_check(&schema, &JsonValue::Bool(true)));
}

#[test]
fn test_normalize_keeps_sound_documents() {
    let schema = parse_json(r#"{"type": "object", "properties": {"a": {"type": "integer"}}}"#)
        .unwrap();
    let sound = obj(vec![("a", JsonValue::Int(4))]);
    let fixed = normalize_candidate(sound.clone(), &schema);
    assert!(json_eq(&fixed, &sound));
}

#[test]
fn test_validation_errors_are_itemized_with_paths() {
    let schema = parse_json(
        r#"{
            "type": "object",
            "required": ["a", "b"],
            "properties": {"nested": {"type": "object", "required": ["inner"]}}
        }"#,
    )
    .unwrap();
    let candidate = parse_json(r#"{"nested": {}}"#).unwrap();
    let errors = validation_errors(&schema, &candidate);
    assert_eq!(errors.len(), 3);
    assert_eq!(errors[0], ": the required member a is missing");
    assert_eq!(errors[1], ": the required member b is missing");
    assert_eq!(errors[2], "/nested: the required member inner is missing");

    let schema = parse_json(r#"{"type": "array", "items": {"type": "integer"}}"#).unwrap();
    let candidate = parse_json(r#"[1, "x", 2, true]"#).unwrap();
    let errors = validation_errors(&schema, &candidate);
    assert_eq!(errors.len(), 2);
    assert!(errors[0].starts_with("/1:"));
    assert!(errors[1].starts_with("/3:"));
}
