use gemini_structured_output::json::{json_eq, JsonMember, JsonValue};
use gemini_structured_output::parse::{clean_patch_text, parse_json, parse_patch_text};
use gemini_structured_output::patch::{
    apply, apply_operation, extract_array_index, op_path, reorder_removals, Patch, PatchOperation,
    PatchStrategy,
};
use gemini_structured_output::pointer::Pointer;

#[test]
fn test_reorder_removals() {
    let patch_json = r#"[
        {"op": "remove", "path": "/items/0"},
        {"op": "remove", "path": "/items/2"},
        {"op": "remove", "path": "/items/1"}
    ]"#;

    let patch = parse_patch_text(patch_json).unwrap();
    let reordered = reorder_removals(patch);

    assert_eq!(reordered.ops.len(), 3);
    let indices: Vec<Option<usize>> = reordered
        .ops
        .iter()
        .map(|op| extract_array_index(op))
        .collect();
    assert_eq!(indices, vec![Some(2), Some(1), Some(0)]);
}

#[test]
fn test_extract_array_index() {
    let op = PatchOperation::Remove {
        path: Pointer::parse("/items/5").unwrap(),
    };
    assert_eq!(extract_array_index(&op), Some(5));

    let op = PatchOperation::Replace {
        path: Pointer::parse("/name").unwrap(),
        value: JsonValue::Text("test".to_string()),
    };
    assert_eq!(extract_array_index(&op), None);
}

#[test]
fn test_apply_patch_with_replace_whole_array() {
    let original = parse_json(
        r#"{
            "items": [
                {"id": 1, "name": "A", "value": 10.0},
                {"id": 2, "name": "B", "value": 20.0}
            ],
            "total": 30.0
        }"#,
    )
    .unwrap();

    let patch_json = r#"[
        {"op": "replace", "path": "/items", "value": [
            {"id": 1, "name": "A", "value": 15.0},
            {"id": 2, "name": "B", "value": 25.0},
            {"id": 3, "name": "C", "value": 10.0}
        ]},
        {"op": "replace", "path": "/total", "value": 50.0}
    ]"#;

    let patch = parse_patch_text(patch_json).unwrap();
    let (result, errors) = apply(&original, &patch, &PatchStrategy::PartialApply);
    assert!(errors.is_empty(), "Expected no patch errors: {:?}", errors);

    let items = match &result {
        JsonValue::Obj(members) => members
            .iter()
            .find(|m| m.key == "items")
            .map(|m| &m.value)
            .unwrap(),
        _ => panic!("expected object"),
    };
    match items {
        JsonValue::Arr(elems) => {
            assert_eq!(elems.len(), 3);
            match &elems[2] {
                JsonValue::Obj(fields) => {
                    let name = fields.iter().find(|m| m.key == "name").unwrap();
                    assert!(matches!(&name.value, JsonValue::Text(s) if s == "C"));
                }
                _ => panic!("expected object element"),
            }
        }
        _ => panic!("expected array"),
    }
    let total = match &result {
        JsonValue::Obj(members) => members
            .iter()
            .find(|m| m.key == "total")
            .map(|m| &m.value)
            .unwrap(),
        _ => unreachable!(),
    };
    assert!(matches!(total, JsonValue::Num(t) if t == "50.0"));
}

fn three_elem_doc() -> JsonValue {
    parse_json(r#"{"items": ["a", "b", "c"]}"#).unwrap()
}

#[test]
fn test_atomic_failure_leaves_document_unchanged() {
    let doc = parse_json(r#"{"a": 1}"#).unwrap();
    let patch = parse_patch_text(
        r#"[
            {"op": "replace", "path": "/a", "value": 2},
            {"op": "replace", "path": "/missing", "value": 3}
        ]"#,
    )
    .unwrap();
    let (result, errors) = apply(&doc, &patch, &PatchStrategy::Atomic);
    assert_eq!(errors.len(), 1);
    assert!(json_eq(&result, &doc));
}

#[test]
fn test_partial_apply_keeps_valid_prefix() {
    let doc = parse_json(r#"{"a": 1, "b": 2}"#).unwrap();
    let patch = parse_patch_text(
        r#"[
            {"op": "replace", "path": "/a", "value": 10},
            {"op": "replace", "path": "/missing", "value": 3},
            {"op": "replace", "path": "/b", "value": 20}
        ]"#,
    )
    .unwrap();
    let (result, errors) = apply(&doc, &patch, &PatchStrategy::PartialApply);
    assert_eq!(errors.len(), 1);
    let expected = parse_json(r#"{"a": 10, "b": 20}"#).unwrap();
    assert!(json_eq(&result, &expected));
}

#[test]
fn test_reorder_removal_index_invariance() {
    // Removing indices {0,2,1} in that emitted order, reordered, equals
    // removing 2, then 1, then 0 against the original array.
    let doc = three_elem_doc();
    let emitted = parse_patch_text(
        r#"[
            {"op": "remove", "path": "/items/0"},
            {"op": "remove", "path": "/items/2"},
            {"op": "remove", "path": "/items/1"}
        ]"#,
    )
    .unwrap();
    let reordered = reorder_removals(emitted);
    let (result, errors) = apply(&doc, &reordered, &PatchStrategy::PartialApply);
    assert!(errors.is_empty());
    let expected = parse_json(r#"{"items": []}"#).unwrap();
    assert!(json_eq(&result, &expected));
}

#[test]
fn test_move_copy_and_test_ops() {
    let doc = parse_json(r#"{"a": 1, "b": {"c": 2}}"#).unwrap();
    let mv = parse_patch_text(r#"[{"op": "move", "from": "/a", "path": "/b/d"}]"#).unwrap();
    let (moved, errors) = apply(&doc, &mv, &PatchStrategy::Atomic);
    assert!(errors.is_empty());
    let expected = parse_json(r#"{"b": {"c": 2, "d": 1}}"#).unwrap();
    assert!(json_eq(&moved, &expected));

    let cp = parse_patch_text(r#"[{"op": "copy", "from": "/a", "path": "/b/e"}]"#).unwrap();
    let (copied, errors) = apply(&doc, &cp, &PatchStrategy::Atomic);
    assert!(errors.is_empty());
    let expected = parse_json(r#"{"a": 1, "b": {"c": 2, "e": 1}}"#).unwrap();
    assert!(json_eq(&copied, &expected));

    let ok = parse_patch_text(r#"[{"op": "test", "path": "/a", "value": 1}]"#).unwrap();
    let (_, errors) = apply(&doc, &ok, &PatchStrategy::Atomic);
    assert!(errors.is_empty());

    let bad = parse_patch_text(r#"[{"op": "test", "path": "/a", "value": 9}]"#).unwrap();
    let (after, errors) = apply(&doc, &bad, &PatchStrategy::Atomic);
    assert_eq!(errors.len(), 1);
    assert!(json_eq(&after, &doc));
}

#[test]
fn test_parent_path_guard_skips_through_null() {
    let doc = parse_json(r#"{"outer": null}"#).unwrap();
    let patch = parse_patch_text(r#"[{"op": "add", "path": "/outer/inner", "value": 1}]"#)
        .unwrap();
    let (result, errors) = apply(&doc, &patch, &PatchStrategy::PartialApply);
    assert_eq!(errors.len(), 1);
    assert!(errors[0].contains("parent path is null or missing"));
    assert!(json_eq(&result, &doc));
}

#[test]
fn test_patch_parse_errors() {
    assert!(parse_patch_text("not json").is_err());
    assert!(parse_patch_text(r#"{"nope": 1}"#).is_err());
    assert!(parse_patch_text(r#"[{"op": "frobnicate", "path": "/a"}]"#).is_err());
    assert!(parse_patch_text(r#"[{"op": "add", "path": "/a"}]"#).is_err());
    assert!(parse_patch_text(r#"[{"op": "add", "path": "bad", "value": 1}]"#).is_err());
    // the wrapped form is accepted
    let wrapped =
        parse_patch_text(r#"{"patch": [{"op": "add", "path": "/a", "value": 1}]}"#).unwrap();
    assert_eq!(wrapped.ops.len(), 1);
}

#[test]
fn test_op_path_and_pointer_escapes() {
    let p = Pointer::parse("/a~1b/c~0d").unwrap();
    assert_eq!(p.segments, vec!["a/b".to_string(), "c~d".to_string()]);
    assert_eq!(p.to_text(), "/a~1b/c~0d");
    let op = PatchOperation::Remove { path: p };
    assert_eq!(op_path(&op), "/a~1b/c~0d");
    assert!(Pointer::parse("no-slash").is_none());
    assert!(Pointer::parse("/bad~2escape").is_none());
    assert_eq!(Pointer::parse("").unwrap().segments.len(), 0);
}

#[test]
fn test_clean_patch_text_strips_noise() {
    assert_eq!(
        clean_patch_text("  here you go: [ {\"op\": \"x\"} ] thanks "),
        "[ {\"op\": \"x\"} ]"
    );
    assert_eq!(clean_patch_text("  plain  "), "plain");
}

#[test]
fn test_apply_operation_add_nested() {
    let doc = parse_json(r#"{"a": {"b": [1, 2]}}"#).unwrap();
    let op = PatchOperation::Add {
        path: Pointer::parse("/a/b/1").unwrap(),
        value: JsonValue::Int(9),
    };
    let out = apply_operation(&doc, &op).unwrap();
    let expected = parse_json(r#"{"a": {"b": [1, 9, 2]}}"#).unwrap();
    assert!(json_eq(&out, &expected));

    let append = PatchOperation::Add {
        path: Pointer::parse("/a/b/-").unwrap(),
        value: JsonValue::Int(7),
    };
    let out = apply_operation(&doc, &append).unwrap();
    let expected = parse_json(r#"{"a": {"b": [1, 2, 7]}}"#).unwrap();
    assert!(json_eq(&out, &expected));
}

#[test]
fn test_patch_struct_roundtrip() {
    let patch = Patch {
        ops: vec![PatchOperation::Add {
            path: Pointer::parse("/k").unwrap(),
            value: JsonValue::Obj(vec![JsonMember {
                key: "n".to_string(),
                value: JsonValue::Int(1),
            }]),
        }],
    };
    let doc = parse_json(r#"{}"#).unwrap();
    let (result, errors) = apply(&doc, &patch, &PatchStrategy::Atomic);
    assert!(errors.is_empty());
    let expected = parse_json(r#"{"k": {"n": 1}}"#).unwrap();
    assert!(json_eq(&result, &expected));
}

#[test]
fn test_leading_zero_segment_is_not_an_index() {
    let doc = parse_json(r#"{"items": ["a", "b"]}"#).unwrap();
    let patch = parse_patch_text(r#"[{"op": "remove", "path": "/items/01"}]"#).unwrap();
    let (result, errors) = apply(&doc, &patch, &PatchStrategy::PartialApply);
    assert_eq!(errors.len(), 1);
    assert!(json_eq(&result, &doc));

    let ok = parse_patch_text(r#"[{"op": "remove", "path": "/items/0"}]"#).unwrap();
    let (result, errors) = apply(&doc, &ok, &PatchStrategy::PartialApply);
    assert!(errors.is_empty());
    let expected = parse_json(r#"{"items": ["b"]}"#).unwrap();
    assert!(json_eq(&result, &expected));
}

#[test]
fn test_remove_whole_document_is_refused() {
    let doc = parse_json(r#"{"a": 1}"#).unwrap();
    let patch = parse_patch_text(r#"[{"op": "remove", "path": ""}]"#).unwrap();
    let (result, errors) = apply(&doc, &patch, &PatchStrategy::Atomic);
    assert_eq!(errors.len(), 1);
    assert!(json_eq(&result, &doc));
}

#[test]
fn test_add_replaces_existing_member() {
    let doc = parse_json(r#"{"a": 1}"#).unwrap();
    let patch = parse_patch_text(r#"[{"op": "add", "path": "/a", "value": 2}]"#).unwrap();
    let (result, errors) = apply(&doc, &patch, &PatchStrategy::Atomic);
    assert!(errors.is_empty());
    let expected = parse_json(r#"{"a": 2}"#).unwrap();
    assert!(json_eq(&result, &expected));
}
