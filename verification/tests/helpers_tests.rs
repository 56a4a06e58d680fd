use gemini_structured_output::helpers::{
    bullet_list, code_block, collapsible, csv_to_markdown, csv_to_markdown_with_options,
    group_thousands, json_array_to_markdown, key_value, key_value_block, numbered_list,
    truncate_text, CsvError, CsvOptions,
};
use gemini_structured_output::json::{JsonMember, JsonValue};

#[test]
fn test_csv_to_markdown() {
    let csv = "Name,Age,City\nAlice,30,New York\nBob,25,Los Angeles";
    let md = csv_to_markdown(csv, Some("People")).unwrap();
    assert!(md.contains("### People"));
    assert!(md.contains("| Name"));
    assert!(md.contains("| Alice"));
}

#[test]
fn test_csv_with_options() {
    let csv = "a;b;c\n1;2;3\n4;5;6";
    let opts = CsvOptions {
        delimiter: ';',
        ..Default::default()
    };
    let md = csv_to_markdown_with_options(csv, None, opts).unwrap();
    assert!(md.contains("| a "));
}

#[test]
fn test_truncate() {
    assert_eq!(truncate_text("Hello World", 8), "Hello...");
    assert_eq!(truncate_text("Hi", 10), "Hi");
}

#[test]
fn test_bullet_list() {
    let list = bullet_list(&vec!["Apple".to_string(), "Banana".to_string()]);
    assert_eq!(list, "- Apple\n- Banana");
}

#[test]
fn test_numbered_list() {
    let list = numbered_list(&vec!["First".to_string(), "Second".to_string()]);
    assert_eq!(list, "1. First\n2. Second");
}

fn person(name: &str, age: i64) -> JsonValue {
    JsonValue::Obj(vec![
        JsonMember {
            key: "name".to_string(),
            value: JsonValue::Text(name.to_string()),
        },
        JsonMember {
            key: "age".to_string(),
            value: JsonValue::Int(age),
        },
    ])
}

#[test]
fn test_json_array_to_markdown() {
    let json = JsonValue::Arr(vec![person("Alice", 30), person("Bob", 25)]);
    let md = json_array_to_markdown(&json, None).unwrap();
    assert!(md.contains("| name"));
    assert!(md.contains("| Alice"));
}

#[test]
fn test_csv_empty_input() {
    assert!(matches!(csv_to_markdown("", None), Err(CsvError::Empty)));
    assert!(matches!(
        csv_to_markdown("   \n  \n", None),
        Err(CsvError::Empty)
    ));
}

#[test]
fn test_csv_inconsistent_columns() {
    let csv = "a,b\n1,2,3";
    match csv_to_markdown(csv, None) {
        Err(CsvError::InconsistentColumns {
            expected,
            found,
            row,
        }) => {
            assert_eq!(expected, 2);
            assert_eq!(found, 3);
            assert_eq!(row, 2);
        }
        other => panic!("expected inconsistent columns, got {:?}", other),
    }
}

#[test]
fn test_csv_exact_output() {
    let md = csv_to_markdown("x,y\n1,2", None).unwrap();
    assert_eq!(md, "| x | y |\n| --- | --- |\n| 1 | 2 |\n");
}

#[test]
fn test_key_value_helpers() {
    assert_eq!(key_value("speed", "fast"), "**speed**: fast");
    let block = key_value_block(&vec![
        ("a".to_string(), "1".to_string()),
        ("b".to_string(), "2".to_string()),
    ]);
    assert_eq!(block, "**a**: 1\n**b**: 2");
}

#[test]
fn test_code_block_and_collapsible() {
    assert_eq!(code_block("x = 1", Some("py")), "```py\nx = 1\n```");
    assert_eq!(code_block("x = 1", None), "```\nx = 1\n```");
    assert_eq!(
        collapsible("More", "body"),
        "<details>\n<summary>More</summary>\n\nbody\n</details>"
    );
}

#[test]
fn test_group_thousands() {
    assert_eq!(group_thousands("1234567"), "1,234,567");
    assert_eq!(group_thousands("-1000"), "-1,000");
    assert_eq!(group_thousands("12"), "12");
    assert_eq!(group_thousands("123"), "123");
}
