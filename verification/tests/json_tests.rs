use dify_console::json::{json_text, parse_json, JsonValue};

#[test]
fn json_text_is_read_into_the_model() {
    match parse_json(r#"{"a":[true,null,1.5,"x"]}"#) {
        Some(JsonValue::Object(es)) => {
            assert_eq!(es.len(), 1);
            assert_eq!(es[0].0, "a");
            match &es[0].1 {
                JsonValue::Array(items) => {
                    assert!(matches!(items[0], JsonValue::Bool(true)));
                    assert!(matches!(items[1], JsonValue::Null));
                    assert!(matches!(&items[2], JsonValue::Number(t) if t == "1.5"));
                    assert!(matches!(&items[3], JsonValue::Str(t) if t == "x"));
                }
                _ => panic!("expected an array"),
            }
        }
        _ => panic!("expected an object"),
    }
    assert!(parse_json("{not json").is_none());
}

#[test]
fn model_is_written_as_compact_json() {
    let v = JsonValue::Object(vec![
        ("b".to_string(), JsonValue::Array(vec![JsonValue::Number("2".to_string()), JsonValue::Str("y".to_string())])),
        ("a".to_string(), JsonValue::Bool(false)),
    ]);
    assert_eq!(json_text(&v).unwrap(), r#"{"a":false,"b":[2,"y"]}"#);
    assert!(json_text(&JsonValue::Number("x1".to_string())).is_none());
}
