use jsonargs::arrays::ArrayArgs;
use jsonargs::json::JsonValueCommand;
use jsonargs::objects::ObjectArgs;
use jsonargs::strings::StringArgs;
use jsonargs::testing::TestBuffer;
use serde_json::Value;

fn array_args(values: Vec<&str>) -> ArrayArgs {
    ArrayArgs {
        auto: false,
        value: values.into_iter().map(|s| s.to_string()).collect(),
        from_stdin: false,
        empty: false,
    }
}

fn array_args_auto(values: Vec<&str>) -> ArrayArgs {
    ArrayArgs {
        auto: true,
        value: values.into_iter().map(|s| s.to_string()).collect(),
        from_stdin: false,
        empty: false,
    }
}

fn object_args(values: Vec<&str>) -> ObjectArgs {
    ObjectArgs {
        auto: false,
        value: values.into_iter().map(|s| s.to_string()).collect(),
        from_stdin: false,
        empty: false,
        separator: "=".to_string(),
    }
}

fn object_args_auto(values: Vec<&str>) -> ObjectArgs {
    ObjectArgs {
        auto: true,
        value: values.into_iter().map(|s| s.to_string()).collect(),
        from_stdin: false,
        empty: false,
        separator: "=".to_string(),
    }
}

fn text(s: &str) -> Value {
    Value::String(s.to_string())
}

fn object_of(members: Vec<(&str, Value)>) -> Value {
    let mut map = serde_json::Map::new();
    for (key, value) in members {
        map.insert(key.to_string(), value);
    }
    Value::Object(map)
}

#[test]
fn test_array_args_to_array_value() {
    let args = array_args(vec!["Hello, world!", "This is a test"]);
    let result = args.get_json_value(&mut TestBuffer::empty()).unwrap();
    assert_eq!(
        result,
        Value::Array(vec![text("Hello, world!"), text("This is a test")])
    );
}

#[test]
fn test_array_args_auto_to_array_value() {
    let args = array_args_auto(vec![
        "Hello, world!",
        "true",
        "false",
        "9",
        "3.14",
        "null",
        "{}",
        "[]",
        "[1]",
        "{\"a\": 1}",
    ]);
    let result = args.get_json_value(&mut TestBuffer::empty()).unwrap();
    assert_eq!(
        result,
        Value::Array(vec![
            text("Hello, world!"),
            Value::Bool(true),
            Value::Bool(false),
            Value::from(9),
            Value::from(3.14),
            Value::Null,
            object_of(vec![]),
            Value::Array(vec![]),
            Value::Array(vec![Value::from(1)]),
            object_of(vec![("a", Value::from(1))]),
        ])
    );
}

#[test]
fn test_object_args_json_value_single_value() {
    let args = object_args(vec!["key=value"]);
    let result = args.get_json_value(&mut TestBuffer::empty()).unwrap();
    assert_eq!(result, object_of(vec![("key", text("value"))]));
}

#[test]
fn test_object_args_json_value_multiple_values() {
    let args = object_args(vec!["key=value", "other=thing"]);
    let result = args.get_json_value(&mut TestBuffer::empty()).unwrap();
    assert_eq!(
        result,
        object_of(vec![("key", text("value")), ("other", text("thing"))])
    );
}

#[test]
fn test_object_args_json_value_repeating_keys() {
    let args = object_args(vec!["key=value", "key=other"]);
    let result = args.get_json_value(&mut TestBuffer::empty()).unwrap();
    assert_eq!(result, object_of(vec![("key", text("other"))]));
}

#[test]
fn test_object_args_json_value_auto_json_parsing() {
    let args = object_args_auto(vec![
        "key=value",
        "other=true",
        "another=false",
        "number=9",
        "pi=3.14",
        "null=null",
        "empty=",
        "array=[]",
        "object={}",
        "array_with_value=[1]",
        "object_with_value={\"a\": 1}",
        "a_string=\"a string\"",
    ]);
    let result = args.get_json_value(&mut TestBuffer::empty()).unwrap();
    assert_eq!(
        result,
        object_of(vec![
            ("key", text("value")),
            ("other", Value::Bool(true)),
            ("another", Value::Bool(false)),
            ("number", Value::from(9)),
            ("pi", Value::from(3.14)),
            ("null", Value::Null),
            ("empty", text("")),
            ("array", Value::Array(vec![])),
            ("object", object_of(vec![])),
            ("array_with_value", Value::Array(vec![Value::from(1)])),
            ("object_with_value", object_of(vec![("a", Value::from(1))])),
            ("a_string", text("a string")),
        ])
    );
}

#[test]
fn test_object_args_json_value_empty_object() {
    let mut args = object_args(vec![]);
    args.empty = true;
    let result = args.get_json_value(&mut TestBuffer::empty()).unwrap();
    assert_eq!(result, object_of(vec![]));
}

#[test]
fn test_string_args_to_json_value() {
    let args = StringArgs {
        value: Some("Hello, world!".to_string()),
        from_stdin: false,
    };
    let result = args.get_json_value(&mut TestBuffer::empty()).unwrap();
    assert_eq!(
        result,
        serde_json::Value::String("Hello, world!".to_string())
    );
}
