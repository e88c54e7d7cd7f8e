use jsonargs::arrays::ArrayArgs;
use jsonargs::objects::{KeyValue, ObjectArgs};
use jsonargs::read_all;
use jsonargs::strings::StringArgs;
use jsonargs::testing::{TestBuffer, TestInput};
use jsonargs::ValueReader;

fn object_args(values: Vec<&str>) -> ObjectArgs {
    ObjectArgs {
        auto: false,
        value: values.into_iter().map(|s| s.to_string()).collect(),
        from_stdin: false,
        empty: false,
        separator: "=".to_string(),
    }
}

#[test]
fn test_read_all_from_one_line() {
    let input = TestInput::OneLine("Hello, world!".to_string());
    let mut buffer = TestBuffer::from(input);
    let result = read_all(&mut buffer).unwrap();
    assert_eq!(result, "Hello, world!");
}

#[test]
fn test_read_all_from_multiple_lines() {
    let input = TestInput::MultipleLines(vec![
        "Hello, world!".to_string(),
        "This is a test".to_string(),
    ]);
    let mut buffer = TestBuffer::from(input);
    let result = read_all(&mut buffer).unwrap();
    assert_eq!(result, "Hello, world!\nThis is a test");
}

#[test]
fn test_array_value_reader_from_std_in() {
    let args = ArrayArgs {
        auto: false,
        value: Vec::new(),
        from_stdin: true,
        empty: false,
    };
    let mut buffer = TestBuffer::multiple_lines(vec![
        "Hello, world!".to_string(),
        "This is a test".to_string(),
    ]);

    let result = args.value(&mut buffer).unwrap();
    assert_eq!(
        result,
        vec!["Hello, world!".to_string(), "This is a test".to_string(),]
    );
}

#[test]
fn test_key_value_from_str() {
    let kv = KeyValue::from_str("key=value", "=");
    assert_eq!(kv.key, "key");
    assert_eq!(kv.value, Some("value".to_string()));
}

#[test]
fn test_key_value_from_str_empty_value() {
    let kv = KeyValue::from_str("key=", "=");
    assert_eq!(kv.key, "key");
    assert_eq!(kv.value, Some("".to_string()));
}

#[test]
fn test_key_value_from_str_no_value() {
    let kv = KeyValue::from_str("key", "=");
    assert_eq!(kv.key, "key");
    assert_eq!(kv.value, None);
}

#[test]
fn test_key_value_from_str_repeated_separator() {
    let kv = KeyValue::from_str("key=value=other", "=");
    assert_eq!(kv.key, "key");
    assert_eq!(kv.value, Some("value=other".to_string()));
}

#[test]
fn test_key_value_from_str_long_separator() {
    let kv = KeyValue::from_str("key==value", "==");
    assert_eq!(kv.key, "key");
    assert_eq!(kv.value, Some("value".to_string()));
}

#[test]
fn test_key_value_from_str_long_separator_empty_value() {
    let kv = KeyValue::from_str("key==", "==");
    assert_eq!(kv.key, "key");
    assert_eq!(kv.value, Some("".to_string()));
}

#[test]
fn test_key_value_from_str_long_separator_no_value() {
    let kv = KeyValue::from_str("key", "==");
    assert_eq!(kv.key, "key");
    assert_eq!(kv.value, None);
}

#[test]
fn test_object_args_single_value() {
    let args = object_args(vec!["key=value"]);
    let mut buffer = TestBuffer::empty();
    let values = args.value(&mut buffer);
    match values {
        Ok(values) => {
            assert_eq!(values.len(), 1);
            assert_eq!(values[0].key, "key");
            assert_eq!(values[0].value, Some("value".to_string()));
        }
        Err(e) => panic!("Error: {}", e.message()),
    }
}

#[test]
fn test_object_args_multiple_values() {
    let args = object_args(vec!["key=value", "other=thing"]);
    let mut buffer = TestBuffer::empty();
    let values = args.value(&mut buffer);
    match values {
        Ok(values) => {
            assert_eq!(values.len(), 2);
            assert_eq!(values[0].key, "key");
            assert_eq!(values[0].value, Some("value".to_string()));
            assert_eq!(values[1].key, "other");
            assert_eq!(values[1].value, Some("thing".to_string()));
        }
        Err(e) => panic!("Error: {}", e.message()),
    }
}

#[test]
fn test_object_args_from_stdin_multiple_lines() {
    let args = ObjectArgs {
        auto: false,
        value: Vec::new(),
        from_stdin: true,
        empty: false,
        separator: "=".to_string(),
    };
    let mut buffer =
        TestBuffer::multiple_lines(vec!["key=value".to_string(), "other=thing".to_string()]);
    let result = args.value(&mut buffer).unwrap();
    assert_eq!(result.len(), 2);
    assert_eq!(result[0].key, "key");
    assert_eq!(result[0].value, Some("value".to_string()));
    assert_eq!(result[1].key, "other");
    assert_eq!(result[1].value, Some("thing".to_string()));
}

#[test]
fn test_string_args_value() {
    let args = StringArgs {
        value: Some("Hello, world!".to_string()),
        from_stdin: false,
    };
    let mut buffer = TestBuffer::empty();
    let result = args.value(&mut buffer).unwrap();
    assert_eq!(result, "Hello, world!");
}

#[test]
fn test_string_args_value_from_std_in() {
    let args = StringArgs {
        value: None,
        from_stdin: true,
    };
    let mut buffer = TestBuffer::one_line("Hello, world!".to_string());
    let result = args.value(&mut buffer).unwrap();
    assert_eq!(result, "Hello, world!");
}
