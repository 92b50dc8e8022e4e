use devtools_link::message::{classify, decode, frame_text, Frame, Message, Method, ProtocolDecodeError};
use devtools_link::text::{has_prefix, less, push_decimal};

#[test]
fn test_mesage_display() {
    let message = Message::new(Method::Browser_getVersion);

    assert_eq!(
        message.serialize(123),
        "{\"id\":123,\"method\":\"Browser.getVersion\"}",
    );

    let message = Message::new_with_params(
        Method::Page_navigate,
        [("url".to_string(), "https://example.com".to_string())]
            .iter()
            .cloned()
            .collect(),
    );

    assert_eq!(
        message.serialize(456),
        "{\"id\":456,\"method\":\"Page.navigate\",\"params\":{\"url\":\"https://example.com\"}}",
    );
}

#[test]
fn method_names_use_a_dot() {
    assert_eq!(Method::Browser_getVersion.to_string(), "Browser.getVersion");
    assert_eq!(Method::Page_navigate.as_str(), "Page.navigate");
}

#[test]
fn empty_params_are_written_as_empty_object() {
    let message = Message::new_with_params(Method::Page_navigate, Vec::new());
    assert_eq!(
        message.serialize(1),
        "{\"id\":1,\"method\":\"Page.navigate\",\"params\":{}}",
    );
}

#[test]
fn params_are_ordered_by_key_and_escaped() {
    let message = Message::new_with_params(
        Method::Page_navigate,
        vec![
            ("url".to_string(), "a\"b\\c".to_string()),
            ("referrer".to_string(), "line\nbreak".to_string()),
        ],
    );
    assert_eq!(
        message.serialize(7),
        "{\"id\":7,\"method\":\"Page.navigate\",\"params\":{\"referrer\":\"line\\nbreak\",\"url\":\"a\\\"b\\\\c\"}}",
    );
}

#[test]
fn serialize_largest_id() {
    let message = Message::new(Method::Browser_getVersion);
    assert_eq!(
        message.serialize(u64::MAX),
        "{\"id\":18446744073709551615,\"method\":\"Browser.getVersion\"}",
    );
    assert_eq!(
        message.serialize(0),
        "{\"id\":0,\"method\":\"Browser.getVersion\"}",
    );
}

#[test]
fn frame_text_joins_quoted_parts() {
    assert_eq!(frame_text(5, "\"M\"", None), "{\"id\":5,\"method\":\"M\"}");
    let pairs = vec![
        ("\"a\"".to_string(), "\"1\"".to_string()),
        ("\"b\"".to_string(), "\"2\"".to_string()),
        ("\"c\"".to_string(), "\"3\"".to_string()),
    ];
    assert_eq!(
        frame_text(10, "\"M\"", Some(&pairs)),
        "{\"id\":10,\"method\":\"M\",\"params\":{\"a\":\"1\",\"b\":\"2\",\"c\":\"3\"}}",
    );
}

#[test]
fn decimal_digits() {
    let mut out = String::from("n=");
    push_decimal(&mut out, 0);
    assert_eq!(out, "n=0");
    let mut out = String::new();
    push_decimal(&mut out, 9);
    push_decimal(&mut out, 10);
    push_decimal(&mut out, 1234567890);
    assert_eq!(out, "9101234567890");
}

#[test]
fn prefix_test() {
    assert!(has_prefix("--remote-debugging-port=0", "--remote-debugging"));
    assert!(has_prefix("abc", ""));
    assert!(has_prefix("abc", "abc"));
    assert!(!has_prefix("ab", "abc"));
    assert!(!has_prefix("--remote", "--remote-debugging"));
    assert!(!has_prefix("x--remote-debugging", "--remote-debugging"));
    assert!(has_prefix("äöü", "äö"));
}

#[test]
fn decode_response() {
    let raw = "{\"id\":17,\"result\":{\"product\":\"Chrome\"}}";
    match decode(raw) {
        Ok(Frame::Response { id, payload }) => {
            assert_eq!(id, 17);
            assert_eq!(payload, raw);
        }
        other => panic!("unexpected {:?}", other),
    }
}

#[test]
fn decode_event() {
    let raw = "{\"method\":\"Target.targetCreated\",\"params\":{}}";
    match decode(raw) {
        Ok(Frame::Event { payload }) => assert_eq!(payload, raw),
        other => panic!("unexpected {:?}", other),
    }
}

#[test]
fn decode_non_numeric_id_is_event() {
    let raw = "{\"id\":\"seven\"}";
    assert!(matches!(decode(raw), Ok(Frame::Event { .. })));
    let raw = "{\"id\":-3}";
    assert!(matches!(decode(raw), Ok(Frame::Event { .. })));
}

#[test]
fn decode_malformed() {
    assert!(matches!(decode("{\"id\":"), Err(ProtocolDecodeError::Malformed)));
    assert!(matches!(decode(""), Err(ProtocolDecodeError::Malformed)));
    assert!(matches!(decode("not json"), Err(ProtocolDecodeError::Malformed)));
}

#[test]
fn decode_missing_structure() {
    assert!(matches!(decode("[1,2,3]"), Err(ProtocolDecodeError::MissingStructure)));
    assert!(matches!(decode("42"), Err(ProtocolDecodeError::MissingStructure)));
    assert!(matches!(decode("\"id\""), Err(ProtocolDecodeError::MissingStructure)));
}

#[test]
fn classify_follows_the_outline() {
    assert!(matches!(classify(None, "x"), Err(ProtocolDecodeError::Malformed)));
    assert!(matches!(
        classify(Some((false, Some(3))), "x"),
        Err(ProtocolDecodeError::MissingStructure)
    ));
    match classify(Some((true, Some(3))), "x") {
        Ok(Frame::Response { id, payload }) => {
            assert_eq!(id, 3);
            assert_eq!(payload, "x");
        }
        other => panic!("unexpected {:?}", other),
    }
    assert!(matches!(classify(Some((true, None)), "x"), Ok(Frame::Event { .. })));
}

#[test]
fn round_trip_keeps_id_method_and_params() {
    let message = Message::new_with_params(
        Method::Page_navigate,
        vec![("url".to_string(), "https://example.com/?q=\"a b\"".to_string())],
    );
    let text = message.serialize(99);
    match decode(&text) {
        Ok(Frame::Response { id, payload }) => {
            assert_eq!(id, 99);
            let value: serde_json::Value = serde_json::from_str(&payload).unwrap();
            assert_eq!(value["method"].as_str(), Some("Page.navigate"));
            assert_eq!(
                value["params"]["url"].as_str(),
                Some("https://example.com/?q=\"a b\"")
            );
            assert_eq!(value["params"].as_object().unwrap().len(), 1);
        }
        other => panic!("unexpected {:?}", other),
    }
    let bare = Message::new(Method::Browser_getVersion).serialize(1);
    let value: serde_json::Value = serde_json::from_str(&bare).unwrap();
    assert_eq!(value["id"].as_u64(), Some(1));
    assert_eq!(value["method"].as_str(), Some("Browser.getVersion"));
    assert!(value.get("params").is_none());
}

#[test]
fn repeated_key_keeps_its_last_value() {
    let message = Message::new_with_params(
        Method::Page_navigate,
        vec![
            ("url".to_string(), "first".to_string()),
            ("frameId".to_string(), "f".to_string()),
            ("url".to_string(), "second".to_string()),
        ],
    );
    assert_eq!(
        message.serialize(2),
        "{\"id\":2,\"method\":\"Page.navigate\",\"params\":{\"frameId\":\"f\",\"url\":\"second\"}}",
    );
}

#[test]
fn params_match_a_sorted_map() {
    let given = vec![
        ("b".to_string(), "2".to_string()),
        ("a".to_string(), "1".to_string()),
        ("B".to_string(), "3".to_string()),
        ("ab".to_string(), "4".to_string()),
        ("".to_string(), "5".to_string()),
        ("é".to_string(), "6".to_string()),
        ("a".to_string(), "7".to_string()),
    ];
    let text = Message::new_with_params(Method::Page_navigate, given.clone()).serialize(3);
    let mut map = serde_json::Map::new();
    for (key, value) in given {
        map.insert(key, serde_json::Value::String(value));
    }
    let mut object = serde_json::Map::new();
    object.insert("id".to_string(), serde_json::Value::from(3u64));
    object.insert("method".to_string(), serde_json::Value::from("Page.navigate"));
    object.insert("params".to_string(), serde_json::Value::Object(map));
    assert_eq!(text, serde_json::Value::Object(object).to_string());
    assert_eq!(
        text,
        "{\"id\":3,\"method\":\"Page.navigate\",\"params\":{\"\":\"5\",\"B\":\"3\",\"a\":\"7\",\"ab\":\"4\",\"b\":\"2\",\"é\":\"6\"}}"
    );
}

#[test]
fn string_order() {
    assert!(less("", "a"));
    assert!(!less("", ""));
    assert!(!less("a", ""));
    assert!(less("a", "ab"));
    assert!(less("ab", "b"));
    assert!(less("B", "a"));
    assert!(!less("b", "ab"));
    assert!(!less("same", "same"));
    assert!(less("z", "é"));
}
