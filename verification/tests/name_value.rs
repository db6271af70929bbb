use rapr::json::DynamicValue;
use rapr::name_value::NameValuePair;
use rapr::name_value::SecretKeyRef;

fn string_value(text: &str) -> DynamicValue {
    let mut bytes = Vec::new();
    bytes.push(b'"');
    bytes.extend_from_slice(text.as_bytes());
    bytes.push(b'"');
    DynamicValue::from_bytes(&bytes).unwrap()
}

#[test]
fn test_name_value_pair_creation() {
    let pair = NameValuePair {
        name: "test_key".to_string(),
        value: Some(string_value("test_value")),
        secret_key_ref: None,
        env_ref: None,
    };

    assert_eq!(pair.name, "test_key");
    assert!(pair.value.is_some());
    assert!(pair.secret_key_ref.is_none());
    assert!(pair.env_ref.is_none());
}

#[test]
fn test_name_value_pair_has_value() {
    // A non-null value
    let pair_with_value = NameValuePair {
        name: "key".to_string(),
        value: Some(string_value("value")),
        secret_key_ref: None,
        env_ref: None,
    };
    assert!(pair_with_value.has_value());

    // A null value
    let pair_with_null = NameValuePair {
        name: "key".to_string(),
        value: Some(DynamicValue::from_bytes(b"null").unwrap()),
        secret_key_ref: None,
        env_ref: None,
    };
    assert!(!pair_with_null.has_value());

    // No value
    let pair_without_value = NameValuePair {
        name: "key".to_string(),
        value: None,
        secret_key_ref: None,
        env_ref: None,
    };
    assert!(!pair_without_value.has_value());
}

#[test]
fn test_name_value_pair_set_value() {
    let mut pair = NameValuePair {
        name: "key".to_string(),
        value: None,
        secret_key_ref: None,
        env_ref: None,
    };

    // Not well-formed JSON, so the bytes become a JSON string of their text.
    let test_data = b"test data".to_vec();
    pair.set_value(test_data.as_slice());

    assert!(pair.value.is_some());
    let value = pair.value.unwrap();
    assert_eq!(value.to_str(), "test data");
}

#[test]
fn test_name_value_pair_set_value_json() {
    let mut pair = NameValuePair {
        name: "key".to_string(),
        value: None,
        secret_key_ref: None,
        env_ref: None,
    };

    // Well-formed JSON parses as JSON.
    pair.set_value(b"true");
    assert!(pair.has_value());
    assert_eq!(pair.value.as_ref().unwrap().to_str(), "true");

    // The JSON null parses as the null value, which counts as no value.
    pair.set_value(b"null");
    assert!(!pair.has_value());
}

#[test]
fn test_name_value_pair_with_string_value() {
    let pair = NameValuePair {
        name: "test_key".to_string(),
        value: Some(string_value("test_value")),
        secret_key_ref: None,
        env_ref: None,
    };

    assert_eq!(pair.name, "test_key");
    assert!(pair.has_value());
    assert_eq!(pair.value.as_ref().unwrap().to_str(), "test_value");
}

#[test]
fn test_secret_key_ref_creation() {
    let secret_ref = SecretKeyRef {
        name: "my-secret".to_string(),
        key: Some("password".to_string()),
    };

    assert_eq!(secret_ref.name, "my-secret");
    assert_eq!(secret_ref.key, Some("password".to_string()));
}

#[test]
fn test_secret_key_ref_without_key() {
    let secret_ref = SecretKeyRef {
        name: "my-secret".to_string(),
        key: None,
    };

    assert_eq!(secret_ref.name, "my-secret");
    assert!(secret_ref.key.is_none());
}

#[test]
fn test_dynamic_value_to_str_with_string() {
    let value = string_value("hello world");
    assert_eq!(value.to_str(), "hello world");
}

#[test]
fn test_dynamic_value_to_str_with_json_encoded_string() {
    // The value is the string `"quoted string"`, quotes included.
    let value = DynamicValue::from_bytes(b"\"\\\"quoted string\\\"\"").unwrap();
    assert_eq!(value.to_str(), "quoted string");
}

#[test]
fn test_dynamic_value_to_str_with_number() {
    let value = DynamicValue::from_bytes(b"42").unwrap();
    assert_eq!(value.to_str(), "42");
}

#[test]
fn test_dynamic_value_to_str_with_boolean() {
    let value = DynamicValue::from_bytes(b"true").unwrap();
    assert_eq!(value.to_str(), "true");
}

#[test]
fn test_dynamic_value_to_str_with_null() {
    let value = DynamicValue::from_bytes(b"null").unwrap();
    assert_eq!(value.to_str(), "null");
}

#[test]
fn test_dynamic_value_to_str_with_object() {
    let value = DynamicValue::from_bytes(b"{\"key\": \"value\"}").unwrap();
    assert_eq!(value.to_str(), "{\"key\":\"value\"}");
}

#[test]
fn test_dynamic_value_to_str_with_number_string() {
    // A string holding digits stays a string and is returned verbatim.
    let value = string_value("42");
    assert_eq!(value.to_str(), "42");
}

#[test]
fn test_dynamic_value_from_bytes() {
    let json_bytes = b"{\"test\": \"value\"}".to_vec();
    let result = DynamicValue::from_bytes(&json_bytes).unwrap();

    let reparsed: serde_json::Value =
        serde_json::from_slice(&result.as_bytes().unwrap()).unwrap();
    let expected: serde_json::Value = serde_json::from_str("{\"test\": \"value\"}").unwrap();
    assert_eq!(reparsed, expected);
}

#[test]
fn test_dynamic_value_from_bytes_invalid_json() {
    let invalid_bytes = b"invalid json".to_vec();
    let result = DynamicValue::from_bytes(&invalid_bytes);

    assert!(result.is_err());
}

#[test]
fn test_dynamic_value_as_bytes() {
    let value = DynamicValue::from_bytes(b"{\"key\": \"value\"}").unwrap();

    let bytes = value.as_bytes().unwrap();
    let reconstructed: serde_json::Value = serde_json::from_slice(&bytes).unwrap();
    let expected: serde_json::Value = serde_json::from_str("{\"key\": \"value\"}").unwrap();

    assert_eq!(reconstructed, expected);
}

#[test]
fn test_dynamic_value_clone() {
    let value = DynamicValue::from_bytes(b"{\"key\": [1, 2, 3]}").unwrap();
    let copy = value.clone();
    assert_eq!(copy.to_str(), value.to_str());
    assert_eq!(copy.as_bytes().unwrap(), value.as_bytes().unwrap());
}

#[test]
fn test_canonical_reencode_round_trip() {
    // A parse followed by a serialization reaches a canonical form: the
    // output parses back to a structurally equal value, and a second round
    // leaves the bytes unchanged.
    let input = b"{ \"b\" : 1, \"a\" : [true, null, \"x\"] }".to_vec();
    let first = rapr::json::canonical_reencode(&input).unwrap();
    let second = rapr::json::canonical_reencode(&first).unwrap();
    assert_eq!(first, second);

    let original: serde_json::Value = serde_json::from_slice(&input).unwrap();
    let reencoded: serde_json::Value = serde_json::from_slice(&first).unwrap();
    assert_eq!(original, reencoded);

    assert!(rapr::json::canonical_reencode(b"not json").is_none());
}

#[test]
fn test_name_value_pair_with_secret_key_ref() {
    let pair = NameValuePair {
        name: "db_password".to_string(),
        value: None,
        secret_key_ref: Some(SecretKeyRef {
            name: "db-secrets".to_string(),
            key: Some("password".to_string()),
        }),
        env_ref: None,
    };

    assert!(!pair.has_value());
    assert!(pair.secret_key_ref.is_some());

    let secret_ref = pair.secret_key_ref.unwrap();
    assert_eq!(secret_ref.name, "db-secrets");
    assert_eq!(secret_ref.key, Some("password".to_string()));
}

#[test]
fn test_name_value_pair_with_env_ref() {
    let pair = NameValuePair {
        name: "api_key".to_string(),
        value: None,
        secret_key_ref: None,
        env_ref: Some("API_KEY".to_string()),
    };

    assert!(!pair.has_value());
    assert_eq!(pair.env_ref, Some("API_KEY".to_string()));
}

#[test]
fn test_name_value_pair_default() {
    let pair = NameValuePair::default();
    assert_eq!(pair.name, "");
    assert!(pair.value.is_none());
    assert!(pair.secret_key_ref.is_none());
    assert!(pair.env_ref.is_none());
}
