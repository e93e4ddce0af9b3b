use rust_lambda_fed::json::JsonValue;
use rust_lambda_fed::models::{
    Constraints, DecodeError, FederatedIdentity, SpillLocation, Split, TableName,
};
use rust_lambda_fed::Configuration;

#[test]
fn default_test() {
    let c = Configuration::default();
    assert!(c.record_lambda.is_empty());
    assert!(c.metadata_lambda.is_empty());
}

#[test]
fn test_config_setup() {
    let c = Configuration::new("this-is-my-arn".to_string());
    assert_eq!("this-is-my-arn".to_string(), c.record_lambda);
    assert_eq!(c.metadata_lambda, c.record_lambda);
}

#[test]
fn defaults_test() {
    let d = FederatedIdentity::default();
    assert_eq!(String::from("UNKNOWN_ID"), d.id);
    assert_eq!(String::from("UNKNOWN_ACCOUNT"), d.account);
    assert_eq!(String::from("UNKNOWN_PRINCIPAL"), d.principal);

    let tn = TableName::default();
    assert!(tn.table_name.is_empty());
    assert!(tn.schema_name.is_empty());

    let split = Split::create(
        String::from("magrund-ops"),
        String::from("federation-spill"),
    );
    assert!(split.spill_location.directory);
    assert!(split.properties.is_empty());
}

#[test]
fn test_spill_location() {
    let json = r#"
    {
        "@type": "S3SpillLocation",
        "bucket": "magrund-ath-fed",
        "key": "athena-spill//e8300bd6-0737-4dfc-9af3-552fe160054f",
        "directory": true
    }
    "#;

    let sl_val: serde_json::Value = serde_json::from_str(&json).unwrap();
    let parsed = JsonValue::parse(json.as_bytes()).unwrap();
    let sl: SpillLocation = SpillLocation::from_json(&parsed).unwrap();
    assert_eq!("magrund-ath-fed".to_string(), sl.bucket);
    let val: serde_json::Value = serde_json::from_str(&sl.to_json().to_text()).unwrap();
    assert_eq!(sl_val, val);
}

#[test]
fn test_split_serde() {
    let json = r#"{
        "spillLocation": {
            "@type": "S3SpillLocation",
            "bucket": "magrund-ath-fed",
            "key": "athena-spill//e8300bd6-0737-4dfc-9af3-552fe160054f",
            "directory": true
        },
        "encryptionKey": null,
        "properties": {
            "log_group": "/aws/lambda/cwtest",
            "log_stream_bytes": "0",
            "log_stream": "2019/11/16/[$LATEST]05346b61111b4ad696d94ba60e4734b6"
        }
    }"#;

    let sl_val: serde_json::Value = serde_json::from_str(&json).unwrap();
    let parsed = JsonValue::parse(json.as_bytes()).unwrap();
    let sl: Split = Split::from_json(&parsed).unwrap();
    let val: serde_json::Value = serde_json::from_str(&sl.to_json().to_text()).unwrap();
    assert_eq!(sl_val, val);
}

#[test]
fn identity_exact_text() {
    let d = FederatedIdentity::default();
    assert_eq!(
        d.to_json().to_text(),
        r#"{"id":"UNKNOWN_ID","principal":"UNKNOWN_PRINCIPAL","account":"UNKNOWN_ACCOUNT"}"#
    );
}

#[test]
fn identity_missing_field_is_named() {
    let json = r#"{"id":"a","account":"c"}"#;
    let parsed = JsonValue::parse(json.as_bytes()).unwrap();
    let r = FederatedIdentity::from_json(&parsed);
    match r {
        Err(DecodeError::FieldMismatch(f)) => assert_eq!(f, "principal"),
        _ => panic!("expected a field mismatch"),
    }
}

#[test]
fn spill_location_type_tag_defaults() {
    let json = r#"{"bucket":"b","key":"k","directory":false}"#;
    let parsed = JsonValue::parse(json.as_bytes()).unwrap();
    let sl = SpillLocation::from_json(&parsed).unwrap();
    assert_eq!(sl.class_type, "S3SpillLocation");
    assert!(!sl.directory);
}

#[test]
fn split_rejects_non_string_property() {
    let json = r#"{
        "spillLocation": {"bucket":"b","key":"k","directory":true},
        "properties": {"a": 3},
        "encryptionKey": null
    }"#;
    let parsed = JsonValue::parse(json.as_bytes()).unwrap();
    assert!(matches!(Split::from_json(&parsed), Err(DecodeError::Encoding)));
}

#[test]
fn split_rejects_duplicate_property_keys() {
    let json = r#"{
        "spillLocation": {"bucket":"b","key":"k","directory":true},
        "properties": {"a": "1", "a": "2"},
        "encryptionKey": null
    }"#;
    let parsed = JsonValue::parse(json.as_bytes()).unwrap();
    assert!(matches!(Split::from_json(&parsed), Err(DecodeError::Encoding)));
}

#[test]
fn constraints_round_trip() {
    let mut c = Constraints::default();
    c.summary.push(("col".to_string(), "pred".to_string()));
    let text = c.to_json().to_text();
    assert_eq!(text, r#"{"summary":{"col":"pred"}}"#);
    let back = Constraints::from_json(&JsonValue::parse(text.as_bytes()).unwrap()).unwrap();
    assert_eq!(back.summary.len(), 1);
    assert_eq!(back.summary[0].0, "col");
    assert_eq!(back.summary[0].1, "pred");
}
