use rust_lambda_fed::api::{
    get_splits_body, get_table_body, list_schemas_body, list_tables_body,
    parse_get_splits_response, parse_get_table_response, parse_list_schemas_response,
    parse_list_tables_response,
};
use rust_lambda_fed::json::JsonValue;
use rust_lambda_fed::models::{Block, Constraints, DecodeError, TableName};
use rust_lambda_fed::requests::{
    GetSplitsRequest, GetTableLayoutRequest, GetTableRequest, ListSchemasRequest,
    ReadRecordRequest,
};

const SCHEMA_B64_NEW: &str = "/////0ABAAAQAAAAAAAKAA4ABgANAAgACgAAAAAAAwAQAAAAAAEKAAwAAAAIAAQACgAAAAgAAABEAAAAAQAAAAwAAAAIAAwACAAEAAgAAAAIAAAAFAAAAAoAAABsb2dfc3RyZWFtAAANAAAAcGFydGl0aW9uQ29scwAAAAMAAACMAAAAOAAAAAQAAACS////FAAAABQAAAAUAAAAAAAFARAAAAAAAAAAAAAAAID///8HAAAAbWVzc2FnZQDC////FAAAABQAAAAcAAAAAAACASAAAAAAAAAAAAAAAAgADAAIAAcACAAAAAAAAAFAAAAABAAAAHRpbWUAABIAGAAUABMAEgAMAAAACAAEABIAAAAUAAAAFAAAABgAAAAAAAUBFAAAAAAAAAAAAAAABAAEAAQAAAAKAAAAbG9nX3N0cmVhbQAAAAAAAA==";

#[test]
fn test_class_type_macro() {
    assert_eq!(
        "GetTableRequest".to_string(),
        GetTableRequest::class_type_def()
    );
}

#[test]
fn json_serializer() {
    let d = rust_lambda_fed::models::FederatedIdentity::default();
    let serialized = d.to_json().to_text();
    println!("{}", serialized);
    assert!(!serialized.is_empty());

    let r = ReadRecordRequest::default();
    let r_serialized = r.to_json().to_text();
    println!("{}", r_serialized);
    assert!(!r_serialized.is_empty());

    let mut r = ListSchemasRequest::default();
    r.query_id = "myqueryid".to_owned();
    println!("{}", r.to_json().to_text());

    let tn = TableName::new("Martin".to_string(), "Grund".to_string());
    let cols = vec!["Col1".to_string()];
    let schema_new =
        rust_lambda_fed::models::Schema::new_from_string(SCHEMA_B64_NEW.to_owned());

    let gtl = GetTableLayoutRequest::new(
        "query_id".to_string(),
        "catalog_name".to_string(),
        tn,
        Constraints::default(),
        schema_new,
        cols,
    );

    println!("{}", gtl.to_json().to_text());
}

#[test]
fn json_get_split_request() {
    let json = r#"{
            "identity":{"id":"UNKNOWN_ID","principal":"UNKNOWN_PRINCIPAL","account":"UNKNOWN_ACCOUNT"},
            "queryId":"query_id",
            "catalogName":"catalog_name",
            "tableName":{"schemaName":"Martin","tableName":"Grund"},
            "partitions": {
                "schema": "/////xABAAAQAAAAAAAKAA4ABgANAAgACgAAAAAAAwAQAAAAAAEKAAwAAAAIAAQACgAAAAgAAAAIAAAAAAAAAAMAAACcAAAAPAAAAAQAAACC////FAAAABQAAAAUAAAAAAAFARAAAAAAAAAAAAAAAHD///8JAAAAbG9nX2dyb3VwAAAAtv///xQAAAAUAAAAHAAAAAAAAgEgAAAAAAAAAAAAAAAIAAwACAAHAAgAAAAAAAABQAAAABAAAABsb2dfc3RyZWFtX2J5dGVzAAASABgAFAATABIADAAAAAgABAASAAAAFAAAABQAAAAYAAAAAAAFARQAAAAAAAAAAAAAAAQABAAEAAAACgAAAGxvZ19zdHJlYW0AAA==",
                "records": "/////wgBAAAUAAAAAAAAAAwAFgAOABUAEAAEAAwAAACAAAAAAAAAAAAAAwAQAAAAAAMKABgADAAIAAQACgAAABQAAACYAAAAAQAAAAAAAAAAAAAACAAAAAAAAAAAAAAAAQAAAAAAAAAIAAAAAAAAAAgAAAAAAAAAEAAAAAAAAAA0AAAAAAAAAEgAAAAAAAAAAQAAAAAAAABQAAAAAAAAAAgAAAAAAAAAWAAAAAAAAAABAAAAAAAAAGAAAAAAAAAACAAAAAAAAABoAAAAAAAAABIAAAAAAAAAAAAAAAMAAAABAAAAAAAAAAAAAAAAAAAAAQAAAAAAAAAAAAAAAAAAAAEAAAAAAAAAAAAAAAAAAAABAAAAAAAAAAAAAAA0AAAAMjAxOS8xMS8xNi9bJExBVEVTVF0wNTM0NmI2MTExMWI0YWQ2OTZkOTRiYTYwZTQ3MzRiNgAAAAABAAAAAAAAAAAAAAAAAAAAAQAAAAAAAAAAAAAAEgAAAC9hd3MvbGFtYmRhL2N3dGVzdAAAAAAAAA==",
                "aId": "52fb8f5f-e2d0-4345-84d4-5f651bee361b"
            },
            "partitionCols": [
                "log_stream"
            ],
            "constraints":{"summary":{}},
            "continuationToken" : "abc",
            "@type" : "GetTableLayoutRequest"
        }"#;

    let val: serde_json::Value = serde_json::from_str(&json).unwrap();
    let parsed = JsonValue::parse(json.as_bytes()).unwrap();
    let req = GetSplitsRequest::from_json(&parsed).unwrap();

    let new_val: serde_json::Value = serde_json::from_str(&req.to_json().to_text()).unwrap();
    assert_eq!(val, new_val);
}

#[test]
fn list_schemas_body_is_the_default_request() {
    let body = list_schemas_body();
    let v: serde_json::Value = serde_json::from_str(&body).unwrap();
    let expected: serde_json::Value = serde_json::from_str(
        r#"{"identity":{"id":"UNKNOWN_ID","principal":"UNKNOWN_PRINCIPAL","account":"UNKNOWN_ACCOUNT"},
            "queryId":"","catalogName":"","@type":"ListSchemasRequest"}"#,
    )
    .unwrap();
    assert_eq!(v, expected);
}

#[test]
fn list_tables_body_carries_the_names() {
    let body = list_tables_body(
        &"".to_owned(),
        &"cat".to_owned(),
        &"logs".to_owned(),
    );
    let v: serde_json::Value = serde_json::from_str(&body).unwrap();
    assert_eq!(v["schemaName"], "logs");
    assert_eq!(v["catalogName"], "cat");
    assert_eq!(v["@type"], "ListTablesRequest");
}

#[test]
fn get_table_body_builds_the_table_name() {
    let body = get_table_body("c".to_owned(), "s".to_owned(), "t".to_owned());
    let v: serde_json::Value = serde_json::from_str(&body).unwrap();
    assert_eq!(v["tableName"]["schemaName"], "s");
    assert_eq!(v["tableName"]["tableName"], "t");
    assert_eq!(v["@type"], "GetTableRequest");
}

#[test]
fn splits_request_token_omission() {
    let mk = |token: Option<String>| {
        let block_json = format!(
            r#"{{"schema":"{}","records":"{}","aId":"a"}}"#,
            BLOCK_SCHEMA_B64, BLOCK_RECORDS_B64
        );
        let partitions =
            Block::from_json(&JsonValue::parse(block_json.as_bytes()).unwrap()).unwrap();
        get_splits_body(
            "q".to_owned(),
            "c".to_owned(),
            TableName::new("s".to_owned(), "t".to_owned()),
            partitions,
            vec!["log_stream".to_owned()],
            Constraints::default(),
            token,
        )
    };
    let without = mk(None);
    assert!(!without.contains("continuationToken"));
    let with = mk(Some("abc".to_owned()));
    let v: serde_json::Value = serde_json::from_str(&with).unwrap();
    assert_eq!(v["continuationToken"], "abc");
}

const BLOCK_SCHEMA_B64: &str = "/////xABAAAQAAAAAAAKAA4ABgANAAgACgAAAAAAAwAQAAAAAAEKAAwAAAAIAAQACgAAAAgAAAAIAAAAAAAAAAMAAACcAAAAPAAAAAQAAACC////FAAAABQAAAAUAAAAAAAFARAAAAAAAAAAAAAAAHD///8JAAAAbG9nX2dyb3VwAAAAtv///xQAAAAUAAAAHAAAAAAAAgEgAAAAAAAAAAAAAAAIAAwACAAHAAgAAAAAAAABQAAAABAAAABsb2dfc3RyZWFtX2J5dGVzAAASABgAFAATABIADAAAAAgABAASAAAAFAAAABQAAAAYAAAAAAAFARQAAAAAAAAAAAAAAAQABAAEAAAACgAAAGxvZ19zdHJlYW0AAA==";
const BLOCK_RECORDS_B64: &str = "/////wgBAAAUAAAAAAAAAAwAFgAOABUAEAAEAAwAAACAAAAAAAAAAAAAAwAQAAAAAAMKABgADAAIAAQACgAAABQAAACYAAAAAQAAAAAAAAAAAAAACAAAAAAAAAAAAAAAAQAAAAAAAAAIAAAAAAAAAAgAAAAAAAAAEAAAAAAAAAA0AAAAAAAAAEgAAAAAAAAAAQAAAAAAAABQAAAAAAAAAAgAAAAAAAAAWAAAAAAAAAABAAAAAAAAAGAAAAAAAAAACAAAAAAAAABoAAAAAAAAABIAAAAAAAAAAAAAAAMAAAABAAAAAAAAAAAAAAAAAAAAAQAAAAAAAAAAAAAAAAAAAAEAAAAAAAAAAAAAAAAAAAABAAAAAAAAAAAAAAA0AAAAMjAxOS8xMS8xNi9bJExBVEVTVF0wNTM0NmI2MTExMWI0YWQ2OTZkOTRiYTYwZTQ3MzRiNgAAAAABAAAAAAAAAAAAAAAAAAAAAQAAAAAAAAAAAAAAEgAAAC9hd3MvbGFtYmRhL2N3dGVzdAAAAAAAAA==";

#[test]
fn parse_list_schemas_reply() {
    let payload =
        br#"{"@type":"ListSchemasResponse","catalogName":"c","schemas":["a","b"],"requestType":"LIST_SCHEMAS"}"#;
    let r = parse_list_schemas_response(payload).unwrap();
    assert_eq!(r.schemas, vec!["a".to_string(), "b".to_string()]);
    assert_eq!(r.catalog_name, "c");
    assert_eq!(r.class_type, "ListSchemasResponse");
}

#[test]
fn parse_list_schemas_reply_without_tag_defaults() {
    let payload = br#"{"catalogName":"c","schemas":[],"requestType":"LIST_SCHEMAS"}"#;
    let r = parse_list_schemas_response(payload).unwrap();
    assert_eq!(r.class_type, "ListSchemasResponse");
    assert!(r.schemas.is_empty());
}

#[test]
fn parse_list_schemas_reply_missing_field_fails() {
    let payload = br#"{"catalogName":"c","schemas":[]}"#;
    match parse_list_schemas_response(payload) {
        Err(DecodeError::FieldMismatch(f)) => assert_eq!(f, "requestType"),
        _ => panic!("expected a field mismatch"),
    }
}

#[test]
fn parse_list_tables_reply() {
    let payload = br#"{"catalogName":"c","requestType":"LIST_TABLES","extra":1,
        "tables":[{"schemaName":"s","tableName":"t"},{"schemaName":"s2","tableName":"t2"}]}"#;
    let r = parse_list_tables_response(payload).unwrap();
    assert_eq!(r.tables.len(), 2);
    assert_eq!(r.tables[1].schema_name, "s2");
    assert_eq!(r.tables[1].table_name, "t2");
}

#[test]
fn parse_get_table_reply() {
    let payload = format!(
        r#"{{"catalogName":"c","tableName":{{"schemaName":"s","tableName":"t"}},
            "schema":{{"schema":"{}"}},"requestType":"GET_TABLE"}}"#,
        SCHEMA_B64_NEW
    );
    let mut r = parse_get_table_response(payload.as_bytes()).unwrap();
    assert_eq!(r.table_name.schema_name, "s");
    assert!(r.schema.arrow_schema.is_none());
    let decoded = r.schema.get_schema().unwrap();
    assert_eq!(decoded.fields.len(), 3);
}

#[test]
fn parse_get_splits_reply() {
    let payload = br#"{"requestType":"GET_SPLITS","continuationToken":"tok","splits":[
        {"spillLocation":{"@type":"S3SpillLocation","bucket":"b","key":"k","directory":true},
         "properties":{"p":"v"},"encryptionKey":null}]}"#;
    let r = parse_get_splits_response(payload).unwrap();
    assert_eq!(r.splits.len(), 1);
    assert_eq!(r.splits[0].spill_location.bucket, "b");
    assert_eq!(r.continuation_token, Some("tok".to_string()));

    let last_page = br#"{"requestType":"GET_SPLITS","splits":[]}"#;
    let r2 = parse_get_splits_response(last_page).unwrap();
    assert!(r2.splits.is_empty());
    assert!(r2.continuation_token.is_none());
}

#[test]
fn parse_reply_ignores_unknown_number_fields() {
    let payload = br#"{"catalogName":"c","schemas":["a"],"requestType":"LIST_SCHEMAS",
        "elapsedSeconds":0.25,"attempt":99999999999999999999999999}"#;
    let r = parse_list_schemas_response(payload).unwrap();
    assert_eq!(r.schemas, vec!["a".to_string()]);
}

#[test]
fn parse_reply_that_is_not_json_fails() {
    assert!(matches!(
        parse_list_schemas_response(b"not json"),
        Err(DecodeError::Encoding)
    ));
}
