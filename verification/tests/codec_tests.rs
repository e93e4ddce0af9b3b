use rust_lambda_fed::json::JsonValue;
use rust_lambda_fed::models::{Block, DecodeError, Schema};

const SCHEMA_B64_NEW: &str = "/////0ABAAAQAAAAAAAKAA4ABgANAAgACgAAAAAAAwAQAAAAAAEKAAwAAAAIAAQACgAAAAgAAABEAAAAAQAAAAwAAAAIAAwACAAEAAgAAAAIAAAAFAAAAAoAAABsb2dfc3RyZWFtAAANAAAAcGFydGl0aW9uQ29scwAAAAMAAACMAAAAOAAAAAQAAACS////FAAAABQAAAAUAAAAAAAFARAAAAAAAAAAAAAAAID///8HAAAAbWVzc2FnZQDC////FAAAABQAAAAcAAAAAAACASAAAAAAAAAAAAAAAAgADAAIAAcACAAAAAAAAAFAAAAABAAAAHRpbWUAABIAGAAUABMAEgAMAAAACAAEABIAAAAUAAAAFAAAABgAAAAAAAUBFAAAAAAAAAAAAAAABAAEAAQAAAAKAAAAbG9nX3N0cmVhbQAAAAAAAA==";
const SCHEMA_B64_OLD: &str = "PAEAABAAAAAAAAoADgAGAA0ACAAKAAAAAAADABAAAAAAAQoADAAAAAgABAAKAAAACAAAAEQAAAABAAAADAAAAAgADAAIAAQACAAAAAgAAAAUAAAACgAAAGxvZ19zdHJlYW0AAA0AAABwYXJ0aXRpb25Db2xzAAAAAwAAAIwAAAA4AAAABAAAAJL///8UAAAAFAAAABQAAAAAAAUBEAAAAAAAAAAAAAAAgP///wcAAABtZXNzYWdlAML///8UAAAAFAAAABwAAAAAAAIBIAAAAAAAAAAAAAAACAAMAAgABwAIAAAAAAAAAUAAAAAEAAAAdGltZQAAEgAYABQAEwASAAwAAAAIAAQAEgAAABQAAAAUAAAAGAAAAAAABQEUAAAAAAAAAAAAAAAEAAQABAAAAAoAAABsb2dfc3RyZWFtAAA=";

const BLOCK_SCHEMA_B64: &str = "/////xABAAAQAAAAAAAKAA4ABgANAAgACgAAAAAAAwAQAAAAAAEKAAwAAAAIAAQACgAAAAgAAAAIAAAAAAAAAAMAAACcAAAAPAAAAAQAAACC////FAAAABQAAAAUAAAAAAAFARAAAAAAAAAAAAAAAHD///8JAAAAbG9nX2dyb3VwAAAAtv///xQAAAAUAAAAHAAAAAAAAgEgAAAAAAAAAAAAAAAIAAwACAAHAAgAAAAAAAABQAAAABAAAABsb2dfc3RyZWFtX2J5dGVzAAASABgAFAATABIADAAAAAgABAASAAAAFAAAABQAAAAYAAAAAAAFARQAAAAAAAAAAAAAAAQABAAEAAAACgAAAGxvZ19zdHJlYW0AAA==";
const BLOCK_RECORDS_B64: &str = "/////wgBAAAUAAAAAAAAAAwAFgAOABUAEAAEAAwAAACAAAAAAAAAAAAAAwAQAAAAAAMKABgADAAIAAQACgAAABQAAACYAAAAAQAAAAAAAAAAAAAACAAAAAAAAAAAAAAAAQAAAAAAAAAIAAAAAAAAAAgAAAAAAAAAEAAAAAAAAAA0AAAAAAAAAEgAAAAAAAAAAQAAAAAAAABQAAAAAAAAAAgAAAAAAAAAWAAAAAAAAAABAAAAAAAAAGAAAAAAAAAACAAAAAAAAABoAAAAAAAAABIAAAAAAAAAAAAAAAMAAAABAAAAAAAAAAAAAAAAAAAAAQAAAAAAAAAAAAAAAAAAAAEAAAAAAAAAAAAAAAAAAAABAAAAAAAAAAAAAAA0AAAAMjAxOS8xMS8xNi9bJExBVEVTVF0wNTM0NmI2MTExMWI0YWQ2OTZkOTRiYTYwZTQ3MzRiNgAAAAABAAAAAAAAAAAAAAAAAAAAAQAAAAAAAAAAAAAAEgAAAC9hd3MvbGFtYmRhL2N3dGVzdAAAAAAAAA==";

fn block_json_text() -> String {
    format!(
        r#"{{"schema": "{}","records": "{}","aId": "52fb8f5f-e2d0-4345-84d4-5f651bee361b"}}"#,
        BLOCK_SCHEMA_B64, BLOCK_RECORDS_B64
    )
}

#[test]
fn test_schema_deserializing() {
    let mut schema_new = Schema::new_from_string(SCHEMA_B64_NEW.to_owned());
    assert!(schema_new.arrow_schema.is_none());
    let the_schema = schema_new.get_schema();
    assert!(the_schema.is_some());

    let mut schema_old = Schema::new_from_string(SCHEMA_B64_OLD.to_owned());
    assert!(schema_old.arrow_schema.is_none());
    assert!(schema_old.get_schema().is_some());
}

#[test]
fn test_block_deserializing() {
    let json = block_json_text();
    let parsed = JsonValue::parse(json.as_bytes()).unwrap();
    let block: Block = Block::from_json(&parsed).unwrap();
    assert_eq!(1, block.records.num_rows());
    assert_eq!(3, block.records.num_columns());
}

#[test]
fn block_columns_carry_schema_and_buffers() {
    let json = block_json_text();
    let parsed = JsonValue::parse(json.as_bytes()).unwrap();
    let block = Block::from_json(&parsed).unwrap();
    let cols = &block.records.columns;
    assert_eq!(cols[0].field.name, "log_stream");
    assert_eq!(cols[1].field.name, "log_stream_bytes");
    assert_eq!(cols[2].field.name, "log_group");
    // a variable-width column carries validity, offsets and data
    assert_eq!(cols[0].data.len(), 3);
    assert_eq!(cols[1].data.len(), 2);
    assert_eq!(cols[2].data.len(), 3);
    assert_eq!(cols[0].data[2].len(), 52);
    assert_eq!(cols[2].data[2].len(), 18);
}

#[test]
fn block_round_trip_is_byte_identical() {
    let json = block_json_text();
    let parsed = JsonValue::parse(json.as_bytes()).unwrap();
    let block = Block::from_json(&parsed).unwrap();
    let text1 = block.to_json().to_text();
    let again = Block::from_json(&JsonValue::parse(text1.as_bytes()).unwrap()).unwrap();
    let text2 = again.to_json().to_text();
    assert_eq!(text1, text2);
    assert_eq!(again.records.num_rows(), 1);
    assert_eq!(again.records.num_columns(), 3);
}

#[test]
fn corrupted_records_fail_without_panic() {
    let shortened = &BLOCK_RECORDS_B64[..BLOCK_RECORDS_B64.len() - 1];
    let json = format!(
        r#"{{"schema": "{}","records": "{}","aId": "x"}}"#,
        BLOCK_SCHEMA_B64, shortened
    );
    let parsed = JsonValue::parse(json.as_bytes()).unwrap();
    assert!(matches!(
        Block::from_json(&parsed),
        Err(DecodeError::Encoding)
    ));
}

#[test]
fn block_missing_records_field_fails() {
    let json = format!(r#"{{"schema": "{}","aId": "x"}}"#, BLOCK_SCHEMA_B64);
    let parsed = JsonValue::parse(json.as_bytes()).unwrap();
    assert!(matches!(
        Block::from_json(&parsed),
        Err(DecodeError::Encoding)
    ));
}

#[test]
fn schema_decode_is_idempotent() {
    let mut schema = Schema::new_from_string(SCHEMA_B64_NEW.to_owned());
    let first_names: Vec<String> = schema
        .get_schema()
        .unwrap()
        .fields
        .iter()
        .map(|f| f.name.clone())
        .collect();
    assert!(schema.arrow_schema.is_some());
    let second_names: Vec<String> = schema
        .get_schema()
        .unwrap()
        .fields
        .iter()
        .map(|f| f.name.clone())
        .collect();
    assert_eq!(first_names, second_names);
    assert_eq!(first_names, vec!["log_stream", "time", "message"]);
}

#[test]
fn dual_framings_decode_to_the_same_schema() {
    let mut schema_new = Schema::new_from_string(SCHEMA_B64_NEW.to_owned());
    let mut schema_old = Schema::new_from_string(SCHEMA_B64_OLD.to_owned());
    {
        let n = schema_new.get_schema().unwrap();
        let o = schema_old.get_schema().unwrap();
        assert_eq!(n.fields.len(), o.fields.len());
        for (fa, fb) in n.fields.iter().zip(o.fields.iter()) {
            assert_eq!(fa.name, fb.name);
            assert_eq!(fa.nullable, fb.nullable);
            assert_eq!(fa.dtype, fb.dtype);
        }
        assert_eq!(n.metadata, o.metadata);
        assert_eq!(n.metadata.len(), 1);
        assert_eq!(n.metadata[0].0, "partitionCols");
        assert_eq!(n.metadata[0].1, "log_stream");
    }
}

#[test]
fn unpadded_base64_schema_decodes() {
    let unpadded = SCHEMA_B64_NEW.trim_end_matches('=');
    assert!(unpadded.len() % 4 != 0);
    let mut schema = Schema::new_from_string(unpadded.to_owned());
    let decoded = schema.get_schema();
    assert!(decoded.is_some());
    assert_eq!(decoded.unwrap().fields.len(), 3);
}

#[test]
fn bad_base64_schema_yields_no_schema() {
    let mut schema = Schema::new_from_string("!!not-base64!!".to_owned());
    assert!(schema.get_schema().is_none());
    assert!(schema.arrow_schema.is_none());
}

#[test]
fn json_parser_reads_the_grammar() {
    let v = JsonValue::parse(br#" {"a": [1, -2, true, null, "x\nA"], "b": {}} "#).unwrap();
    match v.get("a").unwrap() {
        JsonValue::Arr(items) => {
            assert_eq!(items.len(), 5);
            assert!(matches!(items[0], JsonValue::Int(1)));
            assert!(matches!(items[1], JsonValue::Int(-2)));
            assert!(matches!(items[2], JsonValue::Bool(true)));
            assert!(matches!(items[3], JsonValue::Null));
            match &items[4] {
                JsonValue::Str(s) => assert_eq!(s, "x\nA"),
                _ => panic!("expected a string"),
            }
        }
        _ => panic!("expected an array"),
    }
    assert!(matches!(v.get("b").unwrap(), JsonValue::Obj(m) if m.is_empty()));
}

#[test]
fn json_parser_rejects_bad_input() {
    assert!(JsonValue::parse(b"{\"a\": }").is_none());
    assert!(JsonValue::parse(b"[1,]").is_none());
    assert!(JsonValue::parse(b"12 34").is_none());
    assert!(JsonValue::parse(b"1.").is_none());
    assert!(JsonValue::parse(b"1e").is_none());
    assert!(JsonValue::parse(b"-").is_none());
    assert!(JsonValue::parse(b"").is_none());
}

#[test]
fn json_parser_reads_raw_utf8_strings() {
    match JsonValue::parse("\"caf\u{e9} \u{4e16}\u{754c} \u{1F600}\"".as_bytes()).unwrap() {
        JsonValue::Str(s) => assert_eq!(s, "caf\u{e9} \u{4e16}\u{754c} \u{1F600}"),
        _ => panic!("expected a string"),
    }
    // a raw key reads too, and the escaped form reads back the same value
    let v = JsonValue::parse("{\"caf\u{e9}\": 1}".as_bytes()).unwrap();
    assert!(matches!(v.get("caf\u{e9}"), Some(JsonValue::Int(1))));
    match JsonValue::parse(br#""caf\u00e9""#).unwrap() {
        JsonValue::Str(s) => assert_eq!(s, "caf\u{e9}"),
        _ => panic!("expected a string"),
    }
}

#[test]
fn json_parser_rejects_malformed_utf8() {
    // a lone continuation byte, a cut-short sequence, an overlong
    // encoding, an encoded surrogate, and a value past the last scalar
    assert!(JsonValue::parse(b"\"\x80\"").is_none());
    assert!(JsonValue::parse(b"\"\xC3\"").is_none());
    assert!(JsonValue::parse(b"\"\xC0\xAF\"").is_none());
    assert!(JsonValue::parse(b"\"\xED\xA0\x80\"").is_none());
    assert!(JsonValue::parse(b"\"\xF4\x90\x80\x80\"").is_none());
}

#[test]
fn json_parser_carries_other_numbers_opaquely() {
    match JsonValue::parse(b"1.5").unwrap() {
        JsonValue::Num(t) => assert_eq!(t, "1.5"),
        _ => panic!("expected an opaque number"),
    }
    match JsonValue::parse(b"-2.5e-10").unwrap() {
        JsonValue::Num(t) => assert_eq!(t, "-2.5e-10"),
        _ => panic!("expected an opaque number"),
    }
    match JsonValue::parse(b"99999999999999999999999999").unwrap() {
        JsonValue::Num(t) => assert_eq!(t, "99999999999999999999999999"),
        _ => panic!("expected an opaque number"),
    }
    // the opaque text is written back verbatim
    let v = JsonValue::parse(b"[1, 2.5e3]").unwrap();
    assert_eq!(v.to_text(), "[1,2.5e3]");
}

#[test]
fn json_printer_escapes_and_round_trips() {
    let v = JsonValue::Str("a\"b\\c\n\u{e9}\u{1F600}".to_owned());
    let text = v.to_text();
    assert_eq!(text, r#""a\"b\\c\u000a\u00e9\ud83d\ude00""#);
    let sv: serde_json::Value = serde_json::from_str(&text).unwrap();
    assert_eq!(sv, serde_json::Value::String("a\"b\\c\n\u{e9}\u{1F600}".to_owned()));
    match JsonValue::parse(text.as_bytes()).unwrap() {
        JsonValue::Str(s) => assert_eq!(s, "a\"b\\c\n\u{e9}\u{1F600}"),
        _ => panic!("expected a string"),
    }
}

#[test]
fn json_int_bounds() {
    match JsonValue::parse(b"-9223372036854775808").unwrap() {
        JsonValue::Int(n) => assert_eq!(n, i64::MIN),
        _ => panic!("expected an integer"),
    }
    match JsonValue::parse(b"9223372036854775807").unwrap() {
        JsonValue::Int(n) => assert_eq!(n, i64::MAX),
        _ => panic!("expected an integer"),
    }
    // one past the largest 64-bit integer is carried opaquely
    match JsonValue::parse(b"9223372036854775808").unwrap() {
        JsonValue::Num(t) => assert_eq!(t, "9223372036854775808"),
        _ => panic!("expected an opaque number"),
    }
}
