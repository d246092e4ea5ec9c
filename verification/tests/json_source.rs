use mint_cli::data::json::{version_column, JsonDataSource, JsonValue};
use mint_cli::data::DataSource;
use mint_cli::layout::text::{parse_integer, split_numbers};
use mint_cli::layout::value::{DataValue, ValueSource};
use serde_json::Value;

/// What the database answers for each version: one JSON object.
fn stored(version: &str) -> &'static str {
    match version {
        "Default" => {
            r#"{
                "TemperatureMax": 50,
                "Value2": 2,
                "enabled": true,
                "arraySpaces": "0 100 200 300",
                "arrayCommas": "1,2,3,4",
                "arraySemicolons": "10; 20; 30",
                "arrayMixed": "5, 10; 15 20",
                "arraySingle": "42",
                "arrayFloats": "1.5 2.5 3.5",
                "arrayNegative": "-1 -2 -3",
                "literalString": "hello world",
                "nativeArray1d": [10, 20, 30],
                "nativeArray2d": [[1, 2], [3, 4], [5, 6]]
            }"#
        }
        "Debug" => r#"{ "TemperatureMax": 60, "debugMode": true }"#,
        "VarA" => r#"{ "TemperatureMax": 55, "enabled": false }"#,
        _ => "null",
    }
}

fn listed_numbers(text: &str) -> Option<Vec<DataValue>> {
    split_numbers(text)
        .iter()
        .map(|piece| {
            parse_integer(piece).or_else(|| {
                piece
                    .parse::<f64>()
                    .map(|f| DataValue::F64(f.to_bits()))
                    .ok()
            })
        })
        .collect()
}

fn converted(value: &Value) -> JsonValue {
    match value {
        Value::Null => JsonValue::Null,
        Value::Bool(b) => JsonValue::Bool(*b),
        Value::Number(n) => match (n.as_u64(), n.as_i64(), n.as_f64()) {
            (Some(u), _, _) => JsonValue::PosInt(u),
            (_, Some(i), _) => JsonValue::NegInt(i),
            (_, _, f) => JsonValue::Float(f.unwrap_or(f64::NAN).to_bits()),
        },
        Value::String(s) => JsonValue::Text {
            text: s.clone(),
            numbers: listed_numbers(s),
        },
        Value::Array(items) => JsonValue::Array(items.iter().map(converted).collect()),
        Value::Object(entries) => JsonValue::Object(
            entries
                .iter()
                .map(|(name, entry)| (name.clone(), converted(entry)))
                .collect(),
        ),
    }
}

fn source(variants: &str) -> JsonDataSource {
    let mut version_columns = Vec::new();
    for version in variants.split('/') {
        let answer: Value = serde_json::from_str(stored(version)).expect("stored JSON");
        version_columns
            .push(version_column(&converted(&answer), &[], version).expect("datasource load"));
    }
    JsonDataSource { version_columns }
}

fn list(ds: &JsonDataSource, name: &str) -> Vec<DataValue> {
    match ds.retrieve_1d_array_or_string(name).unwrap() {
        ValueSource::Array(arr) => arr,
        _ => panic!("expected array"),
    }
}

#[test]
fn postgres_retrieve_single_value_priority_order() {
    let ds = source("VarA/Debug/Default");

    // VarA has TemperatureMax=55, should take priority
    let value = ds.retrieve_single_value("TemperatureMax").unwrap();
    assert!(matches!(value, DataValue::U64(55)));

    // VarA has enabled=false
    let value = ds.retrieve_single_value("enabled").unwrap();
    assert!(matches!(value, DataValue::Bool(false)));

    // debugMode only in Debug
    let value = ds.retrieve_single_value("debugMode").unwrap();
    assert!(matches!(value, DataValue::Bool(true)));

    // Value2 only in Default
    let value = ds.retrieve_single_value("Value2").unwrap();
    assert!(matches!(value, DataValue::U64(2)));
}

#[test]
fn postgres_retrieve_single_value_fallback() {
    let ds = source("Debug/Default");

    // Debug has TemperatureMax=60, should take priority over Default's 50
    let value = ds.retrieve_single_value("TemperatureMax").unwrap();
    assert!(matches!(value, DataValue::U64(60)));

    // enabled not in Debug, falls back to Default's true
    let value = ds.retrieve_single_value("enabled").unwrap();
    assert!(matches!(value, DataValue::Bool(true)));
}

#[test]
fn postgres_retrieve_missing_key_errors() {
    let ds = source("Default");

    let result = ds.retrieve_single_value("NonExistent");
    assert!(result.is_err());
    assert_eq!(
        result.unwrap_err().message(),
        "While retrieving 'NonExistent': Retrieval error: key not found in any version."
    );
}

#[test]
fn postgres_retrieve_1d_array_space_delimited() {
    let arr = list(&source("Default"), "arraySpaces");
    assert_eq!(arr.len(), 4);
    assert!(matches!(arr[0], DataValue::U64(0)));
    assert!(matches!(arr[3], DataValue::U64(300)));
}

#[test]
fn postgres_retrieve_1d_array_comma_delimited() {
    let arr = list(&source("Default"), "arrayCommas");
    assert_eq!(arr.len(), 4);
    assert!(matches!(arr[..], [
        DataValue::U64(1),
        DataValue::U64(2),
        DataValue::U64(3),
        DataValue::U64(4)
    ]));
}

#[test]
fn postgres_retrieve_1d_array_mixed_delimiters() {
    let arr = list(&source("Default"), "arrayMixed");
    assert_eq!(arr.len(), 4);
    assert!(matches!(arr[..], [
        DataValue::U64(5),
        DataValue::U64(10),
        DataValue::U64(15),
        DataValue::U64(20)
    ]));
    let arr = list(&source("Default"), "arraySemicolons");
    assert!(matches!(arr[..], [
        DataValue::U64(10),
        DataValue::U64(20),
        DataValue::U64(30)
    ]));
}

#[test]
fn postgres_retrieve_1d_array_single_value() {
    let arr = list(&source("Default"), "arraySingle");
    assert_eq!(arr.len(), 1);
    assert!(matches!(arr[0], DataValue::U64(42)));
}

#[test]
fn postgres_retrieve_1d_array_floats() {
    let arr = list(&source("Default"), "arrayFloats");
    assert_eq!(arr.len(), 3);
    assert!(matches!(arr[0], DataValue::F64(f) if (f64::from_bits(f) - 1.5).abs() < 0.001));
    assert!(matches!(arr[2], DataValue::F64(f) if f == 3.5f64.to_bits()));
}

#[test]
fn postgres_retrieve_1d_array_negative() {
    let arr = list(&source("Default"), "arrayNegative");
    assert_eq!(arr.len(), 3);
    assert!(matches!(arr[0], DataValue::I64(-1)));
}

#[test]
fn postgres_retrieve_1d_literal_string() {
    let value = source("Default")
        .retrieve_1d_array_or_string("literalString")
        .unwrap();
    let ValueSource::Single(DataValue::Str(s)) = value else {
        panic!("expected single string");
    };
    assert_eq!(s, "hello world");
}

#[test]
fn postgres_retrieve_1d_native_json_array() {
    let arr = list(&source("Default"), "nativeArray1d");
    assert_eq!(arr.len(), 3);
    assert!(matches!(arr[0], DataValue::U64(10)));
    assert!(matches!(arr[1], DataValue::U64(20)));
    assert!(matches!(arr[2], DataValue::U64(30)));
}

#[test]
fn postgres_retrieve_2d_native_json_array() {
    let value = source("Default").retrieve_2d_array("nativeArray2d").unwrap();
    assert_eq!(value.len(), 3);
    assert_eq!(value[0].len(), 2);
    assert!(matches!(value[0][0], DataValue::U64(1)));
    assert!(matches!(value[0][1], DataValue::U64(2)));
    assert!(matches!(value[2][0], DataValue::U64(5)));
    assert!(matches!(value[2][1], DataValue::U64(6)));
}

#[test]
fn a_version_without_an_object_is_refused() {
    let answer: Value = serde_json::from_str(stored("Unknown")).unwrap();
    let err = version_column(&converted(&answer), &[], "Unknown").unwrap_err();
    assert_eq!(
        err.message(),
        "Retrieval error: expected object at data_path for version 'Unknown'."
    );
}
