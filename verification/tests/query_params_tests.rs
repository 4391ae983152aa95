use capti::errors::CaptiError;
use capti::m_value::MValue;
use capti::query_params::QueryParams;
use capti::variables::VariableMap;

fn decode_component(s: &str) -> String {
    let bytes = s.as_bytes();
    let mut out: Vec<u8> = Vec::new();
    let mut i: usize = 0;
    while i < bytes.len() {
        if bytes[i] == b'%' && i + 2 < bytes.len() {
            let hi = (bytes[i + 1] as char).to_digit(16).unwrap() as u8;
            let lo = (bytes[i + 2] as char).to_digit(16).unwrap() as u8;
            out.push(hi * 16 + lo);
            i += 3;
        } else {
            out.push(bytes[i]);
            i += 1;
        }
    }
    String::from_utf8(out).unwrap()
}

fn decode_query_string(qs: &str) -> Vec<(String, String)> {
    let trimmed = qs.strip_prefix('?').unwrap_or(qs);
    let mut pairs: Vec<(String, String)> = Vec::new();
    if trimmed.is_empty() {
        return pairs;
    }
    for part in trimmed.split('&') {
        let mut halves = part.splitn(2, '=');
        let k = decode_component(halves.next().unwrap());
        let v = decode_component(halves.next().unwrap());
        pairs.push((k, v));
    }
    pairs.sort();
    pairs
}

#[test]
fn properly_formats_appended() {
    let url = "http://example.com";

    let mut query_params = QueryParams::default();
    query_params.insert("key".to_string(), "value".to_string());
    query_params.insert("key2".to_string(), "value2".to_string());

    let expected_possibilities = vec![
        "http://example.com?key=value&key2=value2",
        "http://example.com?key2=value2&key=value",
    ];

    let actual = format!("{}{}", url, &query_params.as_query_string());
    let actual = actual.as_str();

    assert!(expected_possibilities.contains(&actual));
}

#[test]
fn properly_encodes() {
    let url = "http://example.com";

    let mut query_params = QueryParams::default();
    query_params.insert("key".to_string(), "value with spaces".to_string());
    query_params.insert("key2".to_string(), "symbols?&?&".to_string());

    let expected_possibilities = vec![
        "http://example.com?key=value%20with%20spaces&key2=symbols%3F%26%3F%26",
        "http://example.com?key2=symbols%3F%26%3F%26&key=value%20with%20spaces",
    ];

    let actual = format!("{}{}", url, &query_params.as_query_string());
    let actual = actual.as_str();

    assert!(expected_possibilities.contains(&actual));
}

#[test]
fn query_string_round_trip_is_order_independent() {
    let mut forward = QueryParams::default();
    forward.insert("key".to_string(), "value".to_string());
    forward.insert("key2".to_string(), "value2".to_string());

    let mut backward = QueryParams::default();
    backward.insert("key2".to_string(), "value2".to_string());
    backward.insert("key".to_string(), "value".to_string());

    let original = vec![
        ("key".to_string(), "value".to_string()),
        ("key2".to_string(), "value2".to_string()),
    ];
    assert_eq!(decode_query_string(&forward.as_query_string()), original);
    assert_eq!(decode_query_string(&backward.as_query_string()), original);
}

#[test]
fn round_trip_restores_reserved_characters() {
    let mut qp = QueryParams::default();
    qp.insert("q".to_string(), "a b?c&d".to_string());
    let qs = qp.as_query_string();
    assert_eq!(qs, "?q=a%20b%3Fc%26d");
    assert_eq!(
        decode_query_string(&qs),
        vec![("q".to_string(), "a b?c&d".to_string())]
    );
}

#[test]
fn empty_params_give_empty_query_string() {
    let qp = QueryParams::default();
    assert_eq!(qp.as_query_string(), "");
}

#[test]
fn insert_overwrites_same_key() {
    let mut qp = QueryParams::default();
    qp.insert("k".to_string(), "v1".to_string());
    qp.insert("k".to_string(), "v2".to_string());
    assert_eq!(qp.len(), 1);
    assert_eq!(qp.as_query_string(), "?k=v2");
}

#[test]
fn populate_variables_substitutes_strings() {
    let mut vars = VariableMap::new();
    vars.capture("id".to_string(), MValue::Str("42".to_string()));
    let mut qp = QueryParams::default();
    qp.insert("user".to_string(), "{id}".to_string());
    qp.insert("page".to_string(), "p-{id}".to_string());
    assert!(qp.populate_variables(&vars).is_ok());
    assert_eq!(qp.as_query_string(), "?user=42&page=p-42");
}

#[test]
fn populate_variables_rejects_non_string_value() {
    let mut vars = VariableMap::new();
    vars.capture(
        "obj".to_string(),
        MValue::Object(vec![("a".to_string(), MValue::Number(1))]),
    );
    let mut qp = QueryParams::default();
    qp.insert("user".to_string(), "{obj}".to_string());
    match qp.populate_variables(&vars) {
        Err(CaptiError::VariableError(_)) => {}
        other => panic!("expected a variable error, got {:?}", other),
    }
}

#[test]
fn populate_variables_rejects_undefined_name() {
    let vars = VariableMap::new();
    let mut qp = QueryParams::default();
    qp.insert("user".to_string(), "{missing}".to_string());
    match qp.populate_variables(&vars) {
        Err(CaptiError::VariableError(_)) => {}
        other => panic!("expected a variable error, got {:?}", other),
    }
}

#[test]
fn describe_lists_parameters() {
    let mut qp = QueryParams::default();
    qp.insert("key".to_string(), "value".to_string());
    assert_eq!(qp.describe(), "Params:\n  key: value\n");
    assert_eq!(QueryParams::default().describe(), "");
}
