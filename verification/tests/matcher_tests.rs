use capti::compare::{compare, FailReason, MatchResult, PathStep};
use capti::m_value::MValue;
use capti::matcher::MatcherMap;

#[test]
fn can_get_exists_matcher() {
    let map = MatcherMap::initialize();
    let matcher = map.get_matcher("$exists").unwrap();
    assert!(matcher.is_match(&MValue::Null, &MValue::Bool(false)));
}

#[test]
fn unknown_key_is_not_a_matcher() {
    let map = MatcherMap::initialize();
    assert!(map.get_matcher("$regex").is_none());
    assert!(map.get_matcher("id").is_none());
}

#[test]
fn compare_is_reflexive_on_nested_values() {
    let v = MValue::Object(vec![
        ("id".to_string(), MValue::Number(42)),
        (
            "tags".to_string(),
            MValue::Array(vec![
                MValue::Str("a".to_string()),
                MValue::Bool(true),
                MValue::Null,
            ]),
        ),
    ]);
    let map = MatcherMap::initialize();
    let w = v.clone();
    assert!(matches!(compare(&map, &v, &w), MatchResult::Pass));
}

#[test]
fn extra_actual_keys_are_tolerated_but_not_reversed() {
    let expected = MValue::Object(vec![("id".to_string(), MValue::Number(1))]);
    let actual = MValue::Object(vec![
        ("id".to_string(), MValue::Number(1)),
        ("name".to_string(), MValue::Str("x".to_string())),
    ]);
    let map = MatcherMap::initialize();
    assert!(matches!(compare(&map, &expected, &actual), MatchResult::Pass));
    // Roles reversed: `actual` now demands a key `expected` lacks.
    match compare(&map, &actual, &expected) {
        MatchResult::Fail(fs) => {
            assert_eq!(fs.len(), 1);
            assert_eq!(fs[0].reason, FailReason::MissingKey("name".to_string()));
            assert_eq!(fs[0].path, vec![PathStep::Key("name".to_string())]);
        }
        MatchResult::Pass => panic!("reversed comparison must fail"),
    }
}

#[test]
fn exists_directive_passes_against_null() {
    let expected = MValue::Object(vec![("$exists".to_string(), MValue::Bool(true))]);
    let map = MatcherMap::initialize();
    assert!(matches!(compare(&map, &expected, &MValue::Null), MatchResult::Pass));
    let expected_false = MValue::Object(vec![("$exists".to_string(), MValue::Bool(false))]);
    assert!(matches!(compare(&map, &expected_false, &MValue::Null), MatchResult::Pass));
}

#[test]
fn array_length_mismatch_fails() {
    let e = MValue::Array(vec![MValue::Number(1), MValue::Number(2)]);
    let a = MValue::Array(vec![MValue::Number(1)]);
    let map = MatcherMap::initialize();
    match compare(&map, &e, &a) {
        MatchResult::Fail(fs) => {
            assert_eq!(fs.len(), 1);
            assert_eq!(fs[0].reason, FailReason::LengthMismatch(2, 1));
        }
        MatchResult::Pass => panic!("length mismatch must fail"),
    }
    // The common prefix is still compared, so its mismatches are reported too.
    let b = MValue::Array(vec![MValue::Number(9)]);
    match compare(&map, &e, &b) {
        MatchResult::Fail(fs) => {
            assert_eq!(fs.len(), 2);
            assert_eq!(fs[1].path, vec![PathStep::Index(0)]);
        }
        MatchResult::Pass => panic!("length and element mismatch must fail"),
    }
}

#[test]
fn all_failures_are_collected() {
    let e = MValue::Object(vec![
        ("a".to_string(), MValue::Number(1)),
        ("b".to_string(), MValue::Number(2)),
    ]);
    let a = MValue::Object(vec![
        ("a".to_string(), MValue::Number(9)),
        ("c".to_string(), MValue::Number(2)),
    ]);
    let map = MatcherMap::initialize();
    match compare(&map, &e, &a) {
        MatchResult::Fail(fs) => {
            assert_eq!(fs.len(), 2);
        }
        MatchResult::Pass => panic!("must fail twice"),
    }
}

#[test]
fn number_and_string_render() {
    assert_eq!(MValue::Number(-42).render(), "-42");
    assert_eq!(MValue::Number(0).render(), "0");
    assert_eq!(MValue::Number(1234567).render(), "1234567");
    assert_eq!(MValue::Str("plain".to_string()).render(), "plain");
    assert_eq!(MValue::Bool(true).render(), "true");
    assert_eq!(MValue::Null.render(), "null");
    let arr = MValue::Array(vec![MValue::Number(1), MValue::Str("x".to_string())]);
    assert_eq!(arr.render(), "[1, x]");
    let obj = MValue::Object(vec![("k".to_string(), MValue::Number(3))]);
    assert_eq!(obj.render(), "{k: 3}");
}

#[test]
fn structural_eq_ignores_object_order() {
    let a = MValue::Object(vec![
        ("x".to_string(), MValue::Number(1)),
        ("y".to_string(), MValue::Number(2)),
    ]);
    let b = MValue::Object(vec![
        ("y".to_string(), MValue::Number(2)),
        ("x".to_string(), MValue::Number(1)),
    ]);
    assert!(a.structural_eq(&b));
    assert!(b.structural_eq(&a));
    let c = MValue::Object(vec![("x".to_string(), MValue::Number(9))]);
    assert!(!a.structural_eq(&c));
}
