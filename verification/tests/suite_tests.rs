use capti::compare::{MatchResult, PathStep};
use capti::errors::CaptiError;
use capti::m_value::MValue;
use capti::matcher::MatcherMap;
use capti::query_params::QueryParams;
use capti::response_headers::ResponseHeaders;
use capti::runner::{outcome_of_match, RunReport, Runner};
use capti::suite::{
    select_path, subst_value, RequestTemplate, ResponseData, ResponseExpectation, Step,
};
use capti::variables::VariableMap;

fn plain_request(url: &str) -> RequestTemplate {
    RequestTemplate {
        method: "GET".to_string(),
        url: url.to_string(),
        params: QueryParams::default(),
        headers: ResponseHeaders::default(),
        body: None,
    }
}

#[test]
fn substitution_leaves_plain_strings_unchanged() {
    let vars = VariableMap::new();
    match vars.replace_variables("no placeholders here") {
        Ok(MValue::Str(s)) => assert_eq!(s, "no placeholders here"),
        other => panic!("expected the string back, got {:?}", other),
    }
}

#[test]
fn substitution_fails_on_undefined_placeholder() {
    let vars = VariableMap::new();
    match vars.replace_variables("hello {missing}") {
        Err(CaptiError::VariableError(msg)) => {
            assert!(msg.contains("missing"));
        }
        other => panic!("expected a variable error, got {:?}", other),
    }
}

#[test]
fn single_placeholder_keeps_structural_value() {
    let mut vars = VariableMap::new();
    vars.capture("n".to_string(), MValue::Number(7));
    match vars.replace_variables("{n}") {
        Ok(MValue::Number(7)) => {}
        other => panic!("expected the stored number, got {:?}", other),
    }
    // Embedded in a longer string, the value is rendered instead.
    match vars.replace_variables("n is {n}!") {
        Ok(MValue::Str(s)) => assert_eq!(s, "n is 7!"),
        other => panic!("expected an interpolated string, got {:?}", other),
    }
}

#[test]
fn capture_overwrites_earlier_value() {
    let mut vars = VariableMap::new();
    vars.capture("x".to_string(), MValue::Number(1));
    vars.capture("x".to_string(), MValue::Number(2));
    match vars.get("x") {
        Some(MValue::Number(2)) => {}
        other => panic!("expected the newer value, got {:?}", other),
    }
}

#[test]
fn select_path_walks_nested_objects() {
    let body = MValue::Object(vec![(
        "user".to_string(),
        MValue::Object(vec![("id".to_string(), MValue::Number(9))]),
    )]);
    assert_eq!(select_path(&body, "user.id"), Some(MValue::Number(9)));
    assert_eq!(select_path(&body, "user.name"), None);
    assert_eq!(select_path(&body, "nope"), None);
}

#[test]
fn subst_value_walks_structures() {
    let mut vars = VariableMap::new();
    vars.capture("id".to_string(), MValue::Number(7));
    let body = MValue::Object(vec![
        ("x".to_string(), MValue::Str("{id}".to_string())),
        (
            "y".to_string(),
            MValue::Array(vec![MValue::Str("v{id}".to_string())]),
        ),
    ]);
    let out = subst_value(&body, &vars).unwrap();
    assert_eq!(
        out,
        MValue::Object(vec![
            ("x".to_string(), MValue::Number(7)),
            (
                "y".to_string(),
                MValue::Array(vec![MValue::Str("v7".to_string())]),
            ),
        ])
    );
}

#[test]
fn header_match_is_a_subset_check() {
    let mut expected = ResponseHeaders::default();
    expected.insert("content-type".to_string(), "application/json".to_string());
    let mut actual = ResponseHeaders::default();
    actual.insert("content-type".to_string(), "application/json".to_string());
    actual.insert("server".to_string(), "warp".to_string());
    assert!(matches!(expected.match_cmp(&actual), MatchResult::Pass));
    assert!(matches!(actual.match_cmp(&expected), MatchResult::Fail(_)));
}

#[test]
fn end_to_end_two_step_suite() {
    let matchers = MatcherMap::initialize();
    let mut vars = VariableMap::new();
    let mut report = RunReport::new();

    // Step 1 expects {"id": {"$exists": true}} and captures `id`.
    let step1 = Step {
        request: plain_request("/things"),
        expect: ResponseExpectation {
            status: None,
            headers: None,
            body: Some(MValue::Object(vec![(
                "id".to_string(),
                MValue::Object(vec![("$exists".to_string(), MValue::Bool(true))]),
            )])),
        },
        captures: vec![("id".to_string(), "id".to_string())],
    };
    let response1 = ResponseData {
        status: 200,
        headers: ResponseHeaders::default(),
        body: Some(MValue::Object(vec![
            ("id".to_string(), MValue::Number(42)),
            ("name".to_string(), MValue::Str("x".to_string())),
        ])),
    };
    let resolved1 = step1.resolve(&vars).unwrap();
    assert_eq!(resolved1.url, "/things");
    let result1 = step1.evaluate(&matchers, &response1);
    assert!(matches!(result1, MatchResult::Pass));
    step1.apply_captures(response1.body.as_ref().unwrap(), &mut vars);
    report.record(&outcome_of_match(result1));

    // The store now holds id = Number(42).
    match vars.get("id") {
        Some(MValue::Number(42)) => {}
        other => panic!("expected id = 42, got {:?}", other),
    }

    // Step 2 substitutes the captured id into its URL template.
    let step2 = Step {
        request: plain_request("/things/{id}"),
        expect: ResponseExpectation {
            status: None,
            headers: None,
            body: Some(MValue::Object(vec![(
                "name".to_string(),
                MValue::Object(vec![("$exists".to_string(), MValue::Bool(true))]),
            )])),
        },
        captures: vec![],
    };
    let resolved2 = step2.resolve(&vars).unwrap();
    assert_eq!(resolved2.url, "/things/42");

    // The mock response omits the field required with $exists.
    let response2 = ResponseData {
        status: 200,
        headers: ResponseHeaders::default(),
        body: Some(MValue::Object(vec![(
            "other".to_string(),
            MValue::Number(1),
        )])),
    };
    let result2 = step2.evaluate(&matchers, &response2);
    match &result2 {
        MatchResult::Fail(fs) => {
            assert_eq!(fs[0].path, vec![PathStep::Key("name".to_string())]);
        }
        MatchResult::Pass => panic!("step 2 must fail"),
    }
    report.record(&outcome_of_match(result2));

    assert_eq!(report.total_tests, 2);
    assert_eq!(report.passed, 1);
    assert_eq!(report.failed, 1);
    assert_eq!(report.errors, 0);
}

#[test]
fn resolve_fails_without_dispatch_on_undefined_variable() {
    let vars = VariableMap::new();
    let step = Step {
        request: plain_request("/things/{missing}"),
        expect: ResponseExpectation { status: None, headers: None, body: None },
        captures: vec![],
    };
    match step.resolve(&vars) {
        Err(CaptiError::VariableError(_)) => {}
        other => panic!("expected a variable error, got {:?}", other),
    }
}

#[test]
fn evaluate_checks_status_and_headers() {
    let matchers = MatcherMap::initialize();
    let mut expected_headers = ResponseHeaders::default();
    expected_headers.insert("content-type".to_string(), "application/json".to_string());
    let step = Step {
        request: plain_request("/x"),
        expect: ResponseExpectation {
            status: Some(200),
            headers: Some(expected_headers),
            body: None,
        },
        captures: vec![],
    };
    let response = ResponseData {
        status: 404,
        headers: ResponseHeaders::default(),
        body: None,
    };
    match step.evaluate(&matchers, &response) {
        MatchResult::Fail(fs) => assert_eq!(fs.len(), 2),
        MatchResult::Pass => panic!("must fail on status and header"),
    }
}

#[test]
fn summary_is_the_exact_sum() {
    let reports = vec![
        RunReport { total_tests: 3, passed: 1, failed: 1, errors: 1 },
        RunReport { total_tests: 2, passed: 2, failed: 0, errors: 0 },
        RunReport { total_tests: 4, passed: 0, failed: 3, errors: 1 },
    ];
    let summary = Runner::summarize(&reports);
    assert_eq!(summary.total_tests, 9);
    assert_eq!(summary.passed, 3);
    assert_eq!(summary.failed, 4);
    assert_eq!(summary.errors, 2);
    assert!(!summary.is_success());

    // Completion order does not change the summary.
    let reversed = vec![reports[2], reports[1], reports[0]];
    assert_eq!(Runner::summarize(&reversed), summary);
}

#[test]
fn summary_of_no_reports_is_empty() {
    let reports: Vec<RunReport> = Vec::new();
    let summary = Runner::summarize(&reports);
    assert_eq!(summary.total_tests, 0);
    assert!(summary.is_success());
}

#[test]
fn transport_errors_count_as_errors() {
    let mut report = RunReport::new();
    report.record(&capti::runner::outcome_of_error(CaptiError::TransportError(
        "connection refused".to_string(),
    )));
    assert_eq!(report.total_tests, 1);
    assert_eq!(report.errors, 1);
    assert_eq!(report.passed, 0);
    assert_eq!(report.failed, 0);
}

#[test]
fn unclosed_brace_is_literal_text() {
    let vars = VariableMap::new();
    match vars.replace_variables("{unclosed") {
        Ok(MValue::Str(s)) => assert_eq!(s, "{unclosed"),
        other => panic!("expected the text back, got {:?}", other),
    }
}

#[test]
fn lookup_of_absent_variable_is_none() {
    let vars = VariableMap::new();
    assert!(vars.get("nothing").is_none());
}

#[test]
fn interpolation_renders_structural_values() {
    let mut vars = VariableMap::new();
    vars.capture(
        "user".to_string(),
        MValue::Object(vec![("id".to_string(), MValue::Number(5))]),
    );
    match vars.replace_variables("got {user}") {
        Ok(MValue::Str(s)) => assert_eq!(s, "got {id: 5}"),
        other => panic!("expected an interpolated string, got {:?}", other),
    }
}
