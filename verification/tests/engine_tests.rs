use taran::duration::HumanDuration;
use taran::errors::{ConfigError, ProtocolError};
use taran::http::{HttpMethod, HttpRequest, HttpResponse};
use taran::scenario::{Assertions, Extractor, LoadProfile, Scenario, ScenarioInfo, Step};
use taran::{
    apply_extractor, check_assertions, estimate_request_size, outcome_from_response, parse_method,
    reconcile_counts, render_template, run_extractors, transport_failure_outcome,
    unsupported_protocol_outcome, DurationNanos, VirtualUserContext,
};

fn response(status: u16) -> HttpResponse {
    HttpResponse {
        status,
        headers: Vec::new(),
        body: String::new(),
        duration: DurationNanos::from_millis(25),
        bytes_sent: 120,
        bytes_received: 340,
    }
}

fn bare_step(name: &str) -> Step {
    Step {
        name: String::from(name),
        protocol: String::from("http"),
        method: String::from("GET"),
        url: String::from("http://example.invalid/x"),
        headers: Vec::new(),
        body: None,
        assertions: None,
        extract: Vec::new(),
    }
}

#[test]
fn test_parse_method() {
    assert!(parse_method("GET").is_ok());
    assert!(parse_method("POST").is_ok());
    assert!(parse_method("get").is_ok());
    assert!(parse_method("INVALID").is_err());
}

#[test]
fn parse_method_values_and_error_message() {
    assert_eq!(parse_method("delete").unwrap(), HttpMethod::Delete);
    assert_eq!(parse_method("Patch").unwrap(), HttpMethod::Patch);
    match parse_method("BREW") {
        Err(ProtocolError::InvalidResponse(m)) => {
            assert_eq!(m, "Unsupported HTTP method: BREW");
        }
        other => panic!("unexpected: {:?}", other),
    }
}

#[test]
fn test_estimate_request_size() {
    let req = HttpRequest {
        method: String::from("GET"),
        url: String::from("https://example.com"),
        headers: Vec::new(),
        body: None,
        timeout: None,
    };
    let size = estimate_request_size(&req);
    assert!(size > 0);
}

#[test]
fn estimate_request_size_counts_every_part() {
    let req = HttpRequest {
        method: String::from("GET"),
        url: String::from("https://example.com"),
        headers: vec![(String::from("Accept"), String::from("text/plain"))],
        body: Some(String::from("hello")),
        timeout: None,
    };
    // 3 + 19 + 10 + (6 + 10 + 4) + 2 + 5
    assert_eq!(estimate_request_size(&req), 59);
}

#[test]
fn status_assertion_failure_names_both_codes() {
    let assertions = Assertions { status: Some(200), max_response_time: None, body_contains: None };
    let msg = check_assertions(&assertions, &response(404)).unwrap();
    assert_eq!(msg, "Expected status 200, got 404");
    assert!(msg.contains("200") && msg.contains("404"));
}

#[test]
fn assertion_order_is_status_time_body() {
    let assertions = Assertions {
        status: Some(200),
        max_response_time: Some(HumanDuration(DurationNanos::from_millis(1))),
        body_contains: Some(String::from("welcome")),
    };
    // All three are violated; the status message wins.
    let msg = check_assertions(&assertions, &response(500)).unwrap();
    assert_eq!(msg, "Expected status 200, got 500");
}

#[test]
fn slow_response_fails_the_time_assertion() {
    let assertions = Assertions {
        status: None,
        max_response_time: Some(HumanDuration(DurationNanos::from_millis(10))),
        body_contains: None,
    };
    let msg = check_assertions(&assertions, &response(200)).unwrap();
    assert_eq!(msg, "Response time 25ms exceeded max 10ms");
}

#[test]
fn missing_body_text_fails_the_body_assertion() {
    let assertions = Assertions {
        status: None,
        max_response_time: None,
        body_contains: Some(String::from("welcome")),
    };
    let mut resp = response(200);
    resp.body = String::from("goodbye, world");
    let msg = check_assertions(&assertions, &resp).unwrap();
    assert_eq!(msg, "Response body does not contain 'welcome'");

    resp.body = String::from("a warm welcome to all");
    assert!(check_assertions(&assertions, &resp).is_none());
}

#[test]
fn failed_status_assertion_still_extracts_status() {
    let mut step = bare_step("login");
    step.assertions =
        Some(Assertions { status: Some(200), max_response_time: None, body_contains: None });
    step.extract.push((
        String::from("code"),
        Extractor {
            from: String::from("status"),
            extractor_type: String::from("jsonpath"),
            expr: String::from("$"),
        },
    ));
    let resp = response(404);

    let outcome = outcome_from_response(&step, &resp);
    assert!(!outcome.success);
    let msg = outcome.error.unwrap();
    assert!(msg.contains("200") && msg.contains("404"));

    let mut ctx = VirtualUserContext::new(0);
    run_extractors(&step, &resp, &mut ctx);
    assert_eq!(ctx.get_variable("code").unwrap(), "404");
}

#[test]
fn non_2xx_without_assertions_still_succeeds() {
    // A non-2xx status alone is not a failure: only the assertion stage
    // decides one.
    let step = bare_step("fetch");
    let outcome = outcome_from_response(&step, &response(503));
    assert!(outcome.success);
    assert!(outcome.error.is_none());
    assert_eq!(outcome.status_code, Some(503));
}

#[test]
fn non_2xx_with_a_matching_assertion_succeeds() {
    let mut step = bare_step("fetch");
    step.assertions =
        Some(Assertions { status: Some(404), max_response_time: None, body_contains: None });
    let outcome = outcome_from_response(&step, &response(404));
    assert!(outcome.success);
    assert!(outcome.error.is_none());
}

#[test]
fn successful_response_keeps_its_measurements() {
    let step = bare_step("fetch");
    let outcome = outcome_from_response(&step, &response(204));
    assert!(outcome.success);
    assert_eq!(outcome.bytes_sent, 120);
    assert_eq!(outcome.bytes_received, 340);
    assert_eq!(outcome.duration, DurationNanos::from_millis(25));
}

#[test]
fn transport_failures_carry_their_cause() {
    let outcome =
        transport_failure_outcome("fetch", "connection refused", DurationNanos::from_millis(2));
    assert!(!outcome.success);
    assert_eq!(outcome.error.unwrap(), "Request failed: connection refused");
    assert_eq!(outcome.status_code, None);
    assert_eq!(outcome.bytes_sent, 0);

    let outcome = unsupported_protocol_outcome("fetch", "gopher", DurationNanos::from_millis(0));
    assert_eq!(outcome.error.unwrap(), "Unsupported protocol: gopher");
}

#[test]
fn header_extraction_and_lookup() {
    let mut resp = response(200);
    resp.headers.push((String::from("X-Token"), String::from("abc123")));
    resp.headers.push((String::from("Content-Type"), String::from("text/plain")));
    assert_eq!(resp.header("X-Token").unwrap(), "abc123");
    assert!(resp.header("Missing").is_none());

    let ex = Extractor {
        from: String::from("header"),
        extractor_type: String::from("regex"),
        expr: String::from("X-Token"),
    };
    assert_eq!(apply_extractor(&ex, &resp).unwrap(), "abc123");
}

#[test]
fn body_extractors_are_a_non_fatal_miss() {
    let ex = Extractor {
        from: String::from("body"),
        extractor_type: String::from("jsonpath"),
        expr: String::from("$.id"),
    };
    assert!(apply_extractor(&ex, &response(200)).is_none());
}

#[test]
fn extraction_feeds_the_next_step_in_the_same_user() {
    let mut step = bare_step("login");
    step.extract.push((
        String::from("token"),
        Extractor {
            from: String::from("header"),
            extractor_type: String::from("regex"),
            expr: String::from("X-Token"),
        },
    ));
    let mut resp = response(200);
    resp.headers.push((String::from("X-Token"), String::from("abc123")));

    let mut vu_one = VirtualUserContext::new(1);
    let vu_two = VirtualUserContext::new(2);
    run_extractors(&step, &resp, &mut vu_one);

    // Visible to the same virtual user's next step...
    let url = render_template("http://example.invalid/session/{{token}}", &vu_one).unwrap();
    assert_eq!(url, "http://example.invalid/session/abc123");

    // ...and not to another virtual user.
    assert!(vu_two.get_variable("token").is_none());
    assert!(render_template("http://example.invalid/session/{{token}}", &vu_two).is_err());
}

#[test]
fn variables_persist_across_iterations_and_overwrite() {
    let mut ctx = VirtualUserContext::new(7);
    ctx.set_variable(String::from("k"), String::from("one"));
    ctx.next_iteration();
    assert_eq!(ctx.iteration, 1);
    assert_eq!(ctx.get_variable("k").unwrap(), "one");
    ctx.set_variable(String::from("k"), String::from("two"));
    assert_eq!(ctx.get_variable("k").unwrap(), "two");
}

#[test]
fn unclosed_placeholder_is_a_construction_error() {
    let ctx = VirtualUserContext::new(0);
    match render_template("x{{open", &ctx) {
        Err(ProtocolError::InvalidResponse(m)) => {
            assert_eq!(m, "Unresolved variable or unclosed placeholder in 'x{{open'");
        }
        other => panic!("unexpected: {:?}", other),
    }
}

#[test]
fn templates_without_placeholders_pass_through() {
    let ctx = VirtualUserContext::new(0);
    assert_eq!(render_template("plain text", &ctx).unwrap(), "plain text");
    assert_eq!(render_template("", &ctx).unwrap(), "");
}

#[test]
fn reconcile_counts_spawns_and_retires() {
    assert_eq!(reconcile_counts(3, 10), (7, 0));
    assert_eq!(reconcile_counts(10, 3), (0, 7));
    assert_eq!(reconcile_counts(5, 5), (0, 0));
}

#[test]
fn json_parsing_reflects_the_body() {
    let mut resp = response(200);
    resp.body = String::from("{\"id\": 7}");
    let value = resp.json().unwrap();
    assert_eq!(value["id"], 7);

    resp.body = String::from("{nope");
    match resp.json() {
        Err(ProtocolError::InvalidResponse(m)) => {
            assert!(m.starts_with("JSON parse error: "));
        }
        other => panic!("unexpected: {:?}", other),
    }
}

#[test]
fn is_success_is_exactly_2xx() {
    assert!(response(200).is_success());
    assert!(response(299).is_success());
    assert!(!response(199).is_success());
    assert!(!response(300).is_success());
    assert!(!response(404).is_success());
}

fn scenario_with_steps(name: &str, steps: Vec<Step>) -> Scenario {
    Scenario {
        scenario: ScenarioInfo { name: String::from(name), description: None },
        load_profile: LoadProfile::Constant {
            users: 1,
            duration: HumanDuration(DurationNanos::from_secs(1)),
            ramp_up: None,
        },
        steps,
    }
}

#[test]
fn validate_accepts_a_complete_scenario() {
    let sc = scenario_with_steps("ok", vec![bare_step("a"), bare_step("b")]);
    assert!(sc.validate().is_ok());
}

#[test]
fn validate_rejects_a_nameless_scenario() {
    let sc = scenario_with_steps("", vec![bare_step("a")]);
    match sc.validate() {
        Err(ConfigError::MissingField(m)) => assert_eq!(m, "scenario.name"),
        other => panic!("unexpected: {:?}", other),
    }
}

#[test]
fn validate_rejects_an_empty_step_list() {
    let sc = scenario_with_steps("ok", Vec::new());
    match sc.validate() {
        Err(ConfigError::InvalidScenario(m)) => {
            assert_eq!(m, "Scenario must have at least one step");
        }
        other => panic!("unexpected: {:?}", other),
    }
}

#[test]
fn validate_names_the_first_bad_step() {
    let mut bad = bare_step("b");
    bad.url = String::new();
    let sc = scenario_with_steps("ok", vec![bare_step("a"), bad]);
    match sc.validate() {
        Err(ConfigError::MissingField(m)) => assert_eq!(m, "steps[1].url"),
        other => panic!("unexpected: {:?}", other),
    }

    let mut nameless = bare_step("");
    nameless.url = String::from("http://example.invalid/");
    let sc = scenario_with_steps("ok", vec![nameless]);
    match sc.validate() {
        Err(ConfigError::MissingField(m)) => assert_eq!(m, "steps[0].name"),
        other => panic!("unexpected: {:?}", other),
    }
}
