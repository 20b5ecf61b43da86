use release_sanity_checker::admission::AdmissionController;
use release_sanity_checker::diff::Difference;
use release_sanity_checker::flow::{
    advance_flow, effective_max_retries, evaluate_check, is_retryable_status, start_flow,
    FlowAction, FlowState, StepEvent,
};
use release_sanity_checker::json::JsonValue;
use release_sanity_checker::printer::{render_differences_report, DifferencesPrinterMessage};
use release_sanity_checker::render::render_json;
use release_sanity_checker::response::{
    headers_document, headers_from_value, parse_document, HttpResponseData, ParsedBody,
};

fn simple_response(status_code: u16, raw: &str) -> HttpResponseData {
    HttpResponseData {
        status_code,
        headers: Vec::new(),
        body: ParsedBody {
            raw: raw.to_string(),
            json: None,
        },
    }
}

#[test]
fn test_effective_max_retries_floor() {
    assert_eq!(effective_max_retries(0), 1);
    assert_eq!(effective_max_retries(1), 1);
    assert_eq!(effective_max_retries(3), 3);
}

#[test]
fn test_retryable_statuses() {
    assert!(!is_retryable_status(200));
    assert!(!is_retryable_status(404));
    assert!(!is_retryable_status(499));
    assert!(is_retryable_status(500));
    assert!(is_retryable_status(503));
}

#[test]
fn test_flow_completes_on_last_step() {
    let state = start_flow(3);
    assert_eq!(
        state,
        FlowState::Executing {
            step: 0,
            attempts_left: 3
        }
    );
    let (state, action) = advance_flow(&state, &StepEvent::Response { status_code: 200 }, 1, 3);
    assert_eq!(state, FlowState::Complete);
    assert_eq!(action, FlowAction::RunCheckAndPersist);
}

#[test]
fn test_flow_step_budget_resets_between_steps() {
    let state = start_flow(3);
    // First step fails once, then succeeds.
    let (state, action) = advance_flow(&state, &StepEvent::TransportError, 2, 3);
    assert_eq!(
        state,
        FlowState::Executing {
            step: 0,
            attempts_left: 2
        }
    );
    assert_eq!(action, FlowAction::SendRequest { step: 0 });
    let (state, action) = advance_flow(&state, &StepEvent::Response { status_code: 404 }, 2, 3);
    // A 4xx outcome completes the step; the next step starts with a fresh
    // budget.
    assert_eq!(
        state,
        FlowState::Executing {
            step: 1,
            attempts_left: 3
        }
    );
    assert_eq!(action, FlowAction::SendRequest { step: 1 });
}

#[test]
fn test_flow_fails_after_exhausted_budget() {
    let state = start_flow(2);
    let (state, _) = advance_flow(&state, &StepEvent::Response { status_code: 500 }, 1, 2);
    assert_eq!(
        state,
        FlowState::Executing {
            step: 0,
            attempts_left: 1
        }
    );
    let (state, action) = advance_flow(&state, &StepEvent::Response { status_code: 503 }, 1, 2);
    assert_eq!(state, FlowState::Failed);
    assert_eq!(action, FlowAction::ReportFailure);
    // A failed check stays failed.
    let (state, action) = advance_flow(&state, &StepEvent::Response { status_code: 200 }, 1, 2);
    assert_eq!(state, FlowState::Failed);
    assert_eq!(action, FlowAction::Idle);
}

#[test]
fn test_evaluate_check_modes() {
    let prev = simple_response(200, "old");
    let current = simple_response(200, "new");

    // Baseline-recording mode never reports.
    assert!(evaluate_check(Some(&prev), &current, true, false, None).is_none());
    // Without a stored baseline there is nothing to compare.
    assert!(evaluate_check(None, &current, false, false, None).is_none());
    // Equal snapshots yield no report.
    assert!(evaluate_check(Some(&current), &current, false, false, None).is_none());
    // A changed body yields the differences.
    let report = evaluate_check(Some(&prev), &current, false, false, None);
    let differences = report.expect("expected differences");
    assert_eq!(differences.len(), 1);
    assert!(matches!(
        &differences[0],
        Difference::DifferentBodyString { .. }
    ));
}

#[test]
fn test_admission_bounds_inflight_per_url() {
    let mut controller = AdmissionController::new(2);
    // Five checks target the same URL with a limit of two: never more than
    // two in flight.
    assert!(controller.try_acquire("http://svc/a"));
    assert!(controller.try_acquire("http://svc/a"));
    assert!(!controller.try_acquire("http://svc/a"));
    assert!(!controller.try_acquire("http://svc/a"));
    assert!(!controller.try_acquire("http://svc/a"));
    // A different path on the same host is limited independently.
    assert!(controller.try_acquire("http://svc/b"));
    // Releasing a permit lets the next waiter in.
    controller.release("http://svc/a");
    assert!(controller.try_acquire("http://svc/a"));
    assert!(!controller.try_acquire("http://svc/a"));
}

#[test]
fn test_printer_message_carries_differences() {
    let differences = vec![Difference::StatusCodeChanged {
        old_val: 200,
        new_val: 500,
    }];
    let msg = DifferencesPrinterMessage::PrintDifferences {
        differences,
        request_id: "check-1".to_string(),
    };
    match msg {
        DifferencesPrinterMessage::PrintDifferences {
            differences,
            request_id,
        } => {
            assert_eq!(request_id, "check-1");
            assert!(!differences.is_empty());
        }
    }
}

#[test]
fn test_render_report_block() {
    let differences = vec![
        Difference::StatusCodeChanged {
            old_val: 200,
            new_val: 404,
        },
        Difference::BodyValueChanged {
            path: "age".to_string(),
            old_val: "30".to_string(),
            new_val: "31".to_string(),
        },
    ];
    let block = render_differences_report(&differences, "my-check");
    assert_eq!(
        block,
        "Differences detected for request with ID: 'my-check'\n\
         \u{20}\u{20}Status Code Difference:\n    - 200\n    + 404\n\
         \u{20}\u{20}\u{20}\u{20}Changed body value at 'age' \n      - 30\n      + 31\n"
    );
}

#[test]
fn test_report_blocks_never_interleave() {
    // Rendering is a pure function of one message, so two checks' reports
    // are two fully separated blocks whatever order they are drained in.
    let first = vec![Difference::HeaderValueRemoved {
        header_name: "X-A".to_string(),
    }];
    let second = vec![Difference::HeaderValueAdded {
        header_name: "X-B".to_string(),
    }];
    let block1 = render_differences_report(&first, "one");
    let block2 = render_differences_report(&second, "two");
    let printed = format!("{}{}", block1, block2);
    let expected = "Differences detected for request with ID: 'one'\n\
                    \u{20}\u{20}\u{20}\u{20}Removed Header: X-A\n\
                    Differences detected for request with ID: 'two'\n\
                    \u{20}\u{20}\u{20}\u{20}Added Header: X-B\n";
    assert_eq!(printed, expected);
    assert!(block1.contains("one") && !block1.contains("two"));
    assert!(block2.contains("two") && !block2.contains("X-A"));
}

#[test]
fn test_render_body_string_difference_guards_short_bodies() {
    // Bodies shorter than the hundred-character preview must not be sliced
    // past their end.
    let d = Difference::DifferentBodyString {
        before: "short".to_string(),
        after: "tiny".to_string(),
    };
    assert_eq!(
        d.render(),
        "\n  Body (non-JSON or invalid JSON):\n    - short...\n    + tiny...\n"
    );
    let long = "z".repeat(150);
    let d = Difference::DifferentBodyString {
        before: long.clone(),
        after: long.clone(),
    };
    let rendered = d.render();
    assert!(rendered.contains(&format!("- {}...", "z".repeat(100))));
    // An empty side suppresses the preview lines entirely.
    let d = Difference::DifferentBodyString {
        before: String::new(),
        after: "x".to_string(),
    };
    assert_eq!(d.render(), "\n  Body (non-JSON or invalid JSON):\n");
}

#[test]
fn test_header_storage_round_trip() {
    // Headers go to the store as a JSON object of strings and come back as
    // the same mapping, in canonical key order.
    let headers = vec![
        ("X-B".to_string(), "two".to_string()),
        ("X-A".to_string(), "one".to_string()),
    ];
    let doc = headers_document(&headers);
    let stored = render_json(&doc);
    assert_eq!(stored, "{\"X-A\":\"one\",\"X-B\":\"two\"}");
    let read_back = parse_document(&stored).expect("stored headers parse");
    let decoded = headers_from_value(&read_back);
    assert_eq!(
        decoded,
        vec![
            ("X-A".to_string(), "one".to_string()),
            ("X-B".to_string(), "two".to_string()),
        ]
    );
    // A document that is not an object of strings decodes to no headers.
    let not_headers = parse_document("[1,2]").expect("array parses");
    assert!(headers_from_value(&not_headers).is_empty());
    let mixed = parse_document("{\"a\":1}").expect("object parses");
    assert!(headers_from_value(&mixed).is_empty());
}

#[test]
fn test_snapshot_parses_json_content_type() {
    let headers = vec![("Content-Type".to_string(), "application/json; charset=utf-8".to_string())];
    let r = HttpResponseData::new(200, headers, "{\"b\":2,\"a\":1}".to_string());
    let parsed = r.body.json.expect("body should parse");
    // serde_json's map is ordered, so the document comes out in canonical
    // key order.
    let expected = JsonValue::Object(vec![
        ("a".to_string(), JsonValue::Number("1".to_string())),
        ("b".to_string(), JsonValue::Number("2".to_string())),
    ]);
    assert!(release_sanity_checker::json::json_eq(&parsed, &expected));
    assert_eq!(r.body.raw, "{\"b\":2,\"a\":1}");
    assert_eq!(r.status_code, 200);
}

#[test]
fn test_snapshot_lowercase_content_type() {
    let headers = vec![("content-type".to_string(), "application/json".to_string())];
    let r = HttpResponseData::new(200, headers, "[1,2]".to_string());
    let parsed = r.body.json.expect("body should parse");
    let expected = JsonValue::Array(vec![
        JsonValue::Number("1".to_string()),
        JsonValue::Number("2".to_string()),
    ]);
    assert!(release_sanity_checker::json::json_eq(&parsed, &expected));
}

#[test]
fn test_snapshot_invalid_json_or_other_content() {
    // Declared JSON but malformed: no structured body.
    let headers = vec![("Content-Type".to_string(), "application/json".to_string())];
    let r = HttpResponseData::new(200, headers, "{not json".to_string());
    assert!(r.body.json.is_none());
    assert_eq!(r.body.raw, "{not json");

    // Valid JSON but another content type: not parsed.
    let headers = vec![("Content-Type".to_string(), "text/plain".to_string())];
    let r = HttpResponseData::new(200, headers, "{\"a\":1}".to_string());
    assert!(r.body.json.is_none());

    // No content type at all: not parsed.
    let r = HttpResponseData::new(200, Vec::new(), "{\"a\":1}".to_string());
    assert!(r.body.json.is_none());
}
