use apicore::document::Header;
use apicore::executor::{begin_request, finish_request, BeginOutcome, ExecutionResult, Method,
    TransportOutcome};
use apicore::slot::{ExecutionSlot, SlotError};

fn bytes(s: &str) -> Vec<u8> {
    s.as_bytes().to_vec()
}

fn begin_get(slot: &mut ExecutionSlot, url: &str) -> (u64, Option<u64>) {
    match begin_request(slot, &bytes("GET"), bytes(url), vec![], None) {
        BeginOutcome::Started { handle, cancel_first, .. } => (handle, cancel_first),
        BeginOutcome::Rejected { .. } => panic!("GET must be accepted"),
    }
}

#[test]
fn slot_holds_at_most_one_handle() {
    let mut slot = ExecutionSlot::new();
    let (ha, first_cancel) = begin_get(&mut slot, "https://example.test/a");
    assert_eq!(first_cancel, None);
    let (hb, second_cancel) = begin_get(&mut slot, "https://example.test/b");
    // the slot never holds two handles: installing B names A as the one
    // handle to cancel
    assert_eq!(second_cancel, Some(ha));
    assert_ne!(ha, hb);
    // only B occupies the slot now
    assert_eq!(slot.cancel_current(), Ok(hb));
    assert_eq!(slot.cancel_current(), Err(SlotError::NoActiveRequest));
}

#[test]
fn preempted_request_is_cancelled_and_successor_completes() {
    let mut slot = ExecutionSlot::new();
    let (ha, _) = begin_get(&mut slot, "https://example.test/a");
    let (hb, to_cancel) = begin_get(&mut slot, "https://example.test/b");
    assert_eq!(to_cancel, Some(ha));
    // A's race observes the cancellation signal: its result is Cancelled
    let ra = finish_request(&mut slot, ha, TransportOutcome::Cancelled);
    assert!(matches!(ra, ExecutionResult::Cancelled));
    // B proceeds to completion normally
    let rb = finish_request(
        &mut slot,
        hb,
        TransportOutcome::Response { status: 204, body: b"null".to_vec() },
    );
    match rb {
        ExecutionResult::Success { status, .. } => assert_eq!(status, 204),
        _ => panic!("B must complete normally"),
    }
}

#[test]
fn cancel_with_nothing_running_fails() {
    let mut slot = ExecutionSlot::new();
    assert_eq!(slot.cancel_current(), Err(SlotError::NoActiveRequest));
}

#[test]
fn cancel_while_running_succeeds_and_request_resolves_cancelled() {
    let mut slot = ExecutionSlot::new();
    let (ha, _) = begin_get(&mut slot, "https://example.test/a");
    assert_eq!(slot.cancel_current(), Ok(ha));
    let ra = finish_request(&mut slot, ha, TransportOutcome::Cancelled);
    assert!(matches!(ra, ExecutionResult::Cancelled));
}

#[test]
fn stale_release_does_not_clear_newer_occupant() {
    let mut slot = ExecutionSlot::new();
    let (ha, _) = begin_get(&mut slot, "https://example.test/a");
    let (hb, _) = begin_get(&mut slot, "https://example.test/b");
    // A's discarded completion attempts to release with its stale handle
    let _ = finish_request(
        &mut slot,
        ha,
        TransportOutcome::Response { status: 200, body: b"{}".to_vec() },
    );
    // the slot must still reflect B
    assert_eq!(slot.cancel_current(), Ok(hb));
}

#[test]
fn double_release_is_safe() {
    let mut slot = ExecutionSlot::new();
    let (ha, _) = begin_get(&mut slot, "https://example.test/a");
    slot.release(ha);
    slot.release(ha);
    assert_eq!(slot.cancel_current(), Err(SlotError::NoActiveRequest));
}

#[test]
fn unsupported_method_rejected_without_touching_slot() {
    let mut slot = ExecutionSlot::new();
    let r = begin_request(&mut slot, &bytes("BREW"), bytes("https://example.test"), vec![], None);
    match r {
        BeginOutcome::Rejected { result } => match result {
            ExecutionResult::TransportError { message } => {
                assert_eq!(message, b"unsupported method".to_vec());
            },
            _ => panic!("rejection must be a transport error"),
        },
        BeginOutcome::Started { .. } => panic!("BREW must be rejected"),
    }
    // the slot was never acquired
    assert_eq!(slot.cancel_current(), Err(SlotError::NoActiveRequest));
}

#[test]
fn all_five_methods_are_recognized() {
    for (m, want) in [
        ("GET", Method::Get),
        ("POST", Method::Post),
        ("PUT", Method::Put),
        ("PATCH", Method::Patch),
        ("DELETE", Method::Delete),
    ] {
        let mut slot = ExecutionSlot::new();
        match begin_request(&mut slot, &bytes(m), bytes("https://example.test"), vec![], None) {
            BeginOutcome::Started { prepared, .. } => assert_eq!(prepared.method, want),
            BeginOutcome::Rejected { .. } => panic!("{m} must be accepted"),
        }
    }
    let mut slot = ExecutionSlot::new();
    let r = begin_request(&mut slot, &bytes("get"), bytes("https://example.test"), vec![], None);
    assert!(matches!(r, BeginOutcome::Rejected { .. }), "methods are case-sensitive");
}

#[test]
fn headers_with_empty_key_or_value_are_dropped() {
    let mut slot = ExecutionSlot::new();
    let headers = vec![
        Header { key: bytes("Accept"), value: bytes("application/json") },
        Header { key: bytes(""), value: bytes("x") },
        Header { key: bytes("X-Empty"), value: bytes("") },
        Header { key: bytes("Accept-Language"), value: bytes("en") },
    ];
    match begin_request(&mut slot, &bytes("POST"), bytes("https://example.test"), headers, None) {
        BeginOutcome::Started { prepared, .. } => {
            assert_eq!(prepared.headers.len(), 2);
            assert_eq!(prepared.headers[0].key, bytes("Accept"));
            assert_eq!(prepared.headers[1].key, bytes("Accept-Language"));
        },
        BeginOutcome::Rejected { .. } => panic!("POST must be accepted"),
    }
}

#[test]
fn url_and_body_pass_through_unchanged() {
    let mut slot = ExecutionSlot::new();
    match begin_request(
        &mut slot,
        &bytes("PUT"),
        bytes("https://example.test/items/7"),
        vec![],
        Some(bytes("{\"x\":1}")),
    ) {
        BeginOutcome::Started { prepared, .. } => {
            assert_eq!(prepared.url, bytes("https://example.test/items/7"));
            assert_eq!(prepared.body, Some(bytes("{\"x\":1}")));
        },
        BeginOutcome::Rejected { .. } => panic!("PUT must be accepted"),
    }
}

#[test]
fn success_response_parses_body_as_json() {
    let mut slot = ExecutionSlot::new();
    let (h, _) = begin_get(&mut slot, "https://example.test/ok");
    let r = finish_request(
        &mut slot,
        h,
        TransportOutcome::Response { status: 200, body: b"{\"a\":1}".to_vec() },
    );
    match r {
        ExecutionResult::Success { status, parsed_body } => {
            assert_eq!(status, 200);
            let mut want_map = serde_json::Map::new();
            want_map.insert("a".to_string(), serde_json::Value::from(1i64));
            assert_eq!(parsed_body, serde_json::Value::Object(want_map));
        },
        _ => panic!("200 with JSON body must be a success"),
    }
}

#[test]
fn http_error_status_is_reported_as_http_error() {
    let mut slot = ExecutionSlot::new();
    let (h, _) = begin_get(&mut slot, "https://example.test/err");
    let r = finish_request(
        &mut slot,
        h,
        TransportOutcome::Response { status: 500, body: b"{}".to_vec() },
    );
    match r {
        ExecutionResult::HttpError { status } => assert_eq!(status, 500),
        _ => panic!("500 must be an HTTP error"),
    }
}

#[test]
fn unparseable_success_body_is_a_transport_error() {
    let mut slot = ExecutionSlot::new();
    let (h, _) = begin_get(&mut slot, "https://example.test/ok");
    let r = finish_request(
        &mut slot,
        h,
        TransportOutcome::Response { status: 200, body: b"not json".to_vec() },
    );
    match r {
        ExecutionResult::TransportError { message } => {
            assert_eq!(message, b"Failed to parse response".to_vec());
        },
        _ => panic!("an unparseable success body must fail"),
    }
}

#[test]
fn transport_failure_message_passes_through() {
    let mut slot = ExecutionSlot::new();
    let (h, _) = begin_get(&mut slot, "https://example.test/down");
    let r = finish_request(
        &mut slot,
        h,
        TransportOutcome::Failure { message: b"connection refused".to_vec() },
    );
    match r {
        ExecutionResult::TransportError { message } => {
            assert_eq!(message, b"connection refused".to_vec());
        },
        _ => panic!("a transport failure must surface its message"),
    }
}
