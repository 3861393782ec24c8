use herdr_badges::http::rpc_answer_response;
use herdr_badges::json::{JsonMember, JsonValue};
use herdr_badges::http::{
    body_length, framing_error_response, header_step, invalid_body_response, json_rpc_response_to_http,
    parse_request_line, parse_usize, route_request, FramingError, HeaderState, HeaderStep, HttpResponse,
    AGENT_REPORT_PATH,
};

#[test]
fn http_push_routing_statuses() {
    let not_found = route_request("POST", "/api/v1/other").unwrap();
    assert_eq!(not_found.status, 404);
    assert_eq!(not_found.reason, "not_found");
    assert_eq!(not_found.body, r#"{"error":{"code":"not_found","message":"unknown path"}}"#);
    let wrong_method = route_request("GET", AGENT_REPORT_PATH).unwrap();
    assert_eq!(wrong_method.status, 405);
    assert_eq!(wrong_method.body, r#"{"error":{"code":"method_not_allowed","message":"use POST"}}"#);
    assert!(route_request("post", AGENT_REPORT_PATH).is_none());
    assert!(route_request("POST", AGENT_REPORT_PATH).is_none());
}

#[test]
fn http_rpc_answers_map_to_statuses() {
    let ok = json_rpc_response_to_http(r#"{"id":"x","result":{"type":"ok"}}"#.to_string());
    assert_eq!((ok.status, ok.reason.as_str()), (200, "ok"));
    assert_eq!(ok.body, r#"{"id":"x","result":{"type":"ok"}}"#);
    let missing = json_rpc_response_to_http(
        r#"{"id":"x","error":{"code":"pane_not_found","message":"pane not found"}}"#.to_string(),
    );
    assert_eq!((missing.status, missing.reason.as_str()), (404, "not_found"));
    assert!(missing.body.contains("pane_not_found"));
    let invalid = json_rpc_response_to_http(r#"{"error":{"code":"invalid_agent"}}"#.to_string());
    assert_eq!(invalid.status, 400);
    let down = json_rpc_response_to_http(r#"{"error":{"code":"server_unavailable"}}"#.to_string());
    assert_eq!((down.status, down.reason.as_str()), (503, "service_unavailable"));
    let other = json_rpc_response_to_http(r#"{"error":{"code":"boom"}}"#.to_string());
    assert_eq!(other.status, 500);
    let no_code = json_rpc_response_to_http(r#"{"error":null}"#.to_string());
    assert_eq!(no_code.status, 500);
    let garbage = json_rpc_response_to_http("not json".to_string());
    assert_eq!((garbage.status, garbage.reason.as_str()), (500, "internal_error"));
}

#[test]
fn http_error_bodies_escape_messages() {
    let r = HttpResponse::error(400, "bad_request", "say \"hi\"\n");
    assert_eq!(r.body, r#"{"error":{"code":"bad_request","message":"say \"hi\"\n"}}"#);
    let bad = invalid_body_response("expected value");
    assert_eq!(bad.status, 400);
    assert_eq!(bad.body, r#"{"error":{"code":"bad_request","message":"invalid body: expected value"}}"#);
    let framing = framing_error_response(FramingError::BodyTooLarge);
    assert_eq!((framing.status, framing.reason.as_str()), (400, "bad_request"));
    assert!(framing.body.contains("body too large"));
}

#[test]
fn http_request_line_framing() {
    assert_eq!(
        parse_request_line("POST /api/v1/pane/report/agent HTTP/1.1\r\n").unwrap(),
        ("POST".to_string(), "/api/v1/pane/report/agent".to_string())
    );
    assert_eq!(parse_request_line("GARBAGE\r\n").unwrap_err(), FramingError::MalformedRequestLine);
    assert_eq!(parse_request_line("\r\n").unwrap_err(), FramingError::MalformedRequestLine);
    let long = format!("GET /{} HTTP/1.1\r\n", "a".repeat(9000));
    assert_eq!(parse_request_line(&long).unwrap_err(), FramingError::RequestLineTooLong);
}

#[test]
fn http_header_framing() {
    let start = HeaderState { header_bytes: 0, content_length: None };
    let line = "Content-Length: 12\r\n";
    let step = header_step(start, line, line.len()).unwrap();
    let state = match step {
        HeaderStep::Continue(s) => s,
        other => panic!("unexpected {other:?}"),
    };
    assert_eq!(state, HeaderState { header_bytes: line.len(), content_length: Some(12) });
    let other = header_step(state, "Host: x\r\n", 9).unwrap();
    assert_eq!(other, HeaderStep::Continue(HeaderState { header_bytes: line.len() + 9, content_length: Some(12) }));
    assert_eq!(header_step(state, "\r\n", 2).unwrap(), HeaderStep::End(Some(12)));
    assert_eq!(header_step(state, "", 0).unwrap_err(), FramingError::UnexpectedEndOfHeaders);
    assert_eq!(
        header_step(start, "content-LENGTH: nope\r\n", 22).unwrap_err(),
        FramingError::InvalidContentLength
    );
    assert_eq!(
        header_step(HeaderState { header_bytes: 16380, content_length: None }, "X: y\r\n", 6).unwrap_err(),
        FramingError::HeadersTooLong
    );
    assert_eq!(body_length(Some(999999999)).unwrap_err(), FramingError::BodyTooLarge);
    assert_eq!(body_length(None).unwrap(), 0);
    assert_eq!(body_length(Some(5)).unwrap(), 5);
}

#[test]
fn http_parse_usize_matches_std() {
    for s in ["0", "+7", "12", "", "+", "-1", "1a", "18446744073709551615", "18446744073709551616", " 1"] {
        assert_eq!(parse_usize(s), s.parse::<usize>().ok(), "input {s:?}");
    }
}

#[test]
fn http_rpc_answer_from_parsed_value() {
    let parsed = Ok(JsonValue::Object(vec![JsonMember {
        key: "error".into(),
        value: JsonValue::Object(vec![JsonMember { key: "code".into(), value: JsonValue::Str("invalid_agent".into()) }]),
    }]));
    let r = rpc_answer_response(parsed, "raw".to_string());
    assert_eq!((r.status, r.reason.as_str(), r.body.as_str()), (400, "bad_request", "raw"));
    let r = rpc_answer_response(Err("eof".to_string()), "raw".to_string());
    assert_eq!(r.status, 500);
    let r = rpc_answer_response(Ok(JsonValue::Array(vec![])), "raw".to_string());
    assert_eq!(r.status, 200);
    let e = HttpResponse::error_with_literal(404, "not_found", "\"x\"");
    assert_eq!(e.body, r#"{"error":{"code":"not_found","message":"x"}}"#);
}

#[test]
fn http_push_unknown_pane_not_found() {
    let response = json_rpc_response_to_http(
        r#"{"id":"x","error":{"code":"pane_not_found","message":"pane not found"}}"#.to_string(),
    );
    assert_eq!(response.status, 404);
    assert!(response.body.contains("pane_not_found"));
}

/// Frames a raw request the way the listener reads it, line by line.
fn frame(raw: &str) -> Result<(String, String, usize), FramingError> {
    let mut lines = raw.split_inclusive('\n');
    let request_line = lines.next().unwrap_or("");
    let (method, path) = parse_request_line(request_line)?;
    let mut state = HeaderState { header_bytes: 0, content_length: None };
    let content_length = loop {
        let line = lines.next().unwrap_or("");
        match header_step(state, line, line.len())? {
            HeaderStep::Continue(next) => state = next,
            HeaderStep::End(content_length) => break content_length,
        }
    };
    Ok((method, path, body_length(content_length)?))
}

#[test]
fn http_push_survives_bad_requests() {
    let garbage = frame("GARBAGE\r\n\r\n").unwrap_err();
    assert_eq!(garbage, FramingError::MalformedRequestLine);
    let huge = frame(&format!("POST {AGENT_REPORT_PATH} HTTP/1.1\r\nContent-Length: 999999999\r\n\r\n")).unwrap_err();
    assert_eq!(huge, FramingError::BodyTooLarge);
    for err in [garbage, huge] {
        let response = framing_error_response(err);
        assert!((400..500).contains(&response.status), "expected client error for {err:?}");
    }
    // No Content-Length: an empty body, which no report reads from.
    let (method, path, len) = frame(&format!("POST {AGENT_REPORT_PATH} HTTP/1.1\r\n\r\n")).unwrap();
    assert!(route_request(&method, &path).is_none());
    assert_eq!(len, 0);
    let refused = invalid_body_response("EOF while parsing a value at line 1 column 0");
    assert!((400..500).contains(&refused.status));
    // A valid request still frames afterwards.
    let body = r#"{"pane_id":"pane-1","state":"blocked","seq":1}"#;
    let raw = format!("POST {AGENT_REPORT_PATH} HTTP/1.1\r\nContent-Length: {}\r\nConnection: close\r\n\r\n{body}", body.len());
    let (method, path, len) = frame(&raw).unwrap();
    assert!(route_request(&method, &path).is_none());
    assert_eq!(len, body.len());
}

#[test]
fn http_error_bodies_escape_control_characters() {
    let r = HttpResponse::error(400, "bad_request", "a\tb\\c\u{1}\u{1f}/é");
    assert_eq!(r.body, r#"{"error":{"code":"bad_request","message":"a\tb\\c\u0001\u001f/é"}}"#);
    let feeds = HttpResponse::error(500, "internal_error", "\u{8}\u{c}\r");
    assert_eq!(feeds.body, r#"{"error":{"code":"internal_error","message":"\b\f\r"}}"#);
}

#[test]
fn http_error_body_reads_back_as_the_error_object() {
    for message in ["unknown path", "say \"hi\"\nthen \\ leave", "\u{0}\u{7f}\u{2028}"] {
        let r = HttpResponse::error(404, "not_found", message);
        let value: serde_json::Value = serde_json::from_str(&r.body).unwrap();
        assert_eq!(value["error"]["code"], "not_found");
        assert_eq!(value["error"]["message"], message);
        assert_eq!(value.as_object().unwrap().len(), 1);
        assert_eq!(value["error"].as_object().unwrap().len(), 2);
    }
}

#[test]
fn http_headers_last_content_length_wins() {
    let raw = format!("POST {AGENT_REPORT_PATH} HTTP/1.1\r\nContent-Length: 5\r\ncontent-LENGTH: 7\r\n\r\n");
    assert_eq!(frame(&raw).unwrap(), ("POST".to_string(), AGENT_REPORT_PATH.to_string(), 7));
    let bad_first = format!("POST {AGENT_REPORT_PATH} HTTP/1.1\r\nContent-Length: x\r\nContent-Length: 7\r\n\r\n");
    assert_eq!(frame(&bad_first).unwrap_err(), FramingError::InvalidContentLength);
    let unended = format!("POST {AGENT_REPORT_PATH} HTTP/1.1\r\nHost: a\r\n");
    assert_eq!(frame(&unended).unwrap_err(), FramingError::UnexpectedEndOfHeaders);
    let long = format!("POST {AGENT_REPORT_PATH} HTTP/1.1\r\nX: {}\r\n\r\n", "a".repeat(16384));
    assert_eq!(frame(&long).unwrap_err(), FramingError::HeadersTooLong);
}
