use herdr_badges::click::pane_id_from_marker_json;
use herdr_badges::json::{JsonMember, JsonValue};
use herdr_badges::click::{click_target_path, is_click_launch, parse_pane_id_from_marker, ClickLaunchCheck, MarkerError, MarkerState};
use herdr_badges::click::{click_handler_step, click_step_for, focus_exit_code, ClickHandlerStep};

#[test]
fn click_target_path_returns_none_off_macos() {
    // The path is only meaningful on macOS. On other platforms the
    // function returns None so the heuristic never triggers.
    assert!(click_target_path("macos").is_some(), "macOS should expose a marker path");
    assert!(click_target_path("linux").is_none(), "non-macOS should not expose a marker path");
    assert_eq!(click_target_path("macos").unwrap(), "notification_click_target.json");
}

#[test]
fn parse_pane_id_from_marker_reads_canonical_shape() {
    let body = r#"{"pane_id":"wA:pB","written_at_ms":1700000000000}"#;
    let pane_id = parse_pane_id_from_marker(body).expect("marker should parse");
    assert_eq!(pane_id, "wA:pB");
}

#[test]
fn parse_pane_id_from_marker_rejects_missing_pane_id() {
    let body = r#"{"written_at_ms":1700000000000}"#;
    let result = parse_pane_id_from_marker(body);
    assert!(result.is_err(), "marker without pane_id should error");
}

#[test]
fn parse_pane_id_from_marker_rejects_invalid_json() {
    let body = "not json";
    let result = parse_pane_id_from_marker(body);
    assert!(result.is_err(), "invalid JSON should error");
}

#[test]
fn marker_errors_carry_their_messages() {
    assert_eq!(
        parse_pane_id_from_marker(r#"{"pane_id":3}"#).unwrap_err().message(),
        "marker file missing pane_id"
    );
    match parse_pane_id_from_marker("not json").unwrap_err() {
        MarkerError::InvalidJson(m) => assert!(!m.is_empty()),
        other => panic!("unexpected {other:?}"),
    }
    assert!(parse_pane_id_from_marker("not json").unwrap_err().message().starts_with("invalid marker file: "));
}

#[test]
fn click_launch_checks_in_order() {
    assert_eq!(is_click_launch(2, false, MarkerState::Age { secs: 0, nanos: 0 }), ClickLaunchCheck::HasArgs(2));
    assert_eq!(is_click_launch(1, true, MarkerState::Age { secs: 0, nanos: 0 }), ClickLaunchCheck::StdinIsTerminal);
    assert_eq!(is_click_launch(1, false, MarkerState::NoPath), ClickLaunchCheck::NoMarkerPath);
    assert_eq!(is_click_launch(1, false, MarkerState::Missing), ClickLaunchCheck::MarkerMissing);
    assert_eq!(is_click_launch(1, false, MarkerState::NoModifiedTime), ClickLaunchCheck::MarkerTimeUnknown);
    assert_eq!(is_click_launch(1, false, MarkerState::Age { secs: 300, nanos: 0 }), ClickLaunchCheck::ClickLaunch);
    assert_eq!(is_click_launch(1, false, MarkerState::Age { secs: 300, nanos: 1 }), ClickLaunchCheck::MarkerStale(300));
    assert_eq!(is_click_launch(1, false, MarkerState::Age { secs: 301, nanos: 0 }), ClickLaunchCheck::MarkerStale(301));
}

#[test]
fn pane_id_from_parsed_marker() {
    let doc = JsonValue::Object(vec![JsonMember { key: "pane_id".into(), value: JsonValue::Str("p1".into()) }]);
    assert_eq!(pane_id_from_marker_json(Ok(doc)).unwrap(), "p1");
    assert_eq!(
        pane_id_from_marker_json(Err("bad".to_string())).unwrap_err(),
        MarkerError::InvalidJson("bad".to_string())
    );
    assert_eq!(pane_id_from_marker_json(Ok(JsonValue::Null)).unwrap_err(), MarkerError::MissingPaneId);
}

#[test]
fn click_handler_steps() {
    assert_eq!(click_handler_step(r#"{"pane_id":"p-1"}"#), ClickHandlerStep::Focus("p-1".to_string()));
    assert_eq!(click_handler_step(r#"{"pane_id":""}"#), ClickHandlerStep::Skip);
    assert_eq!(
        click_handler_step(r#"{"other":1}"#),
        ClickHandlerStep::Fail("marker file missing pane_id".to_string())
    );
    match click_handler_step("not json") {
        ClickHandlerStep::Fail(message) => assert!(message.starts_with("invalid marker file: ")),
        other => panic!("expected a failure, got {other:?}"),
    }
    assert_eq!(click_step_for(Err(MarkerError::MissingPaneId)), ClickHandlerStep::Fail("marker file missing pane_id".to_string()));
    assert_eq!(focus_exit_code(true), 0);
    assert_eq!(focus_exit_code(false), 1);
}
