//! Decisions of the notification-click launch: whether a fresh launch is a
//! click on a system notification, where its marker lives, and which pane the
//! marker names. Reading the marker, logging and sending the focus request
//! belong to the caller.

use vstd::prelude::*;
use crate::json::{JsonValue, JsonView, parse_json, json_parse_result, json_get, json_as_str};
use crate::badge_file::get_str;
use crate::text::str_eq;

verus! {

/// A marker older than this many seconds is stale.
pub const NOTIFICATION_CLICK_TARGET_MAX_AGE_SECS: u64 = 300;

/// The marker file's name under the configuration directory on macOS; no
/// marker is written on other systems.
pub fn click_target_path(target_os: &str) -> (r: Option<String>)
    ensures
        target_os@ == "macos"@ ==> (r matches Some(p) && p@ == "notification_click_target.json"@),
        target_os@ != "macos"@ ==> r is None,
{
    if str_eq(target_os, "macos") {
        Some("notification_click_target.json".to_owned())
    } else {
        None
    }
}

/// What the launch knows of the marker file.
#[derive(Debug, Clone, Copy, PartialEq, Eq)]
pub enum MarkerState {
    /// The system has no marker path.
    NoPath,
    /// The marker file is missing.
    Missing,
    /// The marker's modification time cannot be read.
    NoModifiedTime,
    /// The marker was modified this long ago (zero if in the future).
    Age { secs: u64, nanos: u32 },
}

/// Whether this launch is a notification click, and why not.
#[derive(Debug, Clone, Copy, PartialEq, Eq)]
pub enum ClickLaunchCheck {
    /// Arguments were passed (their number, the program included).
    HasArgs(usize),
    /// Standard input is a terminal.
    StdinIsTerminal,
    /// No marker path on this system.
    NoMarkerPath,
    /// The marker file is missing.
    MarkerMissing,
    /// The marker's modification time cannot be read.
    MarkerTimeUnknown,
    /// The marker is stale; its age in whole seconds.
    MarkerStale(u64),
    /// All checks passed.
    ClickLaunch,
}

/// A launch is a notification click when it has no argument besides the
/// program, standard input is not a terminal, and a marker file exists that
/// is at most five minutes old. The checks run in that order and the first
/// that fails names the reason.
pub fn is_click_launch(arg_count: usize, stdin_is_terminal: bool, marker: MarkerState) -> (r: ClickLaunchCheck)
    ensures
        arg_count != 1 ==> r == ClickLaunchCheck::HasArgs(arg_count),
        arg_count == 1 && stdin_is_terminal ==> r == ClickLaunchCheck::StdinIsTerminal,
        arg_count == 1 && !stdin_is_terminal ==> r == match marker {
            MarkerState::NoPath => ClickLaunchCheck::NoMarkerPath,
            MarkerState::Missing => ClickLaunchCheck::MarkerMissing,
            MarkerState::NoModifiedTime => ClickLaunchCheck::MarkerTimeUnknown,
            MarkerState::Age { secs, nanos } => if secs > NOTIFICATION_CLICK_TARGET_MAX_AGE_SECS || (
            secs == NOTIFICATION_CLICK_TARGET_MAX_AGE_SECS && nanos > 0) {
                ClickLaunchCheck::MarkerStale(secs)
            } else {
                ClickLaunchCheck::ClickLaunch
            },
        },
{
    if arg_count != 1 {
        return ClickLaunchCheck::HasArgs(arg_count);
    }
    if stdin_is_terminal {
        return ClickLaunchCheck::StdinIsTerminal;
    }
    match marker {
        MarkerState::NoPath => ClickLaunchCheck::NoMarkerPath,
        MarkerState::Missing => ClickLaunchCheck::MarkerMissing,
        MarkerState::NoModifiedTime => ClickLaunchCheck::MarkerTimeUnknown,
        MarkerState::Age { secs, nanos } => {
            if secs > NOTIFICATION_CLICK_TARGET_MAX_AGE_SECS || (secs
                == NOTIFICATION_CLICK_TARGET_MAX_AGE_SECS && nanos > 0) {
                ClickLaunchCheck::MarkerStale(secs)
            } else {
                ClickLaunchCheck::ClickLaunch
            }
        },
    }
}

/// Why a marker names no pane.
#[derive(Debug, Clone, PartialEq, Eq)]
pub enum MarkerError {
    /// The marker is not JSON; the parser's message.
    InvalidJson(String),
    /// The marker has no string `pane_id`.
    MissingPaneId,
}

impl MarkerError {
    /// The message the handler reports.
    pub fn message(&self) -> (r: String)
        ensures
            r@ == match self {
                MarkerError::InvalidJson(m) => "invalid marker file: "@ + m@,
                MarkerError::MissingPaneId => "marker file missing pane_id"@,
            },
    {
        match self {
            MarkerError::InvalidJson(m) => "invalid marker file: ".to_owned().concat(m.as_str()),
            MarkerError::MissingPaneId => "marker file missing pane_id".to_owned(),
        }
    }
}

/// The pane a marker document names: its string `pane_id`.
pub open spec fn marker_pane_id(parsed: Result<JsonView, Seq<char>>) -> Result<Seq<char>, Option<Seq<char>>> {
    match parsed {
        Err(m) => Err(Some(m)),
        Ok(v) => match get_str(v, "pane_id"@) {
            Some(p) => Ok(p),
            None => Err(None),
        },
    }
}

/// The view of a marker result: the pane id, or the parser's message (none
/// when the pane id is what is missing).
pub open spec fn marker_result_view(r: Result<String, MarkerError>) -> Result<Seq<char>, Option<Seq<char>>> {
    match r {
        Ok(p) => Ok(p@),
        Err(MarkerError::InvalidJson(m)) => Err(Some(m@)),
        Err(MarkerError::MissingPaneId) => Err(None),
    }
}

/// The pane id a marker document names, given the parse of the marker.
pub fn pane_id_from_marker_json(parsed: Result<JsonValue, String>) -> (r: Result<String, MarkerError>)
    ensures
        marker_result_view(r) == marker_pane_id(match parsed {
            Ok(v) => Ok::<JsonView, Seq<char>>(v@),
            Err(m) => Err::<JsonView, Seq<char>>(m@),
        }),
{
    match parsed {
        Err(m) => Err(MarkerError::InvalidJson(m)),
        Ok(v) => match json_get(&v, "pane_id") {
            Some(p) => match json_as_str(p) {
                Some(s) => Ok(s.clone()),
                None => Err(MarkerError::MissingPaneId),
            },
            None => Err(MarkerError::MissingPaneId),
        },
    }
}

/// The pane id a marker file's contents name.
pub fn parse_pane_id_from_marker(body: &str) -> (r: Result<String, MarkerError>)
    ensures
        marker_result_view(r) == marker_pane_id(json_parse_result(vstd::utf8::encode_utf8(body@))),
{
    pane_id_from_marker_json(parse_json(body.as_bytes()))
}

/// What the click handler does with a marker's contents.
#[derive(Debug, Clone, PartialEq, Eq)]
pub enum ClickHandlerStep {
    /// The marker names no pane: fail with this message.
    Fail(String),
    /// The pane id is empty: nothing is sent and the handler exits with 0.
    Skip,
    /// Send a focus request for this pane.
    Focus(String),
}

/// The step a marker result calls for.
pub open spec fn step_for(marker: Result<Seq<char>, Option<Seq<char>>>) -> (char, Seq<char>) {
    match marker {
        Err(Some(m)) => ('f', "invalid marker file: "@ + m),
        Err(None) => ('f', "marker file missing pane_id"@),
        Ok(p) => if p.len() == 0 {
            ('s', Seq::empty())
        } else {
            ('p', p)
        },
    }
}

/// The view of a step: its kind (`f`ail, `s`kip, `p`ane focus) and its text.
pub open spec fn step_view(step: ClickHandlerStep) -> (char, Seq<char>) {
    match step {
        ClickHandlerStep::Fail(m) => ('f', m@),
        ClickHandlerStep::Skip => ('s', Seq::empty()),
        ClickHandlerStep::Focus(p) => ('p', p@),
    }
}

/// The step for a marker already read: fail with the marker's message, skip
/// an empty pane id, or focus the pane.
pub fn click_step_for(marker: Result<String, MarkerError>) -> (r: ClickHandlerStep)
    ensures
        step_view(r) == step_for(marker_result_view(marker)),
{
    match marker {
        Err(e) => ClickHandlerStep::Fail(e.message()),
        Ok(p) => if p.as_str().is_empty() {
            ClickHandlerStep::Skip
        } else {
            ClickHandlerStep::Focus(p)
        },
    }
}

/// The step a marker file's contents call for.
pub fn click_handler_step(body: &str) -> (r: ClickHandlerStep)
    ensures
        step_view(r) == step_for(marker_pane_id(json_parse_result(vstd::utf8::encode_utf8(body@)))),
{
    click_step_for(parse_pane_id_from_marker(body))
}

/// The exit code after the focus request: 0 when it was sent, 1 when sending
/// failed.
pub fn focus_exit_code(sent: bool) -> (r: i32)
    ensures
        r == (if sent { 0i32 } else { 1i32 }),
{
    if sent { 0 } else { 1 }
}

} // verus!
