//! Decisions of the loopback HTTP listener for agent state reports: framing
//! of a request read line by line, routing, and the mapping of the
//! JSON-RPC answer into an HTTP response. Sockets, threads and the dispatch
//! itself belong to the caller.

use vstd::prelude::*;
use crate::json::{JsonValue, JsonView, parse_json, json_parse_result, json_get, json_as_str, view_get, view_str, to_json_string, json_string_literal,
    json_escape, json_unescape, law_json_string_reads_back};
use crate::text::{
    str_chars, sub_chars, str_eq, trim_ws, skip_ws, back_ws, is_ws, is_whitespace, find_char,
    find_in, lemma_find_char_bounds, lower, to_lower, utf8_len, utf8_len_exceeds, trim_bounds,
    compare_chars, KeyOrder, dec_value, all_digits,
};

verus! {

/// The single endpoint the listener serves.
pub const AGENT_REPORT_PATH: &'static str = "/api/v1/pane/report/agent";

/// Largest body accepted, in bytes.
pub const MAX_BODY_BYTES: usize = 1048576;

/// Longest request line accepted, in bytes.
pub const MAX_REQUEST_LINE_BYTES: usize = 8192;

/// Most header bytes accepted.
pub const MAX_HEADER_BYTES: usize = 16384;

/// An HTTP response: status, reason phrase, and a JSON body.
#[derive(Debug, Clone, PartialEq, Eq)]
pub struct HttpResponse {
    pub status: u16,
    pub reason: String,
    pub body: String,
}

/// What an HTTP response holds.
pub open spec fn response_view(r: HttpResponse) -> (u16, Seq<char>, Seq<char>) {
    (r.status, r.reason@, r.body@)
}

/// The body of an error response: the reason as its code, the message as a
/// JSON string.
pub open spec fn error_body(reason: Seq<char>, message: Seq<char>) -> Seq<char> {
    "{\"error\":{\"code\":\""@ + reason + "\",\"message\":"@ + json_string_literal(message) + "}}"@
}

/// The fixed text of an error body before its message: the reason as the code.
pub open spec fn error_head(reason: Seq<char>) -> Seq<char> {
    "{\"error\":{\"code\":\""@ + reason + "\",\"message\":"@
}

/// An error body reads back as what it was made of: the head naming the
/// reason as the code, then the message as a JSON string literal whose inside
/// stands for the message exactly, then `}}`. So the body determines the
/// message: two messages give two bodies.
pub proof fn law_error_body_reads_back(reason: Seq<char>, message: Seq<char>, other: Seq<char>)
    ensures
        ({
            let body = error_body(reason, message);
            let h = error_head(reason).len() as int;
            &&& body.take(h) == error_head(reason)
            &&& body[h] == '"'
            &&& body.skip(body.len() - 3) == "\"}}"@
            &&& json_unescape(body.subrange(h + 1, body.len() - 3)) == message
        }),
        error_body(reason, other) == error_body(reason, message) ==> other == message,
{
    reveal_strlit("}}");
    reveal_strlit("\"}}");
    law_json_string_reads_back(message);
    law_json_string_reads_back(other);
    let head = error_head(reason);
    let h = head.len() as int;
    let esc = json_escape(message);
    let body = error_body(reason, message);
    assert(body =~= head + seq!['"'] + esc + seq!['"'] + "}}"@);
    assert(body.take(h) =~= head);
    assert(body.subrange(h + 1, body.len() - 3) =~= esc);
    assert(body.skip(body.len() - 3) =~= "\"}}"@);
    let body2 = error_body(reason, other);
    let esc2 = json_escape(other);
    assert(body2 =~= head + seq!['"'] + esc2 + seq!['"'] + "}}"@);
    if body2 == body {
        assert(body2.subrange(h + 1, body2.len() - 3) =~= esc2);
    }
}

impl HttpResponse {
    /// A response with a JSON body.
    pub fn json(status: u16, reason: &str, body: String) -> (r: Self)
        ensures
            response_view(r) == (status, reason@, body@),
    {
        HttpResponse { status, reason: reason.to_owned(), body }
    }

    /// An error response whose body names the reason as its code and carries
    /// the message.
    pub fn error(status: u16, reason: &str, message: &str) -> (r: Self)
        ensures
            response_view(r) == (status, reason@, error_body(reason@, message@)),
    {
        let literal = to_json_string(message);
        Self::error_with_literal(status, reason, literal.as_str())
    }

    /// An error response whose message is already written as a JSON string
    /// literal.
    pub fn error_with_literal(status: u16, reason: &str, message_literal: &str) -> (r: Self)
        ensures
            response_view(r) == (
                status,
                reason@,
                "{\"error\":{\"code\":\""@ + reason@ + "\",\"message\":"@ + message_literal@ + "}}"@,
            ),
    {
        let body = "{\"error\":{\"code\":\"".to_owned().concat(reason).concat("\",\"message\":").concat(
            message_literal,
        ).concat("}}");
        Self::json(status, reason, body)
    }
}

/// Where a request goes: the report path takes `POST` alone (in any ASCII
/// case); any other path is not found.
pub open spec fn route_error(method: Seq<char>, path: Seq<char>) -> Option<(u16, Seq<char>, Seq<char>)> {
    if path != AGENT_REPORT_PATH@ {
        Some((404, "not_found"@, error_body("not_found"@, "unknown path"@)))
    } else if lower(method) != "post"@ {
        Some((405, "method_not_allowed"@, error_body("method_not_allowed"@, "use POST"@)))
    } else {
        None
    }
}

/// Routing by path comes first: a request for any path other than the report
/// path is answered 404 `not_found` ("unknown path") whatever its method. 405
/// `method_not_allowed` ("use POST") comes only on the report path, for a
/// method that is not POST in any ASCII case; a POST there is dispatched.
pub proof fn law_route_statuses(method: Seq<char>, path: Seq<char>)
    ensures
        path != AGENT_REPORT_PATH@ ==> route_error(method, path) == Some(
            (404u16, "not_found"@, error_body("not_found"@, "unknown path"@)),
        ),
        path == AGENT_REPORT_PATH@ && lower(method) != "post"@ ==> route_error(method, path) == Some(
            (405u16, "method_not_allowed"@, error_body("method_not_allowed"@, "use POST"@)),
        ),
        path == AGENT_REPORT_PATH@ && lower(method) == "post"@ ==> route_error(method, path) is None,
        (route_error(method, path) matches Some((status, _, _)) && status == 405) ==> path == AGENT_REPORT_PATH@,
{
}

/// The error response a request gets before its body is read, if any; `None`
/// means the report is to be dispatched.
pub fn route_request(method: &str, path: &str) -> (r: Option<HttpResponse>)
    ensures
        match route_error(method@, path@) {
            Some(v) => r matches Some(resp) && response_view(resp) == v,
            None => r is None,
        },
{
    if !str_eq(path, AGENT_REPORT_PATH) {
        return Some(HttpResponse::error(404, "not_found", "unknown path"));
    }
    let m = to_lower(&str_chars(method));
    let post = str_chars("post");
    match compare_chars(m.as_slice(), post.as_slice()) {
        KeyOrder::Equal => None,
        _ => Some(HttpResponse::error(405, "method_not_allowed", "use POST")),
    }
}

/// The response to a report body that does not read as a report.
pub fn invalid_body_response(err: &str) -> (r: HttpResponse)
    ensures
        response_view(r) == (400u16, "bad_request"@, error_body("bad_request"@, "invalid body: "@ + err@)),
{
    let message = "invalid body: ".to_owned().concat(err);
    HttpResponse::error(400, "bad_request", message.as_str())
}

/// The HTTP status and reason that a JSON-RPC answer maps to: an answer with
/// an `error` member maps by its error code, any other JSON answer is `200 ok`,
/// and an answer that is not JSON is an internal error.
pub open spec fn rpc_status(parsed: Result<JsonView, Seq<char>>) -> (u16, Seq<char>) {
    match parsed {
        Err(_) => (500, "internal_error"@),
        Ok(v) => match view_get(v, "error"@) {
            None => (200, "ok"@),
            Some(e) => {
                let code = match view_get(e, "code"@) {
                    Some(c) => match view_str(c) {
                        Some(s) => s,
                        None => Seq::empty(),
                    },
                    None => Seq::empty(),
                };
                if code == "pane_not_found"@ {
                    (404, "not_found"@)
                } else if code == "invalid_agent"@ {
                    (400, "bad_request"@)
                } else if code == "server_unavailable"@ {
                    (503, "service_unavailable"@)
                } else {
                    (500, "internal_error"@)
                }
            },
        },
    }
}

/// The string `code` of an answer's `error` member, empty when there is none.
pub open spec fn error_code_of(e: JsonView) -> Seq<char> {
    match view_get(e, "code"@) {
        Some(c) => match view_str(c) {
            Some(s) => s,
            None => Seq::empty(),
        },
        None => Seq::empty(),
    }
}

/// How JSON-RPC answers map to HTTP: an answer without an `error` member is
/// `200 ok`; an error coded `pane_not_found` is `404 not_found`,
/// `invalid_agent` is `400 bad_request`, `server_unavailable` is
/// `503 service_unavailable`, and any other error is `500 internal_error`, as
/// is an answer that is not JSON.
pub proof fn law_rpc_statuses(v: JsonView, m: Seq<char>)
    ensures
        rpc_status(Err(m)) == (500u16, "internal_error"@),
        view_get(v, "error"@) is None ==> rpc_status(Ok(v)) == (200u16, "ok"@),
        view_get(v, "error"@) matches Some(e) ==> {
            let code = error_code_of(e);
            &&& code == "pane_not_found"@ ==> rpc_status(Ok(v)) == (404u16, "not_found"@)
            &&& code == "invalid_agent"@ ==> rpc_status(Ok(v)) == (400u16, "bad_request"@)
            &&& code == "server_unavailable"@ ==> rpc_status(Ok(v)) == (503u16, "service_unavailable"@)
            &&& (code != "pane_not_found"@ && code != "invalid_agent"@ && code != "server_unavailable"@)
                ==> rpc_status(Ok(v)) == (500u16, "internal_error"@)
        },
{
    reveal_strlit("pane_not_found");
    reveal_strlit("invalid_agent");
    reveal_strlit("server_unavailable");
    if let Some(e) = view_get(v, "error"@) {
        let code = error_code_of(e);
        let expected: (u16, Seq<char>) = if code == "pane_not_found"@ {
            (404u16, "not_found"@)
        } else if code == "invalid_agent"@ {
            (400u16, "bad_request"@)
        } else if code == "server_unavailable"@ {
            (503u16, "service_unavailable"@)
        } else {
            (500u16, "internal_error"@)
        };
        assert(rpc_status(Ok(v)) == expected);
        assert("pane_not_found"@.len() == 14);
        assert("invalid_agent"@.len() == 13);
        assert("server_unavailable"@.len() == 18);
    }
}

/// The response carrying a JSON-RPC answer, given the parse of the answer.
pub fn rpc_answer_response(parsed: Result<JsonValue, String>, response: String) -> (r: HttpResponse)
    ensures
        ({
            let p = match parsed {
                Ok(v) => Ok::<JsonView, Seq<char>>(v@),
                Err(m) => Err::<JsonView, Seq<char>>(m@),
            };
            response_view(r) == (rpc_status(p).0, rpc_status(p).1, response@)
        }),
{
    match parsed {
        Err(_) => HttpResponse::json(500, "internal_error", response),
        Ok(value) => match json_get(&value, "error") {
            None => HttpResponse::json(200, "ok", response),
            Some(e) => {
                let code: String = match json_get(e, "code") {
                    Some(c) => match json_as_str(c) {
                        Some(s) => s.clone(),
                        None => String::new(),
                    },
                    None => String::new(),
                };
                if str_eq(code.as_str(), "pane_not_found") {
                    HttpResponse::json(404, "not_found", response)
                } else if str_eq(code.as_str(), "invalid_agent") {
                    HttpResponse::json(400, "bad_request", response)
                } else if str_eq(code.as_str(), "server_unavailable") {
                    HttpResponse::json(503, "service_unavailable", response)
                } else {
                    HttpResponse::json(500, "internal_error", response)
                }
            },
        },
    }
}

/// Maps a JSON-RPC answer to the HTTP response that carries it.
pub fn json_rpc_response_to_http(response: String) -> (r: HttpResponse)
    ensures
        response_view(r) == (
            rpc_status(json_parse_result(vstd::utf8::encode_utf8(response@))).0,
            rpc_status(json_parse_result(vstd::utf8::encode_utf8(response@))).1,
            response@,
        ),
{
    let parsed = parse_json(response.as_str().as_bytes());
    rpc_answer_response(parsed, response)
}

/// Why a request could not be framed.
#[derive(Debug, Clone, Copy, PartialEq, Eq)]
pub enum FramingError {
    RequestLineTooLong,
    MalformedRequestLine,
    UnexpectedEndOfHeaders,
    HeadersTooLong,
    InvalidContentLength,
    BodyTooLarge,
}

/// The message of a framing error.
pub open spec fn framing_message(e: FramingError) -> Seq<char> {
    match e {
        FramingError::RequestLineTooLong => "request line too long"@,
        FramingError::MalformedRequestLine => "malformed request line"@,
        FramingError::UnexpectedEndOfHeaders => "unexpected end of headers"@,
        FramingError::HeadersTooLong => "headers too long"@,
        FramingError::InvalidContentLength => "invalid content-length"@,
        FramingError::BodyTooLarge => "body too large"@,
    }
}

impl FramingError {
    /// The message of the error, as the `400` response carries it.
    pub fn message(&self) -> (r: String)
        ensures
            r@ == framing_message(*self),
    {
        match self {
            FramingError::RequestLineTooLong => "request line too long".to_owned(),
            FramingError::MalformedRequestLine => "malformed request line".to_owned(),
            FramingError::UnexpectedEndOfHeaders => "unexpected end of headers".to_owned(),
            FramingError::HeadersTooLong => "headers too long".to_owned(),
            FramingError::InvalidContentLength => "invalid content-length".to_owned(),
            FramingError::BodyTooLarge => "body too large".to_owned(),
        }
    }
}

/// The answer to a request that could not be framed: `400 bad_request` with
/// the framing error's message.
pub fn framing_error_response(e: FramingError) -> (r: HttpResponse)
    ensures
        response_view(r) == (400u16, "bad_request"@, error_body("bad_request"@, framing_message(e))),
{
    let message = e.message();
    HttpResponse::error(400, "bad_request", message.as_str())
}

/// The first position at or after `i` that is whitespace (or the end).
pub open spec fn skip_word(s: Seq<char>, i: int) -> int
    decreases s.len() - i,
{
    if 0 <= i < s.len() && !is_ws(s[i]) {
        skip_word(s, i + 1)
    } else {
        i
    }
}

/// The first two whitespace-separated words of `s` (empty when absent), as
/// `str::split_whitespace` yields them.
pub open spec fn first_two_words(s: Seq<char>) -> (Seq<char>, Seq<char>) {
    let a0 = skip_ws(s, 0);
    let a1 = skip_word(s, a0);
    let b0 = skip_ws(s, a1);
    let b1 = skip_word(s, b0);
    (s.subrange(a0, a1), s.subrange(b0, b1))
}

proof fn lemma_skip_ws_le(s: Seq<char>, i: int)
    requires
        0 <= i <= s.len(),
    ensures
        i <= skip_ws(s, i) <= s.len(),
    decreases s.len() - i,
{
    if i < s.len() && is_ws(s[i]) {
        lemma_skip_ws_le(s, i + 1);
    }
}

fn skip_ws_from(cs: &Vec<char>, i: usize) -> (r: usize)
    requires
        i <= cs@.len(),
    ensures
        r == skip_ws(cs@, i as int),
        i <= r <= cs@.len(),
{
    let mut j = i;
    proof {
        lemma_skip_ws_le(cs@, i as int);
    }
    while j < cs.len() && is_whitespace(cs[j])
        invariant
            i <= j <= cs@.len(),
            skip_ws(cs@, i as int) == skip_ws(cs@, j as int),
        decreases cs.len() - j,
    {
        j = j + 1;
    }
    j
}

fn skip_word_from(cs: &Vec<char>, i: usize) -> (r: usize)
    requires
        i <= cs@.len(),
    ensures
        r == skip_word(cs@, i as int),
        i <= r <= cs@.len(),
{
    let mut j = i;
    while j < cs.len() && !is_whitespace(cs[j])
        invariant
            i <= j <= cs@.len(),
            skip_word(cs@, i as int) == skip_word(cs@, j as int),
        decreases cs.len() - j,
    {
        j = j + 1;
    }
    j
}

/// What a request line gives: its method and path, when the line is at most
/// the line limit in bytes and has both.
pub open spec fn request_line_result(line: Seq<char>) -> Result<(Seq<char>, Seq<char>), FramingError> {
    if utf8_len(line) > MAX_REQUEST_LINE_BYTES {
        Err(FramingError::RequestLineTooLong)
    } else {
        let (m, p) = first_two_words(line);
        if m.len() == 0 || p.len() == 0 {
            Err(FramingError::MalformedRequestLine)
        } else {
            Ok((m, p))
        }
    }
}

/// Reads the method and path of a request line (as read, with its line end).
pub fn parse_request_line(line: &str) -> (r: Result<(String, String), FramingError>)
    ensures
        match request_line_result(line@) {
            Ok((m, p)) => r matches Ok((rm, rp)) && rm@ == m && rp@ == p,
            Err(e) => r == Err::<(String, String), FramingError>(e),
        },
{
    if utf8_len_exceeds(line, MAX_REQUEST_LINE_BYTES) {
        return Err(FramingError::RequestLineTooLong);
    }
    let cs = str_chars(line);
    let a0 = skip_ws_from(&cs, 0);
    let a1 = skip_word_from(&cs, a0);
    let b0 = skip_ws_from(&cs, a1);
    let b1 = skip_word_from(&cs, b0);
    if a1 == a0 || b1 == b0 {
        return Err(FramingError::MalformedRequestLine);
    }
    let method = line.substring_char(a0, a1).to_owned();
    let path = line.substring_char(b0, b1).to_owned();
    Ok((method, path))
}

/// What `str::parse::<usize>` gives: an optional `+`, then one or more
/// decimal digits whose value fits in `usize`.
pub open spec fn usize_of(s: Seq<char>) -> Option<usize> {
    let d = unsigned_digits(s);
    if d.len() > 0 && all_digits(d) && dec_value(d) <= usize::MAX {
        Some(dec_value(d) as usize)
    } else {
        None
    }
}

/// `s` without one leading `+`.
pub open spec fn unsigned_digits(s: Seq<char>) -> Seq<char> {
    if s.len() > 0 && s[0] == '+' {
        s.drop_first()
    } else {
        s
    }
}

/// Reads a `usize` as `str::parse::<usize>` does.
pub fn parse_usize(s: &str) -> (r: Option<usize>)
    ensures
        r == usize_of(s@),
{
    parse_usize_chars(str_chars(s).as_slice())
}

/// Reads a `usize` from characters as `str::parse::<usize>` does.
fn parse_usize_chars(cs: &[char]) -> (r: Option<usize>)
    ensures
        r == usize_of(cs@),
{
    let start: usize = if cs.len() > 0 && cs[0] == '+' { 1 } else { 0 };
    let ghost d = unsigned_digits(cs@);
    assert(d =~= cs@.subrange(start as int, cs@.len() as int));
    if start >= cs.len() {
        return None;
    }
    let mut v: usize = 0;
    let mut i: usize = start;
    while i < cs.len()
        invariant
            start <= i <= cs@.len(),
            d == unsigned_digits(cs@),
            d == cs@.subrange(start as int, cs@.len() as int),
            forall|k: int| 0 <= k < i - start ==> '0' <= #[trigger] d[k] && d[k] <= '9',
            v == dec_value(d.take(i - start)),
        decreases cs.len() - i,
    {
        let c = cs[i];
        if c < '0' || c > '9' {
            assert(d[i - start] == c);
            assert(!('0' <= d[i - start] && d[i - start] <= '9'));
            assert(!all_digits(d));
            return None;
        }
        assert(d.take(i - start + 1).drop_last() =~= d.take(i - start));
        assert(d.take(i - start + 1).last() == c);
        let digit = (c as u32 - '0' as u32) as usize;
        match v.checked_mul(10) {
            Some(t) => match t.checked_add(digit) {
                Some(nv) => {
                    v = nv;
                },
                None => {
                    proof {
                        if all_digits(d) {
                            lemma_dec_value_prefix(d, i - start + 1);
                        }
                    }
                    return None;
                },
            },
            None => {
                proof {
                    if all_digits(d) {
                        lemma_dec_value_prefix(d, i - start + 1);
                    }
                }
                return None;
            },
        }
        i = i + 1;
    }
    assert(d.take(i - start) =~= d);
    Some(v)
}

/// A numeral of digits is at least the value of any of its prefixes.
proof fn lemma_dec_value_prefix(d: Seq<char>, n: int)
    requires
        0 <= n <= d.len(),
        all_digits(d),
    ensures
        dec_value(d.take(n)) <= dec_value(d),
    decreases d.len() - n,
{
    if n < d.len() {
        lemma_dec_value_prefix(d, n + 1);
        assert(d.take(n + 1).drop_last() =~= d.take(n));
        lemma_dec_value_nonneg(d.take(n));
    } else {
        assert(d.take(n) =~= d);
    }
}

proof fn lemma_dec_value_nonneg(d: Seq<char>)
    requires
        all_digits(d),
    ensures
        dec_value(d) >= 0,
    decreases d.len(),
{
    if d.len() > 0 {
        lemma_dec_value_nonneg(d.drop_last());
    }
}

/// What the headers read so far give.
#[derive(Debug, Clone, Copy, PartialEq, Eq)]
pub struct HeaderState {
    /// Bytes of header lines read so far.
    pub header_bytes: usize,
    /// The last `Content-Length` read, if any.
    pub content_length: Option<usize>,
}

/// What one header line does to the framing.
#[derive(Debug, Clone, Copy, PartialEq, Eq)]
pub enum HeaderStep {
    /// Read the next header line with this state.
    Continue(HeaderState),
    /// The headers ended; the `Content-Length` read, if any.
    End(Option<usize>),
}

/// `s` without trailing whitespace, as `str::trim_end` gives it.
pub open spec fn trim_end_ws(s: Seq<char>) -> Seq<char> {
    s.take(back_ws(s, 0, s.len() as int))
}

/// Whether a header line (trailing whitespace removed) is a `Content-Length`
/// header: its name, before the first `:` and trimmed, is `content-length`
/// in any ASCII case.
pub open spec fn names_content_length(t: Seq<char>) -> bool {
    let c = find_char(t, ':', 0);
    c < t.len() && lower(trim_ws(t.take(c))) == "content-length"@
}

/// The value of a header line: what follows its first `:`, trimmed.
pub open spec fn header_value(t: Seq<char>) -> Seq<char> {
    trim_ws(t.skip(find_char(t, ':', 0) + 1))
}

/// What reading one header line (`bytes` bytes as read, line end included)
/// does: an empty read ends the headers too early; too many header bytes are
/// refused; a blank line ends the headers; a `Content-Length` header (name in
/// any ASCII case) must hold a `usize`, and the last one wins.
pub open spec fn header_step_result(state: HeaderState, line: Seq<char>, bytes: nat) -> Result<HeaderStep, FramingError> {
    if bytes == 0 {
        Err(FramingError::UnexpectedEndOfHeaders)
    } else if state.header_bytes + bytes > MAX_HEADER_BYTES {
        Err(FramingError::HeadersTooLong)
    } else {
        let total = (state.header_bytes + bytes) as usize;
        let t = trim_end_ws(line);
        if t.len() == 0 {
            Ok(HeaderStep::End(state.content_length))
        } else {
            if names_content_length(t) {
                match usize_of(header_value(t)) {
                    Some(n) => Ok(HeaderStep::Continue(HeaderState { header_bytes: total, content_length: Some(n) })),
                    None => Err(FramingError::InvalidContentLength),
                }
            } else {
                Ok(HeaderStep::Continue(HeaderState { header_bytes: total, content_length: state.content_length }))
            }
        }
    }
}

/// Reads one header line.
pub fn header_step(state: HeaderState, line: &str, bytes: usize) -> (r: Result<HeaderStep, FramingError>)
    ensures
        r == header_step_result(state, line@, bytes as nat),
{
    if bytes == 0 {
        return Err(FramingError::UnexpectedEndOfHeaders);
    }
    if state.header_bytes > MAX_HEADER_BYTES || bytes > MAX_HEADER_BYTES - state.header_bytes {
        return Err(FramingError::HeadersTooLong);
    }
    let total = state.header_bytes + bytes;
    let cs = str_chars(line);
    let mut b: usize = cs.len();
    while b > 0 && is_whitespace(cs[b - 1])
        invariant
            b <= cs@.len(),
            back_ws(cs@, 0, cs@.len() as int) == back_ws(cs@, 0, b as int),
        decreases b,
    {
        b = b - 1;
    }
    let t = sub_chars(cs.as_slice(), 0, b);
    assert(t@ =~= trim_end_ws(line@));
    if t.len() == 0 {
        return Ok(HeaderStep::End(state.content_length));
    }
    let c = find_in(t.as_slice(), ':');
    proof {
        lemma_find_char_bounds(t@, ':', 0);
    }
    if c < t.len() {
        let name = sub_chars(t.as_slice(), 0, c);
        let (na, nb) = trim_bounds(name.as_slice());
        let name_t = sub_chars(name.as_slice(), na, nb);
        let name_l = to_lower(&name_t);
        let target = str_chars("content-length");
        if let KeyOrder::Equal = compare_chars(name_l.as_slice(), target.as_slice()) {
            let value = sub_chars(t.as_slice(), c + 1, t.len());
            assert(value@ =~= t@.skip(c + 1));
            let (va, vb) = trim_bounds(value.as_slice());
            let text = sub_chars(value.as_slice(), va, vb);
            return match parse_usize_chars(text.as_slice()) {
                Some(n) => Ok(HeaderStep::Continue(HeaderState { header_bytes: total, content_length: Some(n) })),
                None => Err(FramingError::InvalidContentLength),
            };
        }
    }
    Ok(HeaderStep::Continue(HeaderState { header_bytes: total, content_length: state.content_length }))
}

/// The body length announced by a `Content-Length` read (none: an empty
/// body); more than the body limit is refused.
pub open spec fn body_length_result(content_length: Option<usize>) -> Result<usize, FramingError> {
    match content_length {
        Some(n) => if n > MAX_BODY_BYTES {
            Err(FramingError::BodyTooLarge)
        } else {
            Ok(n)
        },
        None => Ok(0),
    }
}

/// The body length a request announces: its `Content-Length`, or none when
/// absent; more than the body limit is refused.
pub fn body_length(content_length: Option<usize>) -> (r: Result<usize, FramingError>)
    ensures
        r == body_length_result(content_length),
{
    let n = match content_length {
        Some(n) => n,
        None => 0,
    };
    if n > MAX_BODY_BYTES {
        Err(FramingError::BodyTooLarge)
    } else {
        Ok(n)
    }
}

} // verus!
