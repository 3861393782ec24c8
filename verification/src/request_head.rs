//! What reading a whole request head gives: the request line, then header
//! lines up to the first blank one, each read by the steps of `http`.

use vstd::prelude::*;
use crate::http::{
    header_step_result, request_line_result, body_length_result, first_two_words, trim_end_ws,
    names_content_length, header_value, usize_of, FramingError, HeaderState, HeaderStep,
    MAX_HEADER_BYTES, MAX_REQUEST_LINE_BYTES, MAX_BODY_BYTES,
};
use crate::text::{utf8_len, utf8_width};

verus! {

/// The framing state before the first header line.
pub open spec fn no_headers_yet() -> HeaderState {
    HeaderState { header_bytes: 0, content_length: None }
}

/// What reading header lines from `state` on gives, when the stream yields
/// `lines` (each as read, line end included) and then ends: the header steps
/// are taken one line after the other until the headers end or a step fails.
pub open spec fn headers_read(state: HeaderState, lines: Seq<Seq<char>>) -> Result<Option<usize>, FramingError>
    decreases lines.len(),
{
    if lines.len() == 0 {
        Err(FramingError::UnexpectedEndOfHeaders)
    } else {
        match header_step_result(state, lines[0], utf8_len(lines[0])) {
            Err(e) => Err(e),
            Ok(HeaderStep::End(cl)) => Ok(cl),
            Ok(HeaderStep::Continue(next)) => headers_read(next, lines.drop_first()),
        }
    }
}

/// What reading a request head gives when the stream yields `first`, then
/// `lines`, then ends: nothing for a stream that is empty from the start,
/// else the method, the path and the body length, or the first framing error.
pub open spec fn request_head_result(first: Seq<char>, lines: Seq<Seq<char>>) -> Result<
    Option<(Seq<char>, Seq<char>, usize)>,
    FramingError,
> {
    if first.len() == 0 {
        Ok(None)
    } else {
        match request_line_result(first) {
            Err(e) => Err(e),
            Ok((m, p)) => match headers_read(no_headers_yet(), lines) {
                Err(e) => Err(e),
                Ok(cl) => match body_length_result(cl) {
                    Err(e) => Err(e),
                    Ok(n) => Ok(Some((m, p, n))),
                },
            },
        }
    }
}

/// A line that is only whitespace.
pub open spec fn is_blank(line: Seq<char>) -> bool {
    trim_end_ws(line).len() == 0
}

/// The bytes of all the lines together.
pub open spec fn bytes_total(lines: Seq<Seq<char>>) -> nat
    decreases lines.len(),
{
    if lines.len() == 0 {
        0
    } else {
        utf8_len(lines[0]) + bytes_total(lines.drop_first())
    }
}

/// Whether a line is a `Content-Length` header.
pub open spec fn is_length_header(line: Seq<char>) -> bool {
    names_content_length(trim_end_ws(line))
}

/// What a `Content-Length` line holds, read as a `usize`.
pub open spec fn length_value(line: Seq<char>) -> Option<usize> {
    usize_of(header_value(trim_end_ws(line)))
}

/// The value of the last `Content-Length` line among the first `b` lines;
/// `default` when there is none.
pub open spec fn last_length(lines: Seq<Seq<char>>, b: int, default: Option<usize>) -> Option<usize>
    decreases b,
{
    if b <= 0 {
        default
    } else if is_length_header(lines[b - 1]) {
        length_value(lines[b - 1])
    } else {
        last_length(lines, b - 1, default)
    }
}

/// The headers end at line `b`, with `used` header bytes read before them:
/// line `b` is blank, every line before it was read and is not blank, each
/// `Content-Length` among them holds a `usize`, and the lines up to and
/// including `b` stay within the header limit.
pub open spec fn headers_end_at(lines: Seq<Seq<char>>, b: int, used: nat) -> bool {
    &&& 0 <= b < lines.len()
    &&& lines[b].len() > 0
    &&& is_blank(lines[b])
    &&& forall|i: int| 0 <= i < b ==> (#[trigger] lines[i]).len() > 0 && !is_blank(lines[i])
    &&& forall|i: int| 0 <= i < b && is_length_header(#[trigger] lines[i]) ==> length_value(lines[i]) is Some
    &&& used + bytes_total(lines.take(b + 1)) <= MAX_HEADER_BYTES
}

/// The body length a `Content-Length` read announces: none means zero.
pub open spec fn announced(cl: Option<usize>) -> int {
    match cl {
        Some(n) => n as int,
        None => 0,
    }
}

/// A request line that fits the line limit and has a method and a path.
pub open spec fn request_line_ok(first: Seq<char>) -> bool {
    &&& utf8_len(first) <= MAX_REQUEST_LINE_BYTES
    &&& first_two_words(first).0.len() > 0
    &&& first_two_words(first).1.len() > 0
}

proof fn lemma_utf8_len_pos(s: Seq<char>)
    ensures
        s.len() > 0 <==> utf8_len(s) > 0,
    decreases s.len(),
{
    if s.len() > 0 {
        lemma_utf8_len_pos(s.drop_last());
        assert(utf8_width(s.last()) >= 1);
    }
}

proof fn lemma_bytes_total_split(lines: Seq<Seq<char>>, b: int)
    requires
        0 <= b < lines.len(),
    ensures
        bytes_total(lines.take(b + 1)) == utf8_len(lines[0]) + bytes_total(lines.drop_first().take(b)),
{
    let t = lines.take(b + 1);
    assert(t[0] == lines[0]);
    assert(t.drop_first() =~= lines.drop_first().take(b));
}

proof fn lemma_last_length_shift(lines: Seq<Seq<char>>, b: int, default: Option<usize>, next: Option<usize>)
    requires
        1 <= b <= lines.len(),
        next == (if is_length_header(lines[0]) { length_value(lines[0]) } else { default }),
    ensures
        last_length(lines, b, default) == last_length(lines.drop_first(), b - 1, next),
    decreases b,
{
    assert(last_length(lines, 0, default) == default);
    assert(last_length(lines.drop_first(), 0, next) == next);
    if b > 1 {
        lemma_last_length_shift(lines, b - 1, default, next);
        assert(lines.drop_first()[b - 2] == lines[b - 1]);
    }
}

proof fn lemma_headers_read(state: HeaderState, lines: Seq<Seq<char>>)
    ensures
        forall|b: int| #[trigger] headers_end_at(lines, b, state.header_bytes as nat) ==> headers_read(state, lines)
            == Ok::<Option<usize>, FramingError>(last_length(lines, b, state.content_length)),
        headers_read(state, lines) is Ok ==> exists|b: int| #[trigger] headers_end_at(lines, b, state.header_bytes as nat),
    decreases lines.len(),
{
    if lines.len() == 0 {
        return;
    }
    let l0 = lines[0];
    let w = utf8_len(l0);
    let rest = lines.drop_first();
    let used = state.header_bytes as nat;
    lemma_utf8_len_pos(l0);
    assert forall|b: int| headers_end_at(lines, b, used) implies used + w <= MAX_HEADER_BYTES && w > 0 && (b
        == 0 <==> is_blank(l0)) by {
        lemma_bytes_total_split(lines, b);
        if b > 0 {
            assert(lines[0].len() > 0 && !is_blank(lines[0]));
        }
    }
    match header_step_result(state, l0, w) {
        Err(e) => {
            assert forall|b: int| headers_end_at(lines, b, used) implies false by {
                if b > 0 {
                    assert(lines[0].len() > 0 && !is_blank(lines[0]));
                    if is_length_header(lines[0]) {
                        assert(length_value(lines[0]) is Some);
                    }
                }
            }
        },
        Ok(HeaderStep::End(cl)) => {
            let one = lines.take(1);
            assert(one.drop_first() =~= Seq::<Seq<char>>::empty());
            assert(one[0] == l0);
            assert(bytes_total(one.drop_first()) == 0);
            assert(bytes_total(one) == w);
            assert(is_blank(lines[0]));
            assert(headers_end_at(lines, 0, used));
        },
        Ok(HeaderStep::Continue(next)) => {
            lemma_headers_read(next, rest);
            let nused = next.header_bytes as nat;
            assert(nused == used + w);
            let nd = if is_length_header(l0) { length_value(l0) } else { state.content_length };
            assert(next.content_length == nd);
            assert forall|b: int| headers_end_at(lines, b, used) implies b >= 1 && headers_end_at(rest, b - 1, nused)
                && last_length(lines, b, state.content_length) == last_length(rest, b - 1, nd) by {
                lemma_bytes_total_split(lines, b);
                assert(b >= 1);
                assert forall|i: int| 0 <= i < b - 1 implies (#[trigger] rest[i]).len() > 0 && !is_blank(rest[i]) by {
                    assert(rest[i] == lines[i + 1]);
                }
                assert forall|i: int| 0 <= i < b - 1 && is_length_header(#[trigger] rest[i]) implies length_value(
                    rest[i],
                ) is Some by {
                    assert(rest[i] == lines[i + 1]);
                }
                lemma_last_length_shift(lines, b, state.content_length, nd);
            }
            assert forall|b: int| headers_end_at(rest, b, nused) implies headers_end_at(lines, b + 1, used) by {
                lemma_bytes_total_split(lines, b + 1);
                assert forall|i: int| 0 <= i < b + 1 implies (#[trigger] lines[i]).len() > 0 && !is_blank(lines[i]) by {
                    if i > 0 {
                        assert(lines[i] == rest[i - 1]);
                    }
                }
                assert forall|i: int| 0 <= i < b + 1 && is_length_header(#[trigger] lines[i]) implies length_value(
                    lines[i],
                ) is Some by {
                    if i > 0 {
                        assert(lines[i] == rest[i - 1]);
                    }
                }
                assert(lines[b + 1] == rest[b]);
            }
            if headers_read(state, lines) is Ok {
                let b = choose|b: int| headers_end_at(rest, b, nused);
                assert(headers_end_at(lines, b + 1, used));
            }
        },
    }
}

/// Reading the headers of a request succeeds exactly when they end at some
/// line `b`: the first blank line, every line before it read and holding a
/// `usize` wherever it is a `Content-Length`, all of them within the header
/// limit. The length read is that of the last `Content-Length` before `b`,
/// or none.
pub proof fn law_headers_read(lines: Seq<Seq<char>>)
    ensures
        headers_read(no_headers_yet(), lines) is Ok <==> exists|b: int| #[trigger] headers_end_at(lines, b, 0),
        forall|b: int| #[trigger] headers_end_at(lines, b, 0) ==> headers_read(no_headers_yet(), lines)
            == Ok::<Option<usize>, FramingError>(last_length(lines, b, None)),
{
    lemma_headers_read(no_headers_yet(), lines);
}

/// A request head is read exactly when the stream is not empty, its first
/// line fits the line limit and has a method and a path, the headers end at
/// some line `b` (see `law_headers_read`), and the last `Content-Length`
/// before `b` (zero when there is none) is at most the body limit; then the
/// head holds the first two words of the request line and that length. An
/// empty stream gives no request.
pub proof fn law_request_head(first: Seq<char>, lines: Seq<Seq<char>>)
    ensures
        first.len() == 0 ==> request_head_result(first, lines) == Ok::<
            Option<(Seq<char>, Seq<char>, usize)>,
            FramingError,
        >(None),
        first.len() > 0 ==> (request_head_result(first, lines) is Ok <==> request_line_ok(first) && exists|b: int|
            #[trigger] headers_end_at(lines, b, 0) && announced(last_length(lines, b, None)) <= MAX_BODY_BYTES),
        forall|b: int|
            first.len() > 0 && request_line_ok(first) && #[trigger] headers_end_at(lines, b, 0) && announced(
                last_length(lines, b, None),
            ) <= MAX_BODY_BYTES ==> request_head_result(first, lines) == Ok::<
                Option<(Seq<char>, Seq<char>, usize)>,
                FramingError,
            >(Some((first_two_words(first).0, first_two_words(first).1, announced(last_length(lines, b, None)) as usize))),
{
    law_headers_read(lines);
    if first.len() > 0 && request_head_result(first, lines) is Ok {
        let b = choose|b: int| headers_end_at(lines, b, 0);
        assert(headers_end_at(lines, b, 0));
    }
}

} // verus!
