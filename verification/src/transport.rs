//! The minimal wire framing between controller and devices. A sensor is
//! asked with a bare `GET` line; an actuator with a `POST` line, a
//! `Content-Type`/`Content-Length` header pair, and the serialized command
//! as the body. A sensor's reply is read until the peer closes; its last
//! non-empty line is the encoded datum. A device reads a framed request by
//! cutting the header section at the blank line and taking as many body
//! characters as the declared `Content-Length`. Lengths here count
//! characters; every body this library produces is ASCII, where characters
//! and bytes agree. Opening connections, reading and writing are the
//! caller's: no verified function here touches the network.

use vstd::prelude::*;
use vstd::string::StrSliceExecFns;
use vstd::string::StringExecFns;

use crate::datum::{decode_err, decode_text, Datum};
use crate::error::{ParseError, ParseErrorKind};
use crate::text::{
    all_digits, dec_digits, digits_val, find_sub, is_digit_char, matches_at, push_u64,
    scan_for_sub,
};

verus! {

broadcast use vstd::string::group_string_axioms;

/// The fixed request line sent to poll a sensor.
pub open spec fn sensor_request_text() -> Seq<char> {
    "GET / HTTP/1.1\r\n\r\n"@
}

/// Builds the sensor poll request.
pub fn sensor_request() -> (r: String)
    ensures
        r@ == sensor_request_text(),
{
    String::from_str("GET / HTTP/1.1\r\n\r\n")
}

/// The framed actuator request around a command body.
pub open spec fn actuator_request_text(body: Seq<char>) -> Seq<char> {
    "POST HTTP/1.1\r\nContent-Type: application/json\r\nContent-Length: "@ + dec_digits(
        body.len(),
    ) + "\r\n\r\n"@ + body
}

/// Builds the actuator request carrying a serialized command.
pub fn actuator_request(body: &str) -> (r: String)
    ensures
        r@ == actuator_request_text(body@),
{
    let mut out = String::from_str(
        "POST HTTP/1.1\r\nContent-Type: application/json\r\nContent-Length: ",
    );
    let n = body.unicode_len();
    push_u64(&mut out, n as u64);
    out.append("\r\n\r\n");
    out.append(body);
    proof {
        assert(out@ =~= actuator_request_text(body@));
    }
    out
}

/// Whitespace that ends a line or pads a response.
pub open spec fn is_line_ws(c: char) -> bool {
    c == ' ' || c == '\t' || c == '\r' || c == '\n'
}

/// The text with trailing whitespace removed.
pub open spec fn trim_end_ws(s: Seq<char>) -> Seq<char>
    decreases s.len(),
{
    if s.len() > 0 && is_line_ws(s.last()) {
        trim_end_ws(s.drop_last())
    } else {
        s
    }
}

/// The text with leading whitespace removed.
pub open spec fn trim_start_ws(s: Seq<char>) -> Seq<char>
    decreases s.len(),
{
    if s.len() > 0 && is_line_ws(s[0]) {
        trim_start_ws(s.skip(1))
    } else {
        s
    }
}

/// The index right after the last `'\n'`, or zero when there is none.
pub open spec fn last_line_start(s: Seq<char>) -> int
    decreases s.len(),
{
    if s.len() == 0 {
        0
    } else if s.last() == '\n' {
        s.len() as int
    } else {
        last_line_start(s.drop_last())
    }
}

/// The last non-empty line of a sensor response: the response trimmed of
/// surrounding whitespace, from just after its last `'\n'` to its end.
/// `None` when the response is all whitespace.
pub open spec fn sensor_datum_text(s: Seq<char>) -> Option<Seq<char>> {
    let t = trim_start_ws(trim_end_ws(s));
    if t.len() == 0 {
        None
    } else {
        Some(t.subrange(last_line_start(t), t.len() as int))
    }
}

proof fn lemma_trim_end_ws_is(s: Seq<char>, end: int)
    requires
        0 <= end <= s.len(),
        forall|k: int| end <= k < s.len() ==> is_line_ws(#[trigger] s[k]),
        end > 0 ==> !is_line_ws(s[end - 1]),
    ensures
        trim_end_ws(s) == s.subrange(0, end),
    decreases s.len(),
{
    if s.len() == 0 {
        assert(s.subrange(0, 0) =~= s);
    } else if end == s.len() {
        assert(!is_line_ws(s.last()));
        assert(s.subrange(0, end) =~= s);
    } else {
        assert(is_line_ws(s.last()));
        let s0 = s.drop_last();
        lemma_trim_end_ws_is(s0, end);
        assert(s0.subrange(0, end) =~= s.subrange(0, end));
    }
}

proof fn lemma_trim_start_ws_is(s: Seq<char>, start: int)
    requires
        0 <= start <= s.len(),
        forall|k: int| 0 <= k < start ==> is_line_ws(#[trigger] s[k]),
        start < s.len() ==> !is_line_ws(s[start]),
    ensures
        trim_start_ws(s) == s.subrange(start, s.len() as int),
    decreases s.len(),
{
    if s.len() == 0 {
        assert(s.subrange(0, 0) =~= s);
    } else if start == 0 {
        assert(s.subrange(0, s.len() as int) =~= s);
    } else {
        assert(is_line_ws(s[0]));
        let t = s.skip(1);
        assert forall|k: int| 0 <= k < start - 1 implies is_line_ws(#[trigger] t[k]) by {
            assert(t[k] == s[k + 1]);
        }
        lemma_trim_start_ws_is(t, start - 1);
        assert(t.subrange(start - 1, t.len() as int) =~= s.subrange(start, s.len() as int));
    }
}

proof fn lemma_last_line_start_is(s: Seq<char>, p: int)
    requires
        0 <= p <= s.len(),
        p > 0 ==> s[p - 1] == '\n',
        forall|k: int| p <= k < s.len() ==> s[k] != '\n',
    ensures
        last_line_start(s) == p,
    decreases s.len(),
{
    if s.len() == 0 {
    } else if s.last() == '\n' {
        assert(p == s.len());
    } else {
        assert(p < s.len());
        lemma_last_line_start_is(s.drop_last(), p);
    }
}

/// Reads a sensor's reply: hands the last non-empty line to the datum
/// decoder. An all-whitespace reply is a `Structure` parse error carrying
/// the reply; a malformed line yields that line's decode error.
pub fn parse_sensor_response(response: &str) -> (r: Result<Datum, ParseError>)
    ensures
        (match sensor_datum_text(response@) {
            None => r is Err && r.unwrap_err()@.kind == ParseErrorKind::Structure
                && r.unwrap_err()@.text == response@,
            Some(line) => {
                &&& r is Ok <==> decode_text(line) is Some
                &&& (r is Ok ==> decode_text(line) == Some(r.unwrap()) && r.unwrap().wf())
                &&& (r is Err ==> r.unwrap_err()@ == decode_err(line))
            },
        }),
{
    let n = response.unicode_len();
    // trim trailing whitespace
    let mut end: usize = n;
    let mut stop = false;
    while end > 0 && !stop
        invariant
            0 <= end <= n == response@.len(),
            forall|k: int| end <= k < n ==> is_line_ws(#[trigger] response@[k]),
            stop ==> end > 0 && !is_line_ws(response@[end - 1]),
        decreases end + (if stop {
            0int
        } else {
            1int
        }),
    {
        let c = response.get_char(end - 1);
        if c == ' ' || c == '\t' || c == '\r' || c == '\n' {
            end = end - 1;
        } else {
            stop = true;
        }
    }
    proof {
        lemma_trim_end_ws_is(response@, end as int);
    }
    let ghost trimmed_end = response@.subrange(0, end as int);
    // trim leading whitespace
    let mut start: usize = 0;
    let mut stop2 = false;
    while start < end && !stop2
        invariant
            0 <= start <= end <= n == response@.len(),
            forall|k: int| 0 <= k < start ==> is_line_ws(#[trigger] response@[k]),
            stop2 ==> start < end && !is_line_ws(response@[start as int]),
        decreases end - start + (if stop2 {
            0int
        } else {
            1int
        }),
    {
        let c = response.get_char(start);
        if c == ' ' || c == '\t' || c == '\r' || c == '\n' {
            start = start + 1;
        } else {
            stop2 = true;
        }
    }
    let ghost t = trim_start_ws(trimmed_end);
    proof {
        assert forall|k: int| 0 <= k < start implies is_line_ws(#[trigger] trimmed_end[k]) by {
            assert(trimmed_end[k] == response@[k]);
        }
        if start < end {
            assert(!is_line_ws(trimmed_end[start as int]));
        }
        lemma_trim_start_ws_is(trimmed_end, start as int);
        assert(t =~= response@.subrange(start as int, end as int));
    }
    if start == end {
        proof {
            assert(t.len() == 0);
        }
        return Err(ParseError::new(ParseErrorKind::Structure, String::from_str(response)));
    }
    // find the start of the last line
    let mut ls: usize = end;
    let mut stop3 = false;
    while ls > start && !stop3
        invariant
            start <= ls <= end <= n == response@.len(),
            forall|k: int| ls <= k < end ==> response@[k] != '\n',
            stop3 ==> ls > start && response@[ls - 1] == '\n',
        decreases ls + (if stop3 {
            0int
        } else {
            1int
        }),
    {
        if response.get_char(ls - 1) == '\n' {
            stop3 = true;
        } else {
            ls = ls - 1;
        }
    }
    proof {
        assert forall|k: int| ls - start <= k < t.len() implies t[k] != '\n' by {
            assert(t[k] == response@[k + start]);
        }
        if ls > start && response@[ls - 1] == '\n' {
            assert(t[ls - start - 1] == '\n');
        }
        lemma_last_line_start_is(t, ls - start);
    }
    let line = response.substring_char(ls, end);
    proof {
        assert(line@ =~= t.subrange(last_line_start(t), t.len() as int));
    }
    Datum::parse(line)
}

/// A framed wire request: the header section, and the body the headers
/// declared.
#[derive(PartialEq, Eq, Debug)]
pub struct FramedRequest {
    pub head: String,
    pub body: String,
}

/// Ghost image of a `FramedRequest`.
pub ghost struct FramedRequestView {
    pub head: Seq<char>,
    pub body: Seq<char>,
}

impl View for FramedRequest {
    type V = FramedRequestView;

    open spec fn view(&self) -> FramedRequestView {
        FramedRequestView { head: self.head@, body: self.body@ }
    }
}

/// Where a digit run beginning at `i` ends.
pub open spec fn digit_run_end(s: Seq<char>, i: int) -> int
    decreases s.len() - i,
{
    if 0 <= i < s.len() && is_digit_char(s[i]) {
        digit_run_end(s, i + 1)
    } else {
        i
    }
}

proof fn lemma_digit_run_end_is(s: Seq<char>, i: int, e: int)
    requires
        0 <= i <= e <= s.len(),
        forall|k: int| i <= k < e ==> is_digit_char(#[trigger] s[k]),
        e < s.len() ==> !is_digit_char(s[e]),
    ensures
        digit_run_end(s, i) == e,
    decreases e - i,
{
    if i == e {
    } else {
        lemma_digit_run_end_is(s, i + 1, e);
    }
}

/// Cutting a framed request apart: the headers end at the first blank
/// line; the body is the `Content-Length` declared count of characters
/// after it, empty when no length is declared. A declared length with no
/// digits, or longer than what follows, makes the frame invalid.
pub open spec fn parse_framed_text(s: Seq<char>) -> Option<FramedRequestView> {
    let sep = find_sub(s, "\r\n\r\n"@);
    if !matches_at(s, sep, "\r\n\r\n"@) {
        None
    } else {
        let head = s.subrange(0, sep);
        let rest = s.subrange(sep + 4, s.len() as int);
        let cl = find_sub(head, "Content-Length: "@);
        if !matches_at(head, cl, "Content-Length: "@) {
            Some(FramedRequestView { head, body: Seq::<char>::empty() })
        } else {
            let ds = cl + 16;
            let de = digit_run_end(head, ds);
            if de == ds || digits_val(head.subrange(ds, de)) > rest.len() {
                None
            } else {
                Some(
                    FramedRequestView {
                        head,
                        body: rest.subrange(0, digits_val(head.subrange(ds, de)) as int),
                    },
                )
            }
        }
    }
}

/// Reads a framed request off the wire text; a text with no blank line, or
/// with an unusable declared length, is a `Frame` parse error carrying the
/// text.
pub fn parse_framed_request(s: &str) -> (r: Result<FramedRequest, ParseError>)
    ensures
        (match r {
            Ok(f) => parse_framed_text(s@) == Some(f@),
            Err(e) => parse_framed_text(s@) is None && e@.kind == ParseErrorKind::Frame && e@.text
                == s@,
        }),
{
    let n = s.unicode_len();
    proof {
        reveal_strlit("\r\n\r\n");
        reveal_strlit("Content-Length: ");
    }
    let sep = scan_for_sub(s, "\r\n\r\n");
    if sep == n {
        return Err(ParseError::new(ParseErrorKind::Frame, String::from_str(s)));
    }
    let head = s.substring_char(0, sep);
    proof {
        assert(head@ =~= s@.subrange(0, sep as int));
    }
    let ghost rest = s@.subrange(sep as int + 4, n as int);
    let cl = scan_for_sub(head, "Content-Length: ");
    let hl = sep;
    if cl == hl {
        let body = String::new();
        return Ok(FramedRequest { head: String::from_str(head), body });
    }
    let ds = cl + 16;
    let mut de: usize = ds;
    let mut stop = false;
    while de < hl && !stop
        invariant
            ds <= de <= hl == head@.len(),
            head@ == s@.subrange(0, hl as int),
            forall|k: int| ds <= k < de ==> is_digit_char(#[trigger] head@[k]),
            stop ==> de < hl && !is_digit_char(head@[de as int]),
        decreases hl - de + (if stop {
            0int
        } else {
            1int
        }),
    {
        let c = head.get_char(de) as u32;
        if 48 <= c && c <= 57 {
            de = de + 1;
        } else {
            stop = true;
        }
    }
    proof {
        lemma_digit_run_end_is(head@, ds as int, de as int);
    }
    if de == ds {
        return Err(ParseError::new(ParseErrorKind::Frame, String::from_str(s)));
    }
    let declared = match crate::text::parse_u64_digits(head, ds, de) {
        Some(v) => v,
        None => {
            return Err(ParseError::new(ParseErrorKind::Frame, String::from_str(s)));
        },
    };
    if declared > ((n - sep) - 4) as u64 {
        return Err(ParseError::new(ParseErrorKind::Frame, String::from_str(s)));
    }
    let body = s.substring_char(sep + 4, sep + 4 + (declared as usize));
    proof {
        assert(body@ =~= rest.subrange(0, digits_val(head@.subrange(ds as int, de as int)) as int));
    }
    Ok(FramedRequest { head: String::from_str(head), body: String::from_str(body) })
}

} // verus!
