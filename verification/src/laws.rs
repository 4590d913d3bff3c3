//! What holds of the pipeline as a whole, stated over the mathematical
//! model and proved from the definitions.

use vstd::prelude::*;
use vstd::utf8::*;

use crate::content_type::ContentType;
use crate::decimal::{decimal, parsed_unsigned, parsed_usize};
use crate::encoding::{encoded_response, EncodingScheme};
use crate::framing::{
    first_blank_line, lemma_body_follows_first_blank_line, lemma_decimal_is_plain,
    lemma_upserted_stays_plain, plain_head, plain_text,
};
use crate::headers::{lookup, Field};
use crate::method::HTTPMethod;
use crate::request::{
    chomped, header_section, lemma_line_len_bounds, line_ended, line_len, parsed, with_line,
    ParseError, RequestView, Step,
};
use crate::response::{
    line_end, status_line, transmitted_body, wire_bytes, wire_head, ResponseView,
};
use crate::router::{
    default_status_code, default_status_msg, lemma_declared_length, responded, route_of, routed,
    FileReportView, Route,
};
use crate::text::{is_whitespace, lemma_words_hold_no_whitespace, words};

verus! {

/// Whether `request` meets its route under nominal conditions: on the
/// user-agent route the request names its agent; on the file route the
/// request is a `GET` and the file was read and holds text.
pub open spec fn nominal(request: RequestView, report: FileReportView) -> bool {
    match route_of(request.path) {
        Route::UserAgent => lookup(request.headers, "User-Agent"@) is Some,
        Route::File => request.method == HTTPMethod::GET && (report.content matches Some(bytes)
            && valid_utf8(bytes)),
        _ => true,
    }
}

/// Under nominal conditions the response carries the status of its route:
/// `200 OK` on the four routes, `404 Not Found` elsewhere, behind the
/// version of the request; and the bytes on the wire begin with that status
/// line.
pub proof fn lemma_nominal_status_line(
    request: RequestView,
    report: FileReportView,
    compressed: Option<Seq<u8>>,
)
    requires
        nominal(request, report),
    ensures
        ({
            let response = responded(request, report, compressed);
            let route = route_of(request.path);
            &&& response.version == request.version
            &&& response.status_code == default_status_code(route)
            &&& response.status_msg == default_status_msg(route)
            &&& status_line(response) == encode_utf8(request.version) + seq![0x20u8] + encode_utf8(
                decimal(default_status_code(route) as nat),
            ) + seq![0x20u8] + encode_utf8(default_status_msg(route)) + line_end()
            &&& status_line(response).is_prefix_of(wire_bytes(response))
        }),
{
    let response = responded(request, report, compressed);
    assert(wire_bytes(response).subrange(0, status_line(response).len() as int) =~= status_line(
        response,
    ));
}

/// On every response, whatever the route, the report of the file system
/// and the outcome of compression: the field `Content-Length` holds the
/// exact number of body bytes that follow the head on the wire.
pub proof fn lemma_content_length_is_exact(
    request: RequestView,
    report: FileReportView,
    compressed: Option<Seq<u8>>,
)
    ensures
        ({
            let response = responded(request, report, compressed);
            let length = transmitted_body(response).len();
            &&& lookup(response.headers, "Content-Length"@) == Some(decimal(length))
            &&& parsed_unsigned(decimal(length)) == Some(length)
            &&& wire_bytes(response) == wire_head(response) + transmitted_body(response)
            &&& wire_bytes(response).len() == wire_head(response).len() + length
        }),
{
    lemma_declared_length(encoded_response(request, routed(request, report), compressed));
}

/// A request line that is text and does not hold exactly three tokens is
/// rejected as soon as it is complete, whatever follows it: no request
/// comes out, so no route is ever tried.
pub proof fn lemma_short_request_line_rejected(s: Seq<u8>, at_end: bool)
    requires
        valid_utf8(s.take(line_len(s))),
        words(decode_utf8(s.take(line_len(s)))).len() != 3,
    ensures
        !(parsed(s, at_end) is Done),
        at_end || line_ended(s) ==> parsed(s, at_end) == Step::<RequestView>::Failed(
            ParseError::InvalidRequestLine,
        ),
{
}

/// A request line of three tokens whose first token names no known method
/// is rejected as soon as it is complete, whatever follows it.
pub proof fn lemma_unknown_method_rejected(s: Seq<u8>, at_end: bool)
    requires
        valid_utf8(s.take(line_len(s))),
        words(decode_utf8(s.take(line_len(s)))).len() == 3,
        HTTPMethod::named(words(decode_utf8(s.take(line_len(s))))[0]) is None,
    ensures
        !(parsed(s, at_end) is Done),
        at_end || line_ended(s) ==> parsed(s, at_end) == Step::<RequestView>::Failed(
            ParseError::InvalidMethod,
        ),
{
}

/// Once the stream has ended the parser always gives a verdict.
pub proof fn lemma_verdict_at_end(s: Seq<u8>)
    ensures
        !(parsed(s, true) is Incomplete),
{
    lemma_header_verdict_at_end(s.skip(line_len(s)), Seq::empty());
}

/// Once the stream has ended the header section always gives a verdict.
proof fn lemma_header_verdict_at_end(s: Seq<u8>, fields: Seq<Field>)
    ensures
        !(header_section(s, fields, true) is Incomplete),
    decreases s.len(),
{
    if s.len() > 0 {
        lemma_line_len_bounds(s);
        let raw = s.take(line_len(s));
        if valid_utf8(raw) {
            let line = chomped(decode_utf8(raw));
            if line.len() != 0 {
                lemma_header_verdict_at_end(
                    s.skip(line_len(s)),
                    with_line(fields, line),
                );
            }
        }
    }
}

/// A line that is ended by a line feed stays the same line when more input
/// follows.
pub proof fn lemma_ended_line_is_final(s: Seq<u8>, more: Seq<u8>)
    requires
        line_ended(s),
    ensures
        line_len(s + more) == line_len(s),
        line_ended(s + more),
        (s + more).take(line_len(s)) == s.take(line_len(s)),
        (s + more).skip(line_len(s)) == s.skip(line_len(s)) + more,
    decreases s.len(),
{
    lemma_line_len_bounds(s);
    if s[0] != 0x0au8 {
        let rest = s.drop_first();
        assert((s + more).drop_first() =~= rest + more);
        assert(rest[line_len(rest) - 1] == s[line_len(s) - 1]);
        lemma_ended_line_is_final(rest, more);
        assert((s + more)[line_len(s) - 1] == (rest + more)[line_len(rest) - 1]);
    }
    assert((s + more).take(line_len(s)) =~= s.take(line_len(s)));
    assert((s + more).skip(line_len(s)) =~= s.skip(line_len(s)) + more);
}

/// A verdict on the header section that was given while the stream was
/// open is not changed by the input that follows; that input is what is left
/// over for the body.
pub proof fn lemma_header_verdict_is_final(
    s: Seq<u8>,
    fields: Seq<Field>,
    more: Seq<u8>,
    at_end: bool,
)
    ensures
        match header_section(s, fields, false) {
            Step::Incomplete => true,
            Step::Failed(e) => header_section(s + more, fields, at_end)
                == Step::<(Seq<Field>, Seq<u8>)>::Failed(e),
            Step::Done((read, rest)) => header_section(s + more, fields, at_end)
                == Step::Done((read, rest + more)),
        },
    decreases s.len(),
{
    if s.len() > 0 && line_ended(s) {
        lemma_line_len_bounds(s);
        lemma_ended_line_is_final(s, more);
        let raw = s.take(line_len(s));
        if valid_utf8(raw) {
            let line = chomped(decode_utf8(raw));
            if line.len() != 0 {
                lemma_header_verdict_is_final(
                    s.skip(line_len(s)),
                    with_line(fields, line),
                    more,
                    at_end,
                );
            }
        }
    }
}

/// A verdict that the parser gave while the stream was open is final: the
/// same request, or the same failure, comes out whatever input follows and
/// whenever the stream ends. So a caller may stop reading at the first
/// verdict.
pub proof fn lemma_verdict_is_final(s: Seq<u8>, more: Seq<u8>, at_end: bool)
    requires
        !(parsed(s, false) is Incomplete),
    ensures
        parsed(s + more, at_end) == parsed(s, false),
{
    lemma_ended_line_is_final(s, more);
    let after = s.skip(line_len(s));
    lemma_header_verdict_is_final(after, Seq::empty(), more, at_end);
    match header_section(after, Seq::empty(), false) {
        Step::Done((fields, rest)) => {
            match lookup(fields, "Content-Length"@) {
                Some(value) => match parsed_usize(value) {
                    Some(length) => {
                        if rest.len() >= length {
                            assert((rest + more).take(length as int) =~= rest.take(length as int));
                        }
                    },
                    None => {},
                },
                None => {},
            }
        },
        _ => {},
    }
}

/// The status messages that the routes give hold no line break.
proof fn lemma_status_messages_are_plain()
    ensures
        plain_text("OK"@),
        plain_text("Not Found"@),
        plain_text("Created"@),
        plain_text("Internal Server Error"@),
        plain_text("Method Not Allowed"@),
        plain_text("User-Agent header not found"@),
{
    reveal_strlit("OK");
    reveal_strlit("Not Found");
    reveal_strlit("Created");
    reveal_strlit("Internal Server Error");
    reveal_strlit("Method Not Allowed");
    reveal_strlit("User-Agent header not found");
}

/// The names and the fixed values of the header fields that the pipeline
/// sets hold no line break.
proof fn lemma_field_texts_are_plain()
    ensures
        plain_text("Content-Type"@),
        plain_text("Content-Encoding"@),
        plain_text("Content-Length"@),
        plain_text(ContentType::PLAIN.wire_name()),
        plain_text(ContentType::OCTET.wire_name()),
        plain_text(EncodingScheme::GZIP.wire_name()),
{
    reveal_strlit("Content-Type");
    reveal_strlit("Content-Encoding");
    reveal_strlit("Content-Length");
    reveal_strlit("text/plain");
    reveal_strlit("application/octet-stream");
    reveal_strlit("gzip");
}

/// The head of every response holds no line break but those that end its
/// lines, provided the version of the request holds none. A version that was
/// read from the wire holds none: it is a token of the request line.
pub proof fn lemma_response_head_is_plain(
    request: RequestView,
    report: FileReportView,
    compressed: Option<Seq<u8>>,
)
    requires
        plain_text(request.version),
    ensures
        plain_head(responded(request, report, compressed)),
{
    lemma_status_messages_are_plain();
    lemma_field_texts_are_plain();
    let answer = routed(request, report);
    let empty = Seq::<Field>::empty();
    lemma_upserted_stays_plain(empty, "Content-Type"@, ContentType::PLAIN.wire_name());
    lemma_upserted_stays_plain(empty, "Content-Type"@, ContentType::OCTET.wire_name());
    assert(plain_head(answer));
    let encoded = encoded_response(request, answer, compressed);
    lemma_upserted_stays_plain(
        answer.headers,
        "Content-Encoding"@,
        EncodingScheme::GZIP.wire_name(),
    );
    assert(plain_head(encoded));
    let length = transmitted_body(encoded).len();
    lemma_decimal_is_plain(length);
    lemma_upserted_stays_plain(encoded.headers, "Content-Length"@, decimal(length));
}

/// A reader that takes the body to begin behind the first blank line on
/// the wire reads exactly the transmitted body, and counts exactly as many
/// bytes as the field `Content-Length` declares; this on every response to
/// a request whose version holds no line break.
pub proof fn lemma_body_is_measured_from_first_blank_line(
    request: RequestView,
    report: FileReportView,
    compressed: Option<Seq<u8>>,
)
    requires
        plain_text(request.version),
    ensures
        ({
            let response = responded(request, report, compressed);
            let out = wire_bytes(response);
            let start = first_blank_line(out) + 4;
            &&& 4 <= start <= out.len()
            &&& start == wire_head(response).len()
            &&& out.skip(start) == transmitted_body(response)
            &&& lookup(response.headers, "Content-Length"@) == Some(
                decimal((out.len() - start) as nat),
            )
            &&& parsed_unsigned(decimal((out.len() - start) as nat)) == Some(
                (out.len() - start) as nat,
            )
        }),
{
    lemma_response_head_is_plain(request, report, compressed);
    lemma_body_follows_first_blank_line(responded(request, report, compressed));
    lemma_content_length_is_exact(request, report, compressed);
}

/// The version of a request that was read from the wire holds no line
/// break, so the two laws above hold of every request that the parser gives.
pub proof fn lemma_parsed_version_is_plain(s: Seq<u8>, at_end: bool)
    ensures
        parsed(s, at_end) matches Step::Done(request) ==> plain_text(request.version),
{
    let line = s.take(line_len(s));
    if valid_utf8(line) {
        let tokens = words(decode_utf8(line));
        if tokens.len() == 3 {
            lemma_words_hold_no_whitespace(decode_utf8(line), 2);
            assert(is_whitespace('\r') && is_whitespace('\n'));
        }
    }
}

} // verus!
