//! The request and its parser.
//!
//! A request arrives as a stream of bytes of which only a prefix may be
//! known. The parser is a function of the bytes received so far and of
//! whether the stream has ended: it answers with the request, with a
//! failure, or with the verdict that more input is needed.

use vstd::prelude::*;
use vstd::slice::*;
use vstd::string::*;
use vstd::utf8::*;

use crate::decimal::{parse_usize, parsed_usize};
use crate::headers::{lookup, upserted, Field, Headers};
use crate::method::HTTPMethod;
use crate::text::{
    chars_of, decode_text, find_char, first_index, split_whitespace, trim, trimmed, views, words,
};

verus! {

/// A request as a mathematical value.
pub struct RequestView {
    pub method: HTTPMethod,
    pub path: Seq<char>,
    pub version: Seq<char>,
    pub headers: Seq<Field>,
    pub body: Option<Seq<char>>,
}

/// Why a stream of bytes is no request.
#[derive(Clone, Copy, Debug, PartialEq, Eq, Structural)]
pub enum ParseError {
    /// The request line is not UTF-8 text.
    UnreadableRequestLine,
    /// The request line does not hold exactly three tokens.
    InvalidRequestLine,
    /// The first token of the request line names no known method.
    InvalidMethod,
    /// A header line is not UTF-8 text.
    UnreadableHeaderLine,
    /// The value of `Content-Length` is no unsigned number, or too large.
    InvalidContentLength,
    /// The stream ended before the announced number of body bytes came.
    TruncatedBody,
    /// The body is not UTF-8 text.
    BodyNotText,
}

/// The state of a reading step: done with a result, in need of more input,
/// or failed.
pub enum Step<T> {
    Done(T),
    Incomplete,
    Failed(ParseError),
}

/// The number of bytes that the first line of `s` takes, its line feed
/// included. A last line without line feed runs to the end of `s`.
pub open spec fn line_len(s: Seq<u8>) -> int
    decreases s.len(),
{
    if s.len() == 0 {
        0
    } else if s[0] == 0x0au8 {
        1
    } else {
        1 + line_len(s.drop_first())
    }
}

/// Whether the first line of `s` is ended by a line feed.
pub open spec fn line_ended(s: Seq<u8>) -> bool {
    line_len(s) > 0 && s[line_len(s) - 1] == 0x0au8
}

/// `line` without the line feed at its end, and without the carriage return
/// before that line feed.
pub open spec fn chomped(line: Seq<char>) -> Seq<char> {
    if line.len() > 0 && line.last() == '\n' {
        let rest = line.drop_last();
        if rest.len() > 0 && rest.last() == '\r' {
            rest.drop_last()
        } else {
            rest
        }
    } else {
        line
    }
}

/// The field that a header line holds: name and value are what stands before
/// and after the first colon, both trimmed. A line without a colon holds no
/// field.
pub open spec fn header_field(line: Seq<char>) -> Option<Field> {
    let colon = first_index(line, ':');
    if colon < line.len() {
        Some((trimmed(line.take(colon)), trimmed(line.skip(colon + 1))))
    } else {
        None
    }
}

/// `fields` after the header line `line` was read: its field overwrites or
/// extends `fields`; a line without a colon is dropped.
pub open spec fn with_line(fields: Seq<Field>, line: Seq<char>) -> Seq<Field> {
    match header_field(line) {
        Some(field) => upserted(fields, field.0, field.1),
        None => fields,
    }
}

/// What the request line `line` says: method, path and version are its
/// three tokens.
pub open spec fn request_line(line: Seq<u8>) -> Result<
    (HTTPMethod, Seq<char>, Seq<char>),
    ParseError,
> {
    if !valid_utf8(line) {
        Err(ParseError::UnreadableRequestLine)
    } else {
        let tokens = words(decode_utf8(line));
        if tokens.len() != 3 {
            Err(ParseError::InvalidRequestLine)
        } else {
            match HTTPMethod::named(tokens[0]) {
                None => Err(ParseError::InvalidMethod),
                Some(method) => Ok((method, tokens[1], tokens[2])),
            }
        }
    }
}

/// Reads header lines from `s` into `fields` up to the first empty line, or
/// up to the end of the stream. Gives the fields and the input that follows
/// the header section.
pub open spec fn header_section(s: Seq<u8>, fields: Seq<Field>, at_end: bool) -> Step<
    (Seq<Field>, Seq<u8>),
>
    decreases s.len(),
{
    if s.len() == 0 {
        if at_end {
            Step::Done((fields, s))
        } else {
            Step::Incomplete
        }
    } else if !line_ended(s) && !at_end {
        Step::Incomplete
    } else {
        let raw = s.take(line_len(s));
        if !valid_utf8(raw) {
            Step::Failed(ParseError::UnreadableHeaderLine)
        } else {
            let line = chomped(decode_utf8(raw));
            if line.len() == 0 {
                Step::Done((fields, s.skip(line_len(s))))
            } else {
                proof {
                    lemma_line_len_bounds(s);
                }
                header_section(s.skip(line_len(s)), with_line(fields, line), at_end)
            }
        }
    }
}

/// The body that follows the header section: absent without a
/// `Content-Length` field; else exactly as many bytes of `s` as that field
/// announces, read as UTF-8 text.
pub open spec fn body_section(s: Seq<u8>, fields: Seq<Field>, at_end: bool) -> Step<
    Option<Seq<char>>,
> {
    match lookup(fields, "Content-Length"@) {
        None => Step::Done(None),
        Some(value) => match parsed_usize(value) {
            None => Step::Failed(ParseError::InvalidContentLength),
            Some(length) => if s.len() < length {
                if at_end {
                    Step::Failed(ParseError::TruncatedBody)
                } else {
                    Step::Incomplete
                }
            } else if !valid_utf8(s.take(length as int)) {
                Step::Failed(ParseError::BodyNotText)
            } else {
                Step::Done(Some(decode_utf8(s.take(length as int))))
            },
        },
    }
}

/// The request that the stream `s` carries. `at_end` says whether the
/// stream has ended after `s`; where it has not, and reading would have to
/// go beyond `s`, the answer is `Incomplete`.
pub open spec fn parsed(s: Seq<u8>, at_end: bool) -> Step<RequestView> {
    if !line_ended(s) && !at_end {
        Step::Incomplete
    } else {
        match request_line(s.take(line_len(s))) {
            Err(e) => Step::Failed(e),
            Ok((method, path, version)) => match header_section(
                s.skip(line_len(s)),
                Seq::empty(),
                at_end,
            ) {
                Step::Incomplete => Step::Incomplete,
                Step::Failed(e) => Step::Failed(e),
                Step::Done((fields, rest)) => match body_section(rest, fields, at_end) {
                    Step::Incomplete => Step::Incomplete,
                    Step::Failed(e) => Step::Failed(e),
                    Step::Done(body) => Step::Done(
                        RequestView { method, path, version, headers: fields, body },
                    ),
                },
            },
        }
    }
}

/// A line is no longer than its input, and is not empty where the input is
/// not.
pub proof fn lemma_line_len_bounds(s: Seq<u8>)
    ensures
        0 <= line_len(s) <= s.len(),
        s.len() > 0 ==> line_len(s) > 0,
    decreases s.len(),
{
    if s.len() > 0 && s[0] != 0x0au8 {
        lemma_line_len_bounds(s.drop_first());
    }
}

/// A line feed after `m` bytes of another kind ends the first line there; no
/// line feed at all leaves the line open to the end.
pub proof fn lemma_line_len_is(s: Seq<u8>, m: int)
    requires
        0 <= m <= s.len(),
        forall|k: int| 0 <= k < m ==> #[trigger] s[k] != 0x0au8,
        m < s.len() ==> s[m] == 0x0au8,
    ensures
        line_len(s) == if m < s.len() {
            m + 1
        } else {
            m
        },
        line_ended(s) == (m < s.len()),
    decreases m,
{
    if m > 0 {
        let t = s.drop_first();
        assert forall|k: int| 0 <= k < m - 1 implies #[trigger] t[k] != 0x0au8 by {
            assert(t[k] == s[k + 1]);
        }
        lemma_line_len_is(t, m - 1);
        if line_len(t) > 0 {
            assert(t[line_len(t) - 1] == s[line_len(s) - 1]);
        }
    }
}

/// The outcome of a call of the parser.
#[derive(Clone, Copy, Debug, PartialEq, Eq, Structural)]
pub enum ParseStatus {
    /// The request was read.
    Complete,
    /// More input is needed before anything can be said.
    Incomplete,
    /// The input is no request.
    Failed(ParseError),
}

/// A request.
pub struct HTTPRequest {
    pub method: HTTPMethod,
    pub path: String,
    pub version: String,
    pub headers: Headers,
    pub body: Option<String>,
}

impl View for HTTPRequest {
    type V = RequestView;

    open spec fn view(&self) -> RequestView {
        RequestView {
            method: self.method,
            path: self.path@,
            version: self.version@,
            headers: self.headers@,
            body: match self.body {
                Some(text) => Some(text@),
                None => None,
            },
        }
    }
}

/// What reading the header section gave.
enum Scan {
    Done(Headers, usize),
    Incomplete,
    Failed(ParseError),
}

/// The end of the line that starts at `from`, and whether a line feed ends
/// it.
fn find_line(input: &[u8], from: usize) -> (r: (usize, bool))
    requires
        from <= input@.len(),
    ensures
        from <= r.0 <= input@.len(),
        r.0 - from == line_len(input@.skip(from as int)),
        r.1 == line_ended(input@.skip(from as int)),
{
    let n: usize = input.len();
    let ghost rest = input@.skip(from as int);
    let mut i: usize = from;
    while i < n && input[i] != 0x0au8
        invariant
            n == input@.len(),
            from <= i <= n,
            rest == input@.skip(from as int),
            forall|k: int| 0 <= k < i - from ==> #[trigger] rest[k] != 0x0au8,
        decreases n - i,
    {
        assert forall|k: int| 0 <= k < i + 1 - from implies #[trigger] rest[k] != 0x0au8 by {
            if k == i - from {
                assert(rest[k] == input@[i as int]);
            }
        }
        i = i + 1;
    }
    proof {
        if i < n {
            assert(rest[i - from] == input@[i as int]);
        }
        lemma_line_len_is(rest, i - from);
    }
    if i < n {
        (i + 1, true)
    } else {
        (i, false)
    }
}

/// `line` without its line ending.
fn chomp(line: &str) -> (out: String)
    ensures
        out@ == chomped(line@),
{
    let chars = chars_of(line);
    let n: usize = chars.len();
    let end: usize = if n > 0 && chars[n - 1] == '\n' {
        if n > 1 && chars[n - 2] == '\r' {
            n - 2
        } else {
            n - 1
        }
    } else {
        n
    };
    proof {
        let s = line@;
        if n > 0 && s.last() == '\n' {
            let rest = s.drop_last();
            assert(rest =~= s.subrange(0, n - 1));
            if n > 1 {
                assert(rest.last() == s[n - 2]);
                assert(rest.drop_last() =~= s.subrange(0, n - 2));
            }
        } else {
            assert(s =~= s.subrange(0, n as int));
        }
    }
    String::from_str(line.substring_char(0, end))
}

/// Reads the header line `line` into `headers`.
fn add_line(headers: &mut Headers, line: &str)
    ensures
        final(headers)@ == with_line(old(headers)@, line@),
{
    let n: usize = line.unicode_len();
    let colon = find_char(line, ':');
    if colon < n {
        let name = trim(line.substring_char(0, colon));
        let value = trim(line.substring_char(colon + 1, n));
        proof {
            assert(line@.subrange(0, colon as int) =~= line@.take(colon as int));
            assert(line@.subrange(colon + 1, n as int) =~= line@.skip(colon + 1));
        }
        headers.insert(name, value);
    }
}

/// Reads the header section that starts at `from`.
fn read_headers(input: &[u8], from: usize, at_end: bool) -> (r: Scan)
    requires
        from <= input@.len(),
    ensures
        match header_section(input@.skip(from as int), Seq::empty(), at_end) {
            Step::Done((fields, rest)) => r matches Scan::Done(headers, pos) && headers@ == fields
                && pos <= input@.len() && rest == input@.skip(pos as int),
            Step::Incomplete => r is Incomplete,
            Step::Failed(e) => r matches Scan::Failed(f) && f == e,
        },
{
    let n: usize = input.len();
    let mut headers = Headers::new();
    let mut pos: usize = from;
    loop
        invariant
            n == input@.len(),
            from <= pos <= n,
            header_section(input@.skip(from as int), Seq::empty(), at_end) == header_section(
                input@.skip(pos as int),
                headers@,
                at_end,
            ),
        decreases n - pos,
    {
        let ghost rest = input@.skip(pos as int);
        if pos == n {
            if at_end {
                return Scan::Done(headers, pos);
            } else {
                return Scan::Incomplete;
            }
        }
        let (end, ended) = find_line(input, pos);
        if !ended && !at_end {
            return Scan::Incomplete;
        }
        proof {
            assert(rest.take(line_len(rest)) =~= input@.subrange(pos as int, end as int));
            assert(rest.skip(line_len(rest)) =~= input@.skip(end as int));
        }
        let text = match decode_text(slice_subrange(input, pos, end)) {
            Some(text) => text,
            None => {
                return Scan::Failed(ParseError::UnreadableHeaderLine);
            },
        };
        let line = chomp(text.as_str());
        if line.as_str().unicode_len() == 0 {
            return Scan::Done(headers, end);
        }
        add_line(&mut headers, line.as_str());
        pos = end;
    }
}

impl ParseError {
    /// What the error says, in words.
    pub open spec fn description(self) -> Seq<char> {
        match self {
            ParseError::UnreadableRequestLine => "Error reading request line"@,
            ParseError::InvalidRequestLine => "Invalid request line"@,
            ParseError::InvalidMethod => "Invalid HTTP method"@,
            ParseError::UnreadableHeaderLine => "Error reading header line"@,
            ParseError::InvalidContentLength => "Error parsing Content-Length"@,
            ParseError::TruncatedBody => "Error reading body"@,
            ParseError::BodyNotText => "Error parsing body as UTF-8"@,
        }
    }

    /// What the error says, in words.
    pub fn message(&self) -> (text: &'static str)
        ensures
            text@ == self.description(),
    {
        match self {
            ParseError::UnreadableRequestLine => "Error reading request line",
            ParseError::InvalidRequestLine => "Invalid request line",
            ParseError::InvalidMethod => "Invalid HTTP method",
            ParseError::UnreadableHeaderLine => "Error reading header line",
            ParseError::InvalidContentLength => "Error parsing Content-Length",
            ParseError::TruncatedBody => "Error reading body",
            ParseError::BodyNotText => "Error parsing body as UTF-8",
        }
    }
}

impl HTTPRequest {
    /// An empty request: method `GET`, empty path and version, no header
    /// fields, no body.
    pub fn new() -> (request: HTTPRequest)
        ensures
            request@ == (RequestView {
                method: HTTPMethod::GET,
                path: Seq::empty(),
                version: Seq::empty(),
                headers: Seq::empty(),
                body: None,
            }),
    {
        HTTPRequest {
            method: HTTPMethod::GET,
            path: String::new(),
            version: String::new(),
            headers: Headers::new(),
            body: None,
        }
    }

    /// Reads a request from `input`, the bytes of the stream received so
    /// far; `at_end` says whether the stream has ended.
    ///
    /// On `Complete` the request holds what was read. On `Incomplete` and
    /// on `Failed` it is left as it was: a request is either read in full or
    /// not at all.
    pub fn parse_request(&mut self, input: &[u8], at_end: bool) -> (status: ParseStatus)
        ensures
            match parsed(input@, at_end) {
                Step::Done(request) => status == ParseStatus::Complete && final(self)@ == request,
                Step::Incomplete => status == ParseStatus::Incomplete && *final(self) == *old(
                    self,
                ),
                Step::Failed(e) => status == ParseStatus::Failed(e) && *final(self) == *old(self),
            },
    {
        let n: usize = input.len();
        assert(input@.skip(0) =~= input@);
        let (end, ended) = find_line(input, 0);
        if !ended && !at_end {
            return ParseStatus::Incomplete;
        }
        assert(input@.take(line_len(input@)) =~= input@.subrange(0, end as int));
        let line = match decode_text(slice_subrange(input, 0, end)) {
            Some(line) => line,
            None => {
                return ParseStatus::Failed(ParseError::UnreadableRequestLine);
            },
        };
        let parts = split_whitespace(line.as_str());
        if parts.len() != 3 {
            return ParseStatus::Failed(ParseError::InvalidRequestLine);
        }
        assert(views(parts@)[0] == parts@[0]@);
        assert(views(parts@)[1] == parts@[1]@);
        assert(views(parts@)[2] == parts@[2]@);
        let method = match HTTPMethod::from_str(parts[0].as_str()) {
            Some(method) => method,
            None => {
                return ParseStatus::Failed(ParseError::InvalidMethod);
            },
        };
        let path = parts[1].clone();
        let version = parts[2].clone();

        let (headers, pos) = match read_headers(input, end, at_end) {
            Scan::Done(headers, pos) => (headers, pos),
            Scan::Incomplete => {
                return ParseStatus::Incomplete;
            },
            Scan::Failed(e) => {
                return ParseStatus::Failed(e);
            },
        };

        let ghost rest = input@.skip(pos as int);
        let body = match headers.get("Content-Length") {
            None => None,
            Some(value) => {
                let length = match parse_usize(value.as_str()) {
                    Some(length) => length,
                    None => {
                        return ParseStatus::Failed(ParseError::InvalidContentLength);
                    },
                };
                if length > n - pos {
                    if at_end {
                        return ParseStatus::Failed(ParseError::TruncatedBody);
                    } else {
                        return ParseStatus::Incomplete;
                    }
                }
                assert(rest.take(length as int) =~= input@.subrange(
                    pos as int,
                    pos + length,
                ));
                match decode_text(slice_subrange(input, pos, pos + length)) {
                    Some(text) => Some(text),
                    None => {
                        return ParseStatus::Failed(ParseError::BodyNotText);
                    },
                }
            },
        };
        self.method = method;
        self.path = path;
        self.version = version;
        self.headers = headers;
        self.body = body;
        ParseStatus::Complete
    }
}

} // verus!
