//! The response: its status line, header fields and body, and the exact bytes
//! that carry it on the wire.

use vstd::prelude::*;
use vstd::string::*;
use vstd::utf8::*;

use crate::content_type::ContentType;
use crate::decimal::{decimal, decimal_string};
use crate::headers::{Field, Headers};

verus! {

/// A response as a mathematical value.
pub struct ResponseView {
    pub version: Seq<char>,
    pub status_code: u16,
    pub status_msg: Seq<char>,
    pub headers: Seq<Field>,
    pub body: Seq<char>,
    pub encoded_body: Seq<u8>,
    pub is_encoded: bool,
    pub content_type: ContentType,
}

/// The two bytes that end a line on the wire: carriage return, line feed.
pub open spec fn line_end() -> Seq<u8> {
    seq![0x0du8, 0x0au8]
}

/// The status line: version, status code in decimal and status message,
/// separated by single spaces and ended by a line end.
pub open spec fn status_line(response: ResponseView) -> Seq<u8> {
    encode_utf8(response.version) + seq![0x20u8] + encode_utf8(
        decimal(response.status_code as nat),
    ) + seq![0x20u8] + encode_utf8(response.status_msg) + line_end()
}

/// The line of one header field: name, a colon and a space, value, line end.
pub open spec fn header_line(field: Field) -> Seq<u8> {
    encode_utf8(field.0) + seq![0x3au8, 0x20u8] + encode_utf8(field.1) + line_end()
}

/// The lines of all header fields, in the order of `fields`.
pub open spec fn header_block(fields: Seq<Field>) -> Seq<u8>
    decreases fields.len(),
{
    if fields.len() == 0 {
        Seq::empty()
    } else {
        header_block(fields.drop_last()) + header_line(fields.last())
    }
}

/// The body bytes that are transmitted: the encoded body where the response
/// is marked as encoded, else the text body in UTF-8.
pub open spec fn transmitted_body(response: ResponseView) -> Seq<u8> {
    if response.is_encoded {
        response.encoded_body
    } else {
        encode_utf8(response.body)
    }
}

/// Everything that precedes the body on the wire: status line, header
/// lines, and the empty line that ends them.
pub open spec fn wire_head(response: ResponseView) -> Seq<u8> {
    status_line(response) + header_block(response.headers) + line_end()
}

/// The response on the wire: head, then the transmitted body with no further
/// framing.
pub open spec fn wire_bytes(response: ResponseView) -> Seq<u8> {
    wire_head(response) + transmitted_body(response)
}

/// A response under construction. The text body and the encoded body are
/// two representations of which `is_encoded` selects the one in force.
pub struct HTTPResponse {
    pub version: String,
    pub status_code: u16,
    pub status_msg: String,
    pub headers: Headers,
    pub body: String,
    pub encoded_body: Vec<u8>,
    pub is_encoded: bool,
    pub content_type: ContentType,
}

impl View for HTTPResponse {
    type V = ResponseView;

    open spec fn view(&self) -> ResponseView {
        ResponseView {
            version: self.version@,
            status_code: self.status_code,
            status_msg: self.status_msg@,
            headers: self.headers@,
            body: self.body@,
            encoded_body: self.encoded_body@,
            is_encoded: self.is_encoded,
            content_type: self.content_type,
        }
    }
}

impl HTTPResponse {
    /// A response with the given status line, no header fields and an empty
    /// text body.
    pub fn new(version: String, status_code: u16, status_msg: String) -> (response: HTTPResponse)
        ensures
            response@ == (ResponseView {
                version: version@,
                status_code: status_code,
                status_msg: status_msg@,
                headers: Seq::empty(),
                body: Seq::empty(),
                encoded_body: Seq::empty(),
                is_encoded: false,
                content_type: ContentType::PLAIN,
            }),
    {
        HTTPResponse {
            version,
            status_code,
            status_msg,
            headers: Headers::new(),
            body: String::new(),
            is_encoded: false,
            encoded_body: Vec::new(),
            content_type: ContentType::PLAIN,
        }
    }

    /// Puts `encoded_data` in force as the body: the response is marked as
    /// encoded. The text body is kept but no longer transmitted.
    pub fn set_encoded_body(&mut self, encoded_data: Vec<u8>)
        ensures
            final(self)@ == (ResponseView {
                encoded_body: encoded_data@,
                is_encoded: true,
                ..old(self)@
            }),
            transmitted_body(final(self)@) == encoded_data@,
    {
        self.encoded_body = encoded_data;
        self.is_encoded = true;
    }

    /// Puts the text `body` in force as the body: the response is marked as
    /// not encoded.
    pub fn set_body(&mut self, body: String)
        ensures
            final(self)@ == (ResponseView { body: body@, is_encoded: false, ..old(self)@ }),
            transmitted_body(final(self)@) == encode_utf8(body@),
    {
        self.body = body;
        self.is_encoded = false;
    }

    /// The number of body bytes that are transmitted.
    pub fn body_len(&self) -> (n: usize)
        ensures
            n == transmitted_body(self@).len(),
    {
        if self.is_encoded {
            self.encoded_body.len()
        } else {
            self.body.as_str().as_bytes().len()
        }
    }

    /// The response on the wire.
    pub fn to_vec(&self) -> (out: Vec<u8>)
        ensures
            out@ == wire_bytes(self@),
    {
        let mut response: Vec<u8> = Vec::new();
        response.extend_from_slice(self.version.as_str().as_bytes());
        response.push(0x20u8);
        let code = decimal_string(self.status_code as usize);
        response.extend_from_slice(code.as_str().as_bytes());
        response.push(0x20u8);
        response.extend_from_slice(self.status_msg.as_str().as_bytes());
        response.push(0x0du8);
        response.push(0x0au8);
        assert(response@ =~= status_line(self@));

        let n: usize = self.headers.len();
        let mut i: usize = 0;
        assert(self.headers@.take(0) =~= Seq::<Field>::empty());
        while i < n
            invariant
                n == self.headers@.len(),
                i <= n,
                response@ == status_line(self@) + header_block(self.headers@.take(i as int)),
            decreases n - i,
        {
            let ghost done = self.headers@.take(i as int);
            let ghost next = self.headers@.take(i + 1);
            assert(next.drop_last() =~= done);
            assert(next.last() == self.headers@[i as int]);
            let ghost before = response@;
            response.extend_from_slice(self.headers.name_at(i).as_str().as_bytes());
            response.push(0x3au8);
            response.push(0x20u8);
            response.extend_from_slice(self.headers.value_at(i).as_str().as_bytes());
            response.push(0x0du8);
            response.push(0x0au8);
            assert(response@ =~= before + header_line(self.headers@[i as int]));
            assert(response@ =~= status_line(self@) + header_block(next));
            i = i + 1;
        }
        assert(self.headers@.take(n as int) =~= self.headers@);
        response.push(0x0du8);
        response.push(0x0au8);
        assert(response@ =~= wire_head(self@));

        if self.is_encoded {
            response.extend_from_slice(self.encoded_body.as_slice());
        } else {
            response.extend_from_slice(self.body.as_str().as_bytes());
        }
        response
    }
}

} // verus!
