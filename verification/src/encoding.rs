//! Content encoding: which scheme a request accepts, and how a response
//! takes on a compressed body.

use std::io::Write;
use vstd::prelude::*;
use vstd::string::*;
use vstd::utf8::*;

use crate::headers::{lookup, upserted};
use crate::request::{HTTPRequest, RequestView};
use crate::response::{HTTPResponse, ResponseView};
use crate::text::{find_char, first_index, lemma_first_index_bounds, str_eq, trim, trimmed};

verus! {

/// A scheme by which a response body can be encoded.
#[derive(Clone, Copy, Debug, PartialEq, Eq, Structural)]
pub enum EncodingScheme {
    GZIP,
}

impl EncodingScheme {
    /// The name of the scheme on the wire.
    pub open spec fn wire_name(self) -> Seq<char> {
        match self {
            EncodingScheme::GZIP => "gzip"@,
        }
    }

    /// The scheme that `name` names, letter for letter, if it names one.
    pub open spec fn named(name: Seq<char>) -> Option<EncodingScheme> {
        if name == "gzip"@ {
            Some(EncodingScheme::GZIP)
        } else {
            None
        }
    }

    /// Every scheme is read back from its own name, and a name that reads as
    /// a scheme is that scheme's name.
    pub proof fn lemma_name_round_trip(scheme: EncodingScheme, name: Seq<char>)
        ensures
            EncodingScheme::named(scheme.wire_name()) == Some(scheme),
            EncodingScheme::named(name) == Some(scheme) <==> name == scheme.wire_name(),
    {
    }

    /// The name of the scheme on the wire.
    pub fn as_str(&self) -> (name: &'static str)
        ensures
            name@ == self.wire_name(),
    {
        match self {
            EncodingScheme::GZIP => "gzip",
        }
    }

    /// The scheme that `method` names, or `None` for any other token: an
    /// unknown scheme is no error, it is passed over.
    pub fn from_str(method: &str) -> (r: Option<EncodingScheme>)
        ensures
            r == EncodingScheme::named(method@),
    {
        if str_eq(method, "gzip") {
            Some(EncodingScheme::GZIP)
        } else {
            None
        }
    }
}

/// The scheme that a list of accepted encodings settles on: the list is
/// split at commas, each token is trimmed, and the first token that names a
/// supported scheme decides. Other tokens are passed over.
pub open spec fn negotiated(value: Seq<char>) -> Option<EncodingScheme>
    decreases value.len(),
{
    let comma = first_index(value, ',');
    match EncodingScheme::named(trimmed(value.take(comma))) {
        Some(scheme) => Some(scheme),
        None => if comma < value.len() {
            proof {
                lemma_first_index_bounds(value, ',');
            }
            negotiated(value.skip(comma + 1))
        } else {
            None
        },
    }
}

/// The scheme in which the response to `request` is encoded: what its
/// `Accept-Encoding` field settles on, if it has one.
pub open spec fn chosen_encoding(request: RequestView) -> Option<EncodingScheme> {
    match lookup(request.headers, "Accept-Encoding"@) {
        Some(value) => negotiated(value),
        None => None,
    }
}

/// `response` after it took on the body `encoded` in the scheme `scheme`:
/// the field `Content-Encoding` names the scheme, and the encoded body is in
/// force.
pub open spec fn with_encoding(
    response: ResponseView,
    scheme: EncodingScheme,
    encoded: Seq<u8>,
) -> ResponseView {
    ResponseView {
        headers: upserted(response.headers, "Content-Encoding"@, scheme.wire_name()),
        encoded_body: encoded,
        is_encoded: true,
        ..response
    }
}

/// `response` after encoding was negotiated for `request`, where
/// `compressed` is what compressing the text body gave, if it gave
/// anything. Without a chosen scheme, or without a compressed body, the
/// response stays as it is.
pub open spec fn encoded_response(
    request: RequestView,
    response: ResponseView,
    compressed: Option<Seq<u8>>,
) -> ResponseView {
    match chosen_encoding(request) {
        Some(scheme) => match compressed {
            Some(bytes) => with_encoding(response, scheme, bytes),
            None => response,
        },
        None => response,
    }
}

/// The gzip stream that the compressor makes of `data` at its default
/// level, or `None` where the compressor reports an error.
pub uninterp spec fn gzip_stream(data: Seq<u8>) -> Option<Seq<u8>>;

/// Compresses `data` to a gzip stream.
///
/// Trusted: this is `flate2::write::GzEncoder` over a `Vec<u8>`, made by
/// `GzEncoder::new` with `Compression::default()`, fed by `write_all` and
/// closed by `finish`. Nothing is claimed of the bytes but that they are a
/// function of `data` alone: the header that the encoder writes holds no
/// time stamp and no mark of the machine. An error of the encoder gives
/// `None`.
#[verifier::external_body]
fn gzip_compress(data: &[u8]) -> (out: Option<Vec<u8>>)
    ensures
        match out {
            Some(bytes) => gzip_stream(data@) == Some(bytes@),
            None => gzip_stream(data@) is None,
        },
{
    let mut encoder = flate2::write::GzEncoder::new(Vec::new(), flate2::Compression::default());
    match encoder.write_all(data) {
        Ok(()) => encoder.finish().ok(),
        Err(_) => None,
    }
}

/// The scheme that the list of accepted encodings `value` settles on.
pub fn negotiate(value: &str) -> (r: Option<EncodingScheme>)
    ensures
        r == negotiated(value@),
{
    let n: usize = value.unicode_len();
    let mut pos: usize = 0;
    assert(value@.skip(0) =~= value@);
    loop
        invariant
            n == value@.len(),
            pos <= n,
            negotiated(value@) == negotiated(value@.skip(pos as int)),
        decreases n - pos,
    {
        let rest = value.substring_char(pos, n);
        assert(rest@ =~= value@.skip(pos as int));
        let comma = find_char(rest, ',');
        let token = trim(rest.substring_char(0, comma));
        assert(rest@.subrange(0, comma as int) =~= rest@.take(comma as int));
        match EncodingScheme::from_str(token.as_str()) {
            Some(scheme) => {
                return Some(scheme);
            },
            None => {},
        }
        if comma >= n - pos {
            return None;
        }
        assert(rest@.skip(comma + 1) =~= value@.skip(pos + comma + 1));
        pos = pos + comma + 1;
    }
}

/// Puts the body `encoded`, made in the scheme `scheme`, in force on
/// `response`.
pub fn apply_encoding(response: &mut HTTPResponse, scheme: EncodingScheme, encoded: Vec<u8>)
    ensures
        final(response)@ == with_encoding(old(response)@, scheme, encoded@),
{
    response.headers.insert(
        String::from_str("Content-Encoding"),
        String::from_str(scheme.as_str()),
    );
    response.set_encoded_body(encoded);
}

/// Negotiates the encoding of `response` for `request`: where the request
/// accepts a supported scheme, the text body is compressed and the
/// compressed body put in force. Where the compressor gives nothing, the
/// response stays as it is.
pub fn handle_encoding(request: &HTTPRequest, response: &mut HTTPResponse)
    ensures
        final(response)@ == encoded_response(
            request@,
            old(response)@,
            gzip_stream(encode_utf8(old(response)@.body)),
        ),
{
    let scheme = match request.headers.get("Accept-Encoding") {
        Some(value) => negotiate(value.as_str()),
        None => None,
    };
    match scheme {
        Some(scheme) => {
            match gzip_compress(response.body.as_str().as_bytes()) {
                Some(compressed) => {
                    apply_encoding(response, scheme, compressed);
                },
                None => {},
            }
        },
        None => {},
    }
}

} // verus!
