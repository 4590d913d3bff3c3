use std::io::Read;

use mini_http::encoding::{apply_encoding, handle_encoding, negotiate, EncodingScheme};
use mini_http::request::{HTTPRequest, ParseStatus};
use mini_http::response::HTTPResponse;
use mini_http::router::{http_server_response, FileReport};

fn parsed_request(input: &[u8]) -> HTTPRequest {
    let mut request = HTTPRequest::new();
    assert_eq!(request.parse_request(input, true), ParseStatus::Complete);
    request
}

fn gunzip(bytes: &[u8]) -> Vec<u8> {
    let mut decoder = flate2::read::GzDecoder::new(bytes);
    let mut out = Vec::new();
    decoder.read_to_end(&mut out).unwrap();
    out
}

fn respond(input: &[u8]) -> HTTPResponse {
    http_server_response(&parsed_request(input), &FileReport { content: None, failure: None })
}

#[test]
fn encoding_scheme_names() {
    assert_eq!(EncodingScheme::GZIP.as_str(), "gzip");
    assert_eq!(EncodingScheme::from_str("gzip"), Some(EncodingScheme::GZIP));
    assert_eq!(EncodingScheme::from_str("GZIP"), None);
    assert_eq!(EncodingScheme::from_str(" gzip"), None);
    assert_eq!(EncodingScheme::from_str("gzip2"), None);
    assert_eq!(EncodingScheme::from_str("deflate"), None);
    assert_eq!(EncodingScheme::from_str(""), None);
}

#[test]
fn negotiation_picks_the_supported_scheme() {
    assert_eq!(negotiate("gzip"), Some(EncodingScheme::GZIP));
    assert_eq!(negotiate("  gzip\t"), Some(EncodingScheme::GZIP));
    assert_eq!(negotiate("br, gzip"), Some(EncodingScheme::GZIP));
    assert_eq!(negotiate("gzip, deflate, br"), Some(EncodingScheme::GZIP));
    assert_eq!(negotiate("deflate,gzip,"), Some(EncodingScheme::GZIP));
    assert_eq!(negotiate(",,gzip"), Some(EncodingScheme::GZIP));
}

#[test]
fn negotiation_passes_over_unknown_schemes() {
    assert_eq!(negotiate(""), None);
    assert_eq!(negotiate(","), None);
    assert_eq!(negotiate("br"), None);
    assert_eq!(negotiate("deflate, br, zstd"), None);
    assert_eq!(negotiate("Gzip"), None);
    assert_eq!(negotiate("gzip;q=1.0"), None);
    assert_eq!(negotiate("x-gzip"), None);
    assert_eq!(negotiate("gz ip"), None);
    assert_eq!(negotiate("gzip deflate"), None);
}

#[test]
fn gzip_echo() {
    let response = respond(b"GET /echo/abc HTTP/1.1\r\nAccept-Encoding: gzip\r\n\r\n");
    assert_eq!(response.status_code, 200);
    assert!(response.is_encoded);
    assert_eq!(response.headers.get("Content-Encoding").map(|v| v.as_str()), Some("gzip"));
    assert_eq!(response.headers.get("Content-Type").map(|v| v.as_str()), Some("text/plain"));
    assert_eq!(gunzip(&response.encoded_body), b"abc".to_vec());
    assert_ne!(response.encoded_body, b"abc".to_vec());
    assert_eq!(response.body, "abc");
    let declared = response.headers.get("Content-Length").unwrap().clone();
    assert_eq!(declared, response.encoded_body.len().to_string());
    assert_ne!(declared, "3");
    let bytes = response.to_vec();
    assert!(bytes.ends_with(&response.encoded_body));
    let split = bytes.windows(4).position(|w| w == b"\r\n\r\n").unwrap() + 4;
    assert_eq!(gunzip(&bytes[split..]), b"abc".to_vec());
}

#[test]
fn gzip_stream_has_the_gzip_signature() {
    let response = respond(b"GET /echo/abc HTTP/1.1\r\nAccept-Encoding: gzip\r\n\r\n");
    assert!(response.encoded_body.len() >= 18);
    assert_eq!(&response.encoded_body[..3], &[0x1f, 0x8b, 0x08]);
}

#[test]
fn gzip_is_the_same_for_the_same_body() {
    let first = respond(b"GET /echo/again-and-again HTTP/1.1\r\nAccept-Encoding: gzip\r\n\r\n");
    let second = respond(b"PUT /echo/again-and-again HTTP/1.0\r\nAccept-Encoding: br,gzip\r\n\r\n");
    assert_eq!(first.encoded_body, second.encoded_body);
}

#[test]
fn gzip_shrinks_a_repetitive_body() {
    let text = "ab".repeat(2000);
    let input = format!("GET /echo/{} HTTP/1.1\r\nAccept-Encoding: gzip\r\n\r\n", text);
    let response = respond(input.as_bytes());
    assert!(response.encoded_body.len() < 200);
    assert_eq!(gunzip(&response.encoded_body), text.into_bytes());
}

#[test]
fn gzip_among_other_schemes() {
    let response =
        respond(b"GET /echo/abc HTTP/1.1\r\nAccept-Encoding: invalid-1, gzip , invalid-2\r\n\r\n");
    assert!(response.is_encoded);
    assert_eq!(response.headers.get("Content-Encoding").map(|v| v.as_str()), Some("gzip"));
    assert_eq!(gunzip(&response.encoded_body), b"abc".to_vec());
}

#[test]
fn unknown_scheme_is_ignored() {
    let response = respond(b"GET /echo/abc HTTP/1.1\r\nAccept-Encoding: br, deflate\r\n\r\n");
    assert!(!response.is_encoded);
    assert_eq!(response.headers.get("Content-Encoding"), None);
    assert_eq!(response.body, "abc");
    assert_eq!(response.encoded_body, Vec::<u8>::new());
    assert_eq!(response.headers.get("Content-Length").map(|v| v.as_str()), Some("3"));
}

#[test]
fn accept_encoding_header_name_is_case_sensitive() {
    let response = respond(b"GET /echo/abc HTTP/1.1\r\naccept-encoding: gzip\r\n\r\n");
    assert!(!response.is_encoded);
    assert_eq!(response.headers.get("Content-Encoding"), None);
}

#[test]
fn gzip_applies_to_an_empty_body() {
    let response = respond(b"GET /nowhere HTTP/1.1\r\nAccept-Encoding: gzip\r\n\r\n");
    assert_eq!(response.status_code, 404);
    assert!(response.is_encoded);
    assert_eq!(response.headers.get("Content-Encoding").map(|v| v.as_str()), Some("gzip"));
    assert_eq!(gunzip(&response.encoded_body), Vec::<u8>::new());
    assert_eq!(
        response.headers.get("Content-Length").map(|v| v.clone()),
        Some(response.encoded_body.len().to_string())
    );
    assert!(response.encoded_body.len() > 0);
}

#[test]
fn handle_encoding_leaves_response_without_accepted_scheme() {
    let request = parsed_request(b"GET / HTTP/1.1\r\nAccept-Encoding: identity\r\n\r\n");
    let mut response = HTTPResponse::new(String::from("HTTP/1.1"), 200, String::from("OK"));
    response.set_body(String::from("text"));
    handle_encoding(&request, &mut response);
    assert!(!response.is_encoded);
    assert_eq!(response.body, "text");
    assert_eq!(response.headers.len(), 0);
}

#[test]
fn handle_encoding_compresses_the_text_body() {
    let request = parsed_request(b"GET / HTTP/1.1\r\nAccept-Encoding: gzip\r\n\r\n");
    let mut response = HTTPResponse::new(String::from("HTTP/1.1"), 200, String::from("OK"));
    response.set_body(String::from("some text to press"));
    handle_encoding(&request, &mut response);
    assert!(response.is_encoded);
    assert_eq!(gunzip(&response.encoded_body), b"some text to press".to_vec());
    assert_eq!(response.headers.len(), 1);
    assert_eq!(response.headers.get("Content-Encoding").map(|v| v.as_str()), Some("gzip"));
    assert_eq!(response.status_code, 200);
}

#[test]
fn apply_encoding_puts_the_given_body_in_force() {
    let mut response = HTTPResponse::new(String::from("HTTP/1.1"), 200, String::from("OK"));
    response.set_body(String::from("text"));
    response.headers.insert(String::from("Content-Encoding"), String::from("none"));
    apply_encoding(&mut response, EncodingScheme::GZIP, vec![1, 2, 3]);
    assert!(response.is_encoded);
    assert_eq!(response.encoded_body, vec![1, 2, 3]);
    assert_eq!(response.body, "text");
    assert_eq!(response.headers.len(), 1);
    assert_eq!(response.headers.get("Content-Encoding").map(|v| v.as_str()), Some("gzip"));
    assert_eq!(response.body_len(), 3);
}
