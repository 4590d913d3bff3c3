use mini_http::content_type::ContentType;
use mini_http::headers::Headers;
use mini_http::method::HTTPMethod;
use mini_http::request::{HTTPRequest, ParseStatus};
use mini_http::response::HTTPResponse;
use mini_http::router::{
    file_action, http_server_response, route, route_response, FileAction, FileReport, Route,
    WriteFailure,
};

fn request_of(input: &[u8]) -> HTTPRequest {
    let mut request = HTTPRequest::new();
    assert_eq!(request.parse_request(input, true), ParseStatus::Complete);
    request
}

fn no_report() -> FileReport {
    FileReport { content: None, failure: None }
}

fn header<'a>(response: &'a HTTPResponse, name: &str) -> Option<&'a str> {
    response.headers.get(name).map(|v| v.as_str())
}

#[test]
fn route_table() {
    assert_eq!(route("/"), Route::Root);
    assert_eq!(route("/echo"), Route::Echo);
    assert_eq!(route("/echo/abc"), Route::Echo);
    assert_eq!(route("/echoes"), Route::Echo);
    assert_eq!(route("/user-agent"), Route::UserAgent);
    assert_eq!(route("/user-agent/x"), Route::UserAgent);
    assert_eq!(route("/files"), Route::File);
    assert_eq!(route("/files/a.txt"), Route::File);
    assert_eq!(route(""), Route::NotFound);
    assert_eq!(route("//"), Route::NotFound);
    assert_eq!(route("/ech"), Route::NotFound);
    assert_eq!(route("/Echo/abc"), Route::NotFound);
    assert_eq!(route("/index.html"), Route::NotFound);
    assert_eq!(route("x/echo"), Route::NotFound);
}

#[test]
fn status_lines_of_the_routes_under_nominal_conditions() {
    let cases: Vec<(&[u8], &[u8])> = vec![
        (b"GET / HTTP/1.1\r\n\r\n", b"HTTP/1.1 200 OK\r\n"),
        (b"GET /echo/x HTTP/1.1\r\n\r\n", b"HTTP/1.1 200 OK\r\n"),
        (b"GET /user-agent HTTP/1.0\r\nUser-Agent: a\r\n\r\n", b"HTTP/1.0 200 OK\r\n"),
        (b"GET /files/x HTTP/1.1\r\n\r\n", b"HTTP/1.1 200 OK\r\n"),
        (b"GET /nowhere HTTP/2\r\n\r\n", b"HTTP/2 404 Not Found\r\n"),
    ];
    for (input, line) in cases {
        let request = request_of(input);
        let report = FileReport { content: Some(b"text".to_vec()), failure: None };
        let bytes = http_server_response(&request, &report).to_vec();
        assert!(bytes.starts_with(line));
    }
}

#[test]
fn root_is_200_without_body() {
    let response = http_server_response(&request_of(b"GET / HTTP/1.1\r\n\r\n"), &no_report());
    assert_eq!(response.version, "HTTP/1.1");
    assert_eq!(response.status_code, 200);
    assert_eq!(response.status_msg, "OK");
    assert_eq!(response.body, "");
    assert!(!response.is_encoded);
    assert_eq!(response.headers.len(), 1);
    assert_eq!(header(&response, "Content-Length"), Some("0"));
    assert_eq!(header(&response, "Content-Type"), None);
    assert_eq!(response.to_vec(), b"HTTP/1.1 200 OK\r\nContent-Length: 0\r\n\r\n".to_vec());
}

#[test]
fn unknown_path_is_404() {
    let response = http_server_response(&request_of(b"GET /nope HTTP/1.1\r\n\r\n"), &no_report());
    assert_eq!(response.status_code, 404);
    assert_eq!(response.status_msg, "Not Found");
    assert_eq!(response.body, "");
    assert_eq!(header(&response, "Content-Length"), Some("0"));
    assert_eq!(response.to_vec(), b"HTTP/1.1 404 Not Found\r\nContent-Length: 0\r\n\r\n".to_vec());
}

#[test]
fn echo_hello() {
    let response =
        http_server_response(&request_of(b"GET /echo/hello HTTP/1.1\r\n\r\n"), &no_report());
    assert_eq!(response.status_code, 200);
    assert_eq!(response.body, "hello");
    assert_eq!(header(&response, "Content-Type"), Some("text/plain"));
    assert_eq!(header(&response, "Content-Length"), Some("5"));
    assert_eq!(response.content_type, ContentType::PLAIN);
    assert_eq!(
        response.to_vec(),
        b"HTTP/1.1 200 OK\r\nContent-Type: text/plain\r\nContent-Length: 5\r\n\r\nhello".to_vec()
    );
}

#[test]
fn echo_accepts_any_method() {
    for method in ["GET", "POST", "PUT", "DELETE"] {
        let input = format!("{} /echo/same HTTP/1.1\r\n\r\n", method);
        let response = http_server_response(&request_of(input.as_bytes()), &no_report());
        assert_eq!(response.status_code, 200);
        assert_eq!(response.body, "same");
    }
}

#[test]
fn echo_strips_the_prefix_once() {
    let response =
        http_server_response(&request_of(b"GET /echo//echo/abc HTTP/1.1\r\n\r\n"), &no_report());
    assert_eq!(response.status_code, 200);
    assert_eq!(response.body, "/echo/abc");
    assert_eq!(response.headers.len(), 2);
    assert_eq!(header(&response, "Content-Type"), Some("text/plain"));
    assert_eq!(header(&response, "Content-Length"), Some("9"));
    let response =
        http_server_response(&request_of(b"GET /echo/a/echo/b HTTP/1.1\r\n\r\n"), &no_report());
    assert_eq!(response.body, "a/echo/b");
    let response =
        http_server_response(&request_of(b"GET /echo//echo/ HTTP/1.1\r\n\r\n"), &no_report());
    assert_eq!(response.body, "/echo/");
}

#[test]
fn echo_without_the_full_prefix_keeps_the_path() {
    let response = http_server_response(&request_of(b"GET /echo HTTP/1.1\r\n\r\n"), &no_report());
    assert_eq!(response.status_code, 200);
    assert_eq!(response.body, "/echo");
    let response =
        http_server_response(&request_of(b"GET /echoes HTTP/1.1\r\n\r\n"), &no_report());
    assert_eq!(response.body, "/echoes");
    let response = http_server_response(&request_of(b"GET /echo/ HTTP/1.1\r\n\r\n"), &no_report());
    assert_eq!(response.body, "");
    assert_eq!(header(&response, "Content-Length"), Some("0"));
}

#[test]
fn echo_length_counts_bytes() {
    let input = "GET /echo/h\u{e9}llo\u{20ac} HTTP/1.1\r\n\r\n";
    let response = http_server_response(&request_of(input.as_bytes()), &no_report());
    assert_eq!(response.body, "h\u{e9}llo\u{20ac}");
    assert_eq!(header(&response, "Content-Length"), Some("9"));
}

#[test]
fn user_agent_present() {
    let input = b"GET /user-agent HTTP/1.1\r\nUser-Agent: test-agent/1.0\r\n\r\n";
    let response = http_server_response(&request_of(input), &no_report());
    assert_eq!(response.status_code, 200);
    assert_eq!(response.status_msg, "OK");
    assert_eq!(response.body, "test-agent/1.0");
    assert_eq!(header(&response, "Content-Type"), Some("text/plain"));
    assert_eq!(header(&response, "Content-Length"), Some("14"));
}

#[test]
fn user_agent_absent_is_404() {
    let input = b"GET /user-agent HTTP/1.1\r\nuser-agent: lower\r\n\r\n";
    let response = http_server_response(&request_of(input), &no_report());
    assert_eq!(response.status_code, 404);
    assert_eq!(response.status_msg, "User-Agent header not found");
    assert_eq!(response.body, "");
    assert_eq!(header(&response, "Content-Type"), Some("text/plain"));
    assert_eq!(header(&response, "Content-Length"), Some("0"));
}

#[test]
fn file_post_then_get() {
    let post = request_of(b"POST /files/foo.txt HTTP/1.1\r\nContent-Length: 3\r\n\r\nabc");
    let stored = match file_action(&post, "/srv/data") {
        FileAction::Write { path, content } => {
            assert_eq!(path, "/srv/data/foo.txt");
            assert_eq!(content, "abc");
            (path, content.into_bytes())
        }
        _ => panic!("a write was expected"),
    };
    let response = http_server_response(&post, &no_report());
    assert_eq!(response.status_code, 201);
    assert_eq!(response.status_msg, "Created");
    assert_eq!(response.body, "");
    assert_eq!(header(&response, "Content-Length"), Some("0"));
    assert_eq!(header(&response, "Content-Type"), None);

    let get = request_of(b"GET /files/foo.txt HTTP/1.1\r\n\r\n");
    let report = match file_action(&get, "/srv/data") {
        FileAction::Read { path } => {
            assert_eq!(path, stored.0);
            FileReport { content: Some(stored.1), failure: None }
        }
        _ => panic!("a read was expected"),
    };
    let response = http_server_response(&get, &report);
    assert_eq!(response.status_code, 200);
    assert_eq!(response.status_msg, "OK");
    assert_eq!(response.body, "abc");
    assert_eq!(header(&response, "Content-Type"), Some("application/octet-stream"));
    assert_eq!(header(&response, "Content-Length"), Some("3"));
    assert_eq!(response.content_type, ContentType::OCTET);
}

#[test]
fn file_missing_is_404() {
    let request = request_of(b"GET /files/does-not-exist HTTP/1.1\r\n\r\n");
    let response = http_server_response(&request, &no_report());
    assert_eq!(response.status_code, 404);
    assert_eq!(response.status_msg, "Not Found");
    assert_eq!(response.body, "");
    assert_eq!(header(&response, "Content-Type"), None);
    assert_eq!(header(&response, "Content-Length"), Some("0"));
}

#[test]
fn file_that_is_no_text_is_500() {
    let request = request_of(b"GET /files/blob HTTP/1.1\r\n\r\n");
    let report = FileReport { content: Some(vec![0x66, 0xff, 0x00]), failure: None };
    let response = http_server_response(&request, &report);
    assert_eq!(response.status_code, 500);
    assert_eq!(response.status_msg, "Internal Server Error");
    assert_eq!(response.body, "");
    assert_eq!(header(&response, "Content-Type"), None);
    assert_eq!(header(&response, "Content-Length"), Some("0"));
}

#[test]
fn empty_file_is_200() {
    let request = request_of(b"GET /files/empty HTTP/1.1\r\n\r\n");
    let report = FileReport { content: Some(Vec::new()), failure: None };
    let response = http_server_response(&request, &report);
    assert_eq!(response.status_code, 200);
    assert_eq!(response.body, "");
    assert_eq!(header(&response, "Content-Type"), Some("application/octet-stream"));
}

#[test]
fn file_route_refuses_other_methods() {
    for method in ["PUT", "DELETE"] {
        let input = format!("{} /files/a HTTP/1.1\r\n\r\n", method);
        let request = request_of(input.as_bytes());
        assert!(matches!(file_action(&request, "."), FileAction::Nothing));
        let response = http_server_response(&request, &no_report());
        assert_eq!(response.status_code, 405);
        assert_eq!(response.status_msg, "Method Not Allowed");
        assert_eq!(response.body, "");
    }
}

#[test]
fn file_create_failure_is_500() {
    let request = request_of(b"POST /files/a HTTP/1.1\r\nContent-Length: 1\r\n\r\nx");
    let report = FileReport {
        content: None,
        failure: Some(WriteFailure::Create(String::from("Permission denied (os error 13)"))),
    };
    let response = http_server_response(&request, &report);
    assert_eq!(response.status_code, 500);
    assert_eq!(response.status_msg, "Internal Server Error");
    assert_eq!(response.body, "Error creating file: Permission denied (os error 13)");
    assert_eq!(header(&response, "Content-Length"), Some("52"));
}

#[test]
fn file_write_failure_still_reports_201() {
    let request = request_of(b"POST /files/a HTTP/1.1\r\nContent-Length: 1\r\n\r\nx");
    let report = FileReport {
        content: None,
        failure: Some(WriteFailure::Write(String::from("No space left on device"))),
    };
    let response = http_server_response(&request, &report);
    assert_eq!(response.status_code, 201);
    assert_eq!(response.status_msg, "Created");
    assert_eq!(response.body, "Failed to write to file: No space left on device");
    assert_eq!(header(&response, "Content-Length"), Some("48"));
}

#[test]
fn file_post_without_body_writes_nothing() {
    let request = request_of(b"POST /files/a HTTP/1.1\r\n\r\n");
    match file_action(&request, ".") {
        FileAction::Write { path, content } => {
            assert_eq!(path, "./a");
            assert_eq!(content, "");
        }
        _ => panic!("a write was expected"),
    }
}

#[test]
fn file_location_is_plain_concatenation() {
    let request = request_of(b"GET /files/../secret/x HTTP/1.1\r\n\r\n");
    match file_action(&request, "/srv/data") {
        FileAction::Read { path } => assert_eq!(path, "/srv/data/../secret/x"),
        _ => panic!("a read was expected"),
    }
    let request = request_of(b"GET /files HTTP/1.1\r\n\r\n");
    match file_action(&request, "dir") {
        FileAction::Read { path } => assert_eq!(path, "dir//files"),
        _ => panic!("a read was expected"),
    }
    let request = request_of(b"GET /files//files/a HTTP/1.1\r\n\r\n");
    match file_action(&request, "") {
        FileAction::Read { path } => assert_eq!(path, "//files/a"),
        _ => panic!("a read was expected"),
    }
    match file_action(&request, "/srv/data") {
        FileAction::Read { path } => assert_eq!(path, "/srv/data//files/a"),
        _ => panic!("a read was expected"),
    }
}

#[test]
fn other_routes_touch_no_file() {
    for path in ["/", "/echo/files/a", "/user-agent", "/nope"] {
        for method in ["GET", "POST"] {
            let input = format!("{} {} HTTP/1.1\r\n\r\n", method, path);
            let request = request_of(input.as_bytes());
            assert!(matches!(file_action(&request, "."), FileAction::Nothing));
        }
    }
}

#[test]
fn report_is_read_on_the_file_route_only() {
    let report = FileReport {
        content: Some(b"ignored".to_vec()),
        failure: Some(WriteFailure::Create(String::from("ignored"))),
    };
    let response = http_server_response(&request_of(b"POST /echo/x HTTP/1.1\r\n\r\n"), &report);
    assert_eq!(response.status_code, 200);
    assert_eq!(response.body, "x");
}

#[test]
fn routed_response_declares_no_length() {
    let request = request_of(b"GET /echo/hello HTTP/1.1\r\nAccept-Encoding: gzip\r\n\r\n");
    let response = route_response(&request, &no_report());
    assert_eq!(response.body, "hello");
    assert!(!response.is_encoded);
    assert_eq!(response.headers.len(), 1);
    assert_eq!(header(&response, "Content-Length"), None);
}

#[test]
fn content_length_matches_transmitted_body() {
    let inputs: Vec<&[u8]> = vec![
        b"GET / HTTP/1.1\r\n\r\n",
        b"GET /echo/hello-world HTTP/1.1\r\n\r\n",
        b"GET /echo/hello-world HTTP/1.1\r\nAccept-Encoding: gzip\r\n\r\n",
        b"GET /user-agent HTTP/1.1\r\nUser-Agent: someone\r\n\r\n",
        b"GET /user-agent HTTP/1.1\r\n\r\n",
        b"GET /files/a HTTP/1.1\r\nAccept-Encoding: br, gzip\r\n\r\n",
        b"POST /files/a HTTP/1.1\r\n\r\n",
        b"DELETE /files/a HTTP/1.1\r\n\r\n",
        b"GET /missing HTTP/1.1\r\nAccept-Encoding: gzip\r\n\r\n",
    ];
    let reports = vec![
        FileReport { content: None, failure: None },
        FileReport { content: Some(b"some file content".to_vec()), failure: None },
        FileReport { content: Some(vec![0xff]), failure: None },
        FileReport { content: None, failure: Some(WriteFailure::Write(String::from("w"))) },
        FileReport { content: None, failure: Some(WriteFailure::Create(String::from("c"))) },
    ];
    for input in inputs {
        let request = request_of(input);
        for report in &reports {
            let response = http_server_response(&request, report);
            let bytes = response.to_vec();
            let split = bytes.windows(4).position(|w| w == b"\r\n\r\n").unwrap() + 4;
            let body = &bytes[split..];
            let declared: usize = header(&response, "Content-Length").unwrap().parse().unwrap();
            assert_eq!(declared, body.len());
            assert_eq!(declared, response.body_len());
            let head = String::from_utf8(bytes[..split].to_vec()).unwrap();
            assert!(head.contains(&format!("\r\nContent-Length: {}\r\n", body.len())));
        }
    }
}

#[test]
fn body_begins_behind_the_first_blank_line() {
    let inputs: Vec<&[u8]> = vec![
        b"GET / HTTP/1.1\r\n\r\n",
        b"GET /echo/\xc3\xa9\xe2\x82\xac HTTP/1.1\r\n\r\n",
        b"GET /echo/abc HTTP/1.1\r\nAccept-Encoding: gzip\r\n\r\n",
        b"POST /files/a HTTP/1.1\r\nContent-Length: 4\r\n\r\n\r\n\r\n",
        b"GET /files/a HTTP/1.1\r\n\r\n",
    ];
    let report = FileReport { content: Some(b"\r\n\r\nfile\r\n\r\n".to_vec()), failure: None };
    for input in inputs {
        let request = request_of(input);
        let response = http_server_response(&request, &report);
        let bytes = response.to_vec();
        let start = bytes.windows(4).position(|w| w == b"\r\n\r\n").unwrap() + 4;
        let active: Vec<u8> = if response.is_encoded {
            response.encoded_body.clone()
        } else {
            response.body.clone().into_bytes()
        };
        assert_eq!(bytes[start..].to_vec(), active);
        let declared: usize = header(&response, "Content-Length").unwrap().parse().unwrap();
        assert_eq!(bytes.len() - start, declared);
    }
}

#[test]
fn version_with_a_blank_line_moves_the_first_blank_line() {
    let request = HTTPRequest {
        method: HTTPMethod::GET,
        path: String::from("/echo/abc"),
        version: String::from("HTTP/1.1\r\n\r\n"),
        headers: Headers::new(),
        body: None,
    };
    let response = http_server_response(&request, &no_report());
    assert_eq!(response.body, "abc");
    assert_eq!(header(&response, "Content-Length"), Some("3"));
    let bytes = response.to_vec();
    let start = bytes.windows(4).position(|w| w == b"\r\n\r\n").unwrap() + 4;
    assert_eq!(start, 12);
    assert_ne!(bytes.len() - start, 3);
    assert!(bytes.ends_with(b"\r\n\r\nabc"));
}
