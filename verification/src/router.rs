//! Routing: from a request, and from what the file system reported, to the
//! response.
//!
//! The library touches no file. Where a request asks for one, `file_action`
//! says what is to be done; the caller does it and hands the report to
//! `http_server_response`.

use vstd::prelude::*;
use vstd::string::*;
use vstd::utf8::*;

use crate::content_type::ContentType;
use crate::decimal::{decimal, decimal_string, lemma_decimal_round_trip, parsed_unsigned};
use crate::encoding::{encoded_response, gzip_stream, handle_encoding};
use crate::headers::{lemma_upserted, lookup, names_distinct, upserted};
use crate::method::HTTPMethod;
use crate::request::{HTTPRequest, RequestView};
use crate::response::{transmitted_body, HTTPResponse, ResponseView};
use crate::text::{decode_text, starts_with, str_eq, strip_prefix, without_prefix};

verus! {

/// The routes of the server.
#[derive(Clone, Copy, Debug, PartialEq, Eq, Structural)]
pub enum Route {
    Root,
    Echo,
    UserAgent,
    File,
    NotFound,
}

/// The route of a path: the first of the table that matches. The root
/// matches the path `/` alone, the other routes match by prefix.
pub open spec fn route_of(path: Seq<char>) -> Route {
    if path == "/"@ {
        Route::Root
    } else if "/echo"@.is_prefix_of(path) {
        Route::Echo
    } else if "/user-agent"@.is_prefix_of(path) {
        Route::UserAgent
    } else if "/files"@.is_prefix_of(path) {
        Route::File
    } else {
        Route::NotFound
    }
}

/// The status code with which a route starts out.
pub open spec fn default_status_code(route: Route) -> u16 {
    match route {
        Route::NotFound => 404,
        _ => 200,
    }
}

/// The status message with which a route starts out.
pub open spec fn default_status_msg(route: Route) -> Seq<char> {
    match route {
        Route::NotFound => "Not Found"@,
        _ => "OK"@,
    }
}

/// What a request asks of the file system, as a mathematical value.
pub enum FileActionView {
    Nothing,
    Read { path: Seq<char> },
    Write { path: Seq<char>, content: Seq<char> },
}

/// What the file system reported, as a mathematical value.
pub struct FileReportView {
    pub content: Option<Seq<u8>>,
    pub failure: Option<WriteFailureView>,
}

/// Why a file was not written, as a mathematical value.
pub enum WriteFailureView {
    Create(Seq<char>),
    Write(Seq<char>),
}

/// The location of the file that `path` names under `directory`: the
/// directory, a slash, and the path without its leading `/files/`, which is
/// removed once. Nothing is resolved or rejected.
pub open spec fn file_location(directory: Seq<char>, path: Seq<char>) -> Seq<char> {
    directory + "/"@ + without_prefix(path, "/files/"@)
}

/// What `request` asks of the file system: on the file route, `GET` reads
/// and `POST` writes the request body, or nothing where there is no body.
pub open spec fn file_action_of(request: RequestView, directory: Seq<char>) -> FileActionView {
    if route_of(request.path) == Route::File {
        match request.method {
            HTTPMethod::GET => FileActionView::Read {
                path: file_location(directory, request.path),
            },
            HTTPMethod::POST => FileActionView::Write {
                path: file_location(directory, request.path),
                content: match request.body {
                    Some(body) => body,
                    None => Seq::empty(),
                },
            },
            _ => FileActionView::Nothing,
        }
    } else {
        FileActionView::Nothing
    }
}

/// The response with which `request` starts out on its route.
pub open spec fn initial_response(request: RequestView) -> ResponseView {
    ResponseView {
        version: request.version,
        status_code: default_status_code(route_of(request.path)),
        status_msg: default_status_msg(route_of(request.path)),
        headers: Seq::empty(),
        body: Seq::empty(),
        encoded_body: Seq::empty(),
        is_encoded: false,
        content_type: ContentType::PLAIN,
    }
}

/// `response` with the media type `content_type` declared.
pub open spec fn typed(response: ResponseView, content_type: ContentType) -> ResponseView {
    ResponseView {
        headers: upserted(response.headers, "Content-Type"@, content_type.wire_name()),
        content_type: content_type,
        ..response
    }
}

/// The answer of the echo route: the path without its leading `/echo/`, which
/// is removed once, as plain text. A path that does not begin with `/echo/`
/// is echoed whole. The method plays no part.
pub open spec fn echo_response(request: RequestView) -> ResponseView {
    ResponseView {
        body: without_prefix(request.path, "/echo/"@),
        ..typed(initial_response(request), ContentType::PLAIN)
    }
}

/// The answer of the user-agent route: the value of the field
/// `User-Agent` as plain text, or status 404 where the request has no such
/// field.
pub open spec fn user_agent_response(request: RequestView) -> ResponseView {
    let response = typed(initial_response(request), ContentType::PLAIN);
    match lookup(request.headers, "User-Agent"@) {
        Some(agent) => ResponseView { body: agent, ..response },
        None => ResponseView {
            status_code: 404,
            status_msg: "User-Agent header not found"@,
            ..response
        },
    }
}

/// The answer of the file route to `GET`: the content of the file where it
/// was read and is text; status 500 where it was read and is no text;
/// status 404 where it was not read.
pub open spec fn file_read_response(
    request: RequestView,
    report: FileReportView,
) -> ResponseView {
    let response = initial_response(request);
    match report.content {
        Some(bytes) => if valid_utf8(bytes) {
            ResponseView { body: decode_utf8(bytes), ..typed(response, ContentType::OCTET) }
        } else {
            ResponseView {
                status_code: 500,
                status_msg: "Internal Server Error"@,
                ..response
            }
        },
        None => ResponseView { status_code: 404, status_msg: "Not Found"@, ..response },
    }
}

/// The answer of the file route to `POST`: status 201 where the file was
/// created, also where writing to it then failed, in which case the body
/// says so; status 500 with a describing body where the file was not
/// created.
pub open spec fn file_write_response(
    request: RequestView,
    report: FileReportView,
) -> ResponseView {
    let response = initial_response(request);
    match report.failure {
        None => ResponseView { status_code: 201, status_msg: "Created"@, ..response },
        Some(WriteFailureView::Write(reason)) => ResponseView {
            status_code: 201,
            status_msg: "Created"@,
            body: "Failed to write to file: "@ + reason,
            ..response
        },
        Some(WriteFailureView::Create(reason)) => ResponseView {
            status_code: 500,
            status_msg: "Internal Server Error"@,
            body: "Error creating file: "@ + reason,
            ..response
        },
    }
}

/// The answer of the file route.
pub open spec fn file_response(request: RequestView, report: FileReportView) -> ResponseView {
    match request.method {
        HTTPMethod::GET => file_read_response(request, report),
        HTTPMethod::POST => file_write_response(request, report),
        _ => ResponseView {
            status_code: 405,
            status_msg: "Method Not Allowed"@,
            ..initial_response(request)
        },
    }
}

/// The answer of the route of `request`, before encoding and before the
/// length of the body is declared.
pub open spec fn routed(request: RequestView, report: FileReportView) -> ResponseView {
    match route_of(request.path) {
        Route::Root => initial_response(request),
        Route::Echo => echo_response(request),
        Route::UserAgent => user_agent_response(request),
        Route::File => file_response(request, report),
        Route::NotFound => initial_response(request),
    }
}

/// `response` with the length of its transmitted body declared in the field
/// `Content-Length`.
pub open spec fn finalized(response: ResponseView) -> ResponseView {
    ResponseView {
        headers: upserted(
            response.headers,
            "Content-Length"@,
            decimal(transmitted_body(response).len()),
        ),
        ..response
    }
}

/// Declaring the length of the body leaves the body as it is and makes the
/// field `Content-Length` hold the decimal numeral of the number of bytes that
/// are transmitted; read back as a number, the field gives that length.
pub proof fn lemma_declared_length(response: ResponseView)
    ensures
        ({
            let r = finalized(response);
            let length = transmitted_body(r).len();
            &&& transmitted_body(r) == transmitted_body(response)
            &&& lookup(r.headers, "Content-Length"@) == Some(decimal(length))
            &&& parsed_unsigned(decimal(length)) == Some(length)
            &&& names_distinct(response.headers) ==> names_distinct(r.headers)
        }),
{
    let length = transmitted_body(response).len();
    lemma_upserted(response.headers, "Content-Length"@, decimal(length), "Content-Length"@);
    lemma_decimal_round_trip(length);
}

/// The response to `request`, given the report of the file system and
/// given what compressing the routed text body gives.
pub open spec fn responded(
    request: RequestView,
    report: FileReportView,
    compressed: Option<Seq<u8>>,
) -> ResponseView {
    finalized(encoded_response(request, routed(request, report), compressed))
}

/// What a request asks of the file system.
pub enum FileAction {
    /// No file is touched.
    Nothing,
    /// The file at `path` is to be read in full.
    Read { path: String },
    /// The file at `path` is to be created, or emptied where it exists,
    /// and `content` written to it.
    Write { path: String, content: String },
}

impl View for FileAction {
    type V = FileActionView;

    open spec fn view(&self) -> FileActionView {
        match self {
            FileAction::Nothing => FileActionView::Nothing,
            FileAction::Read { path } => FileActionView::Read { path: path@ },
            FileAction::Write { path, content } => FileActionView::Write {
                path: path@,
                content: content@,
            },
        }
    }
}

/// Why a file was not written.
pub enum WriteFailure {
    /// The file could not be created; with the reason in words.
    Create(String),
    /// The file was created, but writing to it failed; with the reason in
    /// words.
    Write(String),
}

impl View for WriteFailure {
    type V = WriteFailureView;

    open spec fn view(&self) -> WriteFailureView {
        match self {
            WriteFailure::Create(reason) => WriteFailureView::Create(reason@),
            WriteFailure::Write(reason) => WriteFailureView::Write(reason@),
        }
    }
}

/// What the file system reported of the file action of a request.
pub struct FileReport {
    /// The bytes of the file, where it was read; `None` where it was not.
    pub content: Option<Vec<u8>>,
    /// Why the file was not written; `None` where it was, or where nothing
    /// was to be written.
    pub failure: Option<WriteFailure>,
}

impl View for FileReport {
    type V = FileReportView;

    open spec fn view(&self) -> FileReportView {
        FileReportView {
            content: match self.content {
                Some(bytes) => Some(bytes@),
                None => None,
            },
            failure: match self.failure {
                Some(failure) => Some(failure@),
                None => None,
            },
        }
    }
}

/// The route of `path`.
pub fn route(path: &str) -> (r: Route)
    ensures
        r == route_of(path@),
{
    if str_eq(path, "/") {
        Route::Root
    } else if starts_with(path, "/echo") {
        Route::Echo
    } else if starts_with(path, "/user-agent") {
        Route::UserAgent
    } else if starts_with(path, "/files") {
        Route::File
    } else {
        Route::NotFound
    }
}

/// What `request` asks of the file system, with `directory` as the place
/// of the files.
pub fn file_action(request: &HTTPRequest, directory: &str) -> (action: FileAction)
    ensures
        action@ == file_action_of(request@, directory@),
{
    match route(request.path.as_str()) {
        Route::File => {
            match request.method {
                HTTPMethod::GET => FileAction::Read {
                    path: locate(directory, request.path.as_str()),
                },
                HTTPMethod::POST => {
                    let content = match &request.body {
                        Some(body) => body.clone(),
                        None => String::new(),
                    };
                    FileAction::Write { path: locate(directory, request.path.as_str()), content }
                },
                _ => FileAction::Nothing,
            }
        },
        _ => FileAction::Nothing,
    }
}

/// The location of the file that `path` names under `directory`.
fn locate(directory: &str, path: &str) -> (location: String)
    ensures
        location@ == file_location(directory@, path@),
{
    let name = strip_prefix(path, "/files/");
    String::from_str(directory).concat("/").concat(name.as_str())
}

/// Declares the media type `content_type` on `response`.
fn declare_type(response: &mut HTTPResponse, content_type: ContentType)
    ensures
        final(response)@ == typed(old(response)@, content_type),
{
    response.content_type = content_type;
    response.headers.insert(
        String::from_str("Content-Type"),
        String::from_str(content_type.as_str()),
    );
}

/// The answer of the file route.
fn respond_on_file_route(request: &HTTPRequest, report: &FileReport, response: &mut HTTPResponse)
    requires
        old(response)@ == initial_response(request@),
    ensures
        final(response)@ == file_response(request@, report@),
{
    match request.method {
        HTTPMethod::POST => {
            match &report.failure {
                None => {
                    response.status_code = 201;
                    response.status_msg = String::from_str("Created");
                },
                Some(WriteFailure::Write(reason)) => {
                    response.set_body(
                        String::from_str("Failed to write to file: ").concat(reason.as_str()),
                    );
                    response.status_code = 201;
                    response.status_msg = String::from_str("Created");
                },
                Some(WriteFailure::Create(reason)) => {
                    response.status_code = 500;
                    response.status_msg = String::from_str("Internal Server Error");
                    response.set_body(
                        String::from_str("Error creating file: ").concat(reason.as_str()),
                    );
                },
            }
        },
        HTTPMethod::GET => {
            match &report.content {
                Some(bytes) => match decode_text(bytes.as_slice()) {
                    Some(content) => {
                        declare_type(response, ContentType::OCTET);
                        response.set_body(content);
                    },
                    None => {
                        response.status_code = 500;
                        response.status_msg = String::from_str("Internal Server Error");
                    },
                },
                None => {
                    response.status_code = 404;
                    response.status_msg = String::from_str("Not Found");
                },
            }
        },
        _ => {
            response.status_code = 405;
            response.status_msg = String::from_str("Method Not Allowed");
        },
    }
}

/// The answer of the route of `request`, before encoding and before the
/// length of the body is declared. `report` is read on the file route
/// only.
pub fn route_response(request: &HTTPRequest, report: &FileReport) -> (response: HTTPResponse)
    ensures
        response@ == routed(request@, report@),
{
    let path = request.path.as_str();
    let target = route(path);
    let mut response = match target {
        Route::NotFound => HTTPResponse::new(
            request.version.clone(),
            404,
            String::from_str("Not Found"),
        ),
        _ => HTTPResponse::new(request.version.clone(), 200, String::from_str("OK")),
    };
    assert(response@ == initial_response(request@));
    match target {
        Route::Echo => {
            declare_type(&mut response, ContentType::PLAIN);
            response.set_body(strip_prefix(path, "/echo/"));
        },
        Route::UserAgent => {
            declare_type(&mut response, ContentType::PLAIN);
            match request.headers.get("User-Agent") {
                Some(agent) => {
                    response.set_body(agent.clone());
                },
                None => {
                    response.status_code = 404;
                    response.status_msg = String::from_str("User-Agent header not found");
                },
            }
        },
        Route::File => {
            respond_on_file_route(request, report, &mut response);
        },
        _ => {},
    }
    response
}

/// Declares the length of the transmitted body of `response` in the field
/// `Content-Length`, also where the body is empty.
pub fn declare_content_length(response: &mut HTTPResponse)
    ensures
        final(response)@ == finalized(old(response)@),
        lookup(final(response)@.headers, "Content-Length"@) == Some(
            decimal(transmitted_body(final(response)@).len()),
        ),
{
    proof {
        lemma_declared_length(response@);
    }
    let length = response.body_len();
    response.headers.insert(String::from_str("Content-Length"), decimal_string(length));
}

/// The response to `request`: the answer of its route, encoded where the
/// request accepts a supported scheme, with the length of the transmitted
/// body declared. `report` is what the file system reported of
/// `file_action(request, ..)`.
pub fn http_server_response(request: &HTTPRequest, report: &FileReport) -> (response: HTTPResponse)
    ensures
        response@ == responded(
            request@,
            report@,
            gzip_stream(encode_utf8(routed(request@, report@).body)),
        ),
        lookup(response@.headers, "Content-Length"@) == Some(
            decimal(transmitted_body(response@).len()),
        ),
{
    let mut response = route_response(request, report);
    handle_encoding(request, &mut response);
    declare_content_length(&mut response);
    response
}

} // verus!
