//! What the library makes of the headers of a request or response.
//!
//! The caller reads the headers from the host and hands their values in.

use crate::text::{contains, contains_bytes, same_bytes};
use vstd::prelude::*;
use vstd::string::*;
use vstd::utf8::*;

verus! {

/// The header that carries the scheme of a request.
pub const SCHEME_HEADER: &'static str = ":scheme";

/// The header that carries the host of a request.
pub const HOST_HEADER: &'static str = ":authority";

/// The header that carries the path of a request.
pub const PATH_HEADER: &'static str = ":path";

/// The header that carries the method of a request.
pub const METHOD_HEADER: &'static str = ":method";

/// The value of a request header, and the line to log where the header is missing.
pub struct RequestHead {
    pub value: String,
    pub error: Option<String>,
}

/// The line that reports a missing header.
pub open spec fn missing_head(log_flag: Seq<char>) -> Seq<char> {
    "get request "@ + log_flag + " failed"@
}

/// What a header gives: its value where it is there; else the empty text, and
/// the line that reports it missing.
pub open spec fn head_of(header: Option<String>, log_flag: Seq<char>, r: RequestHead) -> bool {
    match header {
        Some(value) => r.value@ == value@ && r.error is None,
        None => r.value@ == Seq::<char>::empty() && r.error is Some && r.error->0@
            == missing_head(log_flag),
    }
}

fn get_request_head(header: Option<String>, log_flag: &str) -> (r: RequestHead)
    ensures
        head_of(header, log_flag@, r),
{
    match header {
        Some(value) => RequestHead { value, error: None },
        None => {
            let mut line = "get request ".to_owned();
            line.append(log_flag);
            line.append(" failed");
            RequestHead { value: String::new(), error: Some(line) }
        },
    }
}

/// The scheme of the request, from the value of `SCHEME_HEADER`.
pub fn get_request_scheme(header: Option<String>) -> (r: RequestHead)
    ensures
        head_of(header, "head"@, r),
{
    get_request_head(header, "head")
}

/// The host of the request, from the value of `HOST_HEADER`.
pub fn get_request_host(header: Option<String>) -> (r: RequestHead)
    ensures
        head_of(header, "host"@, r),
{
    get_request_head(header, "host")
}

/// The path of the request, from the value of `PATH_HEADER`.
pub fn get_request_path(header: Option<String>) -> (r: RequestHead)
    ensures
        head_of(header, "path"@, r),
{
    get_request_head(header, "path")
}

/// The method of the request, from the value of `METHOD_HEADER`.
pub fn get_request_method(header: Option<String>) -> (r: RequestHead)
    ensures
        head_of(header, "method"@, r),
{
    get_request_head(header, "method")
}

/// True if a body with these headers is binary: the content type names
/// `octet-stream` or `grpc`, or there is a content encoding that is not empty.
pub open spec fn is_binary(content_type: Option<&str>, content_encoding: Option<&str>) -> bool {
    ||| content_type is Some && (contains_bytes(
        content_type->0.spec_bytes(),
        "octet-stream".spec_bytes(),
    ) || contains_bytes(content_type->0.spec_bytes(), "grpc".spec_bytes()))
    ||| content_encoding is Some && content_encoding->0@.len() > 0
}

fn is_binary_body(content_type: Option<&str>, content_encoding: Option<&str>) -> (r: bool)
    ensures
        r == is_binary(content_type, content_encoding),
{
    if let Some(content_type) = content_type {
        if contains(content_type.as_bytes(), "octet-stream".as_bytes()) || contains(
            content_type.as_bytes(),
            "grpc".as_bytes(),
        ) {
            return true;
        }
    }
    if let Some(encoding) = content_encoding {
        if !encoding.is_empty() {
            return true;
        }
    }
    false
}

/// True if the body of the request is binary, from the values of its
/// `content-type` and `content-encoding` headers.
pub fn is_binary_request_body(content_type: Option<&str>, content_encoding: Option<&str>) -> (r:
    bool)
    ensures
        r == is_binary(content_type, content_encoding),
{
    is_binary_body(content_type, content_encoding)
}

/// True if the body of the response is binary, from the values of its
/// `content-type` and `content-encoding` headers.
pub fn is_binary_response_body(content_type: Option<&str>, content_encoding: Option<&str>) -> (r:
    bool)
    ensures
        r == is_binary(content_type, content_encoding),
{
    is_binary_body(content_type, content_encoding)
}

/// The number that `i32::from_str` reads from `text`, or `None` where it
/// reads none.
pub uninterp spec fn parsed_i32(text: Seq<char>) -> Option<int>;

/// `str::parse::<i32>`: the number that `text` holds in decimal digits, with
/// an optional sign; `None` where it holds no such number or the number does
/// not fit.
#[verifier::external_body]
fn parse_i32(text: &str) -> (r: Option<i32>)
    ensures
        match r {
            Some(n) => parsed_i32(text@) == Some(n as int),
            None => parsed_i32(text@) is None,
        },
{
    text.parse::<i32>().ok()
}

/// True if a request with these headers has a body: it names a content type,
/// or a content length above zero, or its transfer encoding is `chunked`.
pub open spec fn expects_body(
    content_type: Option<&str>,
    content_length: Option<int>,
    transfer_encoding: Option<&str>,
) -> bool {
    ||| content_type is Some && content_type->0@.len() > 0
    ||| content_length is Some && content_length->0 > 0
    ||| transfer_encoding is Some && transfer_encoding->0.spec_bytes() == "chunked".spec_bytes()
}

/// True if the request has a body, from the values of its `content-type` and
/// `transfer-encoding` headers and the number read from `content-length`.
pub fn body_expected(
    content_type: Option<&str>,
    content_length: Option<i32>,
    transfer_encoding: Option<&str>,
) -> (r: bool)
    ensures
        r == expects_body(
            content_type,
            match content_length {
                Some(n) => Some(n as int),
                None => None,
            },
            transfer_encoding,
        ),
{
    if let Some(content_type) = content_type {
        if !content_type.is_empty() {
            return true;
        }
    }
    if let Some(n) = content_length {
        if n > 0 {
            return true;
        }
    }
    match transfer_encoding {
        Some(encoding) => same_bytes(encoding.as_bytes(), "chunked".as_bytes()),
        None => false,
    }
}

/// True if the request has a body, from the values of its `content-type`,
/// `content-length` and `transfer-encoding` headers.
pub fn has_request_body(
    content_type: Option<&str>,
    content_length: Option<&str>,
    transfer_encoding: Option<&str>,
) -> (r: bool)
    ensures
        r == expects_body(
            content_type,
            match content_length {
                Some(text) => parsed_i32(text@),
                None => None,
            },
            transfer_encoding,
        ),
{
    let length = match content_length {
        Some(text) => parse_i32(text),
        None => None,
    };
    body_expected(content_type, length, transfer_encoding)
}

} // verus!
