use vstd::prelude::*;
use vstd::utf8::valid_utf8;
use vstd::string::StringSliceAdditionalSpecFns;
use crate::bytes::{
    append, copy_range, crlf, ends_with, eq_ignore_case, has_suffix, same_ignoring_case,
};
use crate::headers::{pairs, Header};
use crate::number::{dec_digits, parse_number, parse_uint, to_decimal};
use crate::request::is_utf8;

verus! {

/// The reason phrase that goes with a status code.
pub open spec fn reason(code: u16) -> Seq<u8> {
    if code == 200 {
        "OK".spec_bytes()
    } else if code == 201 {
        "Created".spec_bytes()
    } else if code == 400 {
        "Bad Request".spec_bytes()
    } else if code == 403 {
        "Forbidden".spec_bytes()
    } else if code == 404 {
        "Not Found".spec_bytes()
    } else if code == 405 {
        "Method Not Allowed".spec_bytes()
    } else if code == 413 {
        "Payload Too Large".spec_bytes()
    } else if code == 501 {
        "Not Implemented".spec_bytes()
    } else if code == 504 {
        "Gateway Timeout".spec_bytes()
    } else {
        "Internal Server Error".spec_bytes()
    }
}

/// The reason phrase that goes with a status code.
pub fn reason_phrase(status_code: u16) -> (r: &'static [u8])
    ensures
        r@ == reason(status_code),
{
    if status_code == 200 {
        "OK".as_bytes()
    } else if status_code == 201 {
        "Created".as_bytes()
    } else if status_code == 400 {
        "Bad Request".as_bytes()
    } else if status_code == 403 {
        "Forbidden".as_bytes()
    } else if status_code == 404 {
        "Not Found".as_bytes()
    } else if status_code == 405 {
        "Method Not Allowed".as_bytes()
    } else if status_code == 413 {
        "Payload Too Large".as_bytes()
    } else if status_code == 501 {
        "Not Implemented".as_bytes()
    } else if status_code == 504 {
        "Gateway Timeout".as_bytes()
    } else {
        "Internal Server Error".as_bytes()
    }
}

/// What can go wrong with a request.
#[derive(Debug, Clone, Copy, PartialEq, Eq, Structural)]
pub enum Failure {
    /// The bytes are no request.
    Malformed,
    /// No route matches, or there is no such file.
    UnknownPath,
    /// The route does not let the method through.
    MethodNotAllowed,
    /// A directory that is not to be shown.
    Forbidden,
    /// The request is over a size limit.
    PayloadTooLarge,
    /// The script to run is not there.
    CgiNotFound,
    /// The script could not be started, or failed while it ran.
    CgiFailure,
    /// The script ran for too long.
    CgiTimeout,
    /// A listing of a directory was asked for.
    Autoindex,
}

/// The status code that a failure is answered with.
pub fn status_code(failure: Failure) -> (r: u16)
    ensures
        r == match failure {
            Failure::Malformed => 400u16,
            Failure::UnknownPath => 404u16,
            Failure::MethodNotAllowed => 405u16,
            Failure::Forbidden => 403u16,
            Failure::PayloadTooLarge => 413u16,
            Failure::CgiNotFound => 404u16,
            Failure::CgiFailure => 500u16,
            Failure::CgiTimeout => 504u16,
            Failure::Autoindex => 501u16,
        },
{
    match failure {
        Failure::Malformed => 400,
        Failure::UnknownPath => 404,
        Failure::MethodNotAllowed => 405,
        Failure::Forbidden => 403,
        Failure::PayloadTooLarge => 413,
        Failure::CgiNotFound => 404,
        Failure::CgiFailure => 500,
        Failure::CgiTimeout => 504,
        Failure::Autoindex => 501,
    }
}

/// The media type that goes with a path, by its ending.
pub open spec fn mime_of(path: Seq<u8>) -> Seq<u8> {
    if has_suffix(path, ".html".spec_bytes()) {
        "text/html".spec_bytes()
    } else if has_suffix(path, ".css".spec_bytes()) {
        "text/css".spec_bytes()
    } else if has_suffix(path, ".js".spec_bytes()) {
        "application/javascript".spec_bytes()
    } else {
        "text/plain".spec_bytes()
    }
}

/// The media type that goes with a path, by its ending.
pub fn get_mime_type(path: &[u8]) -> (r: &'static [u8])
    ensures
        r@ == mime_of(path@),
{
    if ends_with(path, ".html".as_bytes()) {
        "text/html".as_bytes()
    } else if ends_with(path, ".css".as_bytes()) {
        "text/css".as_bytes()
    } else if ends_with(path, ".js".as_bytes()) {
        "application/javascript".as_bytes()
    } else {
        "text/plain".as_bytes()
    }
}

/// The header lines of a response, one `name: value` line per field, in order.
pub open spec fn header_lines(hs: Seq<(Seq<u8>, Seq<u8>)>) -> Seq<u8>
    decreases hs.len(),
{
    if hs.len() == 0 {
        Seq::empty()
    } else {
        header_lines(hs.drop_last()) + hs.last().0 + ": ".spec_bytes() + hs.last().1 + crlf()
    }
}

/// Whether one of the fields has the given name, whatever the case of its letters.
pub open spec fn has_field(hs: Seq<(Seq<u8>, Seq<u8>)>, name: Seq<u8>) -> bool
    decreases hs.len(),
{
    hs.len() > 0 && (has_field(hs.drop_last(), name) || same_ignoring_case(hs.last().0, name))
}

/// The `Content-Length` line that is added where the fields hold none.
pub open spec fn length_line(hs: Seq<(Seq<u8>, Seq<u8>)>, body: Seq<u8>) -> Seq<u8> {
    if has_field(hs, "content-length".spec_bytes()) {
        Seq::empty()
    } else {
        "Content-Length: ".spec_bytes() + dec_digits(body.len()) + crlf()
    }
}

/// The `Connection` line of a response.
pub open spec fn connection_line(close: bool) -> Seq<u8> {
    if close {
        "Connection: close\r\n".spec_bytes()
    } else {
        "Connection: keep-alive\r\n".spec_bytes()
    }
}

/// The bytes of a response: status line, the given fields, `Content-Length`
/// where they hold none, `Server`, `Connection`, an empty line, and the body.
pub open spec fn response_bytes(
    code: u16,
    text: Seq<u8>,
    hs: Seq<(Seq<u8>, Seq<u8>)>,
    body: Seq<u8>,
    close: bool,
) -> Seq<u8> {
    "HTTP/1.1 ".spec_bytes() + dec_digits(code as nat) + " ".spec_bytes() + text + crlf()
        + header_lines(hs) + length_line(hs, body) + "Server: Localhost_RS\r\n".spec_bytes()
        + connection_line(close) + crlf() + body
}

/// Whether one of the fields has the given name, whatever the case of its letters.
pub fn holds_field(headers: &Vec<Header>, name: &[u8]) -> (r: bool)
    ensures
        r == has_field(pairs(headers@), name@),
{
    let mut i: usize = 0;
    while i < headers.len()
        invariant
            i <= headers@.len(),
            !has_field(pairs(headers@).take(i as int), name@),
        decreases headers.len() - i,
    {
        proof {
            assert(pairs(headers@).take(i + 1).drop_last() =~= pairs(headers@).take(i as int));
        }
        if eq_ignore_case(headers[i].name.as_slice(), name) {
            proof {
                lemma_has_field_prefix(pairs(headers@), i + 1, name@);
            }
            return true;
        }
        i += 1;
    }
    proof {
        assert(pairs(headers@).take(i as int) =~= pairs(headers@));
    }
    false
}

/// A field found among the first `j` is found among all.
pub proof fn lemma_has_field_prefix(hs: Seq<(Seq<u8>, Seq<u8>)>, j: int, name: Seq<u8>)
    requires
        0 <= j <= hs.len(),
        has_field(hs.take(j), name),
    ensures
        has_field(hs, name),
    decreases hs.len(),
{
    if j == hs.len() {
        assert(hs.take(j) =~= hs);
    } else {
        assert(hs.drop_last().take(j) =~= hs.take(j));
        lemma_has_field_prefix(hs.drop_last(), j, name);
    }
}

/// Appends a line break.
fn push_crlf(out: &mut Vec<u8>)
    ensures
        final(out)@ == old(out)@ + crlf(),
{
    out.push(13u8);
    out.push(10u8);
    proof {
        assert(out@ =~= old(out)@ + crlf());
    }
}

/// Builds the bytes of a response.
pub fn build_http_response(
    status_code: u16,
    status_text: &[u8],
    headers: &Vec<Header>,
    body: &[u8],
    close_connection: bool,
) -> (r: Vec<u8>)
    ensures
        r@ == response_bytes(status_code, status_text@, pairs(headers@), body@, close_connection),
{
    let mut out: Vec<u8> = Vec::new();
    append(&mut out, "HTTP/1.1 ".as_bytes());
    let code = to_decimal(status_code as usize);
    append(&mut out, code.as_slice());
    append(&mut out, " ".as_bytes());
    append(&mut out, status_text);
    push_crlf(&mut out);
    let mut lines: Vec<u8> = Vec::new();
    let mut i: usize = 0;
    proof {
        assert(pairs(headers@).take(0) =~= Seq::empty());
    }
    while i < headers.len()
        invariant
            i <= headers@.len(),
            lines@ == header_lines(pairs(headers@).take(i as int)),
        decreases headers.len() - i,
    {
        proof {
            assert(pairs(headers@).take(i + 1).drop_last() =~= pairs(headers@).take(i as int));
        }
        append(&mut lines, headers[i].name.as_slice());
        append(&mut lines, ": ".as_bytes());
        append(&mut lines, headers[i].value.as_slice());
        push_crlf(&mut lines);
        i += 1;
    }
    proof {
        assert(pairs(headers@).take(i as int) =~= pairs(headers@));
    }
    append(&mut out, lines.as_slice());
    let ghost before_length = out@;
    if !holds_field(headers, "content-length".as_bytes()) {
        let mut line: Vec<u8> = Vec::new();
        append(&mut line, "Content-Length: ".as_bytes());
        let n = to_decimal(body.len());
        append(&mut line, n.as_slice());
        push_crlf(&mut line);
        proof {
            assert(line@ =~= length_line(pairs(headers@), body@));
        }
        append(&mut out, line.as_slice());
    } else {
        proof {
            assert(out@ =~= before_length + length_line(pairs(headers@), body@));
        }
    }
    append(&mut out, "Server: Localhost_RS\r\n".as_bytes());
    if close_connection {
        append(&mut out, "Connection: close\r\n".as_bytes());
    } else {
        append(&mut out, "Connection: keep-alive\r\n".as_bytes());
    }
    push_crlf(&mut out);
    append(&mut out, body);
    proof {
        assert(out@ =~= response_bytes(
            status_code,
            status_text@,
            pairs(headers@),
            body@,
            close_connection,
        ));
    }
    out
}

/// The bytes of a closing response with one `Content-Type` field and the
/// reason phrase of its code.
pub open spec fn plain_response(code: u16, body: Seq<u8>, content_type: Seq<u8>) -> Seq<u8> {
    response_bytes(code, reason(code), seq![("Content-Type".spec_bytes(), content_type)], body, true)
}

/// Builds a closing response with the given body and content type.
pub fn bytes_response(status_code: u16, body: &[u8], content_type: &[u8]) -> (r: Vec<u8>)
    ensures
        r@ == plain_response(status_code, body@, content_type@),
{
    let mut headers: Vec<Header> = Vec::new();
    let name = copy_range("Content-Type".as_bytes(), 0, "Content-Type".as_bytes().len());
    let value = copy_range(content_type, 0, content_type.len());
    proof {
        assert(name@ =~= "Content-Type".spec_bytes());
        assert(value@ =~= content_type@);
    }
    headers.push(Header { name, value });
    proof {
        assert(pairs(headers@) =~= seq![("Content-Type".spec_bytes(), content_type@)]);
    }
    build_http_response(status_code, reason_phrase(status_code), &headers, body, true)
}

/// The answer to a request whose body was stored.
pub fn upload_acknowledgement() -> (r: Vec<u8>)
    ensures
        r@ == plain_response(201, "Upload Successful".spec_bytes(), "text/plain".spec_bytes()),
{
    bytes_response(201, "Upload Successful".as_bytes(), "text/plain".as_bytes())
}

/// The page that an error response carries where the server names no page of
/// its own for the code.
pub open spec fn default_error_page(code: u16) -> Seq<u8> {
    "<html><head><title>".spec_bytes() + dec_digits(code as nat) + " ".spec_bytes() + reason(code)
        + "</title></head><body style='font-family:sans-serif; text-align:center; padding-top:50px;'><h1>".spec_bytes()
        + dec_digits(code as nat) + " ".spec_bytes() + reason(code)
        + "</h1><hr><p>Localhost_RS Server</p></body></html>".spec_bytes()
}

/// The page of an error response: the custom page where one was loaded, else
/// the default one.
pub open spec fn error_page(code: u16, custom: Option<Seq<u8>>) -> Seq<u8> {
    match custom {
        Some(page) => page,
        None => default_error_page(code),
    }
}

/// Builds the response for an error: an HTML page under the code's reason
/// phrase. `custom` is the server's own page for the code, where it has one that
/// could be read.
pub fn error_response(code: u16, custom: Option<&[u8]>) -> (r: Vec<u8>)
    ensures
        r@ == plain_response(
            code,
            error_page(
                code,
                match custom {
                    Some(p) => Some(p@),
                    None => None,
                },
            ),
            "text/html".spec_bytes(),
        ),
{
    match custom {
        Some(page) => bytes_response(code, page, "text/html".as_bytes()),
        None => {
            let mut page: Vec<u8> = Vec::new();
            let digits = to_decimal(code as usize);
            append(&mut page, "<html><head><title>".as_bytes());
            append(&mut page, digits.as_slice());
            append(&mut page, " ".as_bytes());
            append(&mut page, reason_phrase(code));
            append(
                &mut page,
                "</title></head><body style='font-family:sans-serif; text-align:center; padding-top:50px;'><h1>".as_bytes(),
            );
            append(&mut page, digits.as_slice());
            append(&mut page, " ".as_bytes());
            append(&mut page, reason_phrase(code));
            append(&mut page, "</h1><hr><p>Localhost_RS Server</p></body></html>".as_bytes());
            proof {
                assert(page@ =~= default_error_page(code));
            }
            bytes_response(code, page.as_slice(), "text/html".as_bytes())
        },
    }
}

/// `path` without the slashes it begins with.
pub open spec fn without_leading_slashes(path: Seq<u8>) -> Seq<u8>
    decreases path.len(),
{
    if path.len() > 0 && path[0] == 47 {
        without_leading_slashes(path.skip(1))
    } else {
        path
    }
}

/// A copy of `path` without the slashes it begins with.
pub fn strip_leading_slashes(path: &[u8]) -> (r: Vec<u8>)
    ensures
        r@ == without_leading_slashes(path@),
{
    let mut i: usize = 0;
    proof {
        assert(path@.skip(0) =~= path@);
    }
    while i < path.len() && path[i] == 47
        invariant
            i <= path@.len(),
            without_leading_slashes(path@) == without_leading_slashes(path@.skip(i as int)),
        decreases path.len() - i,
    {
        proof {
            assert(path@.skip(i as int).skip(1) =~= path@.skip(i + 1));
        }
        i += 1;
    }
    proof {
        assert(path@.skip(i as int) =~= path@.subrange(i as int, path@.len() as int));
    }
    copy_range(path, i, path.len())
}

/// The places where a configured error page is looked for, in order: the path
/// as written, the path without leading slashes, and that below `./`.
pub fn error_page_candidates(path: &[u8]) -> (r: Vec<Vec<u8>>)
    ensures
        r@.len() == 3,
        r@[0]@ == path@,
        r@[1]@ == without_leading_slashes(path@),
        r@[2]@ == "./".spec_bytes() + without_leading_slashes(path@),
{
    let first = copy_range(path, 0, path.len());
    proof {
        assert(path@.subrange(0, path@.len() as int) =~= path@);
    }
    let second = strip_leading_slashes(path);
    let mut third: Vec<u8> = Vec::new();
    append(&mut third, "./".as_bytes());
    append(&mut third, second.as_slice());
    proof {
        assert(third@ =~= "./".spec_bytes() + without_leading_slashes(path@));
    }
    let mut out: Vec<Vec<u8>> = Vec::new();
    out.push(first);
    out.push(second);
    out.push(third);
    out
}

} // verus!
