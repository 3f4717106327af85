use vstd::prelude::*;
use vstd::slice::slice_subrange;
use vstd::utf8::valid_utf8;
use vstd::string::StringSliceAdditionalSpecFns;
use crate::bytes::{
    crlf2, owned, eq_ignore_case, find_byte, find_bytes, find_crlf2, find_from, has_prefix,
    line_at, line_bounds, line_next, same_ignoring_case, starts_with, trim, trimmed,
};
use crate::headers::{pairs, Header};
use crate::number::{dec_digits, parse_number, parse_uint, to_decimal};
use crate::request::is_utf8;
use crate::response::{build_http_response, has_field, holds_field, response_bytes};

verus! {

/// What the header lines of a script's output say: the status, and the fields
/// to hand on.
pub struct CgiStatus {
    pub code: u16,
    pub text: Vec<u8>,
    pub headers: Vec<Header>,
}

/// A `CgiStatus` as mathematical values.
pub struct CgiHead {
    pub code: u16,
    pub text: Seq<u8>,
    pub fields: Seq<(Seq<u8>, Seq<u8>)>,
}

impl View for CgiStatus {
    type V = CgiHead;

    open spec fn view(&self) -> CgiHead {
        CgiHead { code: self.code, text: self.text@, fields: pairs(self.headers@) }
    }
}

/// The header block and the body of a script's output: split at the first empty
/// line, written with line breaks or, failing that, with bare line feeds; all
/// body where there is none.
pub open spec fn cgi_split(out: Seq<u8>) -> (Seq<u8>, Seq<u8>) {
    match find_from(out, crlf2(), 0) {
        Some(p) => (out.take(p), out.skip(p + 4)),
        None => match find_from(out, seq![10u8, 10u8], 0) {
            Some(p) => (out.take(p), out.skip(p + 2)),
            None => (Seq::empty(), out),
        },
    }
}

/// The status after one header line. A line without a colon changes nothing. A
/// `Status` line sets the code where its first word is a number, and the text
/// where a space follows that word. Any other line adds a field.
pub open spec fn cgi_line(line: Seq<u8>, st: CgiHead) -> CgiHead {
    match find_from(line, seq![58u8], 0) {
        None => st,
        Some(c) => {
            let key = trim(line.take(c));
            let value = trim(line.skip(c + 1));
            if same_ignoring_case(key, "status".spec_bytes()) {
                match find_from(value, seq![32u8], 0) {
                    Some(sp) => CgiHead {
                        code: match parse_number(value.take(sp), 10, 65535) {
                            Some(n) => n as u16,
                            None => st.code,
                        },
                        text: trim(value.skip(sp + 1)),
                        fields: st.fields,
                    },
                    None => CgiHead {
                        code: match parse_number(value, 10, 65535) {
                            Some(n) => n as u16,
                            None => st.code,
                        },
                        text: st.text,
                        fields: st.fields,
                    },
                }
            } else {
                CgiHead { code: st.code, text: st.text, fields: st.fields.push((key, value)) }
            }
        },
    }
}

/// The status after the header lines from `pos` on.
pub open spec fn cgi_lines_from(head: Seq<u8>, pos: int, st: CgiHead) -> CgiHead
    decreases head.len() - pos,
{
    if pos < 0 || pos >= head.len() {
        st
    } else {
        cgi_lines_from(head, line_next(head, pos), cgi_line(line_at(head, pos), st))
    }
}

/// The status that a header block gives: `200 OK` and no fields unless its
/// lines say otherwise. A block that is not UTF-8 says nothing.
pub open spec fn cgi_head(head: Seq<u8>) -> CgiHead {
    let init = CgiHead { code: 200, text: "OK".spec_bytes(), fields: Seq::empty() };
    if valid_utf8(head) {
        cgi_lines_from(head, 0, init)
    } else {
        init
    }
}

/// The fields of the response: those of the script, then `Content-Type:
/// text/plain` and `Content-Length` where the script gave none.
pub open spec fn cgi_fields(fields: Seq<(Seq<u8>, Seq<u8>)>, body: Seq<u8>) -> Seq<
    (Seq<u8>, Seq<u8>),
> {
    let typed = if has_field(fields, "content-type".spec_bytes()) {
        fields
    } else {
        fields.push(("Content-Type".spec_bytes(), "text/plain".spec_bytes()))
    };
    if has_field(fields, "content-length".spec_bytes()) {
        typed
    } else {
        typed.push(("Content-Length".spec_bytes(), dec_digits(body.len())))
    }
}

/// The response made from a script's output. Output that begins with `HTTP/`
/// is the response as it stands.
pub open spec fn cgi_response(out: Seq<u8>) -> Seq<u8> {
    if has_prefix(out, "HTTP/".spec_bytes()) {
        out
    } else {
        let head = cgi_head(cgi_split(out).0);
        let body = cgi_split(out).1;
        response_bytes(head.code, head.text, cgi_fields(head.fields, body), body, true)
    }
}

/// Reads a status code: a decimal number of at most 65535.
pub fn read_code(s: &[u8], otherwise: u16) -> (r: u16)
    ensures
        r == match parse_number(s@, 10, 65535) {
            Some(n) => n as u16,
            None => otherwise,
        },
{
    match parse_uint(s, 10, 65535) {
        Some(n) => n as u16,
        None => otherwise,
    }
}

/// Takes one header line of a script's output into account.
pub fn apply_cgi_line(line: &[u8], st: CgiStatus) -> (r: CgiStatus)
    ensures
        r@ == cgi_line(line@, st@),
{
    let c = match find_byte(line, 58u8, 0) {
        Some(c) => c,
        None => {
            return st;
        },
    };
    let key = trimmed(slice_subrange(line, 0, c));
    let value = trimmed(slice_subrange(line, c + 1, line.len()));
    proof {
        assert(line@.subrange(0, c as int) =~= line@.take(c as int));
        assert(line@.subrange(c + 1, line@.len() as int) =~= line@.skip(c + 1));
    }
    if eq_ignore_case(key.as_slice(), "status".as_bytes()) {
        match find_byte(value.as_slice(), 32u8, 0) {
            Some(sp) => {
                let code = read_code(slice_subrange(value.as_slice(), 0, sp), st.code);
                let text = trimmed(slice_subrange(value.as_slice(), sp + 1, value.len()));
                proof {
                    assert(value@.subrange(0, sp as int) =~= value@.take(sp as int));
                    assert(value@.subrange(sp + 1, value@.len() as int) =~= value@.skip(sp + 1));
                }
                CgiStatus { code, text, headers: st.headers }
            },
            None => {
                let code = read_code(value.as_slice(), st.code);
                CgiStatus { code, text: st.text, headers: st.headers }
            },
        }
    } else {
        let mut headers = st.headers;
        let ghost before = pairs(headers@);
        headers.push(Header { name: key, value });
        proof {
            assert(pairs(headers@) =~= before.push((key@, value@)));
        }
        CgiStatus { code: st.code, text: st.text, headers }
    }
}

/// Reads the header block of a script's output.
pub fn read_cgi_head(head: &[u8]) -> (r: CgiStatus)
    ensures
        r@ == cgi_head(head@),
{
    let mut st = CgiStatus { code: 200, text: owned("OK".as_bytes()), headers: Vec::new() };
    proof {
        assert(pairs(st.headers@) =~= Seq::empty());
    }
    if !is_utf8(head) {
        return st;
    }
    let mut pos: usize = 0;
    while pos < head.len()
        invariant
            cgi_head(head@) == cgi_lines_from(head@, pos as int, st@),
        decreases head.len() - pos,
    {
        let (e, next) = line_bounds(head, pos);
        st = apply_cgi_line(slice_subrange(head, pos, e), st);
        pos = next;
    }
    st
}

/// Makes the response to send from what a script wrote.
pub fn build_cgi_response(output: &[u8]) -> (r: Vec<u8>)
    ensures
        r@ == cgi_response(output@),
{
    if starts_with(output, "HTTP/".as_bytes()) {
        return owned(output);
    }
    let nn = [10u8, 10u8];
    let d = nn.as_slice();
    assert(d@ =~= seq![10u8, 10u8]);
    let n = output.len();
    let (head, body) = match find_crlf2(output, 0) {
        Some(p) => (slice_subrange(output, 0, p), slice_subrange(output, p + 4, n)),
        None => match find_bytes(output, d, 0) {
            Some(p) => (slice_subrange(output, 0, p), slice_subrange(output, p + 2, n)),
            None => (slice_subrange(output, 0, 0), output),
        },
    };
    proof {
        assert(head@ =~= cgi_split(output@).0);
        assert(body@ =~= cgi_split(output@).1);
    }
    let st = read_cgi_head(head);
    let mut headers = st.headers;
    let ghost fields = pairs(headers@);
    let typed = holds_field(&headers, "content-type".as_bytes());
    let sized = holds_field(&headers, "content-length".as_bytes());
    if !typed {
        let ghost before = pairs(headers@);
        let name = owned("Content-Type".as_bytes());
        let value = owned("text/plain".as_bytes());
        headers.push(Header { name, value });
        proof {
            assert(pairs(headers@) =~= before.push((name@, value@)));
        }
    }
    if !sized {
        let ghost before = pairs(headers@);
        let name = owned("Content-Length".as_bytes());
        let value = to_decimal(body.len());
        headers.push(Header { name, value });
        proof {
            assert(pairs(headers@) =~= before.push((name@, value@)));
        }
    }
    proof {
        assert(pairs(headers@) == cgi_fields(fields, body@));
    }
    build_http_response(st.code, st.text.as_slice(), &headers, body, true)
}

} // verus!
