use vstd::prelude::*;
use vstd::slice::slice_subrange;
use vstd::utf8::valid_utf8;
use vstd::string::StringSliceAdditionalSpecFns;
use crate::bytes::{
    append, at_crlf, copy_range, crlf, crlf2, eq_ignore_case, find_byte, find_bytes, find_crlf,
    find_crlf2, find_from, first_token, after_first_token, has_prefix, has_suffix, line_at,
    line_bounds, line_next, occurs_at, same_ignoring_case, starts_with,
    token_range, trim, trimmed,
};
use crate::number::{parse_number, parse_uint};
use crate::headers::HeaderMap;

verus! {

/// A request as read from the wire.
pub struct HttpRequest {
    pub method: Vec<u8>,
    pub uri: Vec<u8>,
    pub headers: HeaderMap,
    pub body: Vec<u8>,
}

/// What a request holds, as mathematical values.
pub struct RequestView {
    pub method: Seq<u8>,
    pub uri: Seq<u8>,
    pub headers: Map<Seq<u8>, Seq<u8>>,
    pub body: Seq<u8>,
}

impl View for HttpRequest {
    type V = RequestView;

    open spec fn view(&self) -> RequestView {
        RequestView {
            method: self.method@,
            uri: self.uri@,
            headers: self.headers@,
            body: self.body@,
        }
    }
}

/// `std::str::from_utf8` accepts exactly the byte strings that are well-formed UTF-8.
#[verifier::external_body]
pub(crate) fn is_utf8(b: &[u8]) -> (r: bool)
    ensures
        r == valid_utf8(b@),
{
    std::str::from_utf8(b).is_ok()
}

/// The lower-case form of a text as `str::to_lowercase` gives it, for bytes
/// that are UTF-8; other bytes as they are.
pub uninterp spec fn lowercase_of(text: Seq<u8>) -> Seq<u8>;

/// Calls `str::to_lowercase` on the text that the bytes spell; bytes that spell
/// none are handed back. The result is a function of the bytes alone; nothing
/// more is claimed of it.
#[verifier::external_body]
pub(crate) fn unicode_lowercase(text: &[u8]) -> (r: Vec<u8>)
    ensures
        r@ == lowercase_of(text@),
{
    match std::str::from_utf8(text) {
        Ok(t) => t.to_lowercase().into_bytes(),
        Err(_) => text.to_vec(),
    }
}

/// Where the header block ends: just behind the first empty line.
pub open spec fn header_end(buf: Seq<u8>) -> Option<int> {
    match find_from(buf, crlf2(), 0) {
        Some(p) => Some(p + 4),
        None => None,
    }
}

/// What a line in lower case says of the body length: nothing unless it
/// begins with `content-length:`; else the number behind that, if it can be read.
pub open spec fn length_in_line(low: Seq<u8>) -> Option<Option<nat>> {
    let key = "content-length:".spec_bytes();
    if has_prefix(low, key) {
        Some(parse_number(trim(low.skip(key.len() as int)), 10, usize::MAX as nat))
    } else {
        None
    }
}

/// The number that the first `content-length:` line of a header block gives, from
/// the line at `pos` on. A line whose number cannot be read ends the search.
pub open spec fn content_length_from(h: Seq<u8>, pos: int) -> Option<nat>
    decreases h.len() - pos,
{
    if pos < 0 || pos >= h.len() {
        None
    } else {
        match length_in_line(lowercase_of(line_at(h, pos))) {
            Some(n) => n,
            None => content_length_from(h, line_next(h, pos)),
        }
    }
}

/// The body length that a header block declares.
pub open spec fn content_length(h: Seq<u8>) -> Option<nat> {
    if valid_utf8(h) {
        content_length_from(h, 0)
    } else {
        None
    }
}

/// Where the piece that starts at `pos` ends when the block is split at line breaks.
pub open spec fn piece_end(h: Seq<u8>, pos: int) -> int {
    match find_from(h, crlf(), pos) {
        Some(e) => e,
        None => h.len() as int,
    }
}

/// The name and value of a header line: what stands before and behind its first
/// colon, without surrounding white space, the name in lower case.
pub open spec fn field_of(line: Seq<u8>) -> Option<(Seq<u8>, Seq<u8>)> {
    match find_from(line, seq![58u8], 0) {
        Some(c) => Some((lowercase_of(trim(line.take(c))), trim(line.skip(c + 1)))),
        None => None,
    }
}

/// The fields of the header lines from `pos` up to the first empty line, added to `acc`.
pub open spec fn fields_from(h: Seq<u8>, pos: int, acc: Map<Seq<u8>, Seq<u8>>) -> Map<
    Seq<u8>,
    Seq<u8>,
>
    decreases h.len() - pos,
{
    if pos < 0 || pos > h.len() {
        acc
    } else {
        let line = h.subrange(pos, piece_end(h, pos));
        if line.len() == 0 {
            acc
        } else {
            let next = match field_of(line) {
                Some(f) => acc.insert(f.0, f.1),
                None => acc,
            };
            match find_from(h, crlf(), pos) {
                Some(e) => fields_from(h, e + 2, next),
                None => next,
            }
        }
    }
}

/// The header fields of a header block: those of the lines after the request line.
pub open spec fn header_fields(h: Seq<u8>) -> Map<Seq<u8>, Seq<u8>> {
    match find_from(h, crlf(), 0) {
        Some(e) => fields_from(h, e + 2, Map::empty()),
        None => Map::empty(),
    }
}

/// Whether one of the comma-separated parts of `v`, from `pos` on, is `chunked`.
pub open spec fn has_chunked_part(v: Seq<u8>, pos: int) -> bool
    decreases v.len() - pos,
{
    if pos < 0 || pos > v.len() {
        false
    } else {
        match find_from(v, seq![44u8], pos) {
            Some(c) => same_ignoring_case(trim(v.subrange(pos, c)), "chunked".spec_bytes())
                || has_chunked_part(v, c + 1),
            None => same_ignoring_case(
                trim(v.subrange(pos, v.len() as int)),
                "chunked".spec_bytes(),
            ),
        }
    }
}

/// Whether the headers ask for the chunked transfer coding.
pub open spec fn is_chunked(headers: Map<Seq<u8>, Seq<u8>>) -> bool {
    let name = "transfer-encoding".spec_bytes();
    headers.contains_key(name) && has_chunked_part(headers[name], 0)
}

/// The size field of a chunk's first line: what stands before its first semicolon.
pub open spec fn size_field(line: Seq<u8>) -> Seq<u8> {
    match find_from(line, seq![59u8], 0) {
        Some(c) => line.take(c),
        None => line,
    }
}

/// The size that a chunk's first line gives.
pub open spec fn chunk_size(line: Seq<u8>) -> Option<nat> {
    if valid_utf8(line) {
        parse_number(trim(size_field(line)), 16, usize::MAX as nat)
    } else {
        None
    }
}

/// Decodes the chunks of `body` from `pos` on, behind the bytes `acc` already
/// decoded: the decoded bytes and the offset just behind the last chunk and its
/// trailer, or `None` where the coding is broken or cut short.
pub open spec fn chunks_from(body: Seq<u8>, pos: int, acc: Seq<u8>) -> Option<(Seq<u8>, int)>
    decreases body.len() - pos,
{
    if pos < 0 || pos > body.len() {
        None
    } else {
        match find_from(body, crlf(), pos) {
            None => None,
            Some(e) => match chunk_size(body.subrange(pos, e)) {
                None => None,
                Some(n) => {
                    let p = e + 2;
                    if n == 0 {
                        if occurs_at(body, crlf(), p) {
                            Some((acc, p + 2))
                        } else {
                            match find_from(body, crlf2(), p) {
                                Some(t) => Some((acc, t + 4)),
                                None => None,
                            }
                        }
                    } else if body.len() < p + n + 2 || !occurs_at(body, crlf(), p + n) {
                        None
                    } else {
                        chunks_from(body, p + n + 2, acc + body.subrange(p, p + n))
                    }
                },
            },
        }
    }
}

/// What the chunked coding of `body` decodes to, and how many bytes of it were used.
pub open spec fn decode_chunked(body: Seq<u8>) -> Option<(Seq<u8>, int)> {
    chunks_from(body, 0, Seq::empty())
}

/// The line of a header block that comes first: the request line.
pub open spec fn request_line(head: Seq<u8>) -> Seq<u8> {
    head.subrange(0, piece_end(head, 0))
}

/// The body that the bytes `rest` behind a header block hold: the decoded chunks
/// where the headers ask for the chunked coding, else as many bytes as the block
/// declares (none where it declares nothing).
pub open spec fn request_body(head: Seq<u8>, rest: Seq<u8>) -> Option<Seq<u8>> {
    if is_chunked(header_fields(head)) {
        match decode_chunked(rest) {
            Some(d) => Some(d.0),
            None => None,
        }
    } else {
        let n = match content_length(head) {
            Some(n) => n,
            None => 0,
        };
        if rest.len() < n {
            None
        } else {
            Some(rest.take(n as int))
        }
    }
}

/// The request that a buffer holds, or `None` where it is cut short or malformed.
pub open spec fn parsed(raw: Seq<u8>) -> Option<RequestView> {
    match header_end(raw) {
        None => None,
        Some(h) => {
            let head = raw.take(h);
            let method = first_token(request_line(head));
            let uri = first_token(after_first_token(request_line(head)));
            if !valid_utf8(head) || method.len() == 0 || uri.len() == 0 {
                None
            } else {
                match request_body(head, raw.skip(h)) {
                    Some(body) => Some(
                        RequestView { method, uri, headers: header_fields(head), body },
                    ),
                    None => None,
                }
            }
        },
    }
}

/// Whether a buffer that holds no request may yet come to hold one: its header
/// block has not ended, or the block is sound and declares more bytes than
/// have come behind it.
pub open spec fn cut_short(raw: Seq<u8>) -> bool {
    match header_end(raw) {
        None => true,
        Some(h) => {
            let head = raw.take(h);
            let method = first_token(request_line(head));
            let uri = first_token(after_first_token(request_line(head)));
            &&& valid_utf8(head)
            &&& method.len() > 0
            &&& uri.len() > 0
            &&& !is_chunked(header_fields(head))
            &&& raw.skip(h).len() < match content_length(head) {
                Some(n) => n,
                None => 0,
            }
        },
    }
}

/// What reading a buffer gives.
pub enum ParseOutcome {
    /// More bytes are needed.
    Incomplete,
    /// The bytes are no request.
    Invalid,
    /// The request.
    Parsed(HttpRequest),
}

/// Whether `outcome` is what reading `raw` gives: the request where the
/// buffer holds one; else `Incomplete` where it is cut short, and `Invalid`
/// where it is not.
pub open spec fn outcome_fits(raw: Seq<u8>, outcome: ParseOutcome) -> bool {
    match outcome {
        ParseOutcome::Parsed(q) => parsed(raw) == Some(q@),
        ParseOutcome::Incomplete => parsed(raw).is_none() && cut_short(raw),
        ParseOutcome::Invalid => parsed(raw).is_none() && !cut_short(raw),
    }
}

/// Whether a buffer holds a whole request: its header block, and behind it all
/// the chunks, or as many bytes as the block declares.
pub open spec fn complete(buf: Seq<u8>) -> bool {
    match header_end(buf) {
        None => false,
        Some(h) => {
            let head = buf.take(h);
            let rest = buf.skip(h);
            if valid_utf8(head) && is_chunked(header_fields(head)) {
                decode_chunked(rest).is_some()
            } else {
                match content_length(head) {
                    Some(n) => rest.len() >= n,
                    None => true,
                }
            }
        },
    }
}

/// A file sent as one part of a form.
#[derive(Debug)]
pub struct UploadedFile {
    pub file_name: Vec<u8>,
    pub data: Vec<u8>,
}

impl View for UploadedFile {
    type V = (Seq<u8>, Seq<u8>);

    open spec fn view(&self) -> (Seq<u8>, Seq<u8>) {
        (self.file_name@, self.data@)
    }
}

/// The files of a form, in the order of their parts.
pub struct MultipartForm {
    pub files: Vec<UploadedFile>,
}

impl View for MultipartForm {
    type V = Seq<(Seq<u8>, Seq<u8>)>;

    open spec fn view(&self) -> Seq<(Seq<u8>, Seq<u8>)> {
        self.files@.map_values(|f: UploadedFile| f@)
    }
}

/// The boundary that a content type names: what stands between the first
/// `boundary=` and the next one (or the end), without surrounding white space.
pub open spec fn boundary_of(ct: Seq<u8>) -> Option<Seq<u8>> {
    let key = "boundary=".spec_bytes();
    match find_from(ct, key, 0) {
        None => None,
        Some(i) => {
            let a = i + key.len();
            let b = match find_from(ct, key, a) {
                Some(j) => j,
                None => ct.len() as int,
            };
            Some(trim(ct.subrange(a, b)))
        },
    }
}

/// The file name that a header line quotes: what follows the first `filename="`,
/// up to the next quote or the next `filename="`.
pub open spec fn quoted_file_name(line: Seq<u8>) -> Option<Seq<u8>> {
    let key = "filename=\"".spec_bytes();
    match find_from(line, key, 0) {
        None => None,
        Some(i) => {
            let a = i + key.len();
            let stop = match find_from(line, key, a) {
                Some(j) => j,
                None => line.len() as int,
            };
            let piece = line.subrange(a, stop);
            match find_from(piece, seq![34u8], 0) {
                Some(q) => Some(piece.take(q)),
                None => Some(piece),
            }
        },
    }
}

/// The file name that the header lines of a part give, from the line at `pos`
/// on: that of the last `content-disposition:` line that quotes one, else `cur`.
pub open spec fn file_name_from(head: Seq<u8>, pos: int, cur: Seq<u8>) -> Seq<u8>
    decreases head.len() - pos,
{
    if pos < 0 || pos >= head.len() {
        cur
    } else {
        let line = line_at(head, pos);
        let next = if has_prefix(lowercase_of(line), "content-disposition:".spec_bytes()) {
            match quoted_file_name(line) {
                Some(f) => f,
                None => cur,
            }
        } else {
            cur
        };
        file_name_from(head, line_next(head, pos), next)
    }
}

/// The file that one part of a form holds, if its headers name one.
pub open spec fn part_file(part: Seq<u8>) -> Option<(Seq<u8>, Seq<u8>)> {
    let data = if has_prefix(part, crlf()) {
        part.skip(2)
    } else {
        part
    };
    match header_end(data) {
        None => None,
        Some(h) => {
            let head = data.take(h);
            let content = data.skip(h);
            let actual = if has_suffix(content, crlf()) {
                content.take(content.len() - 2)
            } else {
                content
            };
            let name = file_name_from(head, 0, Seq::empty());
            if !valid_utf8(head) || name.len() == 0 {
                None
            } else {
                Some((name, actual))
            }
        },
    }
}

/// The files of the parts of `body` between delimiters, from `cur` on, behind `acc`.
pub open spec fn parts_from(
    body: Seq<u8>,
    delim: Seq<u8>,
    cur: int,
    acc: Seq<(Seq<u8>, Seq<u8>)>,
) -> Seq<(Seq<u8>, Seq<u8>)>
    decreases body.len() - cur,
{
    if delim.len() == 0 || cur < 0 {
        acc
    } else {
        match find_from(body, delim, cur) {
            None => acc,
            Some(first) => match find_from(body, delim, first + delim.len()) {
                None => acc,
                Some(e) => {
                    let next = match part_file(body.subrange(first + delim.len(), e)) {
                        Some(f) => acc.push(f),
                        None => acc,
                    };
                    parts_from(body, delim, e, next)
                },
            },
        }
    }
}

/// The form that a body holds under the given headers: `None` unless the content
/// type is `multipart/form-data` and names a boundary.
pub open spec fn multipart_of(headers: Map<Seq<u8>, Seq<u8>>, body: Seq<u8>) -> Option<
    Seq<(Seq<u8>, Seq<u8>)>,
> {
    let name = "content-type".spec_bytes();
    if !headers.contains_key(name) || find_from(
        headers[name],
        "multipart/form-data".spec_bytes(),
        0,
    ).is_none() {
        None
    } else {
        match boundary_of(headers[name]) {
            None => None,
            Some(b) => Some(parts_from(body, seq![45u8, 45u8] + b, 0, Seq::empty())),
        }
    }
}

impl HttpRequest {
    /// The offset just behind the first empty line.
    pub fn find_header_end(buf: &[u8]) -> (r: Option<usize>)
        ensures
            match r {
                Some(h) => header_end(buf@) == Some(h as int) && 4 <= h <= buf@.len(),
                None => header_end(buf@).is_none(),
            },
    {
        match find_crlf2(buf, 0) {
            Some(p) => Some(p + 4),
            None => None,
        }
    }

    /// What a line in lower case says of the body length.
    pub fn read_length_line(low: &[u8]) -> (r: Option<Option<usize>>)
        ensures
            match r {
                Some(Some(n)) => length_in_line(low@) == Some(Some(n as nat)),
                Some(None) => length_in_line(low@) == Some(None::<nat>),
                None => length_in_line(low@).is_none(),
            },
    {
        let key = "content-length:".as_bytes();
        if starts_with(low, key) {
            let rest = slice_subrange(low, key.len(), low.len());
            proof {
                assert(rest@ =~= low@.skip(key@.len() as int));
            }
            let t = trimmed(rest);
            Some(parse_uint(t.as_slice(), 10, usize::MAX))
        } else {
            None
        }
    }

    /// The body length that the header block declares.
    pub fn get_content_length(header_bytes: &[u8]) -> (r: Option<usize>)
        ensures
            match r {
                Some(n) => content_length(header_bytes@) == Some(n as nat),
                None => content_length(header_bytes@).is_none(),
            },
    {
        if !is_utf8(header_bytes) {
            return None;
        }
        let mut pos: usize = 0;
        while pos < header_bytes.len()
            invariant
                valid_utf8(header_bytes@),
                content_length_from(header_bytes@, 0) == content_length_from(
                    header_bytes@,
                    pos as int,
                ),
            decreases header_bytes.len() - pos,
        {
            let (e, next) = line_bounds(header_bytes, pos);
            let line = unicode_lowercase(slice_subrange(header_bytes, pos, e));
            match Self::read_length_line(line.as_slice()) {
                Some(n) => {
                    return n;
                },
                None => {},
            }
            pos = next;
        }
        None
    }

    /// The header fields of a header block, or `None` where the block is not UTF-8.
    pub fn parse_headers_map(header_bytes: &[u8]) -> (r: Option<HeaderMap>)
        ensures
            match r {
                Some(m) => valid_utf8(header_bytes@) && m@ == header_fields(header_bytes@),
                None => !valid_utf8(header_bytes@),
            },
    {
        if !is_utf8(header_bytes) {
            return None;
        }
        Some(Self::collect_fields(header_bytes))
    }

    /// The header fields of the lines after the first.
    pub fn collect_fields(h: &[u8]) -> (r: HeaderMap)
        ensures
            r@ == header_fields(h@),
    {
        let mut map = HeaderMap::new();
        let mut pos: usize = match find_crlf(h, 0) {
            Some(e) => e + 2,
            None => {
                return map;
            },
        };
        loop
            invariant
                pos <= h@.len(),
                header_fields(h@) == fields_from(h@, pos as int, map@),
            decreases h@.len() - pos,
        {
            let found = find_crlf(h, pos);
            let e = match found {
                Some(e) => e,
                None => h.len(),
            };
            if e == pos {
                return map;
            }
            let line = slice_subrange(h, pos, e);
            match find_byte(line, 58u8, 0) {
                Some(c) => {
                    let name = unicode_lowercase(trimmed(slice_subrange(line, 0, c)).as_slice());
                    let value = trimmed(slice_subrange(line, c + 1, line.len()));
                    proof {
                        assert(line@.subrange(0, c as int) =~= line@.take(c as int));
                        assert(line@.subrange(c + 1, line@.len() as int) =~= line@.skip(c + 1));
                    }
                    map.insert(name, value);
                },
                None => {},
            }
            match found {
                Some(e) => {
                    pos = e + 2;
                },
                None => {
                    return map;
                },
            }
        }
    }

    /// Whether the headers ask for the chunked transfer coding.
    pub fn is_chunked_transfer(headers: &HeaderMap) -> (r: bool)
        ensures
            r == is_chunked(headers@),
    {
        let v = match headers.get("transfer-encoding".as_bytes()) {
            Some(v) => v.as_slice(),
            None => {
                return false;
            },
        };
        let word = "chunked".as_bytes();
        let mut pos: usize = 0;
        loop
            invariant
                pos <= v@.len(),
                word@ == "chunked".spec_bytes(),
                is_chunked(headers@) == has_chunked_part(v@, 0),
                has_chunked_part(v@, 0) == has_chunked_part(v@, pos as int),
            decreases v@.len() - pos,
        {
            match find_byte(v, 44u8, pos) {
                Some(c) => {
                    let t = trimmed(slice_subrange(v, pos, c));
                    if eq_ignore_case(t.as_slice(), word) {
                        return true;
                    }
                    pos = c + 1;
                },
                None => {
                    let t = trimmed(slice_subrange(v, pos, v.len()));
                    return eq_ignore_case(t.as_slice(), word);
                },
            }
        }
    }

    /// The size that a chunk's first line gives.
    pub fn read_chunk_size(line: &[u8]) -> (r: Option<usize>)
        ensures
            match r {
                Some(n) => chunk_size(line@) == Some(n as nat),
                None => chunk_size(line@).is_none(),
            },
    {
        if !is_utf8(line) {
            return None;
        }
        let field = match find_byte(line, 59u8, 0) {
            Some(c) => slice_subrange(line, 0, c),
            None => line,
        };
        let t = trimmed(field);
        parse_uint(t.as_slice(), 16, usize::MAX)
    }

    /// Decodes a chunked body: the decoded bytes and the number of bytes used.
    pub fn decode_chunked_body(body: &[u8]) -> (r: Option<(Vec<u8>, usize)>)
        ensures
            match r {
                Some(d) => decode_chunked(body@) == Some((d.0@, d.1 as int)) && d.1 <= body@.len(),
                None => decode_chunked(body@).is_none(),
            },
    {
        let mut decoded: Vec<u8> = Vec::new();
        let mut pos: usize = 0;
        loop
            invariant
                pos <= body@.len(),
                decode_chunked(body@) == chunks_from(body@, pos as int, decoded@),
            decreases body@.len() - pos,
        {
            let e = match find_crlf(body, pos) {
                Some(e) => e,
                None => {
                    return None;
                },
            };
            let n = match Self::read_chunk_size(slice_subrange(body, pos, e)) {
                Some(n) => n,
                None => {
                    return None;
                },
            };
            let p = e + 2;
            if n == 0 {
                if at_crlf(body, p) {
                    return Some((decoded, p + 2));
                }
                return match find_crlf2(body, p) {
                    Some(t) => Some((decoded, t + 4)),
                    None => None,
                };
            }
            let left = body.len() - p;
            if left < n || left - n < 2 {
                return None;
            }
            if !at_crlf(body, p + n) {
                return None;
            }
            append(&mut decoded, slice_subrange(body, p, p + n));
            pos = p + n + 2;
        }
    }

    /// Reads a request from a buffer.
    pub fn parse(raw_data: &[u8]) -> (r: Option<HttpRequest>)
        ensures
            match r {
                Some(q) => parsed(raw_data@) == Some(q@),
                None => parsed(raw_data@).is_none(),
            },
    {
        let h = match Self::find_header_end(raw_data) {
            Some(h) => h,
            None => {
                return None;
            },
        };
        let head = slice_subrange(raw_data, 0, h);
        let rest = slice_subrange(raw_data, h, raw_data.len());
        if !is_utf8(head) {
            return None;
        }
        let e = match find_crlf(head, 0) {
            Some(e) => e,
            None => head.len(),
        };
        let (a, b) = token_range(head, 0, e);
        let (c, d) = token_range(head, b, e);
        if a == b || c == d {
            return None;
        }
        let method = copy_range(head, a, b);
        let uri = copy_range(head, c, d);
        let headers = Self::collect_fields(head);
        let body = if Self::is_chunked_transfer(&headers) {
            match Self::decode_chunked_body(rest) {
                Some(d) => d.0,
                None => {
                    return None;
                },
            }
        } else {
            let n = match Self::get_content_length(head) {
                Some(n) => n,
                None => 0,
            };
            if rest.len() < n {
                return None;
            }
            copy_range(rest, 0, n)
        };
        Some(HttpRequest { method, uri, headers, body })
    }

    /// Reads a buffer, and tells a request that is cut short from bytes that
    /// are no request.
    pub fn parse_outcome(raw_data: &[u8]) -> (r: ParseOutcome)
        ensures
            outcome_fits(raw_data@, r),
    {
        match Self::parse(raw_data) {
            Some(req) => {
                return ParseOutcome::Parsed(req);
            },
            None => {},
        }
        let h = match Self::find_header_end(raw_data) {
            Some(h) => h,
            None => {
                return ParseOutcome::Incomplete;
            },
        };
        let head = slice_subrange(raw_data, 0, h);
        let rest = slice_subrange(raw_data, h, raw_data.len());
        if !is_utf8(head) {
            return ParseOutcome::Invalid;
        }
        let e = match find_crlf(head, 0) {
            Some(e) => e,
            None => head.len(),
        };
        let (a, b) = token_range(head, 0, e);
        let (c, d) = token_range(head, b, e);
        if a == b || c == d {
            return ParseOutcome::Invalid;
        }
        let headers = Self::collect_fields(head);
        if Self::is_chunked_transfer(&headers) {
            return ParseOutcome::Invalid;
        }
        let n = match Self::get_content_length(head) {
            Some(n) => n,
            None => 0,
        };
        if rest.len() < n {
            ParseOutcome::Incomplete
        } else {
            ParseOutcome::Invalid
        }
    }

    /// Whether the buffer holds a whole request.
    pub fn is_complete(buf: &[u8]) -> (r: bool)
        ensures
            r == complete(buf@),
    {
        let h = match Self::find_header_end(buf) {
            Some(h) => h,
            None => {
                return false;
            },
        };
        let head = slice_subrange(buf, 0, h);
        let rest = slice_subrange(buf, h, buf.len());
        match Self::parse_headers_map(head) {
            Some(headers) => {
                if Self::is_chunked_transfer(&headers) {
                    return Self::decode_chunked_body(rest).is_some();
                }
            },
            None => {},
        }
        match Self::get_content_length(head) {
            Some(n) => rest.len() >= n,
            None => true,
        }
    }

    /// The first offset at or after `start` at which `needle` occurs in `haystack`.
    pub fn find_bytes(haystack: &[u8], needle: &[u8], start: usize) -> (r: Option<usize>)
        ensures
            match r {
                Some(p) => find_from(haystack@, needle@, start as int) == Some(p as int),
                None => find_from(haystack@, needle@, start as int).is_none(),
            },
    {
        find_bytes(haystack, needle, start)
    }

    /// The file name that a header line quotes.
    pub fn read_quoted_file_name(line: &[u8]) -> (r: Option<Vec<u8>>)
        ensures
            match r {
                Some(f) => quoted_file_name(line@) == Some(f@),
                None => quoted_file_name(line@).is_none(),
            },
    {
        let key = "filename=\"".as_bytes();
        let i = match find_bytes(line, key, 0) {
            Some(i) => i,
            None => {
                return None;
            },
        };
        let a = i + key.len();
        let stop = match find_bytes(line, key, a) {
            Some(j) => j,
            None => line.len(),
        };
        let piece = slice_subrange(line, a, stop);
        match find_byte(piece, 34u8, 0) {
            Some(q) => Some(copy_range(piece, 0, q)),
            None => {
                proof {
                    assert(piece@.subrange(0, piece@.len() as int) =~= piece@);
                }
                Some(copy_range(piece, 0, piece.len()))
            },
        }
    }

    /// The file that one part of a form holds, if its headers name one.
    pub fn parse_multipart_part(part_data: &[u8]) -> (r: Option<UploadedFile>)
        ensures
            match r {
                Some(f) => part_file(part_data@) == Some(f@),
                None => part_file(part_data@).is_none(),
            },
    {
        let data = if at_crlf(part_data, 0) {
            slice_subrange(part_data, 2, part_data.len())
        } else {
            part_data
        };
        let h = match Self::find_header_end(data) {
            Some(h) => h,
            None => {
                return None;
            },
        };
        let head = slice_subrange(data, 0, h);
        let content = slice_subrange(data, h, data.len());
        let n = content.len();
        let actual = if n >= 2 && at_crlf(content, n - 2) {
            slice_subrange(content, 0, n - 2)
        } else {
            content
        };
        if !is_utf8(head) {
            return None;
        }
        let key = "content-disposition:".as_bytes();
        let mut file_name: Vec<u8> = Vec::new();
        let mut pos: usize = 0;
        while pos < head.len()
            invariant
                key@ == "content-disposition:".spec_bytes(),
                file_name_from(head@, 0, Seq::empty()) == file_name_from(
                    head@,
                    pos as int,
                    file_name@,
                ),
            decreases head.len() - pos,
        {
            let (e, next) = line_bounds(head, pos);
            let line = slice_subrange(head, pos, e);
            let low = unicode_lowercase(line);
            if starts_with(low.as_slice(), key) {
                match Self::read_quoted_file_name(line) {
                    Some(f) => {
                        file_name = f;
                    },
                    None => {},
                }
            }
            pos = next;
        }
        if file_name.len() == 0 {
            return None;
        }
        proof {
            assert(actual@ =~= if has_suffix(content@, crlf()) {
                content@.take(content@.len() - 2)
            } else {
                content@
            });
        }
        let data_copy = copy_range(actual, 0, actual.len());
        proof {
            assert(actual@.subrange(0, actual@.len() as int) =~= actual@);
        }
        Some(UploadedFile { file_name, data: data_copy })
    }

    /// The boundary that a content type names.
    pub fn read_boundary(ct: &[u8]) -> (r: Option<Vec<u8>>)
        ensures
            match r {
                Some(b) => boundary_of(ct@) == Some(b@),
                None => boundary_of(ct@).is_none(),
            },
    {
        let key = "boundary=".as_bytes();
        let i = match find_bytes(ct, key, 0) {
            Some(i) => i,
            None => {
                return None;
            },
        };
        let a = i + key.len();
        let b = match find_bytes(ct, key, a) {
            Some(j) => j,
            None => ct.len(),
        };
        Some(trimmed(slice_subrange(ct, a, b)))
    }

    /// The files of a form body, or `None` where the headers announce no form.
    pub fn parse_multipart(headers: &HeaderMap, body: &[u8]) -> (r: Option<MultipartForm>)
        ensures
            match r {
                Some(f) => multipart_of(headers@, body@) == Some(f@),
                None => multipart_of(headers@, body@).is_none(),
            },
    {
        let ct = match headers.get("content-type".as_bytes()) {
            Some(v) => v.as_slice(),
            None => {
                return None;
            },
        };
        if find_bytes(ct, "multipart/form-data".as_bytes(), 0).is_none() {
            return None;
        }
        let boundary = match Self::read_boundary(ct) {
            Some(b) => b,
            None => {
                return None;
            },
        };
        let mut delim: Vec<u8> = Vec::new();
        delim.push(45u8);
        delim.push(45u8);
        append(&mut delim, boundary.as_slice());
        proof {
            assert(delim@ =~= seq![45u8, 45u8] + boundary@);
        }
        let mut files: Vec<UploadedFile> = Vec::new();
        let mut cur: usize = 0;
        let ghost whole = parts_from(body@, delim@, 0, Seq::empty());
        proof {
            assert(files@.map_values(|f: UploadedFile| f@) =~= Seq::empty());
        }
        loop
            invariant
                delim@.len() >= 2,
                multipart_of(headers@, body@) == Some(whole),
                whole == parts_from(body@, delim@, cur as int, files@.map_values(|f: UploadedFile| f@)),
            decreases body@.len() - cur,
        {
            let first = match find_bytes(body, delim.as_slice(), cur) {
                Some(p) => p,
                None => {
                    return Some(MultipartForm { files });
                },
            };
            let start = first + delim.len();
            let e = match find_bytes(body, delim.as_slice(), start) {
                Some(p) => p,
                None => {
                    return Some(MultipartForm { files });
                },
            };
            let ghost before = files@.map_values(|f: UploadedFile| f@);
            match Self::parse_multipart_part(slice_subrange(body, start, e)) {
                Some(file) => {
                    files.push(file);
                    proof {
                        assert(files@.map_values(|f: UploadedFile| f@) =~= before.push(file@));
                    }
                },
                None => {},
            }
            cur = e;
        }
    }
}

} // verus!
