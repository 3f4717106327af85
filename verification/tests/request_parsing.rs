use localhost_rs::headers::HeaderMap;
use localhost_rs::request::{HttpRequest, ParseOutcome};

#[test]
fn parses_a_simple_get() {
    let req = HttpRequest::parse(b"GET /hello.txt HTTP/1.1\r\nHost: x\r\n\r\n").unwrap();
    assert_eq!(req.method, b"GET".to_vec());
    assert_eq!(req.uri, b"/hello.txt".to_vec());
    assert_eq!(req.headers.get(b"host"), Some(&b"x".to_vec()));
    assert!(req.body.is_empty());
}

#[test]
fn header_names_are_lowercased_and_values_trimmed() {
    let req = HttpRequest::parse(b"GET / HTTP/1.1\r\nX-Thing:   a b \t\r\n\r\n").unwrap();
    assert_eq!(req.headers.get(b"x-thing"), Some(&b"a b".to_vec()));
    assert_eq!(req.headers.get(b"X-Thing"), None);
}

#[test]
fn header_names_are_lowercased_beyond_ascii() {
    let req = HttpRequest::parse("GET / HTTP/1.1\r\n\u{c4}-Name: v\r\n\r\n".as_bytes()).unwrap();
    assert_eq!(req.headers.get("\u{e4}-name".as_bytes()), Some(&b"v".to_vec()));
    assert_eq!(req.headers.get("\u{c4}-name".as_bytes()), None);
}

#[test]
fn duplicate_headers_overwrite() {
    let req = HttpRequest::parse(b"GET / HTTP/1.1\r\nA: 1\r\na: 2\r\n\r\n").unwrap();
    assert_eq!(req.headers.get(b"a"), Some(&b"2".to_vec()));
}

#[test]
fn header_line_without_colon_is_skipped() {
    let req = HttpRequest::parse(b"GET / HTTP/1.1\r\nnonsense\r\nA: 1\r\n\r\n").unwrap();
    assert_eq!(req.headers.get(b"a"), Some(&b"1".to_vec()));
    assert_eq!(req.headers.get(b"nonsense"), None);
}

#[test]
fn no_header_terminator_is_incomplete() {
    assert!(HttpRequest::parse(b"GET / HTTP/1.1\r\nHost: x\r\n").is_none());
    assert!(!HttpRequest::is_complete(b"GET / HTTP/1.1\r\nHost: x\r\n"));
}

#[test]
fn missing_uri_is_invalid() {
    assert!(HttpRequest::parse(b"GET\r\n\r\n").is_none());
    assert!(HttpRequest::parse(b"\r\n\r\n").is_none());
    assert!(HttpRequest::parse(b"   \r\n\r\n").is_none());
}

#[test]
fn header_that_is_not_utf8_is_invalid() {
    assert!(HttpRequest::parse(b"GET / HTTP/1.1\r\nA: \xff\r\n\r\n").is_none());
    assert!(HttpRequest::parse(b"GET / HTTP/1.1\r\nA: \xc3\xa9\r\n\r\n").is_some());
}

#[test]
fn content_length_frames_the_body() {
    let raw = b"POST /x HTTP/1.1\r\nContent-Length: 5\r\n\r\nhelloEXTRA";
    let req = HttpRequest::parse(raw).unwrap();
    assert_eq!(req.body, b"hello".to_vec());
    assert!(HttpRequest::parse(b"POST /x HTTP/1.1\r\nContent-Length: 5\r\n\r\nhell").is_none());
    assert!(!HttpRequest::is_complete(b"POST /x HTTP/1.1\r\nContent-Length: 5\r\n\r\nhell"));
    assert!(HttpRequest::is_complete(b"POST /x HTTP/1.1\r\nContent-Length: 5\r\n\r\nhello"));
}

#[test]
fn body_is_empty_without_framing_headers() {
    let req = HttpRequest::parse(b"POST /x HTTP/1.1\r\n\r\nignored").unwrap();
    assert!(req.body.is_empty());
}

#[test]
fn unreadable_content_length_counts_as_zero() {
    let req = HttpRequest::parse(b"POST /x HTTP/1.1\r\nContent-Length: abc\r\n\r\nxyz").unwrap();
    assert!(req.body.is_empty());
    assert_eq!(HttpRequest::get_content_length(b"Content-Length: abc\r\n\r\n"), None);
    assert_eq!(HttpRequest::get_content_length(b"content-length: +12 \r\n\r\n"), Some(12));
    assert_eq!(HttpRequest::get_content_length(b"CONTENT-LENGTH:7\r\n\r\n"), Some(7));
    assert_eq!(HttpRequest::get_content_length(b"Content-Length : 7\r\n\r\n"), None);
}

#[test]
fn find_header_end_gives_offset_behind_blank_line() {
    assert_eq!(HttpRequest::find_header_end(b"ab\r\n\r\ncd"), Some(6));
    assert_eq!(HttpRequest::find_header_end(b"\r\n\r\n"), Some(4));
    assert_eq!(HttpRequest::find_header_end(b"ab\r\n\rcd"), None);
    assert_eq!(HttpRequest::find_header_end(b""), None);
}

#[test]
fn find_bytes_finds_first_occurrence_from_start() {
    assert_eq!(HttpRequest::find_bytes(b"abcabc", b"bc", 0), Some(1));
    assert_eq!(HttpRequest::find_bytes(b"abcabc", b"bc", 2), Some(4));
    assert_eq!(HttpRequest::find_bytes(b"abcabc", b"bc", 5), None);
    assert_eq!(HttpRequest::find_bytes(b"abcabc", b"bc", 7), None);
    assert_eq!(HttpRequest::find_bytes(b"abc", b"abcd", 0), None);
}

#[test]
fn chunked_transfer_is_detected_case_insensitively() {
    let mut h = HeaderMap::new();
    h.insert(b"transfer-encoding".to_vec(), b"gzip, Chunked".to_vec());
    assert!(HttpRequest::is_chunked_transfer(&h));
    let mut h = HeaderMap::new();
    h.insert(b"transfer-encoding".to_vec(), b"gzip".to_vec());
    assert!(!HttpRequest::is_chunked_transfer(&h));
    let mut h = HeaderMap::new();
    h.insert(b"transfer-encoding".to_vec(), b"chunkedx".to_vec());
    assert!(!HttpRequest::is_chunked_transfer(&h));
    assert!(!HttpRequest::is_chunked_transfer(&HeaderMap::new()));
}

#[test]
fn decodes_chunks() {
    let (body, used) = HttpRequest::decode_chunked_body(b"3\r\nfoo\r\n3\r\nbar\r\n0\r\n\r\n").unwrap();
    assert_eq!(body, b"foobar".to_vec());
    assert_eq!(used, 21);
}

#[test]
fn chunk_extension_and_hex_size() {
    let (body, used) =
        HttpRequest::decode_chunked_body(b"A;name=v\r\n0123456789\r\n0\r\n\r\nrest").unwrap();
    assert_eq!(body, b"0123456789".to_vec());
    assert_eq!(used, 27);
    let (body, _) = HttpRequest::decode_chunked_body(b" 1 \r\nx\r\n0\r\n\r\n").unwrap();
    assert_eq!(body, b"x".to_vec());
}

#[test]
fn chunked_trailers_are_consumed() {
    let (body, used) =
        HttpRequest::decode_chunked_body(b"1\r\nx\r\n0\r\nX-T: 1\r\n\r\n").unwrap();
    assert_eq!(body, b"x".to_vec());
    assert_eq!(used, 19);
}

#[test]
fn broken_chunks_are_invalid() {
    assert!(HttpRequest::decode_chunked_body(b"zz\r\nfoo\r\n0\r\n\r\n").is_none());
    assert!(HttpRequest::decode_chunked_body(b"3\r\nfooXX0\r\n\r\n").is_none());
    assert!(HttpRequest::decode_chunked_body(b"3\r\nfo").is_none());
    assert!(HttpRequest::decode_chunked_body(b"3").is_none());
    assert!(HttpRequest::decode_chunked_body(b"0\r\n").is_none());
    assert!(HttpRequest::decode_chunked_body(b"").is_none());
    assert!(HttpRequest::decode_chunked_body(b"\r\n\r\n").is_none());
}

#[test]
fn chunked_request_round_trip() {
    let raw = b"POST /cgi/echo.sh HTTP/1.1\r\nTransfer-Encoding: chunked\r\n\r\n3\r\nfoo\r\n3\r\nbar\r\n0\r\n\r\n";
    assert!(HttpRequest::is_complete(raw));
    let req = HttpRequest::parse(raw).unwrap();
    assert_eq!(req.body, b"foobar".to_vec());
}

#[test]
fn delivery_in_pieces_gives_the_same_request() {
    let raw: &[u8] = b"POST /p HTTP/1.1\r\nContent-Length: 4\r\nHost: h\r\n\r\nabcd";
    let whole = HttpRequest::parse(raw).unwrap();
    for cut in 0..raw.len() {
        let mut buf: Vec<u8> = Vec::new();
        buf.extend_from_slice(&raw[..cut]);
        assert!(!HttpRequest::is_complete(&buf), "complete too early at {}", cut);
        buf.extend_from_slice(&raw[cut..]);
        assert!(HttpRequest::is_complete(&buf));
        let again = HttpRequest::parse(&buf).unwrap();
        assert_eq!(again.method, whole.method);
        assert_eq!(again.uri, whole.uri);
        assert_eq!(again.body, whole.body);
        assert_eq!(again.headers.get(b"host"), whole.headers.get(b"host"));
    }
}

#[test]
fn chunked_request_is_complete_only_at_its_last_byte() {
    let raw: &[u8] = b"POST /p HTTP/1.1\r\nTransfer-Encoding: chunked\r\n\r\n2\r\nhi\r\n0\r\nT: v\r\n\r\n";
    for cut in 0..raw.len() {
        assert!(!HttpRequest::is_complete(&raw[..cut]), "complete too early at {}", cut);
    }
    assert!(HttpRequest::is_complete(raw));
}

#[test]
fn single_chunk_encoding_decodes_to_the_same_bytes() {
    let (decoded, _) = HttpRequest::decode_chunked_body(b"3\r\nfoo\r\n3\r\nbar\r\n0\r\n\r\n").unwrap();
    let mut again: Vec<u8> = Vec::new();
    again.extend_from_slice(format!("{:x}\r\n", decoded.len()).as_bytes());
    again.extend_from_slice(&decoded);
    again.extend_from_slice(b"\r\n0\r\n\r\n");
    let (second, used) = HttpRequest::decode_chunked_body(&again).unwrap();
    assert_eq!(second, decoded);
    assert_eq!(used, again.len());
    let (empty, used) = HttpRequest::decode_chunked_body(b"0\r\n\r\n").unwrap();
    assert!(empty.is_empty());
    assert_eq!(used, 5);
}

#[test]
fn multipart_with_one_file() {
    let mut h = HeaderMap::new();
    h.insert(b"content-type".to_vec(), b"multipart/form-data; boundary=XX".to_vec());
    let body = b"--XX\r\nContent-Disposition: form-data; name=\"f\"; filename=\"a.txt\"\r\nContent-Type: text/plain\r\n\r\nXYZ\r\n--XX--\r\n";
    let form = HttpRequest::parse_multipart(&h, body).unwrap();
    assert_eq!(form.files.len(), 1);
    assert_eq!(form.files[0].file_name, b"a.txt".to_vec());
    assert_eq!(form.files[0].data, b"XYZ".to_vec());
}

#[test]
fn multipart_skips_parts_without_file_name() {
    let mut h = HeaderMap::new();
    h.insert(b"content-type".to_vec(), b"multipart/form-data; boundary=b".to_vec());
    let body = b"--b\r\nContent-Disposition: form-data; name=\"x\"\r\n\r\nv\r\n--b\r\nContent-Disposition: form-data; filename=\"two.bin\"\r\n\r\n\x00\x01\r\n--b--";
    let form = HttpRequest::parse_multipart(&h, body).unwrap();
    assert_eq!(form.files.len(), 1);
    assert_eq!(form.files[0].file_name, b"two.bin".to_vec());
    assert_eq!(form.files[0].data, vec![0u8, 1u8]);
}

#[test]
fn multipart_needs_content_type_and_boundary() {
    let body = b"--b\r\n\r\n--b--";
    assert!(HttpRequest::parse_multipart(&HeaderMap::new(), body).is_none());
    let mut h = HeaderMap::new();
    h.insert(b"content-type".to_vec(), b"text/plain; boundary=b".to_vec());
    assert!(HttpRequest::parse_multipart(&h, body).is_none());
    let mut h = HeaderMap::new();
    h.insert(b"content-type".to_vec(), b"multipart/form-data".to_vec());
    assert!(HttpRequest::parse_multipart(&h, body).is_none());
    let mut h = HeaderMap::new();
    h.insert(b"content-type".to_vec(), b"multipart/form-data; boundary=b".to_vec());
    assert_eq!(HttpRequest::parse_multipart(&h, b"no parts here").unwrap().files.len(), 0);
}

#[test]
fn multipart_part_keeps_file_name_verbatim() {
    let part = b"\r\nContent-Disposition: form-data; filename=\"../../etc/x y.txt\"\r\n\r\ndata";
    let file = HttpRequest::parse_multipart_part(part).unwrap();
    assert_eq!(file.file_name, b"../../etc/x y.txt".to_vec());
    assert_eq!(file.data, b"data".to_vec());
    assert!(HttpRequest::parse_multipart_part(b"no header end").is_none());
    assert!(HttpRequest::parse_multipart_part(b"Content-Disposition: form-data; filename=\"\"\r\n\r\nd").is_none());
}

#[test]
fn headers_map_of_a_block() {
    let m = HttpRequest::parse_headers_map(b"GET / HTTP/1.1\r\nA: 1\r\nB:2\r\n\r\n").unwrap();
    assert_eq!(m.get(b"a"), Some(&b"1".to_vec()));
    assert_eq!(m.get(b"b"), Some(&b"2".to_vec()));
    assert!(HttpRequest::parse_headers_map(b"GET / HTTP/1.1\r\nA: \xff\r\n\r\n").is_none());
}

#[test]
fn length_lines() {
    assert_eq!(HttpRequest::read_length_line(b"content-length: 42"), Some(Some(42)));
    assert_eq!(HttpRequest::read_length_line(b"content-length:x"), Some(None));
    assert_eq!(HttpRequest::read_length_line(b"content-length"), None);
    assert_eq!(HttpRequest::read_length_line(b"Content-Length: 1"), None);
}

#[test]
fn outcomes_of_reading() {
    assert!(matches!(HttpRequest::parse_outcome(b""), ParseOutcome::Incomplete));
    assert!(matches!(HttpRequest::parse_outcome(b"GET / HTTP/1.1\r\n"), ParseOutcome::Incomplete));
    assert!(matches!(
        HttpRequest::parse_outcome(b"POST / HTTP/1.1\r\nContent-Length: 3\r\n\r\nab"),
        ParseOutcome::Incomplete
    ));
    assert!(matches!(HttpRequest::parse_outcome(b"GET\r\n\r\n"), ParseOutcome::Invalid));
    assert!(matches!(HttpRequest::parse_outcome(b"G / \xff\r\n\r\n"), ParseOutcome::Invalid));
    assert!(matches!(
        HttpRequest::parse_outcome(b"POST / HTTP/1.1\r\nTransfer-Encoding: chunked\r\n\r\nzz\r\n"),
        ParseOutcome::Invalid
    ));
    assert!(matches!(
        HttpRequest::parse_outcome(b"POST / HTTP/1.1\r\nTransfer-Encoding: chunked\r\n\r\n3\r\nab"),
        ParseOutcome::Invalid
    ));
    match HttpRequest::parse_outcome(b"POST /p HTTP/1.1\r\nContent-Length: 3\r\n\r\nabc") {
        ParseOutcome::Parsed(req) => {
            assert_eq!(req.uri, b"/p".to_vec());
            assert_eq!(req.body, b"abc".to_vec());
        }
        _ => panic!("expected a request"),
    }
}
