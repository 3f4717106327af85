use vstd::prelude::*;
use vstd::utf8::valid_utf8;
use crate::bytes::{
    crlf, crlf2, find_from, is_first_at, lemma_find_none, lemma_find_some, occurs_at, space_back,
    space_front, trim,
};
use crate::connection::{verdict, ReadStep};
use crate::number::{digit_value, hex_digits, lemma_hex_digits, lemma_parse_hex_digits};
use crate::request::{
    chunk_size, chunks_from, complete, content_length, decode_chunked, header_end, header_fields,
    is_chunked, parsed, size_field,
};

verus! {

/// Bytes below 128 are well-formed UTF-8.
pub proof fn lemma_ascii_is_utf8(s: Seq<u8>)
    requires
        forall|i: int| 0 <= i < s.len() ==> s[i] < 128,
    ensures
        valid_utf8(s),
    decreases s.len(),
{
    if s.len() > 0 {
        let b = s[0];
        assert(((b & 0x7F) as u32) < 0xD800u32) by (bit_vector);
        let rest = s.subrange(1, s.len() as int);
        assert forall|i: int| 0 <= i < rest.len() implies rest[i] < 128 by {
            assert(rest[i] == s[i + 1]);
        }
        lemma_ascii_is_utf8(rest);
    }
}

/// An occurrence found in the first `k` bytes of a buffer is the one found in
/// the whole buffer, and it ends within those bytes.
pub proof fn lemma_find_in_prefix(b: Seq<u8>, k: int, needle: Seq<u8>, pos: int)
    requires
        0 <= k <= b.len(),
        find_from(b.take(k), needle, pos).is_some(),
    ensures
        find_from(b, needle, pos) == find_from(b.take(k), needle, pos),
        find_from(b, needle, pos).unwrap() + needle.len() <= k,
        pos <= find_from(b, needle, pos).unwrap(),
{
    let p = b.take(k);
    let e = find_from(p, needle, pos).unwrap();
    assert(is_first_at(p, needle, pos, e));
    assert(p.subrange(e, e + needle.len()) =~= b.subrange(e, e + needle.len()));
    assert forall|j: int| pos <= j < e implies !occurs_at(b, needle, j) by {
        if 0 <= j {
            assert(p.subrange(j, j + needle.len()) =~= b.subrange(j, j + needle.len()));
            assert(!occurs_at(p, needle, j));
        }
    }
    lemma_find_some(b, needle, pos, e);
}

/// Within the first `k` bytes, an occurrence in the buffer is one in its prefix.
pub proof fn lemma_occurs_in_prefix(b: Seq<u8>, k: int, needle: Seq<u8>, i: int)
    requires
        0 <= k <= b.len(),
        0 <= i,
        i + needle.len() <= k,
    ensures
        occurs_at(b.take(k), needle, i) == occurs_at(b, needle, i),
{
    assert(b.take(k).subrange(i, i + needle.len()) =~= b.subrange(i, i + needle.len()));
}

/// Chunks that decode from the first `k` bytes of a body decode the same from
/// the whole body, and use none of the bytes behind `k`.
pub proof fn lemma_chunks_in_prefix(b: Seq<u8>, k: int, pos: int, acc: Seq<u8>)
    requires
        0 <= k <= b.len(),
        chunks_from(b.take(k), pos, acc).is_some(),
    ensures
        chunks_from(b, pos, acc) == chunks_from(b.take(k), pos, acc),
        chunks_from(b, pos, acc).unwrap().1 <= k,
    decreases k - pos,
{
    let p = b.take(k);
    lemma_find_in_prefix(b, k, crlf(), pos);
    let e = find_from(p, crlf(), pos).unwrap();
    assert(p.subrange(pos, e) =~= b.subrange(pos, e));
    let n = chunk_size(p.subrange(pos, e)).unwrap();
    let q = e + 2;
    if n == 0 {
        if occurs_at(p, crlf(), q) {
            lemma_occurs_in_prefix(b, k, crlf(), q);
        } else {
            lemma_find_in_prefix(b, k, crlf2(), q);
            lemma_occurs_in_prefix(b, k, crlf(), q);
        }
    } else {
        lemma_occurs_in_prefix(b, k, crlf(), q + n);
        assert(p.subrange(q, q + n) =~= b.subrange(q, q + n));
        lemma_chunks_in_prefix(b, k, q + n + 2, acc + p.subrange(q, q + n));
    }
}

/// Whether a buffer holds one whole request and nothing behind it.
pub open spec fn exact_request(r: Seq<u8>) -> bool {
    match header_end(r) {
        None => false,
        Some(h) => {
            let head = r.take(h);
            let rest = r.skip(h);
            if valid_utf8(head) && is_chunked(header_fields(head)) {
                match decode_chunked(rest) {
                    Some(d) => d.1 == rest.len(),
                    None => false,
                }
            } else {
                rest.len() == match content_length(head) {
                    Some(n) => n,
                    None => 0,
                }
            }
        },
    }
}

/// A request is seen to be complete exactly when its last byte has come: of
/// the prefixes of a buffer that holds one whole request and nothing more,
/// only the buffer itself is complete.
pub proof fn lemma_complete_at_last_byte(r: Seq<u8>, k: int)
    requires
        exact_request(r),
        0 <= k <= r.len(),
    ensures
        complete(r.take(k)) == (k == r.len()),
{
    let h = header_end(r).unwrap();
    let p = r.take(k);
    if k == r.len() {
        assert(p =~= r);
    } else if header_end(p).is_some() {
        lemma_find_in_prefix(r, k, crlf2(), 0);
        assert(header_end(p) == Some(h));
        assert(p.take(h) =~= r.take(h));
        let rest = r.skip(h);
        assert(p.skip(h) =~= rest.take(k - h));
        let head = r.take(h);
        if valid_utf8(head) && is_chunked(header_fields(head)) {
            if decode_chunked(rest.take(k - h)).is_some() {
                lemma_chunks_in_prefix(rest, k - h, 0, Seq::empty());
            }
        }
    }
}

/// What a buffer holds after the pieces have come in, one after the other.
pub open spec fn delivered(pieces: Seq<Seq<u8>>) -> Seq<u8>
    decreases pieces.len(),
{
    if pieces.len() == 0 {
        Seq::empty()
    } else {
        delivered(pieces.drop_last()) + pieces.last()
    }
}

/// However a request is cut into pieces, the buffer that the pieces fill reads
/// as the request does in one piece.
pub proof fn lemma_parse_in_pieces(request: Seq<u8>, pieces: Seq<Seq<u8>>)
    requires
        delivered(pieces) == request,
    ensures
        parsed(delivered(pieces)) == parsed(request),
        complete(delivered(pieces)) == complete(request),
        delivered(seq![request]) == request,
{
    let one = seq![request];
    assert(one.drop_last() =~= Seq::<Seq<u8>>::empty());
    assert(delivered(one.drop_last()) =~= Seq::<u8>::empty());
    assert(one.last() == request);
    assert(delivered(one) =~= request);
}

/// What has come in after the first `j` pieces is the beginning of what has
/// come in after all of them.
pub proof fn lemma_delivered_prefix(pieces: Seq<Seq<u8>>, j: int)
    requires
        0 <= j <= pieces.len(),
    ensures
        delivered(pieces.take(j)).len() <= delivered(pieces).len(),
        delivered(pieces.take(j)) == delivered(pieces).take(delivered(pieces.take(j)).len() as int),
    decreases pieces.len(),
{
    if j == pieces.len() {
        assert(pieces.take(j) =~= pieces);
        assert(delivered(pieces).take(delivered(pieces).len() as int) =~= delivered(pieces));
    } else {
        assert(pieces.drop_last().take(j) =~= pieces.take(j));
        lemma_delivered_prefix(pieces.drop_last(), j);
        let part = delivered(pieces.take(j));
        assert(part =~= delivered(pieces).take(part.len() as int));
    }
}

/// A request that comes in pieces is seen to be complete exactly once its last
/// byte has come, however it is cut.
pub proof fn lemma_complete_after_last_piece(request: Seq<u8>, pieces: Seq<Seq<u8>>, j: int)
    requires
        exact_request(request),
        delivered(pieces) == request,
        0 <= j <= pieces.len(),
    ensures
        complete(delivered(pieces.take(j))) == (delivered(pieces.take(j)).len() == request.len()),
{
    lemma_delivered_prefix(pieces, j);
    lemma_complete_at_last_byte(request, delivered(pieces.take(j)).len() as int);
}

/// The bytes that end a chunked body: a chunk of size zero and an empty line.
pub open spec fn last_chunk() -> Seq<u8> {
    seq![48u8, 13u8, 10u8, 13u8, 10u8]
}

/// The chunked coding of `data` as a single chunk.
pub open spec fn single_chunk(data: Seq<u8>) -> Seq<u8> {
    if data.len() == 0 {
        last_chunk()
    } else {
        hex_digits(data.len()) + crlf() + data + crlf() + last_chunk()
    }
}

/// A size line that holds hexadecimal digits only gives the number they denote.
pub proof fn lemma_size_of_hex_line(n: nat)
    requires
        n <= usize::MAX,
    ensures
        chunk_size(hex_digits(n)) == Some(n),
{
    let line = hex_digits(n);
    lemma_hex_digits(n);
    assert forall|i: int| 0 <= i < line.len() implies line[i] < 128 && line[i] != 59 && line[i]
        != 13 by {
        assert(digit_value(line[i], 16).is_some());
    }
    lemma_ascii_is_utf8(line);
    assert forall|j: int| 0 <= j implies !occurs_at(line, seq![59u8], j) by {
        if j + 1 <= line.len() {
            assert(line.subrange(j, j + 1)[0] == line[j]);
        }
    }
    lemma_find_none(line, seq![59u8], 0);
    assert(size_field(line) == line);
    assert(digit_value(line[0], 16).is_some());
    assert(digit_value(line[line.len() - 1], 16).is_some());
    assert(space_front(line) == 0);
    assert(space_back(line) == 0);
    assert(trim(line) == line);
    lemma_parse_hex_digits(n, usize::MAX as nat);
}

/// A line of digits that stands in front of a line break is found as a line.
proof fn lemma_line_break_after_digits(body: Seq<u8>, pos: int, len: int)
    requires
        0 <= pos,
        0 <= len,
        pos + len + 2 <= body.len(),
        forall|i: int| pos <= i < pos + len ==> body[i] != 13,
        body[pos + len] == 13,
        body[pos + len + 1] == 10,
    ensures
        find_from(body, crlf(), pos) == Some(pos + len),
{
    assert(body.subrange(pos + len, pos + len + 2) =~= crlf());
    assert forall|j: int| pos <= j < pos + len implies !occurs_at(body, crlf(), j) by {
        if j + 2 <= body.len() {
            assert(body.subrange(j, j + 2)[0] == body[j]);
        }
    }
    lemma_find_some(body, crlf(), pos, pos + len);
}

/// The last chunk at the end of a body ends the decoding there.
proof fn lemma_last_chunk_decodes(body: Seq<u8>, pos: int, acc: Seq<u8>)
    requires
        0 <= pos,
        pos + 5 == body.len(),
        body.subrange(pos, pos + 5) == last_chunk(),
    ensures
        chunks_from(body, pos, acc) == Some((acc, body.len() as int)),
{
    let z = body.subrange(pos, pos + 5);
    assert(z[0] == 48 && z[1] == 13 && z[2] == 10 && z[3] == 13 && z[4] == 10);
    assert(body[pos] == z[0] && body[pos + 1] == z[1] && body[pos + 2] == z[2] && body[pos + 3]
        == z[3] && body[pos + 4] == z[4]);
    lemma_line_break_after_digits(body, pos, 1);
    assert(body.subrange(pos, pos + 1) =~= hex_digits(0));
    lemma_size_of_hex_line(0);
    assert(body.subrange(pos + 3, pos + 5) =~= crlf());
}

/// A body made of one chunk and the last chunk decodes to the chunk's bytes.
proof fn lemma_one_chunk_decodes(body: Seq<u8>, data: Seq<u8>)
    requires
        0 < data.len() <= usize::MAX,
        body.len() == hex_digits(data.len()).len() + data.len() + 9,
        body.subrange(0, hex_digits(data.len()).len() as int) == hex_digits(data.len()),
        occurs_at(body, crlf(), hex_digits(data.len()).len() as int),
        body.subrange(
            (hex_digits(data.len()).len() + 2) as int,
            (hex_digits(data.len()).len() + 2 + data.len()) as int,
        ) == data,
        occurs_at(body, crlf(), (hex_digits(data.len()).len() + 2 + data.len()) as int),
        body.subrange(body.len() - 5, body.len() as int) == last_chunk(),
    ensures
        decode_chunked(body) == Some((data, body.len() as int)),
{
    let n = data.len();
    let line = hex_digits(n);
    let w = line.len() as int;
    lemma_hex_digits(n);
    lemma_size_of_hex_line(n);
    assert forall|i: int| 0 <= i < w implies body[i] != 13 by {
        assert(body.subrange(0, w)[i] == body[i]);
        assert(digit_value(line[i], 16).is_some());
    }
    assert(body.subrange(w, w + 2)[0] == body[w]);
    assert(body.subrange(w, w + 2)[1] == body[w + 1]);
    lemma_line_break_after_digits(body, 0, w);
    let end = w + 2 + n + 2;
    assert(Seq::<u8>::empty() + data =~= data);
    lemma_last_chunk_decodes(body, end, data);
    assert(chunks_from(body, end, Seq::<u8>::empty() + data) == Some((data, body.len() as int)));
}

/// Decoded bytes, coded again as a single chunk, decode to the same bytes,
/// and the decoding uses the whole coding.
pub proof fn lemma_single_chunk_decodes(data: Seq<u8>)
    requires
        data.len() <= usize::MAX,
    ensures
        decode_chunked(single_chunk(data)) == Some((data, single_chunk(data).len() as int)),
{
    let body = single_chunk(data);
    if data.len() == 0 {
        assert(body.subrange(0, 5) =~= last_chunk());
        lemma_last_chunk_decodes(body, 0, Seq::empty());
        assert(data =~= Seq::<u8>::empty());
    } else {
        let n = data.len();
        let line = hex_digits(n);
        let w = line.len() as int;
        let a = line + crlf();
        let b = a + data;
        let c = b + crlf();
        assert(body == c + last_chunk());
        assert(body.len() == w + n + 9);
        assert(body.subrange(0, w) =~= line);
        assert(body.subrange(w, w + 2) =~= crlf());
        assert(body.subrange(w + 2, w + 2 + n) =~= data);
        assert(body.subrange(w + 2 + n, w + 2 + n + 2) =~= crlf());
        assert(body.subrange(body.len() - 5, body.len() as int) =~= last_chunk());
        lemma_one_chunk_decodes(body, data);
    }
}

/// Decoding never yields more bytes than it uses, and uses none beyond the body.
pub proof fn lemma_decoded_within_used(body: Seq<u8>, pos: int, acc: Seq<u8>)
    requires
        chunks_from(body, pos, acc).is_some(),
    ensures
        pos <= chunks_from(body, pos, acc).unwrap().1 <= body.len(),
        chunks_from(body, pos, acc).unwrap().0.len() - acc.len() <= chunks_from(
            body,
            pos,
            acc,
        ).unwrap().1 - pos,
    decreases body.len() - pos,
{
    let e = find_from(body, crlf(), pos).unwrap();
    assert(is_first_at(body, crlf(), pos, e));
    let n = chunk_size(body.subrange(pos, e)).unwrap();
    let q = e + 2;
    if n == 0 {
        if !occurs_at(body, crlf(), q) {
            let t = find_from(body, crlf2(), q).unwrap();
            assert(is_first_at(body, crlf2(), q, t));
        }
    } else {
        lemma_decoded_within_used(body, q + n + 2, acc + body.subrange(q, q + n));
    }
}

/// The body of a request that is handed on for processing is within the body
/// limit, chunked or not.
pub proof fn lemma_processed_body_within_limit(buf: Seq<u8>, limit: int)
    requires
        verdict(buf, limit) == ReadStep::Process,
        parsed(buf).is_some(),
    ensures
        parsed(buf).unwrap().body.len() <= limit,
{
    let h = header_end(buf).unwrap();
    assert(is_first_at(buf, crlf2(), 0, h - 4));
    let head = buf.take(h);
    let rest = buf.skip(h);
    if is_chunked(header_fields(head)) {
        lemma_decoded_within_used(rest, 0, Seq::empty());
    }
}

} // verus!
