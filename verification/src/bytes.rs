use vstd::prelude::*;

verus! {

/// Whether `needle` occurs in `hay` at offset `i`.
pub open spec fn occurs_at(hay: Seq<u8>, needle: Seq<u8>, i: int) -> bool {
    0 <= i && i + needle.len() <= hay.len() && hay.subrange(i, i + needle.len()) == needle
}

/// Whether `r` is the first offset at or after `start` where `needle` occurs in `hay`.
pub open spec fn is_first_at(hay: Seq<u8>, needle: Seq<u8>, start: int, r: int) -> bool {
    &&& start <= r
    &&& occurs_at(hay, needle, r)
    &&& forall|j: int| start <= j < r ==> !occurs_at(hay, needle, j)
}

/// The first offset at or after `start` where `needle` occurs in `hay`, if any.
pub open spec fn find_from(hay: Seq<u8>, needle: Seq<u8>, start: int) -> Option<int> {
    if exists|r: int| is_first_at(hay, needle, start, r) {
        Some(choose|r: int| is_first_at(hay, needle, start, r))
    } else {
        None
    }
}

/// Two first occurrences coincide.
pub proof fn lemma_first_unique(hay: Seq<u8>, needle: Seq<u8>, start: int, a: int, b: int)
    requires
        is_first_at(hay, needle, start, a),
        is_first_at(hay, needle, start, b),
    ensures
        a == b,
{
}

/// A witnessed first occurrence is what `find_from` returns.
pub proof fn lemma_find_some(hay: Seq<u8>, needle: Seq<u8>, start: int, r: int)
    requires
        is_first_at(hay, needle, start, r),
    ensures
        find_from(hay, needle, start) == Some(r),
{
    let c = choose|c: int| is_first_at(hay, needle, start, c);
    lemma_first_unique(hay, needle, start, r, c);
}

/// Without any occurrence at or after `start`, `find_from` returns nothing.
pub proof fn lemma_find_none(hay: Seq<u8>, needle: Seq<u8>, start: int)
    requires
        forall|j: int| start <= j ==> !occurs_at(hay, needle, j),
    ensures
        find_from(hay, needle, start).is_none(),
{
}

/// Whether the bytes of `hay` at offset `i` are those of `needle`.
pub fn matches_at(hay: &[u8], needle: &[u8], i: usize) -> (r: bool)
    ensures
        r == occurs_at(hay@, needle@, i as int),
{
    if needle.len() > hay.len() || i > hay.len() - needle.len() {
        return false;
    }
    let mut k: usize = 0;
    while k < needle.len()
        invariant
            k <= needle.len(),
            i + needle.len() <= hay.len(),
            forall|j: int| 0 <= j < k ==> hay@[i + j] == needle@[j],
        decreases needle.len() - k,
    {
        if hay[i + k] != needle[k] {
            proof {
                assert(hay@.subrange(i as int, i + needle.len())[k as int] == hay@[i + k]);
            }
            return false;
        }
        k += 1;
    }
    proof {
        assert(hay@.subrange(i as int, i + needle.len()) =~= needle@);
    }
    true
}

/// The first offset at or after `start` at which `needle` occurs in `haystack`.
pub fn find_bytes(haystack: &[u8], needle: &[u8], start: usize) -> (r: Option<usize>)
    ensures
        match r {
            Some(p) => find_from(haystack@, needle@, start as int) == Some(p as int) && start <= p
                && p + needle@.len() <= haystack@.len(),
            None => find_from(haystack@, needle@, start as int).is_none(),
        },
        haystack@.len() <= usize::MAX,
{
    let mut i: usize = start;
    while i <= haystack.len()
        invariant
            start <= i,
            forall|j: int| start <= j < i ==> !occurs_at(haystack@, needle@, j),
        decreases haystack.len() + 1 - i,
    {
        if matches_at(haystack, needle, i) {
            proof {
                lemma_find_some(haystack@, needle@, start as int, i as int);
            }
            return Some(i);
        }
        if i == haystack.len() {
            proof {
                lemma_find_none(haystack@, needle@, start as int);
            }
            return None;
        }
        i += 1;
    }
    proof {
        lemma_find_none(haystack@, needle@, start as int);
    }
    None
}


/// The two bytes of a line break.
pub open spec fn crlf() -> Seq<u8> {
    seq![13u8, 10u8]
}

/// The four bytes that end a header block.
pub open spec fn crlf2() -> Seq<u8> {
    seq![13u8, 10u8, 13u8, 10u8]
}

/// Whether `s` begins with `p`.
pub open spec fn has_prefix(s: Seq<u8>, p: Seq<u8>) -> bool {
    occurs_at(s, p, 0)
}

/// Whether `s` ends with `p`.
pub open spec fn has_suffix(s: Seq<u8>, p: Seq<u8>) -> bool {
    occurs_at(s, p, s.len() - p.len())
}

/// Whether `s` begins with `p`.
pub fn starts_with(s: &[u8], p: &[u8]) -> (r: bool)
    ensures
        r == has_prefix(s@, p@),
{
    matches_at(s, p, 0)
}

/// Whether `s` ends with `p`.
pub fn ends_with(s: &[u8], p: &[u8]) -> (r: bool)
    ensures
        r == has_suffix(s@, p@),
{
    if p.len() > s.len() {
        return false;
    }
    matches_at(s, p, s.len() - p.len())
}

/// The bytes of `s` from `lo` up to `hi`, as a new vector.
pub fn copy_range(s: &[u8], lo: usize, hi: usize) -> (r: Vec<u8>)
    requires
        lo <= hi <= s@.len(),
    ensures
        r@ == s@.subrange(lo as int, hi as int),
{
    let mut out: Vec<u8> = Vec::new();
    let mut i: usize = lo;
    while i < hi
        invariant
            lo <= i <= hi <= s@.len(),
            out@ == s@.subrange(lo as int, i as int),
        decreases hi - i,
    {
        out.push(s[i]);
        proof {
            assert(out@ =~= s@.subrange(lo as int, i + 1));
        }
        i += 1;
    }
    out
}

/// Appends the bytes of `s` to `out`.
pub fn append(out: &mut Vec<u8>, s: &[u8])
    ensures
        final(out)@ == old(out)@ + s@,
{
    let mut i: usize = 0;
    while i < s.len()
        invariant
            i <= s@.len(),
            out@ == old(out)@ + s@.subrange(0, i as int),
        decreases s.len() - i,
    {
        out.push(s[i]);
        proof {
            assert(out@ =~= old(out)@ + s@.subrange(0, i + 1));
        }
        i += 1;
    }
    proof {
        assert(s@.subrange(0, s@.len() as int) =~= s@);
    }
}

/// Whether two byte strings are the same.
pub fn same_bytes(a: &[u8], b: &[u8]) -> (r: bool)
    ensures
        r == (a@ == b@),
{
    if a.len() != b.len() {
        return false;
    }
    let r = matches_at(a, b, 0);
    proof {
        assert(a@.subrange(0, a@.len() as int) =~= a@);
    }
    r
}

/// The lower-case form of an ASCII letter; any other byte unchanged.
pub open spec fn lower(b: u8) -> u8 {
    if 65 <= b <= 90 {
        (b + 32) as u8
    } else {
        b
    }
}

/// `s` with every ASCII capital replaced by its small letter.
pub open spec fn to_lower(s: Seq<u8>) -> Seq<u8> {
    Seq::new(s.len(), |i: int| lower(s[i]))
}

/// The lower-case form of an ASCII letter; any other byte unchanged.
pub fn lower_byte(b: u8) -> (r: u8)
    ensures
        r == lower(b),
{
    if 65 <= b && b <= 90 {
        b + 32
    } else {
        b
    }
}

/// A copy of `s` with every ASCII capital replaced by its small letter.
pub fn lowercase(s: &[u8]) -> (r: Vec<u8>)
    ensures
        r@ == to_lower(s@),
{
    let mut out: Vec<u8> = Vec::new();
    let mut i: usize = 0;
    while i < s.len()
        invariant
            i <= s@.len(),
            out@ == to_lower(s@.subrange(0, i as int)),
        decreases s.len() - i,
    {
        out.push(lower_byte(s[i]));
        proof {
            assert(out@ =~= to_lower(s@.subrange(0, i + 1)));
        }
        i += 1;
    }
    proof {
        assert(s@.subrange(0, s@.len() as int) =~= s@);
    }
    out
}

/// Equality of two byte strings up to the case of ASCII letters.
pub open spec fn same_ignoring_case(a: Seq<u8>, b: Seq<u8>) -> bool {
    to_lower(a) == to_lower(b)
}

/// Whether two byte strings are the same up to the case of ASCII letters.
pub fn eq_ignore_case(a: &[u8], b: &[u8]) -> (r: bool)
    ensures
        r == same_ignoring_case(a@, b@),
{
    let la = lowercase(a);
    let lb = lowercase(b);
    same_bytes(la.as_slice(), lb.as_slice())
}

/// Whether three bytes encode one of the white-space characters beyond U+00FF.
pub open spec fn is_space3(a: u8, b: u8, c: u8) -> bool {
    ||| (a == 0xE1 && b == 0x9A && c == 0x80)
    ||| (a == 0xE2 && b == 0x80 && (0x80 <= c <= 0x8A || c == 0xA8 || c == 0xA9 || c == 0xAF))
    ||| (a == 0xE2 && b == 0x81 && c == 0x9F)
    ||| (a == 0xE3 && b == 0x80 && c == 0x80)
}

/// Whether a byte is an ASCII white-space character.
pub open spec fn is_space1(a: u8) -> bool {
    9 <= a <= 13 || a == 32
}

/// Whether two bytes encode U+0085 or U+00A0.
pub open spec fn is_space2(a: u8, b: u8) -> bool {
    a == 0xC2 && (b == 0x85 || b == 0xA0)
}

/// The length in bytes of the white-space character that `s` begins with, or 0.
pub open spec fn space_front(s: Seq<u8>) -> int {
    if s.len() >= 1 && is_space1(s[0]) {
        1
    } else if s.len() >= 2 && is_space2(s[0], s[1]) {
        2
    } else if s.len() >= 3 && is_space3(s[0], s[1], s[2]) {
        3
    } else {
        0
    }
}

/// The length in bytes of the white-space character that `s` ends with, or 0.
pub open spec fn space_back(s: Seq<u8>) -> int {
    let n = s.len() as int;
    if n >= 1 && is_space1(s[n - 1]) {
        1
    } else if n >= 2 && is_space2(s[n - 2], s[n - 1]) {
        2
    } else if n >= 3 && is_space3(s[n - 3], s[n - 2], s[n - 1]) {
        3
    } else {
        0
    }
}

/// `s` without the white space it begins with.
pub open spec fn trim_start(s: Seq<u8>) -> Seq<u8>
    decreases s.len(),
{
    let k = space_front(s);
    if k > 0 {
        trim_start(s.skip(k))
    } else {
        s
    }
}

/// `s` without the white space it ends with.
pub open spec fn trim_end(s: Seq<u8>) -> Seq<u8>
    decreases s.len(),
{
    let k = space_back(s);
    if k > 0 {
        trim_end(s.take(s.len() - k))
    } else {
        s
    }
}

/// `s` without white space at either end.
pub open spec fn trim(s: Seq<u8>) -> Seq<u8> {
    trim_end(trim_start(s))
}

/// The length in bytes of the white-space character that `s[i..hi]` begins with, or 0.
pub fn space_at(s: &[u8], i: usize, hi: usize) -> (k: usize)
    requires
        i <= hi <= s@.len(),
    ensures
        k == space_front(s@.subrange(i as int, hi as int)),
        i + k <= hi,
{
    let n = hi - i;
    if n >= 1 && ((9 <= s[i] && s[i] <= 13) || s[i] == 32) {
        1
    } else if n >= 2 && s[i] == 0xC2 && (s[i + 1] == 0x85 || s[i + 1] == 0xA0) {
        2
    } else if n >= 3 && space3(s[i], s[i + 1], s[i + 2]) {
        3
    } else {
        0
    }
}

/// Whether three bytes encode one of the white-space characters beyond U+00FF.
fn space3(a: u8, b: u8, c: u8) -> (r: bool)
    ensures
        r == is_space3(a, b, c),
{
    (a == 0xE1 && b == 0x9A && c == 0x80) || (a == 0xE2 && b == 0x80 && ((0x80 <= c && c <= 0x8A)
        || c == 0xA8 || c == 0xA9 || c == 0xAF)) || (a == 0xE2 && b == 0x81 && c == 0x9F) || (a
        == 0xE3 && b == 0x80 && c == 0x80)
}

/// The length in bytes of the white-space character that `s[lo..i]` ends with, or 0.
fn space_before(s: &[u8], lo: usize, i: usize) -> (k: usize)
    requires
        lo <= i <= s@.len(),
    ensures
        k == space_back(s@.subrange(lo as int, i as int)),
        lo + k <= i,
{
    let n = i - lo;
    if n >= 1 && ((9 <= s[i - 1] && s[i - 1] <= 13) || s[i - 1] == 32) {
        1
    } else if n >= 2 && s[i - 2] == 0xC2 && (s[i - 1] == 0x85 || s[i - 1] == 0xA0) {
        2
    } else if n >= 3 && space3(s[i - 3], s[i - 2], s[i - 1]) {
        3
    } else {
        0
    }
}

/// Where `s[lo..hi]` begins once the white space at its start is removed.
pub fn skip_space(s: &[u8], lo: usize, hi: usize) -> (a: usize)
    requires
        lo <= hi <= s@.len(),
    ensures
        lo <= a <= hi,
        s@.subrange(a as int, hi as int) == trim_start(s@.subrange(lo as int, hi as int)),
{
    let mut a: usize = lo;
    let mut k: usize = space_at(s, a, hi);
    while k > 0
        invariant
            lo <= a <= hi <= s@.len(),
            a + k <= hi,
            k == space_front(s@.subrange(a as int, hi as int)),
            trim_start(s@.subrange(lo as int, hi as int)) == trim_start(
                s@.subrange(a as int, hi as int),
            ),
        decreases hi - a,
    {
        proof {
            assert(s@.subrange(a as int, hi as int).skip(k as int) =~= s@.subrange(
                a + k,
                hi as int,
            ));
        }
        a += k;
        k = space_at(s, a, hi);
    }
    a
}

/// The bounds of `s[lo..hi]` once white space is removed from both its ends.
pub fn trim_range(s: &[u8], lo: usize, hi: usize) -> (r: (usize, usize))
    requires
        lo <= hi <= s@.len(),
    ensures
        lo <= r.0 <= r.1 <= hi,
        s@.subrange(r.0 as int, r.1 as int) == trim(s@.subrange(lo as int, hi as int)),
{
    let a = skip_space(s, lo, hi);
    let mut b: usize = hi;
    let mut k: usize = space_before(s, a, b);
    while k > 0
        invariant
            lo <= a <= b <= hi <= s@.len(),
            a + k <= b,
            k == space_back(s@.subrange(a as int, b as int)),
            trim(s@.subrange(lo as int, hi as int)) == trim_end(s@.subrange(a as int, b as int)),
        decreases b - a,
    {
        proof {
            assert(s@.subrange(a as int, b as int).take(b - a - k) =~= s@.subrange(
                a as int,
                b - k,
            ));
        }
        b -= k;
        k = space_before(s, a, b);
    }
    (a, b)
}

/// A copy of `s` without white space at either end.
pub fn trimmed(s: &[u8]) -> (r: Vec<u8>)
    ensures
        r@ == trim(s@),
{
    proof {
        assert(s@.subrange(0, s@.len() as int) =~= s@);
    }
    let (a, b) = trim_range(s, 0, s.len());
    copy_range(s, a, b)
}

/// The length of the run of bytes at the start of `s` that holds no white space.
pub open spec fn token_len(s: Seq<u8>) -> int
    decreases s.len(),
{
    if s.len() == 0 || space_front(s) > 0 {
        0
    } else {
        1 + token_len(s.skip(1))
    }
}

/// The first run of bytes of `s` between white space.
pub open spec fn first_token(s: Seq<u8>) -> Seq<u8> {
    let t = trim_start(s);
    t.take(token_len(t))
}

/// What follows the first token of `s`.
pub open spec fn after_first_token(s: Seq<u8>) -> Seq<u8> {
    let t = trim_start(s);
    t.skip(token_len(t))
}

/// The bounds of the first token of `s[lo..hi]`.
pub fn token_range(s: &[u8], lo: usize, hi: usize) -> (r: (usize, usize))
    requires
        lo <= hi <= s@.len(),
    ensures
        lo <= r.0 <= r.1 <= hi,
        s@.subrange(r.0 as int, r.1 as int) == first_token(s@.subrange(lo as int, hi as int)),
        s@.subrange(r.1 as int, hi as int) == after_first_token(s@.subrange(lo as int, hi as int)),
{
    let a = skip_space(s, lo, hi);
    let mut b: usize = a;
    while b < hi && space_at(s, b, hi) == 0
        invariant
            a <= b <= hi <= s@.len(),
            token_len(s@.subrange(a as int, hi as int)) == (b - a) + token_len(
                s@.subrange(b as int, hi as int),
            ),
        decreases hi - b,
    {
        proof {
            assert(s@.subrange(b as int, hi as int).skip(1) =~= s@.subrange(b + 1, hi as int));
        }
        b += 1;
    }
    proof {
        let t = s@.subrange(a as int, hi as int);
        assert(t.take(b - a) =~= s@.subrange(a as int, b as int));
        assert(t.skip(b - a) =~= s@.subrange(b as int, hi as int));
    }
    (a, b)
}

/// Where the line that begins at `pos` ends: at the next line feed, or at the end.
pub open spec fn line_end(s: Seq<u8>, pos: int) -> int {
    match find_from(s, seq![10u8], pos) {
        Some(e) => e,
        None => s.len() as int,
    }
}

/// Where the text of the line that begins at `pos` ends: before its line feed,
/// and before a carriage return that stands directly in front of that.
pub open spec fn line_text_end(s: Seq<u8>, pos: int) -> int {
    let e = line_end(s, pos);
    if e < s.len() && e > pos && s[e - 1] == 13 {
        e - 1
    } else {
        e
    }
}

/// The text of the line that begins at `pos`.
pub open spec fn line_at(s: Seq<u8>, pos: int) -> Seq<u8> {
    s.subrange(pos, line_text_end(s, pos))
}

/// Where the line after the one at `pos` begins.
pub open spec fn line_next(s: Seq<u8>, pos: int) -> int {
    let e = line_end(s, pos);
    if e < s.len() {
        e + 1
    } else {
        s.len() as int
    }
}

/// The end of the text of the line at `pos`, and the start of the next line.
pub fn line_bounds(s: &[u8], pos: usize) -> (r: (usize, usize))
    requires
        pos < s@.len(),
    ensures
        r.0 == line_text_end(s@, pos as int),
        r.1 == line_next(s@, pos as int),
        pos <= r.0 <= r.1 <= s@.len(),
        pos < r.1,
{
    let n = s.len();
    let nl = [10u8];
    let d = nl.as_slice();
    assert(d@ =~= seq![10u8]);
    match find_bytes(s, d, pos) {
        Some(e) => {
            if e > pos && s[e - 1] == 13 {
                (e - 1, e + 1)
            } else {
                (e, e + 1)
            }
        },
        None => (n, n),
    }
}

/// The first line break at or after `pos`.
pub fn find_crlf(s: &[u8], pos: usize) -> (r: Option<usize>)
    ensures
        match r {
            Some(p) => find_from(s@, crlf(), pos as int) == Some(p as int) && pos <= p && p + 2
                <= s@.len(),
            None => find_from(s@, crlf(), pos as int).is_none(),
        },
        s@.len() <= usize::MAX,
{
    let a = [13u8, 10u8];
    let d = a.as_slice();
    assert(d@ =~= crlf());
    find_bytes(s, d, pos)
}

/// The first empty line (two line breaks in a row) at or after `pos`.
pub fn find_crlf2(s: &[u8], pos: usize) -> (r: Option<usize>)
    ensures
        match r {
            Some(p) => find_from(s@, crlf2(), pos as int) == Some(p as int) && pos <= p && p + 4
                <= s@.len(),
            None => find_from(s@, crlf2(), pos as int).is_none(),
        },
        s@.len() <= usize::MAX,
{
    let a = [13u8, 10u8, 13u8, 10u8];
    let d = a.as_slice();
    assert(d@ =~= crlf2());
    find_bytes(s, d, pos)
}

/// The first byte `b` at or after `pos`.
pub fn find_byte(s: &[u8], b: u8, pos: usize) -> (r: Option<usize>)
    ensures
        match r {
            Some(p) => find_from(s@, seq![b], pos as int) == Some(p as int) && pos <= p < s@.len(),
            None => find_from(s@, seq![b], pos as int).is_none(),
        },
        s@.len() <= usize::MAX,
{
    let a = [b];
    let d = a.as_slice();
    assert(d@ =~= seq![b]);
    find_bytes(s, d, pos)
}

/// Whether a line break stands at `pos`.
pub fn at_crlf(s: &[u8], pos: usize) -> (r: bool)
    ensures
        r == occurs_at(s@, crlf(), pos as int),
{
    let a = [13u8, 10u8];
    let d = a.as_slice();
    assert(d@ =~= crlf());
    matches_at(s, d, pos)
}

/// `s` without the bytes `b` it begins with.
pub open spec fn strip_front(s: Seq<u8>, b: u8) -> Seq<u8>
    decreases s.len(),
{
    if s.len() > 0 && s[0] == b {
        strip_front(s.skip(1), b)
    } else {
        s
    }
}

/// `s` without the bytes `b` it ends with.
pub open spec fn strip_back(s: Seq<u8>, b: u8) -> Seq<u8>
    decreases s.len(),
{
    if s.len() > 0 && s.last() == b {
        strip_back(s.drop_last(), b)
    } else {
        s
    }
}

/// `s` without the bytes `b` at either end.
pub open spec fn strip(s: Seq<u8>, b: u8) -> Seq<u8> {
    strip_back(strip_front(s, b), b)
}

/// The bounds of `s[lo..hi]` once the bytes `b` are removed from both its ends.
pub fn strip_range(s: &[u8], lo: usize, hi: usize, b: u8) -> (r: (usize, usize))
    requires
        lo <= hi <= s@.len(),
    ensures
        lo <= r.0 <= r.1 <= hi,
        s@.subrange(r.0 as int, r.1 as int) == strip(s@.subrange(lo as int, hi as int), b),
{
    let mut a: usize = lo;
    while a < hi && s[a] == b
        invariant
            lo <= a <= hi <= s@.len(),
            strip_front(s@.subrange(lo as int, hi as int), b) == strip_front(
                s@.subrange(a as int, hi as int),
                b,
            ),
        decreases hi - a,
    {
        proof {
            assert(s@.subrange(a as int, hi as int).skip(1) =~= s@.subrange(a + 1, hi as int));
        }
        a += 1;
    }
    let mut e: usize = hi;
    while a < e && s[e - 1] == b
        invariant
            lo <= a <= e <= hi <= s@.len(),
            strip(s@.subrange(lo as int, hi as int), b) == strip_back(
                s@.subrange(a as int, e as int),
                b,
            ),
        decreases e - a,
    {
        proof {
            assert(s@.subrange(a as int, e as int).drop_last() =~= s@.subrange(a as int, e - 1));
        }
        e -= 1;
    }
    (a, e)
}

/// `s` without surrounding white space, then without double quotes, then
/// without single quotes, at either end.
pub open spec fn unquoted(s: Seq<u8>) -> Seq<u8> {
    strip(strip(trim(s), 34), 39)
}

/// A copy of `s` without surrounding white space and quotes.
pub fn unquote(s: &[u8]) -> (r: Vec<u8>)
    ensures
        r@ == unquoted(s@),
{
    proof {
        assert(s@.subrange(0, s@.len() as int) =~= s@);
    }
    let (a, b) = trim_range(s, 0, s.len());
    let (c, d) = strip_range(s, a, b, 34u8);
    let (e, f) = strip_range(s, c, d, 39u8);
    copy_range(s, e, f)
}

/// A copy of `s`.
pub fn owned(s: &[u8]) -> (r: Vec<u8>)
    ensures
        r@ == s@,
{
    proof {
        assert(s@.subrange(0, s@.len() as int) =~= s@);
    }
    copy_range(s, 0, s.len())
}

} // verus!
