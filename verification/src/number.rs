use vstd::prelude::*;

verus! {

/// The value of one digit in the given radix (10 or 16), if it is one.
pub open spec fn digit_value(b: u8, radix: nat) -> Option<nat> {
    if 48 <= b <= 57 {
        Some((b - 48) as nat)
    } else if radix == 16 && 97 <= b <= 102 {
        Some((b - 87) as nat)
    } else if radix == 16 && 65 <= b <= 70 {
        Some((b - 55) as nat)
    } else {
        None
    }
}

/// The number that a string of digits denotes; `None` where a byte is no digit.
pub open spec fn digits_value(s: Seq<u8>, radix: nat) -> Option<nat>
    decreases s.len(),
{
    if s.len() == 0 {
        Some(0)
    } else {
        match (digits_value(s.drop_last(), radix), digit_value(s.last(), radix)) {
            (Some(h), Some(d)) => Some(h * radix + d),
            _ => None,
        }
    }
}

/// The number that `s` denotes: an optional `+`, then at least one digit, and a
/// value of at most `max`.
pub open spec fn parse_number(s: Seq<u8>, radix: nat, max: nat) -> Option<nat> {
    let body = if s.len() > 0 && s[0] == 43 {
        s.skip(1)
    } else {
        s
    };
    if body.len() == 0 {
        None
    } else {
        match digits_value(body, radix) {
            Some(v) => if v <= max {
                Some(v)
            } else {
                None
            },
            None => None,
        }
    }
}

/// A string of digits denotes at least what any of its prefixes denotes.
pub proof fn lemma_digits_prefix(s: Seq<u8>, j: int, radix: nat)
    requires
        0 <= j <= s.len(),
        radix == 10 || radix == 16,
    ensures
        match digits_value(s, radix) {
            Some(v) => match digits_value(s.take(j), radix) {
                Some(p) => p <= v,
                None => false,
            },
            None => true,
        },
    decreases s.len(),
{
    if j == s.len() {
        assert(s.take(j) =~= s);
        if s.len() > 0 {
            lemma_digits_prefix(s.drop_last(), j - 1, radix);
            assert(s.drop_last().take(j - 1) =~= s.drop_last());
        }
    } else {
        assert(s.drop_last().take(j) =~= s.take(j));
        lemma_digits_prefix(s.drop_last(), j, radix);
    }
}

/// The value of one digit in the given radix, if it is one.
fn digit_of(b: u8, radix: usize) -> (r: Option<usize>)
    ensures
        match r {
            Some(d) => digit_value(b, radix as nat) == Some(d as nat) && d < 16,
            None => digit_value(b, radix as nat).is_none(),
        },
        r.is_some() && radix == 10 ==> r.unwrap() < 10,
{
    if 48 <= b && b <= 57 {
        Some((b - 48) as usize)
    } else if radix == 16 && 97 <= b && b <= 102 {
        Some((b - 87) as usize)
    } else if radix == 16 && 65 <= b && b <= 70 {
        Some((b - 55) as usize)
    } else {
        None
    }
}

/// Reads an unsigned number of at most `max` in radix 10 or 16.
pub fn parse_uint(s: &[u8], radix: usize, max: usize) -> (r: Option<usize>)
    requires
        radix == 10 || radix == 16,
    ensures
        match r {
            Some(v) => parse_number(s@, radix as nat, max as nat) == Some(v as nat),
            None => parse_number(s@, radix as nat, max as nat).is_none(),
        },
{
    let start: usize = if s.len() > 0 && s[0] == 43 {
        1
    } else {
        0
    };
    if start == s.len() {
        return None;
    }
    let ghost body = s@.skip(start as int);
    let mut acc: usize = 0;
    let mut i: usize = start;
    let ghost whole = match digits_value(body, radix as nat) {
        Some(v) => if v <= max {
            Some(v as nat)
        } else {
            None
        },
        None => None,
    };
    proof {
        assert(body.take(0) =~= Seq::<u8>::empty());
        assert(s@.skip(0) =~= s@);
        assert(parse_number(s@, radix as nat, max as nat) == whole);
    }
    while i < s.len()
        invariant
            start <= i <= s@.len(),
            radix == 10 || radix == 16,
            body == s@.skip(start as int),
            parse_number(s@, radix as nat, max as nat) == whole,
            whole == match digits_value(body, radix as nat) {
                Some(v) => if v <= max {
                    Some(v)
                } else {
                    None
                },
                None => None,
            },
            digits_value(body.take(i - start), radix as nat) == Some(acc as nat),
            acc <= max,
        decreases s.len() - i,
    {
        proof {
            assert(body.take(i - start + 1).drop_last() =~= body.take(i - start));
            assert(body.take(i - start + 1).last() == s@[i as int]);
            lemma_digits_prefix(body, i - start + 1, radix as nat);
        }
        let d = match digit_of(s[i], radix) {
            Some(d) => d,
            None => {
                return None;
            },
        };
        if acc > max / radix {
            proof {
                assert(acc * radix + d > max) by (nonlinear_arith)
                    requires
                        acc > max / radix,
                        radix > 0,
                        d >= 0,
                ;
            }
            return None;
        }
        proof {
            assert(acc * radix <= max) by (nonlinear_arith)
                requires
                    acc <= max / radix,
                    radix > 0,
            ;
        }
        let scaled: usize = acc * radix;
        if d > max - scaled {
            return None;
        }
        acc = scaled + d;
        i += 1;
    }
    proof {
        assert(body.take(i - start) =~= body);
    }
    Some(acc)
}

/// The decimal digits of `n`, most significant first.
pub open spec fn dec_digits(n: nat) -> Seq<u8>
    decreases n,
{
    if n < 10 {
        seq![(48 + n) as u8]
    } else {
        dec_digits(n / 10).push((48 + n % 10) as u8)
    }
}

/// The small hexadecimal digit for a value below 16.
pub open spec fn hex_char(d: nat) -> u8 {
    if d < 10 {
        (48 + d) as u8
    } else {
        (87 + d) as u8
    }
}

/// The hexadecimal digits of `n`, most significant first.
pub open spec fn hex_digits(n: nat) -> Seq<u8>
    decreases n,
{
    if n < 16 {
        seq![hex_char(n)]
    } else {
        hex_digits(n / 16).push(hex_char(n % 16))
    }
}

/// Writes `n` in decimal.
pub fn to_decimal(n: usize) -> (r: Vec<u8>)
    ensures
        r@ == dec_digits(n as nat),
    decreases n,
{
    if n < 10 {
        let mut v: Vec<u8> = Vec::new();
        v.push(48 + n as u8);
        proof {
            assert(v@ =~= dec_digits(n as nat));
        }
        v
    } else {
        let mut v = to_decimal(n / 10);
        v.push(48 + (n % 10) as u8);
        v
    }
}

/// The hexadecimal digits of a number are digits only, and denote it.
pub proof fn lemma_hex_digits(n: nat)
    ensures
        hex_digits(n).len() > 0,
        digits_value(hex_digits(n), 16) == Some(n),
        forall|i: int|
            0 <= i < hex_digits(n).len() ==> digit_value(#[trigger] hex_digits(n)[i], 16).is_some(),
    decreases n,
{
    if n < 16 {
        let s = hex_digits(n);
        assert(s.drop_last() =~= Seq::<u8>::empty());
        assert(digits_value(s.drop_last(), 16) == Some(0nat));
    } else {
        lemma_hex_digits(n / 16);
        let s = hex_digits(n);
        assert(s.drop_last() =~= hex_digits(n / 16));
    }
}

/// Reading the hexadecimal digits of a number gives the number back.
pub proof fn lemma_parse_hex_digits(n: nat, max: nat)
    requires
        n <= max,
    ensures
        parse_number(hex_digits(n), 16, max) == Some(n),
{
    lemma_hex_digits(n);
    assert(digit_value(hex_digits(n)[0], 16).is_some());
}

} // verus!
