use vstd::prelude::*;

verus! {

/// Whether `b` is an ASCII decimal digit.
pub open spec fn is_digit(b: u8) -> bool {
    48 <= b <= 57
}

/// The first position at or after `i` that does not hold a digit.
pub open spec fn digits_end(s: Seq<u8>, i: int) -> int
    decreases s.len() - i,
{
    if 0 <= i < s.len() && is_digit(s[i]) {
        digits_end(s, i + 1)
    } else {
        i
    }
}

/// The number written in decimal by the digits `t`.
pub open spec fn decimal_value(t: Seq<u8>) -> nat
    decreases t.len(),
{
    if t.len() == 0 {
        0
    } else {
        decimal_value(t.drop_last()) * 10 + (t.last() - 48) as nat
    }
}

/// Digits at `[a, d)` written without a superfluous leading zero.
pub open spec fn canonical_digits(s: Seq<u8>, a: int, d: int) -> bool {
    &&& a < d
    &&& s[a] == 48 ==> d == a + 1
}

/// A byte-string token `<n>:<n bytes>` at `pos`: the span of its content.
pub open spec fn string_span(s: Seq<u8>, pos: int) -> Option<(int, int)> {
    let d = digits_end(s, pos);
    if 0 <= pos && canonical_digits(s, pos, d) && d < s.len() && s[d] == 58 && d + 1
        + decimal_value(s.subrange(pos, d)) <= s.len() {
        Some((d + 1, d + 1 + decimal_value(s.subrange(pos, d))))
    } else {
        None
    }
}

/// Where the digits of an integer token at `pos` start (after an optional minus).
pub open spec fn int_digits_start(s: Seq<u8>, pos: int) -> int {
    if pos + 1 < s.len() && s[pos + 1] == 45 {
        pos + 2
    } else {
        pos + 1
    }
}

/// An integer token `i<text>e` at `pos`: the span of its text. The text is an
/// optional minus and digits without a leading zero; `-0` is not written.
pub open spec fn int_span(s: Seq<u8>, pos: int) -> Option<(int, int)> {
    let a = int_digits_start(s, pos);
    let d = digits_end(s, a);
    if 0 <= pos < s.len() && s[pos] == 105 && canonical_digits(s, a, d) && d < s.len() && s[d]
        == 101 && !(a == pos + 2 && s[a] == 48) {
        Some((pos + 1, d))
    } else {
        None
    }
}

/// Whether the integer token at `pos` is non-negative.
pub open spec fn int_is_unsigned(s: Seq<u8>, pos: int) -> bool {
    int_digits_start(s, pos) == pos + 1
}

/// The magnitude of the integer token at `pos`.
pub open spec fn int_magnitude(s: Seq<u8>, pos: int) -> nat {
    decimal_value(s.subrange(int_digits_start(s, pos), digits_end(s, int_digits_start(s, pos))))
}

pub proof fn lemma_digits_end_bounds(s: Seq<u8>, i: int)
    requires
        0 <= i <= s.len(),
    ensures
        i <= digits_end(s, i) <= s.len(),
        forall|k: int| i <= k < digits_end(s, i) ==> is_digit(#[trigger] s[k]),
        digits_end(s, i) < s.len() ==> !is_digit(s[digits_end(s, i)]),
    decreases s.len() - i,
{
    if i < s.len() && is_digit(s[i]) {
        lemma_digits_end_bounds(s, i + 1);
    }
}

pub proof fn lemma_decimal_value_monotone(s: Seq<u8>, a: int, i: int, j: int)
    requires
        0 <= a <= i <= j <= s.len(),
        forall|k: int| a <= k < j ==> is_digit(#[trigger] s[k]),
    ensures
        decimal_value(s.subrange(a, i)) <= decimal_value(s.subrange(a, j)),
    decreases j - i,
{
    if i < j {
        lemma_decimal_value_monotone(s, a, i, j - 1);
        assert(s.subrange(a, j).drop_last() =~= s.subrange(a, j - 1));
    }
}

/// The first position at or after `pos` that does not hold a digit.
pub fn scan_digits(s: &[u8], pos: usize) -> (r: usize)
    requires
        pos <= s@.len(),
    ensures
        r == digits_end(s@, pos as int),
        pos <= r <= s@.len(),
{
    let mut i = pos;
    proof {
        lemma_digits_end_bounds(s@, pos as int);
    }
    while i < s.len() && 48 <= s[i] && s[i] <= 57
        invariant
            pos <= i <= s@.len(),
            digits_end(s@, i as int) == digits_end(s@, pos as int),
        decreases s@.len() - i,
    {
        i = i + 1;
    }
    i
}

/// The decimal number of the digits `[a, d)`, where it is at most `bound`.
pub fn parse_decimal(s: &[u8], a: usize, d: usize, bound: u64) -> (r: Option<u64>)
    requires
        a <= d <= s@.len(),
        forall|k: int| a <= k < d ==> is_digit(#[trigger] s@[k]),
    ensures
        match r {
            Some(v) => v == decimal_value(s@.subrange(a as int, d as int)) && v <= bound,
            None => decimal_value(s@.subrange(a as int, d as int)) > bound,
        },
{
    let mut v: u64 = 0;
    let mut i = a;
    while i < d
        invariant
            a <= i <= d <= s@.len(),
            forall|k: int| a <= k < d ==> is_digit(#[trigger] s@[k]),
            v == decimal_value(s@.subrange(a as int, i as int)),
            v <= bound,
        decreases d - i,
    {
        let digit = s[i] - 48;
        let nv: u128 = (v as u128) * 10 + digit as u128;
        assert(s@.subrange(a as int, i + 1).drop_last() =~= s@.subrange(a as int, i as int));
        if nv > bound as u128 {
            proof {
                lemma_decimal_value_monotone(s@, a as int, i + 1, d as int);
            }
            return None;
        }
        v = nv as u64;
        i = i + 1;
    }
    Some(v)
}

/// Reads the byte-string token at `pos`: the span of its content.
pub fn parse_string(s: &[u8], pos: usize) -> (r: Option<(usize, usize)>)
    requires
        pos <= s@.len(),
    ensures
        match r {
            Some((a, b)) => string_span(s@, pos as int) == Some((a as int, b as int)),
            None => string_span(s@, pos as int) is None,
        },
{
    let d = scan_digits(s, pos);
    proof {
        lemma_digits_end_bounds(s@, pos as int);
    }
    if d == pos || (s[pos] == 48 && d != pos + 1) || d >= s.len() || s[d] != 58 {
        return None;
    }
    let room = (s.len() - d - 1) as u64;
    match parse_decimal(s, pos, d, room) {
        Some(n) => Some((d + 1, d + 1 + n as usize)),
        None => None,
    }
}

/// Reads the integer token at `pos`: the span of its text.
pub fn parse_int(s: &[u8], pos: usize) -> (r: Option<(usize, usize)>)
    requires
        pos <= s@.len(),
    ensures
        match r {
            Some((a, b)) => int_span(s@, pos as int) == Some((a as int, b as int)),
            None => int_span(s@, pos as int) is None,
        },
{
    if pos >= s.len() || s[pos] != 105 {
        return None;
    }
    let a = if pos + 1 < s.len() && s[pos + 1] == 45 {
        pos + 2
    } else {
        pos + 1
    };
    if a > s.len() {
        return None;
    }
    let d = scan_digits(s, a);
    proof {
        lemma_digits_end_bounds(s@, a as int);
    }
    if d == a || (s[a] == 48 && d != a + 1) || d >= s.len() || s[d] != 101 || (a == pos + 2
        && s[a] == 48) {
        return None;
    }
    Some((pos + 1, d))
}

/// Reads the integer token at `pos` as an unsigned 64-bit number: `None`
/// where the token is malformed, negative or too large.
pub fn parse_u64(s: &[u8], pos: usize) -> (r: Option<(u64, usize)>)
    requires
        pos <= s@.len(),
    ensures
        match r {
            Some((v, next)) => {
                &&& int_span(s@, pos as int) matches Some((a, b))
                &&& next == b + 1
                &&& int_is_unsigned(s@, pos as int)
                &&& v == int_magnitude(s@, pos as int)
            },
            None => !(int_span(s@, pos as int) is Some && int_is_unsigned(s@, pos as int)
                && int_magnitude(s@, pos as int) <= u64::MAX),
        },
{
    match parse_int(s, pos) {
        None => None,
        Some((a, d)) => {
            if s[a] == 45 {
                return None;
            }
            proof {
                lemma_digits_end_bounds(s@, a as int);
            }
            match parse_decimal(s, a, d, u64::MAX) {
                Some(v) => Some((v, d + 1)),
                None => None,
            }
        },
    }
}

} // verus!
