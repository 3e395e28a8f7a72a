//! The input parser: raw text as bytes becomes a positive arbitrary-precision
//! starting value. An exponential form `base^exponent[-subtrahend]` found
//! anywhere in the text takes priority; otherwise the trimmed text must be a
//! decimal integer strictly greater than zero.

use vstd::prelude::*;

verus! {

use num_bigint::BigInt;
use vstd::arithmetic::power::pow;
use crate::digits::{is_digit, dec_value};
use crate::bignum::{
    big_value, big_from_u32, big_sub, big_pow, big_parse_bytes, big_is_positive,
    decimal_text_valid, decimal_text_value,
};

/// Why an input was rejected.
#[derive(Clone, Copy, Debug, PartialEq, Eq)]
pub enum ParseError {
    /// The text matches neither accepted form, or its decimal value is not
    /// strictly positive.
    InvalidInput,
    /// The text matches the exponential pattern, but the base, exponent or
    /// subtrahend does not fit an unsigned 32-bit integer.
    MalformedExponentialClause,
}

/// The end of the run of digit bytes that starts at `i`: the first position
/// at or after `i` that is past the end or does not hold a digit.
pub open spec fn run_end(s: Seq<u8>, i: int) -> int
    decreases s.len() - i,
{
    if i < 0 || i >= s.len() || !is_digit(s[i]) {
        i
    } else {
        run_end(s, i + 1)
    }
}

/// The exponential pattern matches starting at `i`: a run of digits, then a
/// caret, then at least one digit.
pub open spec fn match_at(s: Seq<u8>, i: int) -> bool {
    let j = run_end(s, i);
    &&& 0 <= i < s.len()
    &&& is_digit(s[i])
    &&& j + 1 < s.len()
    &&& s[j] == 94
    &&& is_digit(s[j + 1])
}

/// The first position at or after `i` where the exponential pattern matches.
pub open spec fn first_match(s: Seq<u8>, i: int) -> Option<int>
    decreases s.len() - i,
{
    if i < 0 || i >= s.len() {
        None
    } else if match_at(s, i) {
        Some(i)
    } else {
        first_match(s, i + 1)
    }
}

/// The byte is ASCII whitespace: tab through carriage return, or space.
pub open spec fn is_ascii_whitespace(b: u8) -> bool {
    b == 32 || (9 <= b <= 13)
}

/// The first position at or after `i` that does not hold whitespace.
pub open spec fn trim_start_idx(s: Seq<u8>, i: int) -> int
    decreases s.len() - i,
{
    if i < 0 || i >= s.len() || !is_ascii_whitespace(s[i]) {
        i
    } else {
        trim_start_idx(s, i + 1)
    }
}

/// The last position at or before `i` such that everything from there up to
/// `i` is whitespace.
pub open spec fn trim_end_idx(s: Seq<u8>, i: int) -> int
    decreases i,
{
    if i <= 0 || i > s.len() || !is_ascii_whitespace(s[i - 1]) {
        i
    } else {
        trim_end_idx(s, i - 1)
    }
}

/// The text with leading and trailing ASCII whitespace removed.
pub open spec fn trim_spec(s: Seq<u8>) -> Seq<u8> {
    let lo = trim_start_idx(s, 0);
    let hi = trim_end_idx(s, s.len() as int);
    if lo < hi {
        s.subrange(lo, hi)
    } else {
        Seq::empty()
    }
}

/// What parsing the text yields. The exponential pattern, wherever it first
/// matches, takes priority, and its three components must each fit in a `u32`;
/// the value `base^exponent - subtrahend` itself is unrestricted. Text without
/// the pattern must be, once trimmed, a decimal integer strictly greater than
/// zero.
pub open spec fn parse_spec(s: Seq<u8>) -> Result<int, ParseError> {
    match first_match(s, 0) {
        Some(i) => {
            let j = run_end(s, i);
            let k = run_end(s, j + 1);
            let bv = dec_value(s.subrange(i, j));
            let ev = dec_value(s.subrange(j + 1, k));
            let sv = if k + 1 < s.len() && s[k] == 45 && is_digit(s[k + 1]) {
                dec_value(s.subrange(k + 1, run_end(s, k + 1)))
            } else {
                0
            };
            if bv <= u32::MAX && ev <= u32::MAX && sv <= u32::MAX {
                Ok(pow(bv, ev as nat) - sv)
            } else {
                Err(ParseError::MalformedExponentialClause)
            }
        },
        None => {
            let t = trim_spec(s);
            if decimal_text_valid(t) && decimal_text_value(t) > 0 {
                Ok(decimal_text_value(t))
            } else {
                Err(ParseError::InvalidInput)
            }
        },
    }
}

/// A digit run's end lies between its start and the end of the text.
proof fn lemma_run_end_bounds(s: Seq<u8>, i: int)
    requires
        0 <= i <= s.len(),
    ensures
        i <= run_end(s, i) <= s.len(),
    decreases s.len() - i,
{
    if i < s.len() && is_digit(s[i]) {
        lemma_run_end_bounds(s, i + 1);
    }
}

/// Text without a caret holds no exponential pattern.
proof fn lemma_no_caret_no_match(s: Seq<u8>, i: int)
    requires
        0 <= i,
        forall|x: int| 0 <= x < s.len() ==> s[x] != 94,
    ensures
        first_match(s, i) is None,
    decreases s.len() - i,
{
    if i < s.len() {
        assert(!match_at(s, i)) by {
            let j = run_end(s, i);
            lemma_run_end_bounds(s, i);
            if 0 <= i < s.len() && is_digit(s[i]) && j + 1 < s.len() {
                assert(s[j] != 94);
            }
        }
        lemma_no_caret_no_match(s, i + 1);
    }
}

/// Round trip: parsing the decimal representation of any positive integer
/// yields exactly that integer.
pub proof fn lemma_parse_decimal_round_trip(n: nat)
    requires
        n >= 1,
    ensures
        parse_spec(crate::digits::dec_repr(n)) == Ok::<int, ParseError>(n as int),
{
    let s = crate::digits::dec_repr(n);
    crate::digits::lemma_dec_repr(n);
    assert forall|x: int| 0 <= x < s.len() implies s[x] != 94 by {
        assert(is_digit(s[x]));
    }
    lemma_no_caret_no_match(s, 0);
    assert(!is_ascii_whitespace(s[0]));
    assert(trim_start_idx(s, 0) == 0);
    assert(!is_ascii_whitespace(s[s.len() - 1]));
    assert(trim_end_idx(s, s.len() as int) == s.len() as int);
    assert(trim_spec(s) =~= s);
    assert(decimal_text_valid(s)) by {
        assert(is_digit(s[0]));
        assert(crate::bignum::decimal_body_valid(s));
    }
    crate::bignum::lemma_decimal_body_value_digits(s);
    assert(decimal_text_value(s) == n as int);
}

/// The byte is an ASCII decimal digit.
fn byte_is_digit(b: u8) -> (r: bool)
    ensures
        r == is_digit(b),
{
    48 <= b && b <= 57
}

/// The end of the run of digit bytes starting at `i`, with the run's bytes
/// known to be digits.
fn digit_run_end(s: &[u8], i: usize) -> (j: usize)
    requires
        i <= s@.len(),
    ensures
        j == run_end(s@, i as int),
        i <= j <= s@.len(),
        forall|x: int| i <= x < j ==> is_digit(s@[x]),
        j < s@.len() ==> !is_digit(s@[j as int]),
{
    let mut j = i;
    while j < s.len() && byte_is_digit(s[j])
        invariant
            i <= j <= s@.len(),
            run_end(s@, i as int) == run_end(s@, j as int),
            forall|x: int| i <= x < j ==> is_digit(s@[x]),
        decreases s@.len() - j,
    {
        j = j + 1;
    }
    j
}

/// The exponential pattern matches starting at `i`.
fn is_match_at(s: &[u8], i: usize) -> (r: bool)
    requires
        i < s@.len(),
    ensures
        r == match_at(s@, i as int),
{
    if !byte_is_digit(s[i]) {
        return false;
    }
    let j = digit_run_end(s, i);
    j < s.len() && s[j] == 94 && j + 1 < s.len() && byte_is_digit(s[j + 1])
}

/// The first position where the exponential pattern matches, if any.
fn find_exp_match(s: &[u8]) -> (r: Option<usize>)
    ensures
        match r {
            Some(i) => {
                &&& first_match(s@, 0) == Some(i as int)
                &&& i < s@.len()
                &&& match_at(s@, i as int)
            },
            None => first_match(s@, 0) is None,
        },
{
    let mut i: usize = 0;
    while i < s.len()
        invariant
            i <= s@.len(),
            first_match(s@, 0) == first_match(s@, i as int),
        decreases s@.len() - i,
    {
        if is_match_at(s, i) {
            return Some(i);
        }
        i = i + 1;
    }
    None
}

/// Read the digit run `s[from..to]` as a `u32`; `None` reports that its value
/// does not fit.
fn parse_u32_run(s: &[u8], from: usize, to: usize) -> (r: Option<u32>)
    requires
        from <= to <= s@.len(),
        forall|x: int| from <= x < to ==> is_digit(s@[x]),
    ensures
        match r {
            Some(v) => v as int == dec_value(s@.subrange(from as int, to as int)),
            None => dec_value(s@.subrange(from as int, to as int)) > u32::MAX,
        },
{
    let mut acc: u64 = 0;
    let mut p = from;
    while p < to
        invariant
            from <= p <= to <= s@.len(),
            forall|x: int| from <= x < to ==> is_digit(s@[x]),
            acc <= u32::MAX,
            acc as int == dec_value(s@.subrange(from as int, p as int)),
        decreases to - p,
    {
        let ghost whole = s@.subrange(from as int, to as int);
        let ghost pre = s@.subrange(from as int, p as int);
        let ghost ext = s@.subrange(from as int, p + 1);
        proof {
            assert(ext.drop_last() =~= pre);
            assert(ext.last() == s@[p as int]);
        }
        let d = s[p] - 48;
        let next = acc * 10 + d as u64;
        if next > u32::MAX as u64 {
            proof {
                assert forall|x: int| 0 <= x < whole.len() implies is_digit(whole[x]) by {
                    assert(whole[x] == s@[from + x]);
                }
                crate::digits::lemma_dec_value_prefix(whole, p + 1 - from);
                assert(whole.subrange(0, p + 1 - from) =~= ext);
            }
            return None;
        }
        acc = next;
        p = p + 1;
    }
    proof {
        assert(s@.subrange(from as int, p as int) =~= s@.subrange(from as int, to as int));
    }
    Some(acc as u32)
}

/// The bounds of the text once leading and trailing ASCII whitespace is
/// dropped.
fn trim_bounds(s: &[u8]) -> (r: (usize, usize))
    ensures
        r.0 <= r.1 <= s@.len(),
        trim_spec(s@) == s@.subrange(r.0 as int, r.1 as int),
{
    let mut lo: usize = 0;
    while lo < s.len() && byte_is_ascii_whitespace(s[lo])
        invariant
            lo <= s@.len(),
            trim_start_idx(s@, 0) == trim_start_idx(s@, lo as int),
        decreases s@.len() - lo,
    {
        lo = lo + 1;
    }
    let mut hi: usize = s.len();
    while hi > 0 && byte_is_ascii_whitespace(s[hi - 1])
        invariant
            hi <= s@.len(),
            trim_end_idx(s@, s@.len() as int) == trim_end_idx(s@, hi as int),
        decreases hi,
    {
        hi = hi - 1;
    }
    if lo < hi {
        (lo, hi)
    } else {
        proof {
            assert(trim_spec(s@) =~= s@.subrange(0, 0));
        }
        (0, 0)
    }
}

/// The byte is ASCII whitespace.
fn byte_is_ascii_whitespace(b: u8) -> (r: bool)
    ensures
        r == is_ascii_whitespace(b),
{
    b == 32 || (9 <= b && b <= 13)
}

/// Parse raw input text into an arbitrary-precision starting value, or report
/// why it is rejected. An exponential form `base^exponent[-subtrahend]` found
/// anywhere in the text is evaluated exactly in unbounded arithmetic; note
/// that such a result may be zero or negative, and callers who need a positive
/// value must test it. Otherwise the trimmed text must be a decimal integer
/// strictly greater than zero.
pub fn parse_input(input: &[u8]) -> (r: Result<BigInt, ParseError>)
    ensures
        match r {
            Ok(v) => parse_spec(input@) == Ok::<int, ParseError>(big_value(v)),
            Err(e) => parse_spec(input@) == Err::<int, ParseError>(e),
        },
{
    match find_exp_match(input) {
        Some(i) => {
            let n = input.len();
            let j = digit_run_end(input, i);
            assert(j + 1 < n);
            let k = digit_run_end(input, j + 1);
            let base = parse_u32_run(input, i, j);
            let exponent = parse_u32_run(input, j + 1, k);
            let has_sub = k < input.len() && input[k] == 45
                && k + 1 < input.len() && byte_is_digit(input[k + 1]);
            let subtrahend = if has_sub {
                let m = digit_run_end(input, k + 1);
                parse_u32_run(input, k + 1, m)
            } else {
                Some(0u32)
            };
            match (base, exponent, subtrahend) {
                (Some(b), Some(e), Some(m)) => {
                    let base_big = big_from_u32(b);
                    let power = big_pow(&base_big, e);
                    let sub_big = big_from_u32(m);
                    Ok(big_sub(&power, &sub_big))
                },
                _ => Err(ParseError::MalformedExponentialClause),
            }
        },
        None => {
            let (lo, hi) = trim_bounds(input);
            match big_parse_bytes(&input[lo..hi]) {
                Some(v) => {
                    if big_is_positive(&v) {
                        Ok(v)
                    } else {
                        Err(ParseError::InvalidInput)
                    }
                },
                None => Err(ParseError::InvalidInput),
            }
        },
    }
}

} // verus!
