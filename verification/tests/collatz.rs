use collatz::parser::{parse_input, ParseError};
use collatz::stats::{compute_stats, classify_element, ElementStyle};
use collatz::trajectory::collatz;
use num_bigint::BigInt;

const STEP_BOUND: usize = 1_000_000;

fn big(n: i64) -> BigInt {
    BigInt::from(n)
}

#[test]
fn parse_plain_decimal() {
    assert_eq!(parse_input(b"27"), Ok(big(27)));
    assert_eq!(parse_input(b"1"), Ok(big(1)));
    assert_eq!(parse_input(b"+7"), Ok(big(7)));
}

#[test]
fn parse_trims_whitespace() {
    assert_eq!(parse_input(b"  42  \n"), Ok(big(42)));
    assert_eq!(parse_input(b"\t9\r\n"), Ok(big(9)));
}

#[test]
fn parse_decimal_round_trip_large() {
    let text = b"123456789012345678901234567890";
    let expected = BigInt::parse_bytes(text, 10).unwrap();
    assert_eq!(parse_input(text), Ok(expected.clone()));
    assert_eq!(parse_input(expected.to_string().as_bytes()), Ok(expected));
}

#[test]
fn parse_accepts_digit_separators() {
    assert_eq!(parse_input(b"1_000"), Ok(big(1000)));
    assert_eq!(parse_input(b"_5"), Err(ParseError::InvalidInput));
}

#[test]
fn parse_exponential_form() {
    assert_eq!(parse_input(b"2^10"), Ok(big(1024)));
    assert_eq!(parse_input(b"2^10-1"), Ok(big(1023)));
    assert_eq!(parse_input(b"3^3-0"), Ok(big(27)));
}

#[test]
fn parse_exponential_large() {
    let v = parse_input(b"2^199-1").unwrap();
    let expected = BigInt::from(2u32).pow(199) - BigInt::from(1u32);
    assert_eq!(v, expected);
    assert_eq!(parse_input(b"10^9-999999999"), Ok(big(1)));
    assert_eq!(parse_input(b"2^0"), Ok(big(1)));
}

#[test]
fn parse_exponential_found_anywhere() {
    assert_eq!(parse_input(b"x2^3y"), Ok(big(8)));
    assert_eq!(parse_input(b"1^2^3"), Ok(big(1)));
}

#[test]
fn parse_exponential_may_be_nonpositive() {
    assert_eq!(parse_input(b"2^1-5"), Ok(big(-3)));
    assert_eq!(parse_input(b"2^2-4"), Ok(big(0)));
}

#[test]
fn parse_exponential_component_too_large() {
    assert_eq!(
        parse_input(b"2^4294967296"),
        Err(ParseError::MalformedExponentialClause)
    );
    assert_eq!(
        parse_input(b"99999999999^2-1"),
        Err(ParseError::MalformedExponentialClause)
    );
}

#[test]
fn parse_invalid_inputs() {
    assert_eq!(parse_input(b"0"), Err(ParseError::InvalidInput));
    assert_eq!(parse_input(b"-5"), Err(ParseError::InvalidInput));
    assert_eq!(parse_input(b"abc"), Err(ParseError::InvalidInput));
    assert_eq!(parse_input(b""), Err(ParseError::InvalidInput));
    assert_eq!(parse_input(b"-0"), Err(ParseError::InvalidInput));
    assert_eq!(parse_input(b"12.5"), Err(ParseError::InvalidInput));
}

#[test]
fn trajectory_of_one() {
    let seq = collatz(big(1), STEP_BOUND).unwrap();
    assert_eq!(seq, vec![big(1)]);
    let st = compute_stats(&seq);
    assert_eq!(st.stopping_time, 0);
    assert_eq!(st.max_value, big(1));
    assert_eq!(st.max_index, 0);
    assert_eq!(st.even_count, 0);
    assert_eq!(st.odd_count, 0);
}

#[test]
fn trajectory_of_three() {
    let seq = collatz(big(3), STEP_BOUND).unwrap();
    let expected: Vec<BigInt> = [3, 10, 5, 16, 8, 4, 2, 1].iter().map(|&v| big(v)).collect();
    assert_eq!(seq, expected);
}

#[test]
fn trajectory_of_twenty_seven() {
    let n = parse_input(b"27").unwrap();
    assert_eq!(n, big(27));
    let seq = collatz(n, STEP_BOUND).unwrap();
    assert_eq!(seq.len(), 112);
    assert_eq!(seq[0], big(27));
    let st = compute_stats(&seq);
    assert_eq!(st.stopping_time, 111);
    assert_eq!(st.max_value, big(9232));
    assert_eq!(st.even_count + st.odd_count, 111);
}

#[test]
fn trajectory_reaches_one_only_at_the_end() {
    let seq = collatz(big(27), STEP_BOUND).unwrap();
    assert_eq!(*seq.last().unwrap(), big(1));
    for term in &seq[..seq.len() - 1] {
        assert_ne!(*term, big(1));
    }
}

#[test]
fn trajectory_respects_step_bound() {
    assert_eq!(collatz(big(27), 110), None);
    assert!(collatz(big(27), 111).is_some());
}

#[test]
fn engine_is_idempotent() {
    let first = collatz(big(97), STEP_BOUND).unwrap();
    let second = collatz(big(97), STEP_BOUND).unwrap();
    assert_eq!(first, second);
}

#[test]
fn stats_are_consistent() {
    for start in [1i64, 2, 6, 7, 27, 97] {
        let seq = collatz(big(start), STEP_BOUND).unwrap();
        let st = compute_stats(&seq);
        assert_eq!(seq[st.max_index], st.max_value);
        for term in &seq {
            assert!(*term <= st.max_value);
        }
        assert_eq!(st.even_count + st.odd_count, seq.len() - 1);
        assert_eq!(st.stopping_time, seq.len() - 1);
    }
}

#[test]
fn stats_count_parity_after_start() {
    // 6 -> 3 -> 10 -> 5 -> 16 -> 8 -> 4 -> 2 -> 1: after the start,
    // five even terms and three odd ones.
    let seq = collatz(big(6), STEP_BOUND).unwrap();
    let st = compute_stats(&seq);
    assert_eq!(st.even_count, 5);
    assert_eq!(st.odd_count, 3);
}

#[test]
fn classification_of_terms() {
    let seq = collatz(big(6), STEP_BOUND).unwrap();
    let st = compute_stats(&seq);
    assert_eq!(classify_element(&st.max_value, &st.max_value), ElementStyle::Maximum);
    assert_eq!(classify_element(&big(10), &st.max_value), ElementStyle::EvenTerm);
    assert_eq!(classify_element(&big(5), &st.max_value), ElementStyle::OddTerm);
}
