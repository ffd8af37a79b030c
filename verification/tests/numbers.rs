use resp_codec::bulk::parse_header;
use resp_codec::bulk::Length;
use resp_codec::decimal::parse_digits;
use resp_codec::decimal::parse_signed;
use resp_codec::decimal::push_decimal;
use resp_codec::decimal::push_signed;
use resp_codec::double::check_double_literal;
use resp_codec::line::read_line;
use resp_codec::BigNumber;
use resp_codec::Error;

#[test]
fn read_line_finds_the_terminator() {
    assert_eq!(read_line(b"abc\r\ndef", 0), Ok(3));
    assert_eq!(read_line(b"abc\r\ndef\r\n", 5), Ok(8));
    assert_eq!(read_line(b"\r\n", 0), Ok(0));
    assert_eq!(read_line(b"abc", 0), Err(Error::NeedMoreData));
    assert_eq!(read_line(b"abc", 3), Err(Error::NeedMoreData));
    assert_eq!(read_line(b"abc\r", 0), Err(Error::NeedMoreData));
    assert_eq!(read_line(b"abc\n", 0), Err(Error::MalformedGrammar));
    assert_eq!(read_line(b"abc\rx", 0), Err(Error::MalformedGrammar));
    assert_eq!(read_line(b"abc\r\r\n", 0), Err(Error::MalformedGrammar));
}

#[test]
fn parse_digits_reads_decimal() {
    assert_eq!(parse_digits(b"0", 0, 1), Some(Some(0)));
    assert_eq!(parse_digits(b"x123y", 1, 4), Some(Some(123)));
    assert_eq!(parse_digits(b"000123", 0, 6), Some(Some(123)));
    assert_eq!(
        parse_digits(b"18446744073709551615", 0, 20),
        Some(Some(u64::MAX))
    );
    assert_eq!(parse_digits(b"18446744073709551616", 0, 20), Some(None));
    assert_eq!(parse_digits(b"99999999999999999999999", 0, 23), Some(None));
    assert_eq!(parse_digits(b"", 0, 0), None);
    assert_eq!(parse_digits(b"12", 1, 1), None);
    assert_eq!(parse_digits(b"1a", 0, 2), None);
    assert_eq!(parse_digits(b"-1", 0, 2), None);
    assert_eq!(parse_digits(b"99999999999999999999999x", 0, 24), None);
}

#[test]
fn parse_signed_reads_sign_and_magnitude() {
    let n = parse_signed(b"-42", 0, 3).unwrap();
    assert!(n.negative);
    assert_eq!(n.magnitude, Some(42));
    assert_eq!(n.to_i64(), Some(-42));
    let n = parse_signed(b"42", 0, 2).unwrap();
    assert!(!n.negative);
    assert_eq!(n.to_i64(), Some(42));
    let n = parse_signed(b"-9223372036854775808", 0, 20).unwrap();
    assert_eq!(n.to_i64(), Some(i64::MIN));
    let n = parse_signed(b"9223372036854775808", 0, 19).unwrap();
    assert_eq!(n.to_i64(), None);
    let n = parse_signed(b"-99999999999999999999", 0, 21).unwrap();
    assert!(n.negative);
    assert_eq!(n.magnitude, None);
    assert_eq!(n.to_i64(), None);
    assert!(parse_signed(b"", 0, 0).is_none());
    assert!(parse_signed(b"-", 0, 1).is_none());
    assert!(parse_signed(b"+1", 0, 2).is_none());
    assert!(parse_signed(b"--1", 0, 3).is_none());
}

#[test]
fn push_decimal_writes_shortest_form() {
    let mut out = b">".to_vec();
    push_decimal(&mut out, 0);
    out.push(b' ');
    push_decimal(&mut out, 9);
    out.push(b' ');
    push_decimal(&mut out, 10);
    out.push(b' ');
    push_decimal(&mut out, 1234567890);
    out.push(b' ');
    push_decimal(&mut out, u128::MAX);
    assert_eq!(
        out,
        b">0 9 10 1234567890 340282366920938463463374607431768211455"
    );
}

#[test]
fn push_signed_writes_the_sign() {
    let mut out = Vec::new();
    push_signed(&mut out, -5);
    out.push(b' ');
    push_signed(&mut out, 5);
    out.push(b' ');
    push_signed(&mut out, i64::MIN);
    assert_eq!(out, b"-5 5 -9223372036854775808");
}

#[test]
fn headers() {
    assert_eq!(parse_header(b"12\r\n", 0), Ok((Length::Count(12), 4)));
    assert_eq!(parse_header(b"$0\r\n", 1), Ok((Length::Count(0), 4)));
    assert_eq!(parse_header(b"-1\r\n", 0), Ok((Length::Null, 4)));
    assert_eq!(parse_header(b"-0\r\n", 0), Ok((Length::Count(0), 4)));
    assert_eq!(parse_header(b"-01\r\n", 0), Ok((Length::Null, 5)));
    assert_eq!(
        parse_header(b"18446744073709551616\r\n", 0),
        Ok((Length::Huge, 22))
    );
    assert_eq!(parse_header(b"-2\r\n", 0), Err(Error::MalformedGrammar));
    assert_eq!(parse_header(b"1 \r\n", 0), Err(Error::MalformedGrammar));
    assert_eq!(parse_header(b"12", 0), Err(Error::NeedMoreData));
}

#[test]
fn big_number_holds_the_integer() {
    let a = BigNumber::from_decimal(b"000123").unwrap();
    let b = BigNumber::from_decimal(b"+123").unwrap();
    let c = BigNumber::from_i64(123);
    assert_eq!(a, b);
    assert_eq!(b, c);
    assert_eq!(a.to_decimal(), b"123");
    assert_eq!(a.to_i64(), Some(123));
    assert!(!a.is_negative());

    let zero = BigNumber::from_decimal(b"-000").unwrap();
    assert_eq!(zero, BigNumber::from_i64(0));
    assert!(!zero.is_negative());
    assert_eq!(zero.to_decimal(), b"0");

    let low = BigNumber::from_i64(i64::MIN);
    assert!(low.is_negative());
    assert_eq!(low.to_decimal(), b"-9223372036854775808");
    assert_eq!(low.to_i64(), Some(i64::MIN));
    assert_eq!(
        BigNumber::from_decimal(b"-9223372036854775809").unwrap().to_i64(),
        None
    );
    assert_eq!(
        BigNumber::from_decimal(b"9223372036854775808").unwrap().to_i64(),
        None
    );

    let big = BigNumber::from_decimal(b"-00340282366920938463463374607431768211456").unwrap();
    assert!(big.is_negative());
    assert_eq!(big.to_decimal(), b"-340282366920938463463374607431768211456");
    assert_eq!(big.to_i64(), None);
    assert_eq!(big.clone(), big);
    assert_ne!(big, BigNumber::from_decimal(b"340282366920938463463374607431768211456").unwrap());

    let mut out = b"(".to_vec();
    big.write(&mut out);
    assert_eq!(out, b"(-340282366920938463463374607431768211456");
}

#[test]
fn big_number_refuses_what_is_no_literal() {
    assert!(BigNumber::from_decimal(b"").is_none());
    assert!(BigNumber::from_decimal(b"+").is_none());
    assert!(BigNumber::from_decimal(b"-").is_none());
    assert!(BigNumber::from_decimal(b"12x").is_none());
    assert!(BigNumber::from_decimal(b"00x").is_none());
    assert!(BigNumber::from_decimal(b"1 2").is_none());
    assert!(BigNumber::parse(b"(12)", 1, 3).is_some());
    assert!(BigNumber::parse(b"(12)", 1, 4).is_none());
}

#[test]
fn double_literals() {
    for literal in ["1", "-1", "+1", "1.0", "1e9", "1E9", "1.25e-7", "inf", "-inf", "nan"] {
        let text = literal.as_bytes();
        assert!(check_double_literal(text, 0, text.len()), "{}", literal);
    }
    for literal in ["", "+", "1.", ".1", "e9", "1e", "1e-", "in", "-nan", "infx", "1_000"] {
        let text = literal.as_bytes();
        assert!(!check_double_literal(text, 0, text.len()), "{}", literal);
    }
    assert!(check_double_literal(b",1.5\r\n", 1, 4));
    assert!(!check_double_literal(b",1.5\r\n", 0, 4));
}
