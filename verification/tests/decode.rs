use resp_codec::grammar::DEFAULT_MAX_DEPTH;
use resp_codec::parse_value;
use resp_codec::parse_value_with;
use resp_codec::BigNumber;
use resp_codec::Error;
use resp_codec::Limits;
use resp_codec::Value;

fn text(s: &str) -> Vec<u8> {
    s.as_bytes().to_vec()
}

fn decoded(input: &str) -> Value {
    let (rest, value) = parse_value(input.as_bytes()).unwrap();
    assert_eq!(rest, b"");
    value
}

fn refused(input: &str) -> Error {
    parse_value(input.as_bytes()).unwrap_err()
}

#[test]
fn test_parse_simple_string() {
    let cases = [
        ("+\r\n", ""),
        ("+OK\r\n", "OK"),
        ("+123456\r\n", "123456"),
        ("+Hello World\r\n", "Hello World"),
    ];
    for (input, expected) in cases {
        let (rest, actual) = parse_value(input.as_bytes()).unwrap();
        assert_eq!(rest, b"");
        assert_eq!(actual, Value::SimpleString(text(expected)));
    }
}

#[test]
fn test_parse_simple_string_error() {
    assert!(parse_value(b"+a\nb\rc\r\n").is_err());
}

#[test]
fn simple_string_with_bare_lf_is_malformed() {
    assert_eq!(refused("+a\nb\r\n"), Error::MalformedGrammar);
}

#[test]
fn simple_string_with_bare_cr_is_malformed() {
    assert_eq!(refused("+a\rb\r\n"), Error::MalformedGrammar);
}

#[test]
fn malformed_line_is_refused_before_its_terminator() {
    assert_eq!(refused("+a\nb"), Error::MalformedGrammar);
    assert_eq!(refused("+a\rb"), Error::MalformedGrammar);
}

#[test]
fn simple_error_is_a_line() {
    assert_eq!(
        decoded("-ERR unknown command\r\n"),
        Value::SimpleError(text("ERR unknown command"))
    );
}

#[test]
fn empty_input_needs_more_data() {
    assert_eq!(refused(""), Error::NeedMoreData);
}

#[test]
fn unterminated_line_needs_more_data() {
    assert_eq!(refused("+OK"), Error::NeedMoreData);
    assert_eq!(refused("+OK\r"), Error::NeedMoreData);
    assert_eq!(refused(":12"), Error::NeedMoreData);
    assert_eq!(refused("$5"), Error::NeedMoreData);
}

#[test]
fn unknown_tag_is_refused() {
    assert_eq!(refused("?\r\n"), Error::UnknownTypeTag);
    assert_eq!(refused("PING\r\n"), Error::UnknownTypeTag);
    assert_eq!(refused("\r\n"), Error::UnknownTypeTag);
}

#[test]
fn what_follows_the_value_is_handed_back() {
    let (rest, value) = parse_value(b"+OK\r\n:7\r\n").unwrap();
    assert_eq!(value, Value::SimpleString(text("OK")));
    assert_eq!(rest, b":7\r\n");
}

#[test]
fn integers() {
    assert_eq!(decoded(":0\r\n"), Value::Integer(0));
    assert_eq!(decoded(":1000\r\n"), Value::Integer(1000));
    assert_eq!(decoded(":-1\r\n"), Value::Integer(-1));
    assert_eq!(decoded(":007\r\n"), Value::Integer(7));
    assert_eq!(decoded(":-0\r\n"), Value::Integer(0));
    assert_eq!(decoded(":9223372036854775807\r\n"), Value::Integer(i64::MAX));
    assert_eq!(decoded(":-9223372036854775808\r\n"), Value::Integer(i64::MIN));
}

#[test]
fn integer_out_of_range_is_numeric_overflow() {
    assert_eq!(refused(":9223372036854775808\r\n"), Error::NumericOverflow);
    assert_eq!(refused(":-9223372036854775809\r\n"), Error::NumericOverflow);
    assert_eq!(refused(":18446744073709551616\r\n"), Error::NumericOverflow);
    assert_eq!(
        refused(":-99999999999999999999999999999999\r\n"),
        Error::NumericOverflow
    );
}

#[test]
fn integer_that_is_no_number_is_malformed() {
    assert_eq!(refused(":\r\n"), Error::MalformedGrammar);
    assert_eq!(refused(":-\r\n"), Error::MalformedGrammar);
    assert_eq!(refused(":+1\r\n"), Error::MalformedGrammar);
    assert_eq!(refused(":12a\r\n"), Error::MalformedGrammar);
    assert_eq!(refused(": 1\r\n"), Error::MalformedGrammar);
    assert_eq!(refused(":1.5\r\n"), Error::MalformedGrammar);
}

#[test]
fn bulk_strings() {
    assert_eq!(decoded("$-1\r\n"), Value::Null);
    assert_eq!(decoded("$0\r\n\r\n"), Value::BulkString(text("")));
    assert_eq!(decoded("$5\r\nhello\r\n"), Value::BulkString(text("hello")));
    assert_ne!(decoded("$0\r\n\r\n"), Value::Null);
}

#[test]
fn bulk_string_is_binary_safe() {
    let (rest, value) = parse_value(b"$7\r\na\r\nb\0\xff\r\r\n+\r\n").unwrap();
    assert_eq!(value, Value::BulkString(b"a\r\nb\0\xff\r".to_vec()));
    assert_eq!(rest, b"+\r\n");
}

#[test]
fn bulk_string_cut_short_needs_more_data() {
    assert_eq!(refused("$5\r\n"), Error::NeedMoreData);
    assert_eq!(refused("$5\r\nhel"), Error::NeedMoreData);
    assert_eq!(refused("$5\r\nhello"), Error::NeedMoreData);
    assert_eq!(refused("$5\r\nhello\r"), Error::NeedMoreData);
}

#[test]
fn bulk_string_without_terminator_is_length_mismatch() {
    assert_eq!(refused("$5\r\nhelloXY"), Error::LengthMismatch);
    assert_eq!(refused("$5\r\nhello\rX"), Error::LengthMismatch);
    assert_eq!(refused("$3\r\nhello\r\n"), Error::LengthMismatch);
    assert_eq!(refused("$6\r\nhello\r\n+"), Error::LengthMismatch);
}

#[test]
fn bulk_length_that_is_no_length_is_malformed() {
    assert_eq!(refused("$-2\r\n"), Error::MalformedGrammar);
    assert_eq!(refused("$\r\n"), Error::MalformedGrammar);
    assert_eq!(refused("$+5\r\nhello\r\n"), Error::MalformedGrammar);
    assert_eq!(refused("$5x\r\nhello\r\n"), Error::MalformedGrammar);
    assert_eq!(
        refused("$-99999999999999999999999999\r\n"),
        Error::MalformedGrammar
    );
}

#[test]
fn bulk_string_above_the_cap_is_payload_too_large() {
    let limits = Limits::new(DEFAULT_MAX_DEPTH, 4);
    assert_eq!(
        parse_value_with(b"$5\r\nhello\r\n", &limits).unwrap_err(),
        Error::PayloadTooLarge
    );
    let (_, value) = parse_value_with(b"$4\r\nhell\r\n", &limits).unwrap();
    assert_eq!(value, Value::BulkString(text("hell")));
}

#[test]
fn payload_too_large_is_said_on_the_header_alone() {
    let limits = Limits::new(DEFAULT_MAX_DEPTH, 1024);
    assert_eq!(
        parse_value_with(b"$1025\r\n", &limits).unwrap_err(),
        Error::PayloadTooLarge
    );
    assert_eq!(refused("$536870913\r\n"), Error::PayloadTooLarge);
    assert_eq!(refused("$536870912\r\n"), Error::NeedMoreData);
    assert_eq!(
        refused("$99999999999999999999999999999999\r\n"),
        Error::PayloadTooLarge
    );
    assert_eq!(refused("!536870913\r\n"), Error::PayloadTooLarge);
    assert_eq!(refused("=536870913\r\n"), Error::PayloadTooLarge);
}

#[test]
fn arrays() {
    assert_eq!(decoded("*-1\r\n"), Value::Null);
    assert_eq!(decoded("*0\r\n"), Value::Array(vec![]));
    assert_eq!(
        decoded("*2\r\n:1\r\n:2\r\n"),
        Value::Array(vec![Value::Integer(1), Value::Integer(2)])
    );
}

#[test]
fn array_of_mixed_and_nested_values() {
    assert_eq!(
        decoded("*3\r\n$5\r\nhello\r\n*2\r\n+a\r\n_\r\n#t\r\n"),
        Value::Array(vec![
            Value::BulkString(text("hello")),
            Value::Array(vec![Value::SimpleString(text("a")), Value::Null]),
            Value::Boolean(true),
        ])
    );
}

#[test]
fn array_cut_short_needs_more_data() {
    assert_eq!(refused("*2\r\n"), Error::NeedMoreData);
    assert_eq!(refused("*2\r\n:1\r\n"), Error::NeedMoreData);
    assert_eq!(refused("*2\r\n:1\r\n:2"), Error::NeedMoreData);
}

#[test]
fn array_with_a_bad_element_fails_as_the_element_does() {
    assert_eq!(refused("*2\r\n:1\r\n?\r\n"), Error::UnknownTypeTag);
    assert_eq!(refused("*2\r\n:x\r\n:2\r\n"), Error::MalformedGrammar);
    assert_eq!(refused("*3\r\n:1\r\n:x\r\n"), Error::MalformedGrammar);
}

#[test]
fn count_that_is_no_count_is_refused() {
    assert_eq!(refused("*-2\r\n"), Error::MalformedGrammar);
    assert_eq!(refused("*x\r\n"), Error::MalformedGrammar);
    assert_eq!(
        refused("*99999999999999999999999999\r\n"),
        Error::NumericOverflow
    );
    assert_eq!(refused("*18446744073709551616\r\n"), Error::NumericOverflow);
    assert_eq!(refused("*18446744073709551615\r\n"), Error::NeedMoreData);
}

fn nested_arrays(levels: usize) -> Vec<u8> {
    let mut bytes = Vec::new();
    for _ in 0..levels {
        bytes.extend_from_slice(b"*1\r\n");
    }
    bytes.extend_from_slice(b":1\r\n");
    bytes
}

#[test]
fn nesting_up_to_the_limit_is_decoded() {
    let bytes = nested_arrays(64);
    let (rest, mut value) = parse_value(&bytes).unwrap();
    assert_eq!(rest, b"");
    for _ in 0..64 {
        value = match value {
            Value::Array(mut items) => {
                assert_eq!(items.len(), 1);
                items.pop().unwrap()
            }
            other => panic!("not an array: {:?}", other),
        };
    }
    assert_eq!(value, Value::Integer(1));
}

#[test]
fn nesting_beyond_the_limit_is_recursion_limit_exceeded() {
    assert_eq!(
        parse_value(&nested_arrays(65)).unwrap_err(),
        Error::RecursionLimitExceeded
    );
    assert_eq!(
        parse_value(&nested_arrays(100_000)).unwrap_err(),
        Error::RecursionLimitExceeded
    );
}

#[test]
fn the_nesting_limit_is_configurable() {
    let flat = Limits::new(0, 1024);
    assert_eq!(
        parse_value_with(b":1\r\n", &flat).unwrap().1,
        Value::Integer(1)
    );
    assert_eq!(
        parse_value_with(b"*0\r\n", &flat).unwrap_err(),
        Error::RecursionLimitExceeded
    );
    assert_eq!(parse_value_with(b"*-1\r\n", &flat).unwrap().1, Value::Null);
    let two = Limits::new(2, 1024);
    assert!(parse_value_with(&nested_arrays(2), &two).is_ok());
    assert_eq!(
        parse_value_with(&nested_arrays(3), &two).unwrap_err(),
        Error::RecursionLimitExceeded
    );
    assert_eq!(
        parse_value_with(b"%1\r\n+k\r\n~1\r\n>0\r\n", &two).unwrap_err(),
        Error::RecursionLimitExceeded
    );
}

#[test]
fn null() {
    assert_eq!(decoded("_\r\n"), Value::Null);
    assert_eq!(refused("_x\r\n"), Error::MalformedGrammar);
}

#[test]
fn booleans() {
    assert_eq!(decoded("#t\r\n"), Value::Boolean(true));
    assert_eq!(decoded("#f\r\n"), Value::Boolean(false));
    assert_eq!(refused("#\r\n"), Error::MalformedGrammar);
    assert_eq!(refused("#T\r\n"), Error::MalformedGrammar);
    assert_eq!(refused("#tt\r\n"), Error::MalformedGrammar);
    assert_eq!(refused("#1\r\n"), Error::MalformedGrammar);
}

#[test]
fn doubles_keep_their_literal() {
    for literal in [
        "0", "1.23", "-1.5", "+10", "10e3", "1.5E-3", "-2.5e+10", "007.250", "inf", "-inf", "nan",
    ] {
        let input = format!(",{}\r\n", literal);
        assert_eq!(decoded(&input), Value::Double(text(literal)));
    }
}

#[test]
fn double_that_is_no_literal_is_malformed() {
    for literal in [
        "", "-", ".", "1.", ".5", "1e", "1e+", "1.5.2", "1e5e5", "abc", "+inf", "Inf", "NaN",
        "infinity", "1 ", " 1", "0x10", "1,5", "--1",
    ] {
        let input = format!(",{}\r\n", literal);
        assert_eq!(refused(&input), Error::MalformedGrammar, "{}", literal);
    }
}

#[test]
fn big_numbers() {
    let digits = "3492890328409238509324850943850943825024385";
    assert_eq!(
        decoded(&format!("({}\r\n", digits)),
        Value::BigNumber(BigNumber::from_decimal(digits.as_bytes()).unwrap())
    );
    assert_eq!(
        decoded("(-12345678901234567890123\r\n"),
        Value::BigNumber(BigNumber::from_decimal(b"-12345678901234567890123").unwrap())
    );
    assert_eq!(decoded("(7\r\n"), Value::BigNumber(BigNumber::from_i64(7)));
    assert_eq!(decoded("(+7\r\n"), Value::BigNumber(BigNumber::from_i64(7)));
    assert_eq!(decoded("(-007\r\n"), Value::BigNumber(BigNumber::from_i64(-7)));
    assert_eq!(decoded("(-0\r\n"), Value::BigNumber(BigNumber::from_i64(0)));
    assert_eq!(decoded("(000\r\n"), Value::BigNumber(BigNumber::from_i64(0)));
}

#[test]
fn big_number_that_is_no_number_is_malformed() {
    assert_eq!(refused("(\r\n"), Error::MalformedGrammar);
    assert_eq!(refused("(-\r\n"), Error::MalformedGrammar);
    assert_eq!(refused("(12a\r\n"), Error::MalformedGrammar);
    assert_eq!(refused("(+-1\r\n"), Error::MalformedGrammar);
    assert_eq!(refused("(1.0\r\n"), Error::MalformedGrammar);
}

#[test]
fn bulk_errors() {
    assert_eq!(
        decoded("!21\r\nSYNTAX invalid syntax\r\n"),
        Value::BulkError(text("SYNTAX invalid syntax"))
    );
    assert_eq!(decoded("!0\r\n\r\n"), Value::BulkError(text("")));
    assert_eq!(refused("!-1\r\n"), Error::MalformedGrammar);
    assert_eq!(refused("!3\r\nabcd\r\n"), Error::LengthMismatch);
}

#[test]
fn verbatim_strings() {
    assert_eq!(
        decoded("=15\r\ntxt:Some string\r\n"),
        Value::VerbatimString(*b"txt", text("Some string"))
    );
    assert_eq!(
        decoded("=4\r\nmkd:\r\n"),
        Value::VerbatimString(*b"mkd", text(""))
    );
    assert_eq!(
        decoded("=6\r\n\r\n::\r\n\r\n"),
        Value::VerbatimString(*b"\r\n:", text("\r\n"))
    );
}

#[test]
fn verbatim_string_without_its_prefix_is_malformed() {
    assert_eq!(refused("=-1\r\n"), Error::MalformedGrammar);
    assert_eq!(refused("=3\r\ntxt\r\n"), Error::MalformedGrammar);
    assert_eq!(refused("=0\r\n\r\n"), Error::MalformedGrammar);
    assert_eq!(refused("=5\r\ntxtXa\r\n"), Error::MalformedGrammar);
    assert_eq!(refused("=5\r\ntxt:abc\r\n"), Error::LengthMismatch);
}

#[test]
fn maps_keep_their_pairs_in_order() {
    assert_eq!(
        decoded("%2\r\n+first\r\n:1\r\n+second\r\n:2\r\n"),
        Value::MapOf(vec![
            (Value::SimpleString(text("first")), Value::Integer(1)),
            (Value::SimpleString(text("second")), Value::Integer(2)),
        ])
    );
    assert_eq!(decoded("%0\r\n"), Value::MapOf(vec![]));
    assert_eq!(decoded("%-1\r\n"), Value::Null);
    assert_eq!(refused("%1\r\n+key\r\n"), Error::NeedMoreData);
    assert_eq!(refused("%1\r\n+key\r\n?"), Error::UnknownTypeTag);
}

#[test]
fn map_keeps_duplicate_keys() {
    assert_eq!(
        decoded("%2\r\n+k\r\n:1\r\n+k\r\n:2\r\n"),
        Value::MapOf(vec![
            (Value::SimpleString(text("k")), Value::Integer(1)),
            (Value::SimpleString(text("k")), Value::Integer(2)),
        ])
    );
}

#[test]
fn sets_keep_their_duplicates() {
    assert_eq!(
        decoded("~3\r\n:1\r\n:1\r\n+a\r\n"),
        Value::SetOf(vec![
            Value::Integer(1),
            Value::Integer(1),
            Value::SimpleString(text("a")),
        ])
    );
    assert_eq!(decoded("~0\r\n"), Value::SetOf(vec![]));
    assert_eq!(decoded("~-1\r\n"), Value::Null);
}

#[test]
fn push_messages() {
    assert_eq!(
        decoded(">2\r\n+message\r\n$5\r\nhello\r\n"),
        Value::Push(vec![
            Value::SimpleString(text("message")),
            Value::BulkString(text("hello")),
        ])
    );
    assert_eq!(decoded(">-1\r\n"), Value::Null);
}

#[test]
fn aggregates_of_one_shape_are_different_values() {
    assert_ne!(decoded("*0\r\n"), decoded("~0\r\n"));
    assert_ne!(decoded("*0\r\n"), decoded(">0\r\n"));
    assert_ne!(decoded("+a\r\n"), decoded("-a\r\n"));
    assert_ne!(decoded("$1\r\na\r\n"), decoded("!1\r\na\r\n"));
}
