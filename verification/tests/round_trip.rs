use resp_codec::encode;
use resp_codec::parse_value;
use resp_codec::parse_value_with;
use resp_codec::BigNumber;
use resp_codec::Error;
use resp_codec::Limits;
use resp_codec::Value;

fn bytes(s: &str) -> Vec<u8> {
    s.as_bytes().to_vec()
}

fn sample() -> Vec<Value> {
    vec![
        Value::SimpleString(bytes("")),
        Value::SimpleString(bytes("OK")),
        Value::SimpleError(bytes("ERR wrong number of arguments")),
        Value::Integer(0),
        Value::Integer(-1),
        Value::Integer(i64::MAX),
        Value::Integer(i64::MIN),
        Value::BulkString(bytes("")),
        Value::BulkString(b"\r\n\0\xff+:$*".to_vec()),
        Value::Null,
        Value::Boolean(true),
        Value::Boolean(false),
        Value::Double(bytes("3.14")),
        Value::Double(bytes("-1e-9")),
        Value::Double(bytes("inf")),
        Value::Double(bytes("-inf")),
        Value::Double(bytes("nan")),
        Value::BigNumber(BigNumber::from_i64(0)),
        Value::BigNumber(BigNumber::from_decimal(b"-123456789012345678901234567890").unwrap()),
        Value::BulkError(bytes("SYNTAX invalid syntax")),
        Value::VerbatimString(*b"txt", bytes("Some string")),
        Value::VerbatimString(*b"mkd", bytes("")),
        Value::Array(vec![]),
        Value::Array(vec![Value::Integer(1), Value::Integer(2), Value::Integer(1)]),
        Value::MapOf(vec![
            (Value::SimpleString(bytes("b")), Value::Integer(2)),
            (Value::SimpleString(bytes("a")), Value::Integer(1)),
            (Value::SimpleString(bytes("b")), Value::Integer(3)),
        ]),
        Value::SetOf(vec![Value::Integer(5), Value::Integer(5), Value::Null]),
        Value::Push(vec![Value::SimpleString(bytes("pubsub")), Value::BulkString(bytes("x"))]),
        Value::Array(vec![
            Value::MapOf(vec![(
                Value::BulkString(bytes("k")),
                Value::SetOf(vec![Value::Push(vec![Value::Array(vec![])])]),
            )]),
            Value::Array(vec![Value::Null, Value::Null]),
        ]),
    ]
}

#[test]
fn decoding_the_encoding_gives_the_value_back() {
    for value in sample() {
        let wire = encode(&value);
        let (rest, back) = parse_value(&wire).unwrap();
        assert_eq!(rest, b"", "{:?}", value);
        assert_eq!(back, value);
    }
}

#[test]
fn decoding_the_encoding_leaves_what_follows() {
    for value in sample() {
        let mut wire = encode(&value);
        let length = wire.len();
        wire.extend_from_slice(b"+next\r\n$");
        let (rest, back) = parse_value(&wire).unwrap();
        assert_eq!(rest, &wire[length..]);
        assert_eq!(back, value);
    }
}

#[test]
fn order_of_elements_and_pairs_is_kept() {
    let forward = Value::Array(vec![Value::Integer(1), Value::Integer(2)]);
    let backward = Value::Array(vec![Value::Integer(2), Value::Integer(1)]);
    assert_ne!(encode(&forward), encode(&backward));
    assert_eq!(parse_value(&encode(&forward)).unwrap().1, forward);
    assert_eq!(parse_value(&encode(&backward)).unwrap().1, backward);
    let pairs = Value::MapOf(vec![
        (Value::Integer(2), Value::Integer(20)),
        (Value::Integer(1), Value::Integer(10)),
    ]);
    assert_eq!(parse_value(&encode(&pairs)).unwrap().1, pairs);
}

#[test]
fn a_value_beyond_the_limits_does_not_come_back() {
    let limits = Limits::new(1, 3);
    let deep = Value::Array(vec![Value::Array(vec![])]);
    assert_eq!(
        parse_value_with(&encode(&deep), &limits).unwrap_err(),
        Error::RecursionLimitExceeded
    );
    let long = Value::BulkString(bytes("four"));
    assert_eq!(
        parse_value_with(&encode(&long), &limits).unwrap_err(),
        Error::PayloadTooLarge
    );
    let fits = Value::Array(vec![Value::BulkString(bytes("abc"))]);
    assert_eq!(parse_value_with(&encode(&fits), &limits).unwrap().1, fits);
}

#[test]
fn a_line_text_with_a_break_does_not_come_back() {
    let value = Value::SimpleString(bytes("a\r\nb"));
    let wire = encode(&value);
    assert_eq!(wire, b"+a\r\nb\r\n");
    let (rest, back) = parse_value(&wire).unwrap();
    assert_eq!(back, Value::SimpleString(bytes("a")));
    assert_eq!(rest, b"b\r\n");
}

#[test]
fn every_part_of_an_encoding_needs_more_data() {
    for value in sample() {
        let wire = encode(&value);
        for cut in 0..wire.len() {
            assert_eq!(
                parse_value(&wire[..cut]).unwrap_err(),
                Error::NeedMoreData,
                "{:?} cut at {}",
                value,
                cut
            );
        }
    }
}

#[test]
fn a_clone_is_equal_and_encodes_alike() {
    for value in sample() {
        let copy = value.clone();
        assert_eq!(copy, value);
        assert_eq!(encode(&copy), encode(&value));
    }
}

#[test]
fn fits_tells_what_comes_back() {
    let mut values = sample();
    values.push(Value::SimpleString(bytes("a\nb")));
    values.push(Value::SimpleError(bytes("a\rb")));
    values.push(Value::Double(bytes("abc")));
    values.push(Value::Double(bytes("")));
    values.push(Value::Array(vec![Value::Double(bytes("1.")), Value::Null]));
    for limits in [Limits::default(), Limits::new(2, 8), Limits::new(0, 0), Limits::new(64, 3)] {
        for value in &values {
            let comes_back = match parse_value_with(&encode(value), &limits) {
                Ok((rest, back)) => rest.is_empty() && back == *value,
                Err(_) => false,
            };
            assert_eq!(value.fits(&limits), comes_back, "{:?} under {:?}", value, limits);
        }
    }
}

#[test]
fn fits_counts_the_prefix_of_a_verbatim_string() {
    let value = Value::VerbatimString(*b"txt", bytes("abcd"));
    assert!(value.fits(&Limits::new(0, 8)));
    assert!(!value.fits(&Limits::new(0, 7)));
    assert!(!Value::VerbatimString(*b"txt", bytes("")).fits(&Limits::new(0, 3)));
    assert!(Value::VerbatimString(*b"txt", bytes("")).fits(&Limits::new(0, 4)));
}

#[test]
fn fits_counts_every_level_of_nesting() {
    let flat = Value::Array(vec![]);
    let deep = Value::MapOf(vec![(Value::Null, Value::SetOf(vec![Value::Push(vec![])]))]);
    assert!(!flat.fits(&Limits::new(0, 0)));
    assert!(flat.fits(&Limits::new(1, 0)));
    assert!(!deep.fits(&Limits::new(2, 0)));
    assert!(deep.fits(&Limits::new(3, 0)));
    assert!(Value::Null.fits(&Limits::new(0, 0)));
}
