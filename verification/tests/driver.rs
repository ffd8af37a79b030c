use resp_codec::cursor::ByteCursor;
use resp_codec::encode;
use resp_codec::Driver;
use resp_codec::Error;
use resp_codec::Limits;
use resp_codec::Phase;
use resp_codec::Step;
use resp_codec::Value;

fn bytes(s: &str) -> Vec<u8> {
    s.as_bytes().to_vec()
}

fn nested() -> Value {
    Value::Array(vec![
        Value::BulkString(b"he\r\nllo".to_vec()),
        Value::MapOf(vec![(
            Value::SimpleString(bytes("key")),
            Value::SetOf(vec![Value::Integer(-12), Value::Double(bytes("1.5e3"))]),
        )]),
        Value::VerbatimString(*b"txt", bytes("note")),
        Value::Null,
    ])
}

#[test]
fn a_fresh_driver_awaits_a_tag() {
    let driver = Driver::new(Limits::default());
    assert_eq!(driver.phase(), Phase::AwaitingTag);
    assert_eq!(driver.failure(), None);
    assert_eq!(driver.pending_len(), 0);
    assert_eq!(driver.limits(), Limits::default());
    assert_eq!(Limits::default(), Limits::new(64, 512 * 1024 * 1024));
}

#[test]
fn a_whole_value_in_one_chunk() {
    let mut driver = Driver::new(Limits::default());
    assert_eq!(
        driver.feed(b"$5\r\nhello\r\n"),
        Step::Value(Value::BulkString(bytes("hello")))
    );
    assert_eq!(driver.phase(), Phase::Complete);
    assert_eq!(driver.pending_len(), 0);
    assert_eq!(driver.poll(), Step::NeedMoreData);
    assert_eq!(driver.phase(), Phase::AwaitingTag);
}

#[test]
fn split_in_two_at_every_index() {
    let value = nested();
    let wire = encode(&value);
    for cut in 0..=wire.len() {
        let mut whole = Driver::new(Limits::default());
        let expected = whole.feed(&wire);
        assert_eq!(expected, Step::Value(value.clone()));

        let mut halves = Driver::new(Limits::default());
        let first = halves.feed(&wire[..cut]);
        let second = halves.feed(&wire[cut..]);
        if cut < wire.len() {
            assert_eq!(first, Step::NeedMoreData, "cut at {}", cut);
            assert_eq!(second, expected, "cut at {}", cut);
        } else {
            assert_eq!(first, expected);
            assert_eq!(second, Step::NeedMoreData);
        }
        assert_eq!(halves.pending_len(), 0);
        assert_eq!(whole.pending_len(), 0);
    }
}

#[test]
fn one_byte_at_a_time() {
    let value = nested();
    let wire = encode(&value);
    let mut driver = Driver::new(Limits::default());
    for (i, byte) in wire.iter().enumerate() {
        let step = driver.feed(&[*byte]);
        if i + 1 < wire.len() {
            assert_eq!(step, Step::NeedMoreData);
            assert_eq!(driver.phase(), Phase::ParsingBody);
            assert_eq!(driver.pending_len(), i + 1);
        } else {
            assert_eq!(step, Step::Value(value.clone()));
            assert_eq!(driver.phase(), Phase::Complete);
            assert_eq!(driver.pending_len(), 0);
        }
    }
}

#[test]
fn split_in_three_at_every_pair_of_indices() {
    let value = Value::Array(vec![
        Value::BulkString(bytes("ab")),
        Value::Integer(7),
    ]);
    let wire = encode(&value);
    for first in 0..wire.len() {
        for second in first..wire.len() {
            let mut driver = Driver::new(Limits::default());
            assert_eq!(driver.feed(&wire[..first]), Step::NeedMoreData);
            assert_eq!(driver.feed(&wire[first..second]), Step::NeedMoreData);
            assert_eq!(driver.feed(&wire[second..]), Step::Value(value.clone()));
        }
    }
}

#[test]
fn values_in_one_chunk_come_out_one_by_one() {
    let mut driver = Driver::new(Limits::default());
    assert_eq!(
        driver.feed(b"+one\r\n:2\r\n$5\r\nth"),
        Step::Value(Value::SimpleString(bytes("one")))
    );
    assert_eq!(driver.phase(), Phase::Complete);
    assert_eq!(driver.pending_len(), 10);
    assert_eq!(driver.poll(), Step::Value(Value::Integer(2)));
    assert_eq!(driver.pending_len(), 6);
    assert_eq!(driver.poll(), Step::NeedMoreData);
    assert_eq!(driver.phase(), Phase::ParsingBody);
    assert_eq!(
        driver.feed(b"ree\r\n"),
        Step::Value(Value::BulkString(bytes("three")))
    );
    assert_eq!(driver.phase(), Phase::Complete);
    assert_eq!(driver.poll(), Step::NeedMoreData);
    assert_eq!(driver.phase(), Phase::AwaitingTag);
}

#[test]
fn a_chunk_that_ends_one_value_and_begins_the_next() {
    let mut driver = Driver::new(Limits::default());
    assert_eq!(driver.feed(b"*2\r\n:1\r"), Step::NeedMoreData);
    assert_eq!(
        driver.feed(b"\n:2\r\n+ne"),
        Step::Value(Value::Array(vec![Value::Integer(1), Value::Integer(2)]))
    );
    assert_eq!(driver.pending_len(), 3);
    assert_eq!(
        driver.feed(b"xt\r\n"),
        Step::Value(Value::SimpleString(bytes("next")))
    );
}

#[test]
fn an_empty_chunk_changes_nothing() {
    let mut driver = Driver::new(Limits::default());
    assert_eq!(driver.feed(b""), Step::NeedMoreData);
    assert_eq!(driver.phase(), Phase::AwaitingTag);
    assert_eq!(driver.feed(b"+O"), Step::NeedMoreData);
    assert_eq!(driver.feed(b""), Step::NeedMoreData);
    assert_eq!(driver.phase(), Phase::ParsingBody);
    assert_eq!(driver.pending_len(), 2);
}

#[test]
fn a_fatal_error_is_final() {
    let mut driver = Driver::new(Limits::default());
    assert_eq!(driver.feed(b"+OK\r\n?"), Step::Value(Value::SimpleString(bytes("OK"))));
    assert_eq!(driver.poll(), Step::Failed(Error::UnknownTypeTag));
    assert_eq!(driver.phase(), Phase::Failed);
    assert_eq!(driver.failure(), Some(Error::UnknownTypeTag));
    assert_eq!(driver.pending_len(), 0);
    assert_eq!(driver.feed(b"+OK\r\n"), Step::Failed(Error::UnknownTypeTag));
    assert_eq!(driver.poll(), Step::Failed(Error::UnknownTypeTag));
    assert_eq!(driver.phase(), Phase::Failed);
    assert_eq!(driver.pending_len(), 0);
}

#[test]
fn every_fatal_kind_fails_the_driver() {
    let cases: [(&[u8], Error); 6] = [
        (b"+a\nb\r\n", Error::MalformedGrammar),
        (b"$2\r\nabcd", Error::LengthMismatch),
        (b"@\r\n", Error::UnknownTypeTag),
        (b"*1\r\n*1\r\n*1\r\n:1\r\n", Error::RecursionLimitExceeded),
        (b"$9\r\n", Error::PayloadTooLarge),
        (b":99999999999999999999\r\n", Error::NumericOverflow),
    ];
    for (input, kind) in cases {
        assert!(kind.is_fatal());
        let mut driver = Driver::new(Limits::new(2, 8));
        assert_eq!(driver.feed(input), Step::Failed(kind));
        assert_eq!(driver.phase(), Phase::Failed);
        assert_eq!(driver.failure(), Some(kind));
    }
    assert!(!Error::NeedMoreData.is_fatal());
}

#[test]
fn a_failure_is_found_wherever_the_chunks_are_cut() {
    let wire = b"*2\r\n:1\r\n:x\r\n";
    for cut in 0..=wire.len() {
        let mut driver = Driver::new(Limits::default());
        let first = driver.feed(&wire[..cut]);
        let second = driver.feed(&wire[cut..]);
        assert!(first == Step::NeedMoreData || first == Step::Failed(Error::MalformedGrammar));
        assert_eq!(second, Step::Failed(Error::MalformedGrammar));
    }
}

#[test]
fn the_driver_decodes_under_its_limits() {
    let mut driver = Driver::new(Limits::new(1, 4));
    assert_eq!(
        driver.feed(b"*1\r\n$4\r\nabcd\r\n"),
        Step::Value(Value::Array(vec![Value::BulkString(bytes("abcd"))]))
    );
    assert_eq!(driver.feed(b"$5\r\n"), Step::Failed(Error::PayloadTooLarge));
}

#[test]
fn cursor_discards_what_was_consumed() {
    let mut cursor = ByteCursor::new();
    assert_eq!(cursor.held_len(), 0);
    cursor.append(&[7u8; 100]);
    assert_eq!(cursor.held_len(), 100);
    cursor.advance(10);
    assert_eq!(cursor.pending_len(), 90);
    assert!(cursor.held_len() <= 180);
    cursor.advance(80);
    assert_eq!(cursor.pending_len(), 10);
    assert!(cursor.held_len() <= 20);
    for _ in 0..1000 {
        cursor.append(&[1u8; 64]);
        cursor.advance(64);
        assert_eq!(cursor.pending_len(), 10);
        assert!(cursor.held_len() <= 2 * cursor.pending_len() + 128);
    }
    cursor.advance(10);
    assert_eq!(cursor.held_len(), 0);
}

#[test]
fn the_driver_keeps_no_bytes_of_values_it_gave() {
    let mut driver = Driver::new(Limits::default());
    for round in 0..1000 {
        assert_eq!(driver.feed(b"$10\r\n01234"), Step::NeedMoreData);
        assert_eq!(driver.pending_len(), 10);
        assert_eq!(
            driver.feed(b"56789\r\n"),
            Step::Value(Value::BulkString(bytes("0123456789"))),
            "round {}",
            round
        );
        assert_eq!(driver.pending_len(), 0);
    }
}

#[test]
fn cursor_tracks_pending_bytes() {
    let mut cursor = ByteCursor::new();
    assert_eq!(cursor.pending(), b"");
    assert_eq!(cursor.pending_len(), 0);
    cursor.append(b"hello ");
    cursor.append(b"world");
    assert_eq!(cursor.pending(), b"hello world");
    assert_eq!(cursor.pending_len(), 11);
    cursor.advance(2);
    assert_eq!(cursor.pending(), b"llo world");
    cursor.advance(4);
    assert_eq!(cursor.pending(), b"world");
    cursor.append(b"!");
    assert_eq!(cursor.pending(), b"world!");
    cursor.advance(0);
    assert_eq!(cursor.pending(), b"world!");
    cursor.advance(100);
    assert_eq!(cursor.pending(), b"");
    cursor.append(b"again");
    assert_eq!(cursor.pending(), b"again");
    cursor.clear();
    assert_eq!(cursor.pending_len(), 0);
}
