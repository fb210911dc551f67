use redis_starter_rust::resp::{
    decode_array, decode_bulk_string, decode_error, decode_integer, decode_message,
    decode_simple_string, read_line, read_number, ProtocolError, Value,
};

fn bulk(text: &str) -> Value {
    Value::BulkString(text.to_string())
}

fn samples() -> Vec<Value> {
    vec![
        Value::SimpleString("OK".to_string()),
        Value::SimpleString(String::new()),
        Value::Error("ERR unknown command".to_string()),
        Value::Integer(0),
        Value::Integer(42),
        Value::Integer(-7),
        Value::Integer(i64::MAX),
        Value::Integer(i64::MIN),
        bulk("hey"),
        bulk(""),
        bulk("two\r\nlines"),
        bulk("gr\u{fc}\u{df}e \u{4e16}\u{754c} \u{1f980}"),
        Value::Null,
        Value::Array(vec![]),
        Value::Array(vec![bulk("SET"), bulk("foo"), bulk("bar")]),
        Value::Array(vec![
            Value::Integer(1),
            Value::Array(vec![Value::Null, Value::SimpleString("x".to_string())]),
            Value::Array(vec![]),
            bulk("tail"),
        ]),
    ]
}

#[test]
fn decodes_a_simple_string() {
    let decoded = decode_message(b"+OK\r\n");
    assert_eq!(decoded, Ok(Some((Value::SimpleString("OK".to_string()), 5))));
}

#[test]
fn decodes_an_error_as_an_error() {
    let decoded = decode_message(b"-ERR boom\r\n");
    assert_eq!(decoded, Ok(Some((Value::Error("ERR boom".to_string()), 11))));
}

#[test]
fn decodes_integers_over_the_whole_line() {
    assert_eq!(decode_message(b":0\r\n"), Ok(Some((Value::Integer(0), 4))));
    assert_eq!(decode_message(b":1234\r\n"), Ok(Some((Value::Integer(1234), 7))));
    assert_eq!(decode_message(b":-56\r\n"), Ok(Some((Value::Integer(-56), 6))));
    assert_eq!(decode_message(b":007\r\n"), Ok(Some((Value::Integer(7), 6))));
}

#[test]
fn decodes_a_bulk_string() {
    assert_eq!(decode_message(b"$3\r\nhey\r\n"), Ok(Some((bulk("hey"), 9))));
    assert_eq!(decode_message(b"$0\r\n\r\n"), Ok(Some((bulk(""), 6))));
}

#[test]
fn a_bulk_string_may_hold_line_terminators() {
    assert_eq!(decode_message(b"$4\r\na\r\nb\r\n"), Ok(Some((bulk("a\r\nb"), 10))));
}

#[test]
fn decodes_the_null_bulk_string_from_its_length_line_alone() {
    assert_eq!(decode_message(b"$-1\r\n"), Ok(Some((Value::Null, 5))));
    assert_eq!(decode_message(b"$-1\r\nrest"), Ok(Some((Value::Null, 5))));
}

#[test]
fn decodes_an_array_of_bulk_strings() {
    let decoded = decode_message(b"*2\r\n$4\r\nECHO\r\n$3\r\nhey\r\n");
    assert_eq!(decoded, Ok(Some((Value::Array(vec![bulk("ECHO"), bulk("hey")]), 23))));
}

#[test]
fn decodes_an_empty_array() {
    assert_eq!(decode_message(b"*0\r\n"), Ok(Some((Value::Array(vec![]), 4))));
}

#[test]
fn decodes_nested_arrays_with_exact_byte_counts() {
    let decoded = decode_message(b"*2\r\n*1\r\n:1\r\n+x\r\n");
    let expected = Value::Array(vec![
        Value::Array(vec![Value::Integer(1)]),
        Value::SimpleString("x".to_string()),
    ]);
    assert_eq!(decoded, Ok(Some((expected, 16))));
}

#[test]
fn consumed_count_stops_at_the_end_of_the_first_message() {
    let decoded = decode_message(b"+OK\r\n+NEXT\r\n");
    assert_eq!(decoded, Ok(Some((Value::SimpleString("OK".to_string()), 5))));
}

#[test]
fn an_empty_buffer_is_incomplete() {
    assert_eq!(decode_message(b""), Ok(None));
    assert_eq!(decode_simple_string(b""), Ok(None));
    assert_eq!(decode_error(b""), Ok(None));
    assert_eq!(decode_integer(b""), Ok(None));
    assert_eq!(decode_bulk_string(b""), Ok(None));
    assert_eq!(decode_array(b""), Ok(None));
}

#[test]
fn a_line_without_terminator_is_incomplete() {
    assert_eq!(decode_message(b"+OK"), Ok(None));
    assert_eq!(decode_message(b"+OK\r"), Ok(None));
    assert_eq!(decode_message(b":12"), Ok(None));
    assert_eq!(decode_message(b"$3"), Ok(None));
    assert_eq!(decode_message(b"*2\r"), Ok(None));
}

#[test]
fn a_short_bulk_payload_is_incomplete() {
    assert_eq!(decode_message(b"$3\r\n"), Ok(None));
    assert_eq!(decode_message(b"$3\r\nhe"), Ok(None));
    assert_eq!(decode_message(b"$3\r\nhey"), Ok(None));
    assert_eq!(decode_message(b"$3\r\nhey\r"), Ok(None));
}

#[test]
fn an_array_with_an_incomplete_child_is_incomplete() {
    assert_eq!(decode_message(b"*2\r\n$4\r\nECHO\r\n"), Ok(None));
    assert_eq!(decode_message(b"*2\r\n$4\r\nECHO\r\n$3\r\nhe"), Ok(None));
    assert_eq!(decode_message(b"*1\r\n"), Ok(None));
}

#[test]
fn rejects_an_unknown_type_byte() {
    assert_eq!(decode_message(b"?\r\n"), Err(ProtocolError::UnknownType));
    assert_eq!(decode_message(b"PING\r\n"), Err(ProtocolError::UnknownType));
}

#[test]
fn rejects_an_integer_that_is_no_number() {
    assert_eq!(decode_message(b":12a\r\n"), Err(ProtocolError::InvalidInteger));
    assert_eq!(decode_message(b":\r\n"), Err(ProtocolError::InvalidInteger));
    assert_eq!(decode_message(b":-\r\n"), Err(ProtocolError::InvalidInteger));
    assert_eq!(decode_message(b":+5\r\n"), Err(ProtocolError::InvalidInteger));
    assert_eq!(decode_message(b": 5\r\n"), Err(ProtocolError::InvalidInteger));
}

#[test]
fn rejects_an_integer_beyond_64_bits() {
    assert_eq!(decode_message(b":9223372036854775807\r\n"), Ok(Some((Value::Integer(i64::MAX), 22))));
    assert_eq!(decode_message(b":9223372036854775808\r\n"), Err(ProtocolError::InvalidInteger));
    assert_eq!(decode_message(b":-9223372036854775808\r\n"), Ok(Some((Value::Integer(i64::MIN), 23))));
    assert_eq!(decode_message(b":-9223372036854775809\r\n"), Err(ProtocolError::InvalidInteger));
    assert_eq!(
        decode_message(b":99999999999999999999999999\r\n"),
        Err(ProtocolError::InvalidInteger)
    );
}

#[test]
fn rejects_a_bad_bulk_length() {
    assert_eq!(decode_message(b"$abc\r\n"), Err(ProtocolError::InvalidBulkString));
    assert_eq!(decode_message(b"$\r\n"), Err(ProtocolError::InvalidBulkString));
    assert_eq!(decode_message(b"$-2\r\n"), Err(ProtocolError::InvalidBulkString));
    assert_eq!(decode_message(b"$-10\r\nxx\r\n"), Err(ProtocolError::InvalidBulkString));
}

#[test]
fn a_bulk_string_is_incomplete_without_its_terminator() {
    assert_eq!(decode_message(b"$3\r\nheyXX"), Ok(None));
    assert_eq!(decode_message(b"$3\r\nheyyo\r\n"), Ok(None));
    assert_eq!(decode_message(b"$3\r\nhey\n\r"), Ok(None));
}

#[test]
fn rejects_text_that_is_not_utf8() {
    assert_eq!(decode_message(b"$2\r\n\xff\xfe\r\n"), Err(ProtocolError::InvalidText));
    assert_eq!(decode_message(b"+\xc3\r\n"), Err(ProtocolError::InvalidText));
    assert_eq!(decode_message(b"-\x80\r\n"), Err(ProtocolError::InvalidText));
}

#[test]
fn rejects_a_bad_array_length() {
    assert_eq!(decode_message(b"*x\r\n"), Err(ProtocolError::InvalidArray));
    assert_eq!(decode_message(b"*-1\r\n"), Err(ProtocolError::InvalidArray));
    assert_eq!(decode_message(b"*\r\n"), Err(ProtocolError::InvalidArray));
}

#[test]
fn an_array_fails_as_its_first_bad_child_does() {
    assert_eq!(decode_message(b"*2\r\n:1\r\n?\r\n"), Err(ProtocolError::UnknownType));
    assert_eq!(decode_message(b"*2\r\n:x\r\n"), Err(ProtocolError::InvalidInteger));
    assert_eq!(decode_message(b"*3\r\n$1\r\na\r\n$-5\r\n"), Err(ProtocolError::InvalidBulkString));
}

#[test]
fn the_typed_decoders_read_past_whatever_byte_comes_first() {
    assert_eq!(
        decode_simple_string(b"+PONG\r\n"),
        Ok(Some((Value::SimpleString("PONG".to_string()), 7)))
    );
    assert_eq!(decode_error(b"-no\r\n"), Ok(Some((Value::Error("no".to_string()), 5))));
    assert_eq!(decode_integer(b":5\r\n"), Ok(Some((Value::Integer(5), 4))));
    assert_eq!(decode_bulk_string(b"$1\r\nx\r\n"), Ok(Some((bulk("x"), 7))));
    assert_eq!(decode_array(b"*1\r\n:9\r\n"), Ok(Some((Value::Array(vec![Value::Integer(9)]), 8))));
}

#[test]
fn read_line_finds_the_first_terminator() {
    assert_eq!(read_line(b"abc\r\ndef\r\n"), Some((&b"abc"[..], 5)));
    assert_eq!(read_line(b"\r\n"), Some((&b""[..], 2)));
    assert_eq!(read_line(b"a\rb\nc\r\n"), Some((&b"a\rb\nc"[..], 7)));
    assert_eq!(read_line(b"abc"), None);
    assert_eq!(read_line(b"abc\r"), None);
    assert_eq!(read_line(b"abc\n"), None);
    assert_eq!(read_line(b""), None);
}

#[test]
fn read_number_reads_signed_decimals() {
    assert_eq!(read_number(b"0"), Some(0));
    assert_eq!(read_number(b"17"), Some(17));
    assert_eq!(read_number(b"-17"), Some(-17));
    assert_eq!(read_number(b"-0"), Some(0));
    assert_eq!(read_number(b"000123"), Some(123));
    assert_eq!(read_number(b"9223372036854775807"), Some(i64::MAX));
    assert_eq!(read_number(b"-9223372036854775808"), Some(i64::MIN));
    assert_eq!(read_number(b"00000000000000000000000000000000000001"), Some(1));
}

#[test]
fn read_number_rejects_what_is_no_number() {
    assert_eq!(read_number(b""), None);
    assert_eq!(read_number(b"-"), None);
    assert_eq!(read_number(b"--1"), None);
    assert_eq!(read_number(b"1-"), None);
    assert_eq!(read_number(b"12x"), None);
    assert_eq!(read_number(b"x12"), None);
    assert_eq!(read_number(b"1.5"), None);
    assert_eq!(read_number(b"/"), None);
    assert_eq!(read_number(b":"), None);
    assert_eq!(read_number(b"9223372036854775808"), None);
    assert_eq!(read_number(b"-9223372036854775809"), None);
    assert_eq!(read_number(b"92233720368547758070"), None);
    assert_eq!(read_number(b"18446744073709551616"), None);
}

#[test]
fn encodes_each_kind_of_value() {
    assert_eq!(Value::SimpleString("OK".to_string()).encode(), "+OK\r\n");
    assert_eq!(Value::Error("ERR x".to_string()).encode(), "-ERR x\r\n");
    assert_eq!(Value::Integer(1000).encode(), ":1000\r\n");
    assert_eq!(Value::Integer(-1).encode(), ":-1\r\n");
    assert_eq!(Value::Integer(0).encode(), ":0\r\n");
    assert_eq!(Value::Integer(i64::MIN).encode(), ":-9223372036854775808\r\n");
    assert_eq!(Value::Integer(i64::MAX).encode(), ":9223372036854775807\r\n");
    assert_eq!(Value::Null.encode(), "$-1\r\n");
    assert_eq!(Value::Array(vec![]).encode(), "*0\r\n");
}

#[test]
fn encodes_a_bulk_string() {
    assert_eq!(bulk("hey").encode().as_bytes(), b"$3\r\nhey\r\n");
    assert_eq!(bulk("").encode().as_bytes(), b"$0\r\n\r\n");
    assert_eq!(bulk("0123456789ab").encode().as_bytes(), b"$12\r\n0123456789ab\r\n");
}

#[test]
fn a_bulk_length_counts_bytes_not_characters() {
    assert_eq!(bulk("\u{e9}").encode().as_bytes(), b"$2\r\n\xc3\xa9\r\n");
    assert_eq!(decode_message(b"$2\r\n\xc3\xa9\r\n"), Ok(Some((bulk("\u{e9}"), 8))));
}

#[test]
fn encodes_an_array_item_after_item() {
    let value = Value::Array(vec![bulk("GET"), Value::Integer(5), Value::Array(vec![Value::Null])]);
    assert_eq!(value.encode(), "*3\r\n$3\r\nGET\r\n:5\r\n*1\r\n$-1\r\n");
}

#[test]
fn encodes_an_array_of_more_than_nine_items() {
    let items: Vec<Value> = (0..12).map(Value::Integer).collect();
    let text = Value::Array(items).encode();
    assert!(text.starts_with("*12\r\n:0\r\n:1\r\n"));
    assert!(text.ends_with(":10\r\n:11\r\n"));
}

#[test]
fn round_trip_gives_the_value_and_the_full_length() {
    for value in samples() {
        let text = value.encode();
        let decoded = decode_message(text.as_bytes());
        assert_eq!(decoded, Ok(Some((value, text.len()))));
    }
}

#[test]
fn round_trip_ignores_what_follows_the_message() {
    for value in samples() {
        let text = value.encode();
        let mut bytes = text.as_bytes().to_vec();
        bytes.extend_from_slice(b"*1\r\n$4\r\nPING\r\n");
        assert_eq!(decode_message(&bytes), Ok(Some((value, text.len()))));
    }
}

#[test]
fn a_status_text_with_a_line_break_does_not_round_trip() {
    let value = Value::SimpleString("a\r\nb".to_string());
    let text = value.encode();
    let decoded = decode_message(text.as_bytes());
    assert_eq!(decoded, Ok(Some((Value::SimpleString("a".to_string()), 4))));
}

#[test]
fn every_proper_prefix_of_a_message_is_incomplete() {
    for value in samples() {
        let text = value.encode();
        let bytes = text.as_bytes();
        for cut in 0..bytes.len() {
            assert_eq!(decode_message(&bytes[..cut]), Ok(None), "cut at {}", cut);
        }
    }
}

#[test]
fn decoding_in_two_chunks_equals_decoding_at_once() {
    for value in samples() {
        let text = value.encode();
        let bytes = text.as_bytes();
        let whole = decode_message(bytes);
        for cut in 0..=bytes.len() {
            let mut buffer: Vec<u8> = bytes[..cut].to_vec();
            let first = decode_message(&buffer);
            if cut < bytes.len() {
                assert_eq!(first, Ok(None));
            }
            buffer.extend_from_slice(&bytes[cut..]);
            assert_eq!(decode_message(&buffer), whole);
        }
    }
}

#[test]
fn more_bytes_do_not_change_an_error() {
    let mut buffer: Vec<u8> = b"*2\r\n:1\r\n:x\r\n".to_vec();
    assert_eq!(decode_message(&buffer), Err(ProtocolError::InvalidInteger));
    buffer.extend_from_slice(b":2\r\n");
    assert_eq!(decode_message(&buffer), Err(ProtocolError::InvalidInteger));
}
