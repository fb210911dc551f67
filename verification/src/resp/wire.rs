//! The wire format as mathematics: what a byte sequence decodes to, and the
//! bytes that a value is written as.

use super::number::{decimal, number_of, number_text, MINUS};
use super::value::ValueView;
use vstd::prelude::*;
use vstd::utf8::{decode_utf8, encode_utf8, valid_utf8};

verus! {

/// Carriage return, the first byte of a line terminator.
pub const CR: u8 = 13;

/// Line feed, the second byte of a line terminator.
pub const LF: u8 = 10;

/// Type byte of a simple string.
pub const PLUS: u8 = 43;

/// Type byte of an integer.
pub const COLON: u8 = 58;

/// Type byte of a bulk string.
pub const DOLLAR: u8 = 36;

/// Type byte of an array.
pub const STAR: u8 = 42;

/// Why a byte sequence is not a RESP message, however it continues.
#[derive(Debug, Clone, Copy, PartialEq, Eq, Structural)]
pub enum ProtocolError {
    /// The first byte is none of `+`, `-`, `:`, `$`, `*`.
    UnknownType,
    /// The line of an integer is not a decimal number of 64 bits.
    InvalidInteger,
    /// The length of a bulk string is not a number, or is negative
    /// without being -1.
    InvalidBulkString,
    /// The length of an array is not a number, or is negative.
    InvalidArray,
    /// A text is not valid UTF-8.
    InvalidText,
}

/// What decoding makes of a buffer: `Ok(Some((value, consumed)))` for a
/// complete message at its start, `Ok(None)` while more bytes are needed,
/// `Err` when no continuation can make it a message.
pub type Parsed = Result<Option<(ValueView, nat)>, ProtocolError>;

/// As [`Parsed`], for a run of messages.
pub type ParsedItems = Result<Option<(Seq<ValueView>, nat)>, ProtocolError>;

/// The line terminator.
pub open spec fn crlf() -> Seq<u8> {
    seq![CR, LF]
}

/// True when a line terminator stands at index `i` of `s`.
pub open spec fn crlf_at(s: Seq<u8>, i: int) -> bool {
    0 <= i && i + 1 < s.len() && s[i] == CR && s[i + 1] == LF
}

/// True when the first line terminator of `s` stands at index `i`.
pub open spec fn line_ends_at(s: Seq<u8>, i: int) -> bool {
    crlf_at(s, i) && forall|j: int| 0 <= j < i ==> !crlf_at(s, j)
}

/// The index of the first line terminator of `s`, if it holds one.
pub open spec fn line_end(s: Seq<u8>) -> Option<int> {
    if exists|i: int| crlf_at(s, i) {
        Some(choose|i: int| line_ends_at(s, i))
    } else {
        None
    }
}

/// The header line of a message: the bytes between the type byte and the
/// first line terminator, with the offset of the byte after that terminator.
pub open spec fn header(b: Seq<u8>) -> Option<(Seq<u8>, nat)> {
    if b.len() == 0 {
        None
    } else {
        match line_end(b.skip(1)) {
            Some(i) => Some((b.subrange(1, 1 + i), (i + 3) as nat)),
            None => None,
        }
    }
}

/// A header line read as text, under the constructor `make`.
pub open spec fn parse_line(b: Seq<u8>, make: spec_fn(Seq<char>) -> ValueView) -> Parsed {
    match header(b) {
        None => Ok(None),
        Some((line, next)) => if valid_utf8(line) {
            Ok(Some((make(decode_utf8(line)), next)))
        } else {
            Err(ProtocolError::InvalidText)
        },
    }
}

/// A simple string: the header line as text.
pub open spec fn parse_simple_string(b: Seq<u8>) -> Parsed {
    parse_line(b, |s: Seq<char>| ValueView::SimpleString(s))
}

/// An error: the header line as text.
pub open spec fn parse_error(b: Seq<u8>) -> Parsed {
    parse_line(b, |s: Seq<char>| ValueView::Error(s))
}

/// An integer: the header line as a decimal number.
pub open spec fn parse_integer(b: Seq<u8>) -> Parsed {
    match header(b) {
        None => Ok(None),
        Some((line, next)) => match number_of(line) {
            Some(i) => Ok(Some((ValueView::Integer(i), next))),
            None => Err(ProtocolError::InvalidInteger),
        },
    }
}

/// A bulk string: the header line gives the length in bytes of the text,
/// which follows with a line terminator of its own. Until that many bytes
/// and a terminator stand after the header, the message is incomplete.
/// Length -1 is the null value, with nothing after the header.
pub open spec fn parse_bulk_string(b: Seq<u8>) -> Parsed {
    match header(b) {
        None => Ok(None),
        Some((line, start)) => match number_of(line) {
            None => Err(ProtocolError::InvalidBulkString),
            Some(n) => if n == -1 {
                Ok(Some((ValueView::Null, start)))
            } else if n < 0 {
                Err(ProtocolError::InvalidBulkString)
            } else if !crlf_at(b, start + n) {
                Ok(None)
            } else if !valid_utf8(b.subrange(start as int, start + n)) {
                Err(ProtocolError::InvalidText)
            } else {
                Ok(
                    Some(
                        (
                            ValueView::BulkString(decode_utf8(b.subrange(start as int, start + n))),
                            (start + n + 2) as nat,
                        ),
                    ),
                )
            },
        },
    }
}

/// What the buffer `b` decodes to. The first byte selects the type.
pub open spec fn parse(b: Seq<u8>) -> Parsed
    decreases b.len(), 2nat,
{
    if b.len() == 0 {
        Ok(None)
    } else if b[0] == PLUS {
        parse_simple_string(b)
    } else if b[0] == MINUS {
        parse_error(b)
    } else if b[0] == COLON {
        parse_integer(b)
    } else if b[0] == DOLLAR {
        parse_bulk_string(b)
    } else if b[0] == STAR {
        parse_array(b)
    } else {
        Err(ProtocolError::UnknownType)
    }
}

/// An array: the header line gives the number of items, which follow one
/// after the other.
pub open spec fn parse_array(b: Seq<u8>) -> Parsed
    decreases b.len(), 1nat,
{
    match header(b) {
        None => Ok(None),
        Some((line, start)) => match number_of(line) {
            None => Err(ProtocolError::InvalidArray),
            Some(n) => if n < 0 {
                Err(ProtocolError::InvalidArray)
            } else if start == 0 || start > b.len() {
                // never so: the header is not empty and lies within `b`
                Ok(None)
            } else {
                match parse_items(b.skip(start as int), n as nat) {
                    Err(e) => Err(e),
                    Ok(None) => Ok(None),
                    Ok(Some((items, used))) => Ok(Some((ValueView::Array(items), start + used))),
                }
            },
        },
    }
}

/// The first `count` messages of `b`, each starting where the one before
/// it ended. The first that is incomplete or malformed decides the result.
pub open spec fn parse_items(b: Seq<u8>, count: nat) -> ParsedItems
    decreases b.len(), 3 + count,
{
    if count == 0 {
        Ok(Some((Seq::empty(), 0)))
    } else {
        match parse_items(b, (count - 1) as nat) {
            Err(e) => Err(e),
            Ok(None) => Ok(None),
            Ok(Some((items, used))) => if used > b.len() {
                // never so: see `lemma_parse_items_bounds`
                Ok(None)
            } else {
                match parse(b.skip(used as int)) {
                    Err(e) => Err(e),
                    Ok(None) => Ok(None),
                    Ok(Some((item, n))) => Ok(Some((items.push(item), used + n))),
                }
            },
        }
    }
}

/// The bytes that `v` is written as.
pub open spec fn wire(v: ValueView) -> Seq<u8>
    decreases v,
{
    match v {
        ValueView::SimpleString(s) => seq![PLUS] + encode_utf8(s) + crlf(),
        ValueView::Error(s) => seq![MINUS] + encode_utf8(s) + crlf(),
        ValueView::Integer(i) => seq![COLON] + number_text(i as int) + crlf(),
        ValueView::BulkString(s) => seq![DOLLAR] + decimal(encode_utf8(s).len()) + crlf()
            + encode_utf8(s) + crlf(),
        ValueView::Null => seq![DOLLAR, MINUS, 49u8, CR, LF],
        ValueView::Array(items) => seq![STAR] + decimal(items.len()) + crlf() + wire_items(
            items,
            items.len(),
        ),
    }
}

/// The bytes that the first `count` of `items` are written as, one after the other.
pub open spec fn wire_items(items: Seq<ValueView>, count: nat) -> Seq<u8>
    decreases items, count,
{
    if 0 < count <= items.len() {
        wire_items(items, (count - 1) as nat) + wire(items[count - 1])
    } else {
        Seq::empty()
    }
}

/// Below any line terminator of `s` stands its first one.
proof fn lemma_least_crlf(s: Seq<u8>, k: int)
    requires
        crlf_at(s, k),
    ensures
        exists|i: int| line_ends_at(s, i) && i <= k,
    decreases k,
{
    if exists|j: int| 0 <= j < k && crlf_at(s, j) {
        let j = choose|j: int| 0 <= j < k && crlf_at(s, j);
        lemma_least_crlf(s, j);
    } else {
        assert(line_ends_at(s, k));
    }
}

/// `line_end` is the index of the first line terminator, and `None` only
/// where there is none.
pub proof fn lemma_line_end(s: Seq<u8>)
    ensures
        match line_end(s) {
            Some(i) => line_ends_at(s, i),
            None => forall|i: int| !crlf_at(s, i),
        },
{
    if exists|i: int| crlf_at(s, i) {
        let k = choose|i: int| crlf_at(s, i);
        lemma_least_crlf(s, k);
    }
}

/// The first line terminator is the only index that `line_ends_at` holds of.
pub proof fn lemma_line_end_unique(s: Seq<u8>, i: int)
    requires
        line_ends_at(s, i),
    ensures
        line_end(s) == Some(i),
{
    lemma_line_end(s);
}

/// A header ends within its buffer, after the type byte and a terminator.
pub proof fn lemma_header_bounds(b: Seq<u8>)
    ensures
        header(b) matches Some((line, next)) ==> 3 <= next <= b.len() && line.len() == next - 3
            && line_ends_at(b.skip(1), next - 3) && line == b.subrange(1, next - 2),
{
    if b.len() > 0 {
        lemma_line_end(b.skip(1));
    }
}

/// Once some item has failed to decode, asking for more items fails the same way.
pub proof fn lemma_parse_items_stuck(b: Seq<u8>, count: nat, more: nat)
    requires
        count <= more,
        !(parse_items(b, count) matches Ok(Some(_))),
    ensures
        parse_items(b, more) == parse_items(b, count),
    decreases more,
{
    if count < more {
        lemma_parse_items_stuck(b, count, (more - 1) as nat);
    }
}

/// A decoded message is not empty and lies within the buffer.
pub proof fn lemma_parse_bounds(b: Seq<u8>)
    ensures
        parse(b) matches Ok(Some((_, n))) ==> 0 < n <= b.len(),
    decreases b.len(), 2nat,
{
    lemma_header_bounds(b);
    if b.len() > 0 && b[0] == STAR {
        match header(b) {
            Some((line, start)) => {
                match number_of(line) {
                    Some(n) => {
                        if n >= 0 {
                            lemma_parse_items_bounds(b.skip(start as int), n as nat);
                        }
                    },
                    None => {},
                }
            },
            None => {},
        }
    }
}

/// Decoded items lie within the buffer, and there are as many as were asked for.
pub proof fn lemma_parse_items_bounds(b: Seq<u8>, count: nat)
    ensures
        parse_items(b, count) matches Ok(Some((items, used))) ==> used <= b.len() && items.len()
            == count,
    decreases b.len(), 3 + count,
{
    if count > 0 {
        lemma_parse_items_bounds(b, (count - 1) as nat);
        match parse_items(b, (count - 1) as nat) {
            Ok(Some((items, used))) => {
                lemma_parse_bounds(b.skip(used as int));
            },
            _ => {},
        }
    }
}

} // verus!
