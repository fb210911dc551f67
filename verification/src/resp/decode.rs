//! The wire decoder: from a buffer of bytes to one value, or to the news
//! that more bytes are needed.

use super::number::{number_of, read_number, MINUS};
use super::value::{lemma_views_push, views, Value, ValueView};
use super::wire::{
    crlf_at, header, lemma_line_end, lemma_line_end_unique, lemma_parse_bounds,
    lemma_parse_items_stuck, line_end, line_ends_at, parse, parse_array, parse_bulk_string,
    parse_error, parse_integer, parse_items, parse_simple_string, Parsed, ProtocolError, COLON,
    CR, DOLLAR, LF, PLUS, STAR,
};
use vstd::prelude::*;
use vstd::slice::{slice_subrange, slice_to_vec};
use vstd::utf8::{decode_utf8, valid_utf8};

verus! {

/// What the decoder hands back: a value with the number of bytes it took,
/// `None` while the message is incomplete, or the reason why the bytes are
/// no message.
pub type Decoded = Result<Option<(Value, usize)>, ProtocolError>;

/// A decoder's result as mathematics.
pub open spec fn decoded_view(r: Decoded) -> Parsed {
    match r {
        Ok(Some((value, consumed))) => Ok(Some((value@, consumed as nat))),
        Ok(None) => Ok(None),
        Err(e) => Err(e),
    }
}

/// `String::from_utf8` of the standard library: the text that `bytes`
/// encode in UTF-8, and `None` exactly when they encode none.
#[verifier::external_body]
fn text_from_utf8(bytes: Vec<u8>) -> (r: Option<String>)
    ensures
        r is Some <==> valid_utf8(bytes@),
        r matches Some(text) ==> text@ == decode_utf8(bytes@),
{
    String::from_utf8(bytes).ok()
}

/// Finds the first line terminator of `buffer`. Returns the line before it
/// and the number of bytes up to and including the terminator.
pub fn read_line(buffer: &[u8]) -> (r: Option<(&[u8], usize)>)
    ensures
        match r {
            Some((line, size)) => 2 <= size <= buffer@.len() && line_end(buffer@) == Some(
                size - 2,
            ) && line@ == buffer@.subrange(0, size - 2),
            None => line_end(buffer@) is None,
        },
{
    let n: usize = buffer.len();
    let mut i: usize = 0;
    while i < n && i + 1 < n
        invariant
            n == buffer@.len(),
            i <= n,
            forall|j: int| 0 <= j < i ==> !crlf_at(buffer@, j),
        decreases n - i,
    {
        if buffer[i] == CR && buffer[i + 1] == LF {
            proof {
                assert(line_ends_at(buffer@, i as int));
                lemma_line_end_unique(buffer@, i as int);
            }
            return Some((slice_subrange(buffer, 0, i), i + 2));
        }
        i += 1;
    }
    proof {
        lemma_line_end(buffer@);
    }
    None
}

/// Reads the header line of a message: the line after the type byte, and
/// the offset of the byte after its terminator.
fn read_header(buffer: &[u8]) -> (r: Option<(&[u8], usize)>)
    ensures
        match r {
            Some((line, next)) => header(buffer@) == Some((line@, next as nat)) && 3 <= next
                <= buffer@.len(),
            None => header(buffer@) is None,
        },
{
    if buffer.len() == 0 {
        return None;
    }
    match read_line(slice_subrange(buffer, 1, buffer.len())) {
        Some((line, size)) => {
            assert(line@ =~= buffer@.subrange(1, 1 + (size - 2)));
            Some((line, size + 1))
        },
        None => None,
    }
}

/// Reads a header line as text.
fn read_text(buffer: &[u8]) -> (r: Result<Option<(String, usize)>, ProtocolError>)
    ensures
        match r {
            Ok(Some((text, next))) => header(buffer@) matches Some((line, n)) && n == next
                && valid_utf8(line) && text@ == decode_utf8(line),
            Ok(None) => header(buffer@) is None,
            Err(e) => header(buffer@) matches Some((line, _)) && !valid_utf8(line) && e
                == ProtocolError::InvalidText,
        },
{
    match read_header(buffer) {
        None => Ok(None),
        Some((line, next)) => match text_from_utf8(slice_to_vec(line)) {
            Some(text) => Ok(Some((text, next))),
            None => Err(ProtocolError::InvalidText),
        },
    }
}

/// Decodes a simple string: the line after the type byte.
pub fn decode_simple_string(buffer: &[u8]) -> (r: Decoded)
    ensures
        decoded_view(r) == parse_simple_string(buffer@),
{
    match read_text(buffer) {
        Ok(Some((text, next))) => Ok(Some((Value::SimpleString(text), next))),
        Ok(None) => Ok(None),
        Err(e) => Err(e),
    }
}

/// Decodes an error: the line after the type byte.
pub fn decode_error(buffer: &[u8]) -> (r: Decoded)
    ensures
        decoded_view(r) == parse_error(buffer@),
{
    match read_text(buffer) {
        Ok(Some((text, next))) => Ok(Some((Value::Error(text), next))),
        Ok(None) => Ok(None),
        Err(e) => Err(e),
    }
}

/// Decodes an integer: the line after the type byte, as a decimal number.
pub fn decode_integer(buffer: &[u8]) -> (r: Decoded)
    ensures
        decoded_view(r) == parse_integer(buffer@),
{
    match read_header(buffer) {
        None => Ok(None),
        Some((line, next)) => match read_number(line) {
            Some(number) => Ok(Some((Value::Integer(number), next))),
            None => Err(ProtocolError::InvalidInteger),
        },
    }
}

/// Decodes a bulk string: a length line, then that many bytes of text and
/// a line terminator, without which the message is incomplete. Length -1
/// gives the null value.
pub fn decode_bulk_string(buffer: &[u8]) -> (r: Decoded)
    ensures
        decoded_view(r) == parse_bulk_string(buffer@),
{
    let (line, start): (&[u8], usize) = match read_header(buffer) {
        Some(found) => found,
        None => {
            return Ok(None);
        },
    };
    let declared: i64 = match read_number(line) {
        Some(number) => number,
        None => {
            return Err(ProtocolError::InvalidBulkString);
        },
    };
    if declared == -1 {
        return Ok(Some((Value::Null, start)));
    }
    if declared < 0 {
        return Err(ProtocolError::InvalidBulkString);
    }
    let available: usize = buffer.len() - start;
    if available < 2 || ((available - 2) as u64) < (declared as u64) {
        return Ok(None);
    }
    let len: usize = declared as usize;
    let end: usize = start + len;
    if buffer[end] != CR || buffer[end + 1] != LF {
        return Ok(None);
    }
    match text_from_utf8(slice_to_vec(slice_subrange(buffer, start, end))) {
        Some(text) => Ok(Some((Value::BulkString(text), end + 2))),
        None => Err(ProtocolError::InvalidText),
    }
}

/// Decodes an array: a length line, then that many messages.
pub fn decode_array(buffer: &[u8]) -> (r: Decoded)
    ensures
        decoded_view(r) == parse_array(buffer@),
    decreases buffer@.len(), 1nat,
{
    let (line, start): (&[u8], usize) = match read_header(buffer) {
        Some(found) => found,
        None => {
            return Ok(None);
        },
    };
    let count: i64 = match read_number(line) {
        Some(number) => number,
        None => {
            return Err(ProtocolError::InvalidArray);
        },
    };
    if count < 0 {
        return Err(ProtocolError::InvalidArray);
    }
    let body: &[u8] = slice_subrange(buffer, start, buffer.len());
    let mut values: Vec<Value> = Vec::new();
    let mut used: usize = 0;
    let mut i: i64 = 0;
    assert(views(values@) =~= Seq::<ValueView>::empty());
    while i < count
        invariant
            0 <= i <= count,
            3 <= start <= buffer@.len(),
            body@ == buffer@.skip(start as int),
            header(buffer@) == Some((line@, start as nat)),
            number_of(line@) == Some(count),
            used <= body@.len(),
            parse_items(body@, i as nat) == Ok::<_, ProtocolError>(
                Some((views(values@), used as nat)),
            ),
        decreases count - i,
    {
        let rest: &[u8] = slice_subrange(body, used, body.len());
        assert(rest@ == body@.skip(used as int));
        let item: Decoded = decode_message(rest);
        proof {
            lemma_parse_bounds(rest@);
        }
        match item {
            Ok(Some((value, n))) => {
                proof {
                    lemma_views_push(values@, value);
                }
                values.push(value);
                used = used + n;
            },
            Ok(None) => {
                proof {
                    lemma_parse_items_stuck(body@, (i + 1) as nat, count as nat);
                }
                return Ok(None);
            },
            Err(e) => {
                proof {
                    lemma_parse_items_stuck(body@, (i + 1) as nat, count as nat);
                }
                return Err(e);
            },
        }
        i += 1;
    }
    Ok(Some((Value::Array(values), start + used)))
}

/// Decodes the message at the start of `buffer`. Returns the value and the
/// number of bytes it took, `Ok(None)` when the message is not complete yet,
/// and an error when no further bytes can complete it.
pub fn decode_message(buffer: &[u8]) -> (r: Decoded)
    ensures
        decoded_view(r) == parse(buffer@),
        r matches Ok(Some((_, consumed))) ==> 0 < consumed <= buffer@.len(),
    decreases buffer@.len(), 2nat,
{
    proof {
        lemma_parse_bounds(buffer@);
    }
    if buffer.len() == 0 {
        return Ok(None);
    }
    let tag: u8 = buffer[0];
    if tag == PLUS {
        decode_simple_string(buffer)
    } else if tag == MINUS {
        decode_error(buffer)
    } else if tag == COLON {
        decode_integer(buffer)
    } else if tag == DOLLAR {
        decode_bulk_string(buffer)
    } else if tag == STAR {
        decode_array(buffer)
    } else {
        Err(ProtocolError::UnknownType)
    }
}

} // verus!
