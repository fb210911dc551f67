//! Laws of the wire format: what decoding makes of a part of a buffer, and
//! that decoding undoes encoding.

use super::number::{
    decimal, lemma_decimal_spells, lemma_number_text_reads_back, number_of, number_text, MINUS,
};
use super::text::{lemma_text_is_a_line, line_break_at};
use super::value::ValueView;
use super::wire::{
    crlf, crlf_at, header, lemma_header_bounds, lemma_line_end, lemma_line_end_unique,
    lemma_parse_bounds, lemma_parse_items_bounds, line_end, line_ends_at, parse, parse_array,
    parse_bulk_string, parse_integer, parse_items, wire, wire_items, Parsed, ParsedItems,
    ProtocolError, COLON, DOLLAR, PLUS, STAR,
};
use vstd::prelude::*;
use vstd::utf8::{decode_utf8, encode_utf8, valid_utf8};

verus! {

/// What the first `k` bytes of a buffer decode to, given what the whole
/// buffer decodes to: the same, once they hold all that decoding looks at;
/// "incomplete" before that.
pub open spec fn prefix_result(whole: Parsed, k: int) -> Parsed {
    match whole {
        Ok(Some((_, n))) => if k < n {
            Ok(None)
        } else {
            whole
        },
        _ => whole,
    }
}

/// As `prefix_result`, for a run of messages.
pub open spec fn prefix_items_result(whole: ParsedItems, k: int) -> ParsedItems {
    match whole {
        Ok(Some((_, n))) => if k < n {
            Ok(None)
        } else {
            whole
        },
        _ => whole,
    }
}

/// The header of a prefix: that of the whole buffer once the prefix holds
/// it all, and none before that.
proof fn lemma_header_prefix(b: Seq<u8>, k: int)
    requires
        0 <= k <= b.len(),
    ensures
        header(b.take(k)) == match header(b) {
            Some((line, next)) => if k < next {
                None
            } else {
                header(b)
            },
            None => None,
        },
{
    let p = b.take(k);
    lemma_header_bounds(b);
    if k > 0 {
        let whole = b.skip(1);
        let part = p.skip(1);
        lemma_line_end(whole);
        lemma_line_end(part);
        assert forall|j: int| crlf_at(part, j) implies crlf_at(whole, j) by {
            assert(part[j] == whole[j]);
            assert(part[j + 1] == whole[j + 1]);
        }
        match line_end(whole) {
            Some(i) => {
                if k >= i + 3 {
                    assert(part[i] == whole[i]);
                    assert(part[i + 1] == whole[i + 1]);
                    assert(line_ends_at(part, i));
                    lemma_line_end_unique(part, i);
                    assert(p.subrange(1, 1 + i) =~= b.subrange(1, 1 + i));
                } else {
                    if line_end(part) is Some {
                        let j = line_end(part).unwrap();
                        assert(crlf_at(whole, j));
                    }
                    assert(header(p) is None);
                }
            },
            None => {
                if line_end(part) is Some {
                    let j = line_end(part).unwrap();
                    assert(crlf_at(whole, j));
                }
                assert(header(p) is None);
            },
        }
    }
}

/// Decoding a prefix of a buffer gives what decoding the buffer gives, or
/// nothing yet: see `prefix_result`. Where the buffer is malformed, the
/// prefix is malformed in the same way or incomplete.
pub proof fn lemma_parse_prefix(b: Seq<u8>, k: int)
    requires
        0 <= k <= b.len(),
    ensures
        parse(b) is Ok ==> parse(b.take(k)) == prefix_result(parse(b), k),
        parse(b) is Err ==> parse(b.take(k)) == parse(b) || parse(b.take(k)) == Ok::<
            Option<(ValueView, nat)>,
            ProtocolError,
        >(None),
    decreases b.len(), 2nat,
{
    let p = b.take(k);
    lemma_header_prefix(b, k);
    lemma_header_bounds(b);
    if k == 0 {
        lemma_parse_bounds(b);
    } else {
        assert(p[0] == b[0]);
        match header(b) {
            Some((line, start)) => {
                if k >= start {
                    if b[0] == DOLLAR {
                        match number_of(line) {
                            Some(n) => {
                                if n >= 0 && k >= start + n + 2 {
                                    assert(p.subrange(start as int, start + n) =~= b.subrange(
                                        start as int,
                                        start + n,
                                    ));
                                    assert(p[start + n] == b[start + n]);
                                    assert(p[start + n + 1] == b[start + n + 1]);
                                }
                            },
                            None => {},
                        }
                    } else if b[0] == STAR {
                        match number_of(line) {
                            Some(n) => {
                                if n >= 0 {
                                    lemma_parse_items_prefix(
                                        b.skip(start as int),
                                        n as nat,
                                        k - start,
                                    );
                                    assert(b.skip(start as int).take(k - start) =~= p.skip(
                                        start as int,
                                    ));
                                }
                            },
                            None => {},
                        }
                    }
                }
            },
            None => {},
        }
    }
}

/// As `lemma_parse_prefix`, for a run of messages.
pub proof fn lemma_parse_items_prefix(b: Seq<u8>, count: nat, k: int)
    requires
        0 <= k <= b.len(),
    ensures
        parse_items(b, count) is Ok ==> parse_items(b.take(k), count) == prefix_items_result(
            parse_items(b, count),
            k,
        ),
        parse_items(b, count) is Err ==> parse_items(b.take(k), count) == parse_items(b, count)
            || parse_items(b.take(k), count) == Ok::<Option<(Seq<ValueView>, nat)>, ProtocolError>(
            None,
        ),
    decreases b.len(), 3 + count,
{
    let p = b.take(k);
    if count > 0 {
        let before = (count - 1) as nat;
        lemma_parse_items_prefix(b, before, k);
        lemma_parse_items_bounds(b, before);
        match parse_items(b, before) {
            Ok(Some((items, used))) => {
                if k >= used {
                    lemma_parse_prefix(b.skip(used as int), k - used);
                    lemma_parse_bounds(b.skip(used as int));
                    assert(b.skip(used as int).take(k - used) =~= p.skip(used as int));
                }
            },
            _ => {},
        }
    }
}

/// The first bytes of a message, short of the whole, decode to "incomplete".
pub proof fn law_prefix_is_incomplete(b: Seq<u8>, k: int)
    requires
        parse(b) matches Ok(Some((_, n))) && 0 <= k < n,
    ensures
        parse(b.take(k)) == Ok::<Option<(ValueView, nat)>, ProtocolError>(None),
{
    lemma_parse_bounds(b);
    lemma_parse_prefix(b, k);
}

/// What a buffer decodes to, if it is a value or an error, it still
/// decodes to when more bytes have arrived.
pub proof fn law_more_bytes_keep_result(b: Seq<u8>, more: Seq<u8>)
    requires
        parse(b) != Ok::<Option<(ValueView, nat)>, ProtocolError>(None),
    ensures
        parse(b + more) == parse(b),
{
    let longer = b + more;
    assert(longer.take(b.len() as int) =~= b);
    lemma_parse_prefix(longer, b.len() as int);
}

/// Incremental decoding: where a buffer that starts with a message is cut
/// in two at any offset, the first part alone decodes to "incomplete" if
/// the cut falls within the message, and to the message if it does not;
/// the two parts together decode to the message.
pub proof fn law_split_decode(b: Seq<u8>, k: int)
    requires
        0 <= k <= b.len(),
        parse(b) matches Ok(Some(_)),
    ensures
        parse(b.take(k)) == prefix_result(parse(b), k),
        parse(b.take(k) + b.skip(k)) == parse(b),
{
    lemma_parse_prefix(b, k);
    assert(b.take(k) + b.skip(k) =~= b);
}

/// True when `v` can be sent and read back: no status or error text holds
/// a carriage return directly before a line feed, and every length fits the
/// 64 bits in which a decoder reads it.
pub open spec fn sendable(v: ValueView) -> bool
    decreases v,
{
    match v {
        ValueView::SimpleString(s) => forall|k: int| !line_break_at(s, k),
        ValueView::Error(s) => forall|k: int| !line_break_at(s, k),
        ValueView::Integer(_) => true,
        ValueView::BulkString(s) => encode_utf8(s).len() <= i64::MAX,
        ValueView::Null => true,
        ValueView::Array(items) => items.len() <= i64::MAX && forall|i: int|
            0 <= i < items.len() ==> sendable(#[trigger] items[i]),
    }
}

/// The header of a message that starts with a type byte, a line without a
/// terminator within it, and a terminator.
proof fn lemma_header_of_line(tag: u8, line: Seq<u8>, tail: Seq<u8>)
    requires
        forall|i: int| !crlf_at(line, i),
    ensures
        header(seq![tag] + line + crlf() + tail) == Some((line, (line.len() + 3) as nat)),
{
    let b = seq![tag] + line + crlf() + tail;
    let rest = b.skip(1);
    let end = line.len() as int;
    assert(rest =~= line + crlf() + tail);
    assert(crlf_at(rest, end));
    assert forall|j: int| 0 <= j < end implies !crlf_at(rest, j) by {
        if j + 1 < end {
            assert(rest[j] == line[j] && rest[j + 1] == line[j + 1]);
            assert(!crlf_at(line, j));
        }
    }
    lemma_line_end_unique(rest, end);
    assert(b.subrange(1, 1 + end) =~= line);
}

/// The canonical text of a number holds no line terminator.
proof fn lemma_number_text_is_a_line(i: int)
    ensures
        forall|j: int| !crlf_at(number_text(i), j),
{
    if i < 0 {
        lemma_decimal_spells((-i) as nat);
    } else {
        lemma_decimal_spells(i as nat);
    }
}

/// Decoding undoes encoding, for the first `count` items of an array, with
/// whatever bytes follow them.
proof fn lemma_round_trip_items(items: Seq<ValueView>, count: nat, rest: Seq<u8>)
    requires
        count <= items.len(),
        forall|i: int| 0 <= i < items.len() ==> sendable(#[trigger] items[i]),
    ensures
        parse_items(wire_items(items, count) + rest, count) == Ok::<_, ProtocolError>(
            Some((items.take(count as int), wire_items(items, count).len())),
        ),
    decreases items, count,
{
    let b = wire_items(items, count) + rest;
    if count == 0 {
        assert(items.take(0) =~= Seq::<ValueView>::empty());
    } else {
        let before = (count - 1) as nat;
        let last = items[count - 1];
        let head = wire_items(items, before);
        lemma_round_trip_items(items, before, wire(last) + rest);
        assert(head + (wire(last) + rest) =~= b);
        assert(b.skip(head.len() as int) =~= wire(last) + rest);
        law_round_trip(last);
        law_more_bytes_keep_result(wire(last), rest);
        assert(items.take(before as int).push(last) =~= items.take(count as int));
    }
}

/// Round trip of a status or error text.
proof fn lemma_round_trip_text(tag: u8, s: Seq<char>)
    requires
        forall|i: int| !crlf_at(encode_utf8(s), i),
    ensures
        header(seq![tag] + encode_utf8(s) + crlf()) == Some(
            (encode_utf8(s), (encode_utf8(s).len() + 3) as nat),
        ),
        valid_utf8(encode_utf8(s)),
        decode_utf8(encode_utf8(s)) == s,
{
    let none = Seq::<u8>::empty();
    lemma_header_of_line(tag, encode_utf8(s), none);
    assert(seq![tag] + encode_utf8(s) + crlf() =~= seq![tag] + encode_utf8(s) + crlf() + none);
    vstd::utf8::encode_utf8_valid_utf8(s);
    vstd::utf8::encode_utf8_decode_utf8(s);
}

/// The header of a message whose header line is the canonical text of `i`.
proof fn lemma_header_of_number(tag: u8, i: i64, tail: Seq<u8>)
    ensures
        header(seq![tag] + number_text(i as int) + crlf() + tail) == Some(
            (number_text(i as int), (number_text(i as int).len() + 3) as nat),
        ),
        number_of(number_text(i as int)) == Some(i),
{
    lemma_number_text_is_a_line(i as int);
    lemma_header_of_line(tag, number_text(i as int), tail);
    lemma_number_text_reads_back(i);
}

/// Round trip of an integer.
proof fn lemma_round_trip_integer(i: i64)
    ensures
        parse_integer(wire(ValueView::Integer(i))) == Ok::<_, ProtocolError>(
            Some((ValueView::Integer(i), wire(ValueView::Integer(i)).len())),
        ),
{
    let none = Seq::<u8>::empty();
    let b = wire(ValueView::Integer(i));
    lemma_header_of_number(COLON, i, none);
    assert(b =~= seq![COLON] + number_text(i as int) + crlf() + none);
}

/// Round trip of a bulk string.
proof fn lemma_round_trip_bulk(s: Seq<char>)
    requires
        encode_utf8(s).len() <= i64::MAX,
    ensures
        parse_bulk_string(wire(ValueView::BulkString(s))) == Ok::<_, ProtocolError>(
            Some((ValueView::BulkString(s), wire(ValueView::BulkString(s)).len())),
        ),
{
    let b = wire(ValueView::BulkString(s));
    let text = encode_utf8(s);
    let n = text.len() as i64;
    let line = number_text(n as int);
    let start = (line.len() + 3) as int;
    assert(line == decimal(text.len()));
    lemma_header_of_number(DOLLAR, n, text + crlf());
    assert(b =~= seq![DOLLAR] + line + crlf() + (text + crlf()));
    assert(b.len() == start + n + 2);
    assert(crlf_at(b, start + n));
    assert(b.subrange(start, start + n) =~= text);
    vstd::utf8::encode_utf8_valid_utf8(s);
    vstd::utf8::encode_utf8_decode_utf8(s);
}

/// Round trip of the null value.
proof fn lemma_round_trip_null()
    ensures
        parse_bulk_string(wire(ValueView::Null)) == Ok::<_, ProtocolError>(
            Some((ValueView::Null, wire(ValueView::Null).len())),
        ),
{
    let none = Seq::<u8>::empty();
    let b = wire(ValueView::Null);
    let line = seq![MINUS, 49u8];
    assert(number_text(-1) =~= line) by {
        reveal_with_fuel(decimal, 2);
    }
    lemma_header_of_number(DOLLAR, -1i64, none);
    assert(b =~= seq![DOLLAR] + line + crlf() + none);
}

/// Round trip of an array, given that of its items.
proof fn lemma_round_trip_array(items: Seq<ValueView>)
    requires
        items.len() <= i64::MAX,
        parse_items(wire_items(items, items.len()), items.len()) == Ok::<_, ProtocolError>(
            Some((items, wire_items(items, items.len()).len())),
        ),
    ensures
        parse_array(wire(ValueView::Array(items))) == Ok::<_, ProtocolError>(
            Some((ValueView::Array(items), wire(ValueView::Array(items)).len())),
        ),
{
    let b = wire(ValueView::Array(items));
    let n = items.len() as i64;
    let line = number_text(n as int);
    let body = wire_items(items, items.len());
    let start = (line.len() + 3) as int;
    assert(line == decimal(items.len()));
    lemma_header_of_number(STAR, n, body);
    assert(b =~= seq![STAR] + line + crlf() + body);
    assert(b.skip(start) =~= body);
}

/// Round trip: a sendable value, encoded and decoded, is the value again,
/// and decoding takes every byte of the encoding.
pub proof fn law_round_trip(v: ValueView)
    requires
        sendable(v),
    ensures
        parse(wire(v)) == Ok::<_, ProtocolError>(Some((v, wire(v).len()))),
    decreases v,
{
    match v {
        ValueView::SimpleString(s) => {
            lemma_text_is_a_line(s);
            lemma_round_trip_text(PLUS, s);
        },
        ValueView::Error(s) => {
            lemma_text_is_a_line(s);
            lemma_round_trip_text(MINUS, s);
        },
        ValueView::Integer(i) => {
            lemma_round_trip_integer(i);
        },
        ValueView::BulkString(s) => {
            lemma_round_trip_bulk(s);
        },
        ValueView::Null => {
            lemma_round_trip_null();
        },
        ValueView::Array(items) => {
            lemma_round_trip_items(items, items.len(), Seq::<u8>::empty());
            assert(wire_items(items, items.len()) + Seq::<u8>::empty() =~= wire_items(
                items,
                items.len(),
            ));
            assert(items.take(items.len() as int) =~= items);
            lemma_round_trip_array(items);
        },
    }
}

/// Round trip within a stream: a sendable value's encoding decodes to the
/// value whatever bytes follow it.
pub proof fn law_round_trip_in_stream(v: ValueView, rest: Seq<u8>)
    requires
        sendable(v),
    ensures
        parse(wire(v) + rest) == Ok::<_, ProtocolError>(Some((v, wire(v).len()))),
{
    law_round_trip(v);
    law_more_bytes_keep_result(wire(v), rest);
}

/// No two sendable values share an encoding.
pub proof fn law_encoding_is_unambiguous(v: ValueView, w: ValueView)
    requires
        sendable(v),
        sendable(w),
        wire(v) == wire(w),
    ensures
        v == w,
{
    law_round_trip(v);
    law_round_trip(w);
}

} // verus!
