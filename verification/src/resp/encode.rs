//! The wire encoder: from a value to the text whose bytes go on the wire.

use super::number::{decimal, number_text, MINUS, ZERO};
use super::text::{lemma_ascii_bytes, lemma_encode_utf8_concat};
use super::value::{lemma_first_views, views, Value};
use super::wire::{crlf, wire, wire_items, COLON, DOLLAR, PLUS, STAR};
use vstd::prelude::*;
use vstd::string::StringExecFns;
use vstd::utf8::encode_utf8;

verus! {

/// Appends `piece` to `out`, whose bytes grow by the bytes of `piece`.
fn push_text(out: &mut String, piece: &str)
    ensures
        encode_utf8(final(out)@) == encode_utf8(old(out)@) + encode_utf8(piece@),
{
    proof {
        lemma_encode_utf8_concat(out@, piece@);
    }
    out.append(piece);
}

/// Appends a line terminator.
fn push_crlf(out: &mut String)
    ensures
        encode_utf8(final(out)@) == encode_utf8(old(out)@) + crlf(),
{
    proof {
        reveal_strlit("\r\n");
        lemma_ascii_bytes("\r\n"@, crlf());
    }
    push_text(out, "\r\n");
}

/// A text of one byte, the type byte `tag`.
fn type_text(tag: u8) -> (out: String)
    requires
        tag == PLUS || tag == MINUS || tag == COLON || tag == DOLLAR || tag == STAR,
    ensures
        encode_utf8(out@) == seq![tag],
{
    proof {
        reveal_strlit("+");
        reveal_strlit("-");
        reveal_strlit(":");
        reveal_strlit("$");
        reveal_strlit("*");
        lemma_ascii_bytes("+"@, seq![PLUS]);
        lemma_ascii_bytes("-"@, seq![MINUS]);
        lemma_ascii_bytes(":"@, seq![COLON]);
        lemma_ascii_bytes("$"@, seq![DOLLAR]);
        lemma_ascii_bytes("*"@, seq![STAR]);
    }
    let text: &str = if tag == PLUS {
        "+"
    } else if tag == MINUS {
        "-"
    } else if tag == COLON {
        ":"
    } else if tag == DOLLAR {
        "$"
    } else {
        "*"
    };
    String::from_str(text)
}

/// The text of one decimal digit.
fn digit_text(digit: u8) -> (text: &'static str)
    requires
        digit < 10,
    ensures
        encode_utf8(text@) == seq![(ZERO + digit) as u8],
{
    proof {
        reveal_strlit("0");
        reveal_strlit("1");
        reveal_strlit("2");
        reveal_strlit("3");
        reveal_strlit("4");
        reveal_strlit("5");
        reveal_strlit("6");
        reveal_strlit("7");
        reveal_strlit("8");
        reveal_strlit("9");
        lemma_ascii_bytes("0"@, seq![48u8]);
        lemma_ascii_bytes("1"@, seq![49u8]);
        lemma_ascii_bytes("2"@, seq![50u8]);
        lemma_ascii_bytes("3"@, seq![51u8]);
        lemma_ascii_bytes("4"@, seq![52u8]);
        lemma_ascii_bytes("5"@, seq![53u8]);
        lemma_ascii_bytes("6"@, seq![54u8]);
        lemma_ascii_bytes("7"@, seq![55u8]);
        lemma_ascii_bytes("8"@, seq![56u8]);
        lemma_ascii_bytes("9"@, seq![57u8]);
    }
    if digit == 0 {
        "0"
    } else if digit == 1 {
        "1"
    } else if digit == 2 {
        "2"
    } else if digit == 3 {
        "3"
    } else if digit == 4 {
        "4"
    } else if digit == 5 {
        "5"
    } else if digit == 6 {
        "6"
    } else if digit == 7 {
        "7"
    } else if digit == 8 {
        "8"
    } else {
        "9"
    }
}

/// Appends the digits of `n`.
fn push_decimal(out: &mut String, n: u64)
    ensures
        encode_utf8(final(out)@) == encode_utf8(old(out)@) + decimal(n as nat),
    decreases n,
{
    if n >= 10 {
        push_decimal(out, n / 10);
    }
    push_text(out, digit_text((n % 10) as u8));
    assert(encode_utf8(out@) =~= encode_utf8(old(out)@) + decimal(n as nat));
}

/// Appends the canonical text of `i`.
fn push_number(out: &mut String, i: i64)
    ensures
        encode_utf8(final(out)@) == encode_utf8(old(out)@) + number_text(i as int),
{
    if i < 0 {
        proof {
            reveal_strlit("-");
            lemma_ascii_bytes("-"@, seq![MINUS]);
        }
        push_text(out, "-");
        let magnitude: u64 = if i == i64::MIN {
            0x8000_0000_0000_0000
        } else {
            (-i) as u64
        };
        push_decimal(out, magnitude);
        assert(encode_utf8(out@) =~= encode_utf8(old(out)@) + number_text(i as int));
    } else {
        push_decimal(out, i as u64);
    }
}

impl Value {
    /// Renders the value in its wire form: the bytes of the result are the
    /// bytes that go on the wire.
    pub fn encode(&self) -> (out: String)
        ensures
            encode_utf8(out@) == wire(self@),
        decreases self,
    {
        match self {
            Value::SimpleString(s) => {
                let mut out: String = type_text(PLUS);
                push_text(&mut out, s.as_str());
                push_crlf(&mut out);
                assert(encode_utf8(out@) =~= wire(self@));
                out
            },
            Value::Error(s) => {
                let mut out: String = type_text(MINUS);
                push_text(&mut out, s.as_str());
                push_crlf(&mut out);
                assert(encode_utf8(out@) =~= wire(self@));
                out
            },
            Value::Integer(i) => {
                let mut out: String = type_text(COLON);
                push_number(&mut out, *i);
                push_crlf(&mut out);
                assert(encode_utf8(out@) =~= wire(self@));
                out
            },
            Value::BulkString(s) => {
                let mut out: String = type_text(DOLLAR);
                push_decimal(&mut out, s.as_str().as_bytes().len() as u64);
                push_crlf(&mut out);
                push_text(&mut out, s.as_str());
                push_crlf(&mut out);
                assert(encode_utf8(out@) =~= wire(self@));
                out
            },
            Value::Null => {
                let mut out: String = type_text(DOLLAR);
                push_number(&mut out, -1);
                push_crlf(&mut out);
                assert(encode_utf8(out@) =~= wire(self@)) by {
                    reveal_with_fuel(decimal, 2);
                }
                out
            },
            Value::Array(values) => {
                let mut out: String = type_text(STAR);
                push_decimal(&mut out, values.len() as u64);
                push_crlf(&mut out);
                let ghost head = encode_utf8(out@);
                let ghost items = views(values@);
                let mut i: usize = 0;
                while i < values.len()
                    invariant
                        i <= values@.len(),
                        items == views(values@),
                        head == seq![STAR] + decimal(values@.len()) + crlf(),
                        decreases_to!(self => values),
                        encode_utf8(out@) == head + wire_items(items, i as nat),
                    decreases values@.len() - i,
                {
                    let piece: String = values[i].encode();
                    push_text(&mut out, piece.as_str());
                    proof {
                        lemma_first_views(values@, values@.len());
                        assert(encode_utf8(out@) =~= head + wire_items(items, (i + 1) as nat));
                    }
                    i += 1;
                }
                proof {
                    lemma_first_views(values@, values@.len());
                }
                assert(encode_utf8(out@) =~= wire(self@));
                out
            },
        }
    }
}

} // verus!
