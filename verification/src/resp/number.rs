//! Decimal numbers on the wire: what a digit string means, how it is read,
//! and how a number is written.

use vstd::prelude::*;

verus! {

/// The byte `-`.
pub const MINUS: u8 = 45;

/// The byte `0`.
pub const ZERO: u8 = 48;

/// The byte `9`.
pub const NINE: u8 = 57;

/// True when every byte of `s` is a decimal digit.
pub open spec fn all_digits(s: Seq<u8>) -> bool {
    forall|i: int| 0 <= i < s.len() ==> ZERO <= #[trigger] s[i] <= NINE
}

/// The number that the digit string `s` spells in base ten; the empty string spells 0.
pub open spec fn digits_value(s: Seq<u8>) -> int
    decreases s.len(),
{
    if s.len() == 0 {
        0
    } else {
        digits_value(s.drop_last()) * 10 + (s.last() - ZERO)
    }
}

/// The number that `s` spells: an optional `-`, then one or more decimal
/// digits. `None` when `s` is not of that shape, or spells a number outside
/// the range of `i64`.
pub open spec fn number_of(s: Seq<u8>) -> Option<i64> {
    let negative = s.len() > 0 && s[0] == MINUS;
    let digits = if negative {
        s.drop_first()
    } else {
        s
    };
    let value = if negative {
        -digits_value(digits)
    } else {
        digits_value(digits)
    };
    if digits.len() > 0 && all_digits(digits) && i64::MIN <= value <= i64::MAX {
        Some(value as i64)
    } else {
        None
    }
}

/// The shortest digit string that spells `n`.
pub open spec fn decimal(n: nat) -> Seq<u8>
    decreases n,
{
    if n < 10 {
        seq![(ZERO + n) as u8]
    } else {
        decimal(n / 10).push((ZERO + n % 10) as u8)
    }
}

/// The canonical text of `i`: a `-` for a negative number, then its digits.
pub open spec fn number_text(i: int) -> Seq<u8> {
    if i < 0 {
        seq![MINUS] + decimal((-i) as nat)
    } else {
        decimal(i as nat)
    }
}

/// A digit string spells at least what any of its prefixes spells.
pub proof fn lemma_digits_value_prefix(s: Seq<u8>, k: int)
    requires
        all_digits(s),
        0 <= k <= s.len(),
    ensures
        0 <= digits_value(s.subrange(0, k)) <= digits_value(s),
    decreases s.len() - k,
{
    if k == s.len() {
        assert(s.subrange(0, k) =~= s);
        lemma_digits_value_nonnegative(s);
    } else {
        lemma_digits_value_prefix(s.drop_last(), k);
        assert(s.drop_last().subrange(0, k) =~= s.subrange(0, k));
        lemma_digits_value_nonnegative(s.drop_last());
    }
}

/// A digit string spells a natural number.
pub proof fn lemma_digits_value_nonnegative(s: Seq<u8>)
    requires
        all_digits(s),
    ensures
        0 <= digits_value(s),
    decreases s.len(),
{
    if s.len() > 0 {
        lemma_digits_value_nonnegative(s.drop_last());
    }
}

/// `decimal(n)` is a non-empty digit string that spells `n`.
pub proof fn lemma_decimal_spells(n: nat)
    ensures
        decimal(n).len() > 0,
        all_digits(decimal(n)),
        digits_value(decimal(n)) == n,
    decreases n,
{
    if n < 10 {
        assert(decimal(n).drop_last() =~= Seq::<u8>::empty());
        assert(digits_value(Seq::<u8>::empty()) == 0);
    } else {
        lemma_decimal_spells(n / 10);
        assert(decimal(n).drop_last() =~= decimal(n / 10));
        assert(decimal(n).last() == (ZERO + n % 10) as u8);
    }
}

/// Reading the canonical text of a 64-bit number gives the number back.
pub proof fn lemma_number_text_reads_back(i: i64)
    ensures
        number_of(number_text(i as int)) == Some(i),
{
    if i < 0 {
        let d = decimal((-i) as nat);
        lemma_decimal_spells((-i) as nat);
        assert(number_text(i as int).drop_first() =~= d);
    } else {
        lemma_decimal_spells(i as nat);
    }
}

/// Reads an optionally signed decimal number that fills the whole of `buffer`.
pub fn read_number(buffer: &[u8]) -> (r: Option<i64>)
    ensures
        r == number_of(buffer@),
{
    let n: usize = buffer.len();
    if n == 0 {
        return None;
    }
    let negative: bool = buffer[0] == MINUS;
    let start: usize = if negative {
        1
    } else {
        0
    };
    if start == n {
        return None;
    }
    let ghost digits = buffer@.subrange(start as int, n as int);
    assert(digits =~= if negative {
        buffer@.drop_first()
    } else {
        buffer@
    });
    let mut magnitude: u64 = 0;
    let mut i: usize = start;
    while i < n
        invariant
            start <= i <= n,
            n == buffer@.len(),
            digits == buffer@.subrange(start as int, n as int),
            digits.len() > 0,
            negative == (buffer@.len() > 0 && buffer@[0] == MINUS),
            digits == if negative {
                buffer@.drop_first()
            } else {
                buffer@
            },
            all_digits(digits.subrange(0, i - start)),
            magnitude == digits_value(digits.subrange(0, i - start)),
            magnitude <= 0x8000_0000_0000_0000,
        decreases n - i,
    {
        let byte: u8 = buffer[i];
        if byte < ZERO || byte > NINE {
            assert(digits[i - start] == byte);
            assert(!all_digits(digits));
            return None;
        }
        let digit: u64 = (byte - ZERO) as u64;
        proof {
            let next = digits.subrange(0, i - start + 1);
            assert(next.drop_last() =~= digits.subrange(0, i - start));
            assert(next.last() == byte);
            assert(digits_value(next) == magnitude * 10 + digit);
            assert forall|j: int| 0 <= j < next.len() implies ZERO <= #[trigger] next[j]
                <= NINE by {
                if j < next.len() - 1 {
                    assert(next[j] == digits.subrange(0, i - start)[j]);
                }
            }
        }
        if magnitude > 922337203685477580 || (magnitude == 922337203685477580 && digit > 8) {
            proof {
                if all_digits(digits) {
                    lemma_digits_value_prefix(digits, i - start + 1);
                }
            }
            return None;
        }
        magnitude = magnitude * 10 + digit;
        i += 1;
    }
    assert(digits.subrange(0, n - start) =~= digits);
    if negative {
        if magnitude == 0x8000_0000_0000_0000 {
            Some(i64::MIN)
        } else {
            Some(-(magnitude as i64))
        }
    } else if magnitude > 0x7fff_ffff_ffff_ffff {
        None
    } else {
        Some(magnitude as i64)
    }
}

} // verus!
