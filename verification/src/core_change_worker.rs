//! Counter arithmetic of the core change worker.
use crate::error::MigrationError;
use crate::family_refresh::model::{decimal_digits, decimal_text, digits_value, is_digit};
use vstd::prelude::*;

verus! {

pub open spec fn all_digits(s: Seq<u8>) -> bool {
    forall|i: int| 0 <= i < s.len() ==> is_digit(#[trigger] s[i])
}

/// The value of one or more ASCII digits, if it fits 64 bits.
pub open spec fn read_digits(d: Seq<u8>) -> Option<u64> {
    if d.len() == 0 || !all_digits(d) || digits_value(d) > u64::MAX {
        None
    } else {
        Some(digits_value(d) as u64)
    }
}

/// The unsigned 64-bit value of decimal text, read as Rust reads `u64`: an
/// optional `+`, then one or more ASCII digits (leading zeros allowed), with
/// no value above `u64::MAX`.
pub open spec fn read_u64(s: Seq<u8>) -> Option<u64> {
    read_digits(
        if s.len() > 0 && s[0] == 43 {
            s.drop_first()
        } else {
            s
        },
    )
}

proof fn lemma_digits_grow(s: Seq<u8>, i: int)
    requires
        all_digits(s),
        0 <= i <= s.len(),
    ensures
        0 <= digits_value(s.take(i)) <= digits_value(s),
    decreases s.len() - i,
{
    if i < s.len() {
        lemma_digits_grow(s, i + 1);
        assert(s.take(i + 1).drop_last() =~= s.take(i));
        assert(s.take(i + 1).last() == s[i]);
        assert(is_digit(s[i]));
    } else {
        assert(s.take(i) =~= s);
        lemma_nonneg(s);
    }
}

pub(crate) proof fn lemma_nonneg(s: Seq<u8>)
    requires
        all_digits(s),
    ensures
        digits_value(s) >= 0,
    decreases s.len(),
{
    if s.len() > 0 {
        assert(is_digit(s[s.len() - 1]));
        lemma_nonneg(s.drop_last());
    }
}

/// The digits of `text` from `start` on, read as one unsigned value.
pub(crate) fn parse_digits(text: &[u8], start: usize) -> (v: Option<u64>)
    requires
        start <= text@.len(),
    ensures
        v == read_digits(text@.subrange(start as int, text@.len() as int)),
{
    let n = text.len();
    let ghost d = text@.subrange(start as int, n as int);
    if start == n {
        return None;
    }
    let mut v: u64 = 0;
    let mut i: usize = start;
    assert(d.take(0) =~= Seq::<u8>::empty());
    while i < n
        invariant
            n == text@.len(),
            start <= i <= n,
            start < n,
            d == text@.subrange(start as int, n as int),
            all_digits(d.take(i - start)),
            v as int == digits_value(d.take(i - start)),
        decreases n - i,
    {
        let b = text[i];
        let ghost k = i - start;
        if b < 48 || b > 57 {
            assert(d[k] == b);
            return None;
        }
        proof {
            assert(d.take(k + 1).drop_last() =~= d.take(k));
            assert(d.take(k + 1).last() == b);
            assert(all_digits(d.take(k + 1))) by {
                assert forall|j: int| 0 <= j < k + 1 implies is_digit(#[trigger] d.take(k + 1)[j]) by {
                    if j < k {
                        assert(d.take(k + 1)[j] == d.take(k)[j]);
                    }
                }
            }
        }
        let digit = (b - 48) as u64;
        if v > (u64::MAX - digit) / 10 {
            proof {
                assert(digits_value(d.take(k + 1)) == v * 10 + digit);
                assert(v * 10 + digit > u64::MAX) by (nonlinear_arith)
                    requires
                        v > (u64::MAX - digit) / 10,
                        digit <= 9,
                ;
                if all_digits(d) {
                    lemma_digits_grow(d, k + 1);
                }
            }
            return None;
        }
        proof {
            assert(v * 10 + digit <= u64::MAX) by (nonlinear_arith)
                requires
                    v <= (u64::MAX - digit) / 10,
                    digit <= 9,
            ;
        }
        v = v * 10 + digit;
        i = i + 1;
    }
    assert(d.take(n - start) =~= d);
    Some(v)
}

fn parse_u64(text: &[u8]) -> (v: Option<u64>)
    ensures
        v == read_u64(text@),
{
    let n = text.len();
    let start: usize = if n > 0 && text[0] == 43 {
        1
    } else {
        0
    };
    assert(text@.subrange(start as int, n as int) =~= (if text@.len() > 0 && text@[0] == 43 {
        text@.drop_first()
    } else {
        text@
    }));
    parse_digits(text, start)
}

/// A stored counter increased by `amount`. The counter must be the decimal
/// text of an unsigned 64-bit value; a counter that would pass `u64::MAX` is a
/// storage limit, never a wrap.
pub fn increment(counter: Option<&[u8]>, amount: u64) -> (r: Result<Vec<u8>, MigrationError>)
    ensures
        match counter {
            None => r == Err::<Vec<u8>, MigrationError>(MigrationError::Crypto),
            Some(text) => match read_u64(text@) {
                None => r == Err::<Vec<u8>, MigrationError>(MigrationError::Crypto),
                Some(old) => if old + amount > u64::MAX {
                    r == Err::<Vec<u8>, MigrationError>(MigrationError::StorageLimit)
                } else {
                    r matches Ok(t) && t@ == decimal_digits((old + amount) as nat)
                },
            },
        },
{
    let text = match counter {
        None => {
            return Err(MigrationError::Crypto);
        },
        Some(t) => t,
    };
    let old = match parse_u64(text) {
        None => {
            return Err(MigrationError::Crypto);
        },
        Some(v) => v,
    };
    match old.checked_add(amount) {
        None => Err(MigrationError::StorageLimit),
        Some(sum) => Ok(decimal_text(sum)),
    }
}

} // verus!
