use vstd::prelude::*;
use vstd::string::StrSliceExecFns;
use crate::error::ParseError;

verus! {

/// Character classes of the dialect, stated over `char` so that both the
/// tokenizer and its contracts speak the same language.
pub open spec fn is_space_char(c: char) -> bool {
    c == ' ' || c == '\t' || c == '\r' || c == '\n'
}

pub open spec fn is_digit_char(c: char) -> bool {
    48 <= c as u32 <= 57
}

pub open spec fn is_alpha_char(c: char) -> bool {
    (65 <= c as u32 <= 90) || (97 <= c as u32 <= 122)
}

/// A character that may start an identifier.
pub open spec fn is_ident_start_char(c: char) -> bool {
    is_alpha_char(c) || c == '_'
}

/// A character that may continue an identifier.
pub open spec fn is_ident_char(c: char) -> bool {
    is_ident_start_char(c) || is_digit_char(c)
}

pub fn space_char(c: char) -> (r: bool)
    ensures
        r == is_space_char(c),
{
    c == ' ' || c == '\t' || c == '\r' || c == '\n'
}

pub fn digit_char(c: char) -> (r: bool)
    ensures
        r == is_digit_char(c),
{
    let u: u32 = c as u32;
    48 <= u && u <= 57
}

pub fn ident_start_char(c: char) -> (r: bool)
    ensures
        r == is_ident_start_char(c),
{
    let u: u32 = c as u32;
    (65 <= u && u <= 90) || (97 <= u && u <= 122) || c == '_'
}

pub fn ident_char(c: char) -> (r: bool)
    ensures
        r == is_ident_char(c),
{
    ident_start_char(c) || digit_char(c)
}

/// Character-wise equality of two string slices.
pub fn str_eq(a: &str, b: &str) -> (r: bool)
    ensures
        r == (a@ == b@),
{
    let na: usize = a.unicode_len();
    let nb: usize = b.unicode_len();
    if na != nb {
        proof {
            assert(a@ != b@) by {
                if a@ == b@ {
                    assert(a@.len() == b@.len());
                }
            }
        }
        return false;
    }
    let mut i: usize = 0;
    while i < na
        invariant
            na == a@.len(),
            na == b@.len(),
            i <= na,
            forall|j: int| 0 <= j < i ==> a@[j] == b@[j],
        decreases na - i,
    {
        if a.get_char(i) != b.get_char(i) {
            proof {
                assert(a@[i as int] != b@[i as int]);
            }
            return false;
        }
        i = i + 1;
    }
    proof {
        assert(a@ =~= b@);
    }
    true
}

pub open spec fn all_digits(s: Seq<char>) -> bool {
    forall|j: int| 0 <= j < s.len() ==> is_digit_char(s[j])
}

/// The value of a sequence of decimal digits, most significant first.
pub open spec fn dec_val(s: Seq<char>) -> int
    decreases s.len(),
{
    if s.len() == 0 {
        0
    } else {
        dec_val(s.drop_last()) * 10 + (s.last() as u32 - 48)
    }
}

/// The integer denoted by `s`: an optional leading minus, then one or more
/// decimal digits; anything else denotes none.
pub open spec fn int_of(s: Seq<char>) -> Option<int> {
    if s.len() > 0 && s[0] == '-' {
        if s.len() >= 2 && all_digits(s.subrange(1, s.len() as int)) {
            Some(-dec_val(s.subrange(1, s.len() as int)))
        } else {
            None
        }
    } else if s.len() > 0 && all_digits(s) {
        Some(dec_val(s))
    } else {
        None
    }
}

pub proof fn lemma_dec_val_nonneg(s: Seq<char>)
    requires
        all_digits(s),
    ensures
        dec_val(s) >= 0,
    decreases s.len(),
{
    if s.len() > 0 {
        assert(all_digits(s.drop_last()));
        lemma_dec_val_nonneg(s.drop_last());
    }
}

/// Appending digits never shrinks the value: every prefix of a digit string
/// denotes at most the whole string's value.
pub proof fn lemma_dec_val_prefix(s: Seq<char>, k: int)
    requires
        all_digits(s),
        0 <= k <= s.len(),
    ensures
        dec_val(s.subrange(0, k)) <= dec_val(s),
    decreases s.len() - k,
{
    if k == s.len() {
        assert(s.subrange(0, k) =~= s);
    } else {
        lemma_dec_val_prefix(s, k + 1);
        let p = s.subrange(0, k + 1);
        assert(p.drop_last() =~= s.subrange(0, k));
        lemma_dec_val_nonneg(s.subrange(0, k));
        assert(dec_val(s.subrange(0, k)) <= dec_val(p));
    }
}

/// Parse `s` as a signed 64-bit decimal integer. Returns exactly the value
/// that `int_of` denotes; fails with `NumberOverflow` exactly when the
/// denoted value is outside the 64-bit range, and with `UnexpectedChar`
/// exactly when `s` denotes no integer at all.
pub fn parse_i64(s: &str) -> (r: Result<i64, ParseError>)
    ensures
        match r {
            Ok(v) => int_of(s@) == Some(v as int),
            Err(e) => (e == ParseError::NumberOverflow && (int_of(s@) matches Some(v) && (v
                < -0x8000000000000000 || v > 0x7fffffffffffffff))) || (e
                == ParseError::UnexpectedChar && int_of(s@) is None),
        },
{
    let n: usize = s.unicode_len();
    if n == 0 {
        return Err(ParseError::UnexpectedChar);
    }
    let neg: bool = s.get_char(0) == '-';
    let start: usize = if neg {
        1
    } else {
        0
    };
    if neg && n == 1 {
        return Err(ParseError::UnexpectedChar);
    }
    let ghost digits = s@.subrange(start as int, n as int);
    let mut i: usize = start;
    while i < n
        invariant
            n == s@.len(),
            start <= i <= n,
            start < n,
            start == 0 || start == 1,
            neg <==> s@[0] == '-',
            neg <==> start == 1,
            digits == s@.subrange(start as int, n as int),
            forall|j: int| start <= j < i ==> is_digit_char(s@[j]),
        decreases n - i,
    {
        if !digit_char(s.get_char(i)) {
            proof {
                if neg {
                    assert(!is_digit_char(s@.subrange(1, n as int)[i - 1]));
                } else {
                    assert(!is_digit_char(s@[i as int]));
                }
            }
            return Err(ParseError::UnexpectedChar);
        }
        i = i + 1;
    }
    proof {
        assert(all_digits(digits)) by {
            assert(forall|j: int| 0 <= j < digits.len() ==> digits[j] == s@[j + start]);
        }
        if !neg {
            assert(digits =~= s@);
        }
        assert(int_of(s@) == Some(if neg {
            -dec_val(digits)
        } else {
            dec_val(digits)
        }));
    }
    let mut mag: u64 = 0;
    let mut k: usize = start;
    while k < n
        invariant
            n == s@.len(),
            start <= k <= n,
            start < n,
            all_digits(digits),
            digits == s@.subrange(start as int, n as int),
            int_of(s@) == Some(
                if neg {
                    -dec_val(digits)
                } else {
                    dec_val(digits)
                },
            ),
            mag == dec_val(s@.subrange(start as int, k as int)),
            mag <= 0x8000000000000000,
        decreases n - k,
    {
        let c = s.get_char(k);
        proof {
            assert(is_digit_char(s@[k as int])) by {
                assert(digits[k - start] == s@[k as int]);
            }
        }
        let d: u64 = (c as u32 - 48) as u64;
        let ghost next = s@.subrange(start as int, k as int + 1);
        proof {
            assert(next.drop_last() =~= s@.subrange(start as int, k as int));
            assert(next.last() == s@[k as int]);
            assert(dec_val(next) == mag * 10 + d);
        }
        if mag > 922337203685477580 || (mag == 922337203685477580 && d > 8) {
            proof {
                assert(dec_val(next) > 0x8000000000000000);
                assert(next =~= digits.subrange(0, k - start + 1));
                lemma_dec_val_prefix(digits, k - start + 1);
                assert(dec_val(digits) > 0x8000000000000000);
            }
            return Err(ParseError::NumberOverflow);
        }
        mag = mag * 10 + d;
        k = k + 1;
    }
    proof {
        assert(s@.subrange(start as int, n as int) =~= digits);
        assert(mag == dec_val(digits));
    }
    if neg {
        if mag == 0x8000000000000000 {
            Ok(i64::MIN)
        } else {
            Ok(-(mag as i64))
        }
    } else {
        if mag >= 0x8000000000000000 {
            Err(ParseError::NumberOverflow)
        } else {
            Ok(mag as i64)
        }
    }
}

} // verus!
