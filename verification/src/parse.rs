//! Decimal parsing of property values, and character-level string equality.

use vstd::prelude::*;

verus! {

/// A decimal digit `'0'..='9'`.
pub open spec fn is_digit(c: char) -> bool {
    48 <= c as int && c as int <= 57
}

/// Numeric value of one digit.
pub open spec fn digit_val(c: char) -> int {
    c as int - 48
}

/// Every character of `s` is a decimal digit.
pub open spec fn all_digits(s: Seq<char>) -> bool {
    forall|i: int| 0 <= i < s.len() ==> is_digit(#[trigger] s[i])
}

/// Value of a digit string read left to right, most significant digit first.
pub open spec fn dec_val(s: Seq<char>) -> int
    decreases s.len(),
{
    if s.len() == 0 {
        0
    } else {
        dec_val(s.drop_last()) * 10 + digit_val(s.last())
    }
}

/// What parsing an unsigned decimal bounded by `max` means: the string is one
/// or more digits, nothing else, and its value does not exceed `max`.
pub open spec fn parse_dec_spec(s: Seq<char>, max: int) -> Option<int> {
    if s.len() > 0 && all_digits(s) && dec_val(s) <= max {
        Some(dec_val(s))
    } else {
        None
    }
}

/// Parsing a `u32` property value.
pub open spec fn parse_u32_spec(s: Seq<char>) -> Option<u32> {
    match parse_dec_spec(s, u32::MAX as int) {
        Some(v) => Some(v as u32),
        None => None,
    }
}

/// Parsing a `usize` property value.
pub open spec fn parse_usize_spec(s: Seq<char>) -> Option<usize> {
    match parse_dec_spec(s, usize::MAX as int) {
        Some(v) => Some(v as usize),
        None => None,
    }
}

/// A digit string has a non-negative value.
pub proof fn lemma_dec_val_nonneg(s: Seq<char>)
    requires
        all_digits(s),
    ensures
        dec_val(s) >= 0,
    decreases s.len(),
{
    if s.len() > 0 {
        assert(all_digits(s.drop_last()));
        lemma_dec_val_nonneg(s.drop_last());
        assert(is_digit(s.last()));
    }
}

/// The value of a digit string never shrinks as the string is extended on the
/// right: a prefix that is already too large dooms the whole parse.
pub proof fn lemma_dec_val_prefix(s: Seq<char>, i: int, j: int)
    requires
        0 <= i <= j <= s.len(),
        all_digits(s.subrange(0, j)),
    ensures
        dec_val(s.subrange(0, i)) <= dec_val(s.subrange(0, j)),
    decreases j - i,
{
    if i < j {
        let p = s.subrange(0, j);
        let q = s.subrange(0, j - 1);
        assert(p.drop_last() =~= q);
        assert(all_digits(q));
        lemma_dec_val_prefix(s, i, j - 1);
        lemma_dec_val_nonneg(q);
        assert(is_digit(p.last()));
        assert(dec_val(p) == dec_val(q) * 10 + digit_val(p.last()));
        assert(dec_val(q) * 10 >= dec_val(q));
    }
}

/// Character-for-character equality of two strings.
pub fn str_eq(a: &str, b: &str) -> (r: bool)
    ensures
        r == (a@ == b@),
{
    let na = a.unicode_len();
    let nb = b.unicode_len();
    if na != nb {
        return false;
    }
    let mut i: usize = 0;
    while i < na
        invariant
            na == a@.len(),
            na == b@.len(),
            i <= na,
            forall|j: int| 0 <= j < i ==> a@[j] == b@[j],
        decreases na - i,
    {
        if a.get_char(i) != b.get_char(i) {
            return false;
        }
        i = i + 1;
    }
    proof {
        assert(a@ =~= b@);
    }
    true
}

/// Parse a decimal `u32`: the whole string must be digits and the value must
/// fit; anything else is `None`.
pub fn parse_u32(s: &str) -> (r: Option<u32>)
    ensures
        r == parse_u32_spec(s@),
{
    let n = s.unicode_len();
    if n == 0 {
        return None;
    }
    let mut acc: u32 = 0;
    let mut i: usize = 0;
    while i < n
        invariant
            0 < n == s@.len(),
            i <= n,
            all_digits(s@.subrange(0, i as int)),
            acc == dec_val(s@.subrange(0, i as int)),
        decreases n - i,
    {
        let c = s.get_char(i);
        let code = c as u32;
        if code < 48 || code > 57 {
            assert(!is_digit(s@[i as int]));
            return None;
        }
        let d = code - 48;
        let wide: u64 = acc as u64 * 10 + d as u64;
        proof {
            assert(s@.subrange(0, i as int + 1).drop_last() =~= s@.subrange(0, i as int));
            assert(s@.subrange(0, i as int + 1).last() == s@[i as int]);
            assert(dec_val(s@.subrange(0, i as int + 1)) == wide as int);
        }
        if wide > u32::MAX as u64 {
            proof {
                if parse_u32_spec(s@) is Some {
                    assert(s@.subrange(0, s@.len() as int) =~= s@);
                    lemma_dec_val_prefix(s@, i as int + 1, s@.len() as int);
                }
            }
            return None;
        }
        acc = wide as u32;
        i = i + 1;
    }
    proof {
        assert(s@.subrange(0, n as int) =~= s@);
    }
    Some(acc)
}

/// Parse a decimal `usize`, with the same shape as [`parse_u32`].
pub fn parse_usize(s: &str) -> (r: Option<usize>)
    ensures
        r == parse_usize_spec(s@),
{
    let n = s.unicode_len();
    if n == 0 {
        return None;
    }
    let mut acc: usize = 0;
    let mut i: usize = 0;
    while i < n
        invariant
            0 < n == s@.len(),
            i <= n,
            all_digits(s@.subrange(0, i as int)),
            acc == dec_val(s@.subrange(0, i as int)),
        decreases n - i,
    {
        let c = s.get_char(i);
        let code = c as u32;
        if code < 48 || code > 57 {
            assert(!is_digit(s@[i as int]));
            return None;
        }
        let d: usize = (code - 48) as usize;
        proof {
            assert(s@.subrange(0, i as int + 1).drop_last() =~= s@.subrange(0, i as int));
            assert(s@.subrange(0, i as int + 1).last() == s@[i as int]);
        }
        if acc > (usize::MAX - d) / 10 {
            proof {
                assert(dec_val(s@.subrange(0, i as int + 1)) > usize::MAX as int);
                if parse_usize_spec(s@) is Some {
                    assert(s@.subrange(0, s@.len() as int) =~= s@);
                    lemma_dec_val_prefix(s@, i as int + 1, s@.len() as int);
                }
            }
            return None;
        }
        acc = acc * 10 + d;
        proof {
            assert(dec_val(s@.subrange(0, i as int + 1)) == acc as int);
        }
        i = i + 1;
    }
    proof {
        assert(s@.subrange(0, n as int) =~= s@);
    }
    Some(acc)
}

} // verus!
