//! Decimal integers read from text, with the rules of `str::parse` for
//! `i64` and `i32`: an optional `+` or `-`, then one or more ASCII digits,
//! and a value inside the type's range.

use vstd::prelude::*;
use crate::text::chars_of;

verus! {

pub open spec fn is_digit(c: char) -> bool {
    '0' <= c && c <= '9'
}

pub open spec fn digit_value(c: char) -> nat {
    (c as int - '0' as int) as nat
}

pub open spec fn all_digits(s: Seq<char>) -> bool {
    forall|i: int| 0 <= i < s.len() ==> is_digit(#[trigger] s[i])
}

/// The value of a string of decimal digits, most significant first.
pub open spec fn decimal_value(s: Seq<char>) -> nat
    decreases s.len(),
{
    if s.len() == 0 {
        0
    } else {
        decimal_value(s.drop_last()) * 10 + digit_value(s.last())
    }
}

/// Whether the text starts with a sign character.
pub open spec fn has_sign(s: Seq<char>) -> bool {
    s.len() > 0 && (s[0] == '-' || s[0] == '+')
}

/// The digits part of a signed decimal: the text without its sign.
pub open spec fn unsigned_part(s: Seq<char>) -> Seq<char> {
    if has_sign(s) { s.drop_first() } else { s }
}

/// The integer that the text writes, if it is a well-formed signed decimal
/// (of any size).
pub open spec fn signed_decimal(s: Seq<char>) -> Option<int> {
    let body = unsigned_part(s);
    if body.len() > 0 && all_digits(body) {
        if s[0] == '-' {
            Some(-(decimal_value(body) as int))
        } else {
            Some(decimal_value(body) as int)
        }
    } else {
        None
    }
}

/// What `str::parse::<i64>` returns, as an option.
pub open spec fn spec_parse_i64(s: Seq<char>) -> Option<i64> {
    match signed_decimal(s) {
        Some(v) => if i64::MIN <= v <= i64::MAX { Some(v as i64) } else { None },
        None => None,
    }
}

/// What `str::parse::<i32>` returns, as an option.
pub open spec fn spec_parse_i32(s: Seq<char>) -> Option<i32> {
    match signed_decimal(s) {
        Some(v) => if i32::MIN <= v <= i32::MAX { Some(v as i32) } else { None },
        None => None,
    }
}

/// A prefix of a string of digits is worth no more than the whole.
proof fn lemma_prefix_value_le(s: Seq<char>, k: int)
    requires
        all_digits(s),
        0 <= k <= s.len(),
    ensures
        decimal_value(s.take(k)) <= decimal_value(s),
    decreases s.len(),
{
    if k < s.len() {
        let t = s.drop_last();
        assert(all_digits(t)) by {
            assert forall|i: int| 0 <= i < t.len() implies is_digit(#[trigger] t[i]) by {
                assert(t[i] == s[i]);
            }
        }
        lemma_prefix_value_le(t, k);
        assert(t.take(k) =~= s.take(k));
    } else {
        assert(s.take(k) =~= s);
    }
}

/// Reads a signed decimal `i64` from text, as `str::parse::<i64>().ok()`.
pub fn parse_i64(s: &str) -> (r: Option<i64>)
    ensures
        r == spec_parse_i64(s@),
{
    let cs: Vec<char> = chars_of(s);
    parse_i64_chars(&cs)
}

/// Reads a signed decimal `i64` from a sequence of characters.
pub fn parse_i64_chars(cs: &Vec<char>) -> (r: Option<i64>)
    ensures
        r == spec_parse_i64(cs@),
{
    let ghost s: Seq<char> = cs@;
    let n: usize = cs.len();
    if n == 0 {
        return None;
    }
    let negative: bool = cs[0] == '-';
    let start: usize = if cs[0] == '-' || cs[0] == '+' { 1 } else { 0 };
    let ghost body: Seq<char> = unsigned_part(s);
    assert(body =~= s.subrange(start as int, n as int));
    if start == n {
        return None;
    }
    let limit: u128 = 0x8000_0000_0000_0000;
    let mut acc: u128 = 0;
    let mut i: usize = start;
    while i < n
        invariant
            cs@ == s,
            n == s.len(),
            start <= i <= n,
            body == s.subrange(start as int, n as int),
            body == unsigned_part(s),
            acc == decimal_value(body.take(i - start)),
            limit == 0x8000_0000_0000_0000,
            acc <= limit,
            forall|k: int| 0 <= k < i - start ==> is_digit(#[trigger] body[k]),
        decreases n - i,
    {
        let c: char = cs[i];
        if !('0' <= c && c <= '9') {
            assert(!all_digits(body)) by {
                assert(body[i - start] == c);
            }
            assert(signed_decimal(s) is None);
            return None;
        }
        let d: u128 = (c as u32 - '0' as u32) as u128;
        assert(d <= 9 && d == digit_value(c));
        proof {
            let t = body.take(i - start + 1);
            assert(t.drop_last() =~= body.take(i - start));
            assert(t.last() == c);
        }
        assert(acc * 10 + d <= limit * 10 + 9) by (nonlinear_arith)
            requires acc <= limit, d <= 9;
        acc = acc * 10 + d;
        i = i + 1;
        if acc > limit {
            proof {
                assert(signed_decimal(s) is None || spec_parse_i64(s) is None) by {
                    if all_digits(body) {
                        lemma_prefix_value_le(body, i - start);
                    }
                }
            }
            return None;
        }
    }
    assert(body.take(n - start) =~= body);
    assert(all_digits(body));
    if negative {
        if acc == limit {
            Some(i64::MIN)
        } else {
            let m: i64 = acc as i64;
            Some(-m)
        }
    } else {
        if acc == limit {
            None
        } else {
            Some(acc as i64)
        }
    }
}

/// Reads a signed decimal `i32` from a sequence of characters, as
/// `str::parse::<i32>().ok()` reads their text.
pub fn parse_i32_chars(cs: &Vec<char>) -> (r: Option<i32>)
    ensures
        r == spec_parse_i32(cs@),
{
    match parse_i64_chars(cs) {
        Some(v) => {
            if -2147483648 <= v && v <= 2147483647 {
                Some(v as i32)
            } else {
                None
            }
        },
        None => None,
    }
}

} // verus!
