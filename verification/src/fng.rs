//! The Fear & Greed status line that the oracle stores, and the score that
//! the trading engine reads back from it.

use vstd::prelude::*;
use crate::number::{parse_i32_chars, spec_parse_i32};
use crate::text::chars_of;

verus! {

/// The score assumed when no status line can be read or parsed.
pub const DEFAULT_FNG_SCORE: i32 = 50;

/// Everything before the first space (the whole text when it has none),
/// as `str::split(' ').next()`.
pub open spec fn first_field(s: Seq<char>) -> Seq<char>
    decreases s.len(),
{
    if s.len() == 0 {
        s
    } else if s[0] == ' ' {
        Seq::empty()
    } else {
        seq![s[0]] + first_field(s.drop_first())
    }
}

/// The score that a stored status line stands for: its first field read as
/// an `i32`, or the default score when there is no line or the field is not
/// an `i32`.
pub open spec fn spec_fng_score(status: Option<Seq<char>>) -> i32 {
    match status {
        Some(s) => match spec_parse_i32(first_field(s)) {
            Some(v) => v,
            None => DEFAULT_FNG_SCORE,
        },
        None => DEFAULT_FNG_SCORE,
    }
}

/// The status line `"<value> (<classification>)"`.
pub open spec fn spec_fng_label(value: Seq<char>, class: Seq<char>) -> Seq<char> {
    value + seq![' ', '('] + class + seq![')']
}

/// The index value reported when the index gives none.
pub open spec fn default_fng_value() -> Seq<char> {
    seq!['5', '0']
}

/// The classification reported when the index gives none.
pub open spec fn default_fng_class() -> Seq<char> {
    seq!['N', 'e', 'u', 't', 'r', 'a', 'l']
}

pub open spec fn no_space(s: Seq<char>) -> bool {
    forall|i: int| 0 <= i < s.len() ==> #[trigger] s[i] != ' '
}

/// `first_field` stops at the first space.
proof fn lemma_first_field_at(s: Seq<char>, i: int)
    requires
        0 <= i <= s.len(),
        no_space(s.take(i)),
        i == s.len() || s[i] == ' ',
    ensures
        first_field(s) == s.take(i),
    decreases s.len(),
{
    if s.len() == 0 {
        assert(s.take(i) =~= s);
    } else if i == 0 {
        assert(s.take(i) =~= Seq::<char>::empty());
    } else {
        let t = s.drop_first();
        assert(s[0] == s.take(i)[0]);
        assert(no_space(t.take(i - 1))) by {
            assert forall|k: int| 0 <= k < i - 1 implies #[trigger] t.take(i - 1)[k] != ' ' by {
                assert(t.take(i - 1)[k] == s.take(i)[k + 1]);
            }
        }
        lemma_first_field_at(t, i - 1);
        assert(seq![s[0]] + t.take(i - 1) =~= s.take(i));
    }
}

/// A field with no space, followed by anything that starts with a space,
/// is the first field.
proof fn lemma_first_field_of_label(value: Seq<char>, class: Seq<char>)
    requires
        no_space(value),
    ensures
        first_field(spec_fng_label(value, class)) == value,
{
    let s = spec_fng_label(value, class);
    assert(s.take(value.len() as int) =~= value);
    assert(s[value.len() as int] == ' ');
    lemma_first_field_at(s, value.len() as int);
}

/// The characters of `s` before its first space.
fn first_field_chars(s: &Vec<char>) -> (r: Vec<char>)
    ensures
        r@ == first_field(s@),
{
    let n: usize = s.len();
    let mut r: Vec<char> = Vec::new();
    let mut i: usize = 0;
    while i < n && s[i] != ' '
        invariant
            n == s@.len(),
            i <= n,
            r@ == s@.take(i as int),
            no_space(s@.take(i as int)),
        decreases n - i,
    {
        r.push(s[i]);
        i = i + 1;
        assert(r@ =~= s@.take(i as int));
        assert(no_space(s@.take(i as int))) by {
            assert forall|k: int| 0 <= k < i implies #[trigger] s@.take(i as int)[k] != ' ' by {
                if k < i - 1 {
                    assert(s@.take(i as int)[k] == s@.take(i - 1)[k]);
                }
            }
        }
    }
    proof {
        lemma_first_field_at(s@, i as int);
    }
    r
}

/// The Fear & Greed score of a stored status line such as `"23 (Fear)"`:
/// the number before the first space, or 50 when there is no line or that
/// part is not an `i32`.
pub fn fng_score(status: Option<&str>) -> (score: i32)
    ensures
        score == spec_fng_score(
            match status {
                Some(s) => Some(s@),
                None => None,
            },
        ),
{
    match status {
        None => DEFAULT_FNG_SCORE,
        Some(s) => {
            let cs: Vec<char> = chars_of(s);
            let field: Vec<char> = first_field_chars(&cs);
            match parse_i32_chars(&field) {
                Some(v) => v,
                None => DEFAULT_FNG_SCORE,
            }
        },
    }
}

/// The status line that the oracle stores for the index reading: the value
/// and its classification, `"50"` and `"Neutral"` standing in for a missing
/// one. With neither (the index could not be fetched) it is `"50 (Neutral)"`.
pub fn fng_label(value: Option<&str>, class: Option<&str>) -> (line: String)
    ensures
        line@ == spec_fng_label(
            match value {
                Some(v) => v@,
                None => default_fng_value(),
            },
            match class {
                Some(c) => c@,
                None => default_fng_class(),
            },
        ),
{
    let v: &str = match value {
        Some(v) => v,
        None => "50",
    };
    let c: &str = match class {
        Some(c) => c,
        None => "Neutral",
    };
    proof {
        reveal_strlit("50");
        reveal_strlit("Neutral");
        reveal_strlit(" (");
        reveal_strlit(")");
    }
    let mut line: String = String::from_str(v);
    line.append(" (");
    line.append(c);
    line.append(")");
    line
}

/// Law: a status line written from a value with no space is read back as
/// that value's number. What the oracle stores, the engine reads.
pub proof fn law_label_score_roundtrip(value: Seq<char>, class: Seq<char>, n: i32)
    requires
        no_space(value),
        spec_parse_i32(value) == Some(n),
    ensures
        spec_fng_score(Some(spec_fng_label(value, class))) == n,
{
    lemma_first_field_of_label(value, class);
}

} // verus!
