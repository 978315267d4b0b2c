//! Typed flag values.
//!
//! A flag's value arrives as a single token of text. [`FlagValue`] is the
//! capability of reading a value out of such a token: `from_str_spec` is
//! the mathematical parse, mapping the token's characters to the view of
//! the parsed value (or `None` when the token denotes no value), and
//! `from_arg` is the executable parse, proved to agree with it. The
//! implementations here cover unsigned and signed numbers, booleans and
//! strings; users can implement the trait for their own types.

use vstd::prelude::*;

verus! {

/// A type whose values can be read from a single command-line token.
pub trait FlagValue: View + Sized {
    /// What the token `s` denotes as a value of this type, if anything.
    spec fn from_str_spec(s: Seq<char>) -> Option<Self::V>;

    /// Parse one token; `None` exactly when the token denotes no value.
    fn from_arg(s: &str) -> (r: Option<Self>)
        ensures
            match r {
                Some(v) => Self::from_str_spec(s@) == Some(v@),
                None => Self::from_str_spec(s@) is None,
            },
    ;
}

/// True for an ASCII decimal digit.
pub open spec fn is_digit(c: char) -> bool {
    '0' as int <= c as int <= '9' as int
}

/// Numeric value of a decimal digit character.
pub open spec fn digit_val(c: char) -> int {
    c as int - '0' as int
}

/// True when every character of `s` is a decimal digit.
pub open spec fn all_digits(s: Seq<char>) -> bool {
    forall|i: int| 0 <= i < s.len() ==> is_digit(#[trigger] s[i])
}

/// Value of a string of decimal digits, most significant first.
pub open spec fn digits_val(s: Seq<char>) -> int
    decreases s.len(),
{
    if s.len() == 0 {
        0
    } else {
        digits_val(s.drop_last()) * 10 + digit_val(s.last())
    }
}

/// The digit part of an unsigned token: an optional leading `+` is skipped.
pub open spec fn unsigned_body(s: Seq<char>) -> Seq<char> {
    if s.len() > 0 && s[0] == '+' {
        s.drop_first()
    } else {
        s
    }
}

/// An unsigned decimal token: an optional `+`, then one or more digits,
/// denoting a value of at most `bound`.
pub open spec fn unsigned_from_str(s: Seq<char>, bound: int) -> Option<int> {
    let body = unsigned_body(s);
    if body.len() == 0 || !all_digits(body) {
        None
    } else if digits_val(body) > bound {
        None
    } else {
        Some(digits_val(body))
    }
}

/// A digit string denotes a non-negative value.
pub proof fn lemma_digits_val_nonneg(s: Seq<char>)
    requires
        all_digits(s),
    ensures
        digits_val(s) >= 0,
    decreases s.len(),
{
    if s.len() > 0 {
        assert(forall|i: int| 0 <= i < s.drop_last().len() ==> is_digit(#[trigger] s.drop_last()[i]));
        lemma_digits_val_nonneg(s.drop_last());
    }
}

/// Reading one more digit multiplies the value so far by ten and adds it.
pub proof fn lemma_digits_val_take_succ(s: Seq<char>, k: int)
    requires
        0 <= k < s.len(),
    ensures
        digits_val(s.take(k + 1)) == digits_val(s.take(k)) * 10 + digit_val(s[k]),
{
    assert(s.take(k + 1).drop_last() =~= s.take(k));
    assert(s.take(k + 1).last() == s[k]);
}

/// The value of a digit string is at least the value of any of its prefixes.
pub proof fn lemma_digits_val_prefix_le(s: Seq<char>, k: int)
    requires
        all_digits(s),
        0 <= k <= s.len(),
    ensures
        digits_val(s.take(k)) <= digits_val(s),
    decreases s.len() - k,
{
    if k == s.len() {
        assert(s.take(k) =~= s);
    } else {
        assert(forall|i: int| 0 <= i < s.take(k).len() ==> is_digit(#[trigger] s.take(k)[i]));
        lemma_digits_val_nonneg(s.take(k));
        lemma_digits_val_take_succ(s, k);
        lemma_digits_val_prefix_le(s, k + 1);
    }
}

/// Reads the digits of `s` from position `from` on as a decimal number
/// worth at most `bound`, rejecting an empty or non-digit remainder and
/// values over the bound.
fn parse_digits(s: &str, from: usize, bound: u64) -> (r: Option<u64>)
    requires
        from as int <= s@.len(),
    ensures
        match r {
            Some(v) => {
                let body = s@.skip(from as int);
                body.len() > 0 && all_digits(body) && digits_val(body) == v as int && v <= bound
            },
            None => {
                let body = s@.skip(from as int);
                body.len() == 0 || !all_digits(body) || digits_val(body) > bound
            },
        },
{
    let n = s.unicode_len();
    let start = from;
    let mut i: usize = from;
    if i == n {
        return None;
    }
    let ghost body = s@.skip(start as int);
    let mut acc: u128 = 0;
    while i < n
        invariant
            start == from,
            start <= i <= n,
            n == s@.len(),
            start < n,
            body == s@.skip(start as int),
            all_digits(body.take(i - start)),
            acc == digits_val(body.take(i - start)),
            acc <= bound,
            bound <= u64::MAX,
        decreases n - i,
    {
        let c = s.get_char(i);
        if (c as u32) < ('0' as u32) || (c as u32) > ('9' as u32) {
            proof {
                assert(body[i - start] == c);
                assert(!is_digit(body[i - start]));
            }
            return None;
        }
        let d: u128 = (c as u32 - '0' as u32) as u128;
        let next: u128 = acc * 10 + d;
        proof {
            assert(body[i - start] == c);
            lemma_digits_val_take_succ(body, i - start);
            assert(body.take(i - start + 1).take(i - start) =~= body.take(i - start));
        }
        if next > bound as u128 {
            proof {
                if all_digits(body) {
                    lemma_digits_val_prefix_le(body, i - start + 1);
                }
            }
            return None;
        }
        acc = next;
        i = i + 1;
    }
    proof {
        assert(body.take(i - start) =~= body);
    }
    Some(acc as u64)
}

/// Reads an unsigned decimal token worth at most `bound`: an optional
/// leading `+`, then digits.
fn parse_unsigned(s: &str, bound: u64) -> (r: Option<u64>)
    ensures
        match r {
            Some(v) => unsigned_from_str(s@, bound as int) == Some(v as int),
            None => unsigned_from_str(s@, bound as int) is None,
        },
{
    let n = s.unicode_len();
    let from: usize = if n > 0 && s.get_char(0) == '+' {
        1
    } else {
        0
    };
    proof {
        assert(unsigned_body(s@) =~= s@.skip(from as int));
    }
    parse_digits(s, from, bound)
}

/// The digit part of a signed token: an optional leading `+` or `-` is
/// skipped.
pub open spec fn signed_body(s: Seq<char>) -> Seq<char> {
    if s.len() > 0 && (s[0] == '+' || s[0] == '-') {
        s.drop_first()
    } else {
        s
    }
}

/// A signed decimal token: an optional sign, then one or more digits,
/// denoting a value between `min` and `max`.
pub open spec fn signed_from_str(s: Seq<char>, min: int, max: int) -> Option<int> {
    let body = signed_body(s);
    let v = if s.len() > 0 && s[0] == '-' {
        -digits_val(body)
    } else {
        digits_val(body)
    };
    if body.len() == 0 || !all_digits(body) {
        None
    } else if v < min || v > max {
        None
    } else {
        Some(v)
    }
}

impl FlagValue for u32 {
    open spec fn from_str_spec(s: Seq<char>) -> Option<u32> {
        match unsigned_from_str(s, u32::MAX as int) {
            Some(v) => Some(v as u32),
            None => None,
        }
    }

    fn from_arg(s: &str) -> (r: Option<u32>) {
        match parse_unsigned(s, u32::MAX as u64) {
            Some(v) => Some(v as u32),
            None => None,
        }
    }
}

impl FlagValue for u64 {
    open spec fn from_str_spec(s: Seq<char>) -> Option<u64> {
        match unsigned_from_str(s, u64::MAX as int) {
            Some(v) => Some(v as u64),
            None => None,
        }
    }

    fn from_arg(s: &str) -> (r: Option<u64>) {
        parse_unsigned(s, u64::MAX)
    }
}

impl FlagValue for i64 {
    open spec fn from_str_spec(s: Seq<char>) -> Option<i64> {
        match signed_from_str(s, i64::MIN as int, i64::MAX as int) {
            Some(v) => Some(v as i64),
            None => None,
        }
    }

    fn from_arg(s: &str) -> (r: Option<i64>) {
        let n = s.unicode_len();
        let neg = n > 0 && s.get_char(0) == '-';
        let from: usize = if n > 0 && (s.get_char(0) == '-' || s.get_char(0) == '+') {
            1
        } else {
            0
        };
        proof {
            assert(signed_body(s@) =~= s@.skip(from as int));
        }
        let bound: u64 = if neg {
            9223372036854775808u64
        } else {
            9223372036854775807u64
        };
        match parse_digits(s, from, bound) {
            Some(v) => {
                proof {
                    lemma_digits_val_nonneg(s@.skip(from as int));
                }
                if neg {
                    if v == 9223372036854775808u64 {
                        Some(i64::MIN)
                    } else {
                        Some(-(v as i64))
                    }
                } else {
                    Some(v as i64)
                }
            },
            None => {
                proof {
                    let body = signed_body(s@);
                    if body.len() > 0 && all_digits(body) {
                        lemma_digits_val_nonneg(body);
                    }
                }
                None
            },
        }
    }
}

/// Compares two string slices by their character sequences.
pub(crate) fn str_equal(a: &str, b: &str) -> (r: bool)
    ensures
        r == (a@ == b@),
{
    let sa = a.to_owned();
    let sb = b.to_owned();
    sa == sb
}

impl FlagValue for bool {
    open spec fn from_str_spec(s: Seq<char>) -> Option<bool> {
        if s == "true"@ {
            Some(true)
        } else if s == "false"@ {
            Some(false)
        } else {
            None
        }
    }

    fn from_arg(s: &str) -> (r: Option<bool>) {
        if str_equal(s, "true") {
            Some(true)
        } else if str_equal(s, "false") {
            Some(false)
        } else {
            None
        }
    }
}

impl FlagValue for String {
    open spec fn from_str_spec(s: Seq<char>) -> Option<Seq<char>> {
        Some(s)
    }

    fn from_arg(s: &str) -> (r: Option<String>) {
        Some(s.to_owned())
    }
}

} // verus!
