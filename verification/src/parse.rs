//! Parsing of textual coordinate pairs.
//!
//! The front end receives each corner of the viewport as one string holding
//! two values split by a separator character. The splitting and the decimal
//! integer grammar are verified here; turning a fractional half into a
//! floating-point number is left to the front end, which reuses the
//! verified splitter.

use vstd::prelude::*;
use vstd::string::StrSliceExecFns;

verus! {

/// Whether `c` is an ASCII decimal digit.
pub open spec fn is_digit(c: char) -> bool {
    48 <= c as u32 <= 57
}

/// The numeric value of a decimal digit.
pub open spec fn digit_val(c: char) -> int {
    c as u32 - 48
}

/// Whether every character of `s` is a decimal digit.
pub open spec fn all_digits(s: Seq<char>) -> bool {
    forall|i: int| 0 <= i < s.len() ==> is_digit(#[trigger] s[i])
}

/// The value of a digit string, most significant digit first.
pub open spec fn digits_val(s: Seq<char>) -> int
    decreases s.len(),
{
    if s.len() == 0 {
        0
    } else {
        digits_val(s.drop_last()) * 10 + digit_val(s.last())
    }
}

/// A digit string's value is never negative.
pub proof fn lemma_digits_val_nonneg(s: Seq<char>)
    requires
        all_digits(s),
    ensures
        digits_val(s) >= 0,
    decreases s.len(),
{
    if s.len() > 0 {
        assert(all_digits(s.drop_last()));
        lemma_digits_val_nonneg(s.drop_last());
    }
}

/// The signed 32-bit integer a string denotes: an optional single sign,
/// then one or more decimal digits, denoting a value that fits in `i32`.
/// Any other string denotes nothing. This is the decimal grammar that the
/// standard library's integer parse accepts.
pub open spec fn spec_parse_i32(s: Seq<char>) -> Option<i32> {
    let negative = s.len() > 0 && s[0] == '-';
    let signed = s.len() > 0 && (s[0] == '-' || s[0] == '+');
    let digits = if signed {
        s.subrange(1, s.len() as int)
    } else {
        s
    };
    if digits.len() == 0 || !all_digits(digits) {
        None
    } else {
        let v = if negative {
            -digits_val(digits)
        } else {
            digits_val(digits)
        };
        if i32::MIN <= v <= i32::MAX {
            Some(v as i32)
        } else {
            None
        }
    }
}

/// Parses a decimal `i32`, accepting exactly the strings of
/// [`spec_parse_i32`]'s grammar.
#[verifier::loop_isolation(false)]
pub fn parse_i32(s: &str) -> (r: Option<i32>)
    ensures
        r == spec_parse_i32(s@),
{
    let n = s.unicode_len();
    if n == 0 {
        return None;
    }
    let first = s.get_char(0);
    let negative = first == '-';
    let signed = negative || first == '+';
    let start: usize = if signed {
        1
    } else {
        0
    };
    if start == n {
        return None;
    }
    let ghost digits = if signed {
        s@.subrange(1, s@.len() as int)
    } else {
        s@
    };
    let mut acc: u64 = 0;
    let mut idx: usize = start;
    while idx < n
        invariant
            start <= idx <= n,
            all_digits(digits.subrange(0, idx - start)),
            0 <= digits_val(digits.subrange(0, idx - start)),
            acc == if digits_val(digits.subrange(0, idx - start)) <= 0x8000_0000 {
                digits_val(digits.subrange(0, idx - start))
            } else {
                0x8000_0001int
            },
        decreases n - idx,
    {
        let c = s.get_char(idx);
        let cu = c as u32;
        proof {
            assert(digits[idx - start] == s@[idx as int]);
        }
        if cu < 48 || cu > 57 {
            proof {
                assert(!is_digit(digits[idx - start]));
                assert(!all_digits(digits));
            }
            return None;
        }
        let d: u64 = (cu - 48) as u64;
        let ghost pre = digits.subrange(0, idx - start);
        let ghost pre2 = digits.subrange(0, idx + 1 - start);
        proof {
            assert(pre2.drop_last() =~= pre);
            assert(pre2.last() == digits[idx - start]);
            assert(digits_val(pre2) == digits_val(pre) * 10 + digit_val(digits[idx - start]));
            assert(all_digits(pre2));
            lemma_digits_val_nonneg(pre2);
        }
        if acc > 0x8000_0000 {
            // the value already exceeds every representable magnitude
            acc = 0x8000_0001;
        } else {
            acc = acc * 10 + d;
            if acc > 0x8000_0000 {
                acc = 0x8000_0001;
            }
        }
        idx = idx + 1;
    }
    proof {
        assert(digits.subrange(0, idx - start) =~= digits);
    }
    if negative {
        if acc > 0x8000_0000 {
            None
        } else {
            Some((-(acc as i64)) as i32)
        }
    } else {
        if acc > 0x7FFF_FFFF {
            None
        } else {
            Some(acc as i32)
        }
    }
}

/// The position of the first occurrence of `sep` in `s`, if any.
pub open spec fn spec_find(s: Seq<char>, sep: char) -> Option<int>
    decreases s.len(),
{
    if s.len() == 0 {
        None
    } else if s[0] == sep {
        Some(0int)
    } else {
        match spec_find(s.subrange(1, s.len() as int), sep) {
            None => None,
            Some(i) => Some(i + 1),
        }
    }
}

/// What [`spec_find`] returns: the first hit, or a miss everywhere.
pub proof fn lemma_find_char(s: Seq<char>, sep: char)
    ensures
        match spec_find(s, sep) {
            Some(i) => 0 <= i < s.len() && s[i] == sep && (forall|j: int|
                0 <= j < i ==> s[j] != sep),
            None => forall|j: int| 0 <= j < s.len() ==> s[j] != sep,
        },
    decreases s.len(),
{
    if s.len() != 0 && s[0] != sep {
        let t = s.subrange(1, s.len() as int);
        lemma_find_char(t, sep);
        match spec_find(t, sep) {
            None => {
                assert forall|j: int| 0 <= j < s.len() implies s[j] != sep by {
                    if j > 0 {
                        assert(t[j - 1] == s[j]);
                        assert(t[j - 1] != sep);
                    }
                }
            },
            Some(i) => {
                assert(spec_find(s, sep) == Some(i + 1));
                assert(t[i] == s[i + 1]);
                assert forall|j: int| 0 <= j < i + 1 implies s[j] != sep by {
                    if j > 0 {
                        assert(t[j - 1] == s[j]);
                        assert(t[j - 1] != sep);
                    }
                }
            },
        }
    }
}

/// Finds the first occurrence of `sep` in `s`.
pub fn find_char(s: &str, sep: char) -> (r: Option<usize>)
    ensures
        match r {
            Some(i) => spec_find(s@, sep) == Some(i as int),
            None => spec_find(s@, sep) is None,
        },
{
    let n = s.unicode_len();
    let mut i: usize = 0;
    while i < n
        invariant
            0 <= i <= n,
            n == s@.len(),
            forall|j: int| 0 <= j < i ==> s@[j] != sep,
        decreases n - i,
    {
        let c = s.get_char(i);
        if c == sep {
            proof {
                lemma_find_char(s@, sep);
            }
            return Some(i);
        }
        i = i + 1;
    }
    proof {
        lemma_find_char(s@, sep);
    }
    None
}

/// The pair of 32-bit integers a string denotes: the text before the first
/// separator and the text after it must each denote an integer; a string
/// with no separator, or with an unparsable half, denotes nothing.
pub open spec fn spec_parse_pair(s: Seq<char>, sep: char) -> Option<(i32, i32)> {
    match spec_find(s, sep) {
        None => None,
        Some(i) => {
            match (spec_parse_i32(s.subrange(0, i)), spec_parse_i32(
                s.subrange(i + 1, s.len() as int),
            )) {
                (Some(l), Some(r)) => Some((l, r)),
                _ => None,
            }
        },
    }
}

/// Parses a separated pair of decimal integers, the two halves being the
/// text on either side of the first occurrence of `separator`.
pub fn parse_pair(s: &str, separator: char) -> (r: Option<(i32, i32)>)
    ensures
        r == spec_parse_pair(s@, separator),
{
    match find_char(s, separator) {
        None => None,
        Some(i) => {
            proof {
                lemma_find_char(s@, separator);
            }
            let n = s.unicode_len();
            let left = s.substring_char(0, i);
            let right = s.substring_char(i + 1, n);
            match (parse_i32(left), parse_i32(right)) {
                (Some(l), Some(r)) => Some((l, r)),
                _ => None,
            }
        },
    }
}

/// Splits `s` at the first occurrence of `separator`, handing back the two
/// halves; there is no half to hand back when the separator is absent.
/// The front end parses each half further by means of its own.
pub fn split_at_separator(s: &str, separator: char) -> (r: Option<(String, String)>)
    ensures
        match r {
            Some(parts) => spec_find(s@, separator) matches Some(i) && parts.0@ == s@.subrange(
                0,
                i,
            ) && parts.1@ == s@.subrange(i + 1, s@.len() as int),
            None => spec_find(s@, separator) is None,
        },
{
    match find_char(s, separator) {
        None => None,
        Some(i) => {
            proof {
                lemma_find_char(s@, separator);
            }
            let n = s.unicode_len();
            let left = s.substring_char(0, i).to_owned();
            let right = s.substring_char(i + 1, n).to_owned();
            Some((left, right))
        },
    }
}

} // verus!
