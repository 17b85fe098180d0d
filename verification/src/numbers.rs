//! The number-list validator: the raw values of one form parameter are
//! parsed as base-ten unsigned 64-bit integers. A value with any
//! non-digit character, an empty value, and a value beyond the 64-bit
//! range are all rejected, and validation stops at the first rejected
//! value.

use vstd::prelude::*;

verus! {

use vstd::string::StrSliceExecFns;
use crate::error::ApiError;
use crate::form::ParsedForm;
use crate::form::lookup;

/// A decimal digit.
pub open spec fn is_digit(c: char) -> bool {
    '0' <= c && c <= '9'
}

/// The numeric value of a decimal digit.
pub open spec fn digit_val(c: char) -> nat
    recommends
        is_digit(c),
{
    (c as int - '0' as int) as nat
}

/// The number a digit string stands for, read in base ten.
pub open spec fn digits_val(s: Seq<char>) -> nat
    decreases s.len(),
{
    if s.len() == 0 {
        0
    } else {
        10 * digits_val(s.drop_last()) + digit_val(s.last())
    }
}

/// A raw value that passes validation: non-empty, nothing but decimal
/// digits (no sign, no whitespace), and within the unsigned 64-bit
/// range.
pub open spec fn valid_number(s: Seq<char>) -> bool {
    &&& s.len() > 0
    &&& forall|i: int| 0 <= i < s.len() ==> is_digit(#[trigger] s[i])
    &&& digits_val(s) <= u64::MAX
}

/// Index of the first raw value that fails validation, or `vs.len()`
/// when every value passes.
pub open spec fn first_invalid(vs: Seq<Seq<char>>) -> int
    decreases vs.len(),
{
    if vs.len() == 0 {
        0
    } else if !valid_number(vs[0]) {
        0
    } else {
        1 + first_invalid(vs.skip(1))
    }
}

/// The numbers of a fully valid value list, in order.
pub open spec fn numbers_of(vs: Seq<Seq<char>>) -> Seq<u64> {
    vs.map(|i: int, v: Seq<char>| digits_val(v) as u64)
}

/// Any index with the first-failure properties is `first_invalid`.
proof fn lemma_first_invalid_unique(vs: Seq<Seq<char>>, j: int)
    requires
        0 <= j <= vs.len(),
        forall|k: int| 0 <= k < j ==> valid_number(#[trigger] vs[k]),
        j < vs.len() ==> !valid_number(vs[j]),
    ensures
        first_invalid(vs) == j,
    decreases vs.len(),
{
    if vs.len() == 0 {
    } else if j == 0 {
    } else {
        assert forall|k: int| 0 <= k < j - 1 implies valid_number(#[trigger] vs.skip(1)[k]) by {
            assert(vs.skip(1)[k] == vs[k + 1]);
        }
        if j - 1 < vs.skip(1).len() {
            assert(vs.skip(1)[j - 1] == vs[j]);
        }
        lemma_first_invalid_unique(vs.skip(1), j - 1);
    }
}

/// A longer digit string never stands for a smaller number.
proof fn lemma_digits_val_monotone(s: Seq<char>, j: int)
    requires
        0 <= j <= s.len(),
    ensures
        digits_val(s) >= digits_val(s.take(j)),
    decreases s.len() - j,
{
    if j == s.len() {
        assert(s.take(j) =~= s);
    } else {
        assert(s.take(j + 1).drop_last() =~= s.take(j));
        lemma_digits_val_monotone(s, j + 1);
    }
}

/// Parse one raw value as an unsigned 64-bit base-ten number: `Some`
/// exactly when the value is non-empty, all digits and in range, and
/// then the number it stands for.
pub fn parse_u64(s: &str) -> (r: Option<u64>)
    ensures
        match r {
            Some(v) => valid_number(s@) && v == digits_val(s@),
            None => !valid_number(s@),
        },
{
    let n = s.unicode_len();
    if n == 0 {
        return None;
    }
    let mut acc: u64 = 0;
    let mut i: usize = 0;
    while i < n
        invariant
            i <= n,
            n == s@.len(),
            forall|k: int| 0 <= k < i ==> is_digit(#[trigger] s@[k]),
            acc == digits_val(s@.take(i as int)),
        decreases n - i,
    {
        let c = s.get_char(i);
        if !(c >= '0' && c <= '9') {
            // A sign, whitespace or any other non-digit character
            // fails the whole value.
            return None;
        }
        let d: u64 = ((c as u8) - ('0' as u8)) as u64;
        proof {
            assert(s@.take(i + 1).drop_last() =~= s@.take(i as int));
            assert(s@.take(i + 1).last() == s@[i as int]);
        }
        if acc > (u64::MAX - d) / 10 {
            proof {
                assert(digits_val(s@.take(i + 1)) > u64::MAX);
                lemma_digits_val_monotone(s@, i + 1);
            }
            return None;
        }
        acc = acc * 10 + d;
        i = i + 1;
    }
    proof {
        assert(s@.take(n as int) =~= s@);
    }
    Some(acc)
}

/// Look the parameter up and parse its values, as the service rules
/// demand: a missing parameter, the first invalid value and an empty
/// value list each yield their own error, and otherwise every value is
/// returned as a number, in order.
pub fn validate_numbers(form: &ParsedForm, name: &str) -> (r: Result<Vec<u64>, ApiError>)
    ensures
        match lookup(form@, name@) {
            Option::None => r matches Err(e) && e is MissingParameter,
            Option::Some(vs) => {
                if first_invalid(vs) < vs.len() {
                    r matches Err(e) && e matches ApiError::InvalidNumber(raw) && raw@ == vs[
                        first_invalid(vs)
                    ]
                } else if vs.len() == 0 {
                    r matches Err(e) && e is EmptyList
                } else {
                    r matches Ok(ns) && ns@ == numbers_of(vs)
                }
            },
        },
{
    let values = match form.get(name) {
        Some(vs) => vs,
        None => {
            return Err(ApiError::MissingParameter);
        },
    };
    let ghost vs = values.deep_view();
    let n = values.len();
    let mut numbers: Vec<u64> = Vec::new();
    let mut k: usize = 0;
    while k < n
        invariant
            k <= n,
            n == values.len(),
            vs == values.deep_view(),
            lookup(form@, name@) == Some(vs),
            forall|j: int| 0 <= j < k ==> valid_number(#[trigger] vs[j]),
            numbers@.len() == k,
            forall|j: int| 0 <= j < k ==> numbers@[j] == digits_val(vs[j]) as u64,
        decreases n - k,
    {
        match parse_u64(values[k].as_str()) {
            Some(v) => {
                numbers.push(v);
            },
            None => {
                proof {
                    lemma_first_invalid_unique(vs, k as int);
                }
                return Err(ApiError::InvalidNumber(values[k].clone()));
            },
        }
        k = k + 1;
    }
    if numbers.is_empty() {
        proof {
            lemma_first_invalid_unique(vs, 0);
        }
        return Err(ApiError::EmptyList);
    }
    proof {
        lemma_first_invalid_unique(vs, n as int);
        assert(numbers@ =~= numbers_of(vs));
    }
    Ok(numbers)
}

} // verus!
