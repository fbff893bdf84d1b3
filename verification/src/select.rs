//! Choosing one of the quality options by the number that was typed.

use vstd::prelude::*;
use crate::error::ResolveError;
use crate::extract::{all_digits, digits_value, is_digit, lemma_digits_value_grows};
use crate::quality::QualityOption;
use crate::text::chars_of;

verus! {

/// The digits of a typed number: the text without a leading plus sign.
pub open spec fn typed_digits(choice: Seq<char>) -> Seq<char> {
    if choice.len() > 0 && choice[0] == '+' {
        choice.remove(0)
    } else {
        choice
    }
}

/// The index that a typed choice stands for among `count` options, which are
/// numbered from 1: the first option where the text is no number or the
/// number names no option.
pub open spec fn chosen_index(count: nat, choice: Seq<char>) -> int {
    let digits = typed_digits(choice);
    if digits.len() > 0 && all_digits(digits) && 1 <= digits_value(digits) <= count {
        digits_value(digits) - 1
    } else {
        0
    }
}

/// Reads the number that the digits write, where they write one that is no
/// greater than `limit`.
pub fn digits_up_to(chars: &Vec<char>, limit: usize) -> (r: Option<usize>)
    ensures
        match r {
            Some(n) => chars@.len() > 0 && all_digits(chars@) && n == digits_value(chars@) && n
                <= limit,
            None => !(chars@.len() > 0 && all_digits(chars@) && digits_value(chars@) <= limit),
        },
{
    if chars.len() == 0 {
        return None;
    }
    let mut acc: usize = 0;
    let mut i: usize = 0;
    while i < chars.len()
        invariant
            i <= chars.len(),
            chars.len() > 0,
            all_digits(chars@.take(i as int)),
            acc == digits_value(chars@.take(i as int)),
            acc <= limit,
        decreases chars.len() - i,
    {
        let n: u32 = chars[i] as u32;
        if n < 0x30 || n > 0x39 {
            assert(!is_digit(chars@[i as int]));
            return None;
        }
        let d: usize = (n - 0x30) as usize;
        proof {
            assert(chars@.take(i + 1).drop_last() =~= chars@.take(i as int));
            assert(chars@.take(i + 1).last() == chars[i as int]);
            assert forall|k: int| 0 <= k < i + 1 implies is_digit(
                #[trigger] chars@.take(i + 1)[k],
            ) by {
                if k < i {
                    assert(chars@.take(i as int)[k] == chars@.take(i + 1)[k]);
                }
            }
        }
        if d > limit || acc > (limit - d) / 10 {
            proof {
                assert(digits_value(chars@.take(i + 1)) > limit);
                if all_digits(chars@) {
                    lemma_digits_value_grows(chars@, i + 1);
                }
            }
            return None;
        }
        acc = acc * 10 + d;
        i += 1;
    }
    proof {
        assert(chars@.take(i as int) =~= chars@);
    }
    Some(acc)
}

/// Returns the address of the option that the typed choice names, and of the
/// first option where it names none. An empty list has nothing to choose
/// from.
pub fn select_quality(qualities: &Vec<QualityOption>, choice: &str) -> (r: Result<
    String,
    ResolveError,
>)
    ensures
        match r {
            Ok(url) => qualities.len() > 0 && url@ == qualities[chosen_index(
                qualities.len() as nat,
                choice@,
            )].url@,
            Err(e) => e == ResolveError::EmptyQualityList && qualities.len() == 0,
        },
{
    if qualities.len() == 0 {
        return Err(ResolveError::EmptyQualityList);
    }
    let mut digits = chars_of(choice);
    if digits.len() > 0 && digits[0] == '+' {
        digits.remove(0);
    }
    let index: usize = match digits_up_to(&digits, qualities.len()) {
        Some(number) => if number >= 1 {
            number - 1
        } else {
            0
        },
        None => 0,
    };
    Ok(qualities[index].url.clone())
}

} // verus!
