//! Decoding of `\uXXXX` escapes, repeated until none that decodes is left.

use vstd::prelude::*;
use crate::text::{chars_of, string_of};

verus! {

/// The value of a hexadecimal digit, or -1 for any other character.
pub open spec fn hex_value(c: char) -> int {
    let n = c as u32 as int;
    if 0x30 <= n <= 0x39 {
        n - 0x30
    } else if 0x61 <= n <= 0x66 {
        n - 0x61 + 10
    } else if 0x41 <= n <= 0x46 {
        n - 0x41 + 10
    } else {
        -1
    }
}

/// An escape stands in `s` at index `i`: a backslash, the letter `u` and four
/// hexadecimal digits.
pub open spec fn escape_at(s: Seq<char>, i: int) -> bool {
    0 <= i && i + 6 <= s.len() && s[i] == '\\' && s[i + 1] == 'u' && hex_value(s[i + 2]) >= 0
        && hex_value(s[i + 3]) >= 0 && hex_value(s[i + 4]) >= 0 && hex_value(s[i + 5]) >= 0
}

/// The number that the four digits of the escape at `i` write.
pub open spec fn escape_code(s: Seq<char>, i: int) -> int {
    hex_value(s[i + 2]) * 4096 + hex_value(s[i + 3]) * 256 + hex_value(s[i + 4]) * 16 + hex_value(
        s[i + 5],
    )
}

/// The number is the code of a character: surrogates are not.
pub open spec fn is_scalar(code: int) -> bool {
    0 <= code < 0xD800 || 0xDFFF < code <= 0x10FFFF
}

/// An escape that decodes to a character stands in `s` at index `i`.
pub open spec fn decodable_at(s: Seq<char>, i: int) -> bool {
    escape_at(s, i) && is_scalar(escape_code(s, i))
}

/// The part of `s` from index `i` on after one pass: each escape that decodes
/// is replaced by its character, anything else is kept.
pub open spec fn decode_from(s: Seq<char>, i: int) -> Seq<char>
    decreases s.len() - i,
{
    if i < 0 || i >= s.len() {
        Seq::empty()
    } else if decodable_at(s, i) {
        seq![(escape_code(s, i) as u32) as char] + decode_from(s, i + 6)
    } else {
        seq![s[i]] + decode_from(s, i + 1)
    }
}

/// One pass over the whole of `s`.
pub open spec fn decode_pass(s: Seq<char>) -> Seq<char> {
    decode_from(s, 0)
}

/// Passes repeated until one replaces nothing, which is when it no longer
/// shortens the text.
pub open spec fn normalize(s: Seq<char>) -> Seq<char>
    decreases s.len(),
{
    let t = decode_pass(s);
    if t.len() < s.len() {
        normalize(t)
    } else {
        s
    }
}

/// A pass never lengthens the text, and where it keeps the length it found no
/// escape that decodes and kept the text as it was.
pub proof fn lemma_decode_from(s: Seq<char>, i: int)
    requires
        0 <= i <= s.len(),
    ensures
        decode_from(s, i).len() <= s.len() - i,
        decode_from(s, i).len() == s.len() - i ==> decode_from(s, i) == s.subrange(
            i,
            s.len() as int,
        ) && forall|k: int| i <= k ==> !decodable_at(s, k),
    decreases s.len() - i,
{
    if i < s.len() {
        if decodable_at(s, i) {
            lemma_decode_from(s, i + 6);
        } else {
            lemma_decode_from(s, i + 1);
            if decode_from(s, i).len() == s.len() - i {
                assert(decode_from(s, i) =~= s.subrange(i, s.len() as int));
            }
        }
    } else {
        assert(decode_from(s, i) =~= s.subrange(i, s.len() as int));
    }
}

/// Normalizing is idempotent: a second application changes nothing.
pub proof fn lemma_normalize_idempotent(s: Seq<char>)
    ensures
        normalize(normalize(s)) == normalize(s),
    decreases s.len(),
{
    let t = decode_pass(s);
    if t.len() < s.len() {
        lemma_normalize_idempotent(t);
    }
}

/// No escape that decodes is left in a normalized text.
pub proof fn lemma_normalize_leaves_no_escape(s: Seq<char>)
    ensures
        forall|k: int| !decodable_at(normalize(s), k),
        decode_pass(normalize(s)) == normalize(s),
    decreases s.len(),
{
    let t = decode_pass(s);
    if t.len() < s.len() {
        lemma_normalize_leaves_no_escape(t);
    } else {
        lemma_decode_from(s, 0);
        assert(s.subrange(0, s.len() as int) =~= s);
    }
}

/// The character with the given code, by `char::from_u32`: some character,
/// with that code, unless the code is a surrogate or above the last code
/// point.
#[verifier::external_body]
fn scalar_char(code: u32) -> (r: Option<char>)
    ensures
        r == if is_scalar(code as int) {
            Some(code as char)
        } else {
            None::<char>
        },
{
    char::from_u32(code)
}

/// The value of a hexadecimal digit.
pub fn hex_digit(c: char) -> (r: Option<u32>)
    ensures
        match r {
            Some(v) => v < 16 && hex_value(c) == v,
            None => hex_value(c) < 0,
        },
{
    let n: u32 = c as u32;
    if 0x30 <= n && n <= 0x39 {
        Some(n - 0x30)
    } else if 0x61 <= n && n <= 0x66 {
        Some(n - 0x61 + 10)
    } else if 0x41 <= n && n <= 0x46 {
        Some(n - 0x41 + 10)
    } else {
        None
    }
}

/// The character that the escape at index `i` decodes to, if an escape that
/// decodes stands there.
pub fn decode_at(s: &Vec<char>, i: usize) -> (r: Option<char>)
    ensures
        r == if decodable_at(s@, i as int) {
            Some((escape_code(s@, i as int) as u32) as char)
        } else {
            None::<char>
        },
{
    if s.len() < 6 || i > s.len() - 6 {
        return None;
    }
    if s[i] != '\\' || s[i + 1] != 'u' {
        return None;
    }
    match (hex_digit(s[i + 2]), hex_digit(s[i + 3]), hex_digit(s[i + 4]), hex_digit(s[i + 5])) {
        (Some(a), Some(b), Some(c), Some(d)) => {
            let code: u32 = a * 4096 + b * 256 + c * 16 + d;
            scalar_char(code)
        },
        _ => None,
    }
}

/// One pass: every escape that decodes is replaced by its character.
pub fn decode_once(s: &Vec<char>) -> (r: Vec<char>)
    ensures
        r@ == decode_pass(s@),
{
    let mut out: Vec<char> = Vec::new();
    let mut i: usize = 0;
    while i < s.len()
        invariant
            i <= s.len(),
            out@ + decode_from(s@, i as int) == decode_pass(s@),
        decreases s.len() - i,
    {
        let ghost before = out@;
        match decode_at(s, i) {
            Some(c) => {
                out.push(c);
                proof {
                    assert((before + seq![c]) + decode_from(s@, i + 6) =~= before + (seq![c]
                        + decode_from(s@, i + 6)));
                }
                i += 6;
            },
            None => {
                out.push(s[i]);
                proof {
                    assert((before + seq![s[i as int]]) + decode_from(s@, i + 1) =~= before + (
                    seq![s[i as int]] + decode_from(s@, i + 1)));
                }
                i += 1;
            },
        }
    }
    proof {
        assert(out@ + Seq::<char>::empty() =~= out@);
    }
    out
}

/// Decodes the escapes of a text, pass after pass, until a pass finds none
/// that decodes.
pub fn decode_unicode_chars(s: Vec<char>) -> (r: Vec<char>)
    ensures
        r@ == normalize(s@),
{
    let ghost start = s@;
    let mut cur = s;
    loop
        invariant
            start == s@,
            normalize(cur@) == normalize(start),
        decreases cur.len(),
    {
        let next = decode_once(&cur);
        if next.len() < cur.len() {
            cur = next;
        } else {
            assert(normalize(cur@) == cur@);
            return cur;
        }
    }
}

/// Decodes every `\uXXXX` escape of a string, doubly escaped ones too.
pub fn decode_unicode_escapes(s: &str) -> (r: String)
    ensures
        r@ == normalize(s@),
{
    let decoded = decode_unicode_chars(chars_of(s));
    string_of(&decoded)
}

} // verus!
