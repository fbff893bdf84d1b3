//! Sequences of characters: conversion from and to strings, occurrence of a
//! pattern, and replacement of every occurrence.

use vstd::prelude::*;

verus! {

/// `pat` stands in `s` at index `i`.
pub open spec fn occurs_at(s: Seq<char>, pat: Seq<char>, i: int) -> bool {
    0 <= i && i + pat.len() <= s.len() && s.subrange(i, i + pat.len()) == pat
}

/// `pat` stands somewhere in `s`.
pub open spec fn contains(s: Seq<char>, pat: Seq<char>) -> bool {
    exists|i: int| occurs_at(s, pat, i)
}

/// The part of `s` from index `i` on, with every occurrence of `from` replaced
/// by `to`, scanning from the left; occurrences that overlap an earlier
/// replaced one are not seen, and an empty `from` is replaced nowhere.
pub open spec fn replace_from(s: Seq<char>, from: Seq<char>, to: Seq<char>, i: int) -> Seq<char>
    decreases s.len() - i,
{
    if i < 0 || i >= s.len() {
        Seq::empty()
    } else if from.len() > 0 && occurs_at(s, from, i) {
        to + replace_from(s, from, to, i + from.len())
    } else {
        seq![s[i]] + replace_from(s, from, to, i + 1)
    }
}

/// `s` with every occurrence of `from` replaced by `to`, leftmost first and
/// without overlap.
pub open spec fn replace_all(s: Seq<char>, from: Seq<char>, to: Seq<char>) -> Seq<char> {
    replace_from(s, from, to, 0)
}

/// The part of `s` from index `i` on, with every occurrence of `first` and of
/// `second` replaced in one pass from the left; where both stand at an index,
/// `first` is taken.
pub open spec fn replace_both_from(
    s: Seq<char>,
    first: (Seq<char>, Seq<char>),
    second: (Seq<char>, Seq<char>),
    i: int,
) -> Seq<char>
    decreases s.len() - i,
{
    if i < 0 || i >= s.len() {
        Seq::empty()
    } else if first.0.len() > 0 && occurs_at(s, first.0, i) {
        first.1 + replace_both_from(s, first, second, i + first.0.len())
    } else if second.0.len() > 0 && occurs_at(s, second.0, i) {
        second.1 + replace_both_from(s, first, second, i + second.0.len())
    } else {
        seq![s[i]] + replace_both_from(s, first, second, i + 1)
    }
}

/// An occurrence, character by character.
pub proof fn lemma_occurs_at(s: Seq<char>, pat: Seq<char>, i: int)
    ensures
        occurs_at(s, pat, i) <==> (0 <= i && i + pat.len() <= s.len() && forall|k: int|
            0 <= k < pat.len() ==> s[i + k] == #[trigger] pat[k]),
{
    if 0 <= i && i + pat.len() <= s.len() {
        let sub = s.subrange(i, i + pat.len());
        if sub == pat {
            assert forall|k: int| 0 <= k < pat.len() implies s[i + k] == #[trigger] pat[k] by {
                assert(sub[k] == s[i + k]);
            }
        }
        if forall|k: int| 0 <= k < pat.len() ==> s[i + k] == #[trigger] pat[k] {
            assert(sub =~= pat);
        }
    }
}

/// Where `from` stands nowhere from index `i` on, replacing keeps the rest of
/// the text as it is.
pub proof fn lemma_replace_without_occurrence(s: Seq<char>, from: Seq<char>, to: Seq<char>, i: int)
    requires
        0 <= i <= s.len(),
        forall|j: int| i <= j ==> !occurs_at(s, from, j),
    ensures
        replace_from(s, from, to, i) == s.subrange(i, s.len() as int),
    decreases s.len() - i,
{
    if i < s.len() {
        lemma_replace_without_occurrence(s, from, to, i + 1);
        assert(seq![s[i]] + s.subrange(i + 1, s.len() as int) =~= s.subrange(i, s.len() as int));
    } else {
        assert(s.subrange(i, s.len() as int) =~= Seq::<char>::empty());
    }
}

/// Where what replaces is shorter than what is replaced, replacing never
/// lengthens the text, and it keeps the length only where nothing occurs.
pub proof fn lemma_replace_shortens(s: Seq<char>, from: Seq<char>, to: Seq<char>, i: int)
    requires
        0 <= i <= s.len(),
        to.len() < from.len(),
    ensures
        replace_from(s, from, to, i).len() <= s.len() - i,
        replace_from(s, from, to, i).len() == s.len() - i ==> forall|j: int|
            i <= j ==> !occurs_at(s, from, j),
    decreases s.len() - i,
{
    if i < s.len() {
        if occurs_at(s, from, i) {
            lemma_replace_shortens(s, from, to, i + from.len());
        } else {
            lemma_replace_shortens(s, from, to, i + 1);
        }
    }
}

/// Replacing behind a prefix sees only what stands behind it.
pub proof fn lemma_replace_behind_prefix(
    x: Seq<char>,
    y: Seq<char>,
    from: Seq<char>,
    to: Seq<char>,
    k: int,
)
    requires
        0 <= k,
    ensures
        replace_from(x + y, from, to, x.len() + k) == replace_from(y, from, to, k),
    decreases y.len() - k,
{
    let s = x + y;
    let i = x.len() + k;
    if k < y.len() {
        assert(s[i] == y[k]);
        if i + from.len() <= s.len() {
            assert(s.subrange(i, i + from.len()) =~= y.subrange(k, k + from.len()));
        }
        if from.len() > 0 && occurs_at(s, from, i) {
            lemma_replace_behind_prefix(x, y, from, to, k + from.len());
        } else {
            lemma_replace_behind_prefix(x, y, from, to, k + 1);
        }
    }
}

/// A prefix in which no occurrence begins is kept, and replacing goes on
/// behind it.
pub proof fn lemma_replace_keeps_prefix(
    x: Seq<char>,
    y: Seq<char>,
    from: Seq<char>,
    to: Seq<char>,
    i: int,
)
    requires
        0 <= i <= x.len(),
        forall|j: int| i <= j < x.len() ==> !occurs_at(x + y, from, j),
    ensures
        replace_from(x + y, from, to, i) == x.subrange(i, x.len() as int) + replace_all(
            y,
            from,
            to,
        ),
    decreases x.len() - i,
{
    if i < x.len() {
        lemma_replace_keeps_prefix(x, y, from, to, i + 1);
        assert((x + y)[i] == x[i]);
        assert(seq![x[i]] + (x.subrange(i + 1, x.len() as int) + replace_all(y, from, to))
            =~= x.subrange(i, x.len() as int) + replace_all(y, from, to));
    } else {
        lemma_replace_behind_prefix(x, y, from, to, 0);
        assert(x.subrange(i, x.len() as int) + replace_all(y, from, to) =~= replace_all(
            y,
            from,
            to,
        ));
    }
}

/// A run of the text in which no occurrence begins is copied, and replacing
/// goes on behind it.
pub proof fn lemma_replace_copies_run(s: Seq<char>, from: Seq<char>, to: Seq<char>, i: int, k: int)
    requires
        0 <= i,
        0 <= k,
        i + k <= s.len(),
        forall|j: int| i <= j < i + k ==> !occurs_at(s, from, j),
    ensures
        replace_from(s, from, to, i) == s.subrange(i, i + k) + replace_from(s, from, to, i + k),
    decreases k,
{
    if k == 0 {
        assert(s.subrange(i, i) + replace_from(s, from, to, i) =~= replace_from(s, from, to, i));
    } else {
        lemma_replace_copies_run(s, from, to, i + 1, k - 1);
        assert(seq![s[i]] + (s.subrange(i + 1, i + k) + replace_from(s, from, to, i + k))
            =~= s.subrange(i, i + k) + replace_from(s, from, to, i + k));
    }
}

/// The characters of a string, by `str::chars` collected into a vector: the
/// vector holds the string's characters in order. A loop over `get_char`
/// would give the same with nothing left to trust, but in quadratic time,
/// which a page body does not allow.
#[verifier::external_body]
pub(crate) fn chars_of(s: &str) -> (v: Vec<char>)
    ensures
        v@ == s@,
{
    s.chars().collect()
}

/// A string of the given characters, by `String::from_iter`: the string holds
/// the vector's characters in order.
#[verifier::external_body]
pub(crate) fn string_of(v: &Vec<char>) -> (s: String)
    ensures
        s@ == v@,
{
    String::from_iter(v.iter())
}

/// Tells whether `pat` stands in `s` at index `i`.
pub fn matches_at(s: &Vec<char>, pat: &Vec<char>, i: usize) -> (r: bool)
    ensures
        r == occurs_at(s@, pat@, i as int),
{
    if pat.len() > s.len() || i > s.len() - pat.len() {
        return false;
    }
    let mut k: usize = 0;
    while k < pat.len()
        invariant
            k <= pat.len(),
            i + pat.len() <= s.len(),
            forall|j: int| 0 <= j < k ==> s[i + j] == pat[j],
        decreases pat.len() - k,
    {
        if s[i + k] != pat[k] {
            proof {
                assert(s@.subrange(i as int, i + pat.len())[k as int] == s[i + k]);
            }
            return false;
        }
        k += 1;
    }
    proof {
        assert(s@.subrange(i as int, i + pat.len()) =~= pat@);
    }
    true
}

/// Replaces every occurrence of `from` in `s` by `to`; with an empty `from`
/// nothing is replaced.
pub fn replace_chars(s: &Vec<char>, from: &Vec<char>, to: &Vec<char>) -> (r: Vec<char>)
    ensures
        r@ == replace_all(s@, from@, to@),
{
    let mut out: Vec<char> = Vec::new();
    let mut i: usize = 0;
    while i < s.len()
        invariant
            i <= s.len(),
            out@ + replace_from(s@, from@, to@, i as int) == replace_all(s@, from@, to@),
        decreases s.len() - i,
    {
        let ghost before = out@;
        if from.len() > 0 && matches_at(s, from, i) {
            let mut k: usize = 0;
            while k < to.len()
                invariant
                    k <= to.len(),
                    out@ == before + to@.subrange(0, k as int),
                decreases to.len() - k,
            {
                out.push(to[k]);
                k += 1;
            }
            proof {
                assert(to@.subrange(0, to.len() as int) =~= to@);
                assert((before + to@) + replace_from(s@, from@, to@, i + from.len())
                    =~= before + (to@ + replace_from(s@, from@, to@, i + from.len())));
            }
            i += from.len();
        } else {
            out.push(s[i]);
            proof {
                assert((before + seq![s[i as int]]) + replace_from(s@, from@, to@, i + 1)
                    =~= before + (seq![s[i as int]] + replace_from(s@, from@, to@, i + 1)));
            }
            i += 1;
        }
    }
    proof {
        assert(out@ + Seq::<char>::empty() =~= out@);
    }
    out
}

} // verus!
