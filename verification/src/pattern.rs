//! Searches by regular expression, and the names under which the contracts
//! speak of what they find.

use vstd::prelude::*;

verus! {

/// The text of the leftmost match of `pattern` in `text`; nothing where the
/// pattern matches nowhere or does not compile.
pub uninterp spec fn leftmost_match(pattern: Seq<char>, text: Seq<char>) -> Option<Seq<char>>;

/// The text that the first capture group holds in the leftmost match of
/// `pattern` in `text`; nothing where there is no match, where the group took
/// no part in it, or where the pattern does not compile.
pub uninterp spec fn first_group(pattern: Seq<char>, text: Seq<char>) -> Option<Seq<char>>;

/// The texts of the successive matches of `pattern` in `text`, from the left
/// and without overlap; none where the pattern does not compile.
pub uninterp spec fn all_matches(pattern: Seq<char>, text: Seq<char>) -> Seq<Seq<char>>;

/// What an optional string holds.
pub open spec fn text_of(found: Option<String>) -> Option<Seq<char>> {
    match found {
        Some(s) => Some(s@),
        None => None,
    }
}

/// What each string of a list holds.
pub open spec fn texts_of(found: Seq<String>) -> Seq<Seq<char>> {
    Seq::new(found.len(), |i: int| found[i]@)
}

/// What each optional string of a list holds.
pub open spec fn options_of(found: Seq<Option<String>>) -> Seq<Option<Seq<char>>> {
    Seq::new(found.len(), |i: int| text_of(found[i]))
}

/// Compiles the pattern with `regex::Regex::new` and searches the text with
/// `Regex::find`. Not proved: that the matched text is the one named
/// `leftmost_match`, which stands for what that search returns.
#[verifier::external_body]
pub(crate) fn find_first(pattern: &str, text: &str) -> (r: Option<String>)
    ensures
        text_of(r) == leftmost_match(pattern@, text@),
{
    match regex::Regex::new(pattern) {
        Ok(re) => re.find(text).map(|m| m.as_str().to_string()),
        Err(_) => None,
    }
}

/// Compiles the pattern with `regex::Regex::new`, searches the text with
/// `Regex::captures` and takes group 1 with `Captures::get`. Not proved: that
/// the group's text is the one named `first_group`, which stands for what
/// those calls return.
#[verifier::external_body]
pub(crate) fn capture_first(pattern: &str, text: &str) -> (r: Option<String>)
    ensures
        text_of(r) == first_group(pattern@, text@),
{
    match regex::Regex::new(pattern) {
        Ok(re) => re.captures(text).and_then(|c| c.get(1)).map(|m| m.as_str().to_string()),
        Err(_) => None,
    }
}

/// Compiles the pattern with `regex::Regex::new` and collects what
/// `Regex::find_iter` yields. Not proved: that the matched texts are those
/// named `all_matches`, which stands for what that iteration yields.
#[verifier::external_body]
pub(crate) fn find_every(pattern: &str, text: &str) -> (r: Vec<String>)
    ensures
        texts_of(r@) == all_matches(pattern@, text@),
{
    match regex::Regex::new(pattern) {
        Ok(re) => re.find_iter(text).map(|m| m.as_str().to_string()).collect(),
        Err(_) => Vec::new(),
    }
}

/// The first text that was found, in the order of the list.
pub open spec fn first_some(found: Seq<Option<Seq<char>>>, i: int) -> Option<Seq<char>>
    decreases found.len() - i,
{
    if i < 0 || i >= found.len() {
        None
    } else if found[i] is Some {
        found[i]
    } else {
        first_some(found, i + 1)
    }
}

/// Picks the first text that was found, in the order of the list.
pub fn first_found(found: &Vec<Option<String>>) -> (r: Option<String>)
    ensures
        text_of(r) == first_some(options_of(found@), 0),
{
    let mut i: usize = 0;
    while i < found.len()
        invariant
            i <= found.len(),
            first_some(options_of(found@), 0) == first_some(options_of(found@), i as int),
        decreases found.len() - i,
    {
        assert(options_of(found@)[i as int] == text_of(found@[i as int]));
        match &found[i] {
            Some(s) => {
                return Some(s.clone());
            },
            None => {},
        }
        i += 1;
    }
    None
}

} // verus!
