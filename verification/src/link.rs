//! Finding a link in pasted text, and a content number in a location.

use vstd::prelude::*;
use crate::error::ResolveError;
use crate::pattern::{capture_first, find_first, first_found, first_group, first_some, leftmost_match, options_of, text_of};

verus! {

/// What each link pattern finds in the text, in the order of preference: the
/// short link, the two video pages, the note page.
pub open spec fn link_matches(text: Seq<char>) -> Seq<Option<Seq<char>>> {
    seq![
        leftmost_match(r"https://v\.douyin\.com/[A-Za-z0-9\-]+/?"@, text),
        leftmost_match(r"https://www\.douyin\.com/video/\d+"@, text),
        leftmost_match(r"https://www\.iesdouyin\.com/share/video/\d+"@, text),
        leftmost_match(r"https://www\.douyin\.com/note/\d+"@, text),
    ]
}

/// The link of the text: the leftmost match of the first pattern that matches
/// anywhere in it.
pub open spec fn link_in(text: Seq<char>) -> Option<Seq<char>> {
    first_some(link_matches(text), 0)
}

/// What each content-number pattern captures in a location, in the order of
/// preference.
pub open spec fn video_id_matches(url: Seq<char>) -> Seq<Option<Seq<char>>> {
    seq![
        first_group(r"/video/(\d+)"@, url),
        first_group(r"/share/video/(\d+)"@, url),
        first_group(r"video_id=(\d+)"@, url),
        first_group(r"aweme_id=(\d+)"@, url),
        first_group(r"/note/(\d+)"@, url),
    ]
}

/// The content number of a location: what the first pattern that matches
/// captures.
pub open spec fn video_id_in(url: Seq<char>) -> Option<Seq<char>> {
    first_some(video_id_matches(url), 0)
}

/// Decides on the link from what the patterns found, given in the order of
/// preference: the first that was found, and `NoLinkFound` where none was.
pub fn choose_link(found: &Vec<Option<String>>) -> (r: Result<String, ResolveError>)
    ensures
        match r {
            Ok(link) => first_some(options_of(found@), 0) == Some(link@),
            Err(e) => e == ResolveError::NoLinkFound && first_some(options_of(found@), 0) is None,
        },
{
    match first_found(found) {
        Some(link) => Ok(link),
        None => Err(ResolveError::NoLinkFound),
    }
}

/// Finds the link in pasted text. A short link is preferred to any other
/// form, wherever the two stand in the text.
pub fn extract_douyin_url(text: &str) -> (r: Result<String, ResolveError>)
    ensures
        match r {
            Ok(link) => link_in(text@) == Some(link@),
            Err(e) => e == ResolveError::NoLinkFound && link_in(text@) is None,
        },
        leftmost_match(r"https://v\.douyin\.com/[A-Za-z0-9\-]+/?"@, text@) is Some ==> r is Ok
            && Some(r->Ok_0@) == leftmost_match(
            r"https://v\.douyin\.com/[A-Za-z0-9\-]+/?"@,
            text@,
        ),
{
    let mut found: Vec<Option<String>> = Vec::new();
    found.push(find_first(r"https://v\.douyin\.com/[A-Za-z0-9\-]+/?", text));
    found.push(find_first(r"https://www\.douyin\.com/video/\d+", text));
    found.push(find_first(r"https://www\.iesdouyin\.com/share/video/\d+", text));
    found.push(find_first(r"https://www\.douyin\.com/note/\d+", text));
    assert(options_of(found@) =~= link_matches(text@));
    choose_link(&found)
}

/// Finds the content number in a redirect location, if it names one.
pub fn extract_video_id(url: &str) -> (r: Option<String>)
    ensures
        text_of(r) == video_id_in(url@),
{
    let mut found: Vec<Option<String>> = Vec::new();
    found.push(capture_first(r"/video/(\d+)", url));
    found.push(capture_first(r"/share/video/(\d+)", url));
    found.push(capture_first(r"video_id=(\d+)", url));
    found.push(capture_first(r"aweme_id=(\d+)", url));
    found.push(capture_first(r"/note/(\d+)", url));
    assert(options_of(found@) =~= video_id_matches(url@));
    first_found(&found)
}

} // verus!
