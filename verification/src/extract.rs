//! Reading the quality options out of a page body.

use vstd::prelude::*;
use vstd::string::*;
use crate::address::{clean_media_url, clean_url, escape_free, lemma_clean_url_holds_no_escape, lemma_clean_url_holds_no_marker};
use crate::watermark::marker_free;
use crate::error::ResolveError;
use crate::pattern::{all_matches, capture_first, find_every, first_found, first_group, first_some, options_of, text_of, texts_of};
use crate::quality::{arrange, distinct_urls, lemma_arrange_complete, lemma_arrange_ranked_distinct, offer, ranked, views, QualityOption, QualityView, Resolution};

verus! {

/// The character is a decimal digit.
pub open spec fn is_digit(c: char) -> bool {
    0x30 <= c as u32 <= 0x39
}

/// Every character is a decimal digit.
pub open spec fn all_digits(s: Seq<char>) -> bool {
    forall|i: int| 0 <= i < s.len() ==> is_digit(#[trigger] s[i])
}

/// The number that a text of decimal digits writes.
pub open spec fn digits_value(s: Seq<char>) -> int
    decreases s.len(),
{
    if s.len() == 0 {
        0
    } else {
        digits_value(s.drop_last()) * 10 + (s.last() as u32 - 0x30)
    }
}

/// The quality code of a fragment: the number that the captured digits write,
/// and 0 where nothing was captured or the digits write no 32-bit number.
pub open spec fn quality_code(digits: Option<Seq<char>>) -> int {
    match digits {
        Some(d) => if d.len() > 0 && all_digits(d) && digits_value(d) <= u32::MAX {
            digits_value(d)
        } else {
            0
        },
        None => 0,
    }
}

/// The tier name under which a fragment is shown.
pub open spec fn tier_name(code: int, gear: Option<Seq<char>>) -> Seq<char> {
    if code == 10 {
        "流畅"@
    } else if code == 20 {
        "标清"@
    } else if code == 30 {
        "高清"@
    } else if code == 40 {
        "超清"@
    } else {
        match gear {
            Some(name) => name,
            None => "未知"@,
        }
    }
}

/// The resolution that a quality code stands for.
pub open spec fn tier_resolution(code: int) -> Resolution {
    if code == 10 {
        Resolution::P360
    } else if code == 20 {
        Resolution::P540
    } else if code == 30 {
        Resolution::P720
    } else if code == 40 {
        Resolution::P1080
    } else {
        Resolution::Unknown
    }
}

/// The option that a fragment gives, from what was captured in it: its first
/// address, its tier name if it has one, and the digits of its quality code if
/// it has one.
pub open spec fn option_of(
    raw_url: Seq<char>,
    gear: Option<Seq<char>>,
    digits: Option<Seq<char>>,
) -> QualityView {
    let code = quality_code(digits);
    QualityView {
        label: tier_name(code, gear) + " "@ + tier_resolution(code).tag_spec(),
        url: clean_url(raw_url),
        resolution_tag: tier_resolution(code),
    }
}

/// A longer text of digits writes no smaller number than its beginning.
pub proof fn lemma_digits_value_grows(s: Seq<char>, k: int)
    requires
        all_digits(s),
        0 <= k <= s.len(),
    ensures
        0 <= digits_value(s.take(k)) <= digits_value(s),
    decreases s.len() - k,
{
    if k == s.len() {
        assert(s.take(k) =~= s);
        lemma_digits_nonnegative(s);
    } else {
        lemma_digits_value_grows(s, k + 1);
        assert(s.take(k + 1).drop_last() =~= s.take(k));
        lemma_digits_nonnegative(s.take(k));
    }
}

/// A text of digits writes no negative number.
pub proof fn lemma_digits_nonnegative(s: Seq<char>)
    requires
        all_digits(s),
    ensures
        digits_value(s) >= 0,
    decreases s.len(),
{
    if s.len() > 0 {
        lemma_digits_nonnegative(s.drop_last());
    }
}

/// Reads the number that the digits write, and 0 where they write no 32-bit
/// number.
pub fn digits_code(chars: &Vec<char>) -> (code: u32)
    ensures
        code == quality_code(Some(chars@)),
{
    let mut acc: u32 = 0;
    let mut i: usize = 0;
    while i < chars.len()
        invariant
            i <= chars.len(),
            all_digits(chars@.take(i as int)),
            acc == digits_value(chars@.take(i as int)),
        decreases chars.len() - i,
    {
        let n: u32 = chars[i] as u32;
        if n < 0x30 || n > 0x39 {
            assert(!is_digit(chars@[i as int]));
            return 0;
        }
        let d: u32 = n - 0x30;
        proof {
            assert(chars@.take(i + 1).drop_last() =~= chars@.take(i as int));
            assert(chars@.take(i + 1).last() == chars[i as int]);
            assert forall|k: int| 0 <= k < i + 1 implies is_digit(
                #[trigger] chars@.take(i + 1)[k],
            ) by {
                if k < i {
                    assert(chars@.take(i as int)[k] == chars@.take(i + 1)[k]);
                }
            }
        }
        if acc > (u32::MAX - d) / 10 {
            proof {
                assert(digits_value(chars@.take(i + 1)) > u32::MAX);
                if all_digits(chars@) {
                    lemma_digits_value_grows(chars@, i + 1);
                }
            }
            return 0;
        }
        acc = acc * 10 + d;
        i += 1;
    }
    proof {
        assert(chars@.take(i as int) =~= chars@);
    }
    acc
}

/// Reads the quality code from the captured digits.
pub fn parse_quality_code(digits: &Option<String>) -> (code: u32)
    ensures
        code == quality_code(text_of(*digits)),
{
    match digits {
        None => 0,
        Some(text) => digits_code(&crate::text::chars_of(text.as_str())),
    }
}

/// Builds the option of a fragment from what was captured in it.
pub fn fragment_option(raw_url: &str, gear: Option<String>, digits: Option<String>) -> (q:
    QualityOption)
    ensures
        q@ == option_of(raw_url@, text_of(gear), text_of(digits)),
{
    let code = parse_quality_code(&digits);
    let resolution = if code == 10 {
        Resolution::P360
    } else if code == 20 {
        Resolution::P540
    } else if code == 30 {
        Resolution::P720
    } else if code == 40 {
        Resolution::P1080
    } else {
        Resolution::Unknown
    };
    let mut label = if code == 10 {
        String::from_str("流畅")
    } else if code == 20 {
        String::from_str("标清")
    } else if code == 30 {
        String::from_str("高清")
    } else if code == 40 {
        String::from_str("超清")
    } else {
        match gear {
            Some(name) => name,
            None => String::from_str("未知"),
        }
    };
    label.append(" ");
    label.append(resolution.tag());
    QualityOption { label, url: clean_media_url(raw_url), resolution_tag: resolution }
}

/// The option of one fragment, where it names an address.
pub open spec fn fragment_view(fragment: Seq<char>) -> Option<QualityView> {
    match first_group(r#""url_list":\["([^"]+)""#@, fragment) {
        Some(raw_url) => Some(
            option_of(
                raw_url,
                first_group(r#""gear_name":"([^"]+)""#@, fragment),
                first_group(r#""quality_type":(\d+)"#@, fragment),
            ),
        ),
        None => None,
    }
}

/// The options of the fragments that name an address, as they were found.
pub open spec fn candidates(fragments: Seq<Seq<char>>) -> Seq<QualityView>
    decreases fragments.len(),
{
    if fragments.len() == 0 {
        Seq::empty()
    } else {
        match fragment_view(fragments.last()) {
            Some(q) => candidates(fragments.drop_last()).push(q),
            None => candidates(fragments.drop_last()),
        }
    }
}

/// The fragments of a body: the objects with a play address inside the first
/// bit-rate array, and none where the body has no such array.
pub open spec fn fragments_of(body: Seq<char>) -> Seq<Seq<char>> {
    match first_group(r#""bit_rate":\[([^\]]+)\]"#@, body) {
        Some(section) => all_matches(r#"\{[^{}]*?"play_addr"[^{}]*?\}"#@, section),
        None => Seq::empty(),
    }
}

/// The quality set of a body: the options of its fragments, without repeated
/// addresses and ranked from the best resolution down.
pub open spec fn quality_set(body: Seq<char>) -> Seq<QualityView> {
    arrange(candidates(fragments_of(body)))
}

/// Every address of the list is free of escapes that decode.
pub open spec fn escape_free_urls(list: Seq<QualityView>) -> bool {
    forall|i: int| 0 <= i < list.len() ==> escape_free(#[trigger] list[i].url)
}

/// No address of the list holds a watermark marker.
pub open spec fn marker_free_urls(list: Seq<QualityView>) -> bool {
    forall|i: int| 0 <= i < list.len() ==> marker_free(#[trigger] list[i].url)
}

/// The addresses of the candidates are free of escapes that decode and of
/// watermark markers.
pub proof fn lemma_candidates_clean(fragments: Seq<Seq<char>>)
    ensures
        escape_free_urls(candidates(fragments)),
        marker_free_urls(candidates(fragments)),
    decreases fragments.len(),
{
    if fragments.len() > 0 {
        lemma_candidates_clean(fragments.drop_last());
        match first_group(r#""url_list":\["([^"]+)""#@, fragments.last()) {
            Some(raw_url) => {
                lemma_clean_url_holds_no_escape(raw_url);
                lemma_clean_url_holds_no_marker(raw_url);
            },
            None => {},
        }
    }
}

/// The addresses of a quality set are free of escapes that decode and of
/// watermark markers.
pub proof fn lemma_quality_set_clean(body: Seq<char>)
    ensures
        escape_free_urls(quality_set(body)),
        marker_free_urls(quality_set(body)),
{
    let found = candidates(fragments_of(body));
    lemma_candidates_clean(fragments_of(body));
    lemma_arrange_complete(found);
    assert forall|i: int| 0 <= i < arrange(found).len() implies escape_free(
        #[trigger] arrange(found)[i].url,
    ) && marker_free(arrange(found)[i].url) by {
        assert(found.contains(arrange(found)[i]));
    }
}

/// Reads the option of one fragment; a fragment that names no address gives
/// none.
pub fn read_fragment(fragment: &str) -> (r: Option<QualityOption>)
    ensures
        match r {
            Some(q) => fragment_view(fragment@) == Some(q@),
            None => fragment_view(fragment@) is None,
        },
{
    match capture_first(r#""url_list":\["([^"]+)""#, fragment) {
        Some(raw_url) => {
            let gear = capture_first(r#""gear_name":"([^"]+)""#, fragment);
            let digits = capture_first(r#""quality_type":(\d+)"#, fragment);
            Some(fragment_option(raw_url.as_str(), gear, digits))
        },
        None => None,
    }
}

/// Reads the quality set of a page body. The list is empty where the body has
/// no bit-rate array or none of its fragments names an address.
pub fn extract_quality_set(body: &str) -> (list: Vec<QualityOption>)
    ensures
        views(list@) == quality_set(body@),
        ranked(views(list@)),
        distinct_urls(views(list@)),
        escape_free_urls(views(list@)),
        marker_free_urls(views(list@)),
        first_group(r#""bit_rate":\[([^\]]+)\]"#@, body@) is None ==> list@.len() == 0,
{
    let mut list: Vec<QualityOption> = Vec::new();
    proof {
        lemma_arrange_ranked_distinct(candidates(fragments_of(body@)));
        lemma_quality_set_clean(body@);
    }
    match capture_first(r#""bit_rate":\[([^\]]+)\]"#, body) {
        Some(section) => {
            let fragments = find_every(r#"\{[^{}]*?"play_addr"[^{}]*?\}"#, section.as_str());
            let ghost all = texts_of(fragments@);
            assert(all == fragments_of(body@));
            let mut i: usize = 0;
            assert(views(list@) =~= arrange(candidates(all.take(0))));
            while i < fragments.len()
                invariant
                    i <= fragments.len(),
                    all == texts_of(fragments@),
                    views(list@) == arrange(candidates(all.take(i as int))),
                decreases fragments.len() - i,
            {
                proof {
                    assert(all.take(i + 1).drop_last() =~= all.take(i as int));
                    assert(all.take(i + 1).last() == fragments@[i as int]@);
                }
                match read_fragment(fragments[i].as_str()) {
                    Some(q) => {
                        proof {
                            assert(candidates(all.take(i as int)).push(q@).drop_last()
                                =~= candidates(all.take(i as int)));
                        }
                        offer(&mut list, q);
                    },
                    None => {},
                }
                i += 1;
            }
            proof {
                assert(all.take(i as int) =~= all);
            }
        },
        None => {
            assert(views(list@) =~= Seq::<QualityView>::empty());
        },
    }
    list
}

/// What each single-address pattern captures in a body, in the order of
/// preference: the download address, the play address, the two other play
/// fields, and the plain video address.
pub open spec fn standard_matches(body: Seq<char>) -> Seq<Option<Seq<char>>> {
    seq![
        first_group(r#""download_addr":\{"url_list":\["([^"]+)""#@, body),
        first_group(r#""play_addr":\{[^}]*"url_list":\["([^"]+)""#@, body),
        first_group(r#""playAddr":\[?\{"src":"([^"]+)""#@, body),
        first_group(r#""playApi":"([^"]+)""#@, body),
        first_group(r#""video_url":"([^"]+)""#@, body),
    ]
}

/// The address that the single-address patterns give: the capture of the
/// first that matches, in its final form.
pub open spec fn standard_url(body: Seq<char>) -> Option<Seq<char>> {
    match first_some(standard_matches(body), 0) {
        Some(raw) => Some(clean_url(raw)),
        None => None,
    }
}

/// Decides on the address from what the single-address patterns captured,
/// given in the order of preference.
pub fn choose_standard_url(found: &Vec<Option<String>>) -> (r: Result<String, ResolveError>)
    ensures
        match r {
            Ok(url) => first_some(options_of(found@), 0) is Some && url@ == clean_url(
                first_some(options_of(found@), 0)->Some_0,
            ),
            Err(e) => e == ResolveError::NoVideoUrl && first_some(options_of(found@), 0) is None,
        },
{
    match first_found(found) {
        Some(raw) => Ok(clean_media_url(raw.as_str())),
        None => Err(ResolveError::NoVideoUrl),
    }
}

/// Reads one address out of a body that has no quality set.
pub fn extract_video_url_standard(body: &str) -> (r: Result<String, ResolveError>)
    ensures
        match r {
            Ok(url) => standard_url(body@) == Some(url@),
            Err(e) => e == ResolveError::NoVideoUrl && standard_url(body@) is None,
        },
{
    let mut found: Vec<Option<String>> = Vec::new();
    found.push(capture_first(r#""download_addr":\{"url_list":\["([^"]+)""#, body));
    found.push(capture_first(r#""play_addr":\{[^}]*"url_list":\["([^"]+)""#, body));
    found.push(capture_first(r#""playAddr":\[?\{"src":"([^"]+)""#, body));
    found.push(capture_first(r#""playApi":"([^"]+)""#, body));
    found.push(capture_first(r#""video_url":"([^"]+)""#, body));
    assert(options_of(found@) =~= standard_matches(body@));
    choose_standard_url(&found)
}

/// The single option that stands for an address found without a quality set.
pub open spec fn default_option(url: Seq<char>) -> QualityView {
    QualityView { label: "默认清晰度 (无水印)"@, url, resolution_tag: Resolution::Unknown }
}

/// The options of a body: its quality set where that holds any, else the one
/// option of the single-address patterns, else nothing.
pub open spec fn all_qualities(body: Seq<char>) -> Option<Seq<QualityView>> {
    if quality_set(body).len() > 0 {
        Some(quality_set(body))
    } else {
        match standard_url(body) {
            Some(url) => Some(seq![default_option(url)]),
            None => None,
        }
    }
}

/// Reads the options of a page body. The list of a success is never empty,
/// holds no address twice and is ranked from the best resolution down; none
/// of its addresses holds an escape that decodes or a watermark marker.
pub fn extract_all_qualities(body: &str) -> (r: Result<Vec<QualityOption>, ResolveError>)
    ensures
        match r {
            Ok(list) => all_qualities(body@) == Some(views(list@)) && list@.len() > 0 && ranked(
                views(list@),
            ) && distinct_urls(views(list@)) && escape_free_urls(views(list@)) && marker_free_urls(
                views(list@),
            ),
            Err(e) => e == ResolveError::NoVideoUrl && all_qualities(body@) is None,
        },
        first_group(r#""bit_rate":\[([^\]]+)\]"#@, body@) is None ==> match r {
            Ok(list) => standard_url(body@) is Some && views(list@) == seq![
                default_option(standard_url(body@)->Some_0),
            ],
            Err(e) => standard_url(body@) is None,
        },
{
    let mut list = extract_quality_set(body);
    if list.len() > 0 {
        return Ok(list);
    }
    match extract_video_url_standard(body) {
        Ok(url) => {
            list.push(
                QualityOption {
                    label: String::from_str("默认清晰度 (无水印)"),
                    url,
                    resolution_tag: Resolution::Unknown,
                },
            );
            proof {
                lemma_clean_url_holds_no_escape(first_some(standard_matches(body@), 0)->Some_0);
                lemma_clean_url_holds_no_marker(first_some(standard_matches(body@), 0)->Some_0);
                assert(views(list@) =~= seq![default_option(url@)]);
            }
            Ok(list)
        },
        Err(e) => Err(e),
    }
}

} // verus!
