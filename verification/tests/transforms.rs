use douyin_resolver::address::clean_media_url;
use douyin_resolver::text::{matches_at, replace_chars};
use douyin_resolver::unicode::{decode_at, decode_once, decode_unicode_chars, decode_unicode_escapes, hex_digit};
use douyin_resolver::watermark::{remove_path_marker, remove_watermark_chars, remove_watermark_from_url};

fn chars(s: &str) -> Vec<char> {
    s.chars().collect()
}

#[test]
fn escapes_are_decoded() {
    assert_eq!(decode_unicode_escapes("\\u4f60\\u597d"), "你好");
    assert_eq!(decode_unicode_escapes("a\\u0026b=1"), "a&b=1");
    assert_eq!(decode_unicode_escapes("\\u002F\\u002f"), "//");
    assert_eq!(decode_unicode_escapes("plain"), "plain");
    assert_eq!(decode_unicode_escapes(""), "");
}

#[test]
fn doubly_escaped_sequence_resolves_in_one_call() {
    assert_eq!(decode_unicode_escapes("\\u005cu0041"), "A");
    assert_eq!(decode_unicode_escapes("x\\u005cu005cu0041y"), "xAy");
}

#[test]
fn decoding_twice_changes_nothing() {
    for s in ["\\u005cu0041", "\\u4f60 and \\ud800", "\\u00zz\\u0041", "no escapes", "\\u005c\\u005cu0041"] {
        let once = decode_unicode_escapes(s);
        assert_eq!(decode_unicode_escapes(&once), once);
    }
}

#[test]
fn sequences_that_decode_to_no_character_stay() {
    assert_eq!(decode_unicode_escapes("\\ud800"), "\\ud800");
    assert_eq!(decode_unicode_escapes("\\uDFFF\\u0041"), "\\uDFFFA");
    assert_eq!(decode_unicode_escapes("\\u12"), "\\u12");
    assert_eq!(decode_unicode_escapes("\\u12g4"), "\\u12g4");
    assert_eq!(decode_unicode_escapes("\\U0041"), "\\U0041");
}

#[test]
fn one_pass_decodes_one_level() {
    assert_eq!(decode_once(&chars("\\u005cu0041")), chars("\\u0041"));
    assert_eq!(decode_unicode_chars(chars("\\u005cu0041")), chars("A"));
}

#[test]
fn decode_at_reads_the_four_digits() {
    assert_eq!(decode_at(&chars("ab\\u00e9"), 2), Some('é'));
    assert_eq!(decode_at(&chars("ab\\u00e9"), 1), None);
    assert_eq!(decode_at(&chars("\\uffff"), 0), Some('\u{ffff}'));
    assert_eq!(decode_at(&chars("\\ud7ff"), 0), Some('\u{d7ff}'));
    assert_eq!(decode_at(&chars("\\ue000"), 0), Some('\u{e000}'));
    assert_eq!(decode_at(&chars("\\udfff"), 0), None);
    assert_eq!(decode_at(&chars("\\u00e"), 0), None);
    assert_eq!(decode_at(&chars(""), 7), None);
}

#[test]
fn hex_digits_have_their_values() {
    assert_eq!(hex_digit('0'), Some(0));
    assert_eq!(hex_digit('9'), Some(9));
    assert_eq!(hex_digit('a'), Some(10));
    assert_eq!(hex_digit('F'), Some(15));
    assert_eq!(hex_digit('g'), None);
    assert_eq!(hex_digit('/'), None);
    assert_eq!(hex_digit('４'), None);
}

#[test]
fn both_watermark_markers_are_rewritten() {
    assert_eq!(
        remove_watermark_from_url("https://x.com/playwm/v.mp4?watermark=1"),
        "https://x.com/play/v.mp4?watermark=0"
    );
    assert_eq!(remove_watermark_from_url("https://x.com/playwm/v.mp4"), "https://x.com/play/v.mp4");
    assert_eq!(remove_watermark_from_url("https://x.com/v?watermark=1&a=1"), "https://x.com/v?watermark=0&a=1");
}

#[test]
fn address_without_markers_is_kept() {
    assert_eq!(remove_watermark_from_url("https://x.com/play/v.mp4?watermark=0"), "https://x.com/play/v.mp4?watermark=0");
    assert_eq!(remove_watermark_from_url(""), "");
    assert_eq!(remove_watermark_from_url("/playwm"), "/playwm");
}

#[test]
fn stripping_twice_changes_nothing() {
    for s in ["https://x.com/playwm/v.mp4?watermark=1", "/playwm/a/playwm/?watermark=1&watermark=1", "/playwm/playwm/", "abc"] {
        let once = remove_watermark_from_url(s);
        assert_eq!(remove_watermark_from_url(&once), once);
    }
}

#[test]
fn the_two_rules_commute() {
    let url = chars("https://x.com/playwm/v.mp4?watermark=1");
    let path_first = replace_chars(
        &replace_chars(&url, &chars("/playwm/"), &chars("/play/")),
        &chars("watermark=1"),
        &chars("watermark=0"),
    );
    let query_first = replace_chars(
        &replace_chars(&url, &chars("watermark=1"), &chars("watermark=0")),
        &chars("/playwm/"),
        &chars("/play/"),
    );
    assert_eq!(path_first, query_first);
    assert_eq!(remove_watermark_chars(&url), path_first);

    let doubled = chars("/playwm/playwm/?watermark=1&x=/playwm/");
    let path_first = replace_chars(&remove_path_marker(&doubled), &chars("watermark=1"), &chars("watermark=0"));
    let query_first = remove_path_marker(&replace_chars(&doubled, &chars("watermark=1"), &chars("watermark=0")));
    assert_eq!(path_first, query_first);
    assert_eq!(path_first, chars("/play/play/?watermark=0&x=/play/"));
    assert_eq!(remove_watermark_chars(&doubled), path_first);
}

#[test]
fn path_markers_that_share_a_slash_are_all_rewritten() {
    assert_eq!(remove_watermark_from_url("/playwm/playwm/"), "/play/play/");
    assert_eq!(remove_watermark_from_url("/playwm/playwm/playwm/"), "/play/play/play/");
    assert_eq!(
        remove_watermark_from_url("https://x.com/playwm/playwm/v.mp4"),
        "https://x.com/play/play/v.mp4"
    );
    assert_eq!(
        clean_media_url(r"https:\/\/x.com\/playwm\u002Fplaywm\/v.mp4?watermark=1"),
        "https://x.com/play/play/v.mp4?watermark=0"
    );
}

#[test]
fn stripped_address_holds_no_marker() {
    for s in [
        "/playwm/playwm/",
        "/playwm/playwm/playwm/playwm/?watermark=1",
        "a/playwm/b/playwm/playwm/c?watermark=1&watermark=1",
        "/playwmwm/",
        "watermark=11",
    ] {
        let once = remove_watermark_from_url(s);
        assert!(!once.contains("/playwm/"));
        assert!(!once.contains("watermark=1"));
        assert_eq!(remove_watermark_from_url(&once), once);
    }
}

#[test]
fn path_rule_alone_runs_to_the_end() {
    assert_eq!(remove_path_marker(&chars("/playwm/playwm/x")), chars("/play/play/x"));
    assert_eq!(remove_path_marker(&chars("/playwm")), chars("/playwm"));
    assert_eq!(remove_path_marker(&chars("")), chars(""));
}

#[test]
fn replace_and_match_on_characters() {
    assert!(matches_at(&chars("hello"), &chars("ll"), 2));
    assert!(!matches_at(&chars("hello"), &chars("ll"), 3));
    assert!(!matches_at(&chars("hello"), &chars("lo"), 4));
    assert!(matches_at(&chars("hello"), &chars(""), 5));
    assert!(!matches_at(&chars("hello"), &chars(""), 6));
    assert_eq!(replace_chars(&chars("aaa"), &chars("aa"), &chars("b")), chars("ba"));
    assert_eq!(replace_chars(&chars("a.b.c"), &chars("."), &chars("--")), chars("a--b--c"));
    assert_eq!(replace_chars(&chars("你好"), &chars("好"), &chars("")), chars("你"));
}

#[test]
fn captured_address_is_unescaped_decoded_and_stripped() {
    assert_eq!(
        clean_media_url("https:\\/\\/x.com\\/playwm\\/v.mp4?watermark=1"),
        "https://x.com/play/v.mp4?watermark=0"
    );
    assert_eq!(
        clean_media_url("https:\\u002F\\u002Fx.com\\u002Fplaywm\\u002Fv.mp4?a=1\\u0026watermark=1"),
        "https://x.com/play/v.mp4?a=1&watermark=0"
    );
}
