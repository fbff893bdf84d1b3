use douyin_resolver::error::ResolveError;
use douyin_resolver::extract::{
    choose_standard_url, digits_code, extract_all_qualities, extract_quality_set,
    extract_video_url_standard, fragment_option, parse_quality_code, read_fragment,
};
use douyin_resolver::quality::{holds_url, offer, QualityOption, Resolution};
use douyin_resolver::resolve::{step, Action, Event, State};
use douyin_resolver::select::{digits_up_to, select_quality};

fn option(label: &str, url: &str, resolution_tag: Resolution) -> QualityOption {
    QualityOption { label: label.to_string(), url: url.to_string(), resolution_tag }
}

fn triples(list: &[QualityOption]) -> Vec<(String, String, Resolution)> {
    list.iter().map(|q| (q.label.clone(), q.url.clone(), q.resolution_tag)).collect()
}

fn flat_fragment(url: &str, code: u32) -> String {
    format!("{{\"play_addr\":1,\"url_list\":[\"{}\",\"quality_type\":{}}}", url, code)
}

#[test]
fn fragment_with_tier_code_and_watermarked_address() {
    let fragment = "{\"play_addr\":{\"url_list\":[\"https:\\/\\/x.com\\/playwm\\/v.mp4?watermark=1\"]},\"gear_name\":\"超清\",\"quality_type\":40}";
    let q = read_fragment(fragment).unwrap();
    assert_eq!(q.url, "https://x.com/play/v.mp4?watermark=0");
    assert_eq!(q.label, "超清 1080P");
    assert_eq!(q.resolution_tag, Resolution::P1080);
}

#[test]
fn fragment_without_address_gives_nothing() {
    assert!(read_fragment("{\"play_addr\":1,\"quality_type\":20}").is_none());
    assert!(read_fragment("").is_none());
}

#[test]
fn tier_table() {
    let cases = [
        ("10", "流畅 360P", Resolution::P360),
        ("20", "标清 540P", Resolution::P540),
        ("30", "高清 720P", Resolution::P720),
        ("40", "超清 1080P", Resolution::P1080),
        ("0040", "超清 1080P", Resolution::P1080),
        ("50", "adapt 未知", Resolution::Unknown),
        ("0", "adapt 未知", Resolution::Unknown),
    ];
    for (code, label, resolution) in cases {
        let q = fragment_option("u", Some("adapt".to_string()), Some(code.to_string()));
        assert_eq!(q.label, label);
        assert_eq!(q.resolution_tag, resolution);
        assert_eq!(q.url, "u");
    }
    let q = fragment_option("u", None, None);
    assert_eq!(q.label, "未知 未知");
    assert_eq!(q.resolution_tag, Resolution::Unknown);
    let q = fragment_option("u", Some("x".to_string()), None);
    assert_eq!(q.label, "x 未知");
}

#[test]
fn quality_codes_are_read_as_numbers() {
    assert_eq!(parse_quality_code(&Some("10".to_string())), 10);
    assert_eq!(parse_quality_code(&Some("007".to_string())), 7);
    assert_eq!(parse_quality_code(&Some("4294967295".to_string())), 4294967295);
    assert_eq!(parse_quality_code(&Some("4294967296".to_string())), 0);
    assert_eq!(parse_quality_code(&Some("99999999999999999999".to_string())), 0);
    assert_eq!(parse_quality_code(&Some("４０".to_string())), 0);
    assert_eq!(parse_quality_code(&Some("".to_string())), 0);
    assert_eq!(parse_quality_code(&None), 0);
    assert_eq!(digits_code(&vec!['1', '2', 'x']), 0);
    assert_eq!(digits_code(&vec!['1', '2', '3']), 123);
}

#[test]
fn duplicate_address_is_dropped_and_the_rest_ranked() {
    let body = format!(
        "{{\"video\":{{\"bit_rate\":[{},{},{}],\"x\":1}}}}",
        flat_fragment("https://a.com/1", 20),
        flat_fragment("https://b.com/2", 10),
        flat_fragment("https://a.com/1", 30),
    );
    let list = extract_quality_set(&body);
    assert_eq!(
        triples(&list),
        vec![
            ("标清 540P".to_string(), "https://a.com/1".to_string(), Resolution::P540),
            ("流畅 360P".to_string(), "https://b.com/2".to_string(), Resolution::P360),
        ]
    );
    let all = extract_all_qualities(&body).unwrap();
    assert_eq!(triples(&all), triples(&list));
}

#[test]
fn quality_set_is_ranked_from_the_best_down() {
    let body = format!(
        "\"bit_rate\":[{},{},{},{},{}]",
        flat_fragment("https://a.com/360", 10),
        flat_fragment("https://a.com/other", 7),
        flat_fragment("https://a.com/1080", 40),
        flat_fragment("https://a.com/540", 20),
        flat_fragment("https://a.com/720", 30),
    );
    let list = extract_quality_set(&body);
    let urls: Vec<&str> = list.iter().map(|q| q.url.as_str()).collect();
    assert_eq!(
        urls,
        vec!["https://a.com/1080", "https://a.com/720", "https://a.com/540", "https://a.com/360", "https://a.com/other"]
    );
    assert_eq!(list[4].label, "未知 未知");
}

#[test]
fn equal_ranks_keep_the_order_of_discovery() {
    let body = format!(
        "\"bit_rate\":[{},{},{},{}]",
        flat_fragment("https://a.com/x", 20),
        flat_fragment("https://a.com/y", 40),
        flat_fragment("https://a.com/z", 20),
        flat_fragment("https://a.com/w", 40),
    );
    let list = extract_quality_set(&body);
    let urls: Vec<&str> = list.iter().map(|q| q.url.as_str()).collect();
    assert_eq!(urls, vec!["https://a.com/y", "https://a.com/w", "https://a.com/x", "https://a.com/z"]);
}

#[test]
fn fragments_without_address_are_skipped() {
    let body = format!(
        "\"bit_rate\":[{{\"play_addr\":1}},{},{{\"other\":2}}]",
        flat_fragment("https://a.com/1", 30),
    );
    let list = extract_quality_set(&body);
    assert_eq!(list.len(), 1);
    assert_eq!(list[0].label, "高清 720P");
}

#[test]
fn body_without_quality_array_gives_an_empty_set() {
    assert!(extract_quality_set("<html>nothing</html>").is_empty());
    assert!(extract_quality_set("").is_empty());
    assert!(extract_quality_set("\"bit_rate\":[]").is_empty());
    assert!(extract_quality_set("\"playApi\":\"https://x.com/playwm/1\"").is_empty());
}

#[test]
fn body_without_quality_array_falls_through_to_single_patterns() {
    let body = "{\"playApi\":\"https:\\u002F\\u002Fx.com\\u002Fplaywm\\u002F1\"}";
    let list = extract_all_qualities(body).unwrap();
    assert_eq!(
        triples(&list),
        vec![("默认清晰度 (无水印)".to_string(), "https://x.com/play/1".to_string(), Resolution::Unknown)]
    );
}

#[test]
fn body_with_nothing_recognizable_has_no_video_url() {
    assert_eq!(extract_all_qualities("<html></html>").unwrap_err(), ResolveError::NoVideoUrl);
    assert_eq!(extract_video_url_standard("<html></html>"), Err(ResolveError::NoVideoUrl));
}

#[test]
fn single_patterns_go_by_priority() {
    let download = "\"download_addr\":{\"url_list\":[\"https://d.com/1\"";
    let play = "\"play_addr\":{\"uri\":\"v\",\"url_list\":[\"https://p.com/playwm/2?watermark=1\"";
    let play_addr_src = "\"playAddr\":[{\"src\":\"https://s.com/3\"";
    let play_api = "\"playApi\":\"https://api.com/4\"";
    let video_url = "\"video_url\":\"https:\\/\\/v.com\\/5\"";
    let all = format!("{} {} {} {} {}", video_url, play_api, play_addr_src, play, download);
    assert_eq!(extract_video_url_standard(&all), Ok("https://d.com/1".to_string()));
    let rest = format!("{} {} {} {}", video_url, play_api, play_addr_src, play);
    assert_eq!(extract_video_url_standard(&rest), Ok("https://p.com/play/2?watermark=0".to_string()));
    let rest = format!("{} {} {}", video_url, play_api, play_addr_src);
    assert_eq!(extract_video_url_standard(&rest), Ok("https://s.com/3".to_string()));
    let rest = format!("{} {}", video_url, play_api);
    assert_eq!(extract_video_url_standard(&rest), Ok("https://api.com/4".to_string()));
    assert_eq!(extract_video_url_standard(video_url), Ok("https://v.com/5".to_string()));
    assert_eq!(extract_video_url_standard("\"playAddr\":{\"src\":\"https://s.com/6\""), Ok("https://s.com/6".to_string()));
}

#[test]
fn choose_standard_url_cleans_the_first_capture() {
    let found = vec![None, Some("https:\\/\\/a.com\\/playwm\\/1".to_string()), Some("b".to_string())];
    assert_eq!(choose_standard_url(&found), Ok("https://a.com/play/1".to_string()));
    assert_eq!(choose_standard_url(&vec![None, None]), Err(ResolveError::NoVideoUrl));
}

#[test]
fn offer_drops_known_addresses_and_keeps_ranks() {
    let mut list: Vec<QualityOption> = Vec::new();
    offer(&mut list, option("a", "u1", Resolution::P540));
    offer(&mut list, option("b", "u2", Resolution::P1080));
    offer(&mut list, option("c", "u1", Resolution::P1080));
    offer(&mut list, option("d", "u3", Resolution::P540));
    offer(&mut list, option("e", "u4", Resolution::Unknown));
    offer(&mut list, option("f", "u5", Resolution::P720));
    let labels: Vec<&str> = list.iter().map(|q| q.label.as_str()).collect();
    assert_eq!(labels, vec!["b", "f", "a", "d", "e"]);
    assert!(holds_url(&list, &"u3".to_string()));
    assert!(!holds_url(&list, &"u9".to_string()));
}

#[test]
fn resolution_ranks_and_tags() {
    assert_eq!(Resolution::P1080.rank(), 4);
    assert_eq!(Resolution::P720.rank(), 3);
    assert_eq!(Resolution::P540.rank(), 2);
    assert_eq!(Resolution::P360.rank(), 1);
    assert_eq!(Resolution::Unknown.rank(), 0);
    assert_eq!(Resolution::P1080.tag(), "1080P");
    assert_eq!(Resolution::P360.tag(), "360P");
    assert_eq!(Resolution::Unknown.tag(), "未知");
}

#[test]
fn flow_from_paste_to_options() {
    let (state, action) = step(State::Start, Event::Pasted("快来看 https://v.douyin.com/ABC123/ 超好看".to_string()));
    assert_eq!(state, State::LinkExtracted);
    assert!(matches!(action, Action::RequestRedirect(ref link) if link == "https://v.douyin.com/ABC123/"));

    let target = "https://www.iesdouyin.com/share/video/7123/?region=CN".to_string();
    let (state, action) = step(state, Event::Redirected(Some(target.clone())));
    assert_eq!(state, State::RedirectResolved);
    match action {
        Action::RequestPage { location, video_id } => {
            assert_eq!(location, target);
            assert_eq!(video_id, Some("7123".to_string()));
        }
        other => panic!("unexpected action {:?}", other),
    }

    let body = format!("\"bit_rate\":[{}]", flat_fragment("https://a.com/playwm/1", 30));
    let (state, action) = step(state, Event::PageFetched(body));
    assert_eq!(state, State::QualitiesReady);
    match action {
        Action::Deliver(list) => {
            assert_eq!(
                triples(&list),
                vec![("高清 720P".to_string(), "https://a.com/play/1".to_string(), Resolution::P720)]
            );
        }
        other => panic!("unexpected action {:?}", other),
    }
}

#[test]
fn flow_fails_with_the_error_of_its_stage() {
    let (state, action) = step(State::Start, Event::Pasted("nothing here".to_string()));
    assert_eq!(state, State::Failed);
    assert!(matches!(action, Action::Fail(ResolveError::NoLinkFound)));

    let (state, action) = step(State::LinkExtracted, Event::Redirected(None));
    assert_eq!(state, State::Failed);
    assert!(matches!(action, Action::Fail(ResolveError::NoRedirect)));

    let (state, action) = step(State::LinkExtracted, Event::RequestFailed);
    assert_eq!(state, State::Failed);
    assert!(matches!(action, Action::Fail(ResolveError::FetchFailed)));

    let (state, action) = step(State::RedirectResolved, Event::RequestFailed);
    assert_eq!(state, State::Failed);
    assert!(matches!(action, Action::Fail(ResolveError::FetchFailed)));

    let (state, action) = step(State::RedirectResolved, Event::PageFetched("<html></html>".to_string()));
    assert_eq!(state, State::Failed);
    assert!(matches!(action, Action::Fail(ResolveError::NoVideoUrl)));
}

#[test]
fn location_without_content_number_is_still_followed() {
    let (state, action) = step(State::LinkExtracted, Event::Redirected(Some("https://example.com/x".to_string())));
    assert_eq!(state, State::RedirectResolved);
    assert!(matches!(action, Action::RequestPage { ref location, video_id: None } if location == "https://example.com/x"));
}

#[test]
fn events_out_of_turn_change_nothing() {
    let (state, action) = step(State::Start, Event::PageFetched("x".to_string()));
    assert_eq!(state, State::Start);
    assert!(matches!(action, Action::Ignore));
    let (state, action) = step(State::QualitiesReady, Event::Pasted("https://v.douyin.com/a/".to_string()));
    assert_eq!(state, State::QualitiesReady);
    assert!(matches!(action, Action::Ignore));
    let (state, action) = step(State::Failed, Event::RequestFailed);
    assert_eq!(state, State::Failed);
    assert!(matches!(action, Action::Ignore));
    let (state, action) = step(State::Start, Event::RequestFailed);
    assert_eq!(state, State::Start);
    assert!(matches!(action, Action::Ignore));
}

#[test]
fn choice_by_number() {
    let list = vec![
        option("a", "u1", Resolution::P1080),
        option("b", "u2", Resolution::P720),
        option("c", "u3", Resolution::P540),
    ];
    assert_eq!(select_quality(&list, ""), Ok("u1".to_string()));
    assert_eq!(select_quality(&list, "1"), Ok("u1".to_string()));
    assert_eq!(select_quality(&list, "2"), Ok("u2".to_string()));
    assert_eq!(select_quality(&list, "+3"), Ok("u3".to_string()));
    assert_eq!(select_quality(&list, "03"), Ok("u3".to_string()));
    assert_eq!(select_quality(&list, "4"), Ok("u1".to_string()));
    assert_eq!(select_quality(&list, "0"), Ok("u1".to_string()));
    assert_eq!(select_quality(&list, "-1"), Ok("u1".to_string()));
    assert_eq!(select_quality(&list, "two"), Ok("u1".to_string()));
    assert_eq!(select_quality(&list, "99999999999999999999"), Ok("u1".to_string()));
    assert_eq!(select_quality(&Vec::new(), "1"), Err(ResolveError::EmptyQualityList));
}

#[test]
fn typed_numbers_up_to_a_limit() {
    assert_eq!(digits_up_to(&vec!['4', '2'], 42), Some(42));
    assert_eq!(digits_up_to(&vec!['4', '3'], 42), None);
    assert_eq!(digits_up_to(&vec!['0', '0', '7'], 7), Some(7));
    assert_eq!(digits_up_to(&vec!['0'], 0), Some(0));
    assert_eq!(digits_up_to(&vec!['1'], 0), None);
    assert_eq!(digits_up_to(&vec!['1', 'a'], 100), None);
    assert_eq!(digits_up_to(&Vec::new(), 100), None);
    let largest = format!("{}", usize::MAX);
    assert_eq!(digits_up_to(&largest.chars().collect(), usize::MAX), Some(usize::MAX));
    let beyond = format!("{}0", usize::MAX);
    assert_eq!(digits_up_to(&beyond.chars().collect(), usize::MAX), None);
}
