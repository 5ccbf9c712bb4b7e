use ytsearch::filters::{
    contains_any, duration_allows, language_is_english, looks_english, matches_channel,
    matches_post_filters, parse_iso8601_duration,
};
use ytsearch::prefs::{GlobalPrefs, MySearch};
use ytsearch::types::VideoDetails;

fn words(items: &[&str]) -> Vec<String> {
    items.iter().map(|s| s.to_string()).collect()
}

fn video_for_filters(title: &str, duration_secs: u64) -> VideoDetails {
    VideoDetails {
        id: "vid".to_string(),
        title: title.to_string(),
        title_lower: title.to_ascii_lowercase(),
        channel_title: "Some Channel".to_string(),
        channel_handle: "UC123".to_string(),
        channel_display_name: None,
        channel_custom_url: None,
        published_at: "2024-01-01T00:00:00Z".to_string(),
        duration_secs,
        default_audio_lang: None,
        default_lang: None,
        thumbnail_url: None,
        url: "https://www.youtube.com/watch?v=vid".to_string(),
        has_caption_lang_en: None,
        source_presets: vec![],
    }
}

fn lenient_prefs() -> GlobalPrefs {
    let mut g = GlobalPrefs::default();
    g.english_only = false;
    g.min_duration_secs = 0;
    g
}

#[test]
fn iso8601_parses_hours_minutes_seconds() {
    assert_eq!(parse_iso8601_duration("PT1H2M3S"), Some(3723));
    assert_eq!(parse_iso8601_duration("PT15M"), Some(900));
    assert_eq!(parse_iso8601_duration("PT45S"), Some(45));
    assert_eq!(parse_iso8601_duration("PT2H"), Some(7200));
    assert_eq!(parse_iso8601_duration("PT0S"), Some(0));
    assert_eq!(parse_iso8601_duration("PT"), Some(0));
    assert_eq!(parse_iso8601_duration("PT007M"), Some(420));
}

#[test]
fn iso8601_rejects_other_forms() {
    assert_eq!(parse_iso8601_duration(""), None);
    assert_eq!(parse_iso8601_duration("1H"), None);
    assert_eq!(parse_iso8601_duration("T1H"), None);
    assert_eq!(parse_iso8601_duration("P1D"), None);
    assert_eq!(parse_iso8601_duration("PTH"), None);
    assert_eq!(parse_iso8601_duration("PT1HM"), None);
    assert_eq!(parse_iso8601_duration("PT99999999999999999999S"), None);
    assert_eq!(parse_iso8601_duration("PT18446744073709551615H"), None);
    assert_eq!(parse_iso8601_duration("P1H"), None);
}

#[test]
fn iso8601_takes_nothing_but_hours_minutes_seconds_in_order() {
    assert_eq!(parse_iso8601_duration("P1DT2H"), None);
    assert_eq!(parse_iso8601_duration("P1W"), None);
    assert_eq!(parse_iso8601_duration("P0D"), None);
    assert_eq!(parse_iso8601_duration("PT1.5S"), None);
    assert_eq!(parse_iso8601_duration("PT1,5S"), None);
    assert_eq!(parse_iso8601_duration("PT1H30"), None);
    assert_eq!(parse_iso8601_duration("PT1X5S"), None);
    assert_eq!(parse_iso8601_duration("PT5ST9S"), None);
    assert_eq!(parse_iso8601_duration("PT1S2S"), None);
    assert_eq!(parse_iso8601_duration("PT5M3H"), None);
    assert_eq!(parse_iso8601_duration("PT3S2M"), None);
    assert_eq!(parse_iso8601_duration("PT1H1H"), None);
    assert_eq!(parse_iso8601_duration("PT1h"), None);
    assert_eq!(parse_iso8601_duration("pt1H"), None);
    assert_eq!(parse_iso8601_duration("PT 1H"), None);
    assert_eq!(parse_iso8601_duration("PT1H "), None);
    assert_eq!(parse_iso8601_duration(" PT1H"), None);
    assert_eq!(parse_iso8601_duration("PT-1H"), None);
    assert_eq!(parse_iso8601_duration("PT+1H"), None);
    assert_eq!(parse_iso8601_duration("PTT1H"), None);
    assert_eq!(parse_iso8601_duration("P"), None);
    assert_eq!(parse_iso8601_duration("PT１H"), None);
}

#[test]
fn iso8601_numbers_and_totals_must_fit() {
    assert_eq!(parse_iso8601_duration("PT18446744073709551615S"), Some(u64::MAX));
    assert_eq!(parse_iso8601_duration("PT18446744073709551616S"), None);
    assert_eq!(parse_iso8601_duration("PT1M18446744073709551615S"), None);
    assert_eq!(parse_iso8601_duration("PT5124095576030431H15S"), Some(u64::MAX));
    assert_eq!(parse_iso8601_duration("PT5124095576030431H16S"), None);
    assert_eq!(parse_iso8601_duration("PT0H0M0S"), Some(0));
    assert_eq!(parse_iso8601_duration("PT1H2S"), Some(3602));
    assert_eq!(parse_iso8601_duration("PT2M3S"), Some(123));
    assert_eq!(parse_iso8601_duration("PT0000000000000000000000001H"), Some(3600));
}

#[test]
fn duration_allows_uses_active_buckets() {
    let mut g = GlobalPrefs::default();
    g.active_duration_bucket_ids = words(&["brief", "long"]);
    assert!(!duration_allows(179, &g));
    assert!(duration_allows(180, &g));
    assert!(duration_allows(899, &g));
    assert!(!duration_allows(900, &g));
    assert!(duration_allows(1800, &g));
    assert!(!duration_allows(3600, &g));
}

#[test]
fn duration_allows_falls_back_to_default_selected_buckets() {
    let mut g = GlobalPrefs::default();
    g.active_duration_bucket_ids = words(&["unknown"]);
    g.duration_filters.buckets[0].default_selected = false;
    g.duration_filters.buckets[2].default_selected = true;
    assert!(duration_allows(200, &g));
    assert!(!duration_allows(100, &g));
}

#[test]
fn duration_allows_everything_without_any_bucket_in_force() {
    let mut g = GlobalPrefs::default();
    g.active_duration_bucket_ids = vec![];
    g.duration_filters.buckets[0].default_selected = false;
    assert!(duration_allows(0, &g));
    assert!(duration_allows(123456, &g));
    g.duration_filters.buckets.clear();
    g.active_duration_bucket_ids = words(&["any"]);
    assert!(duration_allows(5, &g));
}

#[test]
fn contains_any_ignores_case_and_blank_needles() {
    assert!(contains_any("Hello World", &words(&["WORLD"])));
    assert!(contains_any("Hello World", &words(&["  ", " lo w "])));
    assert!(!contains_any("Hello World", &words(&["", "   "])));
    assert!(!contains_any("Hello World", &words(&["worlds"])));
    assert!(!contains_any("Hello World", &[]));
    assert!(!contains_any("", &words(&["a"])));
}

#[test]
fn channel_pattern_matches_handle_title_and_substring() {
    let patterns = words(&["@SomeChannel"]);
    assert!(matches_channel("somechannel", "Other", &patterns));
    assert!(matches_channel("SOMECHANNEL", "Other", &patterns));
    assert!(matches_channel("UC1", "SomeChannel", &patterns));
    assert!(matches_channel("UC1", "The SomeChannel Show", &patterns));
    assert!(!matches_channel("UC1", "Some Channel", &patterns));
    assert!(!matches_channel("@somechannel", "Other", &patterns));
    assert!(matches_channel("somechannel", "Other", &words(&["  @@SomeChannel "])));
    assert!(!matches_channel("UC1", "Some Channel", &words(&["@ somechannel"])));
}

#[test]
fn whitespace_after_the_at_sign_belongs_to_the_key() {
    assert!(!matches_channel("x", "afoo", &words(&["@ foo"])));
    assert!(matches_channel("x", "a foo", &words(&["@ foo"])));
    assert!(matches_channel(" foo", "t", &words(&["@ foo"])));
    assert!(!matches_channel("foo", "t", &words(&["@ foo"])));
    assert!(!matches_channel("somechannel", "Other", &words(&["  @ @SomeChannel "])));
    assert!(matches_channel("x", "an @somechannel!", &words(&["  @ @SomeChannel "])));
    for (handle, title, pattern) in [
        ("x", "afoo", "@ foo"),
        ("Foo", "bar", " @@FOO "),
        ("h", "The Title", "@"),
        ("h", "The Title", "  "),
        ("h", "The Title", "e t"),
        ("h", "The Title", "@ @h"),
    ] {
        let key = pattern.trim().trim_start_matches('@').to_ascii_lowercase();
        let h = handle.to_ascii_lowercase();
        let t = title.to_ascii_lowercase();
        let expected = !pattern.trim().is_empty() && (h == key || t == key || t.contains(&key));
        assert_eq!(
            matches_channel(handle, title, &words(&[pattern])),
            expected,
            "{handle:?} {title:?} {pattern:?}"
        );
    }
}

#[test]
fn channel_matching_skips_blank_patterns() {
    assert!(!matches_channel("h", "t", &[]));
    assert!(!matches_channel("h", "t", &words(&["", "   "])));
    assert!(matches_channel("h", "t", &words(&["  ", " H "])));
    assert!(matches_channel("h", "anything", &words(&["@"])));
}

#[test]
fn language_code_is_english_by_prefix() {
    assert!(language_is_english(Some("en")));
    assert!(language_is_english(Some("EN-us")));
    assert!(language_is_english(Some("english")));
    assert!(!language_is_english(Some("e")));
    assert!(!language_is_english(Some("de")));
    assert!(!language_is_english(Some(" en")));
    assert!(!language_is_english(None));
}

#[test]
fn looks_english_needs_sixty_percent_plain_characters() {
    assert!(looks_english("my cool video!!"));
    assert!(!looks_english("日本語のタイトル"));
    assert!(looks_english(""));
    assert!(looks_english("   \t"));
    assert!(looks_english("abc12"));
    assert!(!looks_english("ab123"));
    assert!(looks_english("abc 日本"));
    assert!(!looks_english("ab 日本"));
    assert!(looks_english("-_:!?,.;'\"/()#"));
    assert!(!looks_english("12345"));
}

#[test]
fn short_video_is_rejected_whatever_else_holds() {
    let mut g = lenient_prefs();
    g.min_duration_secs = 75;
    let s = MySearch::default();
    let mut v = video_for_filters("My Cool Video!!", 50);
    assert!(!matches_post_filters(&v, &g, &s, &[]));
    v.default_audio_lang = Some("en".to_string());
    v.has_caption_lang_en = Some(true);
    assert!(!matches_post_filters(&v, &g, &s, &[]));
    v.duration_secs = 75;
    assert!(matches_post_filters(&v, &g, &s, &[]));
}

#[test]
fn preset_override_of_min_duration_wins() {
    let mut g = lenient_prefs();
    g.min_duration_secs = 75;
    let mut s = MySearch::default();
    s.min_duration_override = Some(10);
    assert!(matches_post_filters(&video_for_filters("Short one", 50), &g, &s, &[]));
    s.min_duration_override = Some(100);
    assert!(!matches_post_filters(&video_for_filters("Short one", 99), &g, &s, &[]));
}

#[test]
fn english_only_rejects_foreign_title_without_signals() {
    let mut g = lenient_prefs();
    g.english_only = true;
    let s = MySearch::default();
    let foreign = video_for_filters("日本語のタイトル", 100);
    assert!(!matches_post_filters(&foreign, &g, &s, &[]));
    let plain = video_for_filters("My Cool Video!!", 100);
    assert!(matches_post_filters(&plain, &g, &s, &[]));
    let mut tagged = video_for_filters("日本語のタイトル", 100);
    tagged.default_lang = Some("en-GB".to_string());
    assert!(matches_post_filters(&tagged, &g, &s, &[]));
    let mut captioned = video_for_filters("日本語のタイトル", 100);
    captioned.has_caption_lang_en = Some(true);
    assert!(matches_post_filters(&captioned, &g, &s, &[]));
    let mut off = MySearch::default();
    off.english_only_override = Some(false);
    assert!(matches_post_filters(&foreign, &g, &off, &[]));
    let mut recopied = video_for_filters("日本語のタイトル", 100);
    recopied.title_lower = "plain english words".to_string();
    assert!(matches_post_filters(&recopied, &g, &s, &[]));
    let mut excluding = MySearch::default();
    excluding.query.not_terms = words(&["english"]);
    assert!(!matches_post_filters(&recopied, &g, &excluding, &[]));
}

#[test]
fn excluded_terms_blocked_denied_and_allowed_channels() {
    let g = lenient_prefs();
    let v = video_for_filters("Rust Tutorial", 100);
    let mut s = MySearch::default();
    assert!(matches_post_filters(&v, &g, &s, &[]));
    s.query.not_terms = words(&["TUTORIAL"]);
    assert!(!matches_post_filters(&v, &g, &s, &[]));
    s.query.not_terms = words(&["  "]);
    assert!(matches_post_filters(&v, &g, &s, &[]));
    assert!(!matches_post_filters(&v, &g, &s, &words(&["uc123"])));
    assert!(matches_post_filters(&v, &g, &s, &words(&["uc999"])));
    s.query.channel_deny = words(&["some channel"]);
    assert!(!matches_post_filters(&v, &g, &s, &[]));
    s.query.channel_deny = vec![];
    s.query.channel_allow = words(&["elsewhere"]);
    assert!(!matches_post_filters(&v, &g, &s, &[]));
    s.query.channel_allow = words(&["elsewhere", "@UC123"]);
    assert!(matches_post_filters(&v, &g, &s, &[]));
}

#[test]
fn bucket_filter_applies_in_post_filter() {
    let mut g = lenient_prefs();
    g.active_duration_bucket_ids = words(&["shorts"]);
    let s = MySearch::default();
    assert!(matches_post_filters(&video_for_filters("Clip", 100), &g, &s, &[]));
    assert!(!matches_post_filters(&video_for_filters("Clip", 180), &g, &s, &[]));
}
