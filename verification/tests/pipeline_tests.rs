use ytsearch::aggregate::{
    add_missing_sources, aggregate_outcomes, merge_video, plan_run, sort_newest_first,
    Aggregation, RunMode, SearchOutcome,
};
use ytsearch::error::PipelineError;
use ytsearch::fetcher::{
    details_failure, map_video_item, max_search_pages, search_failure, ClosingStep, FetchState,
    PageStep, SingleSearchOutcome, DEFAULT_MAX_SEARCH_PAGES,
};
use ytsearch::run::{RunAction, RunState};
use ytsearch::prefs::{GlobalPrefs, MySearch, Prefs, TimeWindow};
use ytsearch::types::{
    ChannelItem, ChannelSnippet, ContentDetails, SearchId, SearchItem, SearchListResponse, Snippet, Thumb, Thumbs,
    VideoDetails, VideoItem, VideoSnippet, VideosListResponse,
};

fn names(items: &[&str]) -> Vec<String> {
    items.iter().map(|s| s.to_string()).collect()
}

fn preset(id: &str, name: &str, enabled: bool) -> MySearch {
    let mut s = MySearch::default();
    s.id = id.to_string();
    s.name = name.to_string();
    s.enabled = enabled;
    s.query.q = Some("topic".to_string());
    s
}

fn open_prefs() -> GlobalPrefs {
    let mut g = GlobalPrefs::default();
    g.english_only = false;
    g.min_duration_secs = 0;
    g.region_code = None;
    g
}

fn hit(id: Option<&str>) -> SearchItem {
    SearchItem {
        id: SearchId { video_id: id.map(|s| s.to_string()) },
        snippet: Snippet { published_at: "2024-01-01T00:00:00Z".to_string() },
    }
}

fn page(ids: &[Option<&str>], next: Option<&str>) -> SearchListResponse {
    SearchListResponse {
        next_page_token: next.map(|s| s.to_string()),
        items: ids.iter().map(|id| hit(*id)).collect(),
    }
}

fn record(id: &str, title: &str, published_at: &str, duration: &str) -> VideoItem {
    VideoItem {
        id: id.to_string(),
        snippet: VideoSnippet {
            title: title.to_string(),
            channel_title: "Chan".to_string(),
            channel_id: "UCchan".to_string(),
            published_at: published_at.to_string(),
            default_audio_language: None,
            default_language: None,
            thumbnails: None,
        },
        content_details: ContentDetails { duration: duration.to_string() },
    }
}

fn found(id: &str, published_at: &str, sources: &[&str]) -> VideoDetails {
    let mut v = map_video_item(&record(id, "Title", published_at, "PT5M"));
    v.source_presets = names(sources);
    v
}

fn brought(videos: Vec<VideoDetails>, pages: usize, dups: usize, raw: usize, unique: usize) -> SingleSearchOutcome {
    SingleSearchOutcome {
        videos,
        pages_fetched: pages,
        duplicates_within: dups,
        raw_items: raw,
        unique_ids: unique,
    }
}

fn counts(o: &SearchOutcome) -> [usize; 7] {
    [
        o.presets_ran,
        o.pages_fetched,
        o.duplicates_within_presets,
        o.duplicates_across_presets,
        o.raw_items,
        o.unique_ids,
        o.passed_filters,
    ]
}

fn run_any(outcomes: &[SingleSearchOutcome]) -> SearchOutcome {
    let mut agg = Aggregation::new(true);
    for o in outcomes {
        assert!(agg.try_absorb(o));
    }
    agg.finish()
}

#[test]
fn page_cap_defaults_to_four() {
    assert_eq!(DEFAULT_MAX_SEARCH_PAGES, 4);
    assert_eq!(max_search_pages(None), 4);
}

#[test]
fn page_cap_override_is_clamped_by_falling_back() {
    assert_eq!(max_search_pages(Some("1")), 1);
    assert_eq!(max_search_pages(Some("10")), 10);
    assert_eq!(max_search_pages(Some(" 7 \n")), 7);
    assert_eq!(max_search_pages(Some("+3")), 3);
    assert_eq!(max_search_pages(Some("007")), 7);
    assert_eq!(max_search_pages(Some("0")), 4);
    assert_eq!(max_search_pages(Some("11")), 4);
    assert_eq!(max_search_pages(Some("-1")), 4);
    assert_eq!(max_search_pages(Some("")), 4);
    assert_eq!(max_search_pages(Some("+")), 4);
    assert_eq!(max_search_pages(Some("++1")), 4);
    assert_eq!(max_search_pages(Some("3x")), 4);
    assert_eq!(max_search_pages(Some("1 0")), 4);
    assert_eq!(max_search_pages(Some("99999999999999999999999999")), 4);
    assert_eq!(max_search_pages(Some("18446744073709551617")), 4);
    for text in ["1", "5", "10", "0", "11", "+2", " 4", "abc", "", "٣"] {
        let expected = text
            .trim()
            .parse::<usize>()
            .ok()
            .filter(|n| (1..=10).contains(n))
            .unwrap_or(4);
        assert_eq!(max_search_pages(Some(text)), expected, "{text:?}");
    }
}

#[test]
fn video_record_maps_to_details() {
    let mut item = record("abc123", "Rust In ACTION", "2024-03-02T10:00:00Z", "PT1H1M1S");
    item.snippet.default_audio_language = Some("en".to_string());
    item.snippet.thumbnails = Some(Thumbs { medium: Some(Thumb { url: "http://t/m.jpg".to_string() }) });
    let v = map_video_item(&item);
    assert_eq!(v.id, "abc123");
    assert_eq!(v.title, "Rust In ACTION");
    assert_eq!(v.title_lower, "rust in action");
    assert_eq!(v.channel_title, "Chan");
    assert_eq!(v.channel_handle, "UCchan");
    assert_eq!(v.channel_display_name, None);
    assert_eq!(v.channel_custom_url, None);
    assert_eq!(v.published_at, "2024-03-02T10:00:00Z");
    assert_eq!(v.duration_secs, 3661);
    assert_eq!(v.default_audio_lang, Some("en".to_string()));
    assert_eq!(v.default_lang, None);
    assert_eq!(v.thumbnail_url, Some("http://t/m.jpg".to_string()));
    assert_eq!(v.url, "https://www.youtube.com/watch?v=abc123");
    assert_eq!(v.has_caption_lang_en, None);
    assert!(v.source_presets.is_empty());
}

#[test]
fn unparseable_duration_counts_as_zero() {
    assert_eq!(map_video_item(&record("a", "t", "p", "P1W")).duration_secs, 0);
    assert_eq!(map_video_item(&record("a", "t", "p", "")).duration_secs, 0);
    let mut item = record("a", "t", "p", "PT1S");
    item.snippet.thumbnails = Some(Thumbs { medium: None });
    assert_eq!(map_video_item(&item).thumbnail_url, None);
}

#[test]
fn fetch_starts_with_query_window_order_and_page_size() {
    let g = open_prefs();
    let s = preset("p", "P", true);
    let w = TimeWindow {
        start_rfc3339: "2024-01-01T00:00:00Z".to_string(),
        end_rfc3339: "2024-01-08T00:00:00Z".to_string(),
    };
    let state = FetchState::start(&g, &s, Some(w), 4).unwrap();
    let params = state.next_request().unwrap();
    let flat: Vec<(String, String)> = params.iter().map(|(k, v)| (k.to_string(), v.clone())).collect();
    assert_eq!(
        flat,
        vec![
            ("q".to_string(), "topic".to_string()),
            ("publishedAfter".to_string(), "2024-01-01T00:00:00Z".to_string()),
            ("publishedBefore".to_string(), "2024-01-08T00:00:00Z".to_string()),
            ("order".to_string(), "date".to_string()),
            ("maxResults".to_string(), "25".to_string()),
        ]
    );
    let unwindowed = FetchState::start(&g, &s, None, 4).unwrap();
    assert_eq!(unwindowed.next_request().unwrap().len(), 3);
}

#[test]
fn fetch_refuses_an_empty_query() {
    let g = open_prefs();
    let mut s = preset("p", "P", true);
    s.query.q = None;
    s.query.not_terms = names(&["x"]);
    assert_eq!(FetchState::start(&g, &s, None, 4).err(), Some(PipelineError::EmptyQuery));
}

#[test]
fn fetch_stops_at_the_page_cap() {
    let g = open_prefs();
    let s = preset("p", "P", true);
    let mut state = FetchState::start(&g, &s, None, DEFAULT_MAX_SEARCH_PAGES).unwrap();
    let mut pages = 0;
    while let Some(params) = state.next_request() {
        if pages > 0 {
            assert_eq!(params.last().unwrap().0, "pageToken");
            assert_eq!(params.last().unwrap().1, format!("token{}", pages));
        }
        pages += 1;
        assert!(pages <= 100, "the fetch must not loop for ever");
        let id = format!("v{}", pages);
        let token = format!("token{}", pages);
        state.accept_page(&page(&[Some(id.as_str())], Some(token.as_str())));
    }
    assert_eq!(pages, 4);
    let outcome = state.finish();
    assert_eq!(outcome.pages_fetched, 4);
    assert_eq!(outcome.raw_items, 4);
    assert_eq!(outcome.unique_ids, 4);
}

#[test]
fn fetch_honours_a_configured_cap() {
    let g = open_prefs();
    let s = preset("p", "P", true);
    for cap in [1usize, 2, 10] {
        let mut state = FetchState::start(&g, &s, None, cap).unwrap();
        let mut pages = 0;
        while state.next_request().is_some() {
            pages += 1;
            state.accept_page(&page(&[], Some("more")));
        }
        assert_eq!(pages, cap);
    }
    let none = FetchState::start(&g, &s, None, 0).unwrap();
    assert!(none.next_request().is_none());
}

#[test]
fn fetch_stops_when_the_listing_is_exhausted() {
    let g = open_prefs();
    let s = preset("p", "P", true);
    let mut state = FetchState::start(&g, &s, None, 4).unwrap();
    state.accept_page(&page(&[Some("a")], Some("t1")));
    assert!(state.next_request().is_some());
    state.accept_page(&page(&[Some("b")], None));
    assert!(state.next_request().is_none());
    assert_eq!(state.finish().pages_fetched, 2);
}

#[test]
fn ids_seen_before_are_not_looked_up_again() {
    let g = open_prefs();
    let s = preset("p", "P", true);
    let mut state = FetchState::start(&g, &s, None, 4).unwrap();
    let first = state.accept_page(&page(&[Some("a"), None, Some("b"), Some("a")], Some("t")));
    assert_eq!(first, names(&["a", "b"]));
    let second = state.accept_page(&page(&[Some("b"), Some("c"), Some("c")], Some("t")));
    assert_eq!(second, names(&["c"]));
    let outcome = state.finish();
    assert_eq!(outcome.raw_items, 7);
    assert_eq!(outcome.unique_ids, 3);
    assert_eq!(outcome.duplicates_within, 3);
    assert_eq!(outcome.pages_fetched, 2);
}

#[test]
fn details_are_filtered_and_claimed_by_the_search() {
    let mut g = open_prefs();
    g.min_duration_secs = 60;
    let s = preset("p", "My Preset", true);
    let mut state = FetchState::start(&g, &s, None, 4).unwrap();
    let batch = VideosListResponse {
        items: vec![
            record("keep", "Long enough", "2024-01-02T00:00:00Z", "PT2M"),
            record("drop", "Too short", "2024-01-03T00:00:00Z", "PT30S"),
            record("keep2", "Also fine", "2024-01-01T00:00:00Z", "PT1M"),
        ],
    };
    state.accept_details(&batch, &g, &s, &[]);
    let blocked = VideosListResponse { items: vec![record("b", "Fine", "2024", "PT2M")] };
    state.accept_details(&blocked, &g, &s, &names(&["ucchan"]));
    let outcome = state.finish();
    let ids: Vec<&str> = outcome.videos.iter().map(|v| v.id.as_str()).collect();
    assert_eq!(ids, vec!["keep", "keep2"]);
    for v in &outcome.videos {
        assert_eq!(v.source_presets, names(&["My Preset"]));
    }
}

#[test]
fn plan_refuses_bad_configurations_in_order() {
    let mut p = Prefs::default();
    p.api_key = "   ".to_string();
    assert_eq!(plan_run(p.clone(), RunMode::Any).err(), Some(PipelineError::MissingApiKey));
    p.api_key = " key ".to_string();
    assert_eq!(plan_run(p.clone(), RunMode::Any).err(), Some(PipelineError::NoSearches));
    assert_eq!(
        plan_run(p.clone(), RunMode::Single("x".to_string())).err(),
        Some(PipelineError::NoSearches)
    );
    p.searches.push(preset("a", "A", false));
    assert_eq!(plan_run(p.clone(), RunMode::Any).err(), Some(PipelineError::NoEnabledSearches));
    assert_eq!(
        plan_run(p.clone(), RunMode::Single("zzz".to_string())).err(),
        Some(PipelineError::PresetNotFound("zzz".to_string()))
    );
}

#[test]
fn error_messages_are_worded_as_documented() {
    assert_eq!(
        PipelineError::MissingApiKey.message(),
        "Set your YouTube Data API key in the settings panel first."
    );
    assert_eq!(
        PipelineError::NoSearches.message(),
        "No searches configured. Add a preset in the settings panel."
    );
    assert_eq!(
        PipelineError::NoEnabledSearches.message(),
        "Enable at least one preset before running in Any mode."
    );
    assert_eq!(
        PipelineError::PresetNotFound("abc".to_string()).message(),
        "Preset 'abc' not found."
    );
    assert_eq!(
        PipelineError::SearchFailed("boom".to_string()).message(),
        "search.list failed — check API key, quotas, or restrictions: boom"
    );
    assert_eq!(
        PipelineError::DetailsFailed("bang".to_string()).message(),
        "videos.list failed — check API key, quotas, or restrictions: bang"
    );
}

#[test]
fn plan_targets_enabled_searches_in_any_mode() {
    let mut p = Prefs::default();
    p.api_key = " key ".to_string();
    p.searches = vec![preset("a", "A", true), preset("b", "B", false), preset("c", "C", true)];
    p.blocked_channels = names(&["@Spam|Spam Inc", "other"]);
    p.global.active_duration_bucket_ids = names(&["nope"]);
    let plan = plan_run(p, RunMode::Any).unwrap();
    assert_eq!(plan.api_key, "key");
    assert!(plan.is_any_mode);
    let ids: Vec<&str> = plan.targets.iter().map(|s| s.id.as_str()).collect();
    assert_eq!(ids, vec!["a", "c"]);
    assert_eq!(plan.blocked_keys, names(&["spam", "other"]));
    assert_eq!(plan.global.active_duration_bucket_ids, names(&["any"]));
}

#[test]
fn plan_targets_the_named_search_in_single_mode() {
    let mut p = Prefs::default();
    p.api_key = "key".to_string();
    p.searches = vec![preset("a", "A", true), preset("b", "B", false), preset("b", "B2", true)];
    let plan = plan_run(p, RunMode::Single("b".to_string())).unwrap();
    assert!(!plan.is_any_mode);
    assert_eq!(plan.targets.len(), 1);
    assert_eq!(plan.targets[0].name, "B");
}

#[test]
fn same_video_from_two_presets_is_merged_once() {
    let a = brought(vec![found("xyz", "2024-01-01T00:00:00Z", &["A"])], 1, 0, 1, 1);
    let b = brought(vec![found("xyz", "2024-01-01T00:00:00Z", &["B"])], 1, 0, 1, 1);
    let out = run_any(&[a, b]);
    assert_eq!(out.videos.len(), 1);
    assert_eq!(out.videos[0].id, "xyz");
    assert_eq!(out.videos[0].source_presets, names(&["A", "B"]));
    assert_eq!(out.duplicates_across_presets, 1);
    assert_eq!(out.presets_ran, 2);
    assert_eq!(out.passed_filters, 2);
    assert_eq!(out.pages_fetched, 2);
    assert_eq!(out.raw_items, 2);
    assert_eq!(out.unique_ids, 2);
}

#[test]
fn merge_skips_sources_already_present() {
    let mut rows = vec![found("x", "2024", &["A", "B"])];
    assert!(merge_video(&mut rows, found("x", "2024", &["B", "C", "A", "C"])));
    assert_eq!(rows.len(), 1);
    assert_eq!(rows[0].source_presets, names(&["A", "B", "C"]));
    assert!(!merge_video(&mut rows, found("y", "2024", &["A"])));
    assert_eq!(rows.len(), 2);
    let mut sources = names(&["A"]);
    add_missing_sources(&mut sources, &names(&["B", "A", "B"]));
    assert_eq!(sources, names(&["A", "B"]));
}

#[test]
fn merge_keeps_the_first_row_in_place() {
    let a = brought(
        vec![found("one", "2024-01-01T00:00:00Z", &["A"]), found("two", "2024-01-02T00:00:00Z", &["A"])],
        1,
        0,
        2,
        2,
    );
    let b = brought(
        vec![found("two", "1999-01-01T00:00:00Z", &["B"]), found("three", "2024-01-03T00:00:00Z", &["B"])],
        2,
        1,
        4,
        3,
    );
    let mut agg = Aggregation::new(true);
    agg.absorb(&a);
    agg.absorb(&b);
    let ids: Vec<&str> = agg.totals.videos.iter().map(|v| v.id.as_str()).collect();
    assert_eq!(ids, vec!["one", "two", "three"]);
    assert_eq!(agg.totals.videos[1].published_at, "2024-01-02T00:00:00Z");
    assert_eq!(agg.totals.videos[1].source_presets, names(&["A", "B"]));
    let out = agg.finish();
    assert_eq!(counts(&out), [2, 3, 1, 1, 6, 5, 4]);
    let sorted: Vec<&str> = out.videos.iter().map(|v| v.id.as_str()).collect();
    assert_eq!(sorted, vec!["three", "two", "one"]);
}

#[test]
fn later_timestamp_comes_first() {
    let videos = vec![
        found("old", "2024-01-01T00:00:00Z", &["A"]),
        found("new", "2024-06-01T00:00:00Z", &["A"]),
    ];
    let sorted = sort_newest_first(&videos);
    let ids: Vec<&str> = sorted.iter().map(|v| v.id.as_str()).collect();
    assert_eq!(ids, vec!["new", "old"]);
    let out = run_any(&[brought(videos, 1, 0, 2, 2)]);
    assert_eq!(out.videos[0].published_at, "2024-06-01T00:00:00Z");
    assert_eq!(out.videos[1].published_at, "2024-01-01T00:00:00Z");
}

#[test]
fn sort_is_stable_and_agrees_with_std() {
    let stamps = ["2024-03", "2024-01", "2024-03", "2023-12", "2024-01", "2025-01", "", "2024-03"];
    let videos: Vec<VideoDetails> = stamps
        .iter()
        .enumerate()
        .map(|(i, s)| found(&format!("v{}", i), s, &["A"]))
        .collect();
    let mut expected = videos.clone();
    expected.sort_by(|a, b| b.published_at.cmp(&a.published_at));
    let sorted = sort_newest_first(&videos);
    assert_eq!(sorted, expected);
    let ids: Vec<&str> = sorted.iter().map(|v| v.id.as_str()).collect();
    assert_eq!(ids, vec!["v5", "v0", "v2", "v7", "v1", "v4", "v3", "v6"]);
    assert!(sort_newest_first(&vec![]).is_empty());
}

#[test]
fn any_mode_run_is_repeatable() {
    let make = || {
        vec![
            brought(
                vec![found("a", "2024-02-01T00:00:00Z", &["A"]), found("b", "2024-01-01T00:00:00Z", &["A"])],
                2,
                1,
                5,
                4,
            ),
            brought(
                vec![found("b", "2024-01-01T00:00:00Z", &["B"]), found("c", "2024-03-01T00:00:00Z", &["B"])],
                1,
                0,
                2,
                2,
            ),
        ]
    };
    let first = run_any(&make());
    let second = run_any(&make());
    assert_eq!(first.videos, second.videos);
    assert_eq!(counts(&first), counts(&second));
    assert_eq!(counts(&first), [2, 3, 1, 1, 7, 6, 4]);
    let ids: Vec<&str> = first.videos.iter().map(|v| v.id.as_str()).collect();
    assert_eq!(ids, vec!["c", "a", "b"]);
}

#[test]
fn single_mode_appends_without_merging() {
    let mut agg = Aggregation::new(false);
    agg.absorb(&brought(
        vec![found("a", "2024-01-01T00:00:00Z", &["A"]), found("a", "2024-01-02T00:00:00Z", &["A"])],
        1,
        0,
        2,
        2,
    ));
    let out = agg.finish();
    assert_eq!(out.videos.len(), 2);
    assert_eq!(out.duplicates_across_presets, 0);
    assert_eq!(out.passed_filters, 2);
    assert_eq!(out.videos[0].published_at, "2024-01-02T00:00:00Z");
}

#[test]
fn counts_that_do_not_fit_are_refused() {
    let mut agg = Aggregation::new(true);
    assert!(agg.try_absorb(&brought(vec![], usize::MAX, 0, 0, 0)));
    let before = counts(&agg.totals);
    assert!(!agg.has_room_for(&brought(vec![], 1, 0, 0, 0)));
    assert!(!agg.try_absorb(&brought(vec![found("a", "2024", &["A"])], 1, 0, 0, 0)));
    assert_eq!(counts(&agg.totals), before);
    assert!(agg.totals.videos.is_empty());
    assert!(agg.try_absorb(&brought(vec![], 0, 0, 0, 0)));
}

#[test]
fn whole_pipeline_with_mocked_answers() {
    let mut prefs = Prefs::default();
    prefs.api_key = "key".to_string();
    prefs.global = open_prefs();
    prefs.global.min_duration_secs = 60;
    prefs.searches = vec![preset("a", "Alpha", true), preset("b", "Beta", true)];
    let plan = plan_run(prefs, RunMode::Any).unwrap();
    let mut agg = Aggregation::new(plan.is_any_mode);
    for search in &plan.targets {
        let mut state = FetchState::start(&plan.global, search, None, 2).unwrap();
        let mut n = 0;
        while state.next_request().is_some() {
            n += 1;
            let ids = state.accept_page(&page(&[Some("shared"), Some("short")], Some("next")));
            if !ids.is_empty() {
                let items = ids
                    .iter()
                    .map(|id| {
                        let d = if id == "short" { "PT10S" } else { "PT10M" };
                        record(id, "A fine title", "2024-05-05T00:00:00Z", d)
                    })
                    .collect();
                state.accept_details(&VideosListResponse { items }, &plan.global, search, &plan.blocked_keys);
            }
        }
        assert_eq!(n, 2);
        assert!(agg.try_absorb(&state.finish()));
    }
    let out = agg.finish();
    assert_eq!(out.videos.len(), 1);
    assert_eq!(out.videos[0].id, "shared");
    assert_eq!(out.videos[0].source_presets, names(&["Alpha", "Beta"]));
    assert_eq!(counts(&out), [2, 4, 4, 1, 8, 4, 2]);
}

#[test]
fn upstream_failures_say_which_call_failed() {
    assert_eq!(search_failure("quota"), PipelineError::SearchFailed("quota".to_string()));
    assert_eq!(details_failure("denied"), PipelineError::DetailsFailed("denied".to_string()));
    assert_eq!(
        search_failure("YouTube search.list failed (HTTP 403): no").message(),
        "search.list failed — check API key, quotas, or restrictions: YouTube search.list failed (HTTP 403): no"
    );
    assert_ne!(search_failure("x").message(), details_failure("x").message());
}

#[test]
fn page_counts_that_do_not_fit_are_told() {
    let g = open_prefs();
    let s = preset("p", "P", true);
    let mut state = FetchState::start(&g, &s, None, 4).unwrap();
    assert!(state.has_room_for(&page(&[Some("a")], None)));
    state.raw_items = usize::MAX;
    assert!(state.has_room_for(&page(&[], None)));
    assert!(!state.has_room_for(&page(&[Some("a")], None)));
    state.raw_items = 0;
    state.pages_fetched = usize::MAX;
    assert!(!state.has_room_for(&page(&[], None)));
}

#[test]
fn aggregation_of_outcomes_is_a_function_of_them() {
    let make = || {
        vec![
            brought(vec![found("x", "2024-01-01T00:00:00Z", &["A"])], 1, 0, 1, 1),
            brought(
                vec![found("y", "2024-02-01T00:00:00Z", &["B"]), found("x", "2024-01-01T00:00:00Z", &["B"])],
                2,
                1,
                3,
                2,
            ),
        ]
    };
    let first = aggregate_outcomes(true, &make()).unwrap();
    let second = aggregate_outcomes(true, &make()).unwrap();
    assert_eq!(first.videos, second.videos);
    assert_eq!(counts(&first), counts(&second));
    assert_eq!(counts(&first), [2, 3, 1, 1, 4, 3, 3]);
    let ids: Vec<&str> = first.videos.iter().map(|v| v.id.as_str()).collect();
    assert_eq!(ids, vec!["y", "x"]);
    assert_eq!(first.videos[1].source_presets, names(&["A", "B"]));
    let stepwise = run_any(&make());
    assert_eq!(stepwise.videos, first.videos);
    let single = aggregate_outcomes(false, &make()).unwrap();
    assert_eq!(single.videos.len(), 3);
    assert_eq!(single.duplicates_across_presets, 0);
    let empty = aggregate_outcomes(true, &vec![]).unwrap();
    assert_eq!(counts(&empty), [0; 7]);
    let too_many = vec![brought(vec![], usize::MAX, 0, 0, 0), brought(vec![], 1, 0, 0, 0)];
    assert!(aggregate_outcomes(true, &too_many).is_none());
}

fn planned_run(enabled: &[(&str, &str)], mode: RunMode) -> ytsearch::aggregate::RunPlan {
    let mut prefs = Prefs::default();
    prefs.api_key = "key".to_string();
    prefs.global = open_prefs();
    prefs.searches = enabled.iter().map(|(id, name)| preset(id, name, true)).collect();
    plan_run(prefs, mode).unwrap()
}

#[test]
fn a_failed_fetch_does_not_end_the_run() {
    let plan = planned_run(&[("a", "A"), ("b", "B"), ("c", "C")], RunMode::Any);
    let mut run = RunState::begin(&plan);
    assert_eq!(run.next_action(), RunAction::Fetch(0));
    assert!(run.record(Ok(brought(
        vec![found("xyz", "2024-01-01T00:00:00Z", &["A"]), found("a1", "2024-03-01T00:00:00Z", &["A"])],
        1,
        0,
        2,
        2,
    ))));
    assert_eq!(run.next_action(), RunAction::Fetch(1));
    assert!(run.record(Err(search_failure("quota"))));
    assert_eq!(run.next_action(), RunAction::Fetch(2));
    assert!(run.record(Ok(brought(
        vec![found("c1", "2024-02-01T00:00:00Z", &["C"]), found("xyz", "2024-01-01T00:00:00Z", &["C"])],
        2,
        0,
        2,
        2,
    ))));
    assert_eq!(run.next_action(), RunAction::Finish);
    let report = run.finish().unwrap();
    assert_eq!(report.failures, vec![search_failure("quota")]);
    let ids: Vec<&str> = report.outcome.videos.iter().map(|v| v.id.as_str()).collect();
    assert_eq!(ids, vec!["a1", "c1", "xyz"]);
    assert_eq!(report.outcome.videos[2].source_presets, names(&["A", "C"]));
    assert_eq!(counts(&report.outcome), [2, 3, 0, 1, 4, 4, 4]);
}

#[test]
fn shared_video_among_others_is_one_row_with_both_sources() {
    let plan = planned_run(&[("a", "A"), ("b", "B")], RunMode::Any);
    let mut run = RunState::begin(&plan);
    assert!(run.record(Ok(brought(
        vec![
            found("a1", "2024-01-05T00:00:00Z", &["A"]),
            found("xyz", "2024-01-03T00:00:00Z", &["A"]),
            found("a2", "2024-01-01T00:00:00Z", &["A"]),
        ],
        1,
        0,
        3,
        3,
    ))));
    assert!(run.record(Ok(brought(
        vec![
            found("b1", "2024-01-04T00:00:00Z", &["B"]),
            found("xyz", "2024-01-03T00:00:00Z", &["B"]),
            found("b2", "2024-01-02T00:00:00Z", &["B"]),
        ],
        1,
        0,
        3,
        3,
    ))));
    let out = run.finish().unwrap().outcome;
    assert_eq!(out.videos.iter().filter(|v| v.id == "xyz").count(), 1);
    let shared = out.videos.iter().find(|v| v.id == "xyz").unwrap();
    assert_eq!(shared.source_presets, names(&["A", "B"]));
    assert_eq!(out.duplicates_across_presets, 1);
    let ids: Vec<&str> = out.videos.iter().map(|v| v.id.as_str()).collect();
    assert_eq!(ids, vec!["a1", "b1", "xyz", "b2", "a2"]);
}

#[test]
fn a_run_without_any_fetched_search_fails_with_the_first_failure() {
    let plan = planned_run(&[("a", "A"), ("b", "B")], RunMode::Any);
    let mut run = RunState::begin(&plan);
    assert!(run.record(Err(details_failure("first"))));
    assert!(run.record(Err(search_failure("second"))));
    assert_eq!(run.next_action(), RunAction::Finish);
    assert_eq!(run.finish().err(), Some(details_failure("first")));
    let single = planned_run(&[("a", "A"), ("b", "B")], RunMode::Single("b".to_string()));
    let mut one = RunState::begin(&single);
    assert_eq!(one.next_action(), RunAction::Fetch(0));
    assert!(one.record(Err(search_failure("down"))));
    assert_eq!(one.next_action(), RunAction::Finish);
    assert_eq!(one.finish().err(), Some(search_failure("down")));
}

#[test]
fn a_fault_of_the_configuration_ends_the_run() {
    let plan = planned_run(&[("a", "A"), ("b", "B"), ("c", "C")], RunMode::Any);
    let mut run = RunState::begin(&plan);
    assert!(run.record(Ok(brought(vec![found("x", "2024", &["A"])], 1, 0, 1, 1))));
    assert!(run.record(Err(PipelineError::EmptyQuery)));
    assert_eq!(run.next_action(), RunAction::Finish);
    assert_eq!(run.finish().err(), Some(PipelineError::EmptyQuery));
}

#[test]
fn run_counts_that_do_not_fit_are_refused() {
    let plan = planned_run(&[("a", "A"), ("b", "B")], RunMode::Any);
    let mut run = RunState::begin(&plan);
    assert!(run.record(Ok(brought(vec![], usize::MAX, 0, 0, 0))));
    assert!(!run.record(Ok(brought(vec![], 1, 0, 0, 0))));
    assert_eq!(run.next_action(), RunAction::Fetch(1));
    assert!(run.record(Ok(brought(vec![], 0, 0, 0, 0))));
    assert_eq!(run.next_action(), RunAction::Finish);
    let report = run.finish().unwrap();
    assert!(report.failures.is_empty());
    assert_eq!(report.outcome.presets_ran, 2);
}

#[test]
fn a_page_without_new_ids_asks_for_no_lookup() {
    let g = open_prefs();
    let s = preset("p", "P", true);
    let mut state = FetchState::start(&g, &s, None, 4).unwrap();
    assert_eq!(
        state.take_page(&page(&[Some("a"), Some("b")], Some("t"))),
        PageStep::LookUp(names(&["a", "b"]))
    );
    assert_eq!(state.take_page(&page(&[Some("a"), None, Some("b")], Some("t"))), PageStep::Skip);
    assert_eq!(state.take_page(&page(&[], Some("t"))), PageStep::Skip);
    assert_eq!(
        state.take_page(&page(&[Some("b"), Some("c")], None)),
        PageStep::LookUp(names(&["c"]))
    );
    let outcome = state.finish();
    assert_eq!(outcome.pages_fetched, 4);
    assert_eq!(outcome.raw_items, 7);
    assert_eq!(outcome.unique_ids, 3);
    assert_eq!(outcome.duplicates_within, 3);
}

#[test]
fn channels_are_looked_up_only_for_kept_videos() {
    let g = open_prefs();
    let s = preset("p", "P", true);
    let mut state = FetchState::start(&g, &s, None, 4).unwrap();
    assert_eq!(state.closing_step(), ClosingStep::Finish);
    let mut first = record("v1", "One", "2024-01-01T00:00:00Z", "PT1M");
    first.snippet.channel_id = "UCb".to_string();
    let mut second = record("v2", "Two", "2024-01-02T00:00:00Z", "PT1M");
    second.snippet.channel_id = "UCa".to_string();
    let mut third = record("v3", "Three", "2024-01-03T00:00:00Z", "PT1M");
    third.snippet.channel_id = "UCb".to_string();
    state.accept_details(&VideosListResponse { items: vec![first, second, third] }, &g, &s, &[]);
    assert_eq!(state.closing_step(), ClosingStep::Enrich(vec![names(&["UCa", "UCb"])]));
    let items = vec![ChannelItem {
        id: "UCb".to_string(),
        snippet: ChannelSnippet { title: "Channel B".to_string(), custom_url: Some("bee".to_string()) },
    }];
    state.apply_channels(&items);
    let outcome = state.finish();
    assert_eq!(outcome.videos[0].channel_display_name, Some("Channel B".to_string()));
    assert_eq!(outcome.videos[0].channel_custom_url, Some("@bee".to_string()));
    assert_eq!(outcome.videos[1].channel_display_name, Some("Chan".to_string()));
    assert_eq!(outcome.videos[1].channel_custom_url, None);
    assert_eq!(outcome.videos[2].channel_display_name, Some("Channel B".to_string()));
}

#[test]
fn kept_videos_without_channel_ids_still_get_their_fallbacks() {
    let g = open_prefs();
    let s = preset("p", "P", true);
    let mut state = FetchState::start(&g, &s, None, 4).unwrap();
    let mut only = record("v1", "One", "2024-01-01T00:00:00Z", "PT1M");
    only.snippet.channel_id = "  ".to_string();
    state.accept_details(&VideosListResponse { items: vec![only] }, &g, &s, &[]);
    assert_eq!(state.closing_step(), ClosingStep::Enrich(vec![]));
    state.apply_channels(&vec![]);
    assert_eq!(state.finish().videos[0].channel_display_name, Some("Chan".to_string()));
}

#[test]
fn a_failed_call_ends_the_fetch_with_its_error() {
    let g = open_prefs();
    let s = preset("p", "P", true);
    let mut state = FetchState::start(&g, &s, None, 4).unwrap();
    state.take_page(&page(&[Some("a")], Some("t")));
    assert_eq!(state.search_failed("quota"), PipelineError::SearchFailed("quota".to_string()));
    let other = FetchState::start(&g, &s, None, 4).unwrap();
    assert_eq!(other.details_failed("denied"), PipelineError::DetailsFailed("denied".to_string()));
}
