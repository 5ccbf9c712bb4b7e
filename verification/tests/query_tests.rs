use ytsearch::error::PipelineError;
use ytsearch::prefs::{GlobalPrefs, MySearch, QuerySpec};
use ytsearch::query::{build_query_params, build_query_text, format_query_token};

fn terms(items: &[&str]) -> Vec<String> {
    items.iter().map(|s| s.to_string()).collect()
}

fn pairs(params: &[(&'static str, String)]) -> Vec<(String, String)> {
    params.iter().map(|(k, v)| (k.to_string(), v.clone())).collect()
}

fn owned_pairs(items: &[(&str, &str)]) -> Vec<(String, String)> {
    items.iter().map(|(k, v)| (k.to_string(), v.to_string())).collect()
}

#[test]
fn token_is_quoted_only_when_needed() {
    assert_eq!(format_query_token("rust"), "rust");
    assert_eq!(format_query_token("a b"), "\"a b\"");
    assert_eq!(format_query_token("say \"hi\""), "\"say \\\"hi\\\"\"");
    assert_eq!(format_query_token("x\"y"), "\"x\\\"y\"");
    assert_eq!(format_query_token("tab\there"), "\"tab\there\"");
    assert_eq!(format_query_token(""), "");
    assert_eq!(format_query_token("a-b_c"), "a-b_c");
}

#[test]
fn query_text_joins_parts_in_fixed_order() {
    let mut q = QuerySpec::default();
    q.q = Some("  free text ".to_string());
    q.any_terms = terms(&["a b", "c", "  "]);
    q.all_terms = terms(&["must", "", "two words"]);
    q.not_terms = terms(&["x", " y z "]);
    assert_eq!(
        build_query_text(&q),
        "free text (\"a b\" OR c) must \"two words\" -x -\"y z\""
    );
}

#[test]
fn any_terms_become_an_or_group() {
    let mut q = QuerySpec::default();
    q.any_terms = terms(&["a b", "c"]);
    let text = build_query_text(&q);
    assert!(text.contains("(\"a b\" OR c)"));
    assert_eq!(text, "(\"a b\" OR c)");
    q.any_terms = terms(&["solo"]);
    assert_eq!(build_query_text(&q), "(solo)");
}

#[test]
fn not_terms_get_a_minus_sign() {
    let mut q = QuerySpec::default();
    q.q = Some("topic".to_string());
    q.not_terms = terms(&["x"]);
    let text = build_query_text(&q);
    assert!(text.contains("-x"));
    assert_eq!(text, "topic -x");
}

#[test]
fn empty_query_text_for_empty_spec() {
    assert_eq!(build_query_text(&QuerySpec::default()), "");
    let mut q = QuerySpec::default();
    q.q = Some("   ".to_string());
    q.any_terms = terms(&[" "]);
    assert_eq!(build_query_text(&q), "");
}

#[test]
fn builder_fails_without_positive_terms() {
    let g = GlobalPrefs::default();
    let s = MySearch::default();
    assert_eq!(build_query_params(&g, &s), Err(PipelineError::EmptyQuery));
    let mut only_not = MySearch::default();
    only_not.query.not_terms = terms(&["x"]);
    assert_eq!(build_query_params(&g, &only_not), Err(PipelineError::EmptyQuery));
    let mut blank = MySearch::default();
    blank.query.q = Some(" \t ".to_string());
    blank.query.all_terms = terms(&["", "  "]);
    assert_eq!(build_query_params(&g, &blank), Err(PipelineError::EmptyQuery));
}

#[test]
fn empty_query_error_has_its_message() {
    assert_eq!(
        PipelineError::EmptyQuery.message(),
        "Search query is empty. Add some terms to your preset."
    );
}

#[test]
fn params_carry_only_what_applies() {
    let mut g = GlobalPrefs::default();
    g.region_code = None;
    g.min_duration_secs = 0;
    let mut s = MySearch::default();
    s.query.q = Some("rust".to_string());
    let params = build_query_params(&g, &s).unwrap();
    assert_eq!(pairs(&params), owned_pairs(&[("q", "rust")]));
}

#[test]
fn params_come_in_fixed_order() {
    let mut g = GlobalPrefs::default();
    g.region_code = Some("DE".to_string());
    g.require_captions = true;
    g.min_duration_secs = 1200;
    let mut s = MySearch::default();
    s.query.all_terms = terms(&["rust lang"]);
    s.query.category_id = Some(28);
    let params = build_query_params(&g, &s).unwrap();
    assert_eq!(
        pairs(&params),
        owned_pairs(&[
            ("q", "\"rust lang\""),
            ("videoCategoryId", "28"),
            ("regionCode", "DE"),
            ("videoCaption", "closedCaption"),
            ("videoDuration", "long"),
        ])
    );
}

#[test]
fn duration_hint_follows_the_thresholds() {
    let mut g = GlobalPrefs::default();
    g.region_code = None;
    let mut s = MySearch::default();
    s.query.q = Some("x".to_string());
    let hint = |g: &GlobalPrefs, s: &MySearch| -> Option<String> {
        build_query_params(g, s)
            .unwrap()
            .iter()
            .find(|(k, _)| *k == "videoDuration")
            .map(|(_, v)| v.clone())
    };
    g.min_duration_secs = 599;
    assert_eq!(hint(&g, &s), None);
    g.min_duration_secs = 600;
    assert_eq!(hint(&g, &s), Some("medium".to_string()));
    g.min_duration_secs = 1199;
    assert_eq!(hint(&g, &s), Some("medium".to_string()));
    g.min_duration_secs = 1200;
    assert_eq!(hint(&g, &s), Some("long".to_string()));
    s.min_duration_override = Some(0);
    assert_eq!(hint(&g, &s), None);
}

#[test]
fn caption_override_beats_global() {
    let mut g = GlobalPrefs::default();
    g.region_code = None;
    g.min_duration_secs = 0;
    g.require_captions = true;
    let mut s = MySearch::default();
    s.query.q = Some("x".to_string());
    s.require_captions_override = Some(false);
    assert_eq!(pairs(&build_query_params(&g, &s).unwrap()), owned_pairs(&[("q", "x")]));
    g.require_captions = false;
    s.require_captions_override = Some(true);
    assert_eq!(
        pairs(&build_query_params(&g, &s).unwrap()),
        owned_pairs(&[("q", "x"), ("videoCaption", "closedCaption")])
    );
}

#[test]
fn category_id_is_written_in_decimal() {
    let mut g = GlobalPrefs::default();
    g.region_code = None;
    g.min_duration_secs = 0;
    let mut s = MySearch::default();
    s.query.q = Some("x".to_string());
    for id in [0u32, 7, 10, 4294967295] {
        s.query.category_id = Some(id);
        let params = build_query_params(&g, &s).unwrap();
        assert_eq!(params[1].0, "videoCategoryId");
        assert_eq!(params[1].1, id.to_string());
    }
}
