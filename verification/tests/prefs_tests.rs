use ytsearch::prefs::{
    add_missing_defaults, blocked_keys, normalize_block_list, normalize_duration_filters,
    parse_block_entry, DurationBucketConfig, DurationFilterConfig, GlobalPrefs, MySearch, Prefs,
    TimeWindowPreset,
};

fn bucket_for_prefs(id: &str, min: u32, max: Option<u32>, default_selected: bool) -> DurationBucketConfig {
    DurationBucketConfig {
        id: id.to_string(),
        label: id.to_uppercase(),
        min_seconds: min,
        max_seconds: max,
        default_selected,
    }
}

fn search_with_id(id: &str, name: &str) -> MySearch {
    let mut s = MySearch::default();
    s.id = id.to_string();
    s.name = name.to_string();
    s
}

fn strings(items: &[&str]) -> Vec<String> {
    items.iter().map(|s| s.to_string()).collect()
}

#[test]
fn unbounded_bucket_contains_everything_from_min() {
    let b = bucket_for_prefs("long", 3600, None, false);
    assert!(!b.contains(3599));
    assert!(b.contains(3600));
    assert!(b.contains(3601));
    assert!(b.contains(u64::MAX));
    assert!(b.contains(u32::MAX as u64 + 1));
}

#[test]
fn bounded_bucket_has_inclusive_min_and_exclusive_max() {
    let b = bucket_for_prefs("brief", 180, Some(900), false);
    assert!(b.contains(180));
    assert!(b.contains(899));
    assert!(!b.contains(900));
    assert!(!b.contains(179));
    assert!(!b.contains(0));
}

#[test]
fn empty_range_bucket_contains_nothing() {
    let b = bucket_for_prefs("none", 10, Some(10), false);
    assert!(!b.contains(10));
    assert!(!b.contains(9));
    assert!(!b.contains(11));
}

#[test]
fn catch_all_is_zero_min_without_max() {
    assert!(bucket_for_prefs("any", 0, None, true).is_catch_all());
    assert!(!bucket_for_prefs("shorts", 0, Some(180), false).is_catch_all());
    assert!(!bucket_for_prefs("long", 1, None, false).is_catch_all());
}

#[test]
fn default_bucket_is_an_unnamed_catch_all() {
    let b = DurationBucketConfig::default();
    assert_eq!(b.id, "");
    assert_eq!(b.label, "");
    assert_eq!(b.min_seconds, 0);
    assert_eq!(b.max_seconds, None);
    assert!(b.default_selected);
}

#[test]
fn default_filter_config_lists_the_six_builtin_buckets() {
    let c = DurationFilterConfig::default();
    assert!(c.allow_multiple);
    let ids: Vec<&str> = c.buckets.iter().map(|b| b.id.as_str()).collect();
    assert_eq!(ids, vec!["any", "shorts", "brief", "medium", "long", "very-long"]);
    let labels: Vec<&str> = c.buckets.iter().map(|b| b.label.as_str()).collect();
    assert_eq!(
        labels,
        vec![
            "Any length",
            "Shorts (<3 min)",
            "Brief (3-15 min)",
            "Medium (15-30 min)",
            "Long (30-60 min)",
            "Very Long (60+ min)"
        ]
    );
    let mins: Vec<u32> = c.buckets.iter().map(|b| b.min_seconds).collect();
    assert_eq!(mins, vec![0, 0, 180, 900, 1800, 3600]);
    let maxs: Vec<Option<u32>> = c.buckets.iter().map(|b| b.max_seconds).collect();
    assert_eq!(maxs, vec![None, Some(180), Some(900), Some(1800), Some(3600), None]);
    let defaults: Vec<bool> = c.buckets.iter().map(|b| b.default_selected).collect();
    assert_eq!(defaults, vec![true, false, false, false, false, false]);
}

#[test]
fn bucket_by_id_finds_the_first_match() {
    let c = DurationFilterConfig {
        allow_multiple: true,
        buckets: vec![
            bucket_for_prefs("a", 0, Some(10), false),
            bucket_for_prefs("b", 10, Some(20), false),
            bucket_for_prefs("a", 20, Some(30), false),
        ],
    };
    assert_eq!(c.bucket_by_id("a").map(|b| b.min_seconds), Some(0));
    assert_eq!(c.bucket_by_id("b").map(|b| b.min_seconds), Some(10));
    assert!(c.bucket_by_id("c").is_none());
    assert!(c.bucket_by_id("A").is_none());
}

#[test]
fn default_active_ids_prefers_marked_buckets() {
    let c = DurationFilterConfig {
        allow_multiple: true,
        buckets: vec![
            bucket_for_prefs("any", 0, None, false),
            bucket_for_prefs("x", 5, Some(10), true),
            bucket_for_prefs("y", 10, Some(20), true),
        ],
    };
    assert_eq!(c.default_active_ids(), strings(&["x", "y"]));
}

#[test]
fn default_active_ids_falls_back_to_catch_all_then_first() {
    let with_catch_all = DurationFilterConfig {
        allow_multiple: true,
        buckets: vec![
            bucket_for_prefs("x", 5, Some(10), false),
            bucket_for_prefs("any", 0, None, false),
            bucket_for_prefs("any2", 0, None, false),
        ],
    };
    assert_eq!(with_catch_all.default_active_ids(), strings(&["any"]));
    let without = DurationFilterConfig {
        allow_multiple: true,
        buckets: vec![
            bucket_for_prefs("x", 5, Some(10), false),
            bucket_for_prefs("y", 10, None, false),
        ],
    };
    assert_eq!(without.default_active_ids(), strings(&["x"]));
    let empty = DurationFilterConfig { allow_multiple: true, buckets: vec![] };
    assert!(empty.default_active_ids().is_empty());
}

#[test]
fn global_defaults_are_as_documented() {
    let g = GlobalPrefs::default();
    assert_eq!(g.default_window, TimeWindowPreset::D7);
    assert!(g.english_only);
    assert!(!g.require_captions);
    assert!(!g.verify_captions_with_oauth);
    assert_eq!(g.min_duration_secs, 75);
    assert_eq!(g.active_duration_bucket_ids, strings(&["any"]));
    assert_eq!(g.region_code, Some("US".to_string()));
    assert_eq!(g.duration_filters, DurationFilterConfig::default());
}

#[test]
fn prefs_default_is_empty_but_for_global() {
    let p = Prefs::default();
    assert_eq!(p.api_key, "");
    assert!(p.searches.is_empty());
    assert!(p.blocked_channels.is_empty());
    assert_eq!(p.global, GlobalPrefs::default());
    assert_eq!(MySearch::default().priority, 0);
    assert!(!MySearch::default().enabled);
}

#[test]
fn clone_keeps_every_field() {
    let mut p = Prefs::default();
    p.api_key = "k".to_string();
    let mut s = search_with_id("one", "One");
    s.query.q = Some("rust".to_string());
    s.query.any_terms = strings(&["a", "b"]);
    s.min_duration_override = Some(5);
    p.searches.push(s);
    p.blocked_channels = strings(&["x|X"]);
    assert_eq!(p.clone(), p);
}

#[test]
fn normalize_keeps_listed_buckets_in_config_order() {
    let mut g = GlobalPrefs::default();
    g.active_duration_bucket_ids = strings(&["long", "nope", "shorts"]);
    normalize_duration_filters(&mut g);
    assert_eq!(g.active_duration_bucket_ids, strings(&["shorts", "long"]));
}

#[test]
fn normalize_repopulates_an_empty_selection() {
    let mut g = GlobalPrefs::default();
    g.active_duration_bucket_ids = strings(&["unknown"]);
    normalize_duration_filters(&mut g);
    assert_eq!(g.active_duration_bucket_ids, strings(&["any"]));
    g.active_duration_bucket_ids = vec![];
    normalize_duration_filters(&mut g);
    assert_eq!(g.active_duration_bucket_ids, strings(&["any"]));
}

#[test]
fn normalize_keeps_one_bucket_when_single_select() {
    let mut g = GlobalPrefs::default();
    g.duration_filters.allow_multiple = false;
    g.active_duration_bucket_ids = strings(&["long", "brief", "medium"]);
    normalize_duration_filters(&mut g);
    assert_eq!(g.active_duration_bucket_ids, strings(&["brief"]));
    g.duration_filters.buckets[3].default_selected = true;
    g.active_duration_bucket_ids = vec![];
    normalize_duration_filters(&mut g);
    assert_eq!(g.active_duration_bucket_ids, strings(&["any"]));
}

#[test]
fn normalize_leaves_other_fields_alone() {
    let mut g = GlobalPrefs::default();
    g.min_duration_secs = 11;
    g.region_code = None;
    g.active_duration_bucket_ids = strings(&["brief"]);
    let before = g.clone();
    normalize_duration_filters(&mut g);
    assert_eq!(g, before);
}

#[test]
fn add_missing_defaults_appends_unknown_ids_only() {
    let mut p = Prefs::default();
    p.searches.push(search_with_id("a", "Mine"));
    let mut d = Prefs::default();
    d.searches.push(search_with_id("a", "Builtin A"));
    d.searches.push(search_with_id("b", "Builtin B"));
    d.searches.push(search_with_id("b", "Builtin B again"));
    add_missing_defaults(&mut p, &d);
    let names: Vec<&str> = p.searches.iter().map(|s| s.name.as_str()).collect();
    assert_eq!(names, vec!["Mine", "Builtin B"]);
    add_missing_defaults(&mut p, &d);
    assert_eq!(p.searches.len(), 2);
}

#[test]
fn parse_block_entry_splits_key_and_label() {
    assert_eq!(
        parse_block_entry("  @SomeChannel | Some Channel  "),
        ("somechannel".to_string(), "Some Channel".to_string())
    );
    assert_eq!(
        parse_block_entry("@@Loud"),
        ("loud".to_string(), "@@Loud".to_string())
    );
    assert_eq!(
        parse_block_entry(" UCabc | "),
        ("ucabc".to_string(), "UCabc".to_string())
    );
    assert_eq!(
        parse_block_entry("a|b|c"),
        ("a".to_string(), "b|c".to_string())
    );
    assert_eq!(parse_block_entry("   "), (String::new(), String::new()));
    assert_eq!(parse_block_entry(""), (String::new(), String::new()));
    assert_eq!(parse_block_entry("|label"), (String::new(), "label".to_string()));
}

#[test]
fn key_has_no_at_sign_or_whitespace_in_front() {
    assert_eq!(parse_block_entry("@ foo"), ("foo".to_string(), "@ foo".to_string()));
    assert_eq!(parse_block_entry(" @ @Foo |  "), ("foo".to_string(), "@ @Foo".to_string()));
    assert_eq!(parse_block_entry("@ @ "), (String::new(), "@ @".to_string()));
    assert_eq!(parse_block_entry("a @b|x"), ("a @b".to_string(), "x".to_string()));
    for entry in ["@ foo", " @ @x|Label", "Key|", "plain", "@@a b |  L  ", "x|y|z"] {
        let (key, _) = parse_block_entry(entry);
        let stored = format!("{}|label", key);
        assert_eq!(parse_block_entry(&stored).0, key, "{entry:?}");
    }
}

#[test]
fn normalize_block_list_is_idempotent_on_any_entries() {
    let mut list = strings(&[
        "@ foo",
        " @ @Bar | The Bar ",
        "foo|again",
        "  ",
        "@",
        "|no key",
        "Zed|",
        "a|b|c",
        "\u{3000}@\u{a0}Wide|w",
        "@@ @ @",
        "Ünï|x",
    ]);
    normalize_block_list(&mut list);
    let once = list.clone();
    assert_eq!(
        once,
        strings(&["a|b|c", "bar|The Bar", "foo|@ foo", "wide|w", "zed|Zed", "Ünï|x"])
    );
    normalize_block_list(&mut list);
    assert_eq!(list, once);
    normalize_block_list(&mut list);
    assert_eq!(list, once);
}

#[test]
fn blocked_keys_maps_every_entry() {
    let keys = blocked_keys(&strings(&["@A|x", "  ", "b"]));
    assert_eq!(keys, strings(&["a", "", "b"]));
}

#[test]
fn normalize_block_list_sorts_and_keeps_first_of_each_key() {
    let mut list = strings(&["zeta|Z", "@Alpha|First", "  ", "alpha|Second", "Mid", "|no key"]);
    normalize_block_list(&mut list);
    assert_eq!(list, strings(&["alpha|First", "mid|Mid", "zeta|Z"]));
}

#[test]
fn normalize_block_list_is_idempotent_on_plain_entries() {
    let mut list = strings(&["b|B", "@a", "C|c c", "b|other"]);
    normalize_block_list(&mut list);
    let once = list.clone();
    normalize_block_list(&mut list);
    assert_eq!(list, once);
    assert_eq!(once, strings(&["a|@a", "b|B", "c|c c"]));
}

#[test]
fn normalize_block_list_orders_keys_as_strings_do() {
    let mut list = strings(&["b", "a", "B1", "ab", "é", "z", "aa", "a0"]);
    normalize_block_list(&mut list);
    let keys: Vec<String> = list.iter().map(|e| parse_block_entry(e).0).collect();
    let mut expected = keys.clone();
    expected.sort();
    expected.dedup();
    assert_eq!(keys, expected);
    assert_eq!(keys, strings(&["a", "a0", "aa", "ab", "b", "b1", "z", "é"]));
}
