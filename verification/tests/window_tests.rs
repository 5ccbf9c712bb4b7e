use ytsearch::prefs::{GlobalPrefs, MySearch, TimeWindow, TimeWindowPreset};
use ytsearch::window::{
    resolve_window, resolve_window_at, stamp_or_epoch, window_for_preset, window_for_preset_at,
};

const NEW_YEAR_2019: i128 = 1_546_300_800_000_000_000;

#[test]
fn rolling_windows_end_now_and_reach_back_by_preset() {
    let today = window_for_preset_at(TimeWindowPreset::Today, NEW_YEAR_2019).unwrap();
    assert_eq!(today.end_rfc3339, "2019-01-01T00:00:00Z");
    assert_eq!(today.start_rfc3339, "2018-12-31T00:00:00Z");
    let h48 = window_for_preset_at(TimeWindowPreset::H48, NEW_YEAR_2019).unwrap();
    assert_eq!(h48.end_rfc3339, "2019-01-01T00:00:00Z");
    assert_eq!(h48.start_rfc3339, "2018-12-30T00:00:00Z");
    let d7 = window_for_preset_at(TimeWindowPreset::D7, NEW_YEAR_2019).unwrap();
    assert_eq!(d7.end_rfc3339, "2019-01-01T00:00:00Z");
    assert_eq!(d7.start_rfc3339, "2018-12-25T00:00:00Z");
}

#[test]
fn all_time_means_no_window() {
    assert_eq!(window_for_preset_at(TimeWindowPreset::AllTime, NEW_YEAR_2019), None);
    assert_eq!(window_for_preset_at(TimeWindowPreset::AllTime, 0), None);
    assert_eq!(window_for_preset(TimeWindowPreset::AllTime), None);
}

#[test]
fn fractional_seconds_are_kept() {
    let w = window_for_preset_at(TimeWindowPreset::Today, NEW_YEAR_2019 + 500_000_000).unwrap();
    assert_eq!(w.end_rfc3339, "2019-01-01T00:00:00.5Z");
    assert_eq!(w.start_rfc3339, "2018-12-31T00:00:00.5Z");
}

#[test]
fn unwritable_instants_fall_back_to_the_epoch() {
    let far = window_for_preset_at(TimeWindowPreset::Today, i128::MAX).unwrap();
    assert_eq!(far.end_rfc3339, "1970-01-01T00:00:00Z");
    assert_eq!(far.start_rfc3339, "1970-01-01T00:00:00Z");
    let low = window_for_preset_at(TimeWindowPreset::D7, i128::MIN).unwrap();
    assert_eq!(low.end_rfc3339, "1970-01-01T00:00:00Z");
    assert_eq!(low.start_rfc3339, "1970-01-01T00:00:00Z");
    let epoch = window_for_preset_at(TimeWindowPreset::Today, 0).unwrap();
    assert_eq!(epoch.end_rfc3339, "1970-01-01T00:00:00Z");
    assert_eq!(epoch.start_rfc3339, "1969-12-31T00:00:00Z");
}

#[test]
fn window_now_is_a_pair_of_timestamps() {
    let w = window_for_preset(TimeWindowPreset::D7).unwrap();
    assert!(w.start_rfc3339 < w.end_rfc3339);
    assert!(w.end_rfc3339.ends_with('Z'));
    assert!(w.end_rfc3339.as_str() > "2019");
    assert_eq!(&w.end_rfc3339[4..5], "-");
}

#[test]
fn override_window_is_returned_unchanged() {
    let g = GlobalPrefs::default();
    let mut s = MySearch::default();
    let w = TimeWindow {
        start_rfc3339: "2030-01-01T00:00:00Z".to_string(),
        end_rfc3339: "2020-01-01T00:00:00Z".to_string(),
    };
    s.window_override = Some(w.clone());
    assert_eq!(resolve_window(&g, &s), Some(w.clone()));
    assert_eq!(resolve_window_at(&g, &s, 0), Some(w));
}

#[test]
fn resolver_uses_global_default_without_override() {
    let mut g = GlobalPrefs::default();
    let s = MySearch::default();
    let w = resolve_window_at(&g, &s, NEW_YEAR_2019).unwrap();
    assert_eq!(w.start_rfc3339, "2018-12-25T00:00:00Z");
    g.default_window = TimeWindowPreset::AllTime;
    assert_eq!(resolve_window_at(&g, &s, NEW_YEAR_2019), None);
    assert_eq!(resolve_window(&g, &s), None);
    g.default_window = TimeWindowPreset::Today;
    assert!(resolve_window(&g, &s).is_some());
}

#[test]
fn a_timestamp_that_could_not_be_written_becomes_the_epoch() {
    assert_eq!(stamp_or_epoch(None), "1970-01-01T00:00:00Z");
    assert_eq!(stamp_or_epoch(Some("2024-05-05T00:00:00Z".to_string())), "2024-05-05T00:00:00Z");
    assert_eq!(stamp_or_epoch(Some(String::new())), "");
}
