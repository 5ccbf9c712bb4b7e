use ytsearch::duration_filters::{DurationBucketState, DurationFilterState};
use ytsearch::prefs::{DurationBucketConfig, GlobalPrefs};

fn ids_of(items: &[&str]) -> Vec<String> {
    items.iter().map(|s| s.to_string()).collect()
}

fn builtin_state(allow_multiple: bool, active: &[&str]) -> DurationFilterState {
    let mut g = GlobalPrefs::default();
    g.duration_filters.allow_multiple = allow_multiple;
    g.active_duration_bucket_ids = ids_of(active);
    DurationFilterState::from_global(&g)
}

fn plain_bucket(id: &str, min: u32, max: Option<u32>, default_selected: bool, selected: bool) -> DurationBucketState {
    DurationBucketState {
        config: DurationBucketConfig {
            id: id.to_string(),
            label: id.to_string(),
            min_seconds: min,
            max_seconds: max,
            default_selected,
        },
        selected,
    }
}

fn ticks_of(state: &DurationFilterState) -> Vec<bool> {
    state.buckets.iter().map(|b| b.selected).collect()
}

#[test]
fn state_from_global_ticks_the_active_buckets() {
    let state = builtin_state(true, &["brief", "long"]);
    assert!(state.allow_multiple);
    assert_eq!(state.buckets.len(), 6);
    assert_eq!(state.selected_ids(), ids_of(&["brief", "long"]));
    assert_eq!(ticks_of(&state), vec![false, false, true, false, true, false]);
    assert_eq!(ticks_of(&state), state.ticks());
}

#[test]
fn state_from_global_never_starts_empty() {
    assert_eq!(builtin_state(true, &[]).selected_ids(), ids_of(&["any"]));
    assert_eq!(builtin_state(true, &["unknown"]).selected_ids(), ids_of(&["any"]));
    assert_eq!(builtin_state(false, &["long", "brief"]).selected_ids(), ids_of(&["brief"]));
}

#[test]
fn toggling_a_bucket_on_drops_the_catch_all() {
    let mut state = builtin_state(true, &["any"]);
    assert!(state.toggle("brief"));
    assert_eq!(state.selected_ids(), ids_of(&["brief"]));
    assert!(state.toggle("long"));
    assert_eq!(state.selected_ids(), ids_of(&["brief", "long"]));
}

#[test]
fn toggling_the_sole_active_bucket_off_reactivates_the_catch_all() {
    let mut state = builtin_state(true, &["brief"]);
    assert!(state.toggle("brief"));
    assert_eq!(state.selected_ids(), ids_of(&["any"]));
}

#[test]
fn without_a_catch_all_the_first_bucket_takes_over() {
    let mut state = DurationFilterState {
        allow_multiple: true,
        buckets: vec![
            plain_bucket("short", 0, Some(60), false, false),
            plain_bucket("mid", 60, Some(600), true, false),
            plain_bucket("long", 600, None, false, true),
        ],
    };
    assert!(state.toggle("long"));
    assert_eq!(state.selected_ids(), ids_of(&["short"]));
    assert!(state.toggle("short"));
    assert_eq!(state.selected_ids(), ids_of(&["short"]));
}

#[test]
fn toggling_one_of_several_off_leaves_the_rest() {
    let mut state = builtin_state(true, &["brief", "long"]);
    assert!(state.toggle("brief"));
    assert_eq!(state.selected_ids(), ids_of(&["long"]));
}

#[test]
fn toggling_the_catch_all_clears_the_others() {
    let mut state = builtin_state(true, &["brief", "long"]);
    assert!(state.toggle("any"));
    assert_eq!(state.selected_ids(), ids_of(&["any"]));
    assert!(!state.toggle("any"));
    assert_eq!(state.selected_ids(), ids_of(&["any"]));
}

#[test]
fn toggling_a_ticked_catch_all_leaves_it_ticked_alone() {
    let mut state = DurationFilterState {
        allow_multiple: true,
        buckets: vec![
            plain_bucket("short", 0, Some(60), true, false),
            plain_bucket("any", 0, None, false, true),
        ],
    };
    assert!(!state.toggle("any"));
    assert_eq!(ticks_of(&state), vec![false, true]);
    state.set_ticks(&vec![true, true]);
    assert!(state.toggle("any"));
    assert_eq!(ticks_of(&state), vec![false, true]);
    state.set_ticks(&vec![true, false]);
    assert!(state.toggle("any"));
    assert_eq!(ticks_of(&state), vec![false, true]);
    for allow_multiple in [true, false] {
        for ticked in [false, true] {
            let mut builtin = builtin_state(allow_multiple, if ticked { &["any"] } else { &["long"] });
            builtin.toggle("any");
            assert_eq!(builtin.selected_ids(), ids_of(&["any"]));
        }
    }
}

#[test]
fn single_select_keeps_exactly_the_toggled_bucket() {
    let mut state = builtin_state(false, &["any"]);
    assert!(state.toggle("medium"));
    assert_eq!(state.selected_ids(), ids_of(&["medium"]));
    assert!(!state.toggle("medium"));
    assert_eq!(state.selected_ids(), ids_of(&["medium"]));
    assert!(state.toggle("long"));
    assert_eq!(state.selected_ids(), ids_of(&["long"]));
}

#[test]
fn single_select_never_ends_with_two_catch_alls() {
    let mut state = DurationFilterState {
        allow_multiple: false,
        buckets: vec![
            plain_bucket("any1", 0, None, false, true),
            plain_bucket("any2", 0, None, false, false),
            plain_bucket("x", 5, Some(10), false, false),
        ],
    };
    assert!(!state.toggle("any1"));
    assert_eq!(state.selected_ids(), ids_of(&["any1"]));
    assert!(state.toggle("x"));
    assert_eq!(state.selected_ids(), ids_of(&["x"]));
    assert!(state.toggle("any2"));
    assert_eq!(state.selected_ids(), ids_of(&["any2"]));
}

#[test]
fn unknown_id_changes_nothing() {
    let mut state = builtin_state(true, &["brief"]);
    assert!(!state.toggle("nope"));
    assert_eq!(state.selected_ids(), ids_of(&["brief"]));
    let mut empty = DurationFilterState { allow_multiple: true, buckets: vec![] };
    assert!(!empty.toggle("any"));
    assert!(empty.selected_ids().is_empty());
    assert!(!empty.ensure_minimum_selection());
    assert!(!empty.activate_catch_all());
}

#[test]
fn selection_is_never_empty_after_any_toggle() {
    for allow_multiple in [true, false] {
        let mut state = builtin_state(allow_multiple, &["any"]);
        let order = ["brief", "brief", "any", "long", "shorts", "long", "shorts", "any", "any", "very-long", "very-long"];
        for id in order {
            state.toggle(id);
            let n = state.selected_ids().len();
            assert!(n >= 1, "{id}");
            if !allow_multiple {
                assert_eq!(n, 1, "{id}");
            }
        }
    }
}

#[test]
fn sync_from_ids_reports_change() {
    let mut state = builtin_state(true, &["any"]);
    assert!(state.sync_from_ids(&ids_of(&["long"])));
    assert_eq!(state.selected_ids(), ids_of(&["long"]));
    assert!(!state.sync_from_ids(&ids_of(&["long"])));
    assert!(state.sync_from_ids(&[]));
    assert_eq!(state.selected_ids(), ids_of(&["any"]));
    assert!(!state.sync_from_ids(&ids_of(&["any"])));
}

#[test]
fn helpers_report_what_they_did() {
    let mut state = builtin_state(true, &["brief", "long"]);
    assert!(!state.ensure_minimum_selection());
    assert!(!state.ensure_default_if_empty());
    assert!(!state.enforce_single_selection());
    assert!(state.select_only(4));
    assert_eq!(state.selected_ids(), ids_of(&["long"]));
    assert!(!state.select_only(4));
    assert!(state.activate_catch_all());
    assert_eq!(state.selected_ids(), ids_of(&["any"]));
    assert!(!state.activate_catch_all());
    state.allow_multiple = false;
    assert!(state.set_ticks(&vec![false, true, true, false, false, true]));
    assert!(state.enforce_single_selection());
    assert_eq!(state.selected_ids(), ids_of(&["shorts"]));
    assert!(state.set_ticks(&vec![false; 6]));
    assert!(state.ensure_minimum_selection());
    assert_eq!(state.selected_ids(), ids_of(&["any"]));
    assert_eq!(state.position("medium"), Some(3));
    assert_eq!(state.position("none"), None);
}

#[test]
fn allows_checks_the_ticked_buckets() {
    let state = builtin_state(true, &["brief", "long"]);
    assert!(state.allows(180));
    assert!(!state.allows(900));
    assert!(state.allows(1800));
    assert!(!state.allows(100));
    let mut none = builtin_state(true, &["brief"]);
    none.set_ticks(&vec![false; 6]);
    assert!(none.allows(5));
    assert!(builtin_state(true, &["any"]).allows(u64::MAX));
}
