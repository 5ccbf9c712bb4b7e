use ytsearch::prefs::{MySearch, TimeWindow};
use ytsearch::preset_editor::{
    apply_clipboard_preset, same_search, PresetEditorMode, PresetEditorState,
};

fn entries(items: &[&str]) -> Vec<String> {
    items.iter().map(|s| s.to_string()).collect()
}

fn stored_search() -> MySearch {
    let mut s = MySearch::default();
    s.id = "  my-id ".to_string();
    s.name = " Name ".to_string();
    s.enabled = false;
    s.query.q = Some(" rust ".to_string());
    s.query.any_terms = entries(&[" a ", "b", "a", "  "]);
    s.query.all_terms = entries(&["x"]);
    s.query.not_terms = entries(&["n", "n "]);
    s.query.channel_allow = entries(&["@ok"]);
    s.query.channel_deny = entries(&[]);
    s.query.category_id = Some(27);
    s.window_override = Some(TimeWindow {
        start_rfc3339: " 2024-01-01T00:00:00Z".to_string(),
        end_rfc3339: "2024-02-01T00:00:00Z ".to_string(),
    });
    s.english_only_override = Some(false);
    s.min_duration_override = Some(90);
    s.priority = 3;
    s.system = true;
    s
}

#[test]
fn terms_are_trimmed_and_deduplicated() {
    let mut list = entries(&[" a ", "b", "a", "  ", "", "B", "b "]);
    PresetEditorState::normalize_terms(&mut list);
    assert_eq!(list, entries(&["a", "b", "B"]));
    assert_eq!(PresetEditorState::normalized_terms_vec(&list), list);
    assert!(PresetEditorState::normalized_terms_vec(&[].to_vec()).is_empty());
}

#[test]
fn editing_keeps_the_search_as_stored() {
    let source = stored_search();
    let editor = PresetEditorState::new(PresetEditorMode::Edit { index: 2 }, &source, true, false, 75);
    assert_eq!(editor.mode, PresetEditorMode::Edit { index: 2 });
    assert!(!editor.enabled);
    assert_eq!(editor.name, " Name ");
    assert_eq!(editor.query_text, " rust ");
    assert_eq!(editor.any_terms, entries(&["a", "b"]));
    assert_eq!(editor.not_terms, entries(&["n"]));
    assert!(editor.window_override_enabled);
    assert_eq!(editor.window_start, " 2024-01-01T00:00:00Z");
    assert!(editor.english_override_enabled);
    assert!(!editor.english_override_value);
    assert!(!editor.captions_override_enabled);
    assert!(!editor.captions_override_value);
    assert!(editor.min_duration_override_enabled);
    assert_eq!(editor.min_duration_override_value, 90);
    assert_eq!(editor.priority, 3);
    assert_eq!(editor.error, None);
    assert_eq!(editor.working.id, "  my-id ");
    assert_eq!(editor.working.name, "Name");
    assert_eq!(editor.working.query.q, Some("rust".to_string()));
    assert_eq!(editor.working.query.any_terms, entries(&["a", "b"]));
    assert_eq!(editor.working.query.category_id, Some(27));
    assert_eq!(
        editor.working.window_override,
        Some(TimeWindow {
            start_rfc3339: "2024-01-01T00:00:00Z".to_string(),
            end_rfc3339: "2024-02-01T00:00:00Z".to_string(),
        })
    );
    assert!(editor.working.system);
    assert_eq!(editor.initial, editor.working);
    assert!(!editor.is_dirty());
}

#[test]
fn new_and_duplicate_trim_the_id_and_enable() {
    let source = stored_search();
    for mode in [PresetEditorMode::New, PresetEditorMode::Duplicate { source_index: 0 }] {
        let editor = PresetEditorState::new(mode, &source, true, true, 10);
        assert!(editor.enabled);
        assert!(editor.working.enabled);
        assert_eq!(editor.working.id, "my-id");
        assert!(!editor.is_dirty());
    }
}

#[test]
fn defaults_fill_the_override_values() {
    let editor = PresetEditorState::new(PresetEditorMode::New, &MySearch::default(), true, true, 42);
    assert!(!editor.english_override_enabled);
    assert!(editor.english_override_value);
    assert!(editor.captions_override_value);
    assert_eq!(editor.min_duration_override_value, 42);
    assert!(!editor.window_override_enabled);
    assert_eq!(editor.query_text, "");
    assert_eq!(editor.working.english_only_override, None);
    assert_eq!(editor.working.min_duration_override, None);
    assert_eq!(editor.working.query.q, None);
}

#[test]
fn edits_make_the_editor_dirty_until_the_baseline_is_reset() {
    let mut editor = PresetEditorState::new(PresetEditorMode::New, &stored_search(), true, false, 75);
    editor.any_terms.push("  b ".to_string());
    assert!(!editor.is_dirty());
    editor.any_terms.push("c".to_string());
    assert!(editor.is_dirty());
    let snapshot = editor.snapshot();
    assert_eq!(snapshot.query.any_terms, entries(&["a", "b", "c"]));
    assert_eq!(editor.any_terms, entries(&["a", "b", "  b ", "c"]));
    editor.hydrate_working();
    assert_eq!(editor.any_terms, entries(&["a", "b", "c"]));
    assert_eq!(editor.working, snapshot);
    assert!(editor.is_dirty());
    editor.reset_dirty_baseline();
    assert!(!editor.is_dirty());
    assert_eq!(editor.initial, snapshot);
}

#[test]
fn window_needs_both_ends_and_the_switch() {
    let mut editor = PresetEditorState::new(PresetEditorMode::New, &stored_search(), true, false, 75);
    editor.window_end = "   ".to_string();
    assert_eq!(editor.snapshot().window_override, None);
    editor.window_end = "2025-01-01T00:00:00Z".to_string();
    assert!(editor.snapshot().window_override.is_some());
    editor.window_override_enabled = false;
    assert_eq!(editor.snapshot().window_override, None);
    editor.query_text = "  ".to_string();
    editor.name = "  New name ".to_string();
    editor.min_duration_override_enabled = false;
    editor.captions_override_enabled = true;
    editor.captions_override_value = true;
    let s = editor.snapshot();
    assert_eq!(s.query.q, None);
    assert_eq!(s.name, "New name");
    assert_eq!(s.min_duration_override, None);
    assert_eq!(s.require_captions_override, Some(true));
}

#[test]
fn loading_another_search_drops_pending_input() {
    let mut editor = PresetEditorState::new(PresetEditorMode::New, &stored_search(), true, false, 75);
    editor.new_any_term = "typing".to_string();
    editor.error = Some("bad".to_string());
    editor.awaiting_clipboard = true;
    editor.show_dirty_warning = true;
    editor.pending_clipboard = Some(MySearch::default());
    let baseline = editor.initial.clone();
    let mut other = MySearch::default();
    other.name = "Other".to_string();
    editor.apply_source(&other);
    assert_eq!(editor.new_any_term, "");
    assert_eq!(editor.error, None);
    assert!(!editor.awaiting_clipboard);
    assert!(!editor.show_dirty_warning);
    assert_eq!(editor.pending_clipboard, None);
    assert_eq!(editor.name, "Other");
    assert!(editor.any_terms.is_empty());
    assert!(editor.working.enabled);
    assert_eq!(editor.initial, baseline);
    assert!(editor.is_dirty());
}

#[test]
fn same_search_compares_every_field() {
    let a = stored_search();
    assert!(same_search(&a, &a.clone()));
    let mut b = a.clone();
    b.query.channel_deny.push("x".to_string());
    assert!(!same_search(&a, &b));
    let mut c = a.clone();
    c.window_override = None;
    assert!(!same_search(&a, &c));
    let mut d = a.clone();
    d.system = false;
    assert!(!same_search(&a, &d));
    let mut e = a.clone();
    e.query.q = None;
    assert!(!same_search(&a, &e));
    assert_eq!(same_search(&a, &b), a == b);
}

#[test]
fn pasted_search_takes_the_edited_id_or_none() {
    let mut editing =
        PresetEditorState::new(PresetEditorMode::Edit { index: 0 }, &stored_search(), true, false, 75);
    let mut pasted = MySearch::default();
    pasted.id = "foreign".to_string();
    pasted.name = "Pasted".to_string();
    apply_clipboard_preset(&mut editing, pasted.clone());
    assert_eq!(editing.working.id, "  my-id ");
    assert_eq!(editing.name, "Pasted");
    assert!(!editing.working.enabled);
    let mut fresh = PresetEditorState::new(PresetEditorMode::New, &stored_search(), true, false, 75);
    apply_clipboard_preset(&mut fresh, pasted);
    assert_eq!(fresh.working.id, "");
    assert_eq!(fresh.name, "Pasted");
    assert!(fresh.working.enabled);
    assert!(fresh.enabled);
}
