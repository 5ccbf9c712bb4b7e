use ytsearch::prefs::MySearch;
use ytsearch::preset_editor::{PresetEditorMode, PresetEditorState};
use ytsearch::presets::{
    check_save, clear_retired_category, duplicate_of, generate_unique_id_with, import_presets,
    sanitize_id_source, selection_after_delete, selection_after_import, signed_decimal_chars,
    try_save_editor, ImportError, SaveError,
};

fn kept(id: &str, name: &str) -> MySearch {
    let mut s = MySearch::default();
    s.id = id.to_string();
    s.name = name.to_string();
    s.query.q = Some("topic".to_string());
    s.enabled = true;
    s
}

fn slug_by_std(name: &str) -> String {
    let mut base: String = name
        .trim()
        .to_ascii_lowercase()
        .chars()
        .map(|ch| match ch {
            'a'..='z' | '0'..='9' => ch,
            _ => '-',
        })
        .collect();
    while base.contains("--") {
        base = base.replace("--", "-");
    }
    base.trim_matches('-').to_string()
}

#[test]
fn names_become_slugs() {
    assert_eq!(sanitize_id_source("  My Cool Preset!  "), "my-cool-preset");
    assert_eq!(sanitize_id_source("Rust & Go -- 2024"), "rust-go-2024");
    assert_eq!(sanitize_id_source("---"), "");
    assert_eq!(sanitize_id_source(""), "");
    assert_eq!(sanitize_id_source("日本語"), "");
    assert_eq!(sanitize_id_source("a"), "a");
    assert_eq!(sanitize_id_source("-a-"), "a");
    assert_eq!(sanitize_id_source("A_b.C"), "a-b-c");
    for name in ["", " ", "a--b", "--a--b--", "x  y", "é1é", "a-----", "----a", "a - b - c", "UPPER lower 09"] {
        assert_eq!(sanitize_id_source(name), slug_by_std(name), "{name:?}");
    }
}

#[test]
fn signed_numbers_are_written_with_their_sign() {
    let text = |n: i64| -> String { signed_decimal_chars(n).into_iter().collect() };
    for n in [0i64, 1, -1, 42, -42, i64::MAX, i64::MIN, 1_700_000_000] {
        assert_eq!(text(n), n.to_string());
    }
}

#[test]
fn unique_id_is_the_first_free_candidate() {
    let existing = vec![kept("news", "x"), kept("news-2", "y"), kept("news-4", "z")];
    assert_eq!(generate_unique_id_with("News", &existing, 0), "news-3");
    assert_eq!(generate_unique_id_with("Other", &existing, 0), "other");
    assert_eq!(generate_unique_id_with("news 2", &existing, 0), "news-2-2");
    assert_eq!(generate_unique_id_with("News", &vec![], 0), "news");
}

#[test]
fn unique_id_falls_back_to_the_time() {
    assert_eq!(generate_unique_id_with("!!!", &vec![], 1_700_000_000), "preset-1700000000");
    assert_eq!(generate_unique_id_with("", &vec![], -5), "preset--5");
    let existing = vec![kept("preset-7", "x")];
    assert_eq!(generate_unique_id_with("  ", &existing, 7), "preset-7-2");
}

#[test]
fn unique_id_counts_past_many_taken_ids() {
    let mut existing = vec![kept("a", "")];
    for k in 2..=25 {
        existing.push(kept(&format!("a-{}", k), ""));
    }
    assert_eq!(generate_unique_id_with("A", &existing, 0), "a-26");
}

#[test]
fn save_refuses_a_blank_name() {
    let mut searches = vec![kept("one", "One")];
    let mut source = kept("", "   ");
    source.query.q = Some("x".to_string());
    let mut editor = PresetEditorState::new(PresetEditorMode::New, &source, true, false, 75);
    assert_eq!(try_save_editor(&mut searches, &mut editor, 0), Err(SaveError::EmptyName));
    assert_eq!(editor.error, Some("Name cannot be empty.".to_string()));
    assert_eq!(searches.len(), 1);
}

#[test]
fn save_refuses_a_search_without_positive_terms() {
    let mut searches = vec![];
    let mut source = kept("", "Named");
    source.query.q = Some("  ".to_string());
    source.query.not_terms = vec!["x".to_string()];
    source.query.any_terms = vec!["  ".to_string()];
    let mut editor = PresetEditorState::new(PresetEditorMode::New, &source, true, false, 75);
    assert_eq!(check_save(&searches, &editor), Some(SaveError::NoQueryTerm));
    assert_eq!(try_save_editor(&mut searches, &mut editor, 0), Err(SaveError::NoQueryTerm));
    assert_eq!(editor.error, Some("Configure at least one query term.".to_string()));
    assert!(searches.is_empty());
    editor.all_terms.push(" must ".to_string());
    assert_eq!(try_save_editor(&mut searches, &mut editor, 0), Ok(()));
    assert_eq!(editor.error, None);
    assert_eq!(searches.len(), 1);
    assert_eq!(searches[0].query.all_terms, vec!["must".to_string()]);
    assert_eq!(searches[0].id, "named");
}

#[test]
fn save_refuses_an_edit_of_a_search_that_is_gone() {
    let mut searches = vec![kept("one", "One")];
    let mut editor =
        PresetEditorState::new(PresetEditorMode::Edit { index: 1 }, &kept("two", "Two"), true, false, 75);
    assert_eq!(try_save_editor(&mut searches, &mut editor, 0), Err(SaveError::PresetGone));
    assert_eq!(editor.error, Some("Preset no longer exists.".to_string()));
    assert_eq!(SaveError::PresetGone.message(), "Preset no longer exists.");
    assert_eq!(searches, vec![kept("one", "One")]);
}

#[test]
fn saving_an_edit_replaces_in_place_and_keeps_the_id() {
    let mut searches = vec![kept("one", "One"), kept("two", "Two"), kept("three", "Three")];
    let mut source = kept("ignored", "Two");
    source.priority = 9;
    let mut editor = PresetEditorState::new(PresetEditorMode::Edit { index: 1 }, &source, true, false, 75);
    editor.name = " Renamed ".to_string();
    assert_eq!(try_save_editor(&mut searches, &mut editor, 0), Ok(()));
    assert_eq!(searches.len(), 3);
    assert_eq!(searches[1].id, "two");
    assert_eq!(searches[1].name, "Renamed");
    assert_eq!(searches[1].priority, 9);
    assert_eq!(searches[0], kept("one", "One"));
    assert_eq!(searches[2], kept("three", "Three"));
    assert_eq!(editor.working.id, "ignored");
}

#[test]
fn saving_a_new_search_appends_it_with_a_free_id() {
    let mut searches = vec![kept("news", "News")];
    let mut editor = PresetEditorState::new(PresetEditorMode::New, &kept(" news ", "News"), true, false, 75);
    assert_eq!(try_save_editor(&mut searches, &mut editor, 0), Ok(()));
    assert_eq!(searches.len(), 2);
    assert_eq!(searches[1].id, "news-2");
    assert_eq!(editor.working.id, "news-2");
    let mut fresh = PresetEditorState::new(
        PresetEditorMode::Duplicate { source_index: 0 },
        &kept("own-id", "Whatever"),
        true,
        false,
        75,
    );
    assert_eq!(try_save_editor(&mut searches, &mut fresh, 0), Ok(()));
    assert_eq!(searches[2].id, "own-id");
    let mut unnamed = PresetEditorState::new(PresetEditorMode::New, &kept("", "***"), true, false, 75);
    assert_eq!(try_save_editor(&mut searches, &mut unnamed, 99), Ok(()));
    assert_eq!(searches[3].id, "preset-99");
    let ids: Vec<&str> = searches.iter().map(|s| s.id.as_str()).collect();
    let mut distinct = ids.clone();
    distinct.sort();
    distinct.dedup();
    assert_eq!(distinct.len(), ids.len());
}

#[test]
fn empty_import_is_refused() {
    let mut searches = vec![kept("one", "One")];
    assert_eq!(import_presets(&mut searches, &vec![], true, 0), Err(ImportError::NothingFound));
    assert_eq!(import_presets(&mut searches, &vec![], false, 0), Err(ImportError::NothingFound));
    assert_eq!(searches, vec![kept("one", "One")]);
    assert_eq!(ImportError::NothingFound.message(), "No presets found in import.");
    assert_eq!(ImportError::NothingValid.message(), "No valid presets to import.");
}

#[test]
fn import_without_named_searches_is_refused() {
    let mut searches = vec![kept("one", "One")];
    let nameless = vec![kept("a", "  "), kept("b", "")];
    assert_eq!(import_presets(&mut searches, &nameless, true, 0), Err(ImportError::NothingValid));
    assert_eq!(import_presets(&mut searches, &nameless, false, 0), Err(ImportError::NothingValid));
    assert_eq!(searches, vec![kept("one", "One")]);
}

#[test]
fn replacing_import_builds_a_fresh_collection() {
    let mut searches = vec![kept("one", "One"), kept("two", "Two")];
    let incoming = vec![
        kept(" alpha ", " Alpha "),
        kept("alpha", "Alpha again"),
        kept("", "  "),
        kept("  ", "No Id"),
        kept("one", "One"),
    ];
    assert_eq!(import_presets(&mut searches, &incoming, true, 0), Ok(4));
    let ids: Vec<&str> = searches.iter().map(|s| s.id.as_str()).collect();
    assert_eq!(ids, vec!["alpha", "alpha-again", "no-id", "one"]);
    let names: Vec<&str> = searches.iter().map(|s| s.name.as_str()).collect();
    assert_eq!(names, vec!["Alpha", "Alpha again", "No Id", "One"]);
    assert_eq!(selection_after_import(&searches, true), Some("alpha".to_string()));
}

#[test]
fn appending_import_extends_the_collection() {
    let mut searches = vec![kept("one", "One"), kept("two", "Two")];
    let incoming = vec![kept("one", "One"), kept(" three ", "Three"), kept("", " Two ")];
    assert_eq!(import_presets(&mut searches, &incoming, false, 0), Ok(3));
    let ids: Vec<&str> = searches.iter().map(|s| s.id.as_str()).collect();
    assert_eq!(ids, vec!["one", "two", "one-2", " three ", "two-2"]);
    assert_eq!(searches[4].name, "Two");
    assert_eq!(selection_after_import(&searches, false), Some("two-2".to_string()));
    assert_eq!(selection_after_import(&vec![], false), None);
}

#[test]
fn selection_moves_on_when_the_selected_search_is_deleted() {
    let left = vec![kept("a", "A"), kept("c", "C")];
    let removed = "b".to_string();
    assert_eq!(
        selection_after_delete(&left, 1, &removed, Some("b".to_string())),
        Some("c".to_string())
    );
    assert_eq!(
        selection_after_delete(&left, 2, &removed, Some("b".to_string())),
        Some("c".to_string())
    );
    assert_eq!(
        selection_after_delete(&left, 0, &removed, Some("a".to_string())),
        Some("a".to_string())
    );
    assert_eq!(selection_after_delete(&left, 0, &removed, None), None);
    assert_eq!(selection_after_delete(&vec![], 0, &removed, Some("b".to_string())), None);
}

#[test]
fn a_copy_is_named_after_its_source() {
    let source = kept("id", "  My Search ");
    let copy = duplicate_of(&source);
    assert_eq!(copy.name, "My Search copy");
    assert_eq!(copy.id, "id");
    assert_eq!(copy.query, source.query);
    let unnamed = duplicate_of(&kept("id", "   "));
    assert_eq!(unnamed.name, "   ");
}

#[test]
fn retired_category_is_cleared() {
    let mut a = kept("a", "A");
    a.query.category_id = Some(28);
    let mut b = kept("b", "B");
    b.query.category_id = Some(27);
    let c = kept("c", "C");
    let mut searches = vec![a, b.clone(), c.clone()];
    clear_retired_category(&mut searches);
    assert_eq!(searches[0].query.category_id, None);
    assert_eq!(searches[0].name, "A");
    assert_eq!(searches[1], b);
    assert_eq!(searches[2], c);
}
