//! The state of the editor of one saved search: the fields as they are
//! being edited, the search they amount to, and whether that differs from
//! the search the editing started from.

use vstd::prelude::*;
use vstd::string::*;
use crate::prefs::{opt_window, MySearch, MySearchView, QuerySpecView, TimeWindow, TimeWindowView};
use crate::text::{
    chars_eq, chars_of, is_blank, opt_str, string_of, strs, trim, trim_chars, trimmed,
};

verus! {

/// What the editor is editing.
#[derive(Clone, Copy, Debug, PartialEq, Eq)]
pub enum PresetEditorMode {
    /// A search that does not exist yet.
    New,
    /// The search at this index.
    Edit { index: usize },
    /// A copy of the search at this index.
    Duplicate { source_index: usize },
}

/// The editor's fields.
#[derive(Debug)]
pub struct PresetEditorState {
    pub mode: PresetEditorMode,
    pub working: MySearch,
    pub enabled: bool,
    pub name: String,
    pub query_text: String,
    pub any_terms: Vec<String>,
    pub new_any_term: String,
    pub all_terms: Vec<String>,
    pub new_all_term: String,
    pub not_terms: Vec<String>,
    pub new_not_term: String,
    pub channel_allow: Vec<String>,
    pub new_allow_entry: String,
    pub channel_deny: Vec<String>,
    pub new_deny_entry: String,
    pub window_override_enabled: bool,
    pub window_start: String,
    pub window_end: String,
    pub english_override_enabled: bool,
    pub english_override_value: bool,
    pub captions_override_enabled: bool,
    pub captions_override_value: bool,
    pub min_duration_override_enabled: bool,
    pub min_duration_override_value: u32,
    pub priority: i32,
    pub error: Option<String>,
    pub default_english: bool,
    pub default_captions: bool,
    pub default_min_duration: u32,
    pub initial: MySearch,
    pub awaiting_clipboard: bool,
    pub pending_clipboard: Option<MySearch>,
    pub show_dirty_warning: bool,
}

/// Mathematical content of a [`PresetEditorState`].
pub struct EditorView {
    pub mode: PresetEditorMode,
    pub working: MySearchView,
    pub enabled: bool,
    pub name: Seq<char>,
    pub query_text: Seq<char>,
    pub any_terms: Seq<Seq<char>>,
    pub new_any_term: Seq<char>,
    pub all_terms: Seq<Seq<char>>,
    pub new_all_term: Seq<char>,
    pub not_terms: Seq<Seq<char>>,
    pub new_not_term: Seq<char>,
    pub channel_allow: Seq<Seq<char>>,
    pub new_allow_entry: Seq<char>,
    pub channel_deny: Seq<Seq<char>>,
    pub new_deny_entry: Seq<char>,
    pub window_override_enabled: bool,
    pub window_start: Seq<char>,
    pub window_end: Seq<char>,
    pub english_override_enabled: bool,
    pub english_override_value: bool,
    pub captions_override_enabled: bool,
    pub captions_override_value: bool,
    pub min_duration_override_enabled: bool,
    pub min_duration_override_value: u32,
    pub priority: i32,
    pub error: Option<Seq<char>>,
    pub default_english: bool,
    pub default_captions: bool,
    pub default_min_duration: u32,
    pub initial: MySearchView,
    pub awaiting_clipboard: bool,
    pub pending_clipboard: Option<MySearchView>,
    pub show_dirty_warning: bool,
}

/// The view of an optional search.
pub open spec fn opt_search(o: Option<MySearch>) -> Option<MySearchView> {
    match o {
        Some(s) => Some(s@),
        None => None,
    }
}

impl View for PresetEditorState {
    type V = EditorView;

    open spec fn view(&self) -> EditorView {
        EditorView {
            mode: self.mode,
            working: self.working@,
            enabled: self.enabled,
            name: self.name@,
            query_text: self.query_text@,
            any_terms: strs(self.any_terms@),
            new_any_term: self.new_any_term@,
            all_terms: strs(self.all_terms@),
            new_all_term: self.new_all_term@,
            not_terms: strs(self.not_terms@),
            new_not_term: self.new_not_term@,
            channel_allow: strs(self.channel_allow@),
            new_allow_entry: self.new_allow_entry@,
            channel_deny: strs(self.channel_deny@),
            new_deny_entry: self.new_deny_entry@,
            window_override_enabled: self.window_override_enabled,
            window_start: self.window_start@,
            window_end: self.window_end@,
            english_override_enabled: self.english_override_enabled,
            english_override_value: self.english_override_value,
            captions_override_enabled: self.captions_override_enabled,
            captions_override_value: self.captions_override_value,
            min_duration_override_enabled: self.min_duration_override_enabled,
            min_duration_override_value: self.min_duration_override_value,
            priority: self.priority,
            error: opt_str(self.error),
            default_english: self.default_english,
            default_captions: self.default_captions,
            default_min_duration: self.default_min_duration,
            initial: self.initial@,
            awaiting_clipboard: self.awaiting_clipboard,
            pending_clipboard: opt_search(self.pending_clipboard),
            show_dirty_warning: self.show_dirty_warning,
        }
    }
}

// ---------------------------------------------------------------------------
// Term lists
// ---------------------------------------------------------------------------

/// The terms trimmed, without the blank ones, each kept where it first
/// occurs.
pub open spec fn normalized_terms(terms: Seq<Seq<char>>) -> Seq<Seq<char>>
    decreases terms.len(),
{
    if terms.len() == 0 {
        Seq::empty()
    } else {
        let pre = normalized_terms(terms.drop_last());
        let t = trim(terms.last());
        if t.len() == 0 || pre.contains(t) {
            pre
        } else {
            pre.push(t)
        }
    }
}

/// A normalised list holds no blank term, no term with outer whitespace and
/// no term twice.
pub proof fn lemma_normalized_terms(terms: Seq<Seq<char>>)
    ensures
        normalized_terms(terms).no_duplicates(),
        forall|i: int|
            0 <= i < normalized_terms(terms).len() ==> (#[trigger] normalized_terms(
                terms,
            )[i]).len() > 0 && trim(normalized_terms(terms)[i]) == normalized_terms(terms)[i],
    decreases terms.len(),
{
    if terms.len() > 0 {
        lemma_normalized_terms(terms.drop_last());
        crate::text::lemma_trim_idempotent(terms.last());
    }
}

/// Normalising twice is normalising once.
pub proof fn lemma_normalized_terms_idempotent(terms: Seq<Seq<char>>)
    ensures
        normalized_terms(normalized_terms(terms)) == normalized_terms(terms),
{
    lemma_normalized_terms(terms);
    lemma_normalized_fixed(normalized_terms(terms));
}

proof fn lemma_normalized_fixed(terms: Seq<Seq<char>>)
    requires
        terms.no_duplicates(),
        forall|i: int|
            0 <= i < terms.len() ==> (#[trigger] terms[i]).len() > 0 && trim(terms[i]) == terms[i],
    ensures
        normalized_terms(terms) == terms,
    decreases terms.len(),
{
    if terms.len() > 0 {
        let pre = terms.drop_last();
        assert forall|i: int| 0 <= i < pre.len() implies (#[trigger] pre[i]).len() > 0 && trim(
            pre[i],
        ) == pre[i] by {
            assert(pre[i] == terms[i]);
        }
        lemma_normalized_fixed(pre);
        let t = terms.last();
        assert(terms[terms.len() - 1] == t);
        if pre.contains(t) {
            let j = choose|j: int| 0 <= j < pre.len() && pre[j] == t;
            assert(terms[j] == terms[terms.len() - 1]);
        }
        assert(pre.push(t) =~= terms);
    }
}

/// Whether `list` holds the characters `t`.
fn holds_chars(list: &Vec<String>, t: &Vec<char>) -> (r: bool)
    ensures
        r == strs(list@).contains(t@),
{
    let mut i: usize = 0;
    while i < list.len()
        invariant
            i <= list.len(),
            forall|j: int| 0 <= j < i ==> strs(list@)[j] != t@,
        decreases list.len() - i,
    {
        let here = chars_of(list[i].as_str());
        if chars_eq(&here, t) {
            assert(strs(list@)[i as int] == t@);
            return true;
        }
        i += 1;
    }
    false
}

// ---------------------------------------------------------------------------
// From fields to search and back
// ---------------------------------------------------------------------------

/// The window that the window fields stand for.
pub open spec fn window_of_fields(e: EditorView) -> Option<TimeWindowView> {
    if e.window_override_enabled && !is_blank(e.window_start) && !is_blank(e.window_end) {
        Some(TimeWindowView { start_rfc3339: trim(e.window_start), end_rfc3339: trim(e.window_end) })
    } else {
        None
    }
}

/// The search that the fields amount to, starting from `target`: its id,
/// its category and its system mark stay, everything else comes from the
/// fields, the term lists normalised.
pub open spec fn populated(e: EditorView, target: MySearchView) -> MySearchView {
    MySearchView {
        id: target.id,
        name: trim(e.name),
        enabled: e.enabled,
        query: QuerySpecView {
            q: if is_blank(e.query_text) {
                None
            } else {
                Some(trim(e.query_text))
            },
            any_terms: normalized_terms(e.any_terms),
            all_terms: normalized_terms(e.all_terms),
            not_terms: normalized_terms(e.not_terms),
            channel_allow: normalized_terms(e.channel_allow),
            channel_deny: normalized_terms(e.channel_deny),
            category_id: target.query.category_id,
        },
        window_override: window_of_fields(e),
        english_only_override: if e.english_override_enabled {
            Some(e.english_override_value)
        } else {
            None
        },
        require_captions_override: if e.captions_override_enabled {
            Some(e.captions_override_value)
        } else {
            None
        },
        min_duration_override: if e.min_duration_override_enabled {
            Some(e.min_duration_override_value)
        } else {
            None
        },
        priority: e.priority,
        system: target.system,
    }
}

/// The editor with its term lists normalised and its working search
/// brought up to date with the fields.
pub open spec fn hydrated(e: EditorView) -> EditorView {
    EditorView {
        any_terms: normalized_terms(e.any_terms),
        all_terms: normalized_terms(e.all_terms),
        not_terms: normalized_terms(e.not_terms),
        channel_allow: normalized_terms(e.channel_allow),
        channel_deny: normalized_terms(e.channel_deny),
        working: populated(e, e.working),
        ..e
    }
}

/// The search as the editor takes it in: as it is when an existing search
/// is edited; else with its id trimmed and enabled.
pub open spec fn adopted(mode: PresetEditorMode, source: MySearchView) -> MySearchView {
    match mode {
        PresetEditorMode::Edit { index } => source,
        _ => MySearchView { id: trim(source.id), enabled: true, ..source },
    }
}

/// The text of an optional string, empty where there is none.
pub open spec fn text_or_empty(o: Option<Seq<char>>) -> Seq<char> {
    match o {
        Some(s) => s,
        None => Seq::empty(),
    }
}

/// The editor after a search has been loaded into its fields. The mode, the
/// defaults and the baseline stay.
pub open spec fn loaded(e: EditorView, source: MySearchView) -> EditorView {
    fresh(
        e.mode,
        e.default_english,
        e.default_captions,
        e.default_min_duration,
        e.initial,
        source,
    )
}

/// The editor as it starts out on `source`: the fields loaded from it, and
/// the search that they amount to as both the working search and the
/// baseline.
pub open spec fn started(
    mode: PresetEditorMode,
    source: MySearchView,
    default_english: bool,
    default_captions: bool,
    default_min_duration: u32,
) -> EditorView {
    let l = fresh(
        mode,
        default_english,
        default_captions,
        default_min_duration,
        crate::prefs::default_search(),
        source,
    );
    let w = populated(l, l.working);
    EditorView { working: w, initial: w, ..l }
}

/// The editor with `source` in its fields, for the given mode, defaults and
/// baseline.
pub open spec fn fresh(
    mode: PresetEditorMode,
    default_english: bool,
    default_captions: bool,
    default_min_duration: u32,
    initial: MySearchView,
    source: MySearchView,
) -> EditorView {
    let w = adopted(mode, source);
    EditorView {
        mode,
        working: w,
        enabled: w.enabled,
        name: w.name,
        query_text: text_or_empty(w.query.q),
        any_terms: normalized_terms(w.query.any_terms),
        new_any_term: Seq::empty(),
        all_terms: normalized_terms(w.query.all_terms),
        new_all_term: Seq::empty(),
        not_terms: normalized_terms(w.query.not_terms),
        new_not_term: Seq::empty(),
        channel_allow: normalized_terms(w.query.channel_allow),
        new_allow_entry: Seq::empty(),
        channel_deny: normalized_terms(w.query.channel_deny),
        new_deny_entry: Seq::empty(),
        window_override_enabled: w.window_override is Some,
        window_start: match w.window_override {
            Some(win) => win.start_rfc3339,
            None => Seq::empty(),
        },
        window_end: match w.window_override {
            Some(win) => win.end_rfc3339,
            None => Seq::empty(),
        },
        english_override_enabled: w.english_only_override is Some,
        english_override_value: match w.english_only_override {
            Some(b) => b,
            None => default_english,
        },
        captions_override_enabled: w.require_captions_override is Some,
        captions_override_value: match w.require_captions_override {
            Some(b) => b,
            None => default_captions,
        },
        min_duration_override_enabled: w.min_duration_override is Some,
        min_duration_override_value: match w.min_duration_override {
            Some(m) => m,
            None => default_min_duration,
        },
        priority: w.priority,
        error: None,
        default_english,
        default_captions,
        default_min_duration,
        initial,
        awaiting_clipboard: false,
        pending_clipboard: None,
        show_dirty_warning: false,
    }
}

/// Whether two optional strings hold the same text.
fn same_opt_string(a: &Option<String>, b: &Option<String>) -> (r: bool)
    ensures
        r == (opt_str(*a) == opt_str(*b)),
{
    match (a, b) {
        (Some(x), Some(y)) => *x == *y,
        (None, None) => true,
        _ => false,
    }
}

/// Whether two lists of strings hold the same texts.
fn same_strings(a: &Vec<String>, b: &Vec<String>) -> (r: bool)
    ensures
        r == (strs(a@) == strs(b@)),
{
    if a.len() != b.len() {
        assert(strs(a@).len() != strs(b@).len());
        return false;
    }
    let mut i: usize = 0;
    while i < a.len()
        invariant
            i <= a.len() == b.len(),
            forall|j: int| 0 <= j < i ==> a@[j]@ == b@[j]@,
        decreases a.len() - i,
    {
        if a[i] != b[i] {
            assert(strs(a@)[i as int] != strs(b@)[i as int]);
            return false;
        }
        i += 1;
    }
    assert(strs(a@) =~= strs(b@));
    true
}

/// Whether two searches are the same in every field.
pub fn same_search(a: &MySearch, b: &MySearch) -> (r: bool)
    ensures
        r == (a@ == b@),
{
    let windows = match (&a.window_override, &b.window_override) {
        (Some(x), Some(y)) => x.start_rfc3339 == y.start_rfc3339 && x.end_rfc3339
            == y.end_rfc3339,
        (None, None) => true,
        _ => false,
    };
    assert(windows == (opt_window(a.window_override) == opt_window(b.window_override)));
    let query = same_opt_string(&a.query.q, &b.query.q) && same_strings(
        &a.query.any_terms,
        &b.query.any_terms,
    ) && same_strings(&a.query.all_terms, &b.query.all_terms) && same_strings(
        &a.query.not_terms,
        &b.query.not_terms,
    ) && same_strings(&a.query.channel_allow, &b.query.channel_allow) && same_strings(
        &a.query.channel_deny,
        &b.query.channel_deny,
    ) && a.query.category_id == b.query.category_id;
    assert(query == (a@.query == b@.query));
    a.id == b.id && a.name == b.name && a.enabled == b.enabled && query && windows
        && a.english_only_override == b.english_only_override && a.require_captions_override
        == b.require_captions_override && a.min_duration_override == b.min_duration_override
        && a.priority == b.priority && a.system == b.system
}

impl PresetEditorState {
    /// An editor in the given mode with `source` loaded, which also becomes
    /// the baseline against which changes are told.
    pub fn new(
        mode: PresetEditorMode,
        source: &MySearch,
        default_english: bool,
        default_captions: bool,
        default_min_duration: u32,
    ) -> (r: Self)
        ensures
            r@ == started(
                mode,
                source@,
                default_english,
                default_captions,
                default_min_duration,
            ),
            !r.is_dirty_spec(),
    {
        let mut state = PresetEditorState {
            mode,
            working: MySearch::default(),
            enabled: true,
            name: String::new(),
            query_text: String::new(),
            any_terms: Vec::new(),
            new_any_term: String::new(),
            all_terms: Vec::new(),
            new_all_term: String::new(),
            not_terms: Vec::new(),
            new_not_term: String::new(),
            channel_allow: Vec::new(),
            new_allow_entry: String::new(),
            channel_deny: Vec::new(),
            new_deny_entry: String::new(),
            window_override_enabled: false,
            window_start: String::new(),
            window_end: String::new(),
            english_override_enabled: false,
            english_override_value: default_english,
            captions_override_enabled: false,
            captions_override_value: default_captions,
            min_duration_override_enabled: false,
            min_duration_override_value: default_min_duration,
            priority: 0,
            error: None,
            default_english,
            default_captions,
            default_min_duration,
            initial: MySearch::default(),
            awaiting_clipboard: false,
            pending_clipboard: None,
            show_dirty_warning: false,
        };
        state.apply_source(source);
        let snapshot = state.snapshot();
        state.working = snapshot.clone();
        state.initial = snapshot;
        proof {
            let e = state@;
            lemma_normalized_terms_idempotent(adopted(mode, source@).query.any_terms);
            lemma_normalized_terms_idempotent(adopted(mode, source@).query.all_terms);
            lemma_normalized_terms_idempotent(adopted(mode, source@).query.not_terms);
            lemma_normalized_terms_idempotent(adopted(mode, source@).query.channel_allow);
            lemma_normalized_terms_idempotent(adopted(mode, source@).query.channel_deny);
        }
        state
    }

    /// Trims the terms, drops the blank ones and keeps each term where it
    /// first occurs.
    pub fn normalize_terms(list: &mut Vec<String>)
        ensures
            strs(final(list)@) == normalized_terms(strs(old(list)@)),
    {
        let out = Self::normalized_terms_vec(list);
        *list = out;
    }

    /// The terms trimmed, without the blank ones, each kept where it first
    /// occurs.
    pub fn normalized_terms_vec(tokens: &Vec<String>) -> (r: Vec<String>)
        ensures
            strs(r@) == normalized_terms(strs(tokens@)),
    {
        let ghost all = strs(tokens@);
        let mut out: Vec<String> = Vec::new();
        let mut i: usize = 0;
        assert(all.take(0) =~= Seq::<Seq<char>>::empty());
        assert(strs(out@) =~= Seq::<Seq<char>>::empty());
        while i < tokens.len()
            invariant
                i <= tokens.len(),
                all == strs(tokens@),
                strs(out@) == normalized_terms(all.take(i as int)),
            decreases tokens.len() - i,
        {
            proof {
                let next = all.take(i + 1);
                assert(next.drop_last() =~= all.take(i as int));
                assert(next.last() == tokens@[i as int]@);
            }
            let raw = chars_of(tokens[i].as_str());
            let t = trim_chars(&raw);
            if t.len() > 0 && !holds_chars(&out, &t) {
                let ghost before = out@;
                out.push(string_of(&t));
                assert(strs(out@) =~= strs(before).push(t@));
            }
            i += 1;
        }
        assert(all.take(i as int) =~= all);
        out
    }

    /// The search that the fields amount to, starting from `target`.
    fn populate_target(&self, target: &MySearch) -> (r: MySearch)
        ensures
            r@ == populated(self@, target@),
    {
        let q = {
            let raw = chars_of(self.query_text.as_str());
            let t = trim_chars(&raw);
            if t.len() == 0 {
                None
            } else {
                Some(string_of(&t))
            }
        };
        let start = chars_of(self.window_start.as_str());
        let end = chars_of(self.window_end.as_str());
        let start_t = trim_chars(&start);
        let end_t = trim_chars(&end);
        let window_override = if self.window_override_enabled && start_t.len() > 0 && end_t.len()
            > 0 {
            Some(TimeWindow { start_rfc3339: string_of(&start_t), end_rfc3339: string_of(&end_t) })
        } else {
            None
        };
        MySearch {
            id: target.id.clone(),
            name: trimmed(self.name.as_str()),
            enabled: self.enabled,
            query: crate::prefs::QuerySpec {
                q,
                any_terms: Self::normalized_terms_vec(&self.any_terms),
                all_terms: Self::normalized_terms_vec(&self.all_terms),
                not_terms: Self::normalized_terms_vec(&self.not_terms),
                channel_allow: Self::normalized_terms_vec(&self.channel_allow),
                channel_deny: Self::normalized_terms_vec(&self.channel_deny),
                category_id: target.query.category_id,
            },
            window_override,
            english_only_override: if self.english_override_enabled {
                Some(self.english_override_value)
            } else {
                None
            },
            require_captions_override: if self.captions_override_enabled {
                Some(self.captions_override_value)
            } else {
                None
            },
            min_duration_override: if self.min_duration_override_enabled {
                Some(self.min_duration_override_value)
            } else {
                None
            },
            priority: self.priority,
            system: target.system,
        }
    }

    /// Normalises the term lists and brings the working search up to date
    /// with the fields.
    pub fn hydrate_working(&mut self)
        ensures
            final(self)@ == hydrated(old(self)@),
    {
        let target = self.populate_target(&self.working);
        Self::normalize_terms(&mut self.any_terms);
        Self::normalize_terms(&mut self.all_terms);
        Self::normalize_terms(&mut self.not_terms);
        Self::normalize_terms(&mut self.channel_allow);
        Self::normalize_terms(&mut self.channel_deny);
        self.working = target;
    }

    /// The search that the fields amount to. The editor itself stays as it
    /// is.
    pub fn snapshot(&self) -> (r: MySearch)
        ensures
            r@ == populated(self@, self@.working),
    {
        self.populate_target(&self.working)
    }

    /// Whether the fields amount to another search than the baseline.
    pub open spec fn is_dirty_spec(&self) -> bool {
        populated(self@, self@.working) != self@.initial
    }

    /// Whether the fields amount to another search than the baseline.
    pub fn is_dirty(&self) -> (r: bool)
        ensures
            r == self.is_dirty_spec(),
    {
        let now = self.snapshot();
        !same_search(&now, &self.initial)
    }

    /// Brings the working search up to date and makes it the baseline.
    pub fn reset_dirty_baseline(&mut self)
        ensures
            final(self)@ == (EditorView {
                initial: hydrated(old(self)@).working,
                ..hydrated(old(self)@)
            }),
    {
        self.hydrate_working();
        self.initial = self.working.clone();
    }

    /// Loads a search into the fields. Pending input and messages are
    /// dropped; the mode, the defaults and the baseline stay.
    pub fn apply_source(&mut self, source: &MySearch)
        ensures
            final(self)@ == loaded(old(self)@, source@),
    {
        let mut working = source.clone();
        match self.mode {
            PresetEditorMode::Edit { index } => {},
            _ => {
                working.id = trimmed(working.id.as_str());
                working.enabled = true;
            },
        }
        let query_text = match &working.query.q {
            Some(q) => q.clone(),
            None => String::new(),
        };
        let (window_override_enabled, window_start, window_end) = match &working.window_override {
            Some(window) => (true, window.start_rfc3339.clone(), window.end_rfc3339.clone()),
            None => (false, String::new(), String::new()),
        };
        let next = PresetEditorState {
            mode: self.mode,
            enabled: working.enabled,
            name: working.name.clone(),
            query_text,
            any_terms: Self::normalized_terms_vec(&working.query.any_terms),
            new_any_term: String::new(),
            all_terms: Self::normalized_terms_vec(&working.query.all_terms),
            new_all_term: String::new(),
            not_terms: Self::normalized_terms_vec(&working.query.not_terms),
            new_not_term: String::new(),
            channel_allow: Self::normalized_terms_vec(&working.query.channel_allow),
            new_allow_entry: String::new(),
            channel_deny: Self::normalized_terms_vec(&working.query.channel_deny),
            new_deny_entry: String::new(),
            window_override_enabled,
            window_start,
            window_end,
            english_override_enabled: working.english_only_override.is_some(),
            english_override_value: match working.english_only_override {
                Some(b) => b,
                None => self.default_english,
            },
            captions_override_enabled: working.require_captions_override.is_some(),
            captions_override_value: match working.require_captions_override {
                Some(b) => b,
                None => self.default_captions,
            },
            min_duration_override_enabled: working.min_duration_override.is_some(),
            min_duration_override_value: match working.min_duration_override {
                Some(m) => m,
                None => self.default_min_duration,
            },
            priority: working.priority,
            error: None,
            default_english: self.default_english,
            default_captions: self.default_captions,
            default_min_duration: self.default_min_duration,
            initial: self.initial.clone(),
            awaiting_clipboard: false,
            pending_clipboard: None,
            show_dirty_warning: false,
            working,
        };
        *self = next;
    }
}

/// A search taken from outside as the editor loads it: when an existing
/// search is edited it gets that search's id; else it loses its id and is
/// enabled.
pub open spec fn pasted(e: EditorView, preset: MySearchView) -> MySearchView {
    match e.mode {
        PresetEditorMode::Edit { index } => MySearchView { id: e.working.id, ..preset },
        _ => MySearchView { id: Seq::empty(), enabled: true, ..preset },
    }
}

/// Loads a search taken from outside into the editor's fields.
pub fn apply_clipboard_preset(editor: &mut PresetEditorState, preset: MySearch)
    ensures
        final(editor)@ == loaded(old(editor)@, pasted(old(editor)@, preset@)),
{
    let mut preset = preset;
    match editor.mode {
        PresetEditorMode::Edit { index } => {
            preset.id = editor.working.id.clone();
        },
        _ => {
            preset.id = String::new();
            preset.enabled = true;
        },
    }
    editor.apply_source(&preset);
}

} // verus!
