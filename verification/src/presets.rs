//! Saving searches: ids that are unique within the collection, and what a
//! search must hold before the editor may save it.

use vstd::prelude::*;
use vstd::string::*;
use crate::prefs::{contains_search_id, has_search_id, search_views, MySearch, MySearchView};
use crate::preset_editor::{hydrated, EditorView, PresetEditorMode, PresetEditorState};
use crate::text::{
    ascii_lower, chars_of, decimal, decimal_chars, digit_char, is_blank, lower_chars, opt_str,
    push_all, str_blank, string_of, strip_leading, strip_leading_chars, sub_chars, trim,
    trim_chars,
};

verus! {

// ---------------------------------------------------------------------------
// The base of an id
// ---------------------------------------------------------------------------

/// A character as it stands in an id: a lower-case ASCII letter or a digit
/// as it is, anything else as a dash.
pub open spec fn slug_char(c: char) -> char {
    if ('a' <= c && c <= 'z') || ('0' <= c && c <= '9') {
        c
    } else {
        '-'
    }
}

/// Every character as it stands in an id.
pub open spec fn slugged(s: Seq<char>) -> Seq<char> {
    Seq::new(s.len(), |i: int| slug_char(s[i]))
}

/// `s` with every run of dashes shortened to one dash.
pub open spec fn collapse_dashes(s: Seq<char>) -> Seq<char>
    decreases s.len(),
{
    if s.len() == 0 {
        Seq::empty()
    } else if s.last() == '-' && s.len() >= 2 && s[s.len() - 2] == '-' {
        collapse_dashes(s.drop_last())
    } else {
        collapse_dashes(s.drop_last()).push(s.last())
    }
}

/// `s` with every trailing occurrence of `c` removed.
pub open spec fn strip_trailing(s: Seq<char>, c: char) -> Seq<char>
    decreases s.len(),
{
    if s.len() > 0 && s.last() == c {
        strip_trailing(s.drop_last(), c)
    } else {
        s
    }
}

/// The id that a name suggests: the name trimmed and in ASCII lower case,
/// everything but letters and digits turned into dashes, runs of dashes
/// shortened to one, and no dash at either end.
pub open spec fn id_base(name: Seq<char>) -> Seq<char> {
    strip_trailing(strip_leading(collapse_dashes(slugged(ascii_lower(trim(name)))), '-'), '-')
}

proof fn lemma_strip_trailing_step(s: Seq<char>, c: char, j: int)
    requires
        0 < j <= s.len(),
        s[j - 1] == c,
    ensures
        strip_trailing(s.subrange(0, j), c) == strip_trailing(s.subrange(0, j - 1), c),
{
    let t = s.subrange(0, j);
    assert(t.last() == s[j - 1]);
    assert(t.drop_last() =~= s.subrange(0, j - 1));
}

/// The id that a name suggests.
pub fn sanitize_id_source(name: &str) -> (r: String)
    ensures
        r@ == id_base(name@),
{
    let raw = chars_of(name);
    let t = trim_chars(&raw);
    let low = lower_chars(&t);
    let ghost slug = slugged(low@);
    let mut collapsed: Vec<char> = Vec::new();
    let mut i: usize = 0;
    let mut prev_dash = false;
    assert(slug.take(0) =~= Seq::<char>::empty());
    while i < low.len()
        invariant
            i <= low.len(),
            slug == slugged(low@),
            collapsed@ == collapse_dashes(slug.take(i as int)),
            prev_dash == (i > 0 && slug[i - 1] == '-'),
        decreases low.len() - i,
    {
        let c = low[i];
        let s: char = if (c >= 'a' && c <= 'z') || (c >= '0' && c <= '9') {
            c
        } else {
            '-'
        };
        proof {
            let next = slug.take(i + 1);
            assert(next.drop_last() =~= slug.take(i as int));
            assert(next.last() == s);
            if i > 0 {
                assert(next[next.len() - 2] == slug[i - 1]);
            }
        }
        if !(s == '-' && prev_dash) {
            collapsed.push(s);
        }
        prev_dash = s == '-';
        i += 1;
    }
    assert(slug.take(i as int) =~= slug);
    let front = strip_leading_chars(&collapsed, '-');
    let mut j: usize = front.len();
    assert(front@.subrange(0, j as int) =~= front@);
    while j > 0 && front[j - 1] == '-'
        invariant
            j <= front.len(),
            strip_trailing(front@, '-') == strip_trailing(front@.subrange(0, j as int), '-'),
        decreases j,
    {
        proof {
            lemma_strip_trailing_step(front@, '-', j as int);
        }
        j -= 1;
    }
    assert(strip_trailing(front@, '-') == front@.subrange(0, j as int)) by {
        let cut = front@.subrange(0, j as int);
        if j > 0 {
            assert(cut.last() == front@[j - 1]);
        }
    }
    string_of(&sub_chars(&front, 0, j))
}

// ---------------------------------------------------------------------------
// Unique ids
// ---------------------------------------------------------------------------

/// The decimal numeral of an integer, with a minus sign if it is negative.
pub open spec fn signed_decimal(n: int) -> Seq<char> {
    if n < 0 {
        seq!['-'] + decimal((-n) as nat)
    } else {
        decimal(n as nat)
    }
}

/// The base of the ids tried for a name: the id that the name suggests, or,
/// where it suggests none, `preset-` and the time given in seconds.
pub open spec fn base_for(name: Seq<char>, now_unix: int) -> Seq<char> {
    if id_base(name).len() == 0 {
        "preset-"@ + signed_decimal(now_unix)
    } else {
        id_base(name)
    }
}

/// The `k`-th id tried: the base itself, then the base with `-2`, `-3` and
/// so on.
pub open spec fn candidate_id(base: Seq<char>, k: nat) -> Seq<char> {
    if k <= 1 {
        base
    } else {
        base + seq!['-'] + decimal(k)
    }
}

/// `k` is the number of the first id tried that no search has.
pub open spec fn is_first_free(existing: Seq<MySearchView>, base: Seq<char>, k: nat) -> bool {
    &&& k >= 1
    &&& !has_search_id(existing, candidate_id(base, k))
    &&& forall|j: nat| 1 <= j < k ==> has_search_id(existing, #[trigger] candidate_id(base, j))
}

/// The first of the ids tried that no search has.
pub open spec fn first_free_id(existing: Seq<MySearchView>, base: Seq<char>) -> Seq<char> {
    candidate_id(base, choose|k: nat| is_first_free(existing, base, k))
}

/// A decimal numeral has at least one digit, and at least two from ten on.
pub proof fn lemma_decimal_len(n: nat)
    ensures
        decimal(n).len() >= 1,
        n >= 10 ==> decimal(n).len() >= 2,
    decreases n,
{
    if n >= 10 {
        lemma_decimal_len(n / 10);
    }
}

/// Different numbers have different decimal numerals.
pub proof fn lemma_decimal_injective(a: nat, b: nat)
    requires
        decimal(a) == decimal(b),
    ensures
        a == b,
    decreases a,
{
    lemma_decimal_len(a);
    lemma_decimal_len(b);
    if a < 10 && b < 10 {
        assert(decimal(a)[0] == digit_char(a));
        assert(decimal(b)[0] == digit_char(b));
    } else if a < 10 || b < 10 {
        assert(decimal(a).len() != decimal(b).len());
    } else {
        let da = decimal(a / 10).push(digit_char(a % 10));
        let db = decimal(b / 10).push(digit_char(b % 10));
        assert(da.last() == db.last());
        assert(da.drop_last() =~= decimal(a / 10));
        assert(db.drop_last() =~= decimal(b / 10));
        assert(digit_char(a % 10) == digit_char(b % 10));
        assert(a % 10 == b % 10);
        lemma_decimal_injective(a / 10, b / 10);
    }
}

/// Different numbers give different ids to try.
pub proof fn lemma_candidate_injective(base: Seq<char>, j: nat, k: nat)
    requires
        1 <= j,
        1 <= k,
        candidate_id(base, j) == candidate_id(base, k),
    ensures
        j == k,
{
    lemma_decimal_len(j);
    lemma_decimal_len(k);
    if j >= 2 && k >= 2 {
        let cj = candidate_id(base, j);
        let ck = candidate_id(base, k);
        assert(cj.subrange(base.len() as int + 1, cj.len() as int) =~= decimal(j));
        assert(ck.subrange(base.len() as int + 1, ck.len() as int) =~= decimal(k));
        lemma_decimal_injective(j, k);
    } else if j >= 2 || k >= 2 {
        assert(candidate_id(base, j).len() != candidate_id(base, k).len());
    }
}

/// Only so many ids can be taken as there are searches: if the first `k`
/// ids tried are all taken, there are at least `k` searches.
pub proof fn lemma_candidates_run_out(existing: Seq<MySearchView>, base: Seq<char>, k: nat)
    requires
        forall|j: nat| 1 <= j <= k ==> has_search_id(existing, #[trigger] candidate_id(base, j)),
    ensures
        k <= existing.len(),
{
    broadcast use vstd::seq_lib::seq_to_set_is_finite;

    let ids = Seq::new(existing.len(), |i: int| existing[i].id);
    let tried = Seq::new(k, |i: int| candidate_id(base, (i + 1) as nat));
    assert(tried.no_duplicates()) by {
        assert forall|a: int, b: int| 0 <= a < tried.len() && 0 <= b < tried.len() && a
            != b implies tried[a] != tried[b] by {
            if tried[a] == tried[b] {
                lemma_candidate_injective(base, (a + 1) as nat, (b + 1) as nat);
            }
        }
    }
    tried.unique_seq_to_set();
    assert(tried.to_set().subset_of(ids.to_set())) by {
        assert forall|s: Seq<char>| tried.to_set().contains(s) implies ids.to_set().contains(s) by {
            assert(tried.contains(s));
            let a = choose|a: int| 0 <= a < tried.len() && tried[a] == s;
            assert(has_search_id(existing, candidate_id(base, (a + 1) as nat)));
            let i = choose|i: int| 0 <= i < existing.len() && #[trigger] existing[i].id == s;
            assert(ids[i] == s);
            assert(ids.contains(s));
        }
    }
    vstd::set_lib::lemma_len_subset(tried.to_set(), ids.to_set());
    ids.lemma_cardinality_of_set();
}

/// There is exactly one first free id.
pub proof fn lemma_first_free_unique(existing: Seq<MySearchView>, base: Seq<char>, k: nat)
    requires
        is_first_free(existing, base, k),
    ensures
        first_free_id(existing, base) == candidate_id(base, k),
        !has_search_id(existing, first_free_id(existing, base)),
{
    let c = choose|c: nat| is_first_free(existing, base, c);
    if c < k {
        assert(has_search_id(existing, candidate_id(base, c)));
    } else if k < c {
        assert(has_search_id(existing, candidate_id(base, k)));
    }
}

/// Some id tried is free: there always is a first free id, and no search
/// has it.
pub proof fn lemma_first_free_exists(existing: Seq<MySearchView>, base: Seq<char>)
    ensures
        exists|k: nat| is_first_free(existing, base, k),
        !has_search_id(existing, first_free_id(existing, base)),
{
    lemma_search_free(existing, base, 1);
    let k = choose|k: nat| is_first_free(existing, base, k);
    lemma_first_free_unique(existing, base, k);
}

proof fn lemma_search_free(existing: Seq<MySearchView>, base: Seq<char>, k: nat)
    requires
        k >= 1,
        k <= existing.len() + 1,
        forall|j: nat| 1 <= j < k ==> has_search_id(existing, #[trigger] candidate_id(base, j)),
    ensures
        exists|m: nat| is_first_free(existing, base, m),
    decreases existing.len() + 1 - k,
{
    if !has_search_id(existing, candidate_id(base, k)) {
        assert(is_first_free(existing, base, k));
    } else {
        lemma_candidates_run_out(existing, base, k);
        lemma_search_free(existing, base, k + 1);
    }
}

/// The decimal numeral of an integer.
pub fn signed_decimal_chars(n: i64) -> (r: Vec<char>)
    ensures
        r@ == signed_decimal(n as int),
{
    if n < 0 {
        let magnitude: u128 = (-(n as i128)) as u128;
        let mut r: Vec<char> = Vec::new();
        r.push('-');
        push_all(&mut r, &decimal_chars(magnitude));
        assert(r@ =~= seq!['-'] + decimal((-n) as nat));
        r
    } else {
        decimal_chars(n as u128)
    }
}

/// Whether some search has the id `id`.
fn id_taken(existing: &Vec<MySearch>, id: &Vec<char>) -> (r: bool)
    ensures
        r == has_search_id(search_views(existing@), id@),
{
    let s = string_of(id);
    contains_search_id(existing, &s)
}

/// An id for a search of the given name that no search of `existing` has:
/// the id that the name suggests, or the first of that id with `-2`, `-3`
/// and so on that is free. A name that suggests no id gets `preset-` and
/// the time given, in seconds since the Unix epoch, as its base.
pub fn generate_unique_id_with(name: &str, existing: &Vec<MySearch>, now_unix: i64) -> (r: String)
    ensures
        r@ == first_free_id(search_views(existing@), base_for(name@, now_unix as int)),
        !has_search_id(search_views(existing@), r@),
{
    let ghost all = search_views(existing@);
    let suggested = chars_of(sanitize_id_source(name).as_str());
    let base: Vec<char> = if suggested.len() == 0 {
        let mut b = chars_of("preset-");
        push_all(&mut b, &signed_decimal_chars(now_unix));
        b
    } else {
        suggested
    };
    assert(base@ == base_for(name@, now_unix as int));
    let n = existing.len();
    assert(all.len() == n);
    let mut candidate = crate::text::copy_chars(&base);
    let mut k: u128 = 1;
    loop
        invariant
            all == search_views(existing@),
            all.len() == existing@.len(),
            all.len() <= usize::MAX,
            1 <= k <= all.len() + 1,
            candidate@ == candidate_id(base@, k as nat),
            base@ == base_for(name@, now_unix as int),
            forall|j: nat| 1 <= j < k ==> has_search_id(all, #[trigger] candidate_id(base@, j)),
        decreases all.len() + 1 - k,
    {
        if !id_taken(existing, &candidate) {
            proof {
                lemma_first_free_unique(all, base@, k as nat);
            }
            return string_of(&candidate);
        }
        proof {
            lemma_candidates_run_out(all, base@, k as nat);
        }
        k += 1;
        let mut next = crate::text::copy_chars(&base);
        next.push('-');
        push_all(&mut next, &decimal_chars(k));
        assert(next@ =~= candidate_id(base@, k as nat));
        candidate = next;
    }
}

// ---------------------------------------------------------------------------
// Saving what the editor holds
// ---------------------------------------------------------------------------

/// Why the editor's search cannot be saved.
#[derive(Clone, Copy, Debug, PartialEq, Eq, Structural)]
pub enum SaveError {
    /// The name is blank.
    EmptyName,
    /// There is neither free text nor an alternative nor a required term.
    NoQueryTerm,
    /// The search being edited is no longer in the collection.
    PresetGone,
}

/// The text shown for a refusal to save.
pub open spec fn save_error_text(e: SaveError) -> Seq<char> {
    match e {
        SaveError::EmptyName => "Name cannot be empty."@,
        SaveError::NoQueryTerm => "Configure at least one query term."@,
        SaveError::PresetGone => "Preset no longer exists."@,
    }
}

impl SaveError {
    /// The text to show for this refusal.
    pub fn message(&self) -> (r: String)
        ensures
            r@ == save_error_text(*self),
    {
        match self {
            SaveError::EmptyName => "Name cannot be empty.".to_owned(),
            SaveError::NoQueryTerm => "Configure at least one query term.".to_owned(),
            SaveError::PresetGone => "Preset no longer exists.".to_owned(),
        }
    }
}

/// The editor as a save finds it: without a message, its term lists
/// normalised and its working search up to date.
pub open spec fn prepared(e: EditorView) -> EditorView {
    hydrated(EditorView { error: None, ..e })
}

/// Whether the working search names something to look for.
pub open spec fn names_something(p: EditorView) -> bool {
    ||| (p.working.query.q matches Some(text) && !is_blank(text))
    ||| p.working.query.any_terms.len() > 0
    ||| p.working.query.all_terms.len() > 0
}

/// Why a save is refused, if it is: for a blank name first, then for a
/// search that names nothing to look for, then for an edited search that is
/// gone.
pub open spec fn save_refusal(searches: Seq<MySearchView>, p: EditorView) -> Option<SaveError> {
    if is_blank(p.name) {
        Some(SaveError::EmptyName)
    } else if !names_something(p) {
        Some(SaveError::NoQueryTerm)
    } else {
        match p.mode {
            PresetEditorMode::Edit { index } => if index >= searches.len() {
                Some(SaveError::PresetGone)
            } else {
                None
            },
            _ => None,
        }
    }
}

/// The id under which a new search is saved: its own, unless that is blank
/// or taken; else a fresh one made from its name.
pub open spec fn saved_id(searches: Seq<MySearchView>, p: EditorView, now_unix: int) -> Seq<char> {
    if is_blank(p.working.id) || has_search_id(searches, p.working.id) {
        first_free_id(searches, base_for(p.working.name, now_unix))
    } else {
        p.working.id
    }
}

/// The search as it is saved: an edited search keeps the id it had in the
/// collection, a new one gets its saved id.
pub open spec fn saved_search(
    searches: Seq<MySearchView>,
    p: EditorView,
    now_unix: int,
) -> MySearchView {
    match p.mode {
        PresetEditorMode::Edit { index } => MySearchView { id: searches[index as int].id, ..p.working },
        _ => MySearchView { id: saved_id(searches, p, now_unix), ..p.working },
    }
}

/// The collection after a save: an edited search replaced in place, a new
/// one appended.
pub open spec fn saved_searches(
    searches: Seq<MySearchView>,
    p: EditorView,
    now_unix: int,
) -> Seq<MySearchView> {
    match p.mode {
        PresetEditorMode::Edit { index } => searches.update(
            index as int,
            saved_search(searches, p, now_unix),
        ),
        _ => searches.push(saved_search(searches, p, now_unix)),
    }
}

/// The editor after a save that went through: a new search carries its
/// saved id.
pub open spec fn editor_after_save(
    searches: Seq<MySearchView>,
    p: EditorView,
    now_unix: int,
) -> EditorView {
    match p.mode {
        PresetEditorMode::Edit { index } => p,
        _ => EditorView { working: saved_search(searches, p, now_unix), ..p },
    }
}

/// A new search never gets an id that is taken.
pub proof fn lemma_saved_id_is_free(searches: Seq<MySearchView>, p: EditorView, now_unix: int)
    ensures
        !has_search_id(searches, saved_id(searches, p, now_unix)),
{
    lemma_first_free_exists(searches, base_for(p.working.name, now_unix));
}

/// No two searches have the same id.
pub open spec fn search_ids_distinct(searches: Seq<MySearchView>) -> bool {
    forall|i: int, j: int|
        0 <= i < j < searches.len() ==> (#[trigger] searches[i]).id != (#[trigger] searches[j]).id
}

/// Appending a search whose id no search has keeps the ids distinct.
pub proof fn lemma_push_keeps_ids_distinct(searches: Seq<MySearchView>, s: MySearchView)
    requires
        search_ids_distinct(searches),
        !has_search_id(searches, s.id),
    ensures
        search_ids_distinct(searches.push(s)),
{
    let out = searches.push(s);
    assert forall|i: int, j: int| 0 <= i < j < out.len() implies (#[trigger] out[i]).id != (
    #[trigger] out[j]).id by {
        if j < searches.len() {
            assert(out[i] == searches[i]);
            assert(out[j] == searches[j]);
        } else {
            assert(out[i] == searches[i]);
            assert(searches[i].id == out[i].id);
        }
    }
}

/// A save keeps the ids of the collection distinct.
pub proof fn lemma_save_keeps_ids_distinct(
    searches: Seq<MySearchView>,
    p: EditorView,
    now_unix: int,
)
    requires
        search_ids_distinct(searches),
        save_refusal(searches, p) is None,
    ensures
        search_ids_distinct(saved_searches(searches, p, now_unix)),
{
    let out = saved_searches(searches, p, now_unix);
    match p.mode {
        PresetEditorMode::Edit { index } => {
            assert forall|i: int, j: int| 0 <= i < j < out.len() implies (#[trigger] out[i]).id != (
            #[trigger] out[j]).id by {
                assert(out[i].id == searches[i].id);
                assert(out[j].id == searches[j].id);
            }
        },
        _ => {
            lemma_saved_id_is_free(searches, p, now_unix);
            lemma_push_keeps_ids_distinct(searches, saved_search(searches, p, now_unix));
        },
    }
}

/// Clears the editor's message and brings its working search up to date.
fn prepare_editor(editor: &mut PresetEditorState)
    ensures
        final(editor)@ == prepared(old(editor)@),
{
    editor.error = None;
    editor.hydrate_working();
}

/// Puts the text of a refusal into the editor's message.
fn refuse_save(editor: &mut PresetEditorState, e: SaveError)
    ensures
        final(editor)@ == (EditorView { error: Some(save_error_text(e)), ..old(editor)@ }),
{
    editor.error = Some(e.message());
}

/// Why a save of the editor's working search is refused, if it is.
pub fn check_save(searches: &Vec<MySearch>, editor: &PresetEditorState) -> (r: Option<SaveError>)
    ensures
        r == save_refusal(search_views(searches@), editor@),
{
    if str_blank(editor.name.as_str()) {
        return Some(SaveError::EmptyName);
    }
    let has_query_text = match &editor.working.query.q {
        Some(q) => !str_blank(q.as_str()),
        None => false,
    };
    assert(crate::text::strs(editor.working.query.any_terms@).len()
        == editor.working.query.any_terms@.len());
    assert(crate::text::strs(editor.working.query.all_terms@).len()
        == editor.working.query.all_terms@.len());
    if !has_query_text && editor.working.query.any_terms.len() == 0
        && editor.working.query.all_terms.len() == 0 {
        return Some(SaveError::NoQueryTerm);
    }
    match editor.mode {
        PresetEditorMode::Edit { index } => {
            if index >= searches.len() {
                Some(SaveError::PresetGone)
            } else {
                None
            }
        },
        _ => None,
    }
}

/// The search as it is saved.
fn search_to_save(searches: &Vec<MySearch>, editor: &PresetEditorState, now_unix: i64) -> (r:
    MySearch)
    requires
        save_refusal(search_views(searches@), editor@) is None,
    ensures
        r@ == saved_search(search_views(searches@), editor@, now_unix as int),
{
    let mut preset = editor.working.clone();
    match editor.mode {
        PresetEditorMode::Edit { index } => {
            assert(search_views(searches@)[index as int] == searches@[index as int]@);
            preset.id = searches[index].id.clone();
        },
        _ => {
            if str_blank(preset.id.as_str()) || contains_search_id(searches, &preset.id) {
                preset.id = generate_unique_id_with(preset.name.as_str(), searches, now_unix);
            }
        },
    }
    preset
}

/// Puts the search into the collection: in place of the one edited, or at
/// the end.
fn store_search(searches: &mut Vec<MySearch>, mode: PresetEditorMode, preset: MySearch)
    requires
        mode matches PresetEditorMode::Edit { index } ==> index < old(searches)@.len(),
    ensures
        search_views(final(searches)@) == match mode {
            PresetEditorMode::Edit { index } => search_views(old(searches)@).update(
                index as int,
                preset@,
            ),
            _ => search_views(old(searches)@).push(preset@),
        },
{
    let ghost before = search_views(searches@);
    match mode {
        PresetEditorMode::Edit { index } => {
            searches.remove(index);
            searches.insert(index, preset);
            assert(search_views(searches@) =~= before.update(index as int, preset@));
        },
        _ => {
            searches.push(preset);
            assert(search_views(searches@) =~= before.push(preset@));
        },
    }
}

/// Makes the saved search the editor's working search, where it is a new
/// one.
fn adopt_saved(editor: &mut PresetEditorState, preset: &MySearch)
    ensures
        final(editor)@ == match old(editor)@.mode {
            PresetEditorMode::Edit { index } => old(editor)@,
            _ => EditorView { working: preset@, ..old(editor)@ },
        },
{
    match editor.mode {
        PresetEditorMode::Edit { index } => {},
        _ => {
            editor.working = preset.clone();
        },
    }
}

/// Saves the search that the editor holds, or says why not. The editor's
/// message is cleared and its working search brought up to date first. A
/// refusal leaves the collection alone and puts its text into the editor's
/// message. `now_unix` is the time in seconds since the Unix epoch, used
/// only where an id has to be made from a name that suggests none.
pub fn try_save_editor(
    searches: &mut Vec<MySearch>,
    editor: &mut PresetEditorState,
    now_unix: i64,
) -> (r: Result<(), SaveError>)
    ensures
        match save_refusal(search_views(old(searches)@), prepared(old(editor)@)) {
            Some(e) => {
                &&& r == Err::<(), SaveError>(e)
                &&& search_views(final(searches)@) == search_views(old(searches)@)
                &&& final(editor)@ == (EditorView {
                    error: Some(save_error_text(e)),
                    ..prepared(old(editor)@)
                })
            },
            None => {
                &&& r is Ok
                &&& search_views(final(searches)@) == saved_searches(
                    search_views(old(searches)@),
                    prepared(old(editor)@),
                    now_unix as int,
                )
                &&& final(editor)@ == editor_after_save(
                    search_views(old(searches)@),
                    prepared(old(editor)@),
                    now_unix as int,
                )
            },
        },
{
    prepare_editor(editor);
    match check_save(searches, editor) {
        Some(e) => {
            refuse_save(editor, e);
            Err(e)
        },
        None => {
            let preset = search_to_save(searches, editor, now_unix);
            adopt_saved(editor, &preset);
            store_search(searches, editor.mode, preset);
            Ok(())
        },
    }
}

// ---------------------------------------------------------------------------
// Importing searches
// ---------------------------------------------------------------------------

/// Why an import brings nothing.
#[derive(Clone, Copy, Debug, PartialEq, Eq, Structural)]
pub enum ImportError {
    /// The import holds no search at all.
    NothingFound,
    /// Every search of the import has a blank name.
    NothingValid,
}

/// The text shown for an import that brings nothing.
pub open spec fn import_error_text(e: ImportError) -> Seq<char> {
    match e {
        ImportError::NothingFound => "No presets found in import."@,
        ImportError::NothingValid => "No valid presets to import."@,
    }
}

impl ImportError {
    /// The text to show for this error.
    pub fn message(&self) -> (r: String)
        ensures
            r@ == import_error_text(*self),
    {
        match self {
            ImportError::NothingFound => "No presets found in import.".to_owned(),
            ImportError::NothingValid => "No valid presets to import.".to_owned(),
        }
    }
}

/// The id that an imported search gets in a collection. When the
/// collection is being replaced, the search's own id is trimmed first; when
/// it is being extended, it is taken as it stands. An id that is blank or
/// taken gives way to a fresh one made from the name.
pub open spec fn imported_id(
    acc: Seq<MySearchView>,
    p: MySearchView,
    replace_existing: bool,
    now_unix: int,
) -> Seq<char> {
    let own = if replace_existing {
        trim(p.id)
    } else {
        p.id
    };
    if is_blank(p.id) || has_search_id(acc, own) {
        first_free_id(acc, base_for(trim(p.name), now_unix))
    } else {
        own
    }
}

/// The collection after one search of an import: a search with a blank name
/// is passed over; any other is appended with its name trimmed and its id
/// made unique.
pub open spec fn import_one(
    acc: Seq<MySearchView>,
    p: MySearchView,
    replace_existing: bool,
    now_unix: int,
) -> Seq<MySearchView> {
    if is_blank(p.name) {
        acc
    } else {
        acc.push(
            MySearchView {
                id: imported_id(acc, p, replace_existing, now_unix),
                name: trim(p.name),
                ..p
            },
        )
    }
}

/// The collection after the searches of an import, in order.
pub open spec fn import_all(
    acc: Seq<MySearchView>,
    presets: Seq<MySearchView>,
    replace_existing: bool,
    now_unix: int,
) -> Seq<MySearchView>
    decreases presets.len(),
{
    if presets.len() == 0 {
        acc
    } else {
        import_one(
            import_all(acc, presets.drop_last(), replace_existing, now_unix),
            presets.last(),
            replace_existing,
            now_unix,
        )
    }
}

/// The collection that an import leaves: the imported searches alone when
/// the collection is replaced, else the collection extended by them.
pub open spec fn after_import(
    searches: Seq<MySearchView>,
    presets: Seq<MySearchView>,
    replace_existing: bool,
    now_unix: int,
) -> Seq<MySearchView> {
    import_all(
        if replace_existing {
            Seq::empty()
        } else {
            searches
        },
        presets,
        replace_existing,
        now_unix,
    )
}

/// How many searches an import adds.
pub open spec fn import_count(
    searches: Seq<MySearchView>,
    presets: Seq<MySearchView>,
    replace_existing: bool,
    now_unix: int,
) -> int {
    after_import(searches, presets, replace_existing, now_unix).len() - if replace_existing {
        0
    } else {
        searches.len() as int
    }
}

/// What an import comes to: an error if it holds no search, or none with a
/// name; else the number of searches that it adds.
pub open spec fn import_result(
    searches: Seq<MySearchView>,
    presets: Seq<MySearchView>,
    replace_existing: bool,
    now_unix: int,
) -> Result<usize, ImportError> {
    if presets.len() == 0 {
        Err(ImportError::NothingFound)
    } else if import_count(searches, presets, replace_existing, now_unix) <= 0 {
        Err(ImportError::NothingValid)
    } else {
        Ok(import_count(searches, presets, replace_existing, now_unix) as usize)
    }
}

/// An import keeps what it starts from, in place, and keeps the ids
/// distinct.
pub proof fn lemma_import_all(
    acc: Seq<MySearchView>,
    presets: Seq<MySearchView>,
    replace_existing: bool,
    now_unix: int,
)
    requires
        search_ids_distinct(acc),
    ensures
        search_ids_distinct(import_all(acc, presets, replace_existing, now_unix)),
        acc.len() <= import_all(acc, presets, replace_existing, now_unix).len() <= acc.len()
            + presets.len(),
        import_all(acc, presets, replace_existing, now_unix).take(acc.len() as int) == acc,
    decreases presets.len(),
{
    let out = import_all(acc, presets, replace_existing, now_unix);
    if presets.len() == 0 {
        assert(out.take(acc.len() as int) =~= acc);
    } else {
        let pre = import_all(acc, presets.drop_last(), replace_existing, now_unix);
        lemma_import_all(acc, presets.drop_last(), replace_existing, now_unix);
        let p = presets.last();
        if !is_blank(p.name) {
            lemma_first_free_exists(pre, base_for(trim(p.name), now_unix));
            let added = MySearchView {
                id: imported_id(pre, p, replace_existing, now_unix),
                name: trim(p.name),
                ..p
            };
            lemma_push_keeps_ids_distinct(pre, added);
        }
        assert(out.take(acc.len() as int) =~= pre.take(acc.len() as int));
    }
}

/// What importing does to the collection: it is replaced or extended by
/// the searches of the import that have a name, each with an id that no
/// other search of the collection has. An import without any search, or
/// without any named search, changes nothing and says so. Otherwise the
/// number of searches added comes back.
pub fn import_presets(
    searches: &mut Vec<MySearch>,
    presets: &Vec<MySearch>,
    replace_existing: bool,
    now_unix: i64,
) -> (r: Result<usize, ImportError>)
    ensures
        r == import_result(
            search_views(old(searches)@),
            search_views(presets@),
            replace_existing,
            now_unix as int,
        ),
        search_views(final(searches)@) == if r is Ok {
            after_import(
                search_views(old(searches)@),
                search_views(presets@),
                replace_existing,
                now_unix as int,
            )
        } else {
            search_views(old(searches)@)
        },
{
    if presets.len() == 0 {
        return Err(ImportError::NothingFound);
    }
    let ghost before = search_views(searches@);
    let ghost incoming = search_views(presets@);
    let ghost start = if replace_existing {
        Seq::<MySearchView>::empty()
    } else {
        before
    };
    let mut list: Vec<MySearch> = if replace_existing {
        Vec::new()
    } else {
        crate::prefs::clone_searches(searches)
    };
    assert(search_views(list@) =~= start);
    let base_len = list.len();
    let mut i: usize = 0;
    assert(incoming.take(0) =~= Seq::<MySearchView>::empty());
    while i < presets.len()
        invariant
            i <= presets.len(),
            incoming == search_views(presets@),
            search_views(list@) == import_all(
                start,
                incoming.take(i as int),
                replace_existing,
                now_unix as int,
            ),
        decreases presets.len() - i,
    {
        proof {
            let next = incoming.take(i + 1);
            assert(next.drop_last() =~= incoming.take(i as int));
            assert(next.last() == presets@[i as int]@);
        }
        let name = crate::text::trimmed(presets[i].name.as_str());
        if !name.as_str().is_empty() {
            let ghost acc = search_views(list@);
            let mut preset = presets[i].clone();
            let own = if replace_existing {
                crate::text::trimmed(preset.id.as_str())
            } else {
                preset.id.clone()
            };
            proof {
                crate::text::lemma_trim_idempotent(presets@[i as int]@.id);
            }
            let blank = str_blank(preset.id.as_str());
            let id = if blank || contains_search_id(&list, &own) {
                generate_unique_id_with(name.as_str(), &list, now_unix)
            } else {
                own
            };
            preset.id = id;
            preset.name = name;
            let ghost before_push = list@;
            list.push(preset);
            assert(search_views(list@) =~= search_views(before_push).push(
                MySearchView {
                    id: imported_id(acc, presets@[i as int]@, replace_existing, now_unix as int),
                    name: trim(presets@[i as int]@.name),
                    ..presets@[i as int]@
                },
            ));
        }
        i += 1;
    }
    assert(incoming.take(i as int) =~= incoming);
    proof {
        if replace_existing {
            assert(search_ids_distinct(start));
        }
        lemma_import_len(start, incoming, replace_existing, now_unix as int);
    }
    let added = list.len() - base_len;
    if added == 0 {
        return Err(ImportError::NothingValid);
    }
    *searches = list;
    Ok(added)
}

proof fn lemma_import_len(
    acc: Seq<MySearchView>,
    presets: Seq<MySearchView>,
    replace_existing: bool,
    now_unix: int,
)
    ensures
        acc.len() <= import_all(acc, presets, replace_existing, now_unix).len(),
    decreases presets.len(),
{
    if presets.len() > 0 {
        lemma_import_len(acc, presets.drop_last(), replace_existing, now_unix);
    }
}

/// The search that is selected once an import has gone through: the first
/// of the collection if it was replaced, else the last.
pub fn selection_after_import(searches: &Vec<MySearch>, replace_existing: bool) -> (r: Option<
    String,
>)
    ensures
        opt_str(r) == if searches@.len() == 0 {
            None
        } else if replace_existing {
            Some(searches@[0]@.id)
        } else {
            Some(searches@[searches@.len() - 1]@.id)
        },
{
    if searches.len() == 0 {
        None
    } else if replace_existing {
        Some(searches[0].id.clone())
    } else {
        Some(searches[searches.len() - 1].id.clone())
    }
}

/// The search that is selected once the search at `index` has been removed
/// from the collection, where `searches` is the collection without it: if
/// the removed search was the selected one, the search that took its place,
/// or else the last one; any other selection stays.
pub fn selection_after_delete(
    searches: &Vec<MySearch>,
    index: usize,
    removed_id: &String,
    selected: Option<String>,
) -> (r: Option<String>)
    ensures
        opt_str(r) == match opt_str(selected) {
            Some(id) => if id == removed_id@ {
                if index < searches@.len() {
                    Some(searches@[index as int]@.id)
                } else if searches@.len() > 0 {
                    Some(searches@[searches@.len() - 1]@.id)
                } else {
                    None
                }
            } else {
                Some(id)
            },
            None => None,
        },
{
    match selected {
        Some(id) => {
            if id == *removed_id {
                if index < searches.len() {
                    Some(searches[index].id.clone())
                } else if searches.len() > 0 {
                    Some(searches[searches.len() - 1].id.clone())
                } else {
                    None
                }
            } else {
                Some(id)
            }
        },
        None => None,
    }
}

// ---------------------------------------------------------------------------
// Templates
// ---------------------------------------------------------------------------

/// The name under which a copy of a search starts out: the trimmed name
/// followed by ` copy`; a blank name stays as it is.
pub open spec fn copy_name(name: Seq<char>) -> Seq<char> {
    if is_blank(name) {
        name
    } else {
        trim(name) + " copy"@
    }
}

/// The search that a copy of `source` starts out as: the same in all but
/// the name.
pub fn duplicate_of(source: &MySearch) -> (r: MySearch)
    ensures
        r@ == (MySearchView { name: copy_name(source@.name), ..source@ }),
{
    let mut copy = source.clone();
    let t = crate::text::trimmed(copy.name.as_str());
    if !t.as_str().is_empty() {
        let mut name = t;
        name.append(" copy");
        copy.name = name;
    }
    copy
}

/// The searches with the retired category taken off: a search of category
/// 28 has none afterwards; everything else stays.
pub open spec fn without_retired_category(searches: Seq<MySearchView>) -> Seq<MySearchView> {
    Seq::new(
        searches.len(),
        |i: int|
            if searches[i].query.category_id == Some(28u32) {
                MySearchView {
                    query: crate::prefs::QuerySpecView { category_id: None, ..searches[i].query },
                    ..searches[i]
                }
            } else {
                searches[i]
            },
    )
}

/// Takes the retired category off every search that has it.
pub fn clear_retired_category(searches: &mut Vec<MySearch>)
    ensures
        search_views(final(searches)@) == without_retired_category(search_views(old(searches)@)),
{
    let ghost before = search_views(searches@);
    let mut out: Vec<MySearch> = Vec::new();
    let mut i: usize = 0;
    while i < searches.len()
        invariant
            i <= searches.len(),
            *searches == *old(searches),
            before == search_views(searches@),
            out@.len() == i,
            forall|j: int|
                0 <= j < i ==> (#[trigger] out@[j])@ == without_retired_category(before)[j],
        decreases searches.len() - i,
    {
        let mut s = searches[i].clone();
        assert(s@ == before[i as int]);
        if s.query.category_id == Some(28) {
            s.query.category_id = None;
        }
        out.push(s);
        i += 1;
    }
    assert(search_views(out@) =~= without_retired_category(before));
    *searches = out;
}

} // verus!
