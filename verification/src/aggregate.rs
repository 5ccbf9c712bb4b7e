//! The cross-preset aggregator: which searches a run targets, how their
//! results are merged by video id, and the order in which they are handed
//! on.

use vstd::prelude::*;
use vstd::string::*;
use crate::error::{ErrorView, PipelineError};
use crate::fetcher::{SingleOutcomeView, SingleSearchOutcome};
use crate::prefs::{
    block_keys, blocked_keys, list_has, normalize_duration_filters, normalized_active,
    search_views, GlobalPrefs, GlobalPrefsView, MySearch, MySearchView, Prefs, PrefsView,
};
use crate::text::{
    chars_lt, chars_of, is_blank, lemma_lex_irreflexive, lemma_lex_not_below,
    lemma_lex_transitive, lex_lt, strs, trim, trimmed,
};
use crate::types::{video_views, VideoDetails, VideoView};

verus! {

// ---------------------------------------------------------------------------
// Planning a run
// ---------------------------------------------------------------------------

/// Which searches a run covers.
#[derive(Debug, PartialEq)]
pub enum RunMode {
    /// Every enabled search; results are merged by video id.
    Any,
    /// The one search with this id.
    Single(String),
}

/// Mathematical content of a [`RunMode`].
pub enum RunModeView {
    Any,
    Single(Seq<char>),
}

impl View for RunMode {
    type V = RunModeView;

    open spec fn view(&self) -> RunModeView {
        match self {
            RunMode::Any => RunModeView::Any,
            RunMode::Single(id) => RunModeView::Single(id@),
        }
    }
}

/// What a run works with once its configuration has been accepted.
#[derive(Debug)]
pub struct RunPlan {
    pub api_key: String,
    pub global: GlobalPrefs,
    pub targets: Vec<MySearch>,
    pub is_any_mode: bool,
    pub blocked_keys: Vec<String>,
}

/// Mathematical content of a [`RunPlan`].
pub struct RunPlanView {
    pub api_key: Seq<char>,
    pub global: GlobalPrefsView,
    pub targets: Seq<MySearchView>,
    pub is_any_mode: bool,
    pub blocked_keys: Seq<Seq<char>>,
}

impl View for RunPlan {
    type V = RunPlanView;

    open spec fn view(&self) -> RunPlanView {
        RunPlanView {
            api_key: self.api_key@,
            global: self.global@,
            targets: search_views(self.targets@),
            is_any_mode: self.is_any_mode,
            blocked_keys: strs(self.blocked_keys@),
        }
    }
}

/// The enabled searches, in configuration order.
pub open spec fn enabled_searches(searches: Seq<MySearchView>) -> Seq<MySearchView>
    decreases searches.len(),
{
    if searches.len() == 0 {
        Seq::empty()
    } else if searches.last().enabled {
        enabled_searches(searches.drop_last()).push(searches.last())
    } else {
        enabled_searches(searches.drop_last())
    }
}

/// Index of the first search with the given id.
pub open spec fn search_index(searches: Seq<MySearchView>, id: Seq<char>) -> Option<int>
    decreases searches.len(),
{
    if searches.len() == 0 {
        None
    } else {
        match search_index(searches.drop_last(), id) {
            Some(i) => Some(i),
            None => if searches.last().id == id {
                Some(searches.len() - 1)
            } else {
                None
            },
        }
    }
}

/// The global preferences with the active bucket selection normalised.
pub open spec fn normalized_global(global: GlobalPrefsView) -> GlobalPrefsView {
    GlobalPrefsView {
        active_duration_bucket_ids: normalized_active(
            global.duration_filters,
            global.active_duration_bucket_ids,
        ),
        ..global
    }
}

/// The plan of a run, or why there is none. A run is refused, in this order
/// of precedence, for a blank credential, for an empty list of searches, in
/// `Any` mode for want of an enabled search, and in `Single` mode for an id
/// that no search has.
pub open spec fn planned(prefs: PrefsView, mode: RunModeView) -> Result<RunPlanView, ErrorView> {
    if is_blank(prefs.api_key) {
        Err(ErrorView::MissingApiKey)
    } else if prefs.searches.len() == 0 {
        Err(ErrorView::NoSearches)
    } else {
        let plan = RunPlanView {
            api_key: trim(prefs.api_key),
            global: normalized_global(prefs.global),
            targets: Seq::empty(),
            is_any_mode: mode is Any,
            blocked_keys: block_keys(prefs.blocked_channels),
        };
        match mode {
            RunModeView::Any => {
                let enabled = enabled_searches(prefs.searches);
                if enabled.len() == 0 {
                    Err(ErrorView::NoEnabledSearches)
                } else {
                    Ok(RunPlanView { targets: enabled, ..plan })
                }
            },
            RunModeView::Single(id) => match search_index(prefs.searches, id) {
                Some(i) => Ok(RunPlanView { targets: seq![prefs.searches[i]], ..plan }),
                None => Err(ErrorView::PresetNotFound(id)),
            },
        }
    }
}

/// A search found in a prefix is the first of the whole.
pub proof fn lemma_search_index_extends(searches: Seq<MySearchView>, n: int, id: Seq<char>)
    requires
        0 <= n <= searches.len(),
        search_index(searches.take(n), id) is Some,
    ensures
        search_index(searches, id) == search_index(searches.take(n), id),
    decreases searches.len() - n,
{
    if n < searches.len() {
        assert(searches.take(n + 1).drop_last() =~= searches.take(n));
        lemma_search_index_extends(searches, n + 1, id);
    } else {
        assert(searches.take(n) =~= searches);
    }
}

/// Accepts or refuses the configuration of a run, before any request is
/// made.
pub fn plan_run(prefs: Prefs, mode: RunMode) -> (r: Result<RunPlan, PipelineError>)
    ensures
        match r {
            Ok(plan) => planned(prefs@, mode@) == Ok::<RunPlanView, ErrorView>(plan@),
            Err(e) => planned(prefs@, mode@) == Err::<RunPlanView, ErrorView>(e@),
        },
{
    let ghost pv = prefs@;
    let ghost mv = mode@;
    let Prefs { api_key, global, searches, blocked_channels } = prefs;
    let mut global = global;
    normalize_duration_filters(&mut global);
    let api_key = trimmed(api_key.as_str());
    if api_key.as_str().is_empty() {
        return Err(PipelineError::MissingApiKey);
    }
    if searches.len() == 0 {
        return Err(PipelineError::NoSearches);
    }
    let ghost all = search_views(searches@);
    let keys = blocked_keys(blocked_channels.as_slice());
    match mode {
        RunMode::Any => {
            let mut enabled: Vec<MySearch> = Vec::new();
            let mut i: usize = 0;
            assert(all.take(0) =~= Seq::<MySearchView>::empty());
            assert(search_views(enabled@) =~= Seq::<MySearchView>::empty());
            while i < searches.len()
                invariant
                    i <= searches.len(),
                    all == search_views(searches@),
                    search_views(enabled@) == enabled_searches(all.take(i as int)),
                decreases searches.len() - i,
            {
                proof {
                    let next = all.take(i + 1);
                    assert(next.drop_last() =~= all.take(i as int));
                    assert(next.last() == searches@[i as int]@);
                }
                if searches[i].enabled {
                    let ghost before = enabled@;
                    enabled.push(searches[i].clone());
                    assert(search_views(enabled@) =~= search_views(before).push(
                        searches@[i as int]@,
                    ));
                }
                i += 1;
            }
            assert(all.take(i as int) =~= all);
            assert(search_views(enabled@).len() == enabled@.len());
            if enabled.len() == 0 {
                return Err(PipelineError::NoEnabledSearches);
            }
            Ok(RunPlan { api_key, global, targets: enabled, is_any_mode: true, blocked_keys: keys })
        },
        RunMode::Single(selected_id) => {
            let mut i: usize = 0;
            assert(all.take(0) =~= Seq::<MySearchView>::empty());
            while i < searches.len()
                invariant
                    i <= searches.len(),
                    all == search_views(searches@),
                    all == pv.searches,
                    pv == prefs@,
                    mv == mode@,
                    all.len() > 0,
                    mv == RunModeView::Single(selected_id@),
                    !is_blank(pv.api_key),
                    api_key@ == trim(pv.api_key),
                    global@ == normalized_global(pv.global),
                    strs(keys@) == block_keys(pv.blocked_channels),
                    search_index(all.take(i as int), selected_id@) is None,
                decreases searches.len() - i,
            {
                proof {
                    let next = all.take(i + 1);
                    assert(next.drop_last() =~= all.take(i as int));
                    assert(next.last() == searches@[i as int]@);
                }
                if searches[i].id == selected_id {
                    proof {
                        lemma_search_index_extends(all, i + 1, selected_id@);
                    }
                    let mut targets: Vec<MySearch> = Vec::new();
                    targets.push(searches[i].clone());
                    assert(search_views(targets@) =~= seq![all[i as int]]);
                    return Ok(
                        RunPlan {
                            api_key,
                            global,
                            targets,
                            is_any_mode: false,
                            blocked_keys: keys,
                        },
                    );
                }
                i += 1;
            }
            assert(all.take(i as int) =~= all);
            Err(PipelineError::PresetNotFound(selected_id))
        },
    }
}

// ---------------------------------------------------------------------------
// Merging
// ---------------------------------------------------------------------------

/// The result of a run: the videos in the order in which they are handed
/// on, and the counts of the run.
#[derive(Debug)]
pub struct SearchOutcome {
    pub videos: Vec<VideoDetails>,
    pub presets_ran: usize,
    pub pages_fetched: usize,
    pub duplicates_within_presets: usize,
    pub duplicates_across_presets: usize,
    pub raw_items: usize,
    pub unique_ids: usize,
    pub passed_filters: usize,
}

/// Mathematical content of a [`SearchOutcome`].
pub struct OutcomeView {
    pub videos: Seq<VideoView>,
    pub presets_ran: nat,
    pub pages_fetched: nat,
    pub duplicates_within_presets: nat,
    pub duplicates_across_presets: nat,
    pub raw_items: nat,
    pub unique_ids: nat,
    pub passed_filters: nat,
}

impl View for SearchOutcome {
    type V = OutcomeView;

    open spec fn view(&self) -> OutcomeView {
        OutcomeView {
            videos: video_views(self.videos@),
            presets_ran: self.presets_ran as nat,
            pages_fetched: self.pages_fetched as nat,
            duplicates_within_presets: self.duplicates_within_presets as nat,
            duplicates_across_presets: self.duplicates_across_presets as nat,
            raw_items: self.raw_items as nat,
            unique_ids: self.unique_ids as nat,
            passed_filters: self.passed_filters as nat,
        }
    }
}

/// `existing` followed by each name of `new` that is not yet present when
/// its turn comes.
pub open spec fn add_sources(existing: Seq<Seq<char>>, new: Seq<Seq<char>>) -> Seq<Seq<char>>
    decreases new.len(),
{
    if new.len() == 0 {
        existing
    } else {
        let pre = add_sources(existing, new.drop_last());
        if pre.contains(new.last()) {
            pre
        } else {
            pre.push(new.last())
        }
    }
}

/// Index of the first video with the given id.
pub open spec fn video_index(videos: Seq<VideoView>, id: Seq<char>) -> Option<int>
    decreases videos.len(),
{
    if videos.len() == 0 {
        None
    } else {
        match video_index(videos.drop_last(), id) {
            Some(i) => Some(i),
            None => if videos.last().id == id {
                Some(videos.len() - 1)
            } else {
                None
            },
        }
    }
}

/// What `video_index` finds is the first video with that id.
pub proof fn lemma_video_index(videos: Seq<VideoView>, id: Seq<char>)
    ensures
        match video_index(videos, id) {
            Some(i) => 0 <= i < videos.len() && videos[i].id == id && forall|j: int|
                0 <= j < i ==> videos[j].id != id,
            None => forall|j: int| 0 <= j < videos.len() ==> videos[j].id != id,
        },
    decreases videos.len(),
{
    if videos.len() > 0 {
        let pre = videos.drop_last();
        lemma_video_index(pre, id);
        match video_index(pre, id) {
            Some(i) => {
                assert(pre[i] == videos[i]);
                assert forall|j: int| 0 <= j < i implies videos[j].id != id by {
                    assert(pre[j] == videos[j]);
                }
            },
            None => {
                assert forall|j: int| 0 <= j < videos.len() - 1 implies videos[j].id != id by {
                    assert(pre[j] == videos[j]);
                }
            },
        }
    }
}

proof fn lemma_video_index_extends(videos: Seq<VideoView>, n: int, id: Seq<char>)
    requires
        0 <= n <= videos.len(),
        video_index(videos.take(n), id) is Some,
    ensures
        video_index(videos, id) == video_index(videos.take(n), id),
    decreases videos.len() - n,
{
    if n < videos.len() {
        assert(videos.take(n + 1).drop_last() =~= videos.take(n));
        lemma_video_index_extends(videos, n + 1, id);
    } else {
        assert(videos.take(n) =~= videos);
    }
}

/// A merged list with the count of the videos that were merged into a row
/// that was already there.
pub struct Merge {
    pub videos: Seq<VideoView>,
    pub duplicates: nat,
}

/// A row with further sources added to its provenance.
pub open spec fn with_sources(row: VideoView, new: Seq<Seq<char>>) -> VideoView {
    VideoView { source_presets: add_sources(row.source_presets, new), ..row }
}

/// Merges one video: a video whose id is new becomes the last row; for a
/// video whose id is there, the row that has it gains the video's sources,
/// and the video counts as a duplicate.
pub open spec fn merge_one(m: Merge, v: VideoView) -> Merge {
    match video_index(m.videos, v.id) {
        Some(i) => Merge {
            videos: m.videos.update(i, with_sources(m.videos[i], v.source_presets)),
            duplicates: m.duplicates + 1,
        },
        None => Merge { videos: m.videos.push(v), duplicates: m.duplicates },
    }
}

/// Merges the videos in their order of arrival.
pub open spec fn merge_all(m: Merge, incoming: Seq<VideoView>) -> Merge
    decreases incoming.len(),
{
    if incoming.len() == 0 {
        m
    } else {
        merge_one(merge_all(m, incoming.drop_last()), incoming.last())
    }
}

/// No two rows have the same id.
pub open spec fn ids_distinct(videos: Seq<VideoView>) -> bool {
    forall|i: int, j: int|
        0 <= i < j < videos.len() ==> (#[trigger] videos[i]).id != (#[trigger] videos[j]).id
}

/// Merging one video keeps the ids distinct. A video with a new id adds a
/// row; a video with a known id adds none, counts once as a duplicate, and
/// changes no row but the one with its id, and of that only the provenance.
pub proof fn lemma_merge_one(m: Merge, v: VideoView)
    requires
        ids_distinct(m.videos),
    ensures
        ids_distinct(merge_one(m, v).videos),
        video_index(merge_one(m, v).videos, v.id) is Some,
        merge_one(m, v).videos.len() + merge_one(m, v).duplicates == m.videos.len() + m.duplicates
            + 1,
        video_index(m.videos, v.id) matches Some(i) ==> {
            &&& merge_one(m, v).videos.len() == m.videos.len()
            &&& merge_one(m, v).duplicates == m.duplicates + 1
            &&& merge_one(m, v).videos[i] == with_sources(m.videos[i], v.source_presets)
            &&& forall|j: int|
                0 <= j < m.videos.len() && j != i ==> merge_one(m, v).videos[j] == m.videos[j]
        },
        video_index(m.videos, v.id) is None ==> merge_one(m, v).videos == m.videos.push(v)
            && merge_one(m, v).duplicates == m.duplicates,
        forall|j: int| 0 <= j < m.videos.len() ==> (#[trigger] merge_one(m, v).videos[j]).id
            == m.videos[j].id,
{
    lemma_video_index(m.videos, v.id);
    let out = merge_one(m, v).videos;
    match video_index(m.videos, v.id) {
        Some(i) => {
            assert forall|a: int, b: int| 0 <= a < b < out.len() implies (#[trigger] out[a]).id != (
            #[trigger] out[b]).id by {
                assert(out[a].id == m.videos[a].id);
                assert(out[b].id == m.videos[b].id);
            }
            lemma_video_index(out, v.id);
            assert(out[i].id == v.id);
        },
        None => {
            assert forall|a: int, b: int| 0 <= a < b < out.len() implies (#[trigger] out[a]).id != (
            #[trigger] out[b]).id by {
                if b < m.videos.len() {
                    assert(out[a] == m.videos[a]);
                    assert(out[b] == m.videos[b]);
                } else {
                    assert(out[a] == m.videos[a]);
                }
            }
            lemma_video_index(out, v.id);
            assert(out[out.len() - 1].id == v.id);
        },
    }
}

/// Merging keeps the ids distinct, and every video that came in is there as
/// a row or was counted as a duplicate.
pub proof fn lemma_merge_all(m: Merge, incoming: Seq<VideoView>)
    requires
        ids_distinct(m.videos),
    ensures
        ids_distinct(merge_all(m, incoming).videos),
        merge_all(m, incoming).videos.len() + merge_all(m, incoming).duplicates == m.videos.len()
            + m.duplicates + incoming.len(),
        m.videos.len() <= merge_all(m, incoming).videos.len(),
        m.duplicates <= merge_all(m, incoming).duplicates,
        forall|k: int|
            0 <= k < incoming.len() ==> video_index(
                merge_all(m, incoming).videos,
                (#[trigger] incoming[k]).id,
            ) is Some,
    decreases incoming.len(),
{
    if incoming.len() > 0 {
        let pre_in = incoming.drop_last();
        let pre = merge_all(m, pre_in);
        lemma_merge_all(m, pre_in);
        lemma_merge_one(pre, incoming.last());
        let out = merge_all(m, incoming);
        assert forall|k: int| 0 <= k < incoming.len() implies video_index(
            out.videos,
            (#[trigger] incoming[k]).id,
        ) is Some by {
            if k < pre_in.len() {
                assert(pre_in[k] == incoming[k]);
                lemma_video_index(pre.videos, incoming[k].id);
                let i = video_index(pre.videos, incoming[k].id)->0;
                assert(out.videos[i].id == pre.videos[i].id);
                lemma_video_index(out.videos, incoming[k].id);
            }
        }
    }
}

/// A video that two searches bring ends up as one row whose provenance
/// names the first search and then the second, and counts once as a
/// duplicate across searches.
pub proof fn lemma_merge_two_sources(v: VideoView, first: Seq<char>, second: Seq<char>)
    requires
        first != second,
    ensures
        ({
            let a = VideoView { source_presets: seq![first], ..v };
            let b = VideoView { source_presets: seq![second], ..v };
            let m = merge_all(Merge { videos: Seq::empty(), duplicates: 0 }, seq![a, b]);
            &&& m.videos.len() == 1
            &&& m.videos[0].id == v.id
            &&& m.videos[0].source_presets == seq![first, second]
            &&& m.duplicates == 1
        }),
{
    let a = VideoView { source_presets: seq![first], ..v };
    let b = VideoView { source_presets: seq![second], ..v };
    let m0 = Merge { videos: Seq::empty(), duplicates: 0 };
    let both = seq![a, b];
    assert(both.drop_last() =~= seq![a]);
    assert(seq![a].drop_last() =~= Seq::<VideoView>::empty());
    let m1 = merge_all(m0, seq![a]);
    assert(merge_all(m0, Seq::<VideoView>::empty()) == m0);
    assert(m1 == merge_one(m0, a));
    assert(m1.videos =~= seq![a]);
    assert(m1.videos.drop_last() =~= Seq::<VideoView>::empty());
    assert(video_index(m1.videos, v.id) == Some(0int));
    let m2 = merge_all(m0, both);
    assert(m2 == merge_one(m1, b));
    assert(seq![second].drop_last() =~= Seq::<Seq<char>>::empty());
    assert(add_sources(seq![first], Seq::<Seq<char>>::empty()) == seq![first]);
    assert(!seq![first].contains(second));
    assert(add_sources(seq![first], seq![second]) =~= seq![first, second]);
}

/// Whether some video of the list has the given id.
pub open spec fn has_video_id(videos: Seq<VideoView>, id: Seq<char>) -> bool {
    exists|k: int| 0 <= k < videos.len() && (#[trigger] videos[k]).id == id
}

/// Every video of the list is claimed by the search of the given name and
/// by no other, as the fetch of that search leaves its videos.
pub open spec fn all_claimed_by(videos: Seq<VideoView>, name: Seq<char>) -> bool {
    forall|k: int| 0 <= k < videos.len() ==> (#[trigger] videos[k]).source_presets == seq![name]
}

/// How many videos of `incoming` have an id that a row of `rows` has.
pub open spec fn shared_count(rows: Seq<VideoView>, incoming: Seq<VideoView>) -> nat
    decreases incoming.len(),
{
    if incoming.len() == 0 {
        0
    } else {
        shared_count(rows, incoming.drop_last()) + if has_video_id(rows, incoming.last().id) {
            1nat
        } else {
            0nat
        }
    }
}

/// Adding one name: it is appended unless it is there.
pub proof fn lemma_add_source(existing: Seq<Seq<char>>, name: Seq<char>)
    ensures
        add_sources(existing, seq![name]) == if existing.contains(name) {
            existing
        } else {
            existing.push(name)
        },
        add_sources(add_sources(existing, seq![name]), seq![name]) == add_sources(
            existing,
            seq![name],
        ),
{
    let one = seq![name];
    assert(one.drop_last() =~= Seq::<Seq<char>>::empty());
    assert(one.last() == name);
    assert(add_sources(existing, Seq::<Seq<char>>::empty()) == existing);
    let once = add_sources(existing, one);
    assert(once.contains(name)) by {
        if existing.contains(name) {
        } else {
            assert(existing.push(name)[existing.len() as int] == name);
        }
    }
    assert(add_sources(once, Seq::<Seq<char>>::empty()) == once);
}

/// What merging the videos of one search does to the rows that are there:
/// each row whose id the search brings gains the name of the search, every
/// other row stays as it is, and the videos with new ids follow as rows of
/// their own. Where the search brings no id twice, the merge counts as
/// many duplicates as it brings ids that were there.
pub proof fn lemma_merge_claimed(acc: Merge, incoming: Seq<VideoView>, name: Seq<char>)
    requires
        ids_distinct(acc.videos),
        all_claimed_by(incoming, name),
    ensures
        ids_distinct(merge_all(acc, incoming).videos),
        merge_all(acc, incoming).videos.len() >= acc.videos.len(),
        forall|i: int|
            0 <= i < acc.videos.len() ==> #[trigger] merge_all(acc, incoming).videos[i] == if
                has_video_id(incoming, acc.videos[i].id) {
                with_sources(acc.videos[i], seq![name])
            } else {
                acc.videos[i]
            },
        forall|i: int|
            acc.videos.len() <= i < merge_all(acc, incoming).videos.len() ==> {
                &&& (#[trigger] merge_all(acc, incoming).videos[i]).source_presets == seq![name]
                &&& has_video_id(incoming, merge_all(acc, incoming).videos[i].id)
                &&& !has_video_id(acc.videos, merge_all(acc, incoming).videos[i].id)
            },
        ids_distinct(incoming) ==> merge_all(acc, incoming).duplicates == acc.duplicates
            + shared_count(acc.videos, incoming),
    decreases incoming.len(),
{
    let out = merge_all(acc, incoming);
    let n = acc.videos.len() as int;
    if incoming.len() == 0 {
        assert forall|i: int| 0 <= i < n implies !has_video_id(incoming, acc.videos[i].id) by {
            if has_video_id(incoming, acc.videos[i].id) {
                let k = choose|k: int|
                    0 <= k < incoming.len() && (#[trigger] incoming[k]).id == acc.videos[i].id;
            }
        }
    } else {
        let pre_in = incoming.drop_last();
        let v = incoming.last();
        let pre = merge_all(acc, pre_in);
        assert(all_claimed_by(pre_in, name)) by {
            assert forall|k: int| 0 <= k < pre_in.len() implies (#[trigger] pre_in[k]).source_presets
                == seq![name] by {
                assert(pre_in[k] == incoming[k]);
            }
        }
        if ids_distinct(incoming) {
            assert forall|a: int, b: int| 0 <= a < b < pre_in.len() implies (#[trigger] pre_in[a]).id
                != (#[trigger] pre_in[b]).id by {
                assert(pre_in[a] == incoming[a]);
                assert(pre_in[b] == incoming[b]);
            }
        }
        lemma_merge_claimed(acc, pre_in, name);
        lemma_merge_one(pre, v);
        lemma_video_index(pre.videos, v.id);
        assert(incoming[incoming.len() - 1] == v);
        assert(v.source_presets == seq![name]);
        // an id of the earlier videos is an id of all of them, and the other way
        // round but for the id of the last one
        assert forall|id: Seq<char>| has_video_id(pre_in, id) implies has_video_id(
            incoming,
            id,
        ) by {
            let k = choose|k: int| 0 <= k < pre_in.len() && (#[trigger] pre_in[k]).id == id;
            assert(incoming[k].id == id);
        }
        assert forall|id: Seq<char>| has_video_id(incoming, id) && id != v.id implies has_video_id(
            pre_in,
            id,
        ) by {
            let k = choose|k: int| 0 <= k < incoming.len() && (#[trigger] incoming[k]).id == id;
            assert(pre_in[k].id == id);
        }
        assert(has_video_id(incoming, v.id));
        // the rows that were there keep their ids
        assert forall|j: int| 0 <= j < n implies (#[trigger] pre.videos[j]).id
            == acc.videos[j].id by {}
        match video_index(pre.videos, v.id) {
            Some(i) => {
                assert forall|j: int| 0 <= j < pre.videos.len() && j != i implies (
                #[trigger] pre.videos[j]).id != v.id by {
                    if j < i {
                        assert(pre.videos[j].id != pre.videos[i].id);
                    } else {
                        assert(pre.videos[i].id != pre.videos[j].id);
                    }
                }
                if i < n {
                    lemma_add_source(acc.videos[i].source_presets, name);
                    assert(has_video_id(acc.videos, v.id)) by {
                        assert(acc.videos[i].id == v.id);
                    }
                } else {
                    lemma_add_source(seq![name], name);
                    assert(seq![name][0] == name);
                    assert(out.videos[i] == pre.videos[i]);
                    assert(!has_video_id(acc.videos, v.id));
                    if ids_distinct(incoming) {
                        let k = choose|k: int|
                            0 <= k < pre_in.len() && (#[trigger] pre_in[k]).id == v.id;
                        assert(incoming[k].id == incoming[incoming.len() - 1].id);
                    }
                }
                assert forall|j: int| 0 <= j < n implies #[trigger] out.videos[j] == if
                    has_video_id(incoming, acc.videos[j].id) {
                    with_sources(acc.videos[j], seq![name])
                } else {
                    acc.videos[j]
                } by {
                    if j != i {
                        assert(out.videos[j] == pre.videos[j]);
                        assert(pre.videos[j].id != v.id);
                    }
                }
                assert forall|j: int| n <= j < out.videos.len() implies {
                    &&& (#[trigger] out.videos[j]).source_presets == seq![name]
                    &&& has_video_id(incoming, out.videos[j].id)
                    &&& !has_video_id(acc.videos, out.videos[j].id)
                } by {
                    if j != i {
                        assert(out.videos[j] == pre.videos[j]);
                    }
                    assert(out.videos[j].id == pre.videos[j].id);
                }
            },
            None => {
                assert(!has_video_id(acc.videos, v.id)) by {
                    if has_video_id(acc.videos, v.id) {
                        let k = choose|k: int|
                            0 <= k < acc.videos.len() && (#[trigger] acc.videos[k]).id == v.id;
                        assert(pre.videos[k].id == v.id);
                    }
                }
                assert forall|j: int| 0 <= j < n implies #[trigger] out.videos[j] == if
                    has_video_id(incoming, acc.videos[j].id) {
                    with_sources(acc.videos[j], seq![name])
                } else {
                    acc.videos[j]
                } by {
                    assert(out.videos[j] == pre.videos[j]);
                    assert(pre.videos[j].id != v.id);
                }
                assert forall|j: int| n <= j < out.videos.len() implies {
                    &&& (#[trigger] out.videos[j]).source_presets == seq![name]
                    &&& has_video_id(incoming, out.videos[j].id)
                    &&& !has_video_id(acc.videos, out.videos[j].id)
                } by {
                    if j < pre.videos.len() {
                        assert(out.videos[j] == pre.videos[j]);
                    }
                }
            },
        }
    }
}

/// Where one video of the incoming ones is the only one whose id was there,
/// the count of shared ids is one.
pub proof fn lemma_one_shared(rows: Seq<VideoView>, incoming: Seq<VideoView>, id: Seq<char>)
    requires
        has_video_id(rows, id),
        has_video_id(incoming, id),
        ids_distinct(incoming),
        forall|k: int|
            0 <= k < incoming.len() && (#[trigger] incoming[k]).id != id ==> !has_video_id(
                rows,
                incoming[k].id,
            ),
    ensures
        shared_count(rows, incoming) == 1,
    decreases incoming.len(),
{
    let pre = incoming.drop_last();
    let v = incoming.last();
    let w = choose|k: int| 0 <= k < incoming.len() && (#[trigger] incoming[k]).id == id;
    assert(incoming[incoming.len() - 1] == v);
    assert forall|a: int, b: int| 0 <= a < b < pre.len() implies (#[trigger] pre[a]).id != (
    #[trigger] pre[b]).id by {
        assert(pre[a] == incoming[a]);
        assert(pre[b] == incoming[b]);
    }
    if v.id == id {
        assert forall|k: int| 0 <= k < pre.len() implies !has_video_id(
            rows,
            (#[trigger] pre[k]).id,
        ) by {
            assert(pre[k] == incoming[k]);
            assert(incoming[k].id != incoming[incoming.len() - 1].id);
        }
        lemma_none_shared(rows, pre);
    } else {
        assert(pre[w].id == id);
        assert forall|k: int| 0 <= k < pre.len() && (#[trigger] pre[k]).id != id implies !has_video_id(
            rows,
            pre[k].id,
        ) by {
            assert(pre[k] == incoming[k]);
        }
        lemma_one_shared(rows, pre, id);
    }
}

proof fn lemma_none_shared(rows: Seq<VideoView>, incoming: Seq<VideoView>)
    requires
        forall|k: int| 0 <= k < incoming.len() ==> !has_video_id(rows, (#[trigger] incoming[k]).id),
    ensures
        shared_count(rows, incoming) == 0,
    decreases incoming.len(),
{
    if incoming.len() > 0 {
        let pre = incoming.drop_last();
        assert forall|k: int| 0 <= k < pre.len() implies !has_video_id(
            rows,
            (#[trigger] pre[k]).id,
        ) by {
            assert(pre[k] == incoming[k]);
        }
        lemma_none_shared(rows, pre);
        assert(incoming[incoming.len() - 1] == incoming.last());
    }
}

/// A video that two searches bring, each among whatever else it brings,
/// ends up as exactly one row, whose provenance names the first search and
/// then the second. Where neither search brings an id twice and the video
/// is the only one that both bring, it is the one duplicate across
/// searches.
pub proof fn lemma_shared_video_merged(
    a: Seq<VideoView>,
    b: Seq<VideoView>,
    first: Seq<char>,
    second: Seq<char>,
    id: Seq<char>,
)
    requires
        first != second,
        all_claimed_by(a, first),
        all_claimed_by(b, second),
        has_video_id(a, id),
        has_video_id(b, id),
    ensures
        ({
            let m = merge_all(merge_all(Merge { videos: Seq::empty(), duplicates: 0 }, a), b);
            &&& video_index(m.videos, id) matches Some(i) && m.videos[i].source_presets
                == seq![first, second]
            &&& forall|j: int|
                0 <= j < m.videos.len() && (#[trigger] m.videos[j]).id == id ==> Some(j)
                    == video_index(m.videos, id)
            &&& ids_distinct(a) && ids_distinct(b) && (forall|k: int|
                0 <= k < b.len() && (#[trigger] b[k]).id != id ==> !has_video_id(a, b[k].id))
                ==> m.duplicates == 1
        }),
{
    let m0 = Merge { videos: Seq::empty(), duplicates: 0 };
    let m1 = merge_all(m0, a);
    let m = merge_all(m1, b);
    lemma_merge_claimed(m0, a, first);
    lemma_merge_all(m0, a);
    lemma_merge_claimed(m1, b, second);
    // the video is a row after the first search
    let ka = choose|k: int| 0 <= k < a.len() && (#[trigger] a[k]).id == id;
    assert(video_index(m1.videos, a[ka].id) is Some);
    lemma_video_index(m1.videos, id);
    let i1 = video_index(m1.videos, id)->0;
    assert(m1.videos[i1].source_presets == seq![first]);
    assert(m.videos[i1] == with_sources(m1.videos[i1], seq![second]));
    lemma_add_source(seq![first], second);
    assert(!seq![first].contains(second)) by {
        if seq![first].contains(second) {
            let k = choose|k: int| 0 <= k < seq![first].len() && seq![first][k] == second;
        }
    }
    assert(seq![first].push(second) =~= seq![first, second]);
    // and the only one with its id
    lemma_video_index(m.videos, id);
    assert(m.videos[i1].id == id);
    assert forall|j: int| 0 <= j < m.videos.len() && (#[trigger] m.videos[j]).id
        == id implies Some(j) == video_index(m.videos, id) by {
        let i = video_index(m.videos, id)->0;
        if j < i {
            assert(m.videos[j].id != m.videos[i].id);
        } else if i < j {
            assert(m.videos[i].id != m.videos[j].id);
        }
    }
    assert(Some(i1) == video_index(m.videos, id));
    if ids_distinct(a) && ids_distinct(b) && (forall|k: int|
        0 <= k < b.len() && (#[trigger] b[k]).id != id ==> !has_video_id(a, b[k].id)) {
        // the rows after the first search are the videos of the first search
        lemma_none_shared(m0.videos, a);
        assert forall|x: Seq<char>| has_video_id(m1.videos, x) implies has_video_id(a, x) by {
            let k = choose|k: int| 0 <= k < m1.videos.len() && (#[trigger] m1.videos[k]).id == x;
            assert(has_video_id(a, m1.videos[k].id));
        }
        assert(has_video_id(m1.videos, id));
        lemma_one_shared(m1.videos, b, id);
    }
}

// ---------------------------------------------------------------------------
// Order
// ---------------------------------------------------------------------------

/// `sorted` with `v` put in by publish timestamp, newest first: before every
/// row at the end that is older than it, hence after every row that is as
/// new or newer.
pub open spec fn insert_newest_first(sorted: Seq<VideoView>, v: VideoView) -> Seq<VideoView>
    decreases sorted.len(),
{
    if sorted.len() == 0 {
        seq![v]
    } else if lex_lt(sorted.last().published_at, v.published_at) {
        insert_newest_first(sorted.drop_last(), v).push(sorted.last())
    } else {
        sorted.push(v)
    }
}

/// The videos by publish timestamp, newest first; videos with the same
/// timestamp stay in their order. Timestamps are compared as text.
pub open spec fn newest_first(videos: Seq<VideoView>) -> Seq<VideoView>
    decreases videos.len(),
{
    if videos.len() == 0 {
        Seq::empty()
    } else {
        insert_newest_first(newest_first(videos.drop_last()), videos.last())
    }
}

/// No row is older than a row after it.
pub open spec fn is_newest_first(videos: Seq<VideoView>) -> bool {
    forall|i: int, j: int|
        0 <= i < j < videos.len() ==> !lex_lt(
            (#[trigger] videos[i]).published_at,
            (#[trigger] videos[j]).published_at,
        )
}

/// The rows with the given timestamp, in order.
pub open spec fn rows_at(videos: Seq<VideoView>, stamp: Seq<char>) -> Seq<VideoView>
    decreases videos.len(),
{
    if videos.len() == 0 {
        Seq::empty()
    } else if videos.last().published_at == stamp {
        rows_at(videos.drop_last(), stamp).push(videos.last())
    } else {
        rows_at(videos.drop_last(), stamp)
    }
}

proof fn lemma_rows_at_none(videos: Seq<VideoView>, stamp: Seq<char>)
    requires
        forall|i: int| 0 <= i < videos.len() ==> (#[trigger] videos[i]).published_at != stamp,
    ensures
        rows_at(videos, stamp) == Seq::<VideoView>::empty(),
    decreases videos.len(),
{
    if videos.len() > 0 {
        let pre = videos.drop_last();
        assert forall|i: int| 0 <= i < pre.len() implies (#[trigger] pre[i]).published_at
            != stamp by {
            assert(pre[i] == videos[i]);
        }
        lemma_rows_at_none(pre, stamp);
        assert(videos[videos.len() - 1].published_at != stamp);
    }
}

/// Where the scan from the back stops is where `insert_newest_first` puts
/// the video.
proof fn lemma_insert_newest_position(sorted: Seq<VideoView>, v: VideoView, p: int)
    requires
        0 <= p <= sorted.len(),
        forall|a: int|
            p <= a < sorted.len() ==> lex_lt((#[trigger] sorted[a]).published_at, v.published_at),
        p > 0 ==> !lex_lt(sorted[p - 1].published_at, v.published_at),
    ensures
        insert_newest_first(sorted, v) == sorted.insert(p, v),
    decreases sorted.len(),
{
    if sorted.len() == 0 {
        assert(seq![v] =~= sorted.insert(0, v));
    } else if p == sorted.len() {
        assert(sorted.push(v) =~= sorted.insert(p, v));
    } else {
        let pre = sorted.drop_last();
        assert(lex_lt(sorted[sorted.len() - 1].published_at, v.published_at));
        assert forall|a: int| p <= a < pre.len() implies lex_lt(
            (#[trigger] pre[a]).published_at,
            v.published_at,
        ) by {
            assert(pre[a] == sorted[a]);
        }
        if p > 0 {
            assert(pre[p - 1] == sorted[p - 1]);
        }
        lemma_insert_newest_position(pre, v, p);
        assert(pre.insert(p, v).push(sorted.last()) =~= sorted.insert(p, v));
    }
}

/// Putting a video into an ordered list keeps the list ordered, keeps what
/// was there, and keeps the rows of every timestamp in their order with the
/// new one last among its equals.
pub proof fn lemma_insert_newest_first(sorted: Seq<VideoView>, v: VideoView)
    requires
        is_newest_first(sorted),
    ensures
        is_newest_first(insert_newest_first(sorted, v)),
        insert_newest_first(sorted, v).to_multiset() == sorted.to_multiset().insert(v),
        insert_newest_first(sorted, v).len() == sorted.len() + 1,
        forall|stamp: Seq<char>|
            rows_at(insert_newest_first(sorted, v), stamp) == rows_at(sorted.push(v), stamp),
    decreases sorted.len(),
{
    broadcast use vstd::seq_lib::group_to_multiset_ensures;

    let out = insert_newest_first(sorted, v);
    if sorted.len() == 0 {
        assert(out =~= sorted.push(v));
    } else if lex_lt(sorted.last().published_at, v.published_at) {
        let pre = sorted.drop_last();
        let last = sorted.last();
        assert(is_newest_first(pre)) by {
            assert forall|i: int, j: int| 0 <= i < j < pre.len() implies !lex_lt(
                (#[trigger] pre[i]).published_at,
                (#[trigger] pre[j]).published_at,
            ) by {
                assert(pre[i] == sorted[i]);
                assert(pre[j] == sorted[j]);
            }
        }
        lemma_insert_newest_first(pre, v);
        let mid = insert_newest_first(pre, v);
        assert(sorted =~= pre.push(last));
        // order
        assert forall|i: int, j: int| 0 <= i < j < out.len() implies !lex_lt(
            (#[trigger] out[i]).published_at,
            (#[trigger] out[j]).published_at,
        ) by {
            if j < mid.len() {
                assert(out[i] == mid[i]);
                assert(out[j] == mid[j]);
            } else {
                assert(out[j] == last);
                assert(out[i] == mid[i]);
                // mid[i] is v or a row of pre
                assert(mid.to_multiset().count(mid[i]) > 0);
                if mid[i] == v {
                    if lex_lt(v.published_at, last.published_at) {
                        lemma_lex_transitive(
                            last.published_at,
                            v.published_at,
                            last.published_at,
                        );
                        lemma_lex_irreflexive(last.published_at);
                    }
                } else {
                    assert(pre.to_multiset().count(mid[i]) > 0);
                    assert(pre.contains(mid[i]));
                    let a = choose|a: int| 0 <= a < pre.len() && pre[a] == mid[i];
                    assert(sorted[a] == mid[i]);
                    assert(!lex_lt(sorted[a].published_at, sorted[sorted.len() - 1].published_at));
                }
            }
        }
        // content
        assert(out.to_multiset() =~= sorted.to_multiset().insert(v)) by {
            assert(out.to_multiset() =~= mid.to_multiset().insert(last));
            assert(sorted.to_multiset() =~= pre.to_multiset().insert(last));
        }
        // rows of equal timestamp
        assert forall|stamp: Seq<char>| rows_at(out, stamp) == rows_at(sorted.push(v), stamp) by {
            assert(out.drop_last() =~= mid);
            assert(out.last() == last);
            assert(sorted.push(v).drop_last() =~= sorted);
            assert(pre.push(v).drop_last() =~= pre);
            assert(rows_at(mid, stamp) == rows_at(pre.push(v), stamp));
            lemma_lex_irreflexive(v.published_at);
            assert(last.published_at != v.published_at);
            assert(pre.push(v).last() == v);
            assert(sorted.push(v).last() == v);
            assert(sorted.drop_last() == pre);
            let base = rows_at(pre, stamp);
            assert(rows_at(pre.push(v), stamp) == if v.published_at == stamp {
                base.push(v)
            } else {
                base
            });
            assert(rows_at(sorted, stamp) == if last.published_at == stamp {
                base.push(last)
            } else {
                base
            });
            assert(rows_at(sorted.push(v), stamp) == if v.published_at == stamp {
                rows_at(sorted, stamp).push(v)
            } else {
                rows_at(sorted, stamp)
            });
            assert(rows_at(out, stamp) == if last.published_at == stamp {
                rows_at(mid, stamp).push(last)
            } else {
                rows_at(mid, stamp)
            });
        }
    } else {
        assert forall|i: int, j: int| 0 <= i < j < out.len() implies !lex_lt(
            (#[trigger] out[i]).published_at,
            (#[trigger] out[j]).published_at,
        ) by {
            if j < sorted.len() {
                assert(out[i] == sorted[i]);
                assert(out[j] == sorted[j]);
            } else {
                assert(out[i] == sorted[i]);
                if i < sorted.len() - 1 {
                    assert(!lex_lt(
                        sorted[i].published_at,
                        sorted[sorted.len() - 1].published_at,
                    ));
                    if lex_lt(sorted[i].published_at, v.published_at) {
                        // sorted[i] >= last and last >= v, so sorted[i] >= v
                        lemma_lex_not_below(
                            sorted[i].published_at,
                            sorted.last().published_at,
                            v.published_at,
                        );
                    }
                }
            }
        }
    }
}

/// The ordered list is ordered, holds exactly the videos given, and keeps
/// videos of the same timestamp in their order.
pub proof fn lemma_newest_first(videos: Seq<VideoView>)
    ensures
        is_newest_first(newest_first(videos)),
        newest_first(videos).to_multiset() == videos.to_multiset(),
        newest_first(videos).len() == videos.len(),
        forall|stamp: Seq<char>| rows_at(newest_first(videos), stamp) == rows_at(videos, stamp),
    decreases videos.len(),
{
    broadcast use vstd::seq_lib::group_to_multiset_ensures;

    if videos.len() > 0 {
        let pre = videos.drop_last();
        lemma_newest_first(pre);
        lemma_insert_newest_first(newest_first(pre), videos.last());
        assert(videos =~= pre.push(videos.last()));
        assert forall|stamp: Seq<char>| rows_at(newest_first(videos), stamp) == rows_at(
            videos,
            stamp,
        ) by {
            let sorted_pre = newest_first(pre);
            assert(sorted_pre.push(videos.last()).drop_last() =~= sorted_pre);
            assert(rows_at(sorted_pre, stamp) == rows_at(pre, stamp));
        }
    } else {
        assert(newest_first(videos).to_multiset() =~= videos.to_multiset());
    }
}

/// Of two videos with different timestamps, the later one comes first.
pub proof fn lemma_later_first(a: VideoView, b: VideoView)
    requires
        lex_lt(a.published_at, b.published_at),
    ensures
        newest_first(seq![a, b]) == seq![b, a],
        newest_first(seq![b, a]) == seq![b, a],
{
    lemma_lex_irreflexive(a.published_at);
    if lex_lt(b.published_at, a.published_at) {
        lemma_lex_transitive(a.published_at, b.published_at, a.published_at);
    }
    assert(seq![a, b].drop_last() =~= seq![a]);
    assert(seq![b, a].drop_last() =~= seq![b]);
    assert(seq![a].drop_last() =~= Seq::<VideoView>::empty());
    assert(seq![b].drop_last() =~= Seq::<VideoView>::empty());
    assert(newest_first(Seq::<VideoView>::empty()) =~= Seq::<VideoView>::empty());
    assert(seq![a].last() == a);
    assert(seq![b].last() == b);
    assert(insert_newest_first(Seq::<VideoView>::empty(), a) =~= seq![a]);
    assert(insert_newest_first(Seq::<VideoView>::empty(), b) =~= seq![b]);
    assert(newest_first(seq![a]) =~= seq![a]);
    assert(newest_first(seq![b]) =~= seq![b]);
    assert(seq![a, b].last() == b);
    assert(seq![b, a].last() == a);
    assert(insert_newest_first(seq![a], b) =~= seq![b, a]) by {
        assert(insert_newest_first(Seq::<VideoView>::empty(), b) =~= seq![b]);
        assert(seq![b].push(a) =~= seq![b, a]);
    }
    assert(insert_newest_first(seq![b], a) =~= seq![b, a]) by {
        assert(seq![b].push(a) =~= seq![b, a]);
    }
}

// ---------------------------------------------------------------------------
// The running aggregation
// ---------------------------------------------------------------------------

/// The results of the searches of a run taken in so far.
#[derive(Debug)]
pub struct Aggregation {
    pub is_any_mode: bool,
    pub totals: SearchOutcome,
}

/// Mathematical content of an [`Aggregation`].
pub struct AggregationView {
    pub is_any_mode: bool,
    pub totals: OutcomeView,
}

impl View for Aggregation {
    type V = AggregationView;

    open spec fn view(&self) -> AggregationView {
        AggregationView { is_any_mode: self.is_any_mode, totals: self.totals@ }
    }
}

impl AggregationView {
    /// The aggregation before any search has been taken in.
    pub open spec fn empty(is_any_mode: bool) -> AggregationView {
        AggregationView {
            is_any_mode,
            totals: OutcomeView {
                videos: Seq::empty(),
                presets_ran: 0,
                pages_fetched: 0,
                duplicates_within_presets: 0,
                duplicates_across_presets: 0,
                raw_items: 0,
                unique_ids: 0,
                passed_filters: 0,
            },
        }
    }

    /// In `Any` mode no two rows have the same id, and in either mode every
    /// video that passed the filters is a row or was merged into one.
    pub open spec fn wf(self) -> bool {
        &&& self.is_any_mode ==> ids_distinct(self.totals.videos)
        &&& self.totals.videos.len() + self.totals.duplicates_across_presets
            == self.totals.passed_filters
    }

    /// The counts stay within the machine's range when `o` is taken in.
    pub open spec fn fits(self, o: SingleOutcomeView) -> bool {
        &&& self.totals.presets_ran + 1 <= usize::MAX
        &&& self.totals.pages_fetched + o.pages_fetched <= usize::MAX
        &&& self.totals.duplicates_within_presets + o.duplicates_within <= usize::MAX
        &&& self.totals.raw_items + o.raw_items <= usize::MAX
        &&& self.totals.unique_ids + o.unique_ids <= usize::MAX
        &&& self.totals.passed_filters + o.videos.len() <= usize::MAX
    }

    /// The aggregation after the outcome of one more search: the counts
    /// add up; in `Any` mode the videos are merged by id, else appended.
    pub open spec fn absorbed(self, o: SingleOutcomeView) -> AggregationView {
        let merged = merge_all(
            Merge {
                videos: self.totals.videos,
                duplicates: self.totals.duplicates_across_presets,
            },
            o.videos,
        );
        AggregationView {
            is_any_mode: self.is_any_mode,
            totals: OutcomeView {
                videos: if self.is_any_mode {
                    merged.videos
                } else {
                    self.totals.videos + o.videos
                },
                presets_ran: self.totals.presets_ran + 1,
                pages_fetched: self.totals.pages_fetched + o.pages_fetched,
                duplicates_within_presets: self.totals.duplicates_within_presets
                    + o.duplicates_within,
                duplicates_across_presets: if self.is_any_mode {
                    merged.duplicates
                } else {
                    self.totals.duplicates_across_presets
                },
                raw_items: self.totals.raw_items + o.raw_items,
                unique_ids: self.totals.unique_ids + o.unique_ids,
                passed_filters: self.totals.passed_filters + o.videos.len(),
            },
        }
    }

    /// The result of the run: the totals, with the videos newest first.
    pub open spec fn finished(self) -> OutcomeView {
        OutcomeView { videos: newest_first(self.totals.videos), ..self.totals }
    }
}

/// The aggregation after the outcomes of several searches, in order.
pub open spec fn absorbed_all(start: AggregationView, outcomes: Seq<SingleOutcomeView>) -> AggregationView
    decreases outcomes.len(),
{
    if outcomes.len() == 0 {
        start
    } else {
        absorbed_all(start, outcomes.drop_last()).absorbed(outcomes.last())
    }
}

/// The result of a run as a function of what its searches brought.
pub open spec fn aggregate(is_any_mode: bool, outcomes: Seq<SingleOutcomeView>) -> OutcomeView {
    absorbed_all(AggregationView::empty(is_any_mode), outcomes).finished()
}

/// Taking in an outcome keeps the aggregation well formed.
pub proof fn lemma_absorbed_wf(a: AggregationView, o: SingleOutcomeView)
    requires
        a.wf(),
    ensures
        a.absorbed(o).wf(),
{
    if a.is_any_mode {
        lemma_merge_all(
            Merge { videos: a.totals.videos, duplicates: a.totals.duplicates_across_presets },
            o.videos,
        );
    }
}

/// A run is a function of what the searches brought: two runs in the same
/// mode whose searches bring the same outcomes give the same videos in the
/// same order and the same counts.
pub proof fn lemma_aggregate_repeatable(
    is_any_mode: bool,
    first: Seq<SingleOutcomeView>,
    second: Seq<SingleOutcomeView>,
)
    requires
        first == second,
    ensures
        aggregate(is_any_mode, first) == aggregate(is_any_mode, second),
{
}

/// The result of a run is ordered newest first; in `Any` mode no two of
/// its rows have the same id.
pub proof fn lemma_aggregate(is_any_mode: bool, outcomes: Seq<SingleOutcomeView>)
    ensures
        is_newest_first(aggregate(is_any_mode, outcomes).videos),
        absorbed_all(AggregationView::empty(is_any_mode), outcomes).wf(),
        aggregate(is_any_mode, outcomes).presets_ran == outcomes.len(),
        aggregate(is_any_mode, outcomes).videos.to_multiset() == absorbed_all(
            AggregationView::empty(is_any_mode),
            outcomes,
        ).totals.videos.to_multiset(),
    decreases outcomes.len(),
{
    let start = AggregationView::empty(is_any_mode);
    if outcomes.len() > 0 {
        lemma_aggregate(is_any_mode, outcomes.drop_last());
        lemma_absorbed_wf(absorbed_all(start, outcomes.drop_last()), outcomes.last());
    }
    lemma_newest_first(absorbed_all(start, outcomes).totals.videos);
}

/// Appends to `existing` every name of `new` that it does not hold yet.
pub fn add_missing_sources(existing: &mut Vec<String>, new: &Vec<String>)
    ensures
        strs(final(existing)@) == add_sources(strs(old(existing)@), strs(new@)),
{
    let ghost start = strs(existing@);
    let ghost all = strs(new@);
    let mut i: usize = 0;
    assert(all.take(0) =~= Seq::<Seq<char>>::empty());
    while i < new.len()
        invariant
            i <= new.len(),
            all == strs(new@),
            strs(existing@) == add_sources(start, all.take(i as int)),
        decreases new.len() - i,
    {
        proof {
            let next = all.take(i + 1);
            assert(next.drop_last() =~= all.take(i as int));
            assert(next.last() == new@[i as int]@);
        }
        if !list_has(existing.as_slice(), &new[i]) {
            let ghost before = existing@;
            existing.push(new[i].clone());
            assert(strs(existing@) =~= strs(before).push(new@[i as int]@));
        }
        i += 1;
    }
    assert(all.take(i as int) =~= all);
}

/// Merges one video into the rows. Says whether the video's id was there
/// already.
pub fn merge_video(rows: &mut Vec<VideoDetails>, video: VideoDetails) -> (known: bool)
    ensures
        known == (video_index(video_views(old(rows)@), video@.id) is Some),
        video_views(final(rows)@) == merge_one(
            Merge { videos: video_views(old(rows)@), duplicates: 0 },
            video@,
        ).videos,
{
    let ghost before = video_views(rows@);
    let mut i: usize = 0;
    assert(before.take(0) =~= Seq::<VideoView>::empty());
    while i < rows.len()
        invariant
            i <= rows.len(),
            *rows == *old(rows),
            before == video_views(rows@),
            video_index(before.take(i as int), video@.id) is None,
        decreases rows.len() - i,
    {
        proof {
            let next = before.take(i + 1);
            assert(next.drop_last() =~= before.take(i as int));
            assert(next.last() == rows@[i as int]@);
        }
        if rows[i].id == video.id {
            proof {
                lemma_video_index_extends(before, i + 1, video@.id);
            }
            let mut row = rows.remove(i);
            let ghost old_row = row@;
            add_missing_sources(&mut row.source_presets, &video.source_presets);
            assert(row@ == with_sources(old_row, video@.source_presets));
            rows.insert(i, row);
            assert(video_views(rows@) =~= before.update(
                i as int,
                with_sources(before[i as int], video@.source_presets),
            ));
            return true;
        }
        i += 1;
    }
    assert(before.take(i as int) =~= before);
    rows.push(video);
    assert(video_views(rows@) =~= before.push(video@));
    false
}

/// The videos by publish timestamp, newest first, those of the same
/// timestamp in their order.
pub fn sort_newest_first(videos: &Vec<VideoDetails>) -> (out: Vec<VideoDetails>)
    ensures
        video_views(out@) == newest_first(video_views(videos@)),
{
    let ghost all = video_views(videos@);
    let mut out: Vec<VideoDetails> = Vec::new();
    let mut keys: Vec<Vec<char>> = Vec::new();
    let mut i: usize = 0;
    assert(all.take(0) =~= Seq::<VideoView>::empty());
    assert(video_views(out@) =~= Seq::<VideoView>::empty());
    while i < videos.len()
        invariant
            i <= videos.len(),
            all == video_views(videos@),
            video_views(out@) == newest_first(all.take(i as int)),
            keys@.len() == out@.len(),
            forall|a: int|
                #![trigger keys@[a]]
                #![trigger out@[a]]
                0 <= a < out@.len() ==> keys@[a]@ == out@[a]@.published_at,
        decreases videos.len() - i,
    {
        proof {
            let next = all.take(i + 1);
            assert(next.drop_last() =~= all.take(i as int));
            assert(next.last() == videos@[i as int]@);
        }
        let v = videos[i].clone();
        let key = chars_of(v.published_at.as_str());
        let ghost sorted = video_views(out@);
        let mut p: usize = out.len();
        while p > 0 && chars_lt(&keys[p - 1], &key)
            invariant
                p <= out@.len(),
                keys@.len() == out@.len(),
                key@ == v@.published_at,
                sorted == video_views(out@),
                forall|a: int|
                    #![trigger keys@[a]]
                    #![trigger out@[a]]
                    0 <= a < out@.len() ==> keys@[a]@ == out@[a]@.published_at,
                forall|a: int|
                    p <= a < sorted.len() ==> lex_lt(
                        (#[trigger] sorted[a]).published_at,
                        v@.published_at,
                    ),
            decreases p,
        {
            assert(sorted[p - 1] == out@[p - 1]@);
            p -= 1;
        }
        proof {
            if p > 0 {
                assert(sorted[p - 1] == out@[p - 1]@);
            }
            lemma_insert_newest_position(sorted, v@, p as int);
        }
        out.insert(p, v);
        keys.insert(p, key);
        assert(video_views(out@) =~= sorted.insert(p as int, videos@[i as int]@));
        i += 1;
    }
    assert(all.take(i as int) =~= all);
    out
}

impl Aggregation {
    /// The aggregation of a run that has taken in nothing yet.
    pub fn new(is_any_mode: bool) -> (r: Aggregation)
        ensures
            r@ == AggregationView::empty(is_any_mode),
            r@.wf(),
    {
        let r = Aggregation {
            is_any_mode,
            totals: SearchOutcome {
                videos: Vec::new(),
                presets_ran: 0,
                pages_fetched: 0,
                duplicates_within_presets: 0,
                duplicates_across_presets: 0,
                raw_items: 0,
                unique_ids: 0,
                passed_filters: 0,
            },
        };
        assert(video_views(r.totals.videos@) =~= Seq::<VideoView>::empty());
        r
    }

    /// Whether the counts stay within the machine's range when `outcome`
    /// is taken in.
    pub fn has_room_for(&self, outcome: &SingleSearchOutcome) -> (r: bool)
        ensures
            r == self@.fits(outcome@),
    {
        let max = usize::MAX;
        self.totals.presets_ran < max && outcome.pages_fetched <= max - self.totals.pages_fetched
            && outcome.duplicates_within <= max - self.totals.duplicates_within_presets
            && outcome.raw_items <= max - self.totals.raw_items && outcome.unique_ids <= max
            - self.totals.unique_ids && outcome.videos.len() <= max - self.totals.passed_filters
    }

    /// Takes in the outcome of one more search.
    pub fn absorb(&mut self, outcome: &SingleSearchOutcome)
        requires
            old(self)@.wf(),
            old(self)@.fits(outcome@),
        ensures
            final(self)@ == old(self)@.absorbed(outcome@),
            final(self)@.wf(),
    {
        let ghost start = self@;
        let ghost incoming = video_views(outcome.videos@);
        let ghost m0 = Merge {
            videos: start.totals.videos,
            duplicates: start.totals.duplicates_across_presets,
        };
        proof {
            lemma_absorbed_wf(start, outcome@);
        }
        self.totals.presets_ran += 1;
        self.totals.pages_fetched += outcome.pages_fetched;
        self.totals.duplicates_within_presets += outcome.duplicates_within;
        self.totals.raw_items += outcome.raw_items;
        self.totals.unique_ids += outcome.unique_ids;
        self.totals.passed_filters += outcome.videos.len();
        if self.is_any_mode {
            let mut i: usize = 0;
            assert(incoming.take(0) =~= Seq::<VideoView>::empty());
            while i < outcome.videos.len()
                invariant
                    i <= outcome.videos.len(),
                    incoming == video_views(outcome.videos@),
                    ids_distinct(m0.videos),
                    m0.videos.len() + m0.duplicates + incoming.len() <= usize::MAX,
                    (Merge {
                        videos: video_views(self.totals.videos@),
                        duplicates: self.totals.duplicates_across_presets as nat,
                    }) == merge_all(m0, incoming.take(i as int)),
                    self.is_any_mode == start.is_any_mode,
                    self.totals.presets_ran == start.totals.presets_ran + 1,
                    self.totals.pages_fetched == start.totals.pages_fetched
                        + outcome@.pages_fetched,
                    self.totals.duplicates_within_presets == start.totals.duplicates_within_presets
                        + outcome@.duplicates_within,
                    self.totals.raw_items == start.totals.raw_items + outcome@.raw_items,
                    self.totals.unique_ids == start.totals.unique_ids + outcome@.unique_ids,
                    self.totals.passed_filters == start.totals.passed_filters
                        + outcome@.videos.len(),
                decreases outcome.videos.len() - i,
            {
                proof {
                    let next = incoming.take(i + 1);
                    assert(next.drop_last() =~= incoming.take(i as int));
                    assert(next.last() == outcome.videos@[i as int]@);
                    lemma_merge_all(m0, incoming.take(i as int));
                    lemma_merge_all(m0, next);
                }
                let video = outcome.videos[i].clone();
                let known = merge_video(&mut self.totals.videos, video);
                if known {
                    self.totals.duplicates_across_presets += 1;
                }
                i += 1;
            }
            assert(incoming.take(i as int) =~= incoming);
        } else {
            let ghost before = self.totals.videos@;
            let mut copies = crate::types::clone_videos(&outcome.videos);
            self.totals.videos.append(&mut copies);
            assert(video_views(self.totals.videos@) =~= video_views(before) + incoming);
        }
    }

    /// Takes in the outcome of one more search if the counts stay within
    /// the machine's range, and says whether it did. Otherwise nothing
    /// changes.
    pub fn try_absorb(&mut self, outcome: &SingleSearchOutcome) -> (done: bool)
        requires
            old(self)@.wf(),
        ensures
            done == old(self)@.fits(outcome@),
            done ==> final(self)@ == old(self)@.absorbed(outcome@),
            !done ==> final(self)@ == old(self)@,
            final(self)@.wf(),
    {
        if self.has_room_for(outcome) {
            self.absorb(outcome);
            true
        } else {
            false
        }
    }

    /// Ends the run: the totals, with the videos newest first.
    pub fn finish(self) -> (r: SearchOutcome)
        ensures
            r@ == self@.finished(),
            is_newest_first(r@.videos),
            r@.videos.to_multiset() == self@.totals.videos.to_multiset(),
    {
        proof {
            lemma_newest_first(self@.totals.videos);
        }
        let videos = sort_newest_first(&self.totals.videos);
        SearchOutcome {
            videos,
            presets_ran: self.totals.presets_ran,
            pages_fetched: self.totals.pages_fetched,
            duplicates_within_presets: self.totals.duplicates_within_presets,
            duplicates_across_presets: self.totals.duplicates_across_presets,
            raw_items: self.totals.raw_items,
            unique_ids: self.totals.unique_ids,
            passed_filters: self.totals.passed_filters,
        }
    }
}

/// The views of a list of outcomes.
pub open spec fn outcome_views(v: Seq<SingleSearchOutcome>) -> Seq<SingleOutcomeView> {
    Seq::new(v.len(), |i: int| v[i]@)
}

/// The counts stay within the machine's range while the outcomes are taken
/// in one after the other.
pub open spec fn all_fit(start: AggregationView, outcomes: Seq<SingleOutcomeView>) -> bool
    decreases outcomes.len(),
{
    if outcomes.len() == 0 {
        true
    } else {
        all_fit(start, outcomes.drop_last()) && absorbed_all(start, outcomes.drop_last()).fits(
            outcomes.last(),
        )
    }
}

proof fn lemma_all_fit_prefix(start: AggregationView, outcomes: Seq<SingleOutcomeView>, n: int)
    requires
        0 <= n <= outcomes.len(),
        !all_fit(start, outcomes.take(n)),
    ensures
        !all_fit(start, outcomes),
    decreases outcomes.len() - n,
{
    if n < outcomes.len() {
        assert(outcomes.take(n + 1).drop_last() =~= outcomes.take(n));
        lemma_all_fit_prefix(start, outcomes, n + 1);
    } else {
        assert(outcomes.take(n) =~= outcomes);
    }
}

/// The result of a run from what its searches brought, in order: the
/// outcomes merged or appended by the mode and the videos newest first.
/// There is no result only where the counts leave the machine's range.
pub fn aggregate_outcomes(is_any_mode: bool, outcomes: &Vec<SingleSearchOutcome>) -> (r: Option<
    SearchOutcome,
>)
    ensures
        r is Some <==> all_fit(AggregationView::empty(is_any_mode), outcome_views(outcomes@)),
        r matches Some(o) ==> o@ == aggregate(is_any_mode, outcome_views(outcomes@)),
{
    let ghost start = AggregationView::empty(is_any_mode);
    let ghost all = outcome_views(outcomes@);
    let mut aggregation = Aggregation::new(is_any_mode);
    let mut i: usize = 0;
    assert(all.take(0) =~= Seq::<SingleOutcomeView>::empty());
    while i < outcomes.len()
        invariant
            i <= outcomes.len(),
            all == outcome_views(outcomes@),
            start == AggregationView::empty(is_any_mode),
            aggregation@ == absorbed_all(start, all.take(i as int)),
            aggregation@.wf(),
            all_fit(start, all.take(i as int)),
        decreases outcomes.len() - i,
    {
        proof {
            let next = all.take(i + 1);
            assert(next.drop_last() =~= all.take(i as int));
            assert(next.last() == outcomes@[i as int]@);
        }
        if !aggregation.try_absorb(&outcomes[i]) {
            proof {
                lemma_all_fit_prefix(start, all, i + 1);
            }
            return None;
        }
        i += 1;
    }
    assert(all.take(i as int) =~= all);
    Some(aggregation.finish())
}

} // verus!
