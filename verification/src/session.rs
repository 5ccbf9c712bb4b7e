//! What is shown of a run: which results are visible, in which order, and
//! how channels are put on and taken off the block list.

use vstd::prelude::*;
use vstd::string::*;
use crate::aggregate::{
    lemma_search_index_extends, search_index, RunMode, RunModeView, SearchOutcome,
};
use crate::filters::{channel_matches, matches_channel};
use crate::labels::{channel_sort_key, sort_key, ResultSort};
use crate::prefs::{
    block_key, block_keys, blocked_keys, channel_key, list_has, normalize_block_list,
    normalized_block_list, parse_block_entry, search_views, MySearch, MySearchView,
};
use crate::text::{
    chars_eq, chars_lt, chars_of, decimal, decimal_chars, is_blank, lemma_lex_asymmetric,
    lemma_lex_irreflexive, lemma_lex_not_below, lemma_lex_total, lex_lt, opt_str, push_all,
    string_of, strs, trim, trim_chars,
};
use crate::types::{video_views, VideoDetails, VideoView};

verus! {

/// How a run ended, as it is handed to whoever shows it.
#[derive(Debug)]
pub enum SearchResult {
    Success(SearchOutcome),
    Error(String),
}

// ---------------------------------------------------------------------------
// Which run
// ---------------------------------------------------------------------------

/// The mode of the next run: the one selected search if single runs are
/// asked for and a search is selected, else every enabled search.
pub open spec fn run_mode_for(run_any_mode: bool, selected: Option<Seq<char>>) -> RunModeView {
    match selected {
        Some(id) => if run_any_mode {
            RunModeView::Any
        } else {
            RunModeView::Single(id)
        },
        None => RunModeView::Any,
    }
}

/// The mode of the next run.
pub fn determine_run_mode(run_any_mode: bool, selected_search_id: &Option<String>) -> (r: RunMode)
    ensures
        r@ == run_mode_for(run_any_mode, opt_str(*selected_search_id)),
{
    if run_any_mode {
        RunMode::Any
    } else {
        match selected_search_id {
            Some(id) => RunMode::Single(id.clone()),
            None => RunMode::Any,
        }
    }
}

/// The name of the first search with the given id.
pub open spec fn name_of_selected(
    searches: Seq<MySearchView>,
    selected: Option<Seq<char>>,
) -> Option<Seq<char>> {
    match selected {
        Some(id) => match search_index(searches, id) {
            Some(i) => Some(searches[i].name),
            None => None,
        },
        None => None,
    }
}

/// Index of the first search with the given id.
pub fn find_search(searches: &Vec<MySearch>, id: &String) -> (r: Option<usize>)
    ensures
        match r {
            Some(i) => search_index(search_views(searches@), id@) == Some(i as int) && i
                < searches@.len(),
            None => search_index(search_views(searches@), id@) is None,
        },
{
    let ghost all = search_views(searches@);
    let mut i: usize = 0;
    assert(all.take(0) =~= Seq::<MySearchView>::empty());
    while i < searches.len()
        invariant
            i <= searches.len(),
            all == search_views(searches@),
            search_index(all.take(i as int), id@) is None,
        decreases searches.len() - i,
    {
        proof {
            let next = all.take(i + 1);
            assert(next.drop_last() =~= all.take(i as int));
            assert(next.last() == searches@[i as int]@);
        }
        if searches[i].id == *id {
            proof {
                lemma_search_index_extends(all, i + 1, id@);
            }
            return Some(i);
        }
        i += 1;
    }
    assert(all.take(i as int) =~= all);
    None
}

/// The name of the selected search, if a search is selected and exists.
pub fn selected_search_name(searches: &Vec<MySearch>, selected_search_id: &Option<String>) -> (r:
    Option<String>)
    ensures
        opt_str(r) == name_of_selected(search_views(searches@), opt_str(*selected_search_id)),
{
    match selected_search_id {
        Some(id) => match find_search(searches, id) {
            Some(i) => {
                assert(search_views(searches@)[i as int] == searches@[i as int]@);
                Some(searches[i].name.clone())
            },
            None => None,
        },
        None => None,
    }
}

// ---------------------------------------------------------------------------
// Order of results
// ---------------------------------------------------------------------------

/// Whether `a` has to stand before `b` in the given order. By timestamp,
/// the newer or the older goes first; by duration or by channel, the
/// shorter, the longer or the one whose channel sorts first, and among equals
/// the newer.
pub open spec fn goes_before(sort: ResultSort, a: VideoView, b: VideoView) -> bool {
    match sort {
        ResultSort::Newest => lex_lt(b.published_at, a.published_at),
        ResultSort::Oldest => lex_lt(a.published_at, b.published_at),
        ResultSort::Channel => lex_lt(sort_key(a), sort_key(b)) || (sort_key(a) == sort_key(b)
            && lex_lt(b.published_at, a.published_at)),
        ResultSort::Shortest => a.duration_secs < b.duration_secs || (a.duration_secs
            == b.duration_secs && lex_lt(b.published_at, a.published_at)),
        ResultSort::Longest => a.duration_secs > b.duration_secs || (a.duration_secs
            == b.duration_secs && lex_lt(b.published_at, a.published_at)),
    }
}

/// `sorted` with `v` put in: before every row at the end that it has to
/// stand before, hence after every row that it ties with.
pub open spec fn insert_by(sort: ResultSort, sorted: Seq<VideoView>, v: VideoView) -> Seq<
    VideoView,
>
    decreases sorted.len(),
{
    if sorted.len() == 0 {
        seq![v]
    } else if goes_before(sort, v, sorted.last()) {
        insert_by(sort, sorted.drop_last(), v).push(sorted.last())
    } else {
        sorted.push(v)
    }
}

/// The videos in the given order; videos that tie stay in their order.
pub open spec fn sorted_by(sort: ResultSort, videos: Seq<VideoView>) -> Seq<VideoView>
    decreases videos.len(),
{
    if videos.len() == 0 {
        Seq::empty()
    } else {
        insert_by(sort, sorted_by(sort, videos.drop_last()), videos.last())
    }
}

/// No row has to stand before a row that precedes it.
pub open spec fn is_ordered(sort: ResultSort, videos: Seq<VideoView>) -> bool {
    forall|i: int, j: int|
        0 <= i < j < videos.len() ==> !goes_before(sort, #[trigger] videos[j], #[trigger] videos[i])
}

/// Every order is asymmetric, and "need not stand before" is transitive.
pub proof fn lemma_order(sort: ResultSort, a: VideoView, b: VideoView, c: VideoView)
    ensures
        goes_before(sort, a, b) ==> !goes_before(sort, b, a),
        !goes_before(sort, a, b) && !goes_before(sort, b, c) ==> !goes_before(sort, a, c),
{
    let (ta, tb, tc) = (a.published_at, b.published_at, c.published_at);
    if lex_lt(ta, tb) {
        lemma_lex_asymmetric(ta, tb);
    }
    if lex_lt(tb, ta) {
        lemma_lex_asymmetric(tb, ta);
    }
    lemma_lex_irreflexive(ta);
    lemma_lex_irreflexive(tb);
    if !lex_lt(tb, ta) && !lex_lt(tc, tb) {
        lemma_lex_not_below(tc, tb, ta);
    }
    if !lex_lt(ta, tb) && !lex_lt(tb, tc) {
        lemma_lex_not_below(ta, tb, tc);
    }
    let (ka, kb, kc) = (sort_key(a), sort_key(b), sort_key(c));
    if lex_lt(ka, kb) {
        lemma_lex_asymmetric(ka, kb);
    }
    if lex_lt(kb, ka) {
        lemma_lex_asymmetric(kb, ka);
    }
    lemma_lex_irreflexive(ka);
    lemma_lex_irreflexive(kb);
    if !lex_lt(ka, kb) && !lex_lt(kb, kc) {
        lemma_lex_not_below(ka, kb, kc);
    }
    if !lex_lt(ka, kb) && !lex_lt(kb, ka) {
        lemma_lex_total(ka, kb);
    }
    if !lex_lt(kb, kc) && !lex_lt(kc, kb) {
        lemma_lex_total(kb, kc);
    }
}

/// Putting a video into an ordered list keeps the list ordered and keeps
/// what was there.
pub proof fn lemma_insert_by(sort: ResultSort, sorted: Seq<VideoView>, v: VideoView)
    requires
        is_ordered(sort, sorted),
    ensures
        is_ordered(sort, insert_by(sort, sorted, v)),
        insert_by(sort, sorted, v).to_multiset() == sorted.to_multiset().insert(v),
        insert_by(sort, sorted, v).len() == sorted.len() + 1,
    decreases sorted.len(),
{
    broadcast use vstd::seq_lib::group_to_multiset_ensures;

    let out = insert_by(sort, sorted, v);
    if sorted.len() == 0 {
        assert(out =~= sorted.push(v));
    } else if goes_before(sort, v, sorted.last()) {
        let pre = sorted.drop_last();
        let last = sorted.last();
        assert(is_ordered(sort, pre)) by {
            assert forall|i: int, j: int| 0 <= i < j < pre.len() implies !goes_before(
                sort,
                #[trigger] pre[j],
                #[trigger] pre[i],
            ) by {
                assert(pre[i] == sorted[i]);
                assert(pre[j] == sorted[j]);
            }
        }
        lemma_insert_by(sort, pre, v);
        let mid = insert_by(sort, pre, v);
        assert(sorted =~= pre.push(last));
        assert forall|i: int, j: int| 0 <= i < j < out.len() implies !goes_before(
            sort,
            #[trigger] out[j],
            #[trigger] out[i],
        ) by {
            if j < mid.len() {
                assert(out[i] == mid[i]);
                assert(out[j] == mid[j]);
            } else {
                assert(out[j] == last);
                assert(out[i] == mid[i]);
                assert(mid.to_multiset().count(mid[i]) > 0);
                if mid[i] == v {
                    lemma_order(sort, v, last, last);
                } else {
                    assert(pre.to_multiset().count(mid[i]) > 0);
                    assert(pre.contains(mid[i]));
                    let a = choose|a: int| 0 <= a < pre.len() && pre[a] == mid[i];
                    assert(sorted[a] == mid[i]);
                    assert(!goes_before(sort, sorted[sorted.len() - 1], sorted[a]));
                }
            }
        }
        assert(out.to_multiset() =~= sorted.to_multiset().insert(v)) by {
            assert(out.to_multiset() =~= mid.to_multiset().insert(last));
            assert(sorted.to_multiset() =~= pre.to_multiset().insert(last));
        }
    } else {
        assert forall|i: int, j: int| 0 <= i < j < out.len() implies !goes_before(
            sort,
            #[trigger] out[j],
            #[trigger] out[i],
        ) by {
            if j < sorted.len() {
                assert(out[i] == sorted[i]);
                assert(out[j] == sorted[j]);
            } else {
                assert(out[i] == sorted[i]);
                if i < sorted.len() - 1 {
                    assert(!goes_before(sort, sorted[sorted.len() - 1], sorted[i]));
                    lemma_order(sort, v, sorted.last(), sorted[i]);
                }
            }
        }
    }
}

/// The sorted list is ordered and holds exactly the videos given.
pub proof fn lemma_sorted_by(sort: ResultSort, videos: Seq<VideoView>)
    ensures
        is_ordered(sort, sorted_by(sort, videos)),
        sorted_by(sort, videos).to_multiset() == videos.to_multiset(),
        sorted_by(sort, videos).len() == videos.len(),
    decreases videos.len(),
{
    broadcast use vstd::seq_lib::group_to_multiset_ensures;

    if videos.len() > 0 {
        let pre = videos.drop_last();
        lemma_sorted_by(sort, pre);
        lemma_insert_by(sort, sorted_by(sort, pre), videos.last());
        assert(videos =~= pre.push(videos.last()));
    } else {
        assert(sorted_by(sort, videos).to_multiset() =~= videos.to_multiset());
    }
}

proof fn lemma_insert_by_position(sort: ResultSort, sorted: Seq<VideoView>, v: VideoView, p: int)
    requires
        0 <= p <= sorted.len(),
        forall|a: int| p <= a < sorted.len() ==> goes_before(sort, v, #[trigger] sorted[a]),
        p > 0 ==> !goes_before(sort, v, sorted[p - 1]),
    ensures
        insert_by(sort, sorted, v) == sorted.insert(p, v),
    decreases sorted.len(),
{
    if sorted.len() == 0 {
        assert(seq![v] =~= sorted.insert(0, v));
    } else if p == sorted.len() {
        assert(sorted.push(v) =~= sorted.insert(p, v));
    } else {
        let pre = sorted.drop_last();
        assert(goes_before(sort, v, sorted[sorted.len() - 1]));
        assert forall|a: int| p <= a < pre.len() implies goes_before(sort, v, #[trigger] pre[a]) by {
            assert(pre[a] == sorted[a]);
        }
        if p > 0 {
            assert(pre[p - 1] == sorted[p - 1]);
        }
        lemma_insert_by_position(sort, pre, v, p);
        assert(pre.insert(p, v).push(sorted.last()) =~= sorted.insert(p, v));
    }
}

/// Whether `a` has to stand before `b` in the given order.
pub fn stands_before(sort: ResultSort, a: &VideoDetails, b: &VideoDetails) -> (r: bool)
    ensures
        r == goes_before(sort, a@, b@),
{
    let ta = chars_of(a.published_at.as_str());
    let tb = chars_of(b.published_at.as_str());
    match sort {
        ResultSort::Newest => chars_lt(&tb, &ta),
        ResultSort::Oldest => chars_lt(&ta, &tb),
        ResultSort::Channel => {
            let ka = chars_of(channel_sort_key(a).as_str());
            let kb = chars_of(channel_sort_key(b).as_str());
            chars_lt(&ka, &kb) || (chars_eq(&ka, &kb) && chars_lt(&tb, &ta))
        },
        ResultSort::Shortest => a.duration_secs < b.duration_secs || (a.duration_secs
            == b.duration_secs && chars_lt(&tb, &ta)),
        ResultSort::Longest => a.duration_secs > b.duration_secs || (a.duration_secs
            == b.duration_secs && chars_lt(&tb, &ta)),
    }
}

/// The videos in the given order; videos that tie stay in their order.
pub fn sort_results(videos: &Vec<VideoDetails>, sort: ResultSort) -> (out: Vec<VideoDetails>)
    ensures
        video_views(out@) == sorted_by(sort, video_views(videos@)),
        is_ordered(sort, video_views(out@)),
        video_views(out@).to_multiset() == video_views(videos@).to_multiset(),
{
    let ghost all = video_views(videos@);
    let mut out: Vec<VideoDetails> = Vec::new();
    let mut i: usize = 0;
    assert(all.take(0) =~= Seq::<VideoView>::empty());
    assert(video_views(out@) =~= Seq::<VideoView>::empty());
    while i < videos.len()
        invariant
            i <= videos.len(),
            all == video_views(videos@),
            video_views(out@) == sorted_by(sort, all.take(i as int)),
        decreases videos.len() - i,
    {
        proof {
            let next = all.take(i + 1);
            assert(next.drop_last() =~= all.take(i as int));
            assert(next.last() == videos@[i as int]@);
        }
        let v = videos[i].clone();
        let ghost sorted = video_views(out@);
        let mut p: usize = out.len();
        while p > 0 && stands_before(sort, &v, &out[p - 1])
            invariant
                p <= out@.len(),
                sorted == video_views(out@),
                forall|a: int| p <= a < sorted.len() ==> goes_before(sort, v@, #[trigger] sorted[a]),
            decreases p,
        {
            assert(sorted[p - 1] == out@[p - 1]@);
            p -= 1;
        }
        proof {
            if p > 0 {
                assert(sorted[p - 1] == out@[p - 1]@);
            }
            lemma_insert_by_position(sort, sorted, v@, p as int);
        }
        out.insert(p, v);
        assert(video_views(out@) =~= sorted.insert(p as int, videos@[i as int]@));
        i += 1;
    }
    assert(all.take(i as int) =~= all);
    proof {
        lemma_sorted_by(sort, all);
    }
    out
}

// ---------------------------------------------------------------------------
// Which results are visible
// ---------------------------------------------------------------------------

/// The names of the enabled searches, in order.
pub open spec fn enabled_names(searches: Seq<MySearchView>) -> Seq<Seq<char>>
    decreases searches.len(),
{
    if searches.len() == 0 {
        Seq::empty()
    } else if searches.last().enabled {
        enabled_names(searches.drop_last()).push(searches.last().name)
    } else {
        enabled_names(searches.drop_last())
    }
}

/// Whether one of the searches named claims the video.
pub open spec fn claimed_by(video: VideoView, names: Seq<Seq<char>>) -> bool {
    exists|i: int|
        0 <= i < video.source_presets.len() && names.contains(#[trigger] video.source_presets[i])
}

/// The videos that one of the searches named claims, in order.
pub open spec fn claimed_videos(videos: Seq<VideoView>, names: Seq<Seq<char>>) -> Seq<VideoView>
    decreases videos.len(),
{
    if videos.len() == 0 {
        Seq::empty()
    } else if claimed_by(videos.last(), names) {
        claimed_videos(videos.drop_last(), names).push(videos.last())
    } else {
        claimed_videos(videos.drop_last(), names)
    }
}

/// The videos whose channel none of the block entries matches, in order.
pub open spec fn unblocked_videos(videos: Seq<VideoView>, entries: Seq<Seq<char>>) -> Seq<
    VideoView,
>
    decreases videos.len(),
{
    if videos.len() == 0 {
        Seq::empty()
    } else if channel_matches(
        videos.last().channel_handle,
        videos.last().channel_title,
        block_keys(entries),
    ) {
        unblocked_videos(videos.drop_last(), entries)
    } else {
        unblocked_videos(videos.drop_last(), entries).push(videos.last())
    }
}

/// Which of all results are to be seen, before they are sorted. When every
/// enabled search is run: those that an enabled search claims, and none if
/// no search is enabled. When a single search is run: those that the
/// selected search claims; all of them if nothing is selected or the
/// selection names no search.
pub open spec fn visible(
    all: Seq<VideoView>,
    searches: Seq<MySearchView>,
    run_any_mode: bool,
    selected: Option<Seq<char>>,
) -> Seq<VideoView> {
    if run_any_mode {
        claimed_videos(all, enabled_names(searches))
    } else {
        match name_of_selected(searches, selected) {
            Some(name) => claimed_videos(all, seq![name]),
            None => all,
        }
    }
}

/// The selection after the visible results have been worked out: a
/// selection that names no search is dropped when a single search is run.
pub open spec fn kept_selection(
    searches: Seq<MySearchView>,
    run_any_mode: bool,
    selected: Option<Seq<char>>,
) -> Option<Seq<char>> {
    if !run_any_mode && name_of_selected(searches, selected) is None {
        None
    } else {
        selected
    }
}

/// Nothing is claimed where no search is named.
pub proof fn lemma_nothing_claimed(videos: Seq<VideoView>)
    ensures
        claimed_videos(videos, Seq::empty()) == Seq::<VideoView>::empty(),
    decreases videos.len(),
{
    if videos.len() > 0 {
        lemma_nothing_claimed(videos.drop_last());
        let v = videos.last();
        assert(!claimed_by(v, Seq::empty())) by {
            if claimed_by(v, Seq::empty()) {
                let i = choose|i: int|
                    0 <= i < v.source_presets.len() && Seq::<Seq<char>>::empty().contains(
                        #[trigger] v.source_presets[i],
                    );
                let k = choose|k: int|
                    0 <= k < Seq::<Seq<char>>::empty().len() && Seq::<Seq<char>>::empty()[k]
                        == v.source_presets[i];
            }
        }
    }
}

/// The names of the enabled searches.
pub fn names_of_enabled(searches: &Vec<MySearch>) -> (r: Vec<String>)
    ensures
        strs(r@) == enabled_names(search_views(searches@)),
{
    let ghost all = search_views(searches@);
    let mut r: Vec<String> = Vec::new();
    let mut i: usize = 0;
    assert(all.take(0) =~= Seq::<MySearchView>::empty());
    assert(strs(r@) =~= Seq::<Seq<char>>::empty());
    while i < searches.len()
        invariant
            i <= searches.len(),
            all == search_views(searches@),
            strs(r@) == enabled_names(all.take(i as int)),
        decreases searches.len() - i,
    {
        proof {
            let next = all.take(i + 1);
            assert(next.drop_last() =~= all.take(i as int));
            assert(next.last() == searches@[i as int]@);
        }
        if searches[i].enabled {
            let ghost before = r@;
            r.push(searches[i].name.clone());
            assert(strs(r@) =~= strs(before).push(searches@[i as int]@.name));
        }
        i += 1;
    }
    assert(all.take(i as int) =~= all);
    r
}

/// Whether one of the searches named claims the video.
pub fn is_claimed_by(video: &VideoDetails, names: &Vec<String>) -> (r: bool)
    ensures
        r == claimed_by(video@, strs(names@)),
{
    let mut i: usize = 0;
    while i < video.source_presets.len()
        invariant
            i <= video.source_presets.len(),
            forall|j: int|
                0 <= j < i ==> !strs(names@).contains(#[trigger] video@.source_presets[j]),
        decreases video.source_presets.len() - i,
    {
        assert(video@.source_presets[i as int] == video.source_presets@[i as int]@);
        if list_has(names.as_slice(), &video.source_presets[i]) {
            return true;
        }
        i += 1;
    }
    false
}

/// The videos that one of the searches named claims.
pub fn videos_claimed_by(videos: &Vec<VideoDetails>, names: &Vec<String>) -> (r: Vec<VideoDetails>)
    ensures
        video_views(r@) == claimed_videos(video_views(videos@), strs(names@)),
{
    let ghost all = video_views(videos@);
    let mut r: Vec<VideoDetails> = Vec::new();
    let mut i: usize = 0;
    assert(all.take(0) =~= Seq::<VideoView>::empty());
    assert(video_views(r@) =~= Seq::<VideoView>::empty());
    while i < videos.len()
        invariant
            i <= videos.len(),
            all == video_views(videos@),
            video_views(r@) == claimed_videos(all.take(i as int), strs(names@)),
        decreases videos.len() - i,
    {
        proof {
            let next = all.take(i + 1);
            assert(next.drop_last() =~= all.take(i as int));
            assert(next.last() == videos@[i as int]@);
        }
        if is_claimed_by(&videos[i], names) {
            let ghost before = r@;
            r.push(videos[i].clone());
            assert(video_views(r@) =~= video_views(before).push(videos@[i as int]@));
        }
        i += 1;
    }
    assert(all.take(i as int) =~= all);
    r
}

/// The results to be seen, in the order asked for, and the selection that
/// stays.
pub fn refresh_visible_results(
    results_all: &Vec<VideoDetails>,
    searches: &Vec<MySearch>,
    run_any_mode: bool,
    selected_search_id: Option<String>,
    sort: ResultSort,
) -> (r: (Vec<VideoDetails>, Option<String>))
    ensures
        video_views(r.0@) == sorted_by(
            sort,
            visible(
                video_views(results_all@),
                search_views(searches@),
                run_any_mode,
                opt_str(selected_search_id),
            ),
        ),
        opt_str(r.1) == kept_selection(
            search_views(searches@),
            run_any_mode,
            opt_str(selected_search_id),
        ),
{
    if run_any_mode {
        let names = names_of_enabled(searches);
        let filtered = videos_claimed_by(results_all, &names);
        return (sort_results(&filtered, sort), selected_search_id);
    }
    match selected_search_name(searches, &selected_search_id) {
        Some(name) => {
            let mut names: Vec<String> = Vec::new();
            names.push(name);
            assert(strs(names@) =~= seq![name@]);
            let filtered = videos_claimed_by(results_all, &names);
            (sort_results(&filtered, sort), selected_search_id)
        },
        None => (sort_results(results_all, sort), None),
    }
}

/// The videos whose channel none of the block entries matches.
pub fn without_blocked(videos: &Vec<VideoDetails>, blocked_channels: &[String]) -> (r: Vec<
    VideoDetails,
>)
    ensures
        video_views(r@) == unblocked_videos(video_views(videos@), strs(blocked_channels@)),
{
    let ghost all = video_views(videos@);
    let ghost entries = strs(blocked_channels@);
    let keys = blocked_keys(blocked_channels);
    let mut r: Vec<VideoDetails> = Vec::new();
    let mut i: usize = 0;
    assert(all.take(0) =~= Seq::<VideoView>::empty());
    assert(video_views(r@) =~= Seq::<VideoView>::empty());
    while i < videos.len()
        invariant
            i <= videos.len(),
            all == video_views(videos@),
            entries == strs(blocked_channels@),
            strs(keys@) == block_keys(entries),
            video_views(r@) == unblocked_videos(all.take(i as int), entries),
        decreases videos.len() - i,
    {
        proof {
            let next = all.take(i + 1);
            assert(next.drop_last() =~= all.take(i as int));
            assert(next.last() == videos@[i as int]@);
        }
        if !matches_channel(
            videos[i].channel_handle.as_str(),
            videos[i].channel_title.as_str(),
            keys.as_slice(),
        ) {
            let ghost before = r@;
            r.push(videos[i].clone());
            assert(video_views(r@) =~= video_views(before).push(videos@[i as int]@));
        }
        i += 1;
    }
    assert(all.take(i as int) =~= all);
    r
}

/// Whether a block entry matches the video's channel.
pub fn is_channel_blocked(video: &VideoDetails, blocked_channels: &[String]) -> (r: bool)
    ensures
        r == channel_matches(
            video@.channel_handle,
            video@.channel_title,
            block_keys(strs(blocked_channels@)),
        ),
{
    let keys = blocked_keys(blocked_channels);
    matches_channel(video.channel_handle.as_str(), video.channel_title.as_str(), keys.as_slice())
}

// ---------------------------------------------------------------------------
// Putting channels on the block list and taking them off
// ---------------------------------------------------------------------------

/// What came of an attempt to block a channel.
#[derive(Clone, Copy, Debug, PartialEq, Eq, Structural)]
pub enum BlockOutcome {
    /// Neither an id nor a title names the channel.
    Unavailable,
    /// The list has an entry with the channel's key already.
    AlreadyBlocked,
    /// The channel was put on the list.
    Blocked,
}

/// By what a channel is blocked: its id, or its title where the id is
/// blank, trimmed.
pub open spec fn block_source(channel_id: Seq<char>, channel_title: Seq<char>) -> Seq<char> {
    if !is_blank(channel_id) {
        trim(channel_id)
    } else {
        trim(channel_title)
    }
}

/// Whether some entry of the list has the given key.
pub open spec fn has_block_key(entries: Seq<Seq<char>>, key: Seq<char>) -> bool {
    exists|i: int| 0 <= i < entries.len() && block_key(#[trigger] entries[i]) == key
}

/// The entry under which a channel is put on the list: its key, a bar, and
/// its title, or what it is blocked by where the title is blank.
pub open spec fn block_entry(channel_id: Seq<char>, channel_title: Seq<char>) -> Seq<char> {
    let source = block_source(channel_id, channel_title);
    channel_key(source) + seq!['|'] + if is_blank(channel_title) {
        source
    } else {
        trim(channel_title)
    }
}

/// What an attempt to block a channel comes to.
pub open spec fn block_outcome(
    entries: Seq<Seq<char>>,
    channel_id: Seq<char>,
    channel_title: Seq<char>,
) -> BlockOutcome {
    let source = block_source(channel_id, channel_title);
    if source.len() == 0 {
        BlockOutcome::Unavailable
    } else if has_block_key(entries, channel_key(source)) {
        BlockOutcome::AlreadyBlocked
    } else {
        BlockOutcome::Blocked
    }
}

/// Whether some entry of the list has the given key.
pub fn list_has_key(entries: &Vec<String>, key: &Vec<char>) -> (r: bool)
    ensures
        r == has_block_key(strs(entries@), key@),
{
    let mut i: usize = 0;
    while i < entries.len()
        invariant
            i <= entries.len(),
            forall|j: int| 0 <= j < i ==> block_key(#[trigger] strs(entries@)[j]) != key@,
        decreases entries.len() - i,
    {
        let parts = parse_block_entry(entries[i].as_str());
        assert(strs(entries@)[i as int] == entries@[i as int]@);
        let here = chars_of(parts.0.as_str());
        if chars_eq(&here, key) {
            return true;
        }
        i += 1;
    }
    false
}

/// Puts a channel on the block list, unless nothing names it or its key is
/// there already, and brings the list into its normal form. A list that is
/// not extended stays as it is.
pub fn block_channel(
    blocked_channels: &mut Vec<String>,
    channel_id: &str,
    channel_title: &str,
) -> (r: BlockOutcome)
    ensures
        r == block_outcome(strs(old(blocked_channels)@), channel_id@, channel_title@),
        r == BlockOutcome::Blocked ==> strs(final(blocked_channels)@) == normalized_block_list(
            strs(old(blocked_channels)@).push(block_entry(channel_id@, channel_title@)),
        ),
        r != BlockOutcome::Blocked ==> strs(final(blocked_channels)@) == strs(
            old(blocked_channels)@,
        ),
{
    let id_raw = chars_of(channel_id);
    let id = trim_chars(&id_raw);
    let title_raw = chars_of(channel_title);
    let title = trim_chars(&title_raw);
    let title_blank = title.len() == 0;
    let source = if id.len() > 0 {
        id
    } else {
        crate::text::copy_chars(&title)
    };
    if source.len() == 0 {
        return BlockOutcome::Unavailable;
    }
    proof {
        crate::text::lemma_trim_idempotent(channel_id@);
        crate::text::lemma_trim_idempotent(channel_title@);
    }
    let key = crate::prefs::channel_key_chars(&source);
    assert(key@ == channel_key(block_source(channel_id@, channel_title@)));
    if list_has_key(blocked_channels, &key) {
        return BlockOutcome::AlreadyBlocked;
    }
    let mut entry: Vec<char> = Vec::new();
    push_all(&mut entry, &key);
    entry.push('|');
    if title_blank {
        push_all(&mut entry, &source);
    } else {
        push_all(&mut entry, &title);
    }
    assert(entry@ =~= block_entry(channel_id@, channel_title@));
    let ghost before = blocked_channels@;
    blocked_channels.push(string_of(&entry));
    assert(strs(blocked_channels@) =~= strs(before).push(entry@));
    normalize_block_list(blocked_channels);
    BlockOutcome::Blocked
}

/// The entries whose key is not `key`, in order.
pub open spec fn entries_without(entries: Seq<Seq<char>>, key: Seq<char>) -> Seq<Seq<char>>
    decreases entries.len(),
{
    if entries.len() == 0 {
        Seq::empty()
    } else if block_key(entries.last()) == key {
        entries_without(entries.drop_last(), key)
    } else {
        entries_without(entries.drop_last(), key).push(entries.last())
    }
}

proof fn lemma_entries_without(entries: Seq<Seq<char>>, key: Seq<char>)
    ensures
        entries_without(entries, key).len() <= entries.len(),
        entries_without(entries, key).len() == entries.len() <==> !has_block_key(entries, key),
        !has_block_key(entries, key) ==> entries_without(entries, key) == entries,
    decreases entries.len(),
{
    if entries.len() > 0 {
        let pre = entries.drop_last();
        lemma_entries_without(pre, key);
        if has_block_key(pre, key) {
            let i = choose|i: int| 0 <= i < pre.len() && block_key(#[trigger] pre[i]) == key;
            assert(block_key(entries[i]) == key);
        }
        if block_key(entries.last()) == key {
            assert(block_key(entries[entries.len() - 1]) == key);
        } else {
            if has_block_key(entries, key) {
                let i = choose|i: int|
                    0 <= i < entries.len() && block_key(#[trigger] entries[i]) == key;
                assert(block_key(pre[i]) == key);
            }
            if !has_block_key(entries, key) {
                assert(entries_without(entries, key) =~= pre.push(entries.last()));
                assert(pre.push(entries.last()) =~= entries);
            }
        }
    }
}

/// Takes every entry with the key of `channel_key` off the block list and,
/// if that took any off, brings the list into its normal form. Says whether
/// it took any off.
pub fn unblock_channel(blocked_channels: &mut Vec<String>, channel_key: &str) -> (changed: bool)
    ensures
        changed == has_block_key(strs(old(blocked_channels)@), crate::prefs::channel_key(
            channel_key@,
        )),
        changed ==> strs(final(blocked_channels)@) == normalized_block_list(
            entries_without(
                strs(old(blocked_channels)@),
                crate::prefs::channel_key(channel_key@),
            ),
        ),
        !changed ==> strs(final(blocked_channels)@) == strs(old(blocked_channels)@),
{
    let raw = chars_of(channel_key);
    let target = crate::prefs::channel_key_chars(&raw);
    let ghost all = strs(blocked_channels@);
    let mut kept: Vec<String> = Vec::new();
    let mut i: usize = 0;
    assert(all.take(0) =~= Seq::<Seq<char>>::empty());
    assert(strs(kept@) =~= Seq::<Seq<char>>::empty());
    while i < blocked_channels.len()
        invariant
            i <= blocked_channels.len(),
            *blocked_channels == *old(blocked_channels),
            all == strs(blocked_channels@),
            target@ == crate::prefs::channel_key(channel_key@),
            strs(kept@) == entries_without(all.take(i as int), target@),
        decreases blocked_channels.len() - i,
    {
        proof {
            let next = all.take(i + 1);
            assert(next.drop_last() =~= all.take(i as int));
            assert(next.last() == blocked_channels@[i as int]@);
        }
        let parts = parse_block_entry(blocked_channels[i].as_str());
        let here = chars_of(parts.0.as_str());
        if !chars_eq(&here, &target) {
            let ghost before = kept@;
            kept.push(blocked_channels[i].clone());
            assert(strs(kept@) =~= strs(before).push(blocked_channels@[i as int]@));
        }
        i += 1;
    }
    assert(all.take(i as int) =~= all);
    proof {
        lemma_entries_without(all, target@);
    }
    if kept.len() != blocked_channels.len() {
        *blocked_channels = kept;
        normalize_block_list(blocked_channels);
        true
    } else {
        false
    }
}

/// Sorting newest first is the order in which a run hands its videos on.
pub proof fn lemma_newest_is_run_order(videos: Seq<VideoView>)
    ensures
        sorted_by(ResultSort::Newest, videos) == crate::aggregate::newest_first(videos),
    decreases videos.len(),
{
    if videos.len() > 0 {
        lemma_newest_is_run_order(videos.drop_last());
        lemma_insert_newest(crate::aggregate::newest_first(videos.drop_last()), videos.last());
    }
}

proof fn lemma_insert_newest(sorted: Seq<VideoView>, v: VideoView)
    ensures
        insert_by(ResultSort::Newest, sorted, v) == crate::aggregate::insert_newest_first(sorted, v),
    decreases sorted.len(),
{
    if sorted.len() > 0 {
        lemma_insert_newest(sorted.drop_last(), v);
    }
}

// ---------------------------------------------------------------------------
// Status lines and selection
// ---------------------------------------------------------------------------

/// The line that sums up a run: how many searches and pages, and how many
/// videos were seen, were distinct, passed the filters, are kept and were
/// skipped as duplicates within or across searches.
pub open spec fn run_status_text(o: crate::aggregate::OutcomeView, kept: nat) -> Seq<char> {
    "Ran "@ + decimal(o.presets_ran) + " preset(s) across "@ + decimal(o.pages_fetched)
        + " page(s); raw "@ + decimal(o.raw_items) + ", unique "@ + decimal(o.unique_ids)
        + ", passed "@ + decimal(o.passed_filters) + ", kept "@ + decimal(kept) + " (skipped "@
        + decimal(o.duplicates_within_presets + o.duplicates_across_presets) + " duplicates)."@
}

/// The line that sums up a run.
pub fn run_status_line(outcome: &SearchOutcome, kept: usize) -> (r: String)
    ensures
        r@ == run_status_text(outcome@, kept as nat),
{
    let skipped: u128 = outcome.duplicates_within_presets as u128
        + outcome.duplicates_across_presets as u128;
    let mut text = chars_of("Ran ");
    push_all(&mut text, &decimal_chars(outcome.presets_ran as u128));
    push_all(&mut text, &chars_of(" preset(s) across "));
    push_all(&mut text, &decimal_chars(outcome.pages_fetched as u128));
    push_all(&mut text, &chars_of(" page(s); raw "));
    push_all(&mut text, &decimal_chars(outcome.raw_items as u128));
    push_all(&mut text, &chars_of(", unique "));
    push_all(&mut text, &decimal_chars(outcome.unique_ids as u128));
    push_all(&mut text, &chars_of(", passed "));
    push_all(&mut text, &decimal_chars(outcome.passed_filters as u128));
    push_all(&mut text, &chars_of(", kept "));
    push_all(&mut text, &decimal_chars(kept as u128));
    push_all(&mut text, &chars_of(" (skipped "));
    push_all(&mut text, &decimal_chars(skipped));
    push_all(&mut text, &chars_of(" duplicates)."));
    assert(text@ =~= run_status_text(outcome@, kept as nat));
    string_of(&text)
}

/// The line shown for a run that failed.
pub fn failure_status_line(cause: &str) -> (r: String)
    ensures
        r@ == "Search failed: "@ + cause@,
{
    let mut text = "Search failed: ".to_owned();
    text.append(cause);
    text
}

/// The line shown for results that were kept from an earlier run.
pub open spec fn cached_status_text(generated_at: Seq<char>, count: nat) -> Seq<char> {
    if count == 0 {
        "Cached "@ + generated_at + " · no videos"@
    } else if count == 1 {
        "Cached "@ + generated_at + " · "@ + decimal(count) + " video"@
    } else {
        "Cached "@ + generated_at + " · "@ + decimal(count) + " videos"@
    }
}

/// The line shown for results that were kept from an earlier run.
pub fn cached_status_line(generated_at: &str, count: usize) -> (r: String)
    ensures
        r@ == cached_status_text(generated_at@, count as nat),
{
    let mut text = "Cached ".to_owned();
    text.append(generated_at);
    if count == 0 {
        text.append(" · no videos");
    } else {
        text.append(" · ");
        let digits = string_of(&decimal_chars(count as u128));
        text.append(digits.as_str());
        if count == 1 {
            text.append(" video");
        } else {
            text.append(" videos");
        }
    }
    text
}

/// The selection made valid: a selection that names no search, and no
/// selection at all, give way to the first search, if there is one.
pub open spec fn valid_selection(
    searches: Seq<MySearchView>,
    selected: Option<Seq<char>>,
) -> Option<Seq<char>> {
    let kept = match selected {
        Some(id) => search_index(searches, id) is Some,
        None => false,
    };
    if kept {
        selected
    } else if searches.len() > 0 {
        Some(searches[0].id)
    } else {
        None
    }
}

/// Makes the selection valid.
pub fn validate_selection(searches: &Vec<MySearch>, selected_search_id: Option<String>) -> (r:
    Option<String>)
    ensures
        opt_str(r) == valid_selection(search_views(searches@), opt_str(selected_search_id)),
{
    let kept = match &selected_search_id {
        Some(id) => find_search(searches, id).is_some(),
        None => false,
    };
    if kept {
        selected_search_id
    } else if searches.len() > 0 {
        assert(search_views(searches@)[0] == searches@[0]@);
        Some(searches[0].id.clone())
    } else {
        None
    }
}

} // verus!
