//! Channel metadata enrichment: which channels to look up, in which
//! batches, and what the answers add to the videos. A lookup that fails
//! simply contributes no answer.

use vstd::prelude::*;
use vstd::string::*;
use crate::text::{
    chars_blank, chars_eq, chars_lt, chars_of, is_blank, lemma_lex_irreflexive, lemma_lex_total,
    lemma_lex_transitive, lex_lt, opt_str, string_of, strs, trim, trim_chars,
};
use crate::types::{video_views, ChannelItem, VideoDetails, VideoView};

verus! {

/// The most channel ids that one lookup takes.
pub const CHANNEL_BATCH_SIZE: usize = 50;

// ---------------------------------------------------------------------------
// Which channels to look up
// ---------------------------------------------------------------------------

/// `sorted` with `s` put in ascending order, unless it is there already.
pub open spec fn insert_sorted(sorted: Seq<Seq<char>>, s: Seq<char>) -> Seq<Seq<char>>
    decreases sorted.len(),
{
    if sorted.len() == 0 {
        seq![s]
    } else if sorted.last() == s {
        sorted
    } else if lex_lt(sorted.last(), s) {
        sorted.push(s)
    } else {
        insert_sorted(sorted.drop_last(), s).push(sorted.last())
    }
}

/// The channel ids to look up for the given channel ids of videos: those
/// that are not blank, each once, in ascending order.
pub open spec fn lookup_ids(handles: Seq<Seq<char>>) -> Seq<Seq<char>>
    decreases handles.len(),
{
    if handles.len() == 0 {
        Seq::empty()
    } else if is_blank(handles.last()) {
        lookup_ids(handles.drop_last())
    } else {
        insert_sorted(lookup_ids(handles.drop_last()), handles.last())
    }
}

/// Strictly ascending, hence without repetition.
pub open spec fn strictly_ascending(s: Seq<Seq<char>>) -> bool {
    forall|i: int, j: int| 0 <= i < j < s.len() ==> lex_lt(#[trigger] s[i], #[trigger] s[j])
}

/// The channel ids of the videos, one for one.
pub open spec fn handles_of(videos: Seq<VideoView>) -> Seq<Seq<char>> {
    Seq::new(videos.len(), |i: int| videos[i].channel_handle)
}

/// Inserting keeps the list strictly ascending; afterwards it holds what it
/// held and the new string, and nothing else.
pub proof fn lemma_insert_sorted(sorted: Seq<Seq<char>>, s: Seq<char>)
    requires
        strictly_ascending(sorted),
    ensures
        strictly_ascending(insert_sorted(sorted, s)),
        insert_sorted(sorted, s).contains(s),
        forall|x: Seq<char>| #[trigger] sorted.contains(x) ==> insert_sorted(sorted, s).contains(x),
        forall|x: Seq<char>|
            #[trigger] insert_sorted(sorted, s).contains(x) ==> sorted.contains(x) || x == s,
    decreases sorted.len(),
{
    let out = insert_sorted(sorted, s);
    if sorted.len() == 0 {
        assert(out[0] == s);
        assert forall|x: Seq<char>| #[trigger] out.contains(x) implies sorted.contains(x) || x
            == s by {
            let i = choose|i: int| 0 <= i < out.len() && out[i] == x;
        }
        assert forall|x: Seq<char>| #[trigger] sorted.contains(x) implies out.contains(x) by {
            let i = choose|i: int| 0 <= i < sorted.len() && sorted[i] == x;
        }
    } else if sorted.last() == s {
        assert(sorted[sorted.len() - 1] == s);
    } else if lex_lt(sorted.last(), s) {
        assert forall|i: int, j: int| 0 <= i < j < out.len() implies lex_lt(
            #[trigger] out[i],
            #[trigger] out[j],
        ) by {
            if j == out.len() - 1 {
                if i < sorted.len() - 1 {
                    assert(lex_lt(sorted[i], sorted[sorted.len() - 1]));
                    lemma_lex_transitive(sorted[i], sorted.last(), s);
                }
            } else {
                assert(lex_lt(sorted[i], sorted[j]));
            }
        }
        assert(out[out.len() - 1] == s);
        assert forall|x: Seq<char>| #[trigger] out.contains(x) implies sorted.contains(x) || x
            == s by {
            let i = choose|i: int| 0 <= i < out.len() && out[i] == x;
            if i < sorted.len() {
                assert(sorted[i] == x);
            }
        }
        assert forall|x: Seq<char>| #[trigger] sorted.contains(x) implies out.contains(x) by {
            let i = choose|i: int| 0 <= i < sorted.len() && sorted[i] == x;
            assert(out[i] == x);
        }
    } else {
        let pre = sorted.drop_last();
        let last = sorted.last();
        assert(strictly_ascending(pre)) by {
            assert forall|i: int, j: int| 0 <= i < j < pre.len() implies lex_lt(
                #[trigger] pre[i],
                #[trigger] pre[j],
            ) by {
                assert(lex_lt(sorted[i], sorted[j]));
            }
        }
        lemma_insert_sorted(pre, s);
        let mid = insert_sorted(pre, s);
        assert(lex_lt(s, last)) by {
            if !lex_lt(s, last) {
                lemma_lex_total(s, last);
            }
        }
        assert forall|i: int, j: int| 0 <= i < j < out.len() implies lex_lt(
            #[trigger] out[i],
            #[trigger] out[j],
        ) by {
            if j == out.len() - 1 {
                assert(out[i] == mid[i]);
                assert(mid.contains(mid[i]));
                if mid[i] != s {
                    assert(pre.contains(mid[i]));
                    let a = choose|a: int| 0 <= a < pre.len() && pre[a] == mid[i];
                    assert(lex_lt(sorted[a], sorted[sorted.len() - 1]));
                }
            } else {
                assert(lex_lt(mid[i], mid[j]));
            }
        }
        assert(out.contains(s)) by {
            let a = choose|a: int| 0 <= a < mid.len() && mid[a] == s;
            assert(out[a] == s);
        }
        assert forall|x: Seq<char>| #[trigger] out.contains(x) implies sorted.contains(x) || x
            == s by {
            let i = choose|i: int| 0 <= i < out.len() && out[i] == x;
            if i < mid.len() {
                assert(mid[i] == x);
                assert(mid.contains(x));
                if x != s {
                    assert(pre.contains(x));
                    let a = choose|a: int| 0 <= a < pre.len() && pre[a] == x;
                    assert(sorted[a] == x);
                }
            } else {
                assert(sorted[sorted.len() - 1] == x);
            }
        }
        assert forall|x: Seq<char>| #[trigger] sorted.contains(x) implies out.contains(x) by {
            let i = choose|i: int| 0 <= i < sorted.len() && sorted[i] == x;
            if i < pre.len() {
                assert(pre[i] == x);
                assert(pre.contains(x));
                assert(mid.contains(x));
                let a = choose|a: int| 0 <= a < mid.len() && mid[a] == x;
                assert(out[a] == x);
            } else {
                assert(out[out.len() - 1] == x);
            }
        }
    }
}

/// The ids to look up are strictly ascending, and they are exactly the
/// channel ids that are not blank.
pub proof fn lemma_lookup_ids(handles: Seq<Seq<char>>)
    ensures
        strictly_ascending(lookup_ids(handles)),
        forall|x: Seq<char>|
            #[trigger] lookup_ids(handles).contains(x) ==> handles.contains(x) && !is_blank(x),
        forall|x: Seq<char>|
            #[trigger] handles.contains(x) && !is_blank(x) ==> lookup_ids(handles).contains(x),
    decreases handles.len(),
{
    let out = lookup_ids(handles);
    if handles.len() > 0 {
        let pre = handles.drop_last();
        let last = handles.last();
        let pre_out = lookup_ids(pre);
        lemma_lookup_ids(pre);
        if !is_blank(last) {
            lemma_insert_sorted(pre_out, last);
        }
        assert(handles[handles.len() - 1] == last);
        assert forall|x: Seq<char>| #[trigger] out.contains(x) implies handles.contains(x)
            && !is_blank(x) by {
            if is_blank(last) || x != last {
                assert(pre_out.contains(x));
                assert(pre.contains(x));
                let i = choose|i: int| 0 <= i < pre.len() && pre[i] == x;
                assert(handles[i] == x);
            }
        }
        assert forall|x: Seq<char>| #[trigger] handles.contains(x) && !is_blank(
            x,
        ) implies out.contains(x) by {
            let i = choose|i: int| 0 <= i < handles.len() && handles[i] == x;
            if i < pre.len() {
                assert(pre[i] == x);
                assert(pre.contains(x));
                assert(pre_out.contains(x));
            }
        }
    } else {
        assert forall|x: Seq<char>| #[trigger] out.contains(x) implies handles.contains(x)
            && !is_blank(x) by {
            let i = choose|i: int| 0 <= i < out.len() && out[i] == x;
        }
        assert forall|x: Seq<char>| #[trigger] handles.contains(x) && !is_blank(
            x,
        ) implies out.contains(x) by {
            let i = choose|i: int| 0 <= i < handles.len() && handles[i] == x;
        }
    }
}

/// Where the scan from the back stops is where `insert_sorted` puts `s`.
proof fn lemma_insert_sorted_position(sorted: Seq<Seq<char>>, s: Seq<char>, p: int)
    requires
        0 <= p <= sorted.len(),
        forall|a: int| p <= a < sorted.len() ==> lex_lt(s, #[trigger] sorted[a]),
        p > 0 ==> !lex_lt(s, sorted[p - 1]),
    ensures
        insert_sorted(sorted, s) == if p > 0 && sorted[p - 1] == s {
            sorted
        } else {
            sorted.insert(p, s)
        },
    decreases sorted.len(),
{
    if sorted.len() == 0 {
        assert(seq![s] =~= sorted.insert(0, s));
    } else if p == sorted.len() {
        let last = sorted.last();
        if last != s {
            if !lex_lt(last, s) {
                lemma_lex_total(last, s);
            }
            assert(sorted.push(s) =~= sorted.insert(p, s));
        }
    } else {
        let last = sorted.last();
        let pre = sorted.drop_last();
        assert(lex_lt(s, sorted[sorted.len() - 1]));
        lemma_lex_irreflexive(s);
        if lex_lt(last, s) {
            lemma_lex_transitive(s, last, s);
        }
        assert forall|a: int| p <= a < pre.len() implies lex_lt(s, #[trigger] pre[a]) by {
            assert(pre[a] == sorted[a]);
        }
        if p > 0 {
            assert(pre[p - 1] == sorted[p - 1]);
        }
        lemma_insert_sorted_position(pre, s, p);
        if p > 0 && sorted[p - 1] == s {
            assert(pre.push(last) =~= sorted);
        } else {
            assert(pre.insert(p, s).push(last) =~= sorted.insert(p, s));
        }
    }
}

/// The channel ids to look up for the given videos.
pub fn channel_ids_to_look_up(videos: &Vec<VideoDetails>) -> (r: Vec<String>)
    ensures
        strs(r@) == lookup_ids(handles_of(video_views(videos@))),
{
    let ghost handles = handles_of(video_views(videos@));
    let mut keys: Vec<Vec<char>> = Vec::new();
    let mut i: usize = 0;
    assert(handles.take(0) =~= Seq::<Seq<char>>::empty());
    while i < videos.len()
        invariant
            i <= videos.len(),
            handles == handles_of(video_views(videos@)),
            keys@.len() == lookup_ids(handles.take(i as int)).len(),
            forall|a: int|
                0 <= a < keys@.len() ==> (#[trigger] keys@[a])@ == lookup_ids(
                    handles.take(i as int),
                )[a],
        decreases videos.len() - i,
    {
        proof {
            let next = handles.take(i + 1);
            assert(next.drop_last() =~= handles.take(i as int));
            assert(next.last() == videos@[i as int]@.channel_handle);
        }
        let ghost sorted = lookup_ids(handles.take(i as int));
        let id = chars_of(videos[i].channel_handle.as_str());
        if !chars_blank(&id) {
            let mut p: usize = keys.len();
            while p > 0 && chars_lt(&id, &keys[p - 1])
                invariant
                    p <= keys@.len(),
                    keys@.len() == sorted.len(),
                    forall|a: int| 0 <= a < keys@.len() ==> (#[trigger] keys@[a])@ == sorted[a],
                    forall|a: int| p <= a < sorted.len() ==> lex_lt(id@, #[trigger] sorted[a]),
                decreases p,
            {
                p -= 1;
            }
            let present = p > 0 && chars_eq(&keys[p - 1], &id);
            proof {
                lemma_insert_sorted_position(sorted, id@, p as int);
            }
            if !present {
                keys.insert(p, id);
            }
        }
        i += 1;
    }
    assert(handles.take(i as int) =~= handles);
    let mut r: Vec<String> = Vec::new();
    let mut k: usize = 0;
    while k < keys.len()
        invariant
            k <= keys.len(),
            r@.len() == k,
            forall|a: int| 0 <= a < k ==> (#[trigger] r@[a])@ == keys@[a]@,
        decreases keys.len() - k,
    {
        r.push(string_of(&keys[k]));
        k += 1;
    }
    assert(strs(r@) =~= lookup_ids(handles));
    r
}

// ---------------------------------------------------------------------------
// Batches
// ---------------------------------------------------------------------------

/// How many batches of at most `size` it takes to hold `n` ids.
pub open spec fn batch_count(n: int, size: int) -> int {
    (n + size - 1) / size
}

/// The `k`-th batch of `ids` in batches of `size`.
pub open spec fn batch(ids: Seq<Seq<char>>, size: int, k: int) -> Seq<Seq<char>> {
    ids.subrange(k * size, if (k + 1) * size <= ids.len() {
        (k + 1) * size
    } else {
        ids.len() as int
    })
}

/// `ids` cut into consecutive batches of `size`, the last one possibly
/// shorter.
pub open spec fn batches(ids: Seq<Seq<char>>, size: int) -> Seq<Seq<Seq<char>>> {
    Seq::new(batch_count(ids.len() as int, size) as nat, |k: int| batch(ids, size, k))
}

/// The views of a list of lists of strings.
pub open spec fn batch_views(v: Seq<Vec<String>>) -> Seq<Seq<Seq<char>>> {
    Seq::new(v.len(), |i: int| strs(v[i]@))
}

/// Cuts the ids into the batches in which they are looked up: consecutive
/// runs of at most fifty, none of them empty.
pub fn id_batches(ids: &Vec<String>) -> (r: Vec<Vec<String>>)
    ensures
        batch_views(r@) == batches(strs(ids@), CHANNEL_BATCH_SIZE as int),
        forall|k: int| 0 <= k < r@.len() ==> 0 < (#[trigger] r@[k])@.len() <= CHANNEL_BATCH_SIZE,
{
    let ghost all = strs(ids@);
    let n = ids.len();
    let mut r: Vec<Vec<String>> = Vec::new();
    let mut start: usize = 0;
    while start < n
        invariant
            n == ids.len(),
            all == strs(ids@),
            start <= n,
            start < n ==> start == r@.len() * 50,
            start == n ==> r@.len() == batch_count(n as int, 50),
            forall|k: int|
                0 <= k < r@.len() ==> strs((#[trigger] r@[k])@) == batch(all, 50, k) && 0
                    < r@[k]@.len() <= 50,
        decreases n - start,
    {
        let end: usize = if n - start > 50 {
            start + 50
        } else {
            n
        };
        let mut chunk: Vec<String> = Vec::new();
        let mut i: usize = start;
        while i < end
            invariant
                start <= i <= end <= n,
                n == ids.len(),
                chunk@.len() == i - start,
                forall|j: int| 0 <= j < chunk@.len() ==> (#[trigger] chunk@[j])@ == ids@[start + j]@,
            decreases end - i,
        {
            chunk.push(ids[i].clone());
            i += 1;
        }
        assert(strs(chunk@) =~= batch(all, 50, r@.len() as int));
        r.push(chunk);
        start = end;
    }
    assert(batch_views(r@) =~= batches(all, 50));
    r
}

// ---------------------------------------------------------------------------
// What the answers add
// ---------------------------------------------------------------------------

/// What a lookup tells of a channel: its trimmed title and its handle.
pub struct ChannelMeta {
    pub title: Seq<char>,
    pub custom: Option<Seq<char>>,
}

/// The handle that a custom address stands for: the trimmed address with an
/// `@` before it unless it has one; none for a blank address.
pub open spec fn custom_handle(url: Option<Seq<char>>) -> Option<Seq<char>> {
    match url {
        Some(u) => {
            let t = trim(u);
            if t.len() == 0 {
                None
            } else if t[0] == '@' {
                Some(t)
            } else {
                Some(seq!['@'] + t)
            }
        },
        None => None,
    }
}

/// What a channel record tells.
pub open spec fn meta_of(item: ChannelItem) -> ChannelMeta {
    ChannelMeta {
        title: trim(item.snippet.title@),
        custom: custom_handle(opt_str(item.snippet.custom_url)),
    }
}

/// What the records tell of the channel with the given id: where several
/// records have the id, the last one counts.
pub open spec fn meta_for(items: Seq<ChannelItem>, id: Seq<char>) -> Option<ChannelMeta>
    decreases items.len(),
{
    if items.len() == 0 {
        None
    } else if items.last().id@ == id {
        Some(meta_of(items.last()))
    } else {
        meta_for(items.drop_last(), id)
    }
}

/// A video with what is known of its channel filled in. A title from the
/// lookup becomes the display name unless it is empty, a handle from the
/// lookup the custom address. Where there is still no display name, the
/// video's own channel title serves unless it is blank; where there is
/// still no custom address, the channel id serves if it starts with `@`.
pub open spec fn enriched(v: VideoView, meta: Option<ChannelMeta>) -> VideoView {
    let name = match meta {
        Some(m) => if m.title.len() > 0 {
            Some(m.title)
        } else {
            v.channel_display_name
        },
        None => v.channel_display_name,
    };
    let custom = match meta {
        Some(m) => match m.custom {
            Some(h) => Some(h),
            None => v.channel_custom_url,
        },
        None => v.channel_custom_url,
    };
    VideoView {
        channel_display_name: if name is None && !is_blank(v.channel_title) {
            Some(v.channel_title)
        } else {
            name
        },
        channel_custom_url: if custom is None && v.channel_handle.len() > 0 && v.channel_handle[0]
            == '@' {
            Some(v.channel_handle)
        } else {
            custom
        },
        ..v
    }
}

/// The videos, each with what the records tell of its channel filled in.
pub open spec fn enriched_all(videos: Seq<VideoView>, items: Seq<ChannelItem>) -> Seq<VideoView> {
    Seq::new(videos.len(), |i: int| enriched(videos[i], meta_for(items, videos[i].channel_handle)))
}

/// Enrichment touches nothing but the display name and the custom address,
/// and never takes either away.
pub proof fn lemma_enriched(v: VideoView, meta: Option<ChannelMeta>)
    ensures
        enriched(v, meta) == (VideoView {
            channel_display_name: enriched(v, meta).channel_display_name,
            channel_custom_url: enriched(v, meta).channel_custom_url,
            ..v
        }),
        v.channel_display_name is Some ==> enriched(v, meta).channel_display_name is Some,
        v.channel_custom_url is Some ==> enriched(v, meta).channel_custom_url is Some,
        !is_blank(v.channel_title) ==> enriched(v, meta).channel_display_name is Some,
        meta is None ==> enriched(v, meta).channel_display_name == if v.channel_display_name
            is None && !is_blank(v.channel_title) {
            Some(v.channel_title)
        } else {
            v.channel_display_name
        },
{
}

/// The last record with the given id, if there is one.
fn find_meta(items: &Vec<ChannelItem>, id: &String) -> (r: Option<usize>)
    ensures
        match r {
            Some(i) => i < items@.len() && meta_for(items@, id@) == Some(meta_of(items@[i as int])),
            None => meta_for(items@, id@) is None,
        },
{
    let mut i: usize = items.len();
    assert(items@.subrange(0, i as int) =~= items@);
    while i > 0
        invariant
            i <= items.len(),
            meta_for(items@, id@) == meta_for(items@.subrange(0, i as int), id@),
        decreases i,
    {
        proof {
            let cur = items@.subrange(0, i as int);
            assert(cur.last() == items@[i - 1]);
            assert(cur.drop_last() =~= items@.subrange(0, i - 1));
        }
        if items[i - 1].id == *id {
            return Some(i - 1);
        }
        i -= 1;
    }
    None
}

/// The handle that a custom address stands for.
fn custom_handle_of(url: &Option<String>) -> (r: Option<String>)
    ensures
        opt_str(r) == custom_handle(opt_str(*url)),
{
    match url {
        Some(u) => {
            let raw = chars_of(u.as_str());
            let t = trim_chars(&raw);
            if t.len() == 0 {
                None
            } else if t[0] == '@' {
                Some(string_of(&t))
            } else {
                let mut h: Vec<char> = Vec::new();
                h.push('@');
                crate::text::push_all(&mut h, &t);
                assert(h@ =~= seq!['@'] + t@);
                Some(string_of(&h))
            }
        },
        None => None,
    }
}

/// Fills in, for every video, what the channel records tell of its channel,
/// and falls back on the video's own channel title and channel id.
pub fn apply_channel_metadata(videos: &mut Vec<VideoDetails>, items: &Vec<ChannelItem>)
    ensures
        video_views(final(videos)@) == enriched_all(video_views(old(videos)@), items@),
{
    let ghost before = video_views(videos@);
    let mut out: Vec<VideoDetails> = Vec::new();
    let mut i: usize = 0;
    while i < videos.len()
        invariant
            i <= videos.len(),
            *videos == *old(videos),
            before == video_views(videos@),
            out@.len() == i,
            forall|j: int|
                0 <= j < i ==> (#[trigger] out@[j])@ == enriched(
                    before[j],
                    meta_for(items@, before[j].channel_handle),
                ),
        decreases videos.len() - i,
    {
        let mut video = videos[i].clone();
        assert(video@ == before[i as int]);
        let ghost plain = video@;
        if let Some(k) = find_meta(items, &video.channel_handle) {
            let title = crate::text::trimmed(items[k].snippet.title.as_str());
            if !title.as_str().is_empty() {
                video.channel_display_name = Some(title);
            }
            if let Some(handle) = custom_handle_of(&items[k].snippet.custom_url) {
                video.channel_custom_url = Some(handle);
            }
        }
        if video.channel_display_name.is_none() && !crate::text::str_blank(
            video.channel_title.as_str(),
        ) {
            video.channel_display_name = Some(video.channel_title.clone());
        }
        if video.channel_custom_url.is_none() {
            let handle = chars_of(video.channel_handle.as_str());
            if handle.len() > 0 && handle[0] == '@' {
                video.channel_custom_url = Some(video.channel_handle.clone());
            }
        }
        assert(video@ == enriched(plain, meta_for(items@, plain.channel_handle)));
        out.push(video);
        i += 1;
    }
    assert(video_views(out@) =~= enriched_all(before, items@));
    *videos = out;
}

} // verus!
