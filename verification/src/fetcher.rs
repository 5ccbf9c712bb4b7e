//! The paginated fetcher of one search: which page to ask for next, what to
//! make of each page of ids and of each batch of details, and when to stop.
//! The requests themselves are made by the caller, who hands the answers in.

use vstd::prelude::*;
use vstd::string::*;
use crate::enrich::{
    apply_channel_metadata, batch_views, batches, channel_ids_to_look_up, enriched_all, handles_of,
    id_batches, lookup_ids, CHANNEL_BATCH_SIZE,
};
use crate::error::{ErrorView, PipelineError};
use crate::filters::{iso8601_seconds, matches_post_filters, parse_iso8601_duration, passes_post_filters};
use crate::prefs::{
    clone_opt_string, list_has, opt_window, GlobalPrefs, GlobalPrefsView, MySearch, MySearchView,
    TimeWindow, TimeWindowView,
};
use crate::query::{build_query_params, param_views, query_params, query_usable, ParamView};
use crate::text::{
    all_digits, ascii_lower, chars_of, digits_value, is_digit, lower_chars, opt_str, string_of,
    strs, trim, trim_chars,
};
use crate::types::{
    video_views, ChannelItem, SearchItem, SearchListResponse, VideoDetails, VideoItem, VideoView,
    VideosListResponse,
};

verus! {

/// The number of pages fetched for one search unless told otherwise.
pub const DEFAULT_MAX_SEARCH_PAGES: usize = 4;

// ---------------------------------------------------------------------------
// The page cap
// ---------------------------------------------------------------------------

/// The number that a text denotes as an unsigned decimal numeral: decimal
/// digits, at least one, after at most one `+`.
pub open spec fn unsigned_value(s: Seq<char>) -> Option<nat> {
    let digits = if s.len() > 0 && s[0] == '+' {
        s.drop_first()
    } else {
        s
    };
    if digits.len() > 0 && all_digits(digits) {
        Some(digits_value(digits))
    } else {
        None
    }
}

/// The page cap that an override text asks for: its number, once trimmed,
/// if that lies between 1 and 10; in every other case the default.
pub open spec fn page_cap(text: Option<Seq<char>>) -> nat {
    match text {
        Some(t) => match unsigned_value(trim(t)) {
            Some(n) => if 1 <= n <= 10 {
                n
            } else {
                DEFAULT_MAX_SEARCH_PAGES as nat
            },
            None => DEFAULT_MAX_SEARCH_PAGES as nat,
        },
        None => DEFAULT_MAX_SEARCH_PAGES as nat,
    }
}

proof fn lemma_digits_value_grows(s: Seq<char>, c: char)
    requires
        is_digit(c),
    ensures
        digits_value(s.push(c)) == digits_value(s) * 10 + (c as u8 - 48),
        digits_value(s.push(c)) >= digits_value(s),
{
    assert(s.push(c).drop_last() =~= s);
}

/// The page cap in force, given the text of an override if there is one.
/// The cap is always at least 1 and at most 10.
pub fn max_search_pages(override_text: Option<&str>) -> (r: usize)
    ensures
        r == page_cap(
            match override_text {
                Some(t) => Some(t@),
                None => None,
            },
        ),
        1 <= r <= 10,
{
    let text = match override_text {
        Some(t) => t,
        None => {
            return DEFAULT_MAX_SEARCH_PAGES;
        },
    };
    let raw = chars_of(text);
    let t = trim_chars(&raw);
    let start: usize = if t.len() > 0 && t[0] == '+' {
        1
    } else {
        0
    };
    let ghost digits = if start == 1 {
        t@.drop_first()
    } else {
        t@
    };
    assert(digits =~= t@.subrange(start as int, t.len() as int));
    if start >= t.len() {
        return DEFAULT_MAX_SEARCH_PAGES;
    }
    let ghost cap = page_cap(Some(text@));
    assert(unsigned_value(t@) == if all_digits(digits) {
        Some(digits_value(digits))
    } else {
        None
    });
    let mut val: usize = 0;
    let mut i: usize = start;
    assert(digits.take(0) =~= Seq::<char>::empty());
    while i < t.len()
        invariant
            start <= i <= t.len(),
            digits == t@.subrange(start as int, t.len() as int),
            override_text matches Some(x) && x@ == text@,
            cap == page_cap(Some(text@)),
            !all_digits(digits) ==> cap == DEFAULT_MAX_SEARCH_PAGES,
            all_digits(digits) ==> cap == if 1 <= digits_value(digits) <= 10 {
                digits_value(digits)
            } else {
                DEFAULT_MAX_SEARCH_PAGES as nat
            },
            all_digits(digits.take(i - start)),
            val <= 11,
            val < 11 ==> val == digits_value(digits.take(i - start)),
            val == 11 ==> digits_value(digits.take(i - start)) >= 11,
        decreases t.len() - i,
    {
        let c = t[i];
        assert(digits[i - start] == c);
        if !(c >= '0' && c <= '9') {
            assert(!all_digits(digits));
            return DEFAULT_MAX_SEARCH_PAGES;
        }
        proof {
            let prev = digits.take(i - start);
            lemma_digits_value_grows(prev, c);
            assert(prev.push(c) =~= digits.take(i - start + 1));
            assert forall|k: int| 0 <= k < i - start + 1 implies is_digit(
                #[trigger] digits.take(i - start + 1)[k],
            ) by {
                if k < i - start {
                    assert(prev[k] == digits.take(i - start + 1)[k]);
                }
            }
        }
        let d: usize = (c as u8 - 48) as usize;
        let next: usize = val * 10 + d;
        val = if next > 11 {
            11
        } else {
            next
        };
        i += 1;
    }
    assert(digits.take(i - start) =~= digits);
    if 1 <= val && val <= 10 {
        val
    } else {
        DEFAULT_MAX_SEARCH_PAGES
    }
}

// ---------------------------------------------------------------------------
// From a service record to a video
// ---------------------------------------------------------------------------

/// The address of the thumbnail that a video record offers.
pub open spec fn thumbnail_of(item: VideoItem) -> Option<Seq<char>> {
    match item.snippet.thumbnails {
        Some(thumbs) => match thumbs.medium {
            Some(thumb) => Some(thumb.url@),
            None => None,
        },
        None => None,
    }
}

/// The video that a service record stands for. A duration that is not of
/// the accepted form counts as zero seconds. Nothing is known yet of the
/// channel's display name, its custom address or English captions, and no
/// search has claimed the video.
pub open spec fn mapped_video(item: VideoItem) -> VideoView {
    VideoView {
        id: item.id@,
        title: item.snippet.title@,
        title_lower: ascii_lower(item.snippet.title@),
        channel_title: item.snippet.channel_title@,
        channel_handle: item.snippet.channel_id@,
        channel_display_name: None,
        channel_custom_url: None,
        published_at: item.snippet.published_at@,
        duration_secs: match iso8601_seconds(item.content_details.duration@) {
            Some(n) => n,
            None => 0,
        },
        default_audio_lang: opt_str(item.snippet.default_audio_language),
        default_lang: opt_str(item.snippet.default_language),
        thumbnail_url: thumbnail_of(item),
        url: "https://www.youtube.com/watch?v="@ + item.id@,
        has_caption_lang_en: None,
        source_presets: Seq::empty(),
    }
}

/// Turns a service record into a video.
pub fn map_video_item(item: &VideoItem) -> (r: VideoDetails)
    ensures
        r@ == mapped_video(*item),
{
    let thumbnail_url = match &item.snippet.thumbnails {
        Some(thumbs) => match &thumbs.medium {
            Some(thumb) => Some(thumb.url.clone()),
            None => None,
        },
        None => None,
    };
    let title_chars = chars_of(item.snippet.title.as_str());
    let lowered = lower_chars(&title_chars);
    let duration_secs = match parse_iso8601_duration(item.content_details.duration.as_str()) {
        Some(n) => n,
        None => 0,
    };
    let mut url = "https://www.youtube.com/watch?v=".to_owned();
    url.append(item.id.as_str());
    let source_presets: Vec<String> = Vec::new();
    assert(strs(source_presets@) =~= Seq::<Seq<char>>::empty());
    VideoDetails {
        id: item.id.clone(),
        title: item.snippet.title.clone(),
        title_lower: string_of(&lowered),
        channel_title: item.snippet.channel_title.clone(),
        channel_handle: item.snippet.channel_id.clone(),
        channel_display_name: None,
        channel_custom_url: None,
        published_at: item.snippet.published_at.clone(),
        duration_secs,
        default_audio_lang: clone_opt_string(&item.snippet.default_audio_language),
        default_lang: clone_opt_string(&item.snippet.default_language),
        thumbnail_url,
        url,
        has_caption_lang_en: None,
        source_presets,
    }
}

// ---------------------------------------------------------------------------
// The state of one fetch
// ---------------------------------------------------------------------------

/// What one fetch has brought: the videos kept and the counts.
#[derive(Debug)]
pub struct SingleSearchOutcome {
    pub videos: Vec<VideoDetails>,
    pub pages_fetched: usize,
    pub duplicates_within: usize,
    pub raw_items: usize,
    pub unique_ids: usize,
}

/// Mathematical content of a [`SingleSearchOutcome`].
pub struct SingleOutcomeView {
    pub videos: Seq<VideoView>,
    pub pages_fetched: nat,
    pub duplicates_within: nat,
    pub raw_items: nat,
    pub unique_ids: nat,
}

impl View for SingleSearchOutcome {
    type V = SingleOutcomeView;

    open spec fn view(&self) -> SingleOutcomeView {
        SingleOutcomeView {
            videos: video_views(self.videos@),
            pages_fetched: self.pages_fetched as nat,
            duplicates_within: self.duplicates_within as nat,
            raw_items: self.raw_items as nat,
            unique_ids: self.unique_ids as nat,
        }
    }
}

/// What a page asks for once it has been taken in.
#[derive(Debug, PartialEq)]
pub enum PageStep {
    /// Look up the details of these ids.
    LookUp(Vec<String>),
    /// The page brought no new id: there is nothing to look up.
    Skip,
}

/// What is left to do once no further page is asked for.
#[derive(Debug, PartialEq)]
pub enum ClosingStep {
    /// Look up the channels of the videos kept, in these batches, and hand
    /// in the records of the lookups that succeed.
    Enrich(Vec<Vec<String>>),
    /// No video was kept: nothing is left to do.
    Finish,
}

/// The fetch of one search in progress.
#[derive(Debug)]
pub struct FetchState {
    pub base_params: Vec<(&'static str, String)>,
    pub page_token: Option<String>,
    pub exhausted: bool,
    pub pages_fetched: usize,
    pub max_pages: usize,
    pub duplicates_within: usize,
    pub seen_ids: Vec<String>,
    pub collected: Vec<VideoDetails>,
    pub raw_items: usize,
    pub unique_ids: usize,
}

/// Mathematical content of a [`FetchState`].
pub struct FetchView {
    pub base_params: Seq<ParamView>,
    pub page_token: Option<Seq<char>>,
    pub exhausted: bool,
    pub pages_fetched: nat,
    pub max_pages: nat,
    pub duplicates_within: nat,
    pub seen_ids: Seq<Seq<char>>,
    pub collected: Seq<VideoView>,
    pub raw_items: nat,
    pub unique_ids: nat,
}

/// What a page of ids does to the ids seen: the ids seen afterwards, those
/// of the page that were new, in order, and how many were not.
pub struct PageScan {
    pub seen: Seq<Seq<char>>,
    pub fresh: Seq<Seq<char>>,
    pub duplicates: nat,
}

/// Goes through the ids of a page in order. An item without an id is
/// passed over; an id seen before, in an earlier page or earlier in this
/// one, counts as a duplicate; any other id is new.
pub open spec fn scan_ids(seen: Seq<Seq<char>>, ids: Seq<Option<Seq<char>>>) -> PageScan
    decreases ids.len(),
{
    if ids.len() == 0 {
        PageScan { seen, fresh: Seq::empty(), duplicates: 0 }
    } else {
        let pre = scan_ids(seen, ids.drop_last());
        match ids.last() {
            None => pre,
            Some(id) => if pre.seen.contains(id) {
                PageScan { duplicates: pre.duplicates + 1, ..pre }
            } else {
                PageScan { seen: pre.seen.push(id), fresh: pre.fresh.push(id), ..pre }
            },
        }
    }
}

/// The video ids of the items of a page, one for one.
pub open spec fn page_ids(items: Seq<SearchItem>) -> Seq<Option<Seq<char>>> {
    Seq::new(items.len(), |i: int| opt_str(items[i].id.video_id))
}

/// The videos of a batch of details that pass the post-filter, each claimed
/// by the search.
pub open spec fn kept_videos(
    items: Seq<VideoItem>,
    global: GlobalPrefsView,
    search: MySearchView,
    blocked: Seq<Seq<char>>,
) -> Seq<VideoView>
    decreases items.len(),
{
    if items.len() == 0 {
        Seq::empty()
    } else {
        let pre = kept_videos(items.drop_last(), global, search, blocked);
        let video = mapped_video(items.last());
        if passes_post_filters(video, global, search, blocked) {
            pre.push(VideoView { source_presets: seq![search.name], ..video })
        } else {
            pre
        }
    }
}

/// The parameters that every page request of a search carries: those of the
/// query, the window where there is one, newest first, 25 to a page.
pub open spec fn base_params(
    global: GlobalPrefsView,
    search: MySearchView,
    window: Option<TimeWindowView>,
) -> Seq<ParamView> {
    query_params(global, search) + (match window {
        Some(w) => seq![
            ParamView { key: "publishedAfter"@, value: w.start_rfc3339 },
            ParamView { key: "publishedBefore"@, value: w.end_rfc3339 },
        ],
        None => Seq::empty(),
    }) + seq![
        ParamView { key: "order"@, value: "date"@ },
        ParamView { key: "maxResults"@, value: "25"@ },
    ]
}

impl FetchView {
    /// The state's counts agree with each other: no id was seen twice, every
    /// id seen was counted once, and no more ids were counted than items
    /// came in.
    pub open spec fn wf(self) -> bool {
        &&& self.seen_ids.no_duplicates()
        &&& self.unique_ids == self.seen_ids.len()
        &&& self.unique_ids + self.duplicates_within <= self.raw_items
    }

    /// Whether another page is to be asked for: the listing is not
    /// exhausted and the page cap is not reached.
    pub open spec fn wants_page(self) -> bool {
        !self.exhausted && self.pages_fetched < self.max_pages
    }

    /// The parameters of the next page request.
    pub open spec fn page_params(self) -> Seq<ParamView> {
        match self.page_token {
            Some(t) => self.base_params.push(ParamView { key: "pageToken"@, value: t }),
            None => self.base_params,
        }
    }

    /// The state after a page with the given ids and continuation token.
    pub open spec fn after_page(
        self,
        ids: Seq<Option<Seq<char>>>,
        next: Option<Seq<char>>,
    ) -> FetchView {
        let scan = scan_ids(self.seen_ids, ids);
        FetchView {
            pages_fetched: self.pages_fetched + 1,
            raw_items: self.raw_items + ids.len(),
            duplicates_within: self.duplicates_within + scan.duplicates,
            seen_ids: scan.seen,
            unique_ids: self.unique_ids + scan.fresh.len(),
            page_token: match next {
                Some(t) => Some(t),
                None => self.page_token,
            },
            exhausted: next is None,
            ..self
        }
    }

    /// What the fetch has brought so far.
    pub open spec fn outcome(self) -> SingleOutcomeView {
        SingleOutcomeView {
            videos: self.collected,
            pages_fetched: self.pages_fetched,
            duplicates_within: self.duplicates_within,
            raw_items: self.raw_items,
            unique_ids: self.unique_ids,
        }
    }
}

/// The state in which the fetch of a search begins.
pub open spec fn initial_fetch(
    global: GlobalPrefsView,
    search: MySearchView,
    window: Option<TimeWindowView>,
    max_pages: nat,
) -> FetchView {
    FetchView {
        base_params: base_params(global, search, window),
        page_token: None,
        exhausted: false,
        pages_fetched: 0,
        max_pages,
        duplicates_within: 0,
        seen_ids: Seq::empty(),
        collected: Seq::empty(),
        raw_items: 0,
        unique_ids: 0,
    }
}

/// A scan keeps the ids distinct, keeps those that were there, and accounts
/// for every id of the page once.
pub proof fn lemma_scan_ids(seen: Seq<Seq<char>>, ids: Seq<Option<Seq<char>>>)
    requires
        seen.no_duplicates(),
    ensures
        scan_ids(seen, ids).seen.no_duplicates(),
        scan_ids(seen, ids).seen == seen + scan_ids(seen, ids).fresh,
        scan_ids(seen, ids).fresh.len() + scan_ids(seen, ids).duplicates <= ids.len(),
        forall|i: int|
            0 <= i < ids.len() && (#[trigger] ids[i]) is Some ==> scan_ids(seen, ids).seen.contains(
                ids[i]->0,
            ),
        forall|k: int|
            0 <= k < scan_ids(seen, ids).fresh.len() ==> !seen.contains(
                #[trigger] scan_ids(seen, ids).fresh[k],
            ),
    decreases ids.len(),
{
    let out = scan_ids(seen, ids);
    if ids.len() == 0 {
        assert(out.seen =~= seen + out.fresh);
    } else {
        let pre_ids = ids.drop_last();
        let pre = scan_ids(seen, pre_ids);
        lemma_scan_ids(seen, pre_ids);
        assert(out.seen =~= seen + out.fresh);
        assert forall|i: int| 0 <= i < ids.len() && (#[trigger] ids[i]) is Some implies out.seen.contains(
            ids[i]->0,
        ) by {
            if i < pre_ids.len() {
                assert(pre_ids[i] == ids[i]);
                let j = choose|j: int| 0 <= j < pre.seen.len() && pre.seen[j] == ids[i]->0;
                assert(out.seen[j] == ids[i]->0);
            } else {
                let id = ids[i]->0;
                if pre.seen.contains(id) {
                } else {
                    assert(out.seen[out.seen.len() - 1] == id);
                }
            }
        }
        assert forall|k: int| 0 <= k < out.fresh.len() implies !seen.contains(
            #[trigger] out.fresh[k],
        ) by {
            if k < pre.fresh.len() {
                assert(pre.fresh[k] == out.fresh[k]);
            } else {
                let id = ids.last()->0;
                if seen.contains(id) {
                    let j = choose|j: int| 0 <= j < seen.len() && seen[j] == id;
                    assert(pre.seen[j] == id);
                }
            }
        }
    }
}

impl View for FetchState {
    type V = FetchView;

    open spec fn view(&self) -> FetchView {
        FetchView {
            base_params: param_views(self.base_params@),
            page_token: opt_str(self.page_token),
            exhausted: self.exhausted,
            pages_fetched: self.pages_fetched as nat,
            max_pages: self.max_pages as nat,
            duplicates_within: self.duplicates_within as nat,
            seen_ids: strs(self.seen_ids@),
            collected: video_views(self.collected@),
            raw_items: self.raw_items as nat,
            unique_ids: self.unique_ids as nat,
        }
    }
}

impl FetchState {
    /// Begins the fetch of `search`, to be run with `window` and at most
    /// `max_pages` pages. A search that cannot be submitted is refused.
    pub fn start(
        global: &GlobalPrefs,
        search: &MySearch,
        window: Option<TimeWindow>,
        max_pages: usize,
    ) -> (r: Result<FetchState, PipelineError>)
        ensures
            r is Ok <==> query_usable(search@.query),
            r matches Ok(state) ==> state@ == initial_fetch(
                global@,
                search@,
                opt_window(window),
                max_pages as nat,
            ) && state@.wf(),
            r matches Err(e) ==> e == PipelineError::EmptyQuery,
    {
        let mut params = match build_query_params(global, search) {
            Ok(p) => p,
            Err(e) => {
                return Err(e);
            },
        };
        let ghost query = param_views(params@);
        if let Some(w) = window {
            let ghost before = params@;
            params.push(("publishedAfter", w.start_rfc3339));
            params.push(("publishedBefore", w.end_rfc3339));
            assert(param_views(params@) =~= param_views(before) + seq![
                ParamView { key: "publishedAfter"@, value: w@.start_rfc3339 },
                ParamView { key: "publishedBefore"@, value: w@.end_rfc3339 },
            ]);
        }
        let ghost windowed = param_views(params@);
        assert(windowed =~= query + (match opt_window(window) {
            Some(w) => seq![
                ParamView { key: "publishedAfter"@, value: w.start_rfc3339 },
                ParamView { key: "publishedBefore"@, value: w.end_rfc3339 },
            ],
            None => Seq::empty(),
        }));
        let ghost before = params@;
        params.push(("order", "date".to_owned()));
        params.push(("maxResults", "25".to_owned()));
        assert(param_views(params@) =~= param_views(before) + seq![
            ParamView { key: "order"@, value: "date"@ },
            ParamView { key: "maxResults"@, value: "25"@ },
        ]);
        let state = FetchState {
            base_params: params,
            page_token: None,
            exhausted: false,
            pages_fetched: 0,
            max_pages,
            duplicates_within: 0,
            seen_ids: Vec::new(),
            collected: Vec::new(),
            raw_items: 0,
            unique_ids: 0,
        };
        assert(strs(state.seen_ids@) =~= Seq::<Seq<char>>::empty());
        assert(video_views(state.collected@) =~= Seq::<VideoView>::empty());
        Ok(state)
    }

    /// The parameters of the next page request, or `None` when the fetch
    /// asks for no further page: the listing is exhausted or the page cap is
    /// reached.
    pub fn next_request(&self) -> (r: Option<Vec<(&'static str, String)>>)
        ensures
            r is Some <==> self@.wants_page(),
            r matches Some(params) ==> param_views(params@) == self@.page_params(),
            self@.pages_fetched >= self@.max_pages ==> r is None,
    {
        if self.exhausted || self.pages_fetched >= self.max_pages {
            return None;
        }
        let mut params: Vec<(&'static str, String)> = Vec::new();
        let mut i: usize = 0;
        while i < self.base_params.len()
            invariant
                i <= self.base_params.len(),
                params@.len() == i,
                forall|j: int|
                    0 <= j < i ==> (#[trigger] params@[j]).0@ == self.base_params@[j].0@
                        && params@[j].1@ == self.base_params@[j].1@,
            decreases self.base_params.len() - i,
        {
            params.push((self.base_params[i].0, self.base_params[i].1.clone()));
            i += 1;
        }
        assert(param_views(params@) =~= param_views(self.base_params@));
        if let Some(token) = &self.page_token {
            let ghost before = params@;
            params.push(("pageToken", token.clone()));
            assert(param_views(params@) =~= param_views(before).push(
                ParamView { key: "pageToken"@, value: token@ },
            ));
        }
        Some(params)
    }

    /// Whether the counts stay within the machine's range when `response`
    /// is taken in.
    pub fn has_room_for(&self, response: &SearchListResponse) -> (r: bool)
        ensures
            r == (self@.pages_fetched < usize::MAX && self@.raw_items + response.items@.len()
                <= usize::MAX),
    {
        self.pages_fetched < usize::MAX && response.items.len() <= usize::MAX - self.raw_items
    }

    /// Takes in a page of the id search. Gives the ids to look up in
    /// detail: those of the page not seen before, in order.
    pub fn accept_page(&mut self, response: &SearchListResponse) -> (request_ids: Vec<String>)
        requires
            old(self)@.wf(),
            old(self)@.pages_fetched < usize::MAX,
            old(self)@.raw_items + response.items@.len() <= usize::MAX,
        ensures
            final(self)@ == old(self)@.after_page(
                page_ids(response.items@),
                opt_str(response.next_page_token),
            ),
            final(self)@.wf(),
            strs(request_ids@) == scan_ids(old(self)@.seen_ids, page_ids(response.items@)).fresh,
    {
        let ghost ids = page_ids(response.items@);
        let ghost seen0 = self@.seen_ids;
        let ghost dups_before = self@.duplicates_within;
        let mut request_ids: Vec<String> = Vec::new();
        let mut i: usize = 0;
        assert(ids.take(0) =~= Seq::<Option<Seq<char>>>::empty());
        assert(strs(request_ids@) =~= Seq::<Seq<char>>::empty());
        while i < response.items.len()
            invariant
                i <= response.items.len(),
                ids == page_ids(response.items@),
                seen0.no_duplicates(),
                strs(self.seen_ids@) == scan_ids(seen0, ids.take(i as int)).seen,
                strs(request_ids@) == scan_ids(seen0, ids.take(i as int)).fresh,
                self.duplicates_within == dups_before + scan_ids(seen0, ids.take(i as int)).duplicates,
                dups_before + old(self)@.unique_ids <= old(self)@.raw_items,
                old(self)@.raw_items + response.items@.len() <= usize::MAX,
                seen0.len() == old(self)@.unique_ids,
                self.base_params == old(self).base_params,
                self.page_token == old(self).page_token,
                self.exhausted == old(self).exhausted,
                self.pages_fetched == old(self).pages_fetched,
                self.max_pages == old(self).max_pages,
                self.collected == old(self).collected,
                self.raw_items == old(self).raw_items,
                self.unique_ids == old(self).unique_ids,
            decreases response.items.len() - i,
        {
            proof {
                let next = ids.take(i + 1);
                assert(next.drop_last() =~= ids.take(i as int));
                assert(next.last() == opt_str(response.items@[i as int].id.video_id));
                lemma_scan_ids(seen0, ids.take(i as int));
                lemma_scan_ids(seen0, next);
            }
            if let Some(video_id) = &response.items[i].id.video_id {
                if list_has(self.seen_ids.as_slice(), video_id) {
                    self.duplicates_within += 1;
                } else {
                    let ghost seen_before = self.seen_ids@;
                    let ghost req_before = request_ids@;
                    self.seen_ids.push(video_id.clone());
                    request_ids.push(video_id.clone());
                    assert(strs(self.seen_ids@) =~= strs(seen_before).push(video_id@));
                    assert(strs(request_ids@) =~= strs(req_before).push(video_id@));
                }
            }
            i += 1;
        }
        assert(ids.take(i as int) =~= ids);
        proof {
            lemma_scan_ids(seen0, ids);
        }
        self.pages_fetched += 1;
        self.raw_items += response.items.len();
        self.unique_ids += request_ids.len();
        match &response.next_page_token {
            Some(token) => {
                self.page_token = Some(token.clone());
                self.exhausted = false;
            },
            None => {
                self.exhausted = true;
            },
        }
        request_ids
    }

    /// Takes in a batch of details: every video of it that passes the
    /// post-filter is claimed by the search and kept.
    pub fn accept_details(
        &mut self,
        videos: &VideosListResponse,
        global: &GlobalPrefs,
        search: &MySearch,
        blocked_keys: &[String],
    )
        ensures
            final(self)@ == (FetchView {
                collected: old(self)@.collected + kept_videos(
                    videos.items@,
                    global@,
                    search@,
                    strs(blocked_keys@),
                ),
                ..old(self)@
            }),
            old(self)@.wf() ==> final(self)@.wf(),
    {
        let ghost start = self@.collected;
        let ghost blocked = strs(blocked_keys@);
        let mut i: usize = 0;
        assert(videos.items@.take(0) =~= Seq::<VideoItem>::empty());
        assert(video_views(self.collected@) =~= start + kept_videos(
            videos.items@.take(0),
            global@,
            search@,
            blocked,
        ));
        while i < videos.items.len()
            invariant
                i <= videos.items.len(),
                blocked == strs(blocked_keys@),
                video_views(self.collected@) == start + kept_videos(
                    videos.items@.take(i as int),
                    global@,
                    search@,
                    blocked,
                ),
                self.base_params == old(self).base_params,
                self.page_token == old(self).page_token,
                self.exhausted == old(self).exhausted,
                self.pages_fetched == old(self).pages_fetched,
                self.max_pages == old(self).max_pages,
                self.seen_ids == old(self).seen_ids,
                self.duplicates_within == old(self).duplicates_within,
                self.raw_items == old(self).raw_items,
                self.unique_ids == old(self).unique_ids,
            decreases videos.items.len() - i,
        {
            proof {
                let next = videos.items@.take(i + 1);
                assert(next.drop_last() =~= videos.items@.take(i as int));
                assert(next.last() == videos.items@[i as int]);
            }
            let mut details = map_video_item(&videos.items[i]);
            if matches_post_filters(&details, global, search, blocked_keys) {
                let ghost before = self.collected@;
                let ghost plain = details@;
                details.source_presets.push(search.name.clone());
                assert(strs(details.source_presets@) =~= seq![search@.name]);
                assert(details@ == (VideoView { source_presets: seq![search@.name], ..plain }));
                self.collected.push(details);
                assert(video_views(self.collected@) =~= video_views(before).push(
                    VideoView { source_presets: seq![search@.name], ..plain },
                ));
            }
            i += 1;
        }
        assert(videos.items@.take(i as int) =~= videos.items@);
    }

    /// Takes in a page of the id search and says what the page asks for:
    /// a detail lookup of its new ids, or nothing where it brought no new
    /// id.
    pub fn take_page(&mut self, response: &SearchListResponse) -> (step: PageStep)
        requires
            old(self)@.wf(),
            old(self)@.pages_fetched < usize::MAX,
            old(self)@.raw_items + response.items@.len() <= usize::MAX,
        ensures
            final(self)@ == old(self)@.after_page(
                page_ids(response.items@),
                opt_str(response.next_page_token),
            ),
            final(self)@.wf(),
            match step {
                PageStep::LookUp(ids) => ids@.len() > 0 && strs(ids@) == scan_ids(
                    old(self)@.seen_ids,
                    page_ids(response.items@),
                ).fresh,
                PageStep::Skip => scan_ids(
                    old(self)@.seen_ids,
                    page_ids(response.items@),
                ).fresh.len() == 0,
            },
    {
        let ids = self.accept_page(response);
        assert(strs(ids@).len() == ids@.len());
        if ids.len() == 0 {
            PageStep::Skip
        } else {
            PageStep::LookUp(ids)
        }
    }

    /// What is left to do once no further page is asked for: where videos
    /// were kept, the channel lookups for them, batch by batch; where none
    /// was kept, nothing.
    pub fn closing_step(&self) -> (step: ClosingStep)
        ensures
            match step {
                ClosingStep::Enrich(lookups) => self@.collected.len() > 0 && batch_views(
                    lookups@,
                ) == batches(lookup_ids(handles_of(self@.collected)), CHANNEL_BATCH_SIZE as int),
                ClosingStep::Finish => self@.collected.len() == 0,
            },
    {
        assert(video_views(self.collected@).len() == self.collected@.len());
        if self.collected.len() == 0 {
            ClosingStep::Finish
        } else {
            let ids = channel_ids_to_look_up(&self.collected);
            ClosingStep::Enrich(id_batches(&ids))
        }
    }

    /// Fills in what the channel records tell of the channels of the videos
    /// kept. Records of lookups that failed are simply not among them.
    pub fn apply_channels(&mut self, items: &Vec<ChannelItem>)
        ensures
            final(self)@ == (FetchView {
                collected: enriched_all(old(self)@.collected, items@),
                ..old(self)@
            }),
            old(self)@.wf() ==> final(self)@.wf(),
    {
        apply_channel_metadata(&mut self.collected, items);
    }

    /// Ends the fetch because the id search failed. Nothing of what the
    /// fetch had brought is kept; the error says that it was the id search
    /// that failed, and how.
    pub fn search_failed(self, cause: &str) -> (r: PipelineError)
        ensures
            r@ == ErrorView::SearchFailed(cause@),
    {
        search_failure(cause)
    }

    /// Ends the fetch because a detail lookup failed. Nothing of what the
    /// fetch had brought is kept; the error says that it was the detail
    /// lookup that failed, and how.
    pub fn details_failed(self, cause: &str) -> (r: PipelineError)
        ensures
            r@ == ErrorView::DetailsFailed(cause@),
    {
        details_failure(cause)
    }

    /// Ends the fetch and gives what it has brought.
    pub fn finish(self) -> (r: SingleSearchOutcome)
        ensures
            r@ == self@.outcome(),
    {
        SingleSearchOutcome {
            videos: self.collected,
            pages_fetched: self.pages_fetched,
            duplicates_within: self.duplicates_within,
            raw_items: self.raw_items,
            unique_ids: self.unique_ids,
        }
    }
}

/// What a failed id search comes to: it ends the fetch of the search, and
/// the error says that it was the id search that failed, and how.
pub fn search_failure(cause: &str) -> (r: PipelineError)
    ensures
        r@ == ErrorView::SearchFailed(cause@),
{
    PipelineError::SearchFailed(cause.to_owned())
}

/// What a failed detail lookup comes to: it ends the fetch of the search,
/// and the error says that it was the detail lookup that failed, and how.
pub fn details_failure(cause: &str) -> (r: PipelineError)
    ensures
        r@ == ErrorView::DetailsFailed(cause@),
{
    PipelineError::DetailsFailed(cause.to_owned())
}

/// However many pages come with a continuation token, the fetch asks for no
/// page beyond its cap: a state that has taken in as many pages as the cap
/// allows wants no further page, and each page taken in counts as one.
pub proof fn lemma_page_cap(
    state: FetchView,
    ids: Seq<Option<Seq<char>>>,
    next: Option<Seq<char>>,
)
    requires
        state.wants_page(),
    ensures
        state.after_page(ids, next).pages_fetched == state.pages_fetched + 1,
        state.after_page(ids, next).pages_fetched <= state.max_pages,
        state.after_page(ids, next).max_pages == state.max_pages,
        state.after_page(ids, next).pages_fetched == state.max_pages ==> !state.after_page(
            ids,
            next,
        ).wants_page(),
        next is Some && state.pages_fetched + 1 < state.max_pages ==> state.after_page(
            ids,
            next,
        ).wants_page(),
        next is None ==> !state.after_page(ids, next).wants_page(),
{
}

/// One page as the fetcher takes it in: the ids of its items and its
/// continuation token.
pub struct PageView {
    pub ids: Seq<Option<Seq<char>>>,
    pub next: Option<Seq<char>>,
}

/// The state after the given pages, in order.
pub open spec fn after_pages(state: FetchView, pages: Seq<PageView>) -> FetchView
    decreases pages.len(),
{
    if pages.len() == 0 {
        state
    } else {
        after_pages(state, pages.drop_last()).after_page(pages.last().ids, pages.last().next)
    }
}

/// With a continuation token on every page, a fresh fetch wants a further
/// page after every page short of its cap and none once the cap is reached:
/// it takes in exactly as many pages as the cap allows.
pub proof fn lemma_stops_at_cap(state: FetchView, pages: Seq<PageView>)
    requires
        state.wf(),
        state.pages_fetched == 0,
        !state.exhausted,
        pages.len() <= state.max_pages,
        forall|i: int| 0 <= i < pages.len() ==> (#[trigger] pages[i]).next is Some,
    ensures
        after_pages(state, pages).wf(),
        after_pages(state, pages).max_pages == state.max_pages,
        after_pages(state, pages).pages_fetched == pages.len(),
        after_pages(state, pages).wants_page() <==> pages.len() < state.max_pages,
    decreases pages.len(),
{
    if pages.len() > 0 {
        let pre = pages.drop_last();
        assert forall|i: int| 0 <= i < pre.len() implies (#[trigger] pre[i]).next is Some by {
            assert(pre[i] == pages[i]);
        }
        lemma_stops_at_cap(state, pre);
        let before = after_pages(state, pre);
        assert(pages[pages.len() - 1].next is Some);
        lemma_scan_ids(before.seen_ids, pages.last().ids);
    }
}

} // verus!
