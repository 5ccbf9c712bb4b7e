//! The configuration that a run consumes: global defaults, duration
//! buckets, saved searches and the blocked-channel list.

use vstd::prelude::*;
use vstd::string::*;
use crate::text::{
    ascii_lower, chars_eq, chars_lt, chars_of, find_char, first_index_of, lemma_lex_irreflexive,
    lemma_lex_total, lemma_lex_transitive, lex_lt, lower_chars, opt_str, push_all, string_of,
    is_whitespace, strs, sub_chars, trim, trim_chars,
};

verus! {

// ---------------------------------------------------------------------------
// Duration buckets
// ---------------------------------------------------------------------------

/// One named duration range. `min_seconds` is inclusive, `max_seconds`
/// exclusive; without a `max_seconds` the range has no upper end.
#[derive(Debug, PartialEq)]
pub struct DurationBucketConfig {
    pub id: String,
    pub label: String,
    pub min_seconds: u32,
    pub max_seconds: Option<u32>,
    pub default_selected: bool,
}

/// Mathematical content of a [`DurationBucketConfig`].
pub struct BucketView {
    pub id: Seq<char>,
    pub label: Seq<char>,
    pub min_seconds: u32,
    pub max_seconds: Option<u32>,
    pub default_selected: bool,
}

impl BucketView {
    /// Membership in `[min, max)`, with an absent `max` meaning no upper end.
    pub open spec fn contains(self, secs: int) -> bool {
        &&& self.min_seconds <= secs
        &&& match self.max_seconds {
            Some(max) => secs < max,
            None => true,
        }
    }

    /// The bucket that admits every duration.
    pub open spec fn is_catch_all(self) -> bool {
        self.min_seconds == 0 && self.max_seconds is None
    }
}

impl View for DurationBucketConfig {
    type V = BucketView;

    open spec fn view(&self) -> BucketView {
        BucketView {
            id: self.id@,
            label: self.label@,
            min_seconds: self.min_seconds,
            max_seconds: self.max_seconds,
            default_selected: self.default_selected,
        }
    }
}

impl Clone for DurationBucketConfig {
    fn clone(&self) -> (r: Self)
        ensures
            r@ == self@,
    {
        DurationBucketConfig {
            id: self.id.clone(),
            label: self.label.clone(),
            min_seconds: self.min_seconds,
            max_seconds: self.max_seconds,
            default_selected: self.default_selected,
        }
    }
}

impl Default for DurationBucketConfig {
    fn default() -> (r: Self)
        ensures
            r@ == (BucketView {
                id: Seq::empty(),
                label: Seq::empty(),
                min_seconds: 0,
                max_seconds: None,
                default_selected: true,
            }),
    {
        DurationBucketConfig {
            id: String::new(),
            label: String::new(),
            min_seconds: 0,
            max_seconds: None,
            default_selected: true,
        }
    }
}

impl DurationBucketConfig {
    /// Whether a duration of `secs` seconds falls in this bucket.
    pub fn contains(&self, secs: u64) -> (r: bool)
        ensures
            r == self@.contains(secs as int),
            self.max_seconds is None && secs >= self.min_seconds ==> r,
            secs == self.min_seconds && (self.max_seconds matches Some(max) ==> self.min_seconds
                < max) ==> r,
            self.max_seconds matches Some(max) && secs == max ==> !r,
    {
        if secs < self.min_seconds as u64 {
            return false;
        }
        if let Some(max) = self.max_seconds {
            if secs >= max as u64 {
                return false;
            }
        }
        true
    }

    /// Whether this is the bucket that admits every duration.
    pub fn is_catch_all(&self) -> (r: bool)
        ensures
            r == self@.is_catch_all(),
    {
        self.min_seconds == 0 && self.max_seconds.is_none()
    }
}

/// A bucket without an upper end holds every duration from its lower end on.
pub proof fn lemma_unbounded_bucket_contains(b: BucketView, secs: int)
    requires
        b.max_seconds is None,
        secs >= b.min_seconds,
    ensures
        b.contains(secs),
{
}

/// A bucket with a non-empty range holds its lower end, and no bucket holds
/// its upper end.
pub proof fn lemma_bucket_bounds(b: BucketView)
    ensures
        (b.max_seconds matches Some(max) ==> b.min_seconds < max) ==> b.contains(
            b.min_seconds as int,
        ),
        b.max_seconds matches Some(max) ==> !b.contains(max as int),
{
}

/// A catch-all bucket holds every duration.
pub proof fn lemma_catch_all_contains(b: BucketView, secs: int)
    requires
        b.is_catch_all(),
        secs >= 0,
    ensures
        b.contains(secs),
{
}

/// The views of a sequence of buckets.
pub open spec fn bucket_views(v: Seq<DurationBucketConfig>) -> Seq<BucketView> {
    Seq::new(v.len(), |i: int| v[i]@)
}

/// Copies a list of strings.
pub fn clone_strings(v: &Vec<String>) -> (r: Vec<String>)
    ensures
        strs(r@) == strs(v@),
{
    let mut r: Vec<String> = Vec::new();
    let mut i: usize = 0;
    while i < v.len()
        invariant
            i <= v.len(),
            r@.len() == i,
            forall|j: int| 0 <= j < i ==> r@[j]@ == v@[j]@,
        decreases v.len() - i,
    {
        r.push(v[i].clone());
        i += 1;
    }
    assert(strs(r@) =~= strs(v@));
    r
}

/// Copies an optional string.
pub fn clone_opt_string(o: &Option<String>) -> (r: Option<String>)
    ensures
        opt_str(r) == opt_str(*o),
{
    match o {
        Some(s) => Some(s.clone()),
        None => None,
    }
}

/// The ordered buckets on offer and whether several may be active at once.
#[derive(Debug, PartialEq)]
pub struct DurationFilterConfig {
    pub buckets: Vec<DurationBucketConfig>,
    pub allow_multiple: bool,
}

/// Mathematical content of a [`DurationFilterConfig`].
pub struct FilterConfigView {
    pub buckets: Seq<BucketView>,
    pub allow_multiple: bool,
}

impl View for DurationFilterConfig {
    type V = FilterConfigView;

    open spec fn view(&self) -> FilterConfigView {
        FilterConfigView {
            buckets: bucket_views(self.buckets@),
            allow_multiple: self.allow_multiple,
        }
    }
}

impl Clone for DurationFilterConfig {
    fn clone(&self) -> (r: Self)
        ensures
            r@ == self@,
    {
        let mut buckets: Vec<DurationBucketConfig> = Vec::new();
        let mut i: usize = 0;
        while i < self.buckets.len()
            invariant
                i <= self.buckets.len(),
                buckets@.len() == i,
                forall|j: int| 0 <= j < i ==> buckets@[j]@ == self.buckets@[j]@,
            decreases self.buckets.len() - i,
        {
            buckets.push(self.buckets[i].clone());
            i += 1;
        }
        assert(bucket_views(buckets@) =~= bucket_views(self.buckets@));
        DurationFilterConfig { buckets, allow_multiple: self.allow_multiple }
    }
}

/// Index of the first bucket whose id is `id`.
pub open spec fn bucket_index(buckets: Seq<BucketView>, id: Seq<char>) -> Option<int>
    decreases buckets.len(),
{
    if buckets.len() == 0 {
        None
    } else {
        match bucket_index(buckets.drop_last(), id) {
            Some(i) => Some(i),
            None => if buckets.last().id == id {
                Some(buckets.len() - 1)
            } else {
                None
            },
        }
    }
}

/// What `bucket_index` finds is the first bucket with that id.
pub proof fn lemma_bucket_index(buckets: Seq<BucketView>, id: Seq<char>)
    ensures
        match bucket_index(buckets, id) {
            Some(i) => 0 <= i < buckets.len() && buckets[i].id == id && forall|j: int|
                0 <= j < i ==> buckets[j].id != id,
            None => forall|j: int| 0 <= j < buckets.len() ==> buckets[j].id != id,
        },
    decreases buckets.len(),
{
    if buckets.len() > 0 {
        let pre = buckets.drop_last();
        lemma_bucket_index(pre, id);
        match bucket_index(pre, id) {
            Some(i) => {
                assert(pre[i] == buckets[i]);
                assert forall|j: int| 0 <= j < i implies buckets[j].id != id by {
                    assert(pre[j] == buckets[j]);
                }
            },
            None => {
                assert forall|j: int| 0 <= j < buckets.len() - 1 implies buckets[j].id != id by {
                    assert(pre[j] == buckets[j]);
                }
            },
        }
    }
}

/// The ids of the buckets marked as selected by default, in order.
pub open spec fn marked_default_ids(buckets: Seq<BucketView>) -> Seq<Seq<char>>
    decreases buckets.len(),
{
    if buckets.len() == 0 {
        Seq::empty()
    } else if buckets.last().default_selected {
        marked_default_ids(buckets.drop_last()).push(buckets.last().id)
    } else {
        marked_default_ids(buckets.drop_last())
    }
}

/// Index of the first catch-all bucket.
pub open spec fn first_catch_all(buckets: Seq<BucketView>) -> Option<int>
    decreases buckets.len(),
{
    if buckets.len() == 0 {
        None
    } else {
        match first_catch_all(buckets.drop_last()) {
            Some(i) => Some(i),
            None => if buckets.last().is_catch_all() {
                Some(buckets.len() - 1)
            } else {
                None
            },
        }
    }
}

/// What `first_catch_all` finds is the first catch-all bucket.
pub proof fn lemma_first_catch_all(buckets: Seq<BucketView>)
    ensures
        match first_catch_all(buckets) {
            Some(i) => 0 <= i < buckets.len() && buckets[i].is_catch_all() && forall|j: int|
                0 <= j < i ==> !buckets[j].is_catch_all(),
            None => forall|j: int| 0 <= j < buckets.len() ==> !buckets[j].is_catch_all(),
        },
    decreases buckets.len(),
{
    if buckets.len() > 0 {
        let pre = buckets.drop_last();
        lemma_first_catch_all(pre);
        match first_catch_all(pre) {
            Some(i) => {
                assert(pre[i] == buckets[i]);
                assert forall|j: int| 0 <= j < i implies !buckets[j].is_catch_all() by {
                    assert(pre[j] == buckets[j]);
                }
            },
            None => {
                assert forall|j: int| 0 <= j < buckets.len() - 1 implies !buckets[j].is_catch_all() by {
                    assert(pre[j] == buckets[j]);
                }
            },
        }
    }
}

/// The selection to fall back on: the buckets marked default; failing that
/// the first catch-all bucket; failing that the first bucket.
pub open spec fn default_ids(buckets: Seq<BucketView>) -> Seq<Seq<char>> {
    let marked = marked_default_ids(buckets);
    if marked.len() > 0 {
        marked
    } else {
        match first_catch_all(buckets) {
            Some(i) => seq![buckets[i].id],
            None => if buckets.len() > 0 {
                seq![buckets[0].id]
            } else {
                Seq::empty()
            },
        }
    }
}

/// The fallback selection is empty only when there is no bucket at all, and
/// names only configured buckets.
pub proof fn lemma_default_ids(buckets: Seq<BucketView>)
    ensures
        buckets.len() > 0 ==> default_ids(buckets).len() > 0,
        forall|k: int|
            0 <= k < default_ids(buckets).len() ==> bucket_index(
                buckets,
                #[trigger] default_ids(buckets)[k],
            ) is Some,
{
    lemma_first_catch_all(buckets);
    lemma_marked_default_ids(buckets);
    assert forall|k: int| 0 <= k < default_ids(buckets).len() implies bucket_index(
        buckets,
        #[trigger] default_ids(buckets)[k],
    ) is Some by {
        lemma_bucket_index(buckets, default_ids(buckets)[k]);
    }
}

proof fn lemma_marked_default_ids(buckets: Seq<BucketView>)
    ensures
        forall|k: int|
            0 <= k < marked_default_ids(buckets).len() ==> exists|j: int|
                0 <= j < buckets.len() && buckets[j].id == #[trigger] marked_default_ids(
                    buckets,
                )[k],
    decreases buckets.len(),
{
    if buckets.len() > 0 {
        let pre = buckets.drop_last();
        lemma_marked_default_ids(pre);
        assert forall|k: int| 0 <= k < marked_default_ids(buckets).len() implies exists|j: int|
            0 <= j < buckets.len() && buckets[j].id == #[trigger] marked_default_ids(buckets)[k] by {
            if k < marked_default_ids(pre).len() {
                let j = choose|j: int|
                    0 <= j < pre.len() && pre[j].id == marked_default_ids(pre)[k];
                assert(buckets[j].id == marked_default_ids(buckets)[k]);
            } else {
                assert(buckets[buckets.len() - 1].id == marked_default_ids(buckets)[k]);
            }
        }
    }
}

/// The built-in buckets.
pub open spec fn builtin_buckets() -> Seq<BucketView> {
    seq![
        BucketView {
            id: "any"@,
            label: "Any length"@,
            min_seconds: 0,
            max_seconds: None,
            default_selected: true,
        },
        BucketView {
            id: "shorts"@,
            label: "Shorts (<3 min)"@,
            min_seconds: 0,
            max_seconds: Some(180u32),
            default_selected: false,
        },
        BucketView {
            id: "brief"@,
            label: "Brief (3-15 min)"@,
            min_seconds: 180,
            max_seconds: Some(900u32),
            default_selected: false,
        },
        BucketView {
            id: "medium"@,
            label: "Medium (15-30 min)"@,
            min_seconds: 900,
            max_seconds: Some(1800u32),
            default_selected: false,
        },
        BucketView {
            id: "long"@,
            label: "Long (30-60 min)"@,
            min_seconds: 1800,
            max_seconds: Some(3600u32),
            default_selected: false,
        },
        BucketView {
            id: "very-long"@,
            label: "Very Long (60+ min)"@,
            min_seconds: 3600,
            max_seconds: None,
            default_selected: false,
        },
    ]
}

fn make_bucket(id: &str, label: &str, min_seconds: u32, max_seconds: Option<u32>, default_selected: bool) -> (r: DurationBucketConfig)
    ensures
        r@ == (BucketView {
            id: id@,
            label: label@,
            min_seconds,
            max_seconds,
            default_selected,
        }),
{
    DurationBucketConfig {
        id: id.to_owned(),
        label: label.to_owned(),
        min_seconds,
        max_seconds,
        default_selected,
    }
}

impl Default for DurationFilterConfig {
    fn default() -> (r: Self)
        ensures
            r@ == (FilterConfigView { buckets: builtin_buckets(), allow_multiple: true }),
    {
        let mut buckets: Vec<DurationBucketConfig> = Vec::new();
        buckets.push(make_bucket("any", "Any length", 0, None, true));
        buckets.push(make_bucket("shorts", "Shorts (<3 min)", 0, Some(180), false));
        buckets.push(make_bucket("brief", "Brief (3-15 min)", 180, Some(900), false));
        buckets.push(make_bucket("medium", "Medium (15-30 min)", 900, Some(1800), false));
        buckets.push(make_bucket("long", "Long (30-60 min)", 1800, Some(3600), false));
        buckets.push(make_bucket("very-long", "Very Long (60+ min)", 3600, None, false));
        assert(bucket_views(buckets@) =~= builtin_buckets());
        DurationFilterConfig { allow_multiple: true, buckets }
    }
}

impl DurationFilterConfig {
    /// The first bucket with the given id.
    pub fn bucket_by_id(&self, id: &str) -> (r: Option<&DurationBucketConfig>)
        ensures
            match r {
                Some(b) => bucket_index(self@.buckets, id@) matches Some(i) && 0 <= i
                    < self.buckets@.len() && *b == self.buckets@[i] && b@ == self@.buckets[i],
                None => bucket_index(self@.buckets, id@) is None,
            },
    {
        let wanted = chars_of(id);
        let mut i: usize = 0;
        assert(self@.buckets.take(0) =~= Seq::<BucketView>::empty());
        while i < self.buckets.len()
            invariant
                i <= self.buckets.len(),
                wanted@ == id@,
                bucket_index(self@.buckets.take(i as int), id@) is None,
            decreases self.buckets.len() - i,
        {
            let here = chars_of(self.buckets[i].id.as_str());
            proof {
                let next = self@.buckets.take(i + 1);
                assert(next.drop_last() =~= self@.buckets.take(i as int));
                assert(next.last() == self.buckets@[i as int]@);
            }
            if chars_eq(&here, &wanted) {
                proof {
                    lemma_bucket_index_extends(self@.buckets, i + 1, id@);
                }
                return Some(&self.buckets[i]);
            }
            i += 1;
        }
        assert(self@.buckets.take(i as int) =~= self@.buckets);
        None
    }

    /// The selection to fall back on when nothing is active.
    pub fn default_active_ids(&self) -> (r: Vec<String>)
        ensures
            strs(r@) == default_ids(self@.buckets),
    {
        let ghost all = self@.buckets;
        let mut defaults: Vec<String> = Vec::new();
        let mut i: usize = 0;
        assert(all.take(0) =~= Seq::<BucketView>::empty());
        while i < self.buckets.len()
            invariant
                i <= self.buckets.len(),
                all == self@.buckets,
                strs(defaults@) == marked_default_ids(all.take(i as int)),
            decreases self.buckets.len() - i,
        {
            proof {
                let next = all.take(i + 1);
                assert(next.drop_last() =~= all.take(i as int));
                assert(next.last() == self.buckets@[i as int]@);
            }
            if self.buckets[i].default_selected {
                let ghost before = defaults@;
                defaults.push(self.buckets[i].id.clone());
                assert(strs(defaults@) =~= strs(before).push(self.buckets@[i as int].id@));
            }
            i += 1;
        }
        assert(all.take(i as int) =~= all);
        if defaults.len() == 0 {
            assert(marked_default_ids(all).len() == strs(defaults@).len());
            let mut k: usize = 0;
            assert(all.take(0) =~= Seq::<BucketView>::empty());
            while k < self.buckets.len()
                invariant
                    k <= self.buckets.len(),
                    all == self@.buckets,
                    defaults@.len() == 0,
                    marked_default_ids(all).len() == 0,
                    first_catch_all(all.take(k as int)) is None,
                decreases self.buckets.len() - k,
            {
                proof {
                    let next = all.take(k + 1);
                    assert(next.drop_last() =~= all.take(k as int));
                    assert(next.last() == self.buckets@[k as int]@);
                }
                if self.buckets[k].is_catch_all() {
                    proof {
                        lemma_first_catch_all_extends(all, k + 1);
                    }
                    defaults.push(self.buckets[k].id.clone());
                    assert(strs(defaults@) =~= seq![all[k as int].id]);
                    return defaults;
                }
                k += 1;
            }
            assert(all.take(k as int) =~= all);
            if self.buckets.len() > 0 {
                defaults.push(self.buckets[0].id.clone());
                assert(strs(defaults@) =~= seq![all[0].id]);
            } else {
                assert(strs(defaults@) =~= Seq::<Seq<char>>::empty());
            }
        }
        defaults
    }
}

/// A hit in a prefix is the hit in the whole.
pub proof fn lemma_bucket_index_extends(buckets: Seq<BucketView>, n: int, id: Seq<char>)
    requires
        0 <= n <= buckets.len(),
        bucket_index(buckets.take(n), id) is Some,
    ensures
        bucket_index(buckets, id) == bucket_index(buckets.take(n), id),
    decreases buckets.len() - n,
{
    if n < buckets.len() {
        let next = buckets.take(n + 1);
        assert(next.drop_last() =~= buckets.take(n));
        lemma_bucket_index_extends(buckets, n + 1, id);
    } else {
        assert(buckets.take(n) =~= buckets);
    }
}

/// A catch-all found in a prefix is the first catch-all of the whole.
pub proof fn lemma_first_catch_all_extends(buckets: Seq<BucketView>, n: int)
    requires
        0 <= n <= buckets.len(),
        first_catch_all(buckets.take(n)) is Some,
    ensures
        first_catch_all(buckets) == first_catch_all(buckets.take(n)),
    decreases buckets.len() - n,
{
    if n < buckets.len() {
        let next = buckets.take(n + 1);
        assert(next.drop_last() =~= buckets.take(n));
        lemma_first_catch_all_extends(buckets, n + 1);
    } else {
        assert(buckets.take(n) =~= buckets);
    }
}

// ---------------------------------------------------------------------------
// Saved searches
// ---------------------------------------------------------------------------

/// The rolling publish-date windows on offer.
#[derive(Clone, Copy, Debug, PartialEq, Eq, Structural)]
pub enum TimeWindowPreset {
    Today,
    H48,
    D7,
    AllTime,
}

impl Default for TimeWindowPreset {
    fn default() -> (r: Self)
        ensures
            r == TimeWindowPreset::D7,
    {
        TimeWindowPreset::D7
    }
}

/// An explicit publish-date window, as two RFC 3339 timestamps.
#[derive(Debug, PartialEq)]
pub struct TimeWindow {
    pub start_rfc3339: String,
    pub end_rfc3339: String,
}

/// Mathematical content of a [`TimeWindow`].
pub struct TimeWindowView {
    pub start_rfc3339: Seq<char>,
    pub end_rfc3339: Seq<char>,
}

impl View for TimeWindow {
    type V = TimeWindowView;

    open spec fn view(&self) -> TimeWindowView {
        TimeWindowView { start_rfc3339: self.start_rfc3339@, end_rfc3339: self.end_rfc3339@ }
    }
}

impl Clone for TimeWindow {
    fn clone(&self) -> (r: Self)
        ensures
            r@ == self@,
    {
        TimeWindow {
            start_rfc3339: self.start_rfc3339.clone(),
            end_rfc3339: self.end_rfc3339.clone(),
        }
    }
}

/// The view of an optional window.
pub open spec fn opt_window(o: Option<TimeWindow>) -> Option<TimeWindowView> {
    match o {
        Some(w) => Some(w@),
        None => None,
    }
}

/// What to search for: free text, term lists and channel lists.
#[derive(Debug, PartialEq)]
pub struct QuerySpec {
    pub q: Option<String>,
    pub any_terms: Vec<String>,
    pub all_terms: Vec<String>,
    pub not_terms: Vec<String>,
    pub channel_allow: Vec<String>,
    pub channel_deny: Vec<String>,
    pub category_id: Option<u32>,
}

/// Mathematical content of a [`QuerySpec`].
pub struct QuerySpecView {
    pub q: Option<Seq<char>>,
    pub any_terms: Seq<Seq<char>>,
    pub all_terms: Seq<Seq<char>>,
    pub not_terms: Seq<Seq<char>>,
    pub channel_allow: Seq<Seq<char>>,
    pub channel_deny: Seq<Seq<char>>,
    pub category_id: Option<u32>,
}

impl View for QuerySpec {
    type V = QuerySpecView;

    open spec fn view(&self) -> QuerySpecView {
        QuerySpecView {
            q: opt_str(self.q),
            any_terms: strs(self.any_terms@),
            all_terms: strs(self.all_terms@),
            not_terms: strs(self.not_terms@),
            channel_allow: strs(self.channel_allow@),
            channel_deny: strs(self.channel_deny@),
            category_id: self.category_id,
        }
    }
}

impl Clone for QuerySpec {
    fn clone(&self) -> (r: Self)
        ensures
            r@ == self@,
    {
        QuerySpec {
            q: clone_opt_string(&self.q),
            any_terms: clone_strings(&self.any_terms),
            all_terms: clone_strings(&self.all_terms),
            not_terms: clone_strings(&self.not_terms),
            channel_allow: clone_strings(&self.channel_allow),
            channel_deny: clone_strings(&self.channel_deny),
            category_id: self.category_id,
        }
    }
}

impl Default for QuerySpec {
    fn default() -> (r: Self)
        ensures
            r@ == (QuerySpecView {
                q: None,
                any_terms: Seq::empty(),
                all_terms: Seq::empty(),
                not_terms: Seq::empty(),
                channel_allow: Seq::empty(),
                channel_deny: Seq::empty(),
                category_id: None,
            }),
    {
        let r = QuerySpec {
            q: None,
            any_terms: Vec::new(),
            all_terms: Vec::new(),
            not_terms: Vec::new(),
            channel_allow: Vec::new(),
            channel_deny: Vec::new(),
            category_id: None,
        };
        assert(strs(r.any_terms@) =~= Seq::<Seq<char>>::empty());
        r
    }
}

/// A saved search: a query with its own switches and overrides. An override
/// that is `None` defers to the global default.
#[derive(Debug, PartialEq)]
pub struct MySearch {
    pub id: String,
    pub name: String,
    pub enabled: bool,
    pub query: QuerySpec,
    pub window_override: Option<TimeWindow>,
    pub english_only_override: Option<bool>,
    pub require_captions_override: Option<bool>,
    pub min_duration_override: Option<u32>,
    pub priority: i32,
    pub system: bool,
}

/// Mathematical content of a [`MySearch`].
pub struct MySearchView {
    pub id: Seq<char>,
    pub name: Seq<char>,
    pub enabled: bool,
    pub query: QuerySpecView,
    pub window_override: Option<TimeWindowView>,
    pub english_only_override: Option<bool>,
    pub require_captions_override: Option<bool>,
    pub min_duration_override: Option<u32>,
    pub priority: i32,
    pub system: bool,
}

impl View for MySearch {
    type V = MySearchView;

    open spec fn view(&self) -> MySearchView {
        MySearchView {
            id: self.id@,
            name: self.name@,
            enabled: self.enabled,
            query: self.query@,
            window_override: opt_window(self.window_override),
            english_only_override: self.english_only_override,
            require_captions_override: self.require_captions_override,
            min_duration_override: self.min_duration_override,
            priority: self.priority,
            system: self.system,
        }
    }
}

impl Clone for MySearch {
    fn clone(&self) -> (r: Self)
        ensures
            r@ == self@,
    {
        let window_override = match &self.window_override {
            Some(w) => Some(w.clone()),
            None => None,
        };
        MySearch {
            id: self.id.clone(),
            name: self.name.clone(),
            enabled: self.enabled,
            query: self.query.clone(),
            window_override,
            english_only_override: self.english_only_override,
            require_captions_override: self.require_captions_override,
            min_duration_override: self.min_duration_override,
            priority: self.priority,
            system: self.system,
        }
    }
}

impl Default for MySearch {
    fn default() -> (r: Self)
        ensures
            r@ == default_search(),
    {
        MySearch {
            id: String::new(),
            name: String::new(),
            enabled: false,
            query: QuerySpec::default(),
            window_override: None,
            english_only_override: None,
            require_captions_override: None,
            min_duration_override: None,
            priority: 0,
            system: false,
        }
    }
}

impl QuerySpec {
    /// The content of the empty query.
    pub open spec fn default_view() -> QuerySpecView {
        QuerySpecView {
            q: None,
            any_terms: Seq::empty(),
            all_terms: Seq::empty(),
            not_terms: Seq::empty(),
            channel_allow: Seq::empty(),
            channel_deny: Seq::empty(),
            category_id: None,
        }
    }
}

/// The views of a sequence of saved searches.
pub open spec fn search_views(v: Seq<MySearch>) -> Seq<MySearchView> {
    Seq::new(v.len(), |i: int| v[i]@)
}

/// Copies a list of saved searches.
pub fn clone_searches(v: &Vec<MySearch>) -> (r: Vec<MySearch>)
    ensures
        search_views(r@) == search_views(v@),
{
    let mut r: Vec<MySearch> = Vec::new();
    let mut i: usize = 0;
    while i < v.len()
        invariant
            i <= v.len(),
            r@.len() == i,
            forall|j: int| 0 <= j < i ==> r@[j]@ == v@[j]@,
        decreases v.len() - i,
    {
        r.push(v[i].clone());
        i += 1;
    }
    assert(search_views(r@) =~= search_views(v@));
    r
}

// ---------------------------------------------------------------------------
// Global preferences
// ---------------------------------------------------------------------------

/// Process-wide defaults.
#[derive(Debug, PartialEq)]
pub struct GlobalPrefs {
    pub default_window: TimeWindowPreset,
    pub english_only: bool,
    pub require_captions: bool,
    pub verify_captions_with_oauth: bool,
    pub min_duration_secs: u32,
    pub duration_filters: DurationFilterConfig,
    pub active_duration_bucket_ids: Vec<String>,
    pub region_code: Option<String>,
}

/// Mathematical content of a [`GlobalPrefs`].
pub struct GlobalPrefsView {
    pub default_window: TimeWindowPreset,
    pub english_only: bool,
    pub require_captions: bool,
    pub verify_captions_with_oauth: bool,
    pub min_duration_secs: u32,
    pub duration_filters: FilterConfigView,
    pub active_duration_bucket_ids: Seq<Seq<char>>,
    pub region_code: Option<Seq<char>>,
}

impl View for GlobalPrefs {
    type V = GlobalPrefsView;

    open spec fn view(&self) -> GlobalPrefsView {
        GlobalPrefsView {
            default_window: self.default_window,
            english_only: self.english_only,
            require_captions: self.require_captions,
            verify_captions_with_oauth: self.verify_captions_with_oauth,
            min_duration_secs: self.min_duration_secs,
            duration_filters: self.duration_filters@,
            active_duration_bucket_ids: strs(self.active_duration_bucket_ids@),
            region_code: opt_str(self.region_code),
        }
    }
}

impl Clone for GlobalPrefs {
    fn clone(&self) -> (r: Self)
        ensures
            r@ == self@,
    {
        GlobalPrefs {
            default_window: self.default_window,
            english_only: self.english_only,
            require_captions: self.require_captions,
            verify_captions_with_oauth: self.verify_captions_with_oauth,
            min_duration_secs: self.min_duration_secs,
            duration_filters: self.duration_filters.clone(),
            active_duration_bucket_ids: clone_strings(&self.active_duration_bucket_ids),
            region_code: clone_opt_string(&self.region_code),
        }
    }
}

/// The global preferences that a fresh configuration starts with: a window
/// of seven days, English only, no caption requirement, a minimum duration
/// of 75 seconds, the built-in buckets with their fallback selection, and
/// the region `US`.
pub open spec fn default_global() -> GlobalPrefsView {
    GlobalPrefsView {
        default_window: TimeWindowPreset::D7,
        english_only: true,
        require_captions: false,
        verify_captions_with_oauth: false,
        min_duration_secs: 75,
        duration_filters: FilterConfigView { buckets: builtin_buckets(), allow_multiple: true },
        active_duration_bucket_ids: default_ids(builtin_buckets()),
        region_code: Some("US"@),
    }
}

/// The search without any content.
pub open spec fn default_search() -> MySearchView {
    MySearchView {
        id: Seq::empty(),
        name: Seq::empty(),
        enabled: false,
        query: QuerySpec::default_view(),
        window_override: None,
        english_only_override: None,
        require_captions_override: None,
        min_duration_override: None,
        priority: 0,
        system: false,
    }
}

/// The configuration that a fresh installation starts with: no credential,
/// the default global preferences, no search and no blocked channel.
pub open spec fn default_prefs() -> PrefsView {
    PrefsView {
        api_key: Seq::empty(),
        global: default_global(),
        searches: Seq::empty(),
        blocked_channels: Seq::empty(),
    }
}

impl Default for GlobalPrefs {
    fn default() -> (r: Self)
        ensures
            r@ == default_global(),
    {
        let duration_filters = DurationFilterConfig::default();
        let active_duration_bucket_ids = duration_filters.default_active_ids();
        GlobalPrefs {
            default_window: TimeWindowPreset::default(),
            english_only: true,
            require_captions: false,
            verify_captions_with_oauth: false,
            min_duration_secs: 75,
            duration_filters,
            active_duration_bucket_ids,
            region_code: Some("US".to_owned()),
        }
    }
}

/// Everything a run is configured by.
#[derive(Debug, PartialEq)]
pub struct Prefs {
    pub api_key: String,
    pub global: GlobalPrefs,
    pub searches: Vec<MySearch>,
    pub blocked_channels: Vec<String>,
}

/// Mathematical content of a [`Prefs`].
pub struct PrefsView {
    pub api_key: Seq<char>,
    pub global: GlobalPrefsView,
    pub searches: Seq<MySearchView>,
    pub blocked_channels: Seq<Seq<char>>,
}

impl View for Prefs {
    type V = PrefsView;

    open spec fn view(&self) -> PrefsView {
        PrefsView {
            api_key: self.api_key@,
            global: self.global@,
            searches: search_views(self.searches@),
            blocked_channels: strs(self.blocked_channels@),
        }
    }
}

impl Clone for Prefs {
    fn clone(&self) -> (r: Self)
        ensures
            r@ == self@,
    {
        Prefs {
            api_key: self.api_key.clone(),
            global: self.global.clone(),
            searches: clone_searches(&self.searches),
            blocked_channels: clone_strings(&self.blocked_channels),
        }
    }
}

impl Default for Prefs {
    fn default() -> (r: Self)
        ensures
            r@ == default_prefs(),
    {
        let r = Prefs {
            api_key: String::new(),
            global: GlobalPrefs::default(),
            searches: Vec::new(),
            blocked_channels: Vec::new(),
        };
        assert(search_views(r.searches@) =~= Seq::<MySearchView>::empty());
        assert(strs(r.blocked_channels@) =~= Seq::<Seq<char>>::empty());
        r
    }
}

// ---------------------------------------------------------------------------
// Keeping the built-in searches present
// ---------------------------------------------------------------------------

/// Whether some search in `searches` has the given id.
pub open spec fn has_search_id(searches: Seq<MySearchView>, id: Seq<char>) -> bool {
    exists|i: int| 0 <= i < searches.len() && #[trigger] searches[i].id == id
}

/// `searches` followed by each of `defaults` whose id is not yet present by
/// the time its turn comes.
pub open spec fn with_missing(searches: Seq<MySearchView>, defaults: Seq<MySearchView>) -> Seq<
    MySearchView,
>
    decreases defaults.len(),
{
    if defaults.len() == 0 {
        searches
    } else {
        let pre = with_missing(searches, defaults.drop_last());
        if has_search_id(pre, defaults.last().id) {
            pre
        } else {
            pre.push(defaults.last())
        }
    }
}

/// Adding the defaults keeps what was there, in place, and afterwards every
/// default id is present.
pub proof fn lemma_with_missing(searches: Seq<MySearchView>, defaults: Seq<MySearchView>)
    ensures
        searches.len() <= with_missing(searches, defaults).len(),
        with_missing(searches, defaults).take(searches.len() as int) == searches,
        forall|k: int|
            0 <= k < defaults.len() ==> has_search_id(
                with_missing(searches, defaults),
                #[trigger] defaults[k].id,
            ),
    decreases defaults.len(),
{
    let out = with_missing(searches, defaults);
    if defaults.len() == 0 {
        assert(out.take(searches.len() as int) =~= searches);
    } else {
        let pre_d = defaults.drop_last();
        let pre = with_missing(searches, pre_d);
        lemma_with_missing(searches, pre_d);
        assert(out.take(searches.len() as int) =~= pre.take(searches.len() as int));
        assert forall|k: int| 0 <= k < defaults.len() implies has_search_id(
            out,
            #[trigger] defaults[k].id,
        ) by {
            if k < pre_d.len() {
                assert(pre_d[k] == defaults[k]);
                let i = choose|i: int| 0 <= i < pre.len() && #[trigger] pre[i].id == pre_d[k].id;
                assert(out[i].id == defaults[k].id);
            } else {
                if has_search_id(pre, defaults.last().id) {
                } else {
                    assert(out[out.len() - 1].id == defaults[k].id);
                }
            }
        }
    }
}

/// Whether some search in `searches` has the id `id`.
pub fn contains_search_id(searches: &Vec<MySearch>, id: &String) -> (r: bool)
    ensures
        r == has_search_id(search_views(searches@), id@),
{
    let mut i: usize = 0;
    while i < searches.len()
        invariant
            i <= searches.len(),
            forall|j: int| 0 <= j < i ==> search_views(searches@)[j].id != id@,
        decreases searches.len() - i,
    {
        if searches[i].id == *id {
            assert(search_views(searches@)[i as int].id == id@);
            return true;
        }
        i += 1;
    }
    false
}

/// Appends to `prefs.searches` every search of `defaults` whose id is not
/// present yet. Nothing else changes.
pub fn add_missing_defaults(prefs: &mut Prefs, defaults: &Prefs)
    ensures
        final(prefs)@.searches == with_missing(old(prefs)@.searches, defaults@.searches),
        final(prefs)@.api_key == old(prefs)@.api_key,
        final(prefs)@.global == old(prefs)@.global,
        final(prefs)@.blocked_channels == old(prefs)@.blocked_channels,
{
    let ghost start = prefs@.searches;
    let ghost all = defaults@.searches;
    let mut i: usize = 0;
    assert(all.take(0) =~= Seq::<MySearchView>::empty());
    while i < defaults.searches.len()
        invariant
            i <= defaults.searches.len(),
            all == defaults@.searches,
            prefs@.searches == with_missing(start, all.take(i as int)),
            prefs@.api_key == old(prefs)@.api_key,
            prefs@.global == old(prefs)@.global,
            prefs@.blocked_channels == old(prefs)@.blocked_channels,
        decreases defaults.searches.len() - i,
    {
        proof {
            let next = all.take(i + 1);
            assert(next.drop_last() =~= all.take(i as int));
            assert(next.last() == defaults.searches@[i as int]@);
        }
        if !contains_search_id(&prefs.searches, &defaults.searches[i].id) {
            let ghost before = prefs.searches@;
            prefs.searches.push(defaults.searches[i].clone());
            assert(search_views(prefs.searches@) =~= search_views(before).push(
                defaults.searches@[i as int]@,
            ));
        }
        i += 1;
    }
    assert(all.take(i as int) =~= all);
}

// ---------------------------------------------------------------------------
// Normalising the active bucket selection
// ---------------------------------------------------------------------------

/// The ids of the buckets, in configuration order, that `active` lists.
pub open spec fn active_hits(buckets: Seq<BucketView>, active: Seq<Seq<char>>) -> Seq<Seq<char>>
    decreases buckets.len(),
{
    if buckets.len() == 0 {
        Seq::empty()
    } else if active.contains(buckets.last().id) {
        active_hits(buckets.drop_last(), active).push(buckets.last().id)
    } else {
        active_hits(buckets.drop_last(), active)
    }
}

/// The selection that `active` stands for under `config`: the listed
/// buckets in configuration order; the fallback selection where none is
/// listed; and only the first of them where a single selection is asked for.
pub open spec fn normalized_active(config: FilterConfigView, active: Seq<Seq<char>>) -> Seq<
    Seq<char>,
> {
    let hits = active_hits(config.buckets, active);
    let chosen = if hits.len() == 0 {
        default_ids(config.buckets)
    } else {
        hits
    };
    if !config.allow_multiple && chosen.len() > 1 {
        chosen.take(1)
    } else {
        chosen
    }
}

proof fn lemma_active_hits(buckets: Seq<BucketView>, active: Seq<Seq<char>>)
    ensures
        forall|k: int|
            0 <= k < active_hits(buckets, active).len() ==> bucket_index(
                buckets,
                #[trigger] active_hits(buckets, active)[k],
            ) is Some,
    decreases buckets.len(),
{
    if buckets.len() > 0 {
        let pre = buckets.drop_last();
        lemma_active_hits(pre, active);
        assert forall|k: int| 0 <= k < active_hits(buckets, active).len() implies bucket_index(
            buckets,
            #[trigger] active_hits(buckets, active)[k],
        ) is Some by {
            let id = active_hits(buckets, active)[k];
            if k < active_hits(pre, active).len() {
                assert(active_hits(pre, active)[k] == id);
            }
        }
    }
}

/// A normalised selection is never empty while buckets exist, holds at most
/// one id where a single selection is asked for, and names only configured
/// buckets.
pub proof fn lemma_normalized_active(config: FilterConfigView, active: Seq<Seq<char>>)
    ensures
        config.buckets.len() > 0 ==> normalized_active(config, active).len() > 0,
        !config.allow_multiple ==> normalized_active(config, active).len() <= 1,
        forall|k: int|
            0 <= k < normalized_active(config, active).len() ==> bucket_index(
                config.buckets,
                #[trigger] normalized_active(config, active)[k],
            ) is Some,
{
    lemma_default_ids(config.buckets);
    lemma_active_hits(config.buckets, active);
    let hits = active_hits(config.buckets, active);
    let chosen = if hits.len() == 0 {
        default_ids(config.buckets)
    } else {
        hits
    };
    assert forall|k: int| 0 <= k < normalized_active(config, active).len() implies bucket_index(
        config.buckets,
        #[trigger] normalized_active(config, active)[k],
    ) is Some by {
        assert(normalized_active(config, active)[k] == chosen[k]);
    }
}

/// Whether `ids` lists `id`.
pub fn list_has(ids: &[String], id: &String) -> (r: bool)
    ensures
        r == strs(ids@).contains(id@),
{
    let mut i: usize = 0;
    while i < ids.len()
        invariant
            i <= ids.len(),
            forall|j: int| 0 <= j < i ==> strs(ids@)[j] != id@,
        decreases ids.len() - i,
    {
        if ids[i] == *id {
            assert(strs(ids@)[i as int] == id@);
            return true;
        }
        i += 1;
    }
    false
}

/// Replaces the active bucket ids by the selection they stand for; see
/// [`normalized_active`]. Nothing else changes.
pub fn normalize_duration_filters(global: &mut GlobalPrefs)
    ensures
        final(global)@.active_duration_bucket_ids == normalized_active(
            old(global)@.duration_filters,
            old(global)@.active_duration_bucket_ids,
        ),
        final(global)@.duration_filters == old(global)@.duration_filters,
        final(global)@.default_window == old(global)@.default_window,
        final(global)@.english_only == old(global)@.english_only,
        final(global)@.require_captions == old(global)@.require_captions,
        final(global)@.verify_captions_with_oauth == old(global)@.verify_captions_with_oauth,
        final(global)@.min_duration_secs == old(global)@.min_duration_secs,
        final(global)@.region_code == old(global)@.region_code,
{
    let ghost buckets = global@.duration_filters.buckets;
    let ghost listed = global@.active_duration_bucket_ids;
    let mut active: Vec<String> = Vec::new();
    let mut i: usize = 0;
    assert(buckets.take(0) =~= Seq::<BucketView>::empty());
    assert(strs(active@) =~= Seq::<Seq<char>>::empty());
    while i < global.duration_filters.buckets.len()
        invariant
            i <= global.duration_filters.buckets.len(),
            *global == *old(global),
            buckets == global@.duration_filters.buckets,
            listed == global@.active_duration_bucket_ids,
            strs(active@) == active_hits(buckets.take(i as int), listed),
        decreases global.duration_filters.buckets.len() - i,
    {
        proof {
            let next = buckets.take(i + 1);
            assert(next.drop_last() =~= buckets.take(i as int));
            assert(next.last() == global.duration_filters.buckets@[i as int]@);
        }
        if list_has(
            global.active_duration_bucket_ids.as_slice(),
            &global.duration_filters.buckets[i].id,
        ) {
            let ghost before = active@;
            active.push(global.duration_filters.buckets[i].id.clone());
            assert(strs(active@) =~= strs(before).push(
                global.duration_filters.buckets@[i as int].id@,
            ));
        }
        i += 1;
    }
    assert(buckets.take(i as int) =~= buckets);
    if active.len() == 0 {
        active = global.duration_filters.default_active_ids();
    }
    if !global.duration_filters.allow_multiple && active.len() > 1 {
        let ghost before = active@;
        active.truncate(1);
        assert(strs(active@) =~= strs(before).take(1));
    }
    global.active_duration_bucket_ids = active;
}

// ---------------------------------------------------------------------------
// Blocked channels
// ---------------------------------------------------------------------------

/// `s` without the `@` signs and the whitespace that it starts with.
pub open spec fn strip_handle_prefix(s: Seq<char>) -> Seq<char>
    decreases s.len(),
{
    if s.len() > 0 && (s[0] == '@' || is_whitespace(s[0])) {
        strip_handle_prefix(s.drop_first())
    } else {
        s
    }
}

/// The key under which a channel reference is kept on the block list: in
/// ASCII lower case, without whitespace at either end and without the `@`
/// signs, and the whitespace among them, that it starts with. The key of a
/// key is the key itself.
pub open spec fn channel_key(raw: Seq<char>) -> Seq<char> {
    ascii_lower(strip_handle_prefix(trim(raw)))
}

proof fn lemma_strip_handle_prefix_step(s: Seq<char>, i: int)
    requires
        0 <= i < s.len(),
        s[i] == '@' || is_whitespace(s[i]),
    ensures
        strip_handle_prefix(s.subrange(i, s.len() as int)) == strip_handle_prefix(
            s.subrange(i + 1, s.len() as int),
        ),
{
    let t = s.subrange(i, s.len() as int);
    assert(t[0] == s[i]);
    assert(t.drop_first() =~= s.subrange(i + 1, s.len() as int));
}

/// What is left after stripping is the end of the text; it starts neither
/// with `@` nor with whitespace, and stripping it again changes nothing.
pub proof fn lemma_strip_handle_prefix(s: Seq<char>)
    ensures
        strip_handle_prefix(s).len() <= s.len(),
        strip_handle_prefix(s) == s.subrange(
            s.len() - strip_handle_prefix(s).len(),
            s.len() as int,
        ),
        strip_handle_prefix(s).len() > 0 ==> strip_handle_prefix(s)[0] != '@' && !is_whitespace(
            strip_handle_prefix(s)[0],
        ),
        strip_handle_prefix(strip_handle_prefix(s)) == strip_handle_prefix(s),
    decreases s.len(),
{
    if s.len() > 0 && (s[0] == '@' || is_whitespace(s[0])) {
        let t = s.drop_first();
        lemma_strip_handle_prefix(t);
        let k = strip_handle_prefix(t).len();
        assert(t.subrange(t.len() - k, t.len() as int) =~= s.subrange(s.len() - k, s.len() as int));
    } else {
        assert(s =~= s.subrange(0, s.len() as int));
    }
}

/// The key under which a channel reference is kept on the block list.
pub fn channel_key_chars(raw: &Vec<char>) -> (r: Vec<char>)
    ensures
        r@ == channel_key(raw@),
{
    let t = trim_chars(raw);
    let n = t.len();
    let mut i: usize = 0;
    assert(t@.subrange(0, n as int) =~= t@);
    while i < n && (t[i] == '@' || crate::text::char_is_whitespace(t[i]))
        invariant
            i <= n == t.len(),
            strip_handle_prefix(t@) == strip_handle_prefix(t@.subrange(i as int, n as int)),
        decreases n - i,
    {
        proof {
            lemma_strip_handle_prefix_step(t@, i as int);
        }
        i += 1;
    }
    assert(strip_handle_prefix(t@) == t@.subrange(i as int, n as int)) by {
        let rest = t@.subrange(i as int, n as int);
        if i < n {
            assert(rest[0] == t@[i as int]);
        }
    }
    let stripped = sub_chars(&t, i, n);
    lower_chars(&stripped)
}

/// Key and label of a blocked-channel entry `key|label`. The key is the
/// block-list key of what stands before the first `|`. An entry without `|`
/// is its own label; an empty label falls back to the trimmed key text; a
/// blank entry gives two empty strings.
pub open spec fn block_parts(entry: Seq<char>) -> (Seq<char>, Seq<char>) {
    let t = trim(entry);
    if t.len() == 0 {
        (Seq::empty(), Seq::empty())
    } else {
        match first_index_of(t, '|') {
            Some(i) => {
                let raw_key = trim(t.subrange(0, i));
                let raw_label = trim(t.subrange(i + 1, t.len() as int));
                (
                    channel_key(raw_key),
                    if raw_label.len() == 0 {
                        raw_key
                    } else {
                        raw_label
                    },
                )
            },
            None => (channel_key(t), t),
        }
    }
}

/// The key of a blocked-channel entry: the only part that matching uses.
pub open spec fn block_key(entry: Seq<char>) -> Seq<char> {
    block_parts(entry).0
}

/// The entry `key|label` that a blocked-channel entry is stored as.
pub open spec fn normal_entry(entry: Seq<char>) -> Seq<char> {
    block_parts(entry).0 + seq!['|'] + block_parts(entry).1
}

/// The keys of the given entries, one for one.
pub open spec fn block_keys(entries: Seq<Seq<char>>) -> Seq<Seq<char>> {
    Seq::new(entries.len(), |i: int| block_key(entries[i]))
}

fn parse_block_chars(entry: &str) -> (r: (Vec<char>, Vec<char>))
    ensures
        r.0@ == block_parts(entry@).0,
        r.1@ == block_parts(entry@).1,
{
    let raw = chars_of(entry);
    let t = trim_chars(&raw);
    if t.len() == 0 {
        return (Vec::new(), Vec::new());
    }
    match find_char(&t, '|') {
        Some(i) => {
            let left = sub_chars(&t, 0, i);
            let right = sub_chars(&t, i + 1, t.len());
            let raw_key = trim_chars(&left);
            let raw_label = trim_chars(&right);
            let key = channel_key_chars(&raw_key);
            if raw_label.len() == 0 {
                (key, raw_key)
            } else {
                (key, raw_label)
            }
        },
        None => {
            let key = channel_key_chars(&t);
            (key, t)
        },
    }
}

/// Splits a blocked-channel entry into its key and its label.
pub fn parse_block_entry(entry: &str) -> (r: (String, String))
    ensures
        r.0@ == block_parts(entry@).0,
        r.1@ == block_parts(entry@).1,
{
    let parts = parse_block_chars(entry);
    (string_of(&parts.0), string_of(&parts.1))
}

/// The keys of the given entries, one for one and in order.
pub fn blocked_keys(entries: &[String]) -> (r: Vec<String>)
    ensures
        strs(r@) == block_keys(strs(entries@)),
{
    let mut r: Vec<String> = Vec::new();
    let mut i: usize = 0;
    while i < entries.len()
        invariant
            i <= entries.len(),
            r@.len() == i,
            forall|j: int| 0 <= j < i ==> r@[j]@ == block_key(entries@[j]@),
        decreases entries.len() - i,
    {
        let parts = parse_block_entry(entries[i].as_str());
        r.push(parts.0);
        i += 1;
    }
    assert(strs(r@) =~= block_keys(strs(entries@)));
    r
}

/// A stored blocked-channel entry with the key it is ordered by.
pub struct KeyedEntry {
    pub key: Seq<char>,
    pub text: Seq<char>,
}

/// `sorted` with `e` put in key order, unless its key is already there.
pub open spec fn insert_entry(sorted: Seq<KeyedEntry>, e: KeyedEntry) -> Seq<KeyedEntry>
    decreases sorted.len(),
{
    if sorted.len() == 0 {
        seq![e]
    } else if sorted.last().key == e.key {
        sorted
    } else if lex_lt(sorted.last().key, e.key) {
        sorted.push(e)
    } else {
        insert_entry(sorted.drop_last(), e).push(sorted.last())
    }
}

/// The entries with a non-empty key, one per key (the first one met), in
/// ascending key order.
pub open spec fn normalized_entries(src: Seq<Seq<char>>) -> Seq<KeyedEntry>
    decreases src.len(),
{
    if src.len() == 0 {
        Seq::empty()
    } else {
        let pre = normalized_entries(src.drop_last());
        let key = block_key(src.last());
        if key.len() == 0 {
            pre
        } else {
            insert_entry(pre, KeyedEntry { key, text: normal_entry(src.last()) })
        }
    }
}

/// The normal form of a blocked-channel list.
pub open spec fn normalized_block_list(src: Seq<Seq<char>>) -> Seq<Seq<char>> {
    Seq::new(normalized_entries(src).len(), |i: int| normalized_entries(src)[i].text)
}

/// Keys strictly ascending.
pub open spec fn keys_ascending(s: Seq<KeyedEntry>) -> bool {
    forall|i: int, j: int| 0 <= i < j < s.len() ==> lex_lt(#[trigger] s[i].key, #[trigger] s[j].key)
}

/// Whether some entry of `s` has the key `key`.
pub open spec fn has_key(s: Seq<KeyedEntry>, key: Seq<char>) -> bool {
    exists|i: int| 0 <= i < s.len() && #[trigger] s[i].key == key
}

/// Inserting keeps the keys strictly ascending, keeps every key that was
/// there, adds the new one, and adds no other.
pub proof fn lemma_insert_entry(sorted: Seq<KeyedEntry>, e: KeyedEntry)
    requires
        keys_ascending(sorted),
    ensures
        keys_ascending(insert_entry(sorted, e)),
        has_key(insert_entry(sorted, e), e.key),
        forall|k: Seq<char>| has_key(sorted, k) ==> has_key(insert_entry(sorted, e), k),
        forall|i: int|
            0 <= i < insert_entry(sorted, e).len() ==> (#[trigger] insert_entry(sorted, e)[i]
                == e || has_key(sorted, insert_entry(sorted, e)[i].key)),
        has_key(sorted, e.key) ==> insert_entry(sorted, e) == sorted,
    decreases sorted.len(),
{
    let out = insert_entry(sorted, e);
    if sorted.len() == 0 {
        assert(out[0].key == e.key);
    } else if sorted.last().key == e.key {
        assert(sorted[sorted.len() - 1].key == e.key);
    } else if lex_lt(sorted.last().key, e.key) {
        assert(out[out.len() - 1].key == e.key);
        assert forall|i: int, j: int| 0 <= i < j < out.len() implies lex_lt(
            #[trigger] out[i].key,
            #[trigger] out[j].key,
        ) by {
            if j == out.len() - 1 {
                if i < sorted.len() - 1 {
                    assert(lex_lt(sorted[i].key, sorted[sorted.len() - 1].key));
                    lemma_lex_transitive(sorted[i].key, sorted.last().key, e.key);
                }
            } else {
                assert(lex_lt(sorted[i].key, sorted[j].key));
            }
        }
        assert forall|k: Seq<char>| has_key(sorted, k) implies has_key(out, k) by {
            let i = choose|i: int| 0 <= i < sorted.len() && #[trigger] sorted[i].key == k;
            assert(out[i].key == k);
        }
        assert forall|i: int| 0 <= i < out.len() implies (#[trigger] out[i] == e || has_key(
            sorted,
            out[i].key,
        )) by {
            if i < sorted.len() {
                assert(sorted[i].key == out[i].key);
            }
        }
        if has_key(sorted, e.key) {
            let i = choose|i: int| 0 <= i < sorted.len() && #[trigger] sorted[i].key == e.key;
            if i < sorted.len() - 1 {
                assert(lex_lt(sorted[i].key, sorted[sorted.len() - 1].key));
                lemma_lex_transitive(sorted[i].key, sorted.last().key, e.key);
            }
            lemma_lex_irreflexive(e.key);
        }
    } else {
        let pre = sorted.drop_last();
        let last = sorted.last();
        assert(keys_ascending(pre)) by {
            assert forall|i: int, j: int| 0 <= i < j < pre.len() implies lex_lt(
                #[trigger] pre[i].key,
                #[trigger] pre[j].key,
            ) by {
                assert(lex_lt(sorted[i].key, sorted[j].key));
            }
        }
        lemma_insert_entry(pre, e);
        let mid = insert_entry(pre, e);
        // e.key is below last.key
        assert(lex_lt(e.key, last.key)) by {
            if !lex_lt(e.key, last.key) {
                lemma_lex_total(e.key, last.key);
            }
        }
        assert forall|i: int, j: int| 0 <= i < j < out.len() implies lex_lt(
            #[trigger] out[i].key,
            #[trigger] out[j].key,
        ) by {
            if j == out.len() - 1 {
                assert(out[i] == mid[i]);
                if mid[i] == e {
                } else {
                    assert(has_key(pre, mid[i].key));
                    let a = choose|a: int| 0 <= a < pre.len() && #[trigger] pre[a].key == mid[i].key;
                    assert(lex_lt(sorted[a].key, sorted[sorted.len() - 1].key));
                }
            } else {
                assert(lex_lt(mid[i].key, mid[j].key));
            }
        }
        assert(has_key(out, e.key)) by {
            let i = choose|i: int| 0 <= i < mid.len() && #[trigger] mid[i].key == e.key;
            assert(out[i].key == e.key);
        }
        assert forall|k: Seq<char>| has_key(sorted, k) implies has_key(out, k) by {
            let i = choose|i: int| 0 <= i < sorted.len() && #[trigger] sorted[i].key == k;
            if i < pre.len() {
                assert(pre[i].key == k);
                assert(has_key(pre, k));
                let a = choose|a: int| 0 <= a < mid.len() && #[trigger] mid[a].key == k;
                assert(out[a].key == k);
            } else {
                assert(out[out.len() - 1].key == k);
            }
        }
        assert forall|i: int| 0 <= i < out.len() implies (#[trigger] out[i] == e || has_key(
            sorted,
            out[i].key,
        )) by {
            if i < mid.len() {
                assert(out[i] == mid[i]);
                if mid[i] != e {
                    let a = choose|a: int| 0 <= a < pre.len() && #[trigger] pre[a].key == mid[i].key;
                    assert(sorted[a].key == mid[i].key);
                }
            } else {
                assert(sorted[sorted.len() - 1].key == out[i].key);
            }
        }
        if has_key(sorted, e.key) {
            let i = choose|i: int| 0 <= i < sorted.len() && #[trigger] sorted[i].key == e.key;
            assert(i < pre.len());
            assert(pre[i].key == e.key);
            assert(has_key(pre, e.key));
            assert(mid == pre);
            assert(out =~= sorted);
        }
    }
}

/// In a normalised list the keys are unique and sorted: they ascend strictly.
/// Every key is non-empty and is the key of some entry of the source, and
/// every non-empty key of the source is there.
pub proof fn lemma_normalized_entries(src: Seq<Seq<char>>)
    ensures
        keys_ascending(normalized_entries(src)),
        forall|i: int|
            0 <= i < normalized_entries(src).len() ==> (#[trigger] normalized_entries(
                src,
            )[i]).key.len() > 0,
        forall|j: int|
            0 <= j < src.len() && block_key(#[trigger] src[j]).len() > 0 ==> has_key(
                normalized_entries(src),
                block_key(src[j]),
            ),
        forall|i: int|
            0 <= i < normalized_entries(src).len() ==> exists|j: int|
                0 <= j < src.len() && (#[trigger] normalized_entries(src)[i]).key == block_key(
                    src[j],
                ) && normalized_entries(src)[i].text == normal_entry(#[trigger] src[j]),
    decreases src.len(),
{
    let out = normalized_entries(src);
    if src.len() > 0 {
        let pre_src = src.drop_last();
        let pre = normalized_entries(pre_src);
        lemma_normalized_entries(pre_src);
        let key = block_key(src.last());
        let e = KeyedEntry { key, text: normal_entry(src.last()) };
        if key.len() > 0 {
            lemma_insert_entry(pre, e);
        }
        assert forall|i: int| 0 <= i < out.len() implies (#[trigger] out[i]).key.len() > 0 by {
            if key.len() > 0 && out[i] != e {
                let a = choose|a: int| 0 <= a < pre.len() && #[trigger] pre[a].key == out[i].key;
            }
        }
        assert forall|j: int| 0 <= j < src.len() && block_key(#[trigger] src[j]).len()
            > 0 implies has_key(out, block_key(src[j])) by {
            if j < pre_src.len() {
                assert(pre_src[j] == src[j]);
                assert(has_key(pre, block_key(src[j])));
            }
        }
        assert forall|i: int| 0 <= i < out.len() implies exists|j: int|
            0 <= j < src.len() && (#[trigger] out[i]).key == block_key(src[j]) && out[i].text
                == normal_entry(#[trigger] src[j]) by {
            if key.len() > 0 && out[i] == e {
                assert(out[i].key == block_key(src[src.len() - 1]));
            } else {
                lemma_entry_from_pre(pre, e, key.len() > 0, i);
                let a = choose|a: int| 0 <= a < pre.len() && pre[a] == out[i];
                let j = choose|j: int|
                    0 <= j < pre_src.len() && (#[trigger] pre[a]).key == block_key(pre_src[j])
                        && pre[a].text == normal_entry(#[trigger] pre_src[j]);
                assert(pre_src[j] == src[j]);
            }
        }
    }
}

proof fn lemma_entry_from_pre(pre: Seq<KeyedEntry>, e: KeyedEntry, inserted: bool, i: int)
    requires
        0 <= i < (if inserted {
            insert_entry(pre, e)
        } else {
            pre
        }).len(),
        (if inserted {
            insert_entry(pre, e)
        } else {
            pre
        })[i] != e,
    ensures
        exists|a: int|
            0 <= a < pre.len() && pre[a] == (if inserted {
                insert_entry(pre, e)
            } else {
                pre
            })[i],
    decreases pre.len(),
{
    if inserted {
        if pre.len() == 0 {
        } else if pre.last().key == e.key {
            assert(pre[i] == insert_entry(pre, e)[i]);
        } else if lex_lt(pre.last().key, e.key) {
            assert(pre[i] == insert_entry(pre, e)[i]);
        } else {
            let mid = insert_entry(pre.drop_last(), e);
            if i < mid.len() {
                lemma_entry_from_pre(pre.drop_last(), e, true, i);
                let a = choose|a: int| 0 <= a < pre.drop_last().len() && pre.drop_last()[a] == mid[i];
                assert(pre[a] == insert_entry(pre, e)[i]);
            } else {
                assert(pre[pre.len() - 1] == insert_entry(pre, e)[i]);
            }
        }
    }
}

/// Where the scan from the back stops is where `insert_entry` puts `e`.
proof fn lemma_insert_position(sorted: Seq<KeyedEntry>, e: KeyedEntry, p: int)
    requires
        0 <= p <= sorted.len(),
        forall|a: int| p <= a < sorted.len() ==> lex_lt(e.key, #[trigger] sorted[a].key),
        p > 0 ==> !lex_lt(e.key, sorted[p - 1].key),
    ensures
        insert_entry(sorted, e) == if p > 0 && sorted[p - 1].key == e.key {
            sorted
        } else {
            sorted.insert(p, e)
        },
    decreases sorted.len(),
{
    if sorted.len() == 0 {
        assert(seq![e] =~= sorted.insert(0, e));
    } else if p == sorted.len() {
        let last = sorted.last();
        if last.key != e.key {
            if !lex_lt(last.key, e.key) {
                lemma_lex_total(last.key, e.key);
            }
            assert(sorted.push(e) =~= sorted.insert(p, e));
        }
    } else {
        let last = sorted.last();
        let pre = sorted.drop_last();
        assert(lex_lt(e.key, sorted[sorted.len() - 1].key));
        lemma_lex_irreflexive(e.key);
        if lex_lt(last.key, e.key) {
            lemma_lex_transitive(e.key, last.key, e.key);
        }
        assert forall|a: int| p <= a < pre.len() implies lex_lt(e.key, #[trigger] pre[a].key) by {
            assert(pre[a] == sorted[a]);
        }
        if p > 0 {
            assert(pre[p - 1] == sorted[p - 1]);
        }
        lemma_insert_position(pre, e, p);
        if p > 0 && sorted[p - 1].key == e.key {
            assert(pre.push(last) =~= sorted);
        } else {
            assert(pre.insert(p, e).push(last) =~= sorted.insert(p, e));
        }
    }
}

/// Brings a blocked-channel list into its normal form: one entry
/// `key|label` per non-empty key, the first one met, in ascending key order.
/// A list in its normal form is left as it is.
pub fn normalize_block_list(list: &mut Vec<String>)
    ensures
        strs(final(list)@) == normalized_block_list(strs(old(list)@)),
        normalized_block_list(strs(final(list)@)) == strs(final(list)@),
{
    let ghost src = strs(list@);
    proof {
        lemma_normalize_idempotent(src);
    }
    let mut keys: Vec<Vec<char>> = Vec::new();
    let mut out: Vec<String> = Vec::new();
    let ghost mut model: Seq<KeyedEntry> = Seq::empty();
    let mut i: usize = 0;
    assert(src.take(0) =~= Seq::<Seq<char>>::empty());
    while i < list.len()
        invariant
            i <= list.len(),
            strs(list@) == src,
            model == normalized_entries(src.take(i as int)),
            keys@.len() == model.len(),
            out@.len() == model.len(),
            forall|a: int|
                #![trigger keys@[a]]
                #![trigger model[a]]
                0 <= a < model.len() ==> keys@[a]@ == model[a].key,
            forall|a: int|
                #![trigger out@[a]]
                #![trigger model[a]]
                0 <= a < model.len() ==> out@[a]@ == model[a].text,
        decreases list.len() - i,
    {
        let parts = parse_block_chars(list[i].as_str());
        proof {
            let next = src.take(i + 1);
            assert(next.drop_last() =~= src.take(i as int));
            assert(next.last() == list@[i as int]@);
        }
        if parts.0.len() > 0 {
            let ghost e = KeyedEntry { key: parts.0@, text: normal_entry(list@[i as int]@) };
            let mut p: usize = keys.len();
            while p > 0 && chars_lt(&parts.0, &keys[p - 1])
                invariant
                    p <= keys.len(),
                    keys@.len() == model.len(),
                    e.key == parts.0@,
                    forall|a: int|
                        #![trigger keys@[a]]
                        #![trigger model[a]]
                        0 <= a < model.len() ==> keys@[a]@ == model[a].key,
                    forall|a: int| p <= a < model.len() ==> lex_lt(e.key, #[trigger] model[a].key),
                decreases p,
            {
                p -= 1;
            }
            let present = p > 0 && chars_eq(&keys[p - 1], &parts.0);
            proof {
                lemma_insert_position(model, e, p as int);
            }
            if !present {
                let mut text: Vec<char> = Vec::new();
                push_all(&mut text, &parts.0);
                text.push('|');
                push_all(&mut text, &parts.1);
                assert(text@ =~= e.text);
                let stored = string_of(&text);
                keys.insert(p, parts.0);
                out.insert(p, stored);
                proof {
                    model = model.insert(p as int, e);
                }
            }
        }
        i += 1;
    }
    assert(src.take(i as int) =~= src);
    assert(strs(out@) =~= normalized_block_list(src));
    *list = out;
}

// ---------------------------------------------------------------------------
// Normal entries are fixed points
// ---------------------------------------------------------------------------

proof fn lemma_lower_keeps_absence(s: Seq<char>, c: char)
    requires
        !('a' <= c && c <= 'z'),
        forall|i: int| 0 <= i < s.len() ==> s[i] != c,
    ensures
        forall|i: int| 0 <= i < s.len() ==> ascii_lower(s)[i] != c,
{
}

/// A key holds no bar unless the reference does; it does not start with
/// `@`, has no whitespace at either end, is in ASCII lower case, and is its
/// own key.
pub proof fn lemma_channel_key(raw: Seq<char>)
    ensures
        (forall|i: int| 0 <= i < raw.len() ==> raw[i] != '|') ==> (forall|i: int|
            0 <= i < channel_key(raw).len() ==> channel_key(raw)[i] != '|'),
        channel_key(raw).len() > 0 ==> channel_key(raw)[0] != '@' && !is_whitespace(
            channel_key(raw)[0],
        ) && !is_whitespace(channel_key(raw).last()),
        channel_key(raw).len() > 0 ==> trim(raw).len() > 0,
        ascii_lower(channel_key(raw)) == channel_key(raw),
        trim(channel_key(raw)) == channel_key(raw),
        strip_handle_prefix(channel_key(raw)) == channel_key(raw),
        channel_key(channel_key(raw)) == channel_key(raw),
{
    crate::text::lemma_trim_is_subrange(raw);
    crate::text::lemma_trim_edges(raw);
    let t = trim(raw);
    let (a, b) = choose|a: int, b: int|
        0 <= a <= b <= raw.len() && trim(raw) == #[trigger] raw.subrange(a, b);
    lemma_strip_handle_prefix(t);
    let s = strip_handle_prefix(t);
    let k = channel_key(raw);
    if forall|i: int| 0 <= i < raw.len() ==> raw[i] != '|' {
        assert forall|i: int| 0 <= i < s.len() implies s[i] != '|' by {
            assert(s[i] == t[t.len() - s.len() + i]);
            assert(t[t.len() - s.len() + i] == raw[a + (t.len() - s.len() + i)]);
        }
        lemma_lower_keeps_absence(s, '|');
    }
    crate::text::lemma_lower_idempotent(s);
    if s.len() > 0 {
        assert(s.last() == t.last());
        assert(k[0] == crate::text::lower_char(s[0]));
        assert(k.last() == crate::text::lower_char(s.last()));
    }
    crate::text::lemma_trim_clean(k);
    assert(strip_handle_prefix(k) == k);
}

/// The key of an entry holds no bar, does not start with `@`, has no
/// whitespace at either end and is in ASCII lower case; the label of an
/// entry with a key is trimmed and not empty.
pub proof fn lemma_block_parts(entry: Seq<char>)
    ensures
        forall|i: int| 0 <= i < block_key(entry).len() ==> block_key(entry)[i] != '|',
        block_key(entry).len() > 0 ==> block_key(entry)[0] != '@',
        channel_key(block_key(entry)) == block_key(entry),
        trim(block_key(entry)) == block_key(entry),
        block_key(entry).len() > 0 ==> block_parts(entry).1.len() > 0,
        trim(block_parts(entry).1) == block_parts(entry).1,
{
    let t = trim(entry);
    crate::text::lemma_trim_idempotent(entry);
    if t.len() == 0 {
        lemma_channel_key(Seq::empty());
        assert(trim(Seq::<char>::empty()) =~= Seq::<char>::empty());
        assert(channel_key(Seq::<char>::empty()) =~= Seq::<char>::empty());
    } else {
        crate::text::lemma_first_index_of(t, '|');
        match first_index_of(t, '|') {
            Some(i) => {
                let left = t.subrange(0, i);
                let right = t.subrange(i + 1, t.len() as int);
                assert forall|j: int| 0 <= j < left.len() implies left[j] != '|' by {
                    assert(left[j] == t[j]);
                }
                crate::text::lemma_trim_idempotent(left);
                crate::text::lemma_trim_idempotent(right);
                let raw_key = trim(left);
                crate::text::lemma_trim_is_subrange(left);
                let (a, b) = choose|a: int, b: int|
                    0 <= a <= b <= left.len() && trim(left) == #[trigger] left.subrange(a, b);
                assert forall|j: int| 0 <= j < raw_key.len() implies raw_key[j] != '|' by {
                    assert(raw_key[j] == left[a + j]);
                }
                lemma_channel_key(raw_key);
                assert(channel_key(raw_key) == block_key(entry));
            },
            None => {
                lemma_channel_key(t);
                assert(channel_key(t) == block_key(entry));
            },
        }
    }
}

/// An entry in its normal form stays as it is when it is read again: its
/// key is the key it was stored under, and its label its label.
pub proof fn lemma_normal_entry_fixed(entry: Seq<char>)
    requires
        block_key(entry).len() > 0,
    ensures
        block_parts(normal_entry(entry)) == block_parts(entry),
        normal_entry(normal_entry(entry)) == normal_entry(entry),
{
    let k = block_key(entry);
    let l = block_parts(entry).1;
    let n = normal_entry(entry);
    lemma_block_parts(entry);
    crate::text::lemma_trim_edges(k);
    crate::text::lemma_trim_edges(l);
    assert(n[0] == k[0]);
    assert(n.last() == l.last());
    crate::text::lemma_trim_clean(n);
    crate::text::lemma_first_index_after(k, '|', l);
    assert(n =~= k + seq!['|'] + l);
    assert(n.subrange(0, k.len() as int) =~= k);
    assert(n.subrange(k.len() as int + 1, n.len() as int) =~= l);
}

/// Normalising is idempotent: a list in its normal form stays as it is
/// when it is normalised again.
pub proof fn lemma_normalize_idempotent(src: Seq<Seq<char>>)
    ensures
        normalized_block_list(normalized_block_list(src)) == normalized_block_list(src),
{
    let out = normalized_entries(src);
    let texts = normalized_block_list(src);
    lemma_normalized_entries(src);
    assert forall|i: int| 0 <= i < out.len() implies block_key(#[trigger] texts[i]) == out[i].key
        && normal_entry(texts[i]) == out[i].text by {
        let j = choose|j: int|
            0 <= j < src.len() && (#[trigger] out[i]).key == block_key(src[j]) && out[i].text
                == normal_entry(#[trigger] src[j]);
        assert(out[i].key.len() > 0);
        lemma_normal_entry_fixed(src[j]);
    }
    lemma_renormalize(out, texts, out.len() as int);
    assert(texts.take(texts.len() as int) =~= texts);
    assert(out.take(out.len() as int) =~= out);
    assert(normalized_block_list(texts) =~= texts);
}

proof fn lemma_renormalize(out: Seq<KeyedEntry>, texts: Seq<Seq<char>>, n: int)
    requires
        0 <= n <= out.len(),
        texts.len() == out.len(),
        keys_ascending(out),
        forall|i: int| 0 <= i < out.len() ==> (#[trigger] out[i]).key.len() > 0,
        forall|i: int|
            0 <= i < out.len() ==> block_key(#[trigger] texts[i]) == out[i].key && normal_entry(
                texts[i],
            ) == out[i].text,
    ensures
        normalized_entries(texts.take(n)) == out.take(n),
    decreases n,
{
    if n == 0 {
        assert(texts.take(0) =~= Seq::<Seq<char>>::empty());
        assert(out.take(0) =~= Seq::<KeyedEntry>::empty());
    } else {
        lemma_renormalize(out, texts, n - 1);
        let cur = texts.take(n);
        assert(cur.drop_last() =~= texts.take(n - 1));
        assert(cur.last() == texts[n - 1]);
        let pre = out.take(n - 1);
        let e = KeyedEntry { key: out[n - 1].key, text: out[n - 1].text };
        assert(e == out[n - 1]);
        if n - 1 > 0 {
            assert(pre.last() == out[n - 2]);
            assert(lex_lt(out[n - 2].key, out[n - 1].key));
            lemma_lex_irreflexive(out[n - 1].key);
        }
        assert(insert_entry(pre, e) =~= out.take(n));
    }
}

} // verus!
