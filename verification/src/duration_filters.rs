//! The duration bucket selection: which buckets are ticked, what a toggle
//! does to them, and the rule that the selection is never left empty.

use vstd::prelude::*;
use vstd::string::*;
use crate::prefs::{
    bucket_index, lemma_bucket_index, lemma_bucket_index_extends, list_has, BucketView,
    DurationBucketConfig, GlobalPrefs,
};
use crate::text::{chars_eq, chars_of, strs};

verus! {

/// A bucket with its tick.
#[derive(Debug)]
pub struct DurationBucketState {
    pub config: DurationBucketConfig,
    pub selected: bool,
}

impl Clone for DurationBucketState {
    fn clone(&self) -> (r: Self)
        ensures
            r.config@ == self.config@,
            r.selected == self.selected,
    {
        DurationBucketState { config: self.config.clone(), selected: self.selected }
    }
}

/// The buckets on offer with their ticks, and whether several may be ticked.
#[derive(Debug)]
pub struct DurationFilterState {
    pub allow_multiple: bool,
    pub buckets: Vec<DurationBucketState>,
}

/// Mathematical content of a [`DurationFilterState`]: the buckets and, one
/// for one, whether each is ticked.
pub struct FilterStateView {
    pub allow_multiple: bool,
    pub configs: Seq<BucketView>,
    pub flags: Seq<bool>,
}

impl View for DurationFilterState {
    type V = FilterStateView;

    open spec fn view(&self) -> FilterStateView {
        FilterStateView {
            allow_multiple: self.allow_multiple,
            configs: Seq::new(self.buckets@.len(), |i: int| self.buckets@[i].config@),
            flags: Seq::new(self.buckets@.len(), |i: int| self.buckets@[i].selected),
        }
    }
}

// ---------------------------------------------------------------------------
// Ticks
// ---------------------------------------------------------------------------

/// Index of the first tick.
pub open spec fn first_true(f: Seq<bool>) -> Option<int>
    decreases f.len(),
{
    if f.len() == 0 {
        None
    } else {
        match first_true(f.drop_last()) {
            Some(i) => Some(i),
            None => if f.last() {
                Some(f.len() - 1)
            } else {
                None
            },
        }
    }
}

/// Whether anything is ticked.
pub open spec fn any_true(f: Seq<bool>) -> bool {
    first_true(f) is Some
}

/// At most one tick.
pub open spec fn at_most_one(f: Seq<bool>) -> bool {
    forall|i: int, j: int| 0 <= i < j < f.len() ==> !(#[trigger] f[i] && #[trigger] f[j])
}

/// `n` ticks of which only the one at `idx` is set.
pub open spec fn only_flags(n: nat, idx: int) -> Seq<bool> {
    Seq::new(n, |i: int| i == idx)
}

/// For every bucket, whether it is a catch-all.
pub open spec fn catch_all_flags(configs: Seq<BucketView>) -> Seq<bool> {
    Seq::new(configs.len(), |i: int| configs[i].is_catch_all())
}

/// For every bucket, whether it is marked as selected by default.
pub open spec fn default_flags(configs: Seq<BucketView>) -> Seq<bool> {
    Seq::new(configs.len(), |i: int| configs[i].default_selected)
}

/// For every bucket, whether `ids` lists its id.
pub open spec fn listed_flags(configs: Seq<BucketView>, ids: Seq<Seq<char>>) -> Seq<bool> {
    Seq::new(configs.len(), |i: int| ids.contains(configs[i].id))
}

/// The ticks that fall back on the catch-all: every catch-all bucket and
/// nothing else; where there is no catch-all, the first bucket alone.
pub open spec fn activate_catch_all_flags(configs: Seq<BucketView>) -> Seq<bool> {
    let c = catch_all_flags(configs);
    if any_true(c) {
        c
    } else {
        only_flags(configs.len(), 0)
    }
}

/// The ticks with a selection made sure of: unchanged if anything is
/// ticked; else the first bucket marked default alone; else the catch-all
/// fallback.
pub open spec fn ensure_minimum_flags(configs: Seq<BucketView>, f: Seq<bool>) -> Seq<bool> {
    if any_true(f) {
        f
    } else {
        match first_true(default_flags(configs)) {
            Some(i) => only_flags(configs.len(), i),
            None => activate_catch_all_flags(configs),
        }
    }
}

/// The ticks with a single selection enforced where several are not
/// allowed: only the first tick stays.
pub open spec fn enforce_single_flags(allow_multiple: bool, f: Seq<bool>) -> Seq<bool> {
    if allow_multiple {
        f
    } else {
        match first_true(f) {
            Some(k) => only_flags(f.len(), k),
            None => f,
        }
    }
}

/// What a toggle of the bucket at `index` does before the selection is
/// normalised. A toggle of a catch-all ticks the buckets of its id and
/// unticks every other bucket, whether it was ticked before or not. Another
/// bucket, where several ticks are allowed,
/// flips: ticked, it unticks every catch-all; unticked, it leaves the rest
/// alone unless nothing is ticked any more, in which case the catch-all
/// fallback applies. Where only one tick is allowed, the bucket becomes the
/// only one ticked.
pub open spec fn toggle_step(
    configs: Seq<BucketView>,
    allow_multiple: bool,
    f: Seq<bool>,
    id: Seq<char>,
    index: int,
) -> Seq<bool> {
    if configs[index].is_catch_all() {
        Seq::new(f.len(), |i: int| configs[i].id == id)
    } else if allow_multiple {
        let t = f.update(index, !f[index]);
        if !f[index] {
            Seq::new(f.len(), |i: int| t[i] && !configs[i].is_catch_all())
        } else if any_true(t) {
            t
        } else {
            activate_catch_all_flags(configs)
        }
    } else {
        only_flags(f.len(), index)
    }
}

/// The ticks after a toggle of the first bucket with the given id: the
/// toggle itself, then the normalisation. An id that no bucket has changes
/// nothing.
pub open spec fn toggled(
    configs: Seq<BucketView>,
    allow_multiple: bool,
    f: Seq<bool>,
    id: Seq<char>,
) -> Seq<bool> {
    match bucket_index(configs, id) {
        None => f,
        Some(index) => enforce_single_flags(
            allow_multiple,
            ensure_minimum_flags(
                configs,
                enforce_single_flags(
                    allow_multiple,
                    toggle_step(configs, allow_multiple, f, id, index),
                ),
            ),
        ),
    }
}

/// Whether a toggle reports a change: some step of it altered a tick.
/// Flipping a bucket that is no catch-all, where several ticks are allowed,
/// always counts.
pub open spec fn toggle_changes(
    configs: Seq<BucketView>,
    allow_multiple: bool,
    f: Seq<bool>,
    id: Seq<char>,
) -> bool {
    match bucket_index(configs, id) {
        None => false,
        Some(index) => {
            let s1 = toggle_step(configs, allow_multiple, f, id, index);
            let s2 = enforce_single_flags(allow_multiple, s1);
            let s3 = ensure_minimum_flags(configs, s2);
            let s4 = enforce_single_flags(allow_multiple, s3);
            ||| (allow_multiple && !configs[index].is_catch_all())
            ||| s1 != f
            ||| s2 != s1
            ||| s3 != s2
            ||| s4 != s3
        },
    }
}

/// The ticks after taking the selection from a list of ids: the listed
/// buckets, with a selection made sure of and a single one enforced where
/// several are not allowed.
pub open spec fn synced(
    configs: Seq<BucketView>,
    allow_multiple: bool,
    ids: Seq<Seq<char>>,
) -> Seq<bool> {
    enforce_single_flags(
        allow_multiple,
        ensure_minimum_flags(configs, listed_flags(configs, ids)),
    )
}

/// The ids of the ticked buckets, in order.
pub open spec fn ticked_ids(configs: Seq<BucketView>, f: Seq<bool>) -> Seq<Seq<char>>
    decreases f.len(),
{
    if f.len() == 0 || f.len() > configs.len() {
        Seq::empty()
    } else if f.last() {
        ticked_ids(configs, f.drop_last()).push(configs[f.len() - 1].id)
    } else {
        ticked_ids(configs, f.drop_last())
    }
}

/// Whether the ticked buckets admit a duration: some ticked bucket holds
/// it, or nothing is ticked.
pub open spec fn ticks_allow(configs: Seq<BucketView>, f: Seq<bool>, secs: int) -> bool {
    !any_true(f) || exists|i: int|
        0 <= i < f.len() && i < configs.len() && #[trigger] f[i] && configs[i].contains(secs)
}

// ---------------------------------------------------------------------------
// Laws
// ---------------------------------------------------------------------------

/// What `first_true` finds is the first tick.
pub proof fn lemma_first_true(f: Seq<bool>)
    ensures
        match first_true(f) {
            Some(i) => 0 <= i < f.len() && f[i] && forall|j: int| 0 <= j < i ==> !f[j],
            None => forall|j: int| 0 <= j < f.len() ==> !f[j],
        },
    decreases f.len(),
{
    if f.len() > 0 {
        let pre = f.drop_last();
        lemma_first_true(pre);
        match first_true(pre) {
            Some(i) => {
                assert(pre[i] == f[i]);
                assert forall|j: int| 0 <= j < i implies !f[j] by {
                    assert(pre[j] == f[j]);
                }
            },
            None => {
                assert forall|j: int| 0 <= j < f.len() - 1 implies !f[j] by {
                    assert(pre[j] == f[j]);
                }
            },
        }
    }
}

proof fn lemma_first_true_extends(f: Seq<bool>, n: int)
    requires
        0 <= n <= f.len(),
        first_true(f.take(n)) is Some,
    ensures
        first_true(f) == first_true(f.take(n)),
    decreases f.len() - n,
{
    if n < f.len() {
        assert(f.take(n + 1).drop_last() =~= f.take(n));
        lemma_first_true_extends(f, n + 1);
    } else {
        assert(f.take(n) =~= f);
    }
}

/// A single tick among `n` is one tick, and the first.
pub proof fn lemma_only_flags(n: nat, idx: int)
    requires
        0 <= idx < n,
    ensures
        first_true(only_flags(n, idx)) == Some(idx),
        at_most_one(only_flags(n, idx)),
{
    lemma_first_true(only_flags(n, idx));
    assert(only_flags(n, idx)[idx]);
}

/// Making sure of a selection leaves none empty while there are buckets.
pub proof fn lemma_ensure_minimum(configs: Seq<BucketView>, f: Seq<bool>)
    requires
        f.len() == configs.len(),
    ensures
        ensure_minimum_flags(configs, f).len() == configs.len(),
        configs.len() > 0 ==> any_true(ensure_minimum_flags(configs, f)),
        any_true(f) ==> ensure_minimum_flags(configs, f) == f,
        at_most_one(f) && (first_true(default_flags(configs)) is Some || !any_true(
            catch_all_flags(configs),
        )) ==> at_most_one(ensure_minimum_flags(configs, f)),
{
    if !any_true(f) {
        lemma_first_true(default_flags(configs));
        match first_true(default_flags(configs)) {
            Some(i) => {
                lemma_only_flags(configs.len(), i);
            },
            None => {
                if !any_true(catch_all_flags(configs)) && configs.len() > 0 {
                    lemma_only_flags(configs.len(), 0);
                }
            },
        }
    }
}

/// Enforcing a single selection leaves at most one tick where several are
/// not allowed, and never empties a selection.
pub proof fn lemma_enforce_single(allow_multiple: bool, f: Seq<bool>)
    ensures
        enforce_single_flags(allow_multiple, f).len() == f.len(),
        !allow_multiple ==> at_most_one(enforce_single_flags(allow_multiple, f)),
        any_true(f) == any_true(enforce_single_flags(allow_multiple, f)),
        at_most_one(f) ==> enforce_single_flags(allow_multiple, f) == f,
{
    lemma_first_true(f);
    if !allow_multiple {
        match first_true(f) {
            Some(k) => {
                lemma_only_flags(f.len(), k);
                if at_most_one(f) {
                    assert forall|i: int| 0 <= i < f.len() implies f[i] == (i == k) by {
                        if i != k && f[i] {
                            if i < k {
                                assert(!(f[i] && f[k]));
                            } else {
                                assert(!(f[k] && f[i]));
                            }
                        }
                    }
                    assert(only_flags(f.len(), k) =~= f);
                }
            },
            None => {},
        }
    }
}

/// After a toggle of a bucket that exists the selection is not empty, and
/// where several ticks are not allowed it holds exactly one bucket.
pub proof fn lemma_toggle_selection(
    configs: Seq<BucketView>,
    allow_multiple: bool,
    f: Seq<bool>,
    id: Seq<char>,
)
    requires
        f.len() == configs.len(),
        bucket_index(configs, id) is Some,
    ensures
        toggled(configs, allow_multiple, f, id).len() == f.len(),
        any_true(toggled(configs, allow_multiple, f, id)),
        !allow_multiple ==> at_most_one(toggled(configs, allow_multiple, f, id)),
{
    lemma_bucket_index(configs, id);
    let index = bucket_index(configs, id)->0;
    let s1 = toggle_step(configs, allow_multiple, f, id, index);
    assert(s1.len() == f.len()) by {
        if !configs[index].is_catch_all() && allow_multiple && f[index] && !any_true(
            f.update(index, !f[index]),
        ) {
            assert(activate_catch_all_flags(configs).len() == configs.len());
        }
    }
    let s2 = enforce_single_flags(allow_multiple, s1);
    lemma_enforce_single(allow_multiple, s1);
    let s3 = ensure_minimum_flags(configs, s2);
    lemma_ensure_minimum(configs, s2);
    lemma_enforce_single(allow_multiple, s3);
}

/// The ticks after a toggle of the catch-all at `index`: the buckets of its
/// id and no other; where several ticks are not allowed, the catch-all
/// alone.
pub open spec fn catch_all_toggled(
    configs: Seq<BucketView>,
    allow_multiple: bool,
    id: Seq<char>,
    index: int,
) -> Seq<bool> {
    Seq::new(configs.len(), |i: int| configs[i].id == id && (allow_multiple || i == index))
}

/// No two buckets have the same id.
pub open spec fn bucket_ids_distinct(configs: Seq<BucketView>) -> bool {
    forall|i: int, j: int|
        0 <= i < j < configs.len() ==> (#[trigger] configs[i]).id != (#[trigger] configs[j]).id
}

/// A toggle of the catch-all leaves the catch-all ticked and nothing else,
/// whether it was ticked before or not: the ticks afterwards are those of
/// the buckets with its id, which is the catch-all alone where bucket ids
/// are distinct.
pub proof fn lemma_toggle_catch_all(
    configs: Seq<BucketView>,
    allow_multiple: bool,
    f: Seq<bool>,
    id: Seq<char>,
)
    requires
        f.len() == configs.len(),
        bucket_index(configs, id) matches Some(index) && configs[index].is_catch_all(),
    ensures
        toggled(configs, allow_multiple, f, id) == catch_all_toggled(
            configs,
            allow_multiple,
            id,
            bucket_index(configs, id)->0,
        ),
        bucket_ids_distinct(configs) ==> toggled(configs, allow_multiple, f, id) == only_flags(
            configs.len(),
            bucket_index(configs, id)->0,
        ),
{
    lemma_bucket_index(configs, id);
    let index = bucket_index(configs, id)->0;
    let s1 = toggle_step(configs, allow_multiple, f, id, index);
    let want = catch_all_toggled(configs, allow_multiple, id, index);
    assert(s1[index]);
    lemma_first_true(s1);
    assert(first_true(s1) == Some(index)) by {
        let k = first_true(s1)->0;
        if k < index {
            assert(configs[k].id == id);
        } else if k > index {
            assert(s1[index]);
        }
    }
    let s2 = enforce_single_flags(allow_multiple, s1);
    assert(s2 =~= want);
    lemma_first_true(s2);
    assert(s2[index]);
    assert(any_true(s2));
    lemma_enforce_single(allow_multiple, s1);
    lemma_enforce_single(allow_multiple, s2);
    if bucket_ids_distinct(configs) {
        assert forall|i: int| 0 <= i < configs.len() implies want[i] == (i == index) by {
            if i < index {
                assert(configs[i].id != configs[index].id);
            } else if i > index {
                assert(configs[index].id != configs[i].id);
            }
        }
        assert(want =~= only_flags(configs.len(), index));
    }
}

/// Unticking the only ticked bucket, where several ticks are allowed and
/// the bucket is no catch-all, ticks the catch-all instead, or the first
/// bucket where there is no catch-all: the selection is never left empty.
pub proof fn lemma_untick_sole_bucket(configs: Seq<BucketView>, f: Seq<bool>, id: Seq<char>)
    requires
        f.len() == configs.len(),
        bucket_index(configs, id) matches Some(index) && !configs[index].is_catch_all() && f
            == only_flags(f.len(), index),
    ensures
        toggled(configs, true, f, id) == activate_catch_all_flags(configs),
        any_true(toggled(configs, true, f, id)),
{
    lemma_bucket_index(configs, id);
    let index = bucket_index(configs, id)->0;
    let t = f.update(index, !f[index]);
    assert(f[index]);
    lemma_first_true(t);
    assert(!any_true(t)) by {
        if any_true(t) {
            let k = first_true(t)->0;
            assert(t[k]);
            assert(f[k] == (k == index));
        }
    }
    let a = activate_catch_all_flags(configs);
    assert(toggle_step(configs, true, f, id, index) == a);
    assert(any_true(a)) by {
        if !any_true(catch_all_flags(configs)) {
            lemma_only_flags(configs.len(), 0);
        }
    }
}

proof fn lemma_ticked_ids_step(configs: Seq<BucketView>, f: Seq<bool>, n: int)
    requires
        0 <= n < f.len() <= configs.len(),
    ensures
        ticked_ids(configs, f.take(n + 1)) == if f[n] {
            ticked_ids(configs, f.take(n)).push(configs[n].id)
        } else {
            ticked_ids(configs, f.take(n))
        },
{
    assert(f.take(n + 1).drop_last() =~= f.take(n));
    assert(f.take(n + 1).last() == f[n]);
}

// ---------------------------------------------------------------------------
// Executable helpers on ticks
// ---------------------------------------------------------------------------

/// Index of the first tick.
pub fn first_tick(f: &Vec<bool>) -> (r: Option<usize>)
    ensures
        match r {
            Some(i) => first_true(f@) == Some(i as int) && i < f@.len(),
            None => first_true(f@) is None,
        },
{
    let mut i: usize = 0;
    assert(f@.take(0) =~= Seq::<bool>::empty());
    while i < f.len()
        invariant
            i <= f.len(),
            first_true(f@.take(i as int)) is None,
        decreases f.len() - i,
    {
        proof {
            assert(f@.take(i + 1).drop_last() =~= f@.take(i as int));
            assert(f@.take(i + 1).last() == f@[i as int]);
        }
        if f[i] {
            proof {
                lemma_first_true_extends(f@, i + 1);
            }
            return Some(i);
        }
        i += 1;
    }
    assert(f@.take(i as int) =~= f@);
    None
}

/// `n` ticks of which only the one at `idx` is set.
pub fn single_tick(n: usize, idx: usize) -> (r: Vec<bool>)
    ensures
        r@ == only_flags(n as nat, idx as int),
{
    let mut r: Vec<bool> = Vec::new();
    let mut i: usize = 0;
    while i < n
        invariant
            i <= n,
            r@.len() == i,
            forall|j: int| 0 <= j < i ==> r@[j] == (j == idx),
        decreases n - i,
    {
        r.push(i == idx);
        i += 1;
    }
    assert(r@ =~= only_flags(n as nat, idx as int));
    r
}

/// Whether two lists of ticks are the same.
pub fn same_ticks(a: &Vec<bool>, b: &Vec<bool>) -> (r: bool)
    ensures
        r == (a@ == b@),
{
    if a.len() != b.len() {
        return false;
    }
    let mut i: usize = 0;
    while i < a.len()
        invariant
            i <= a.len() == b.len(),
            forall|j: int| 0 <= j < i ==> a@[j] == b@[j],
        decreases a.len() - i,
    {
        if a[i] != b[i] {
            return false;
        }
        i += 1;
    }
    assert(a@ =~= b@);
    true
}

/// A copy of the ticks.
pub fn copy_ticks(f: &Vec<bool>) -> (r: Vec<bool>)
    ensures
        r@ == f@,
{
    let mut r: Vec<bool> = Vec::new();
    let mut i: usize = 0;
    while i < f.len()
        invariant
            i <= f.len(),
            r@.len() == i,
            forall|j: int| 0 <= j < i ==> r@[j] == f@[j],
        decreases f.len() - i,
    {
        r.push(f[i]);
        i += 1;
    }
    assert(r@ =~= f@);
    r
}

/// A single selection enforced on the ticks where several are not allowed.
pub fn enforce_single_ticks(allow_multiple: bool, f: &Vec<bool>) -> (r: Vec<bool>)
    ensures
        r@ == enforce_single_flags(allow_multiple, f@),
{
    if allow_multiple {
        return copy_ticks(f);
    }
    match first_tick(f) {
        Some(k) => single_tick(f.len(), k),
        None => copy_ticks(f),
    }
}

impl DurationFilterState {
    /// The ticks of the buckets, one for one.
    pub fn ticks(&self) -> (r: Vec<bool>)
        ensures
            r@ == self@.flags,
    {
        let mut r: Vec<bool> = Vec::new();
        let mut i: usize = 0;
        while i < self.buckets.len()
            invariant
                i <= self.buckets.len(),
                r@.len() == i,
                forall|j: int| 0 <= j < i ==> r@[j] == self.buckets@[j].selected,
            decreases self.buckets.len() - i,
        {
            r.push(self.buckets[i].selected);
            i += 1;
        }
        assert(r@ =~= self@.flags);
        r
    }

    /// Sets the ticks. Says whether any tick changed.
    pub fn set_ticks(&mut self, ticks: &Vec<bool>) -> (changed: bool)
        requires
            ticks@.len() == old(self).buckets@.len(),
        ensures
            final(self)@ == (FilterStateView { flags: ticks@, ..old(self)@ }),
            changed == (ticks@ != old(self)@.flags),
    {
        let current = self.ticks();
        let changed = !same_ticks(ticks, &current);
        let mut next: Vec<DurationBucketState> = Vec::new();
        let mut i: usize = 0;
        while i < self.buckets.len()
            invariant
                i <= self.buckets.len(),
                *self == *old(self),
                ticks@.len() == self.buckets@.len(),
                next@.len() == i,
                forall|j: int|
                    0 <= j < i ==> (#[trigger] next@[j]).config@ == self.buckets@[j].config@
                        && next@[j].selected == ticks@[j],
            decreases self.buckets.len() - i,
        {
            next.push(
                DurationBucketState { config: self.buckets[i].config.clone(), selected: ticks[i] },
            );
            i += 1;
        }
        let ghost before = self@;
        self.buckets = next;
        assert(self@.configs =~= before.configs);
        assert(self@.flags =~= ticks@);
        changed
    }

    /// For every bucket, whether it is a catch-all.
    fn catch_all_ticks(&self) -> (r: Vec<bool>)
        ensures
            r@ == catch_all_flags(self@.configs),
    {
        let mut r: Vec<bool> = Vec::new();
        let mut i: usize = 0;
        while i < self.buckets.len()
            invariant
                i <= self.buckets.len(),
                r@.len() == i,
                forall|j: int| 0 <= j < i ==> r@[j] == self.buckets@[j].config@.is_catch_all(),
            decreases self.buckets.len() - i,
        {
            r.push(self.buckets[i].config.is_catch_all());
            i += 1;
        }
        assert(r@ =~= catch_all_flags(self@.configs));
        r
    }

    /// For every bucket, whether it is marked as selected by default.
    fn default_ticks(&self) -> (r: Vec<bool>)
        ensures
            r@ == default_flags(self@.configs),
    {
        let mut r: Vec<bool> = Vec::new();
        let mut i: usize = 0;
        while i < self.buckets.len()
            invariant
                i <= self.buckets.len(),
                r@.len() == i,
                forall|j: int| 0 <= j < i ==> r@[j] == self.buckets@[j].config@.default_selected,
            decreases self.buckets.len() - i,
        {
            r.push(self.buckets[i].config.default_selected);
            i += 1;
        }
        assert(r@ =~= default_flags(self@.configs));
        r
    }

    /// The ticks that fall back on the catch-all.
    fn catch_all_fallback(&self) -> (r: Vec<bool>)
        ensures
            r@ == activate_catch_all_flags(self@.configs),
    {
        let c = self.catch_all_ticks();
        match first_tick(&c) {
            Some(_) => c,
            None => single_tick(self.buckets.len(), 0),
        }
    }

    /// The given ticks with a selection made sure of.
    fn with_minimum(&self, f: &Vec<bool>) -> (r: Vec<bool>)
        ensures
            r@ == ensure_minimum_flags(self@.configs, f@),
    {
        if first_tick(f).is_some() {
            return copy_ticks(f);
        }
        let d = self.default_ticks();
        match first_tick(&d) {
            Some(i) => single_tick(self.buckets.len(), i),
            None => self.catch_all_fallback(),
        }
    }

    /// Ticks the bucket at `index` and no other. Says whether any tick
    /// changed.
    pub fn select_only(&mut self, index: usize) -> (changed: bool)
        ensures
            final(self)@ == (FilterStateView {
                flags: only_flags(old(self)@.flags.len(), index as int),
                ..old(self)@
            }),
            changed == (only_flags(old(self)@.flags.len(), index as int) != old(self)@.flags),
    {
        let ticks = single_tick(self.buckets.len(), index);
        self.set_ticks(&ticks)
    }

    /// Falls back on the catch-all: ticks every catch-all bucket and
    /// nothing else, or the first bucket alone where there is no catch-all.
    /// Reports a change if a tick changed, and always where the first
    /// bucket had to serve.
    pub fn activate_catch_all(&mut self) -> (changed: bool)
        ensures
            final(self)@ == (FilterStateView {
                flags: activate_catch_all_flags(old(self)@.configs),
                ..old(self)@
            }),
            changed == if any_true(catch_all_flags(old(self)@.configs)) {
                activate_catch_all_flags(old(self)@.configs) != old(self)@.flags
            } else {
                old(self)@.configs.len() > 0
            },
    {
        let c = self.catch_all_ticks();
        let found = first_tick(&c).is_some();
        if found {
            self.set_ticks(&c)
        } else {
            let ticks = single_tick(self.buckets.len(), 0);
            self.set_ticks(&ticks);
            self.buckets.len() > 0
        }
    }

    /// Falls back on the catch-all if nothing is ticked.
    pub fn ensure_default_if_empty(&mut self) -> (changed: bool)
        ensures
            final(self)@ == (FilterStateView {
                flags: if any_true(old(self)@.flags) {
                    old(self)@.flags
                } else {
                    activate_catch_all_flags(old(self)@.configs)
                },
                ..old(self)@
            }),
            changed == (!any_true(old(self)@.flags) && old(self)@.configs.len() > 0),
    {
        let f = self.ticks();
        if first_tick(&f).is_some() {
            return false;
        }
        proof {
            lemma_first_true(f@);
            lemma_first_true(catch_all_flags(self@.configs));
            if any_true(catch_all_flags(self@.configs)) {
                let k = first_true(catch_all_flags(self@.configs))->0;
                assert(activate_catch_all_flags(self@.configs)[k] != f@[k]);
            }
        }
        self.activate_catch_all()
    }

    /// Makes sure of a selection: if nothing is ticked, ticks the first
    /// bucket marked default, or else falls back on the catch-all.
    pub fn ensure_minimum_selection(&mut self) -> (changed: bool)
        ensures
            final(self)@ == (FilterStateView {
                flags: ensure_minimum_flags(old(self)@.configs, old(self)@.flags),
                ..old(self)@
            }),
            changed == (!any_true(old(self)@.flags) && old(self)@.configs.len() > 0),
    {
        let f = self.ticks();
        if first_tick(&f).is_some() {
            return false;
        }
        let d = self.default_ticks();
        proof {
            lemma_first_true(f@);
            lemma_first_true(d@);
            lemma_first_true(catch_all_flags(self@.configs));
        }
        match first_tick(&d) {
            Some(i) => {
                proof {
                    assert(only_flags(f@.len(), i as int)[i as int] != f@[i as int]);
                }
                self.select_only(i)
            },
            None => {
                proof {
                    if any_true(catch_all_flags(self@.configs)) {
                        let k = first_true(catch_all_flags(self@.configs))->0;
                        assert(activate_catch_all_flags(self@.configs)[k] != f@[k]);
                    }
                }
                self.activate_catch_all()
            },
        }
    }

    /// Where several ticks are not allowed, keeps only the first tick.
    pub fn enforce_single_selection(&mut self) -> (changed: bool)
        ensures
            final(self)@ == (FilterStateView {
                flags: enforce_single_flags(old(self)@.allow_multiple, old(self)@.flags),
                ..old(self)@
            }),
            changed == (enforce_single_flags(old(self)@.allow_multiple, old(self)@.flags) != old(
                self,
            )@.flags),
    {
        if self.allow_multiple {
            return false;
        }
        let f = self.ticks();
        proof {
            lemma_enforce_single(false, f@);
        }
        let next = enforce_single_ticks(false, &f);
        self.set_ticks(&next)
    }

    /// The state for the given global preferences: their buckets, ticked as
    /// the active ids say, with the selection normalised.
    pub fn from_global(global: &GlobalPrefs) -> (r: Self)
        ensures
            r@.allow_multiple == global@.duration_filters.allow_multiple,
            r@.configs == global@.duration_filters.buckets,
            r@.flags == synced(
                global@.duration_filters.buckets,
                global@.duration_filters.allow_multiple,
                global@.active_duration_bucket_ids,
            ),
    {
        let mut buckets: Vec<DurationBucketState> = Vec::new();
        let mut i: usize = 0;
        while i < global.duration_filters.buckets.len()
            invariant
                i <= global.duration_filters.buckets.len(),
                buckets@.len() == i,
                forall|j: int|
                    0 <= j < i ==> (#[trigger] buckets@[j]).config@
                        == global.duration_filters.buckets@[j]@,
            decreases global.duration_filters.buckets.len() - i,
        {
            buckets.push(
                DurationBucketState {
                    config: global.duration_filters.buckets[i].clone(),
                    selected: false,
                },
            );
            i += 1;
        }
        let mut state = DurationFilterState {
            allow_multiple: global.duration_filters.allow_multiple,
            buckets,
        };
        assert(state@.configs =~= global@.duration_filters.buckets);
        state.sync_from_ids(global.active_duration_bucket_ids.as_slice());
        state
    }

    /// Takes the selection from a list of ids and normalises it. Says
    /// whether any step changed a tick.
    pub fn sync_from_ids(&mut self, ids: &[String]) -> (changed: bool)
        ensures
            final(self)@ == (FilterStateView {
                flags: synced(old(self)@.configs, old(self)@.allow_multiple, strs(ids@)),
                ..old(self)@
            }),
            changed == ({
                let listed = listed_flags(old(self)@.configs, strs(ids@));
                let sure = ensure_minimum_flags(old(self)@.configs, listed);
                ||| listed != old(self)@.flags
                ||| sure != listed
                ||| enforce_single_flags(old(self)@.allow_multiple, sure) != sure
            }),
    {
        let mut listed: Vec<bool> = Vec::new();
        let mut i: usize = 0;
        while i < self.buckets.len()
            invariant
                i <= self.buckets.len(),
                *self == *old(self),
                listed@.len() == i,
                forall|j: int|
                    0 <= j < i ==> listed@[j] == strs(ids@).contains(self.buckets@[j].config@.id),
            decreases self.buckets.len() - i,
        {
            let has = list_has(ids, &self.buckets[i].config.id);
            listed.push(has);
            i += 1;
        }
        assert(listed@ =~= listed_flags(self@.configs, strs(ids@)));
        let mut changed = self.set_ticks(&listed);
        let c2 = self.ensure_minimum_selection();
        proof {
            lemma_ensure_minimum(old(self)@.configs, listed@);
            lemma_first_true(listed@);
            lemma_first_true(ensure_minimum_flags(old(self)@.configs, listed@));
            if !any_true(listed@) && old(self)@.configs.len() > 0 {
                let k = first_true(ensure_minimum_flags(old(self)@.configs, listed@))->0;
                assert(ensure_minimum_flags(old(self)@.configs, listed@)[k] != listed@[k]);
            }
            if old(self)@.configs.len() == 0 {
                assert(ensure_minimum_flags(old(self)@.configs, listed@) =~= listed@);
            }
        }
        changed = changed || c2;
        if !self.allow_multiple {
            let c3 = self.enforce_single_selection();
            changed = changed || c3;
        }
        changed
    }

    /// Toggles the first bucket with the given id and normalises the
    /// selection. Says whether any step changed a tick; an id that no bucket
    /// has changes nothing.
    pub fn toggle(&mut self, id: &str) -> (changed: bool)
        ensures
            final(self)@ == (FilterStateView {
                flags: toggled(
                    old(self)@.configs,
                    old(self)@.allow_multiple,
                    old(self)@.flags,
                    id@,
                ),
                ..old(self)@
            }),
            changed == toggle_changes(
                old(self)@.configs,
                old(self)@.allow_multiple,
                old(self)@.flags,
                id@,
            ),
            bucket_index(old(self)@.configs, id@) is Some ==> any_true(final(self)@.flags),
            bucket_index(old(self)@.configs, id@) is Some && !old(self)@.allow_multiple
                ==> at_most_one(final(self)@.flags),
            bucket_index(old(self)@.configs, id@) matches Some(index) ==> (old(
                self,
            )@.configs[index].is_catch_all() ==> final(self)@.flags == catch_all_toggled(
                old(self)@.configs,
                old(self)@.allow_multiple,
                id@,
                index,
            )),
    {
        let ghost configs = self@.configs;
        let ghost f0 = self@.flags;
        let index = match self.position(id) {
            Some(index) => index,
            None => {
                return false;
            },
        };
        proof {
            lemma_toggle_selection(configs, self.allow_multiple, f0, id@);
            if configs[index as int].is_catch_all() {
                lemma_toggle_catch_all(configs, self.allow_multiple, f0, id@);
            }
        }
        let f = self.ticks();
        let n = self.buckets.len();
        let mut changed = false;
        let s1: Vec<bool> = if self.buckets[index].config.is_catch_all() {
            let wanted = chars_of(id);
            let mut t: Vec<bool> = Vec::new();
            let mut i: usize = 0;
            while i < n
                invariant
                    i <= n == self.buckets@.len(),
                    wanted@ == id@,
                    t@.len() == i,
                    forall|j: int| 0 <= j < i ==> t@[j] == (self.buckets@[j].config@.id == id@),
                decreases n - i,
            {
                let here = chars_of(self.buckets[i].config.id.as_str());
                t.push(chars_eq(&here, &wanted));
                i += 1;
            }
            assert(t@ =~= toggle_step(configs, self.allow_multiple, f0, id@, index as int));
            t
        } else if self.allow_multiple {
            changed = true;
            let new_state = !f[index];
            let mut t: Vec<bool> = Vec::new();
            let mut i: usize = 0;
            while i < n
                invariant
                    i <= n == f@.len(),
                    index < n,
                    t@.len() == i,
                    forall|j: int| 0 <= j < i ==> t@[j] == f@.update(index as int, new_state)[j],
                decreases n - i,
            {
                t.push(if i == index {
                    new_state
                } else {
                    f[i]
                });
                i += 1;
            }
            assert(t@ =~= f@.update(index as int, new_state));
            if new_state {
                let mut u: Vec<bool> = Vec::new();
                let mut k: usize = 0;
                while k < n
                    invariant
                        k <= n == self.buckets@.len(),
                        t@.len() == n,
                        u@.len() == k,
                        forall|j: int|
                            0 <= j < k ==> u@[j] == (t@[j]
                                && !self.buckets@[j].config@.is_catch_all()),
                    decreases n - k,
                {
                    u.push(t[k] && !self.buckets[k].config.is_catch_all());
                    k += 1;
                }
                assert(u@ =~= toggle_step(configs, self.allow_multiple, f0, id@, index as int));
                u
            } else if first_tick(&t).is_some() {
                t
            } else {
                self.catch_all_fallback()
            }
        } else {
            single_tick(n, index)
        };
        assert(s1@ == toggle_step(configs, self.allow_multiple, f0, id@, index as int));
        changed = changed || !same_ticks(&s1, &f);
        let s2 = enforce_single_ticks(self.allow_multiple, &s1);
        changed = changed || !same_ticks(&s2, &s1);
        let s3 = self.with_minimum(&s2);
        changed = changed || !same_ticks(&s3, &s2);
        let s4 = enforce_single_ticks(self.allow_multiple, &s3);
        changed = changed || !same_ticks(&s4, &s3);
        proof {
            lemma_enforce_single(self.allow_multiple, s1@);
            lemma_ensure_minimum(configs, s2@);
            lemma_enforce_single(self.allow_multiple, s3@);
        }
        self.set_ticks(&s4);
        changed
    }

    /// Index of the first bucket with the given id.
    pub fn position(&self, id: &str) -> (r: Option<usize>)
        ensures
            match r {
                Some(i) => bucket_index(self@.configs, id@) == Some(i as int) && i
                    < self.buckets@.len(),
                None => bucket_index(self@.configs, id@) is None,
            },
    {
        let ghost configs = self@.configs;
        let wanted = chars_of(id);
        let mut i: usize = 0;
        assert(configs.take(0) =~= Seq::<BucketView>::empty());
        while i < self.buckets.len()
            invariant
                i <= self.buckets.len(),
                configs == self@.configs,
                wanted@ == id@,
                bucket_index(configs.take(i as int), id@) is None,
            decreases self.buckets.len() - i,
        {
            let here = chars_of(self.buckets[i].config.id.as_str());
            proof {
                let next = configs.take(i + 1);
                assert(next.drop_last() =~= configs.take(i as int));
                assert(next.last() == self.buckets@[i as int].config@);
            }
            if chars_eq(&here, &wanted) {
                proof {
                    lemma_bucket_index_extends(configs, i + 1, id@);
                }
                return Some(i);
            }
            i += 1;
        }
        assert(configs.take(i as int) =~= configs);
        None
    }

    /// The ids of the ticked buckets, in order.
    pub fn selected_ids(&self) -> (r: Vec<String>)
        ensures
            strs(r@) == ticked_ids(self@.configs, self@.flags),
    {
        let ghost configs = self@.configs;
        let ghost f = self@.flags;
        let mut r: Vec<String> = Vec::new();
        let mut i: usize = 0;
        assert(f.take(0) =~= Seq::<bool>::empty());
        assert(strs(r@) =~= Seq::<Seq<char>>::empty());
        while i < self.buckets.len()
            invariant
                i <= self.buckets.len(),
                configs == self@.configs,
                f == self@.flags,
                strs(r@) == ticked_ids(configs, f.take(i as int)),
            decreases self.buckets.len() - i,
        {
            proof {
                lemma_ticked_ids_step(configs, f, i as int);
            }
            if self.buckets[i].selected {
                let ghost before = r@;
                r.push(self.buckets[i].config.id.clone());
                assert(strs(r@) =~= strs(before).push(configs[i as int].id));
            }
            i += 1;
        }
        assert(f.take(i as int) =~= f);
        r
    }

    /// Whether the ticked buckets admit a duration.
    pub fn allows(&self, secs: u64) -> (r: bool)
        ensures
            r == ticks_allow(self@.configs, self@.flags, secs as int),
    {
        let ghost configs = self@.configs;
        let ghost f = self@.flags;
        let mut any_active = false;
        let mut i: usize = 0;
        while i < self.buckets.len()
            invariant
                i <= self.buckets.len(),
                configs == self@.configs,
                f == self@.flags,
                any_active == (exists|j: int| 0 <= j < i && #[trigger] f[j]),
                forall|j: int| 0 <= j < i ==> !(#[trigger] f[j] && configs[j].contains(secs as int)),
            decreases self.buckets.len() - i,
        {
            if self.buckets[i].selected {
                any_active = true;
                assert(f[i as int]);
                if self.buckets[i].config.contains(secs) {
                    proof {
                        lemma_first_true(f);
                    }
                    return true;
                }
            }
            i += 1;
        }
        proof {
            lemma_first_true(f);
            if any_active {
                let j = choose|j: int| 0 <= j < i && #[trigger] f[j];
            }
        }
        !any_active
    }
}

} // verus!
