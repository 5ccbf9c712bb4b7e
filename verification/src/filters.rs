//! The post-filter: the predicates that decide, once a video's metadata is
//! known, whether the video is kept.

use vstd::prelude::*;
use crate::prefs::{
    bucket_index, channel_key, BucketView, GlobalPrefs, GlobalPrefsView, MySearch, MySearchView,
};
use crate::text::{
    ascii_lower, char_is_whitespace, chars_contain, chars_eq, chars_of, chars_start_with,
    contains_sub, digits_value, is_blank, is_digit, is_whitespace, lower_chars, starts_with,
    strip_leading, strip_leading_chars, strs, trim, trim_chars,
};
use crate::types::{VideoDetails, VideoView};

verus! {

// ---------------------------------------------------------------------------
// Duration buckets
// ---------------------------------------------------------------------------

/// Some active id names a configured bucket.
pub open spec fn some_active_resolves(buckets: Seq<BucketView>, active: Seq<Seq<char>>) -> bool {
    exists|k: int| 0 <= k < active.len() && bucket_index(buckets, #[trigger] active[k]) is Some
}

/// Some active id names a configured bucket that holds `secs`.
pub open spec fn some_active_contains(
    buckets: Seq<BucketView>,
    active: Seq<Seq<char>>,
    secs: int,
) -> bool {
    exists|k: int|
        0 <= k < active.len() && (bucket_index(buckets, #[trigger] active[k]) matches Some(i)
            && buckets[i].contains(secs))
}

/// Some bucket is marked as selected by default.
pub open spec fn some_default(buckets: Seq<BucketView>) -> bool {
    exists|i: int| 0 <= i < buckets.len() && (#[trigger] buckets[i]).default_selected
}

/// Some bucket marked as selected by default holds `secs`.
pub open spec fn some_default_contains(buckets: Seq<BucketView>, secs: int) -> bool {
    exists|i: int|
        0 <= i < buckets.len() && (#[trigger] buckets[i]).default_selected && buckets[i].contains(
            secs,
        )
}

/// Bucket membership of a duration. The buckets in force are those that the
/// active ids name; where no active id names a bucket, those marked as
/// selected by default; where there is none of either, no bucket filter
/// applies and every duration is admitted.
pub open spec fn duration_allowed(prefs: GlobalPrefsView, secs: int) -> bool {
    let buckets = prefs.duration_filters.buckets;
    let active = prefs.active_duration_bucket_ids;
    if some_active_resolves(buckets, active) {
        some_active_contains(buckets, active, secs)
    } else if some_default(buckets) {
        some_default_contains(buckets, secs)
    } else {
        true
    }
}

/// Whether a duration falls in one of the buckets in force.
pub fn duration_allows(duration_secs: u64, prefs: &GlobalPrefs) -> (r: bool)
    ensures
        r == duration_allowed(prefs@, duration_secs as int),
{
    let config = &prefs.duration_filters;
    let ghost buckets = prefs@.duration_filters.buckets;
    let ghost active = prefs@.active_duration_bucket_ids;
    let mut active_found = false;
    let mut k: usize = 0;
    while k < prefs.active_duration_bucket_ids.len()
        invariant
            k <= prefs.active_duration_bucket_ids.len(),
            buckets == prefs@.duration_filters.buckets,
            buckets == config@.buckets,
            active == prefs@.active_duration_bucket_ids,
            active_found == (exists|a: int|
                0 <= a < k && bucket_index(buckets, #[trigger] active[a]) is Some),
            forall|a: int|
                0 <= a < k ==> !(bucket_index(buckets, #[trigger] active[a]) matches Some(i)
                    && buckets[i].contains(duration_secs as int)),
        decreases prefs.active_duration_bucket_ids.len() - k,
    {
        assert(active[k as int] == prefs.active_duration_bucket_ids@[k as int]@);
        if let Some(bucket) = config.bucket_by_id(prefs.active_duration_bucket_ids[k].as_str()) {
            active_found = true;
            if bucket.contains(duration_secs) {
                assert(some_active_resolves(buckets, active));
                assert(some_active_contains(buckets, active, duration_secs as int));
                return true;
            }
        }
        k += 1;
    }
    if active_found {
        assert(some_active_resolves(buckets, active));
        return false;
    }
    let mut default_found = false;
    let mut i: usize = 0;
    while i < config.buckets.len()
        invariant
            i <= config.buckets.len(),
            buckets == config@.buckets,
            !some_active_resolves(buckets, active),
            buckets == prefs@.duration_filters.buckets,
            active == prefs@.active_duration_bucket_ids,
            default_found == (exists|a: int|
                0 <= a < i && (#[trigger] buckets[a]).default_selected),
            forall|a: int|
                0 <= a < i ==> !((#[trigger] buckets[a]).default_selected && buckets[a].contains(
                    duration_secs as int,
                )),
        decreases config.buckets.len() - i,
    {
        assert(buckets[i as int] == config.buckets@[i as int]@);
        if config.buckets[i].default_selected {
            default_found = true;
            if config.buckets[i].contains(duration_secs) {
                assert(some_default(buckets));
                assert(some_default_contains(buckets, duration_secs as int));
                return true;
            }
        }
        i += 1;
    }
    if default_found {
        assert(some_default(buckets));
        return false;
    }
    true
}

// ---------------------------------------------------------------------------
// ISO 8601 durations
// ---------------------------------------------------------------------------

/// How many decimal digits `s` starts with.
pub open spec fn digit_run_len(s: Seq<char>) -> nat
    decreases s.len(),
{
    if s.len() > 0 && is_digit(s[0]) {
        1 + digit_run_len(s.drop_first())
    } else {
        0
    }
}

/// A part of a duration read off the front of a text: its number and what
/// follows it.
pub struct DurationPart {
    pub value: nat,
    pub rest: Seq<char>,
}

/// The part with the designator `c` at the front of `s`: one decimal digit
/// or more, then `c`. Where `s` does not start so, the part is absent: it
/// counts as zero and nothing of `s` is used up.
pub open spec fn duration_part(s: Seq<char>, c: char) -> DurationPart {
    let n = digit_run_len(s) as int;
    if 0 < n < s.len() && s[n] == c {
        DurationPart { value: digits_value(s.take(n)), rest: s.skip(n + 1) }
    } else {
        DurationPart { value: 0, rest: s }
    }
}

/// The seconds that a duration of the form `PT#H#M#S` denotes: `P`, `T`,
/// then hours, minutes and seconds, each of them a decimal number with its
/// designator, each optional, in this order, and nothing else. Any other
/// text, and a total beyond 64 bits, is no duration.
pub open spec fn iso8601_seconds(s: Seq<char>) -> Option<u64> {
    if s.len() < 2 || s[0] != 'P' || s[1] != 'T' {
        None
    } else {
        let hours = duration_part(s.skip(2), 'H');
        let minutes = duration_part(hours.rest, 'M');
        let seconds = duration_part(minutes.rest, 'S');
        let total = hours.value * 3600 + minutes.value * 60 + seconds.value;
        if seconds.rest.len() == 0 && total <= u64::MAX {
            Some(total as u64)
        } else {
            None
        }
    }
}

/// A run of digits that ends at `n` is the run that `s` starts with.
proof fn lemma_digit_run(s: Seq<char>, n: int)
    requires
        0 <= n <= s.len(),
        forall|k: int| 0 <= k < n ==> is_digit(#[trigger] s[k]),
        n < s.len() ==> !is_digit(s[n]),
    ensures
        digit_run_len(s) == n,
    decreases n,
{
    if n > 0 {
        let t = s.drop_first();
        assert forall|k: int| 0 <= k < n - 1 implies is_digit(#[trigger] t[k]) by {
            assert(t[k] == s[k + 1]);
        }
        if n < s.len() {
            assert(t[n - 1] == s[n]);
        }
        assert(is_digit(s[0]));
        lemma_digit_run(t, n - 1);
    }
}

/// What reading one part of a duration gives: the number, whether it
/// leaves 64 bits, and where the text goes on.
struct PartRead {
    value: u64,
    over: bool,
    next: usize,
}

/// Reads the part with the designator `c` that starts at `from`.
fn read_duration_part(v: &Vec<char>, from: usize, c: char) -> (r: PartRead)
    requires
        from <= v.len(),
    ensures
        from <= r.next <= v.len(),
        v@.skip(r.next as int) == duration_part(v@.skip(from as int), c).rest,
        r.over == (duration_part(v@.skip(from as int), c).value > u64::MAX),
        !r.over ==> r.value == duration_part(v@.skip(from as int), c).value,
{
    let ghost s = v@.skip(from as int);
    let mut j: usize = from;
    let mut value: u64 = 0;
    let mut over = false;
    assert(s.take(0) =~= Seq::<char>::empty());
    while j < v.len() && v[j] >= '0' && v[j] <= '9'
        invariant
            from <= j <= v.len(),
            s == v@.skip(from as int),
            forall|k: int| 0 <= k < j - from ==> is_digit(#[trigger] s[k]),
            over == (digits_value(s.take(j - from)) > u64::MAX),
            !over ==> value == digits_value(s.take(j - from)),
        decreases v.len() - j,
    {
        let d: u64 = (v[j] as u8 - 48) as u64;
        proof {
            let cur = s.take(j - from + 1);
            assert(cur.drop_last() =~= s.take(j - from));
            assert(cur.last() == v@[j as int]);
        }
        if !over {
            let wide: u128 = (value as u128) * 10 + (d as u128);
            if wide > u64::MAX as u128 {
                over = true;
            } else {
                value = wide as u64;
            }
        }
        j += 1;
    }
    proof {
        if j < v.len() {
            assert(s[j - from] == v@[j as int]);
        }
        lemma_digit_run(s, j - from);
    }
    if j > from && j < v.len() && v[j] == c {
        assert(s.skip(j - from + 1) =~= v@.skip(j + 1));
        PartRead { value, over, next: j + 1 }
    } else {
        PartRead { value: 0, over: false, next: from }
    }
}

/// Parses a duration of the form `PT#H#M#S` into seconds.
pub fn parse_iso8601_duration(s: &str) -> (r: Option<u64>)
    ensures
        r == iso8601_seconds(s@),
{
    let v = chars_of(s);
    if v.len() < 2 || v[0] != 'P' || v[1] != 'T' {
        return None;
    }
    let hours = read_duration_part(&v, 2, 'H');
    let minutes = read_duration_part(&v, hours.next, 'M');
    let seconds = read_duration_part(&v, minutes.next, 'S');
    assert(v@.skip(seconds.next as int).len() == v.len() - seconds.next);
    if seconds.next != v.len() || hours.over || minutes.over || seconds.over {
        return None;
    }
    let total: u128 = (hours.value as u128) * 3600 + (minutes.value as u128) * 60 + (
    seconds.value as u128);
    if total > u64::MAX as u128 {
        None
    } else {
        Some(total as u64)
    }
}

// ---------------------------------------------------------------------------
// Excluded terms
// ---------------------------------------------------------------------------

/// Some non-blank needle occurs, trimmed and regardless of ASCII case, in
/// `hay`.
pub open spec fn any_needle_in(hay: Seq<char>, needles: Seq<Seq<char>>) -> bool {
    exists|i: int|
        0 <= i < needles.len() && !is_blank(#[trigger] needles[i]) && contains_sub(
            ascii_lower(hay),
            ascii_lower(trim(needles[i])),
        )
}

/// Whether `hay` contains one of the needles; blank needles never match.
pub fn contains_any(hay: &str, needles: &[String]) -> (r: bool)
    ensures
        r == any_needle_in(hay@, strs(needles@)),
{
    let raw = chars_of(hay);
    let h = lower_chars(&raw);
    let mut i: usize = 0;
    while i < needles.len()
        invariant
            i <= needles.len(),
            h@ == ascii_lower(hay@),
            forall|j: int|
                0 <= j < i ==> !(!is_blank(#[trigger] strs(needles@)[j]) && contains_sub(
                    ascii_lower(hay@),
                    ascii_lower(trim(strs(needles@)[j])),
                )),
        decreases needles.len() - i,
    {
        let n_raw = chars_of(needles[i].as_str());
        let n_trim = trim_chars(&n_raw);
        assert(strs(needles@)[i as int] == needles@[i as int]@);
        if n_trim.len() > 0 {
            let n_low = lower_chars(&n_trim);
            if chars_contain(&h, &n_low) {
                return true;
            }
        }
        i += 1;
    }
    false
}

// ---------------------------------------------------------------------------
// Channels
// ---------------------------------------------------------------------------

/// The key that a pattern is matched by: the pattern trimmed, without the
/// `@` signs that it then starts with, in ASCII lower case. Whitespace after
/// those `@` signs belongs to the key.
pub open spec fn pattern_key(pattern: Seq<char>) -> Seq<char> {
    ascii_lower(strip_leading(trim(pattern), '@'))
}

/// One pattern matches a channel: the pattern is not blank and its key
/// equals the handle, or equals the title, or occurs in the title, all
/// regardless of ASCII case.
pub open spec fn pattern_matches(handle: Seq<char>, title: Seq<char>, pattern: Seq<char>) -> bool {
    let cleaned = pattern_key(pattern);
    &&& !is_blank(pattern)
    &&& (ascii_lower(handle) == cleaned || ascii_lower(title) == cleaned || contains_sub(
        ascii_lower(title),
        cleaned,
    ))
}

/// Some pattern matches the channel. No pattern, no match.
pub open spec fn channel_matches(
    handle: Seq<char>,
    title: Seq<char>,
    patterns: Seq<Seq<char>>,
) -> bool {
    exists|i: int| 0 <= i < patterns.len() && pattern_matches(handle, title, #[trigger] patterns[i])
}

/// Whether a channel, given by handle and title, matches one of the
/// patterns.
pub fn matches_channel(handle: &str, title: &str, patterns: &[String]) -> (r: bool)
    ensures
        r == channel_matches(handle@, title@, strs(patterns@)),
        patterns@.len() == 0 ==> !r,
{
    if patterns.len() == 0 {
        return false;
    }
    let h_raw = chars_of(handle);
    let t_raw = chars_of(title);
    let h = lower_chars(&h_raw);
    let t = lower_chars(&t_raw);
    let mut i: usize = 0;
    while i < patterns.len()
        invariant
            i <= patterns.len(),
            h@ == ascii_lower(handle@),
            t@ == ascii_lower(title@),
            forall|j: int|
                0 <= j < i ==> !pattern_matches(handle@, title@, #[trigger] strs(patterns@)[j]),
        decreases patterns.len() - i,
    {
        let p_raw = chars_of(patterns[i].as_str());
        let p = trim_chars(&p_raw);
        assert(strs(patterns@)[i as int] == patterns@[i as int]@);
        if p.len() > 0 {
            let stripped = strip_leading_chars(&p, '@');
            let cleaned = lower_chars(&stripped);
            if chars_eq(&h, &cleaned) || chars_eq(&t, &cleaned) || chars_contain(&t, &cleaned) {
                return true;
            }
        }
        i += 1;
    }
    false
}

// ---------------------------------------------------------------------------
// Language
// ---------------------------------------------------------------------------

/// A language code that starts, regardless of ASCII case, with `en`.
pub open spec fn code_is_english(code: Option<Seq<char>>) -> bool {
    match code {
        Some(c) => starts_with(ascii_lower(c), seq!['e', 'n']),
        None => false,
    }
}

/// Whether a language code denotes English.
pub fn language_is_english(code: Option<&str>) -> (r: bool)
    ensures
        r == code_is_english(
            match code {
                Some(c) => Some(c@),
                None => None,
            },
        ),
{
    match code {
        Some(c) => {
            let raw = chars_of(c);
            let low = lower_chars(&raw);
            let mut en: Vec<char> = Vec::new();
            en.push('e');
            en.push('n');
            assert(en@ =~= seq!['e', 'n']);
            chars_start_with(&low, &en)
        },
        None => false,
    }
}

/// An ASCII letter.
pub open spec fn is_ascii_letter(c: char) -> bool {
    ('a' <= c && c <= 'z') || ('A' <= c && c <= 'Z')
}

/// The punctuation that counts as plain text.
pub open spec fn is_plain_punctuation(c: char) -> bool {
    c == '-' || c == '_' || c == ':' || c == '!' || c == '?' || c == ',' || c == '.' || c == ';'
        || c == '\'' || c == '"' || c == '/' || c == '(' || c == ')' || c == '#'
}

/// Number of characters of `s` that are not whitespace.
pub open spec fn count_visible(s: Seq<char>) -> nat
    decreases s.len(),
{
    if s.len() == 0 {
        0
    } else {
        count_visible(s.drop_last()) + if is_whitespace(s.last()) {
            0nat
        } else {
            1nat
        }
    }
}

/// Number of characters of `s` that are ASCII letters or plain punctuation.
pub open spec fn count_plain(s: Seq<char>) -> nat
    decreases s.len(),
{
    if s.len() == 0 {
        0
    } else {
        count_plain(s.drop_last()) + if !is_whitespace(s.last()) && (is_ascii_letter(s.last())
            || is_plain_punctuation(s.last())) {
            1nat
        } else {
            0nat
        }
    }
}

/// The title heuristic: of the characters that are not whitespace, at least
/// sixty in a hundred (by integer division) are ASCII letters or plain
/// punctuation. A text without such characters passes.
pub open spec fn text_looks_english(s: Seq<char>) -> bool {
    count_visible(s) == 0 || (count_plain(s) * 100) as int / (count_visible(s) as int) >= 60
}

proof fn lemma_counts(s: Seq<char>)
    ensures
        count_plain(s) <= count_visible(s) <= s.len(),
    decreases s.len(),
{
    if s.len() > 0 {
        lemma_counts(s.drop_last());
    }
}

/// Whether a text looks like English by its share of plain characters.
pub fn looks_english(text: &str) -> (r: bool)
    ensures
        r == text_looks_english(text@),
{
    let v = chars_of(text);
    let mut total: usize = 0;
    let mut plain: usize = 0;
    let mut i: usize = 0;
    assert(v@.take(0) =~= Seq::<char>::empty());
    while i < v.len()
        invariant
            i <= v.len(),
            total == count_visible(v@.take(i as int)),
            plain == count_plain(v@.take(i as int)),
            plain <= total <= i,
        decreases v.len() - i,
    {
        let c = v[i];
        proof {
            assert(v@.take(i + 1).drop_last() =~= v@.take(i as int));
            assert(v@.take(i + 1).last() == c);
        }
        if !char_is_whitespace(c) {
            total += 1;
            if (c >= 'a' && c <= 'z') || (c >= 'A' && c <= 'Z') || c == '-' || c == '_' || c == ':'
                || c == '!' || c == '?' || c == ',' || c == '.' || c == ';' || c == '\'' || c
                == '"' || c == '/' || c == '(' || c == ')' || c == '#' {
                plain += 1;
            }
        }
        i += 1;
    }
    assert(v@.take(i as int) =~= v@);
    if total == 0 {
        return true;
    }
    let share: u128 = (plain as u128) * 100 / (total as u128);
    share >= 60
}

// ---------------------------------------------------------------------------
// The whole post-filter
// ---------------------------------------------------------------------------

/// The minimum duration in force: the search's own, else the global one.
pub open spec fn effective_min_duration(prefs: GlobalPrefsView, search: MySearchView) -> u32 {
    match search.min_duration_override {
        Some(m) => m,
        None => prefs.min_duration_secs,
    }
}

/// Whether English-only is in force: the search's own choice, else the
/// global one.
pub open spec fn wants_english(prefs: GlobalPrefsView, search: MySearchView) -> bool {
    match search.english_only_override {
        Some(b) => b,
        None => prefs.english_only,
    }
}

/// Whether captions are required: the search's own choice, else the global
/// one.
pub open spec fn wants_captions(prefs: GlobalPrefsView, search: MySearchView) -> bool {
    match search.require_captions_override {
        Some(b) => b,
        None => prefs.require_captions,
    }
}

/// A video gives some sign of being in English: by one of its two language
/// codes, by the caption flag, or by the look of its title, read from the
/// lower-case copy that the record keeps for matching.
pub open spec fn language_ok(video: VideoView) -> bool {
    ||| code_is_english(video.default_audio_lang)
    ||| code_is_english(video.default_lang)
    ||| video.has_caption_lang_en == Some(true)
    ||| text_looks_english(video.title_lower)
}

/// The seven checks that a video has to pass, all of them: the duration
/// floor, bucket membership, language where English-only is in force, no
/// excluded term in the title, channel not blocked, channel not denied, and
/// channel allowed where an allow list is given. The title is read from
/// the lower-case copy that the record keeps for matching.
pub open spec fn passes_post_filters(
    video: VideoView,
    prefs: GlobalPrefsView,
    search: MySearchView,
    blocked: Seq<Seq<char>>,
) -> bool {
    &&& video.duration_secs >= effective_min_duration(prefs, search)
    &&& duration_allowed(prefs, video.duration_secs as int)
    &&& (wants_english(prefs, search) ==> language_ok(video))
    &&& !any_needle_in(video.title_lower, search.query.not_terms)
    &&& !channel_matches(video.channel_handle, video.channel_title, blocked)
    &&& !channel_matches(video.channel_handle, video.channel_title, search.query.channel_deny)
    &&& (search.query.channel_allow.len() > 0 ==> channel_matches(
        video.channel_handle,
        video.channel_title,
        search.query.channel_allow,
    ))
}

/// Whether a fetched video passes every check of the post-filter.
pub fn matches_post_filters(
    video: &VideoDetails,
    prefs: &GlobalPrefs,
    search: &MySearch,
    blocked_channels: &[String],
) -> (r: bool)
    ensures
        r == passes_post_filters(video@, prefs@, search@, strs(blocked_channels@)),
        video.duration_secs < effective_min_duration(prefs@, search@) ==> !r,
{
    let min_secs: u64 = match search.min_duration_override {
        Some(m) => m as u64,
        None => prefs.min_duration_secs as u64,
    };
    if video.duration_secs < min_secs {
        return false;
    }
    if !duration_allows(video.duration_secs, prefs) {
        return false;
    }
    let want_en = match search.english_only_override {
        Some(b) => b,
        None => prefs.english_only,
    };
    if want_en {
        let audio = match &video.default_audio_lang {
            Some(s) => Some(s.as_str()),
            None => None,
        };
        let lang = match &video.default_lang {
            Some(s) => Some(s.as_str()),
            None => None,
        };
        let flagged = match video.has_caption_lang_en {
            Some(b) => b,
            None => false,
        };
        let lang_ok = language_is_english(audio) || language_is_english(lang) || flagged
            || looks_english(video.title_lower.as_str());
        if !lang_ok {
            return false;
        }
    }
    if contains_any(video.title_lower.as_str(), search.query.not_terms.as_slice()) {
        return false;
    }
    if matches_channel(
        video.channel_handle.as_str(),
        video.channel_title.as_str(),
        blocked_channels,
    ) {
        return false;
    }
    if matches_channel(
        video.channel_handle.as_str(),
        video.channel_title.as_str(),
        search.query.channel_deny.as_slice(),
    ) {
        return false;
    }
    if search.query.channel_allow.len() > 0 && !matches_channel(
        video.channel_handle.as_str(),
        video.channel_title.as_str(),
        search.query.channel_allow.as_slice(),
    ) {
        return false;
    }
    true
}

/// A pattern `@name` matches the channel whose handle is the name, in any
/// ASCII case; the channel whose title is the name; and every channel whose
/// title contains the name. The name is taken as it stands after the `@`,
/// whitespace at its front included.
pub proof fn lemma_at_pattern_matches(name: Seq<char>, handle: Seq<char>, title: Seq<char>)
    requires
        name.len() > 0,
        !is_whitespace(name.last()),
        name[0] != '@',
    ensures
        pattern_key(seq!['@'] + name) == ascii_lower(name),
        ascii_lower(handle) == ascii_lower(name) ==> pattern_matches(
            handle,
            title,
            seq!['@'] + name,
        ),
        pattern_matches(handle, name, seq!['@'] + name),
        contains_sub(title, name) ==> pattern_matches(handle, title, seq!['@'] + name),
{
    let p = seq!['@'] + name;
    assert(p[0] == '@');
    assert(p.last() == name.last());
    crate::text::lemma_trim_clean(p);
    assert(p.drop_first() =~= name);
    assert(strip_leading(name, '@') == name);
    assert(strip_leading(p, '@') == strip_leading(p.drop_first(), '@'));
    if contains_sub(title, name) {
        let i = choose|i: int| crate::text::occurs_at(title, name, i);
        crate::text::lemma_lower_keeps_occurrence(title, name, i);
    }
}

/// A key of the block list is matched as it stands: it is its own pattern
/// key, and it is blank only if it is empty.
pub proof fn lemma_block_key_is_pattern_key(raw: Seq<char>)
    ensures
        pattern_key(channel_key(raw)) == channel_key(raw),
        is_blank(channel_key(raw)) == (channel_key(raw).len() == 0),
{
    crate::prefs::lemma_channel_key(raw);
    let k = channel_key(raw);
    assert(strip_leading(k, '@') == k);
}

} // verus!
