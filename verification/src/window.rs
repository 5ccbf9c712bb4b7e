//! The time window resolver: which publish-date window a search is run
//! with.

use vstd::prelude::*;
use vstd::string::*;
use crate::prefs::{
    opt_window, GlobalPrefs, GlobalPrefsView, MySearch, MySearchView, TimeWindow,
    TimeWindowPreset, TimeWindowView,
};
use crate::text::opt_str;

verus! {

/// The RFC 3339 text of the UTC instant that lies `unix_nanos` nanoseconds
/// after the Unix epoch, as the `time` crate writes it; `None` for an
/// instant that `time` cannot hold or cannot write in that format.
pub uninterp spec fn rfc3339_utc(unix_nanos: int) -> Option<Seq<char>>;

/// Calls `time::OffsetDateTime::from_unix_timestamp_nanos` and then
/// `OffsetDateTime::format` with `Rfc3339`. Both are functions of the
/// instant alone, so the text depends on nothing but `unix_nanos`; what the
/// text is, is left to the crate. A failure of either gives `None`.
#[verifier::external_body]
fn format_rfc3339_utc(unix_nanos: i128) -> (r: Option<String>)
    ensures
        opt_str(r) == rfc3339_utc(unix_nanos as int),
{
    match time::OffsetDateTime::from_unix_timestamp_nanos(unix_nanos) {
        Ok(t) => t.format(&time::format_description::well_known::Rfc3339).ok(),
        Err(_) => None,
    }
}

/// Calls `time::OffsetDateTime::now_utc` and gives the instant as
/// nanoseconds since the Unix epoch. Nothing is claimed of the value: it is
/// whatever the clock says. `now_utc` takes no argument that could be
/// ruled out; it gives up only on a machine whose clock lies outside the
/// years that `time` can hold.
#[verifier::external_body]
fn now_unix_nanos() -> i128 {
    time::OffsetDateTime::now_utc().unix_timestamp_nanos()
}

/// Nanoseconds in an hour.
pub open spec fn nanos_per_hour() -> int {
    3_600_000_000_000
}

/// The text that stands in for a timestamp that cannot be written.
pub open spec fn epoch_text() -> Seq<char> {
    "1970-01-01T00:00:00Z"@
}

/// How many hours back a rolling window reaches; `None` means no
/// publish-date restriction at all.
pub open spec fn window_hours(preset: TimeWindowPreset) -> Option<int> {
    match preset {
        TimeWindowPreset::Today => Some(24),
        TimeWindowPreset::H48 => Some(48),
        TimeWindowPreset::D7 => Some(168),
        TimeWindowPreset::AllTime => None,
    }
}

/// The timestamp of an instant, or the epoch text where it cannot be
/// written.
pub open spec fn stamp(unix_nanos: int) -> Seq<char> {
    if i128::MIN <= unix_nanos <= i128::MAX {
        match rfc3339_utc(unix_nanos) {
            Some(s) => s,
            None => epoch_text(),
        }
    } else {
        epoch_text()
    }
}

/// The rolling window of `preset` that ends at the instant `now`.
pub open spec fn rolling_window(preset: TimeWindowPreset, now: int) -> Option<TimeWindowView> {
    match window_hours(preset) {
        Some(h) => Some(
            TimeWindowView {
                start_rfc3339: stamp(now - h * nanos_per_hour()),
                end_rfc3339: stamp(now),
            },
        ),
        None => None,
    }
}

/// The window that a search is run with at the instant `now`: its own
/// override, unchanged, where it has one; else the rolling window of the
/// global default.
pub open spec fn resolved_window(
    global: GlobalPrefsView,
    search: MySearchView,
    now: int,
) -> Option<TimeWindowView> {
    match search.window_override {
        Some(w) => Some(w),
        None => rolling_window(global.default_window, now),
    }
}

/// The text of a timestamp, or the epoch text where the instant could not
/// be written.
pub fn stamp_or_epoch(text: Option<String>) -> (r: String)
    ensures
        r@ == match opt_str(text) {
            Some(s) => s,
            None => epoch_text(),
        },
{
    match text {
        Some(s) => s,
        None => "1970-01-01T00:00:00Z".to_owned(),
    }
}

/// The timestamp of an instant, with the epoch as the fallback.
fn stamp_of(unix_nanos: i128) -> (r: String)
    ensures
        r@ == stamp(unix_nanos as int),
{
    stamp_or_epoch(format_rfc3339_utc(unix_nanos))
}

/// The rolling window of `preset` that ends at the given instant, in
/// nanoseconds since the Unix epoch.
pub fn window_for_preset_at(preset: TimeWindowPreset, now_nanos: i128) -> (r: Option<TimeWindow>)
    ensures
        opt_window(r) == rolling_window(preset, now_nanos as int),
        r is None <==> preset == TimeWindowPreset::AllTime,
{
    let hours: i128 = match preset {
        TimeWindowPreset::Today => 24,
        TimeWindowPreset::H48 => 48,
        TimeWindowPreset::D7 => 168,
        TimeWindowPreset::AllTime => {
            return None;
        },
    };
    let span: i128 = hours * 3_600_000_000_000;
    let start = if now_nanos >= i128::MIN + span {
        stamp_of(now_nanos - span)
    } else {
        stamp_or_epoch(None)
    };
    let end = stamp_of(now_nanos);
    Some(TimeWindow { start_rfc3339: start, end_rfc3339: end })
}

/// An instant that the clock can give: nanoseconds since the Unix epoch
/// within 128 bits.
pub open spec fn is_instant(now: int) -> bool {
    i128::MIN <= now <= i128::MAX
}

/// The rolling window of `preset` that ends now: the window of an instant
/// that the clock can give.
pub fn window_for_preset(preset: TimeWindowPreset) -> (r: Option<TimeWindow>)
    ensures
        r is None <==> preset == TimeWindowPreset::AllTime,
        exists|now: int| is_instant(now) && opt_window(r) == rolling_window(preset, now),
{
    let now = now_unix_nanos();
    let r = window_for_preset_at(preset, now);
    assert(is_instant(now as int) && opt_window(r) == rolling_window(preset, now as int));
    r
}

/// The window that a search is run with at the given instant.
pub fn resolve_window_at(global: &GlobalPrefs, search: &MySearch, now_nanos: i128) -> (r: Option<
    TimeWindow,
>)
    ensures
        opt_window(r) == resolved_window(global@, search@, now_nanos as int),
{
    if let Some(override_window) = &search.window_override {
        return Some(override_window.clone());
    }
    window_for_preset_at(global.default_window, now_nanos)
}

/// The window that a search is run with now. An override comes back
/// unchanged. Without one, there is a window unless the global default asks
/// for no restriction, and it is the rolling window of an instant that the
/// clock can give.
pub fn resolve_window(global: &GlobalPrefs, search: &MySearch) -> (r: Option<TimeWindow>)
    ensures
        search@.window_override is Some ==> opt_window(r) == search@.window_override,
        search@.window_override is None ==> (r is None <==> global@.default_window
            == TimeWindowPreset::AllTime),
        exists|now: int|
            is_instant(now) && opt_window(r) == resolved_window(global@, search@, now),
{
    if let Some(override_window) = &search.window_override {
        let r = Some(override_window.clone());
        assert(is_instant(0) && opt_window(r) == resolved_window(global@, search@, 0));
        return r;
    }
    let r = window_for_preset(global.default_window);
    proof {
        let now = choose|now: int|
            is_instant(now) && opt_window(r) == rolling_window(global@.default_window, now);
        assert(is_instant(now) && opt_window(r) == resolved_window(global@, search@, now));
    }
    r
}

} // verus!
