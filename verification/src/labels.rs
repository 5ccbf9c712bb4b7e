//! How values are worded for a reader: window presets, durations, sort
//! orders and channels.

use vstd::prelude::*;
use vstd::string::*;
use crate::prefs::TimeWindowPreset;
use crate::text::{
    ascii_lower, chars_eq, chars_of, chars_views, decimal, decimal_chars, is_blank, join,
    join_chars, lower_chars, opt_str, push_all, string_of, trim, trim_chars,
};
use crate::types::{VideoDetails, VideoView};

verus! {

/// The label of a window preset.
pub open spec fn window_label(preset: TimeWindowPreset) -> Seq<char> {
    match preset {
        TimeWindowPreset::Today => "Today"@,
        TimeWindowPreset::H48 => "48h"@,
        TimeWindowPreset::D7 => "7d"@,
        TimeWindowPreset::AllTime => "Any date"@,
    }
}

/// The label of a window preset.
pub fn time_window_label(preset: TimeWindowPreset) -> (r: &'static str)
    ensures
        r@ == window_label(preset),
{
    match preset {
        TimeWindowPreset::Today => "Today",
        TimeWindowPreset::H48 => "48h",
        TimeWindowPreset::D7 => "7d",
        TimeWindowPreset::AllTime => "Any date",
    }
}

/// The orders in which results can be shown.
#[derive(Clone, Copy, Debug, PartialEq, Eq, Structural)]
pub enum ResultSort {
    Newest,
    Oldest,
    Shortest,
    Longest,
    Channel,
}

/// The label of a sort order.
pub open spec fn sort_label(sort: ResultSort) -> Seq<char> {
    match sort {
        ResultSort::Newest => "Newest"@,
        ResultSort::Oldest => "Oldest"@,
        ResultSort::Shortest => "Shortest"@,
        ResultSort::Longest => "Longest"@,
        ResultSort::Channel => "Channel"@,
    }
}

impl ResultSort {
    /// The label of this sort order.
    pub fn label(self) -> (r: &'static str)
        ensures
            r@ == sort_label(self),
    {
        match self {
            ResultSort::Newest => "Newest",
            ResultSort::Oldest => "Oldest",
            ResultSort::Shortest => "Shortest",
            ResultSort::Longest => "Longest",
            ResultSort::Channel => "Channel",
        }
    }
}

/// The parts of a duration in words: the hours if there are any, the
/// minutes if there are hours or minutes, and always the seconds.
pub open spec fn duration_parts(total_secs: nat) -> Seq<Seq<char>> {
    let hours = total_secs / 3600;
    let minutes = (total_secs % 3600) / 60;
    let seconds = total_secs % 60;
    (if hours > 0 {
        seq![decimal(hours).push('h')]
    } else {
        Seq::empty()
    }) + (if minutes > 0 || hours > 0 {
        seq![decimal(minutes).push('m')]
    } else {
        Seq::empty()
    }) + seq![decimal(seconds).push('s')]
}

/// A duration in words, such as `1h 5m 0s`.
pub open spec fn duration_text(total_secs: nat) -> Seq<char> {
    join(duration_parts(total_secs), seq![' '])
}

/// Words a duration given in seconds.
pub fn format_duration(total_secs: u64) -> (r: String)
    ensures
        r@ == duration_text(total_secs as nat),
{
    let hours = total_secs / 3600;
    let minutes = (total_secs % 3600) / 60;
    let seconds = total_secs % 60;
    let mut parts: Vec<Vec<char>> = Vec::new();
    assert(chars_views(parts@) =~= Seq::<Seq<char>>::empty());
    if hours > 0 {
        let mut p = decimal_chars(hours as u128);
        p.push('h');
        parts.push(p);
    }
    let ghost first = chars_views(parts@);
    assert(first =~= if hours > 0 {
        seq![decimal(hours as nat).push('h')]
    } else {
        Seq::empty()
    });
    if minutes > 0 || hours > 0 {
        let mut p = decimal_chars(minutes as u128);
        p.push('m');
        parts.push(p);
    }
    let ghost second = chars_views(parts@);
    assert(second =~= first + if minutes > 0 || hours > 0 {
        seq![decimal(minutes as nat).push('m')]
    } else {
        Seq::empty()
    });
    let mut p = decimal_chars(seconds as u128);
    p.push('s');
    parts.push(p);
    assert(chars_views(parts@) =~= second + seq![decimal(seconds as nat).push('s')]);
    let mut sep: Vec<char> = Vec::new();
    sep.push(' ');
    assert(sep@ =~= seq![' ']);
    let text = join_chars(&parts, &sep);
    string_of(&text)
}

/// The trimmed text, unless it is blank.
pub open spec fn non_blank(s: Seq<char>) -> Option<Seq<char>> {
    if is_blank(s) {
        None
    } else {
        Some(trim(s))
    }
}

/// The trimmed text of an optional string, unless there is none or it is
/// blank.
pub open spec fn non_blank_opt(o: Option<Seq<char>>) -> Option<Seq<char>> {
    match o {
        Some(s) => non_blank(s),
        None => None,
    }
}

/// The text by which a video is ordered when results are sorted by channel:
/// the first of display name, channel title and channel id that is not
/// blank, trimmed and in ASCII lower case; the empty text if all are blank.
pub open spec fn sort_key(video: VideoView) -> Seq<char> {
    match non_blank_opt(video.channel_display_name) {
        Some(name) => ascii_lower(name),
        None => match non_blank(video.channel_title) {
            Some(title) => ascii_lower(title),
            None => match non_blank(video.channel_handle) {
                Some(handle) => ascii_lower(handle),
                None => Seq::empty(),
            },
        },
    }
}

/// The trimmed characters of a string, unless it is blank.
fn non_blank_chars(s: &str) -> (r: Option<Vec<char>>)
    ensures
        match r {
            Some(v) => non_blank(s@) == Some(v@),
            None => non_blank(s@) is None,
        },
{
    let raw = chars_of(s);
    let t = trim_chars(&raw);
    if t.len() == 0 {
        None
    } else {
        Some(t)
    }
}

/// The trimmed characters of an optional string, unless there is none or it
/// is blank.
fn non_blank_opt_chars(o: &Option<String>) -> (r: Option<Vec<char>>)
    ensures
        match r {
            Some(v) => non_blank_opt(opt_str(*o)) == Some(v@),
            None => non_blank_opt(opt_str(*o)) is None,
        },
{
    match o {
        Some(s) => non_blank_chars(s.as_str()),
        None => None,
    }
}

/// The text by which a video is ordered when results are sorted by channel.
pub fn channel_sort_key(video: &VideoDetails) -> (r: String)
    ensures
        r@ == sort_key(video@),
{
    if let Some(name) = non_blank_opt_chars(&video.channel_display_name) {
        return string_of(&lower_chars(&name));
    }
    if let Some(title) = non_blank_chars(video.channel_title.as_str()) {
        return string_of(&lower_chars(&title));
    }
    if let Some(handle) = non_blank_chars(video.channel_handle.as_str()) {
        return string_of(&lower_chars(&handle));
    }
    String::new()
}

/// How a video's channel is named to a reader: the display name, or else
/// the channel title, followed in brackets by the custom address unless that
/// says the same regardless of ASCII case; the custom address alone where
/// there is no name; the channel id where there is neither.
pub open spec fn display_label(video: VideoView) -> Seq<char> {
    let name = match non_blank_opt(video.channel_display_name) {
        Some(n) => Some(n),
        None => non_blank(video.channel_title),
    };
    let handle = non_blank_opt(video.channel_custom_url);
    match (name, handle) {
        (Some(n), Some(h)) => if ascii_lower(h) == ascii_lower(n) {
            n
        } else {
            n + seq![' ', '('] + h + seq![')']
        },
        (Some(n), None) => n,
        (None, Some(h)) => h,
        (None, None) => video.channel_handle,
    }
}

/// How a video's channel is named to a reader.
pub fn channel_display_label(video: &VideoDetails) -> (r: String)
    ensures
        r@ == display_label(video@),
{
    let name = match non_blank_opt_chars(&video.channel_display_name) {
        Some(n) => Some(n),
        None => non_blank_chars(video.channel_title.as_str()),
    };
    let handle = non_blank_opt_chars(&video.channel_custom_url);
    match (name, handle) {
        (Some(n), Some(h)) => {
            let same = chars_eq(&lower_chars(&h), &lower_chars(&n));
            if same {
                string_of(&n)
            } else {
                let mut text = n;
                text.push(' ');
                text.push('(');
                push_all(&mut text, &h);
                text.push(')');
                let ghost want = display_label(video@);
                assert(text@ =~= want);
                string_of(&text)
            }
        },
        (Some(n), None) => string_of(&n),
        (None, Some(h)) => string_of(&h),
        (None, None) => video.channel_handle.clone(),
    }
}

/// Whether a character can stand in a file name as it is: an ASCII letter
/// or digit, `-` or `_`.
pub open spec fn is_file_safe(c: char) -> bool {
    ('a' <= c && c <= 'z') || ('A' <= c && c <= 'Z') || ('0' <= c && c <= '9') || c == '-' || c
        == '_'
}

/// An id made fit for a file name: every character that is not file-safe
/// becomes `_`.
pub open spec fn sanitized_id(raw: Seq<char>) -> Seq<char> {
    Seq::new(raw.len(), |i: int| if is_file_safe(raw[i]) {
        raw[i]
    } else {
        '_'
    })
}

/// Makes an id fit for a file name.
pub fn sanitize_id(raw: &str) -> (r: String)
    ensures
        r@ == sanitized_id(raw@),
{
    let v = chars_of(raw);
    let mut out: Vec<char> = Vec::new();
    let mut i: usize = 0;
    while i < v.len()
        invariant
            i <= v.len(),
            out@.len() == i,
            forall|j: int| 0 <= j < i ==> out@[j] == sanitized_id(v@)[j],
        decreases v.len() - i,
    {
        let c = v[i];
        let safe = (c >= 'a' && c <= 'z') || (c >= 'A' && c <= 'Z') || (c >= '0' && c <= '9') || c
            == '-' || c == '_';
        out.push(if safe {
            c
        } else {
            '_'
        });
        i += 1;
    }
    assert(out@ =~= sanitized_id(raw@));
    string_of(&out)
}

} // verus!
