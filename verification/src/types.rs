//! The records exchanged with the video service, and the video record that
//! the pipeline filters, merges and hands on.

use vstd::prelude::*;
use crate::prefs::{clone_opt_string, clone_strings};
use crate::text::{opt_str, strs};

verus! {

/// One fetched video.
#[derive(Debug, PartialEq)]
pub struct VideoDetails {
    pub id: String,
    pub title: String,
    pub title_lower: String,
    pub channel_title: String,
    pub channel_handle: String,
    pub channel_display_name: Option<String>,
    pub channel_custom_url: Option<String>,
    pub published_at: String,
    pub duration_secs: u64,
    pub default_audio_lang: Option<String>,
    pub default_lang: Option<String>,
    pub thumbnail_url: Option<String>,
    pub url: String,
    pub has_caption_lang_en: Option<bool>,
    pub source_presets: Vec<String>,
}

/// Mathematical content of a [`VideoDetails`].
pub struct VideoView {
    pub id: Seq<char>,
    pub title: Seq<char>,
    pub title_lower: Seq<char>,
    pub channel_title: Seq<char>,
    pub channel_handle: Seq<char>,
    pub channel_display_name: Option<Seq<char>>,
    pub channel_custom_url: Option<Seq<char>>,
    pub published_at: Seq<char>,
    pub duration_secs: u64,
    pub default_audio_lang: Option<Seq<char>>,
    pub default_lang: Option<Seq<char>>,
    pub thumbnail_url: Option<Seq<char>>,
    pub url: Seq<char>,
    pub has_caption_lang_en: Option<bool>,
    pub source_presets: Seq<Seq<char>>,
}

impl View for VideoDetails {
    type V = VideoView;

    open spec fn view(&self) -> VideoView {
        VideoView {
            id: self.id@,
            title: self.title@,
            title_lower: self.title_lower@,
            channel_title: self.channel_title@,
            channel_handle: self.channel_handle@,
            channel_display_name: opt_str(self.channel_display_name),
            channel_custom_url: opt_str(self.channel_custom_url),
            published_at: self.published_at@,
            duration_secs: self.duration_secs,
            default_audio_lang: opt_str(self.default_audio_lang),
            default_lang: opt_str(self.default_lang),
            thumbnail_url: opt_str(self.thumbnail_url),
            url: self.url@,
            has_caption_lang_en: self.has_caption_lang_en,
            source_presets: strs(self.source_presets@),
        }
    }
}

impl Clone for VideoDetails {
    fn clone(&self) -> (r: Self)
        ensures
            r@ == self@,
    {
        VideoDetails {
            id: self.id.clone(),
            title: self.title.clone(),
            title_lower: self.title_lower.clone(),
            channel_title: self.channel_title.clone(),
            channel_handle: self.channel_handle.clone(),
            channel_display_name: clone_opt_string(&self.channel_display_name),
            channel_custom_url: clone_opt_string(&self.channel_custom_url),
            published_at: self.published_at.clone(),
            duration_secs: self.duration_secs,
            default_audio_lang: clone_opt_string(&self.default_audio_lang),
            default_lang: clone_opt_string(&self.default_lang),
            thumbnail_url: clone_opt_string(&self.thumbnail_url),
            url: self.url.clone(),
            has_caption_lang_en: self.has_caption_lang_en,
            source_presets: clone_strings(&self.source_presets),
        }
    }
}

/// The views of a sequence of videos.
pub open spec fn video_views(v: Seq<VideoDetails>) -> Seq<VideoView> {
    Seq::new(v.len(), |i: int| v[i]@)
}

/// Copies a list of videos.
pub fn clone_videos(v: &Vec<VideoDetails>) -> (r: Vec<VideoDetails>)
    ensures
        video_views(r@) == video_views(v@),
{
    let mut r: Vec<VideoDetails> = Vec::new();
    let mut i: usize = 0;
    while i < v.len()
        invariant
            i <= v.len(),
            r@.len() == i,
            forall|j: int| 0 <= j < i ==> r@[j]@ == v@[j]@,
        decreases v.len() - i,
    {
        r.push(v[i].clone());
        i += 1;
    }
    assert(video_views(r@) =~= video_views(v@));
    r
}

/// One page of the id search: the ids found and, unless the listing is
/// exhausted, the token that asks for the next page.
#[derive(Debug)]
pub struct SearchListResponse {
    pub next_page_token: Option<String>,
    pub items: Vec<SearchItem>,
}

/// One hit of the id search.
#[derive(Debug)]
pub struct SearchItem {
    pub id: SearchId,
    pub snippet: Snippet,
}

/// The identity of a search hit; hits that are not videos carry none.
#[derive(Debug)]
pub struct SearchId {
    pub video_id: Option<String>,
}

/// What the id search tells of a hit besides its identity.
#[derive(Debug)]
pub struct Snippet {
    pub published_at: String,
}

/// The answer of the bulk detail lookup.
#[derive(Debug)]
pub struct VideosListResponse {
    pub items: Vec<VideoItem>,
}

/// Full metadata of one video as the detail lookup gives it.
#[derive(Debug)]
pub struct VideoItem {
    pub id: String,
    pub snippet: VideoSnippet,
    pub content_details: ContentDetails,
}

/// Descriptive metadata of a video.
#[derive(Debug)]
pub struct VideoSnippet {
    pub title: String,
    pub channel_title: String,
    pub channel_id: String,
    pub published_at: String,
    pub default_audio_language: Option<String>,
    pub default_language: Option<String>,
    pub thumbnails: Option<Thumbs>,
}

/// The thumbnails of a video.
#[derive(Debug)]
pub struct Thumbs {
    pub medium: Option<Thumb>,
}

/// One thumbnail.
#[derive(Debug)]
pub struct Thumb {
    pub url: String,
}

/// Technical metadata of a video; `duration` is an ISO 8601 duration.
#[derive(Debug)]
pub struct ContentDetails {
    pub duration: String,
}

/// The answer of the channel metadata lookup.
#[derive(Debug)]
pub struct ChannelsListResponse {
    pub items: Vec<ChannelItem>,
}

/// Metadata of one channel.
#[derive(Debug)]
pub struct ChannelItem {
    pub id: String,
    pub snippet: ChannelSnippet,
}

/// Title and optional custom URL of a channel.
#[derive(Debug)]
pub struct ChannelSnippet {
    pub title: String,
    pub custom_url: Option<String>,
}

} // verus!
