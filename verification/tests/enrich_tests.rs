use ytsearch::enrich::{apply_channel_metadata, channel_ids_to_look_up, id_batches, CHANNEL_BATCH_SIZE};
use ytsearch::labels::{
    channel_display_label, channel_sort_key, format_duration, sanitize_id, time_window_label,
    ResultSort,
};
use ytsearch::prefs::TimeWindowPreset;
use ytsearch::types::{ChannelItem, ChannelSnippet, VideoDetails};

fn video_of_channel(handle: &str, title: &str) -> VideoDetails {
    VideoDetails {
        id: "v".to_string(),
        title: "T".to_string(),
        title_lower: "t".to_string(),
        channel_title: title.to_string(),
        channel_handle: handle.to_string(),
        channel_display_name: None,
        channel_custom_url: None,
        published_at: "2024-01-01T00:00:00Z".to_string(),
        duration_secs: 1,
        default_audio_lang: None,
        default_lang: None,
        thumbnail_url: None,
        url: "u".to_string(),
        has_caption_lang_en: None,
        source_presets: vec![],
    }
}

fn channel(id: &str, title: &str, custom: Option<&str>) -> ChannelItem {
    ChannelItem {
        id: id.to_string(),
        snippet: ChannelSnippet { title: title.to_string(), custom_url: custom.map(|s| s.to_string()) },
    }
}

fn texts(items: &[&str]) -> Vec<String> {
    items.iter().map(|s| s.to_string()).collect()
}

#[test]
fn lookup_ids_are_distinct_sorted_and_not_blank() {
    let videos = vec![
        video_of_channel("UCb", "B"),
        video_of_channel("  ", "Blank"),
        video_of_channel("UCa", "A"),
        video_of_channel("UCb", "B again"),
        video_of_channel("", "Empty"),
        video_of_channel("@handle", "H"),
        video_of_channel(" UCa", "spaced"),
    ];
    assert_eq!(channel_ids_to_look_up(&videos), texts(&[" UCa", "@handle", "UCa", "UCb"]));
    assert!(channel_ids_to_look_up(&vec![]).is_empty());
}

#[test]
fn batches_hold_at_most_fifty_ids() {
    assert_eq!(CHANNEL_BATCH_SIZE, 50);
    let make = |n: usize| -> Vec<String> { (0..n).map(|i| format!("id{:03}", i)).collect() };
    assert!(id_batches(&make(0)).is_empty());
    for n in [1usize, 49, 50, 51, 100, 101, 149] {
        let ids = make(n);
        let batches = id_batches(&ids);
        let expected: Vec<Vec<String>> = ids.chunks(50).map(|c| c.to_vec()).collect();
        assert_eq!(batches, expected, "{n}");
    }
    let sizes: Vec<usize> = id_batches(&make(101)).iter().map(|b| b.len()).collect();
    assert_eq!(sizes, vec![50, 50, 1]);
}

#[test]
fn metadata_fills_display_name_and_handle() {
    let mut videos = vec![video_of_channel("UC1", "Raw Title"), video_of_channel("UC2", "Other")];
    let items = vec![channel("UC1", "  Nice Name ", Some(" nicehandle ")), channel("UC9", "Unused", None)];
    apply_channel_metadata(&mut videos, &items);
    assert_eq!(videos[0].channel_display_name, Some("Nice Name".to_string()));
    assert_eq!(videos[0].channel_custom_url, Some("@nicehandle".to_string()));
    assert_eq!(videos[1].channel_display_name, Some("Other".to_string()));
    assert_eq!(videos[1].channel_custom_url, None);
    assert_eq!(videos[0].channel_title, "Raw Title");
    assert_eq!(videos[0].id, "v");
}

#[test]
fn custom_url_keeps_an_existing_at_sign() {
    let mut videos = vec![video_of_channel("UC1", "T")];
    apply_channel_metadata(&mut videos, &vec![channel("UC1", "N", Some("@already"))]);
    assert_eq!(videos[0].channel_custom_url, Some("@already".to_string()));
    let mut blank = vec![video_of_channel("UC1", "T")];
    apply_channel_metadata(&mut blank, &vec![channel("UC1", "   ", Some("   "))]);
    assert_eq!(blank[0].channel_display_name, Some("T".to_string()));
    assert_eq!(blank[0].channel_custom_url, None);
}

#[test]
fn last_record_of_a_channel_counts() {
    let mut videos = vec![video_of_channel("UC1", "T")];
    let items = vec![channel("UC1", "First", Some("one")), channel("UC1", "Second", None)];
    apply_channel_metadata(&mut videos, &items);
    assert_eq!(videos[0].channel_display_name, Some("Second".to_string()));
    assert_eq!(videos[0].channel_custom_url, None);
}

#[test]
fn without_answers_the_raw_values_serve() {
    let mut videos = vec![
        video_of_channel("@handle", "Shown"),
        video_of_channel("UCx", "   "),
        video_of_channel("", ""),
    ];
    videos[1].channel_display_name = Some("Kept".to_string());
    apply_channel_metadata(&mut videos, &vec![]);
    assert_eq!(videos[0].channel_display_name, Some("Shown".to_string()));
    assert_eq!(videos[0].channel_custom_url, Some("@handle".to_string()));
    assert_eq!(videos[1].channel_display_name, Some("Kept".to_string()));
    assert_eq!(videos[1].channel_custom_url, None);
    assert_eq!(videos[2].channel_display_name, None);
    assert_eq!(videos[2].channel_custom_url, None);
}

#[test]
fn labels_of_presets_and_sorts() {
    assert_eq!(time_window_label(TimeWindowPreset::Today), "Today");
    assert_eq!(time_window_label(TimeWindowPreset::H48), "48h");
    assert_eq!(time_window_label(TimeWindowPreset::D7), "7d");
    assert_eq!(time_window_label(TimeWindowPreset::AllTime), "Any date");
    assert_eq!(ResultSort::Newest.label(), "Newest");
    assert_eq!(ResultSort::Oldest.label(), "Oldest");
    assert_eq!(ResultSort::Shortest.label(), "Shortest");
    assert_eq!(ResultSort::Longest.label(), "Longest");
    assert_eq!(ResultSort::Channel.label(), "Channel");
}

#[test]
fn durations_are_worded() {
    assert_eq!(format_duration(0), "0s");
    assert_eq!(format_duration(59), "59s");
    assert_eq!(format_duration(60), "1m 0s");
    assert_eq!(format_duration(3599), "59m 59s");
    assert_eq!(format_duration(3600), "1h 0m 0s");
    assert_eq!(format_duration(3661), "1h 1m 1s");
    assert_eq!(format_duration(u64::MAX), "5124095576030431h 0m 15s");
}

#[test]
fn sort_key_prefers_display_name_then_title_then_handle() {
    let mut v = video_of_channel(" UCx ", " Title ");
    v.channel_display_name = Some("  Display Name ".to_string());
    assert_eq!(channel_sort_key(&v), "display name");
    v.channel_display_name = Some("   ".to_string());
    assert_eq!(channel_sort_key(&v), "title");
    v.channel_display_name = None;
    v.channel_title = "".to_string();
    assert_eq!(channel_sort_key(&v), "ucx");
    v.channel_handle = " ".to_string();
    assert_eq!(channel_sort_key(&v), "");
}

#[test]
fn display_label_joins_name_and_handle() {
    let mut v = video_of_channel("UCx", " Title ");
    assert_eq!(channel_display_label(&v), "Title");
    v.channel_custom_url = Some(" @handle ".to_string());
    assert_eq!(channel_display_label(&v), "Title (@handle)");
    v.channel_display_name = Some("@HANDLE".to_string());
    assert_eq!(channel_display_label(&v), "@HANDLE");
    v.channel_display_name = None;
    v.channel_title = "  ".to_string();
    assert_eq!(channel_display_label(&v), "@handle");
    v.channel_custom_url = Some("".to_string());
    assert_eq!(channel_display_label(&v), "UCx");
}

#[test]
fn ids_are_made_file_safe() {
    assert_eq!(sanitize_id("abc-XYZ_019"), "abc-XYZ_019");
    assert_eq!(sanitize_id("a/b\\c:d é"), "a_b_c_d__");
    assert_eq!(sanitize_id(""), "");
}
