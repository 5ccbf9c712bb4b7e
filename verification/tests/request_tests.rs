use ytsearch::request::{
    after_response, alternate_keys, channels_url, error_reason, format_youtube_error,
    is_key_issue, is_success, join_ids, search_url, url_with_key, videos_url, wants_alternates,
    ApiError, Verdict,
};

fn list(items: &[&str]) -> Vec<String> {
    items.iter().map(|s| s.to_string()).collect()
}

#[test]
fn search_url_percent_encodes_values() {
    let params: Vec<(&'static str, String)> = vec![
        ("q", "a b&c=d/é~_-.".to_string()),
        ("order", "date".to_string()),
    ];
    assert_eq!(
        search_url(&params),
        "https://www.googleapis.com/youtube/v3/search?part=snippet&type=video&q=a%20b%26c%3Dd%2F%C3%A9~_-.&order=date"
    );
    let none: Vec<(&'static str, String)> = vec![];
    assert_eq!(
        search_url(&none),
        "https://www.googleapis.com/youtube/v3/search?part=snippet&type=video"
    );
}

#[test]
fn search_url_encodes_quotes_and_parentheses() {
    let params: Vec<(&'static str, String)> = vec![("q", "(\"a b\" OR c) -x".to_string())];
    assert_eq!(
        search_url(&params),
        "https://www.googleapis.com/youtube/v3/search?part=snippet&type=video&q=%28%22a%20b%22%20OR%20c%29%20-x"
    );
}

#[test]
fn lookup_urls_list_ids_with_commas() {
    assert_eq!(join_ids(&list(&["a", "b", "c"])), "a,b,c");
    assert_eq!(join_ids(&list(&["only"])), "only");
    assert_eq!(join_ids(&[]), "");
    assert_eq!(
        videos_url(&list(&["x1", "y2"])),
        "https://www.googleapis.com/youtube/v3/videos?part=snippet,contentDetails&id=x1,y2"
    );
    assert_eq!(
        channels_url(&list(&["UC1"])),
        "https://www.googleapis.com/youtube/v3/channels?part=snippet&id=UC1"
    );
}

#[test]
fn key_is_trimmed_and_appended() {
    assert_eq!(url_with_key("http://h/p?a=1", "  KEY \n"), "http://h/p?a=1&key=KEY");
}

#[test]
fn alternates_are_trimmed_filtered_and_ordered() {
    let alts = alternate_keys(" current ", &list(&[" alt1\n", "", "current", "  ", "alt2", "alt1"]));
    assert_eq!(alts, list(&["alt1", "alt2", "alt1"]));
    assert!(alternate_keys("k", &[]).is_empty());
}

#[test]
fn key_issue_needs_403_and_a_known_reason() {
    for reason in [
        "quotaExceeded",
        "dailyLimitExceeded",
        "keyInvalid",
        "forbidden",
        "ipRefererBlocked",
        "accessNotConfigured",
        "xx quota yy",
    ] {
        assert!(is_key_issue(403, reason), "{reason}");
        assert!(!is_key_issue(400, reason), "{reason}");
        assert!(!is_key_issue(500, reason), "{reason}");
    }
    assert!(!is_key_issue(403, ""));
    assert!(!is_key_issue(403, "Quota"));
    assert!(!is_key_issue(403, "badRequest"));
}

#[test]
fn verdict_follows_the_fallback_rule() {
    assert_eq!(after_response(0, 2, 200, ""), Verdict::Accept);
    assert_eq!(after_response(0, 2, 299, "quota"), Verdict::Accept);
    assert_eq!(after_response(0, 2, 403, "quotaExceeded"), Verdict::Retry(0));
    assert_eq!(after_response(0, 0, 403, "quotaExceeded"), Verdict::GiveUp);
    assert_eq!(after_response(0, 2, 403, "other"), Verdict::GiveUp);
    assert_eq!(after_response(0, 2, 500, "quotaExceeded"), Verdict::GiveUp);
    assert_eq!(after_response(0, 2, 300, ""), Verdict::GiveUp);
    assert_eq!(after_response(0, 2, 199, ""), Verdict::GiveUp);
    assert_eq!(after_response(1, 2, 500, "anything"), Verdict::Retry(1));
    assert_eq!(after_response(2, 2, 500, "anything"), Verdict::GiveUp);
    assert_eq!(after_response(2, 2, 204, ""), Verdict::Accept);
}

#[test]
fn failure_text_has_status_reason_and_message() {
    let full = Some(ApiError {
        message: "Quota exceeded.".to_string(),
        status: Some("RESOURCE_EXHAUSTED".to_string()),
        reason: Some("quotaExceeded".to_string()),
    });
    assert_eq!(
        format_youtube_error(403, "{...}", "search.list", &full),
        "YouTube search.list failed (HTTP 403, RESOURCE_EXHAUSTED, reason=quotaExceeded): Quota exceeded."
    );
    assert_eq!(error_reason(&full), "quotaExceeded");
    let word_only = Some(ApiError {
        message: "Nope".to_string(),
        status: Some("PERMISSION_DENIED".to_string()),
        reason: None,
    });
    assert_eq!(
        format_youtube_error(403, "", "videos.list", &word_only),
        "YouTube videos.list failed (HTTP 403, PERMISSION_DENIED): Nope"
    );
    assert_eq!(error_reason(&word_only), "");
    let reason_only = Some(ApiError {
        message: "Bad".to_string(),
        status: None,
        reason: Some("keyInvalid".to_string()),
    });
    assert_eq!(
        format_youtube_error(400, "", "search.list", &reason_only),
        "YouTube search.list failed (HTTP 400, , reason=keyInvalid): Bad"
    );
    let bare = Some(ApiError {
        message: "Plain".to_string(),
        status: Some(String::new()),
        reason: Some(String::new()),
    });
    assert_eq!(
        format_youtube_error(500, "", "search.list", &bare),
        "YouTube search.list failed (HTTP 500): Plain"
    );
}

#[test]
fn failure_text_falls_back_to_the_trimmed_body() {
    assert_eq!(
        format_youtube_error(502, "  <html>Bad Gateway</html>\n", "videos.list", &None),
        "YouTube videos.list failed (HTTP 502): <html>Bad Gateway</html>"
    );
    assert_eq!(error_reason(&None), "");
}

#[test]
fn success_is_a_status_from_200_to_299() {
    for status in [0u16, 100, 199, 300, 403, 404, 500, u16::MAX] {
        assert!(!is_success(status), "{status}");
    }
    for status in [200u16, 201, 204, 299] {
        assert!(is_success(status), "{status}");
    }
}

#[test]
fn alternates_are_read_only_after_a_first_key_issue() {
    assert!(wants_alternates(0, 403, "quotaExceeded"));
    assert!(wants_alternates(0, 403, "keyInvalid"));
    assert!(!wants_alternates(1, 403, "quotaExceeded"));
    assert!(!wants_alternates(0, 403, "badRequest"));
    assert!(!wants_alternates(0, 500, "quotaExceeded"));
    assert!(!wants_alternates(0, 200, "quotaExceeded"));
    assert!(!wants_alternates(0, 403, ""));
}
