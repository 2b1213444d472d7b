use yt_dlp::output::{sanitize_filename, sanitize_would_split};
use yt_dlp::youtube::{last_url_param, like_count_from_label};
use yt_dlp::youtube::{
    extract_categories, extract_channel_url, extract_json_object, extract_like_count,
    get_extractor, parse_cipher_url, parse_upload_date, webpage_info_from_html, YoutubeExtractor,
};

// ─── extract_video_id ─────────────────────────────────────────────────

#[test]
fn bare_11_char_id() {
    assert_eq!(
        YoutubeExtractor::extract_video_id("dQw4w9WgXcQ"),
        Some("dQw4w9WgXcQ".to_string())
    );
}

#[test]
fn watch_url() {
    assert_eq!(
        YoutubeExtractor::extract_video_id("https://www.youtube.com/watch?v=dQw4w9WgXcQ"),
        Some("dQw4w9WgXcQ".to_string())
    );
}

#[test]
fn watch_url_with_extra_params() {
    assert_eq!(
        YoutubeExtractor::extract_video_id(
            "https://www.youtube.com/watch?v=dQw4w9WgXcQ&t=30s&list=PLabc"
        ),
        Some("dQw4w9WgXcQ".to_string())
    );
}

#[test]
fn youtu_be_url() {
    assert_eq!(
        YoutubeExtractor::extract_video_id("https://youtu.be/dQw4w9WgXcQ"),
        Some("dQw4w9WgXcQ".to_string())
    );
}

#[test]
fn youtu_be_with_timestamp() {
    assert_eq!(
        YoutubeExtractor::extract_video_id("https://youtu.be/dQw4w9WgXcQ?t=42"),
        Some("dQw4w9WgXcQ".to_string())
    );
}

#[test]
fn shorts_url() {
    assert_eq!(
        YoutubeExtractor::extract_video_id("https://www.youtube.com/shorts/dQw4w9WgXcQ"),
        Some("dQw4w9WgXcQ".to_string())
    );
}

#[test]
fn live_url() {
    assert_eq!(
        YoutubeExtractor::extract_video_id("https://www.youtube.com/live/dQw4w9WgXcQ"),
        Some("dQw4w9WgXcQ".to_string())
    );
}

#[test]
fn embed_url() {
    assert_eq!(
        YoutubeExtractor::extract_video_id("https://www.youtube.com/embed/dQw4w9WgXcQ"),
        Some("dQw4w9WgXcQ".to_string())
    );
}

#[test]
fn mobile_url() {
    // m.youtube.com watch URL
    assert_eq!(
        YoutubeExtractor::extract_video_id("https://m.youtube.com/watch?v=dQw4w9WgXcQ"),
        Some("dQw4w9WgXcQ".to_string())
    );
}

#[test]
fn non_youtube_url_returns_none() {
    assert_eq!(
        YoutubeExtractor::extract_video_id("https://vimeo.com/12345"),
        None
    );
}

#[test]
fn too_short_id_returns_none() {
    assert_eq!(YoutubeExtractor::extract_video_id("short"), None);
}

#[test]
fn too_long_id_returns_none() {
    assert_eq!(YoutubeExtractor::extract_video_id("toolongidhere12"), None);
}

#[test]
fn suitable_returns_true_for_youtube() {
    let ext = YoutubeExtractor::new();
    assert!(ext.suitable("https://www.youtube.com/watch?v=dQw4w9WgXcQ"));
    assert!(ext.suitable("dQw4w9WgXcQ"));
    assert!(ext.suitable("https://youtu.be/dQw4w9WgXcQ"));
}

#[test]
fn suitable_returns_false_for_non_youtube() {
    let ext = YoutubeExtractor::new();
    assert!(!ext.suitable("https://vimeo.com/12345678"));
    assert!(!ext.suitable("https://example.com"));
}

// ─── more cases ─────────────────────────────────────────────────────

#[test]
fn bare_id_is_trimmed_and_checked_for_id_characters() {
    assert_eq!(
        YoutubeExtractor::extract_video_id("  dQw4w9WgXcQ \n"),
        Some("dQw4w9WgXcQ".to_string())
    );
    assert_eq!(YoutubeExtractor::extract_video_id("abc.efghijk"), None);
    assert_eq!(YoutubeExtractor::extract_video_id("abc_efgh-jk"), Some("abc_efgh-jk".to_string()));
}

#[test]
fn other_url_forms() {
    assert_eq!(
        YoutubeExtractor::extract_video_id("https://www.youtube.com/e/dQw4w9WgXcQ"),
        Some("dQw4w9WgXcQ".to_string())
    );
    assert_eq!(
        YoutubeExtractor::extract_video_id("https://www.youtube.com/watch/dQw4w9WgXcQ"),
        Some("dQw4w9WgXcQ".to_string())
    );
    assert_eq!(
        YoutubeExtractor::extract_video_id("https://www.youtube.com/v/dQw4w9WgXcQ"),
        Some("dQw4w9WgXcQ".to_string())
    );
}

#[test]
fn extractor_is_found_for_youtube_urls_only() {
    assert!(get_extractor("https://youtu.be/dQw4w9WgXcQ").is_some());
    assert!(get_extractor("https://example.com/video").is_none());
    assert_eq!(YoutubeExtractor::new().name(), "youtube");
}

#[test]
fn json_object_after_a_key() {
    let html = r#"<script>var ytInitialPlayerResponse = {"a":{"b":"}{"},"c":"\"{"};var x = 1;</script>"#;
    assert_eq!(
        extract_json_object(html, "ytInitialPlayerResponse"),
        Some(r#"{"a":{"b":"}{"},"c":"\"{"}"#.to_string())
    );
    assert_eq!(extract_json_object(html, "missingKey"), None);
    let far = format!("key{}{{\"a\":1}}", " ".repeat(61));
    assert_eq!(extract_json_object(&far, "key"), None);
    let near = format!("key{}{{\"a\":1}}", " ".repeat(57));
    assert_eq!(extract_json_object(&near, "key"), Some("{\"a\":1}".to_string()));
    assert_eq!(extract_json_object("key = {\"a\": {", "key"), None);
}

#[test]
fn cipher_url_is_decoded() {
    assert_eq!(
        parse_cipher_url("s=abc&sp=sig&url=https%3A%2F%2Fexample.com%2Fv%3Fa%3D1"),
        Some("https://example.com/v?a=1".to_string())
    );
    assert_eq!(parse_cipher_url("s=abc&sp=sig"), None);
    assert_eq!(
        parse_cipher_url("url=first&url=second"),
        Some("second".to_string())
    );
}

#[test]
fn upload_dates() {
    assert_eq!(parse_upload_date("2023-04-15T10:00:00-07:00"), Some("20230415".to_string()));
    assert_eq!(parse_upload_date("20230415"), Some("20230415".to_string()));
    assert_eq!(parse_upload_date("2023"), None);
    assert_eq!(parse_upload_date("2023041512"), None);
}

#[test]
fn watch_page_scraping() {
    let html = r#"..."defaultText":{"accessibility":{"accessibilityData":{"label":"1,234,567 likes"}}..."category":"Music","channelUrl":"https://www.youtube.com/channel/UC123"..."#;
    assert_eq!(extract_like_count(html), Some(1_234_567));
    assert_eq!(extract_categories(html), vec!["Music".to_string()]);
    assert_eq!(
        extract_channel_url(html),
        Some("https://www.youtube.com/channel/UC123".to_string())
    );
    let w = webpage_info_from_html(html);
    assert_eq!(w.like_count, Some(1_234_567));
    assert_eq!(w.channel_url.as_deref(), Some("https://www.youtube.com/channel/UC123"));
    let empty = webpage_info_from_html("<html></html>");
    assert_eq!(empty.like_count, None);
    assert!(empty.categories.is_empty());
    assert_eq!(empty.channel_url, None);
}

#[test]
fn like_labels_and_cipher_pairs() {
    assert_eq!(like_count_from_label("1,234,567"), Some(1_234_567));
    assert_eq!(like_count_from_label("12"), Some(12));
    assert_eq!(like_count_from_label(","), None);
    let pairs = vec![
        ("url".to_string(), "https://a".to_string()),
        ("s".to_string(), "sig".to_string()),
        ("url".to_string(), "https://b".to_string()),
        ("sp".to_string(), "sig".to_string()),
    ];
    assert_eq!(last_url_param(&pairs).as_deref(), Some("https://b"));
    assert_eq!(last_url_param(&vec![("s".to_string(), "x".to_string())]), None);
}

#[test]
fn sanitized_names_can_be_sanitized_again() {
    let long = "é".repeat(150);
    let once = sanitize_filename(&long, false);
    assert!(!sanitize_would_split(&once, false));
    assert_eq!(sanitize_filename(&once, false), once);
}
