use yt_dlp::output::{
    build_output_path, expand_template, format_duration, sanitize_filename, sanitize_would_split,
    try_build_output_path,
};
use yt_dlp::types::VideoInfo;

fn info(id: &str, title: &str, uploader: &str) -> VideoInfo {
    VideoInfo {
        id: id.to_string(),
        title: title.to_string(),
        webpage_url: format!("https://youtube.com/watch?v={}", id),
        extractor: "youtube".to_string(),
        uploader: Some(uploader.to_string()),
        upload_date: Some("20231115".to_string()),
        view_count: Some(1_234_567),
        duration: Some(213),
        ..VideoInfo::default()
    }
}

// ─── expand_template ─────────────────────────────────────────────────

#[test]
fn default_template() {
    let i = info("ABC123", "My Video", "Author");
    let result = expand_template("%(title)s [%(id)s].%(ext)s", &i, "mp4");
    assert_eq!(result, "My Video [ABC123].mp4");
}

#[test]
fn all_basic_fields() {
    let i = info("XYZ", "Title", "Chan");
    assert_eq!(expand_template("%(id)s", &i, ""), "XYZ");
    assert_eq!(expand_template("%(title)s", &i, ""), "Title");
    assert_eq!(expand_template("%(uploader)s", &i, ""), "Chan");
    assert_eq!(expand_template("%(ext)s", &i, "webm"), "webm");
    assert_eq!(expand_template("%(upload_date)s", &i, ""), "20231115");
}

#[test]
fn view_count_field() {
    let i = info("A", "T", "U");
    assert_eq!(expand_template("%(view_count)s", &i, ""), "1234567");
}

#[test]
fn duration_field() {
    let i = info("A", "T", "U");
    // 213s = 03:33
    assert_eq!(expand_template("%(duration)s", &i, ""), "03:33");
}

#[test]
fn missing_optional_field_is_empty() {
    let mut i = info("A", "T", "U");
    i.uploader = None;
    assert_eq!(expand_template("%(uploader)s", &i, ""), "");
}

#[test]
fn unknown_placeholder_is_left_as_is() {
    let i = info("A", "T", "U");
    let result = expand_template("%(nonexistent)s", &i, "");
    assert_eq!(result, "%(nonexistent)s");
}

#[test]
fn multiple_fields_in_one_template() {
    let i = info("VID", "Great Video", "Creator");
    let result = expand_template("%(uploader)s - %(title)s.%(ext)s", &i, "mp4");
    assert_eq!(result, "Creator - Great Video.mp4");
}

// ─── sanitize_filename ───────────────────────────────────────────────

#[test]
fn forward_slash_replaced() {
    assert_eq!(sanitize_filename("a/b", false), "a_b");
}

#[test]
fn backslash_replaced() {
    assert_eq!(sanitize_filename("a\\b", false), "a_b");
}

#[test]
fn windows_invalid_chars_replaced() {
    assert_eq!(sanitize_filename("file:name", false), "file_name");
    assert_eq!(sanitize_filename("a*b", false), "a_b");
    assert_eq!(sanitize_filename("a?b", false), "a_b");
    assert_eq!(sanitize_filename("a<b>c", false), "a_b_c");
    assert_eq!(sanitize_filename("a|b", false), "a_b");
}

#[test]
fn restrict_mode_removes_non_ascii() {
    // In restrict mode, non-ASCII chars become underscores
    let result = sanitize_filename("café", true);
    assert!(!result.contains('é'), "non-ASCII should be removed in restrict mode");
}

#[test]
fn restrict_mode_allows_safe_ascii() {
    let result = sanitize_filename("hello-world_v2 (HD)", true);
    assert_eq!(result, "hello-world_v2 (HD)");
}

#[test]
fn long_filename_truncated() {
    let long = "a".repeat(300);
    let result = sanitize_filename(&long, false);
    assert!(result.len() <= 200);
}

#[test]
fn leading_trailing_dots_trimmed() {
    assert_eq!(sanitize_filename("..file..", false), "file");
}

#[test]
fn empty_becomes_video() {
    assert_eq!(sanitize_filename("", false), "video");
}

#[test]
fn double_underscores_collapsed() {
    assert_eq!(sanitize_filename("a//b", false), "a_b");
}

// ─── build_output_path ───────────────────────────────────────────────

#[test]
fn builds_path_from_template() {
    let i = info("XYZ", "My Video", "U");
    let path = build_output_path("%(title)s [%(id)s].%(ext)s", &i, "mp4", false);
    assert_eq!(path, "My Video [XYZ].mp4");
}

#[test]
fn builds_path_with_directory() {
    let i = info("X", "T", "U");
    let path = build_output_path("downloads/%(title)s.%(ext)s", &i, "mkv", false);
    assert_eq!(path, "downloads/T.mkv");
}

#[test]
fn sanitization_applied() {
    let i = info("X", "Video: Part 1", "U");
    let path = build_output_path("%(title)s.%(ext)s", &i, "mp4", false);
    assert!(!path.contains(':'));
}

// ─── more cases ─────────────────────────────────────────────────────

#[test]
fn sanitized_result_is_safe_for_concrete_names() {
    for (name, restrict) in [
        ("a__b", false),
        ("  ..x.. ", false),
        ("___", false),
        ("日本語のタイトル/テスト", true),
        ("a:b*c?d\"e<f>g|h\0i", false),
    ] {
        let s = sanitize_filename(name, restrict);
        assert!(!s.is_empty());
        assert!(s.len() <= 200);
        assert!(!s.contains("__"));
        assert!(!s.contains('/') && !s.contains('\\'));
    }
    assert_eq!(sanitize_filename("a__b", false), "a_b");
    assert_eq!(sanitize_filename("___", false), "_");
    assert_eq!(sanitize_filename(" . ", false), "video");
}

#[test]
fn long_name_is_cut_at_an_alphanumeric_character() {
    let long = format!("{}{}", "a".repeat(199), "--bbb");
    assert_eq!(sanitize_filename(&long, false), "a".repeat(199));
    let exact = "b".repeat(200);
    assert_eq!(sanitize_filename(&exact, false), exact);
}

#[test]
fn cut_through_a_character_is_detected() {
    // 199 ASCII letters and then a two-byte letter: byte 200 falls inside it.
    let name = format!("{}é", "a".repeat(199));
    assert!(sanitize_would_split(&name, false));
    assert!(!sanitize_would_split("short", false));
    let i = info("X", &name, "U");
    assert_eq!(try_build_output_path("%(title)s", &i, "mp4", false), None);
    assert_eq!(
        try_build_output_path("%(id)s.%(ext)s", &i, "mp4", false),
        Some("X.mp4".to_string())
    );
}

#[test]
fn restricted_names_keep_only_safe_ascii() {
    assert_eq!(sanitize_filename("café au lait!", true), "caf_ au lait_");
}

#[test]
fn template_with_playlist_index_and_like_count() {
    let mut i = info("A", "T", "U");
    i.playlist_index = Some(7);
    i.like_count = Some(42);
    assert_eq!(expand_template("%(playlist_index)s-%(like_count)s", &i, ""), "007-42");
    assert_eq!(
        expand_template("%(webpage_url)s %(extractor)s", &i, ""),
        "https://youtube.com/watch?v=A youtube"
    );
}

#[test]
fn durations_of_an_hour_or_more() {
    assert_eq!(format_duration(3725), "01:02:05");
    assert_eq!(format_duration(59), "00:59");
}

#[test]
fn directory_part_is_not_sanitized() {
    let i = info("X", "a:b", "U");
    let path = build_output_path("out:dir/%(title)s.%(ext)s", &i, "mp4", false);
    assert_eq!(path, "out:dir/a_b.mp4");
}

#[test]
fn text_without_placeholders_is_kept() {
    let i = info("A", "T", "U");
    assert_eq!(expand_template("just a name (final).mp4", &i, "webm"), "just a name (final).mp4");
    assert_eq!(expand_template("", &i, "webm"), "");
}

#[test]
fn sanitizing_twice_changes_nothing() {
    for (name, restrict) in [
        ("a//b", false),
        ("..file..", false),
        ("café au lait!", true),
        ("x: y * z", false),
        ("", false),
    ] {
        let once = sanitize_filename(name, restrict);
        assert_eq!(sanitize_filename(&once, restrict), once);
    }
    let long = format!("{}..  ", "ab".repeat(150));
    let once = sanitize_filename(&long, false);
    assert_eq!(sanitize_filename(&once, false), once);
}
