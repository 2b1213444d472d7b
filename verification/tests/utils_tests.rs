use yt_dlp::number::text_as_u64;
use yt_dlp::text::IntErrorKind;
use yt_dlp::utils::{
    codec_shortname, format_bytes, format_clock, mime_to_ext, parse_mime_codecs, parse_rate_limit,
    rate_limit_overflows,
};

#[test]
fn test_parse_rate_limit() {
    assert_eq!(parse_rate_limit("500K").unwrap(), 512000);
    assert_eq!(parse_rate_limit("1M").unwrap(), 1048576);
    assert_eq!(parse_rate_limit("100").unwrap(), 100);
}

#[test]
fn test_format_bytes() {
    assert_eq!(format_bytes(1024), "1.00 KiB");
    assert_eq!(format_bytes(1048576), "1.00 MiB");
    assert_eq!(format_bytes(500), "500 B");
}

#[test]
fn test_parse_mime_codecs() {
    let (v, a) = parse_mime_codecs("video/mp4; codecs=\"avc1.64002A, mp4a.40.2\"");
    assert_eq!(v.as_deref(), Some("avc1"));
    assert_eq!(a.as_deref(), Some("mp4a"));

    let (v, a) = parse_mime_codecs("audio/mp4; codecs=\"mp4a.40.2\"");
    assert_eq!(v.as_deref(), Some("none"));
    assert_eq!(a.as_deref(), Some("mp4a"));
}

#[test]
fn test_parse_rate_limit_gigabyte() {
    assert_eq!(parse_rate_limit("1G").unwrap(), 1_073_741_824);
}

#[test]
fn test_parse_rate_limit_invalid() {
    assert!(parse_rate_limit("abc").is_err());
}

#[test]
fn test_format_bytes_zero() {
    assert_eq!(format_bytes(0), "0 B");
}

#[test]
fn test_format_bytes_gib() {
    assert_eq!(format_bytes(1_073_741_824), "1.00 GiB");
}

#[test]
fn test_mime_to_ext_video_mp4() {
    assert_eq!(mime_to_ext("video/mp4"), "mp4");
    assert_eq!(mime_to_ext("video/webm"), "webm");
    assert_eq!(mime_to_ext("audio/mp4"), "mp4");
}

#[test]
fn test_mime_to_ext_with_codecs() {
    assert_eq!(mime_to_ext("video/mp4; codecs=\"avc1\""), "mp4");
}

#[test]
fn test_parse_mime_codecs_vp9_video_only() {
    let (v, a) = parse_mime_codecs("video/webm; codecs=\"vp9\"");
    assert_eq!(v.as_deref(), Some("vp9"));
    assert_eq!(a.as_deref(), Some("none"));
}

#[test]
fn test_parse_mime_codecs_opus_audio() {
    let (v, a) = parse_mime_codecs("audio/webm; codecs=\"opus\"");
    assert_eq!(v.as_deref(), Some("none"));
    assert_eq!(a.as_deref(), Some("opus"));
}

#[test]
fn test_parse_mime_codecs_av1() {
    let (v, a) = parse_mime_codecs("video/mp4; codecs=\"av01.0.05M.08\"");
    assert_eq!(v.as_deref(), Some("av01"));
    assert_eq!(a.as_deref(), Some("none"));
}

#[test]
fn test_codec_shortname() {
    assert_eq!(codec_shortname("avc1.42001E"), "avc1");
    assert_eq!(codec_shortname("mp4a.40.2"), "mp4a");
    assert_eq!(codec_shortname("vp09.00.50.08"), "vp9");
    assert_eq!(codec_shortname("av01.0.00M.08"), "av01");
    assert_eq!(codec_shortname("opus"), "opus");
}

// ───────── more cases ─────────

/// The byte count written as the command line always wrote it: through an
/// `f64`, divided by 1024 while at least 1024 (at most four times), and
/// printed with two decimals.
fn format_bytes_by_float(bytes: u64) -> String {
    let units = ["B", "KiB", "MiB", "GiB", "TiB"];
    let mut size = bytes as f64;
    let mut unit = 0;
    while size >= 1024.0 && unit < units.len() - 1 {
        size /= 1024.0;
        unit += 1;
    }
    if unit == 0 {
        format!("{} B", bytes)
    } else {
        format!("{:.2} {}", size, units[unit])
    }
}

#[test]
fn format_bytes_matches_float_formatting() {
    let samples: [u64; 24] = [
        0,
        1,
        1023,
        1024,
        1025,
        1152,
        1126,
        1136,
        1537,
        10_240,
        123_456,
        1_048_575,
        1_048_576,
        5_767_168,
        987_654_321,
        1_073_741_823,
        1_099_511_627_776,
        1_125_899_906_842_624,
        9_007_199_254_740_993,
        123_456_789_012_345_678,
        18_446_744_073_709_551_615,
        3_000_000,
        2_621_440,
        1_288,
    ];
    for b in samples {
        assert_eq!(format_bytes(b), format_bytes_by_float(b), "bytes = {}", b);
    }
}

#[test]
fn format_bytes_half_hundredth_rounds_to_even() {
    // 1152 bytes are exactly 1.125 KiB.
    assert_eq!(format_bytes(1152), format!("{:.2} KiB", 1.125f64));
}

#[test]
fn format_bytes_tib() {
    assert_eq!(format_bytes(1_099_511_627_776), "1.00 TiB");
    assert_eq!(format_bytes(2_199_023_255_552 * 1024), "2048.00 TiB");
}

#[test]
fn parse_rate_limit_lowercase_and_spaces() {
    assert_eq!(parse_rate_limit("  2m ").unwrap(), 2 * 1048576);
    assert_eq!(parse_rate_limit("3 k").unwrap(), 3 * 1024);
    assert_eq!(parse_rate_limit("+7").unwrap(), 7);
}

#[test]
fn parse_rate_limit_errors() {
    assert_eq!(parse_rate_limit(""), Err(IntErrorKind::Empty));
    assert_eq!(parse_rate_limit("K"), Err(IntErrorKind::Empty));
    assert_eq!(parse_rate_limit("12x"), Err(IntErrorKind::InvalidDigit));
    assert_eq!(parse_rate_limit("-5"), Err(IntErrorKind::InvalidDigit));
    assert_eq!(
        parse_rate_limit("99999999999999999999"),
        Err(IntErrorKind::PosOverflow)
    );
}

#[test]
fn rate_limit_overflow_is_detected() {
    assert!(rate_limit_overflows("18446744073709551615K"));
    assert!(!rate_limit_overflows("18014398509481983K"));
    assert!(rate_limit_overflows("18014398509481984K"));
    assert!(!rate_limit_overflows("abc"));
    assert_eq!(
        parse_rate_limit("18014398509481983K").unwrap(),
        18014398509481983u64 * 1024
    );
}

#[test]
fn int_error_messages() {
    assert_eq!(IntErrorKind::Empty.message(), "cannot parse integer from empty string");
    assert_eq!(IntErrorKind::InvalidDigit.message(), "invalid digit found in string");
    assert_eq!(
        IntErrorKind::PosOverflow.message(),
        "number too large to fit in target type"
    );
    assert_eq!(
        IntErrorKind::InvalidDigit.message(),
        "x".parse::<u64>().unwrap_err().to_string()
    );
}

#[test]
fn mime_to_ext_table() {
    assert_eq!(mime_to_ext("video/x-flv"), "flv");
    assert_eq!(mime_to_ext("video/3gpp"), "3gp");
    assert_eq!(mime_to_ext("audio/mpeg"), "mp3");
    assert_eq!(mime_to_ext("audio/ogg"), "ogg");
    assert_eq!(mime_to_ext("application/x-mpegURL"), "m3u8");
    assert_eq!(mime_to_ext("application/vnd.apple.mpegURL"), "m3u8");
    assert_eq!(mime_to_ext("application/dash+xml"), "mpd");
    assert_eq!(mime_to_ext("video/x-webm-thing"), "webm");
    assert_eq!(mime_to_ext("video/quicktime"), "mp4");
    assert_eq!(mime_to_ext("garbage"), "mp4");
}

#[test]
fn codec_names_are_lowercased_through_unicode_lowercasing() {
    // `MP4A` is an audio codec once lower-cased, and its short name is its
    // lower-cased first part.
    let (v, a) = parse_mime_codecs("video/mp4; codecs=\"MP4A.40.2\"");
    assert_eq!(v.as_deref(), Some("none"));
    assert_eq!(a.as_deref(), Some("mp4a"));
    assert_eq!(codec_shortname("HEV1.1.6"), "hev1");
    assert_eq!(codec_shortname("hev1.1.6"), "h265");
}

#[test]
fn mime_without_codecs() {
    assert_eq!(parse_mime_codecs("video/mp4"), (None, None));
}

#[test]
fn clock_times() {
    assert_eq!(format_clock(213), "03:33");
    assert_eq!(format_clock(0), "00:00");
    assert_eq!(format_clock(3600), "01:00:00");
    assert_eq!(format_clock(36_061), "10:01:01");
}

#[test]
fn number_texts_convert_like_as_u64() {
    assert_eq!(text_as_u64("213"), Some(213));
    assert_eq!(text_as_u64("213.5"), Some(213));
    assert_eq!(text_as_u64("2.135e2"), Some(213));
    assert_eq!(text_as_u64("-5"), Some(0));
    assert_eq!(text_as_u64("-0.5"), Some(0));
    assert_eq!(text_as_u64("1e-400"), Some(0));
    assert_eq!(text_as_u64("1e400"), Some(u64::MAX));
    assert_eq!(text_as_u64("18446744073709551616"), Some(u64::MAX));
    assert_eq!(text_as_u64("inf"), Some(u64::MAX));
    assert_eq!(text_as_u64("-INF"), Some(0));
    assert_eq!(text_as_u64("NaN"), Some(0));
    assert_eq!(text_as_u64("000123.999"), Some(123));
    assert_eq!(text_as_u64("5."), Some(5));
    assert_eq!(text_as_u64(".5"), Some(0));
    assert_eq!(text_as_u64(""), None);
    assert_eq!(text_as_u64("+"), None);
    assert_eq!(text_as_u64(" 1"), None);
    assert_eq!(text_as_u64("1e"), None);
    assert_eq!(text_as_u64("abc"), None);
    assert_eq!(text_as_u64("infinit"), None);
}
