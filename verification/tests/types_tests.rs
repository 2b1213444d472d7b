use yt_dlp::types::{DownloadOptions, Format, Subtitle, Thumbnail, VideoInfo};

fn video_only() -> Format {
    Format {
        format_id: "137".to_string(),
        ext: "mp4".to_string(),
        vcodec: Some("avc1".to_string()),
        acodec: Some("none".to_string()),
        height: Some(1080),
        width: Some(1920),
        fps: Some(30),
        vbr: Some(3_000_000),
        tbr: Some(3_000_000),
        ..Format::default()
    }
}

fn audio_only() -> Format {
    Format {
        format_id: "140".to_string(),
        ext: "m4a".to_string(),
        vcodec: Some("none".to_string()),
        acodec: Some("mp4a".to_string()),
        abr: Some(128_000),
        tbr: Some(128_000),
        asr: Some(44100),
        ..Format::default()
    }
}

fn combined() -> Format {
    Format {
        format_id: "18".to_string(),
        ext: "mp4".to_string(),
        vcodec: Some("avc1".to_string()),
        acodec: Some("mp4a".to_string()),
        height: Some(360),
        width: Some(640),
        abr: Some(96_000),
        vbr: Some(350_000),
        tbr: Some(446_000),
        ..Format::default()
    }
}

#[test]
fn is_video_only() {
    assert!(video_only().is_video_only());
    assert!(!audio_only().is_video_only());
    assert!(!combined().is_video_only());
}

#[test]
fn is_audio_only() {
    assert!(!video_only().is_audio_only());
    assert!(audio_only().is_audio_only());
    assert!(!combined().is_audio_only());
}

#[test]
fn is_combined() {
    assert!(!video_only().is_combined());
    assert!(!audio_only().is_combined());
    assert!(combined().is_combined());
}

#[test]
fn video_score_higher_for_higher_res() {
    let v_1080 = video_only(); // 1080p
    let v_360 = combined(); // 360p
    assert!(v_1080.video_score() > v_360.video_score());
}

#[test]
fn audio_score_higher_for_higher_bitrate() {
    let high = Format {
        abr: Some(256_000),
        acodec: Some("opus".to_string()),
        vcodec: Some("none".to_string()),
        ..Format::default()
    };
    let low = Format {
        abr: Some(48_000),
        acodec: Some("opus".to_string()),
        vcodec: Some("none".to_string()),
        ..Format::default()
    };
    assert!(high.audio_score() > low.audio_score());
}

#[test]
fn resolution_string() {
    assert_eq!(video_only().resolution(), "1920x1080");
    assert_eq!(audio_only().resolution(), "unknown");
    assert_eq!(combined().resolution(), "640x360");
}

#[test]
fn approx_filesize_prefers_exact() {
    let f = Format {
        filesize: Some(1000),
        filesize_approx: Some(2000),
        ..Format::default()
    };
    assert_eq!(f.approx_filesize(), Some(1000));
}

#[test]
fn approx_filesize_falls_back_to_approx() {
    let f = Format {
        filesize: None,
        filesize_approx: Some(2000),
        ..Format::default()
    };
    assert_eq!(f.approx_filesize(), Some(2000));
}

#[test]
fn approx_filesize_none_when_both_missing() {
    assert_eq!(Format::default().approx_filesize(), None);
}

// ─── more cases ─────────────────────────────────────────────────────

#[test]
fn scores_have_exact_values() {
    // 1080 lines, 30 fps, 3 Mbit/s: (10 * 1080 + 30 / 30 + 3 / 10) * 30 000 000.
    assert_eq!(video_only().video_score(), 300_000_000 * 1080 + 1_000_000 * 30 + 3 * 3_000_000);
    // 128 kbit/s at 44.1 kHz: (128 + 4.41) * 30 000 000.
    assert_eq!(audio_only().audio_score(), 30_000 * 128_000 + 3_000 * 44_100);
    assert_eq!(
        combined().total_score(),
        combined().video_score() + combined().audio_score()
    );
    // An unknown frame rate counts as 30.
    assert_eq!(combined().video_score(), 300_000_000 * 360 + 1_000_000 * 30 + 3 * 350_000);
}

#[test]
fn height_without_width_is_written_with_p() {
    let f = Format { height: Some(720), ..Format::default() };
    assert_eq!(f.resolution(), "720p");
}

#[test]
fn best_thumbnail_prefers_the_main_one() {
    let thumbs = vec![
        Thumbnail { url: "a".to_string(), width: None, height: None, id: None, preference: None },
        Thumbnail { url: "b".to_string(), width: None, height: None, id: None, preference: None },
    ];
    let mut i = VideoInfo { thumbnails: thumbs, ..VideoInfo::default() };
    assert_eq!(i.best_thumbnail(), Some("b"));
    i.thumbnail = Some("main".to_string());
    assert_eq!(i.best_thumbnail(), Some("main"));
    assert_eq!(VideoInfo::default().best_thumbnail(), None);
}

#[test]
fn default_options() {
    let o = DownloadOptions::default();
    assert_eq!(o.format, "bestvideo+bestaudio/best");
    assert_eq!(o.output_template, "%(title)s [%(id)s].%(ext)s");
    assert_eq!(o.audio_format, "m4a");
    assert_eq!(o.retries, 10);
    assert_eq!(o.concurrent_fragments, 4);
    assert_eq!(o.merge_output_format, "mkv");
    assert_eq!(o.sub_langs, vec!["en".to_string()]);
    assert!(o.rate_limit.is_none() && o.proxy.is_none() && o.cookies_file.is_none());
}

#[test]
fn subtitle_fields() {
    let s = Subtitle { url: "u".to_string(), ext: "vtt".to_string(), name: None };
    assert_eq!(s.ext, "vtt");
}
