use yt_dlp::cli::{
    merge_part_paths, audio_stream_line, duration_line, video_stream_line, format_number, format_row, group_order, listing_order, merge_part_names, merge_size,
    plan_download, simulate_line, split_list, subtitle_jobs, Args, ListGroup, PlanError,
};
use yt_dlp::cookies::netscape_cookies;
use yt_dlp::download::{
    download_kind, plan_transfer, refused_message, resume_range, retry_after, throttle,
    DownloadKind, TransferPlan, HTTP_BACKOFF_CAP, SEGMENT_BACKOFF_CAP,
};
use yt_dlp::hls::{
    base_url_of, media_url_for, media_url_would_panic, read_media_playlist, read_playlist,
    resolve_url, resolve_would_panic, segment_batches, segment_urls, segments_would_panic,
    select_stream_url, HlsError,
};
use yt_dlp::external::{Playlist, Variant};
use yt_dlp::innertube::{
    request_body, innertube_clients, search_step, start_search, watch_url, PlayerSearch, SearchEvent,
    SearchStep,
};
use yt_dlp::player::{
    apply_webpage_info, parse_formats, player_verdict, stream_format, video_info_from_player,
    CaptionTrack, Captions, CaptionsTracklistRenderer, ExtractError, Microformat,
    PlayabilityStatus, PlayerMicroformatRenderer, PlayerResponse, StreamingData,
    StreamingFormat, ThumbnailItem, ThumbnailList, VideoDetails,
};
use yt_dlp::postprocess::{
    extension_would_panic, convert_hls_args, extract_audio_args, ffmpeg_failure, merge_args, part_path, remux_args,
    FfmpegStep,
};
use yt_dlp::selector::{parse_selector, SelectedFormats};
use yt_dlp::text::IntErrorKind;
use yt_dlp::types::{DownloadOptions, Format, Subtitle, VideoInfo};
use yt_dlp::youtube::WebpageInfo;

// ───────── HLS ─────────

#[test]
fn base_urls() {
    assert_eq!(base_url_of("https://a.com/x/y/index.m3u8"), "https://a.com/x/y/");
    assert_eq!(base_url_of("no-slash"), "no-slash");
}

#[test]
fn resolving_uris() {
    let base = "https://cdn.example.com/path/to/";
    assert_eq!(resolve_url(base, "seg1.ts"), "https://cdn.example.com/path/to/seg1.ts");
    assert_eq!(resolve_url(base, "/abs/seg.ts"), "https://cdn.example.com/abs/seg.ts");
    assert_eq!(resolve_url(base, "http://other/seg.ts"), "http://other/seg.ts");
    assert_eq!(resolve_url("https://host", "/x"), "https://host/x");
    assert_eq!(resolve_url("https://host///", "/x"), "https://host/x");
    assert!(resolve_would_panic("http://", "/x"));
    assert!(!resolve_would_panic("http://", "x"));
    assert!(resolve_would_panic("https://é", "/x") == false);
    assert!(resolve_would_panic("1234567é", "/x"));
}

#[test]
fn master_playlists() {
    let text = "#EXTM3U\n#EXT-X-STREAM-INF:BANDWIDTH=1000\nlow/index.m3u8\n#EXT-X-STREAM-INF:BANDWIDTH=5000\nhigh/index.m3u8\n#EXT-X-STREAM-INF:BANDWIDTH=5000\nhigh2/index.m3u8\n";
    let p = read_playlist(text.as_bytes()).unwrap();
    match &p {
        Playlist::Master(vs) => {
            assert_eq!(vs.len(), 3);
            assert_eq!(vs[1].bandwidth, 5000);
            assert_eq!(vs[0].uri, "low/index.m3u8");
        }
        Playlist::Media(_) => panic!("expected a master playlist"),
    }
    let url = "https://h.com/v/master.m3u8";
    assert!(!media_url_would_panic(url, &p));
    // Of two streams of equal bandwidth, the last is taken.
    assert_eq!(media_url_for(url, &p).unwrap(), "https://h.com/v/high2/index.m3u8");
    let empty: Vec<Variant> = Vec::new();
    assert!(matches!(select_stream_url(url, &empty), Err(HlsError::NoStreams)));
    assert!(matches!(segment_urls(url, &p), Err(HlsError::ExpectedMedia)));
}

#[test]
fn media_playlists() {
    let text = "#EXTM3U\n#EXT-X-TARGETDURATION:10\n#EXTINF:10.0,\nseg0.ts\n#EXTINF:10.0,\n/root/seg1.ts\n#EXTINF:10.0,\nhttps://o.com/seg2.ts\n#EXT-X-ENDLIST\n";
    let p = read_media_playlist(text.as_bytes()).unwrap();
    let url = "https://h.com/v/media.m3u8";
    assert_eq!(media_url_for(url, &p).unwrap(), url);
    assert!(!segments_would_panic(url, &p));
    assert_eq!(
        segment_urls(url, &p).unwrap(),
        vec![
            "https://h.com/v/seg0.ts".to_string(),
            "https://h.com/root/seg1.ts".to_string(),
            "https://o.com/seg2.ts".to_string(),
        ]
    );
    let bad = Playlist::Media(vec!["/x.ts".to_string()]);
    assert!(segments_would_panic("a/b", &bad));
}

#[test]
fn unreadable_playlists() {
    match read_playlist(b"not a playlist") {
        Err(e) => assert!(e.message().starts_with("Failed to parse HLS playlist: ")),
        Ok(_) => panic!("expected an error"),
    }
    match read_media_playlist(b"not a playlist") {
        Err(e) => assert!(e.message().starts_with("Failed to parse media playlist: ")),
        Ok(_) => panic!("expected an error"),
    }
    assert_eq!(HlsError::NoStreams.message(), "No streams in HLS master playlist");
    assert_eq!(HlsError::ExpectedMedia.message(), "Expected media playlist, got master");
}

#[test]
fn batches() {
    assert_eq!(segment_batches(10, 4), vec![(0, 4), (4, 8), (8, 10)]);
    assert_eq!(segment_batches(8, 4), vec![(0, 4), (4, 8)]);
    assert_eq!(segment_batches(0, 4), Vec::<(usize, usize)>::new());
    assert_eq!(segment_batches(3, 1), vec![(0, 1), (1, 2), (2, 3)]);
}

// ───────── downloads ─────────

#[test]
fn download_kinds() {
    assert_eq!(download_kind("hls"), DownloadKind::Hls);
    assert_eq!(download_kind("m3u8"), DownloadKind::Hls);
    assert_eq!(download_kind("m3u8_native"), DownloadKind::Hls);
    assert_eq!(download_kind("https"), DownloadKind::Http);
    assert_eq!(download_kind("HLS"), DownloadKind::Http);
}

#[test]
fn retries_back_off_and_stop() {
    assert_eq!(retry_after(0, 3, HTTP_BACKOFF_CAP), Some((1, 2)));
    assert_eq!(retry_after(1, 3, HTTP_BACKOFF_CAP), Some((2, 4)));
    assert_eq!(retry_after(2, 3, HTTP_BACKOFF_CAP), Some((3, 8)));
    assert_eq!(retry_after(3, 3, HTTP_BACKOFF_CAP), None);
    assert_eq!(retry_after(9, 10, HTTP_BACKOFF_CAP), Some((10, 64)));
    assert_eq!(retry_after(9, 10, SEGMENT_BACKOFF_CAP), Some((10, 32)));
    assert_eq!(retry_after(0, 0, SEGMENT_BACKOFF_CAP), None);
}

#[test]
fn resuming() {
    assert_eq!(resume_range(0), None);
    assert_eq!(resume_range(1234), Some("bytes=1234-".to_string()));
    assert_eq!(
        plan_transfer(206, 100, Some(50)),
        Ok(TransferPlan { append: true, total: 150, bar_length: 150 })
    );
    assert_eq!(
        plan_transfer(200, 100, Some(50)),
        Ok(TransferPlan { append: false, total: 150, bar_length: 150 })
    );
    assert_eq!(
        plan_transfer(200, 0, None),
        Ok(TransferPlan { append: false, total: 0, bar_length: u64::MAX })
    );
    assert_eq!(plan_transfer(404, 0, Some(1)), Err(404));
    assert_eq!(plan_transfer(301, 0, Some(1)), Err(301));
    assert_eq!(refused_message(403, "https://x/y"), "HTTP 403 for https://x/y");
}

#[test]
fn throttling() {
    // Within the first tenth of a second nothing is decided.
    assert_eq!(throttle(1_000_000, 1000, 100_000_000), None);
    // 2000 bytes in 0.2 s at 1000 B/s: pause until 2 s have passed.
    assert_eq!(throttle(2000, 1000, 200_000_000), Some(1800));
    // Slow enough: no pause.
    assert_eq!(throttle(100, 1000, 200_000_000), Some(0));
    // A zero limit pauses for ever once anything arrived.
    assert_eq!(throttle(1, 0, 200_000_000), Some(u64::MAX));
    assert_eq!(throttle(0, 0, 200_000_000), Some(0));
}

// ───────── command line ─────────

fn args() -> Args {
    Args {
        urls: vec!["u".to_string()],
        format: "best".to_string(),
        output: "%(id)s.%(ext)s".to_string(),
        list_formats: false,
        extract_audio: true,
        audio_format: "mp3".to_string(),
        skip_download: false,
        dump_json: false,
        quiet: true,
        no_progress: false,
        rate_limit: Some("2M".to_string()),
        retries: 3,
        concurrent_fragments: 8,
        merge_output_format: "mp4".to_string(),
        keep_video: false,
        write_subs: true,
        write_auto_subs: false,
        sub_langs: " en, de ,fr".to_string(),
        restrict_filenames: true,
        proxy: None,
        cookies: Some("c.txt".to_string()),
        print_field: None,
        simulate: true,
    }
}

#[test]
fn options_from_arguments() {
    let o = args().to_options().unwrap();
    assert_eq!(o.format, "best");
    assert_eq!(o.rate_limit, Some(2 * 1048576));
    assert!(o.skip_download);
    assert_eq!(o.sub_langs, vec!["en".to_string(), "de".to_string(), "fr".to_string()]);
    assert_eq!(o.cookies_file.as_deref(), Some("c.txt"));
    assert_eq!(o.retries, 3);
    assert_eq!(o.concurrent_fragments, 8);
    let mut bad = args();
    bad.rate_limit = Some("fast".to_string());
    assert!(matches!(bad.to_options(), Err(IntErrorKind::InvalidDigit)));
    assert_eq!(split_list("all"), vec!["all".to_string()]);
    assert_eq!(split_list("a,,b"), vec!["a".to_string(), "".to_string(), "b".to_string()]);
}

#[test]
fn numbers_with_commas() {
    assert_eq!(format_number(0), "0");
    assert_eq!(format_number(999), "999");
    assert_eq!(format_number(1000), "1,000");
    assert_eq!(format_number(1_234_567), "1,234,567");
    assert_eq!(format_number(u64::MAX), "18,446,744,073,709,551,615");
    for n in [5u64, 12_345, 100_000, 9_876_543_210] {
        assert_eq!(format_number(n).replace(',', ""), n.to_string());
    }
}

fn fmt(id: &str, ext: &str, vcodec: &str, acodec: &str, height: Option<u32>, abr: Option<u64>) -> Format {
    Format {
        format_id: id.to_string(),
        ext: ext.to_string(),
        vcodec: Some(vcodec.to_string()),
        acodec: Some(acodec.to_string()),
        height,
        abr,
        ..Format::default()
    }
}

fn sample() -> Vec<Format> {
    vec![
        fmt("137", "mp4", "avc1", "none", Some(1080), None),
        fmt("140", "m4a", "none", "mp4a", None, Some(128_000)),
        fmt("18", "mp4", "avc1", "mp4a", Some(360), Some(96_000)),
        fmt("136", "mp4", "avc1", "none", Some(720), None),
        fmt("251", "webm", "none", "opus", None, Some(130_000)),
    ]
}

#[test]
fn planning_a_download() {
    let fmts = sample();
    let sel = parse_selector("bestvideo+bestaudio/best").unwrap();
    let p = plan_download(&sel, &fmts, true, "mkv").unwrap();
    assert!(matches!(p.selected, SelectedFormats::Merge(v, a) if v.format_id == "137" && a.format_id == "251"));
    assert_eq!(p.ext, "mkv");
    assert!(!p.fell_back);
    let p = plan_download(&sel, &fmts, false, "mkv").unwrap();
    assert!(matches!(p.selected, SelectedFormats::Single(f) if f.format_id == "18"));
    assert_eq!(p.ext, "mp4");
    assert!(p.fell_back);
    let only_adaptive = vec![fmts[0].duplicate(), fmts[1].duplicate()];
    let sel = parse_selector("bv+ba").unwrap();
    let p = plan_download(&sel, &only_adaptive, false, "mkv").unwrap();
    assert!(matches!(p.selected, SelectedFormats::Single(f) if f.format_id == "137"));
    let sel = parse_selector("9999").unwrap();
    assert!(matches!(plan_download(&sel, &fmts, true, "mkv"), Err(PlanError::NoMatch(_))));
    let none: Vec<Format> = Vec::new();
    let sel = parse_selector("bv+ba").unwrap();
    assert!(matches!(plan_download(&sel, &none, false, "mkv"), Err(PlanError::NoMatch(_))));
}

#[test]
fn announcements() {
    let mut f = fmt("22", "mp4", "avc1", "mp4a", Some(720), None);
    f.width = Some(1280);
    f.filesize = Some(1024);
    assert_eq!(
        simulate_line(&SelectedFormats::Single(&f)),
        "      Would download: 22 (1280x720, 1.00 KiB)"
    );
    let g = fmt("140", "m4a", "none", "mp4a", None, None);
    assert_eq!(
        simulate_line(&SelectedFormats::Single(&g)),
        "      Would download: 140 (0x0, unknown size)"
    );
    assert_eq!(
        simulate_line(&SelectedFormats::Merge(&f, &g)),
        "      Would merge: 22 (video) + 140 (audio)"
    );
    assert_eq!(merge_size(&f, &g), None);
    let mut h = g.duplicate();
    h.filesize_approx = Some(10);
    assert_eq!(merge_size(&f, &h), Some(1034));
    let mut v = fmt("137", "mp4", "avc1", "none", Some(1080), None);
    v.fps = Some(30);
    assert_eq!(video_stream_line(&v), "  [video] 137 (1080p/30fps)");
    assert_eq!(video_stream_line(&Format::default()), "  [video]  ()");
    let mut a = fmt("140", "m4a", "none", "mp4a", None, Some(129_999));
    assert_eq!(audio_stream_line(&a), "  [audio] 140 (129 kbps)");
    a.abr = None;
    assert_eq!(audio_stream_line(&a), "  [audio] 140 (0 kbps)");
    assert_eq!(duration_line(213), "      Duration: 03:33");
    assert_eq!(duration_line(3725), "      Duration: 62:05");
    assert_eq!(
        merge_part_names("ID", "mp4", "webm"),
        ("ID.video.mp4".to_string(), "ID.audio.webm".to_string())
    );
}

fn sub(url: &str, ext: &str) -> Subtitle {
    Subtitle { url: url.to_string(), ext: ext.to_string(), name: None }
}

#[test]
fn subtitles_to_write() {
    let info = VideoInfo {
        subtitles: vec![
            ("en".to_string(), vec![sub("e1", "srv1"), sub("e2", "vtt")]),
            ("de".to_string(), vec![sub("d1", "ttml")]),
            ("fr".to_string(), vec![]),
        ],
        automatic_captions: vec![("en".to_string(), vec![sub("a1", "vtt")])],
        ..VideoInfo::default()
    };
    let mut o = DownloadOptions::default();
    o.write_subs = true;
    let jobs = subtitle_jobs(&info, &o);
    assert_eq!(jobs.len(), 1);
    assert_eq!((jobs[0].lang.as_str(), jobs[0].url.as_str(), jobs[0].file_ext.as_str()), ("en", "e2", "en.vtt"));
    o.sub_langs = vec!["all".to_string()];
    o.write_auto_subs = true;
    let jobs = subtitle_jobs(&info, &o);
    let got: Vec<(&str, &str)> = jobs.iter().map(|j| (j.url.as_str(), j.file_ext.as_str())).collect();
    assert_eq!(got, vec![("e2", "en.vtt"), ("d1", "de.ttml"), ("a1", "en.vtt")]);
    o.write_subs = false;
    o.write_auto_subs = false;
    assert!(subtitle_jobs(&info, &o).is_empty());
}

#[test]
fn listing_order_and_rows() {
    let fmts = sample();
    let (v, a, c) = listing_order(&fmts);
    assert_eq!(v, vec![0, 3]);
    assert_eq!(a, vec![4, 1]);
    assert_eq!(c, vec![2]);
    let ties = vec![
        fmt("x", "mp4", "avc1", "none", Some(720), None),
        fmt("y", "mp4", "avc1", "none", Some(1080), None),
        fmt("z", "mp4", "avc1", "none", Some(720), None),
    ];
    assert_eq!(group_order(&ties, ListGroup::VideoOnly), vec![1, 0, 2]);

    let mut f = fmt("22", "mp4", "avc1", "mp4a", Some(720), None);
    f.width = Some(1280);
    f.fps = Some(30);
    f.tbr = Some(1_500_500);
    f.filesize_approx = Some(2_097_152);
    f.format_note = Some("720p".to_string());
    let row = format_row(&f);
    assert_eq!(row.resolution, "1280x720");
    assert_eq!(row.fps, "30");
    assert_eq!(row.size, "2.00 MiB");
    assert_eq!(row.tbr, "1500k");
    assert_eq!(row.tbr, format!("{:.0}k", 1_500_500f64 / 1000.0));
    assert_eq!(row.note, "720p");
    assert!(!row.drm);
    let mut g = fmt("140", "m4a", "none", "mp4a", None, None);
    g.vcodec = None;
    let row = format_row(&g);
    assert_eq!(row.resolution, "audio only");
    assert_eq!(row.fps, " ");
    assert_eq!(row.size, "~");
    assert_eq!(row.tbr, " ");
    assert_eq!(row.vcodec, "-");
    let h = Format { height: Some(480), tbr: Some(2_500), ..Format::default() };
    let row = format_row(&h);
    assert_eq!(row.resolution, "480p");
    assert_eq!(row.tbr, format!("{:.0}k", 2_500f64 / 1000.0));
    assert_eq!(format_row(&Format::default()).resolution, "unknown");
}

// ───────── cookies ─────────

#[test]
fn cookie_files() {
    let text = "# Netscape HTTP Cookie File\n\n.youtube.com\tTRUE\t/\tTRUE\t0\tPREF\tf1=50000000\r\nexample.org\tFALSE\t/\tfalse\t0\tid\ta\tb\nshort\tline\nbad host\tFALSE\t/\tFALSE\t0\tn\tv\n";
    let c = netscape_cookies(text);
    let got: Vec<(&str, &str)> = c.iter().map(|e| (e.url.as_str(), e.cookie.as_str())).collect();
    assert_eq!(
        got,
        vec![
            ("https://youtube.com/", "PREF=f1=50000000"),
            ("http://example.org/", "id=a\tb"),
        ]
    );
    assert!(netscape_cookies("").is_empty());
}

// ───────── ffmpeg ─────────

#[test]
fn ffmpeg_command_lines() {
    assert_eq!(
        merge_args("v.mp4", "a.m4a", "out.mkv"),
        vec!["-y", "-i", "v.mp4", "-i", "a.m4a", "-c", "copy", "out.mkv"]
    );
    let (args, out) = extract_audio_args("dir/video.mkv", "mp3");
    assert_eq!(out, "dir/video.mp3");
    assert_eq!(
        args,
        vec!["-y", "-i", "dir/video.mkv", "-vn", "-c:a", "libmp3lame", "-q:a", "0", "dir/video.mp3"]
    );
    let (args, out) = extract_audio_args("clip.webm", "opus");
    assert_eq!(out, "clip.opus");
    assert_eq!(args, vec!["-y", "-i", "clip.webm", "-vn", "-c:a", "libopus", "clip.opus"]);
    let (args, _) = extract_audio_args("clip.webm", "flac");
    assert_eq!(args[3..6].to_vec(), vec!["-vn", "-c:a", "copy"]);
    assert_eq!(
        convert_hls_args("https://x/m.m3u8", "o.mp4"),
        vec!["-y", "-i", "https://x/m.m3u8", "-c", "copy", "-bsf:a", "aac_adtstoasc", "o.mp4"]
    );
    assert_eq!(remux_args("i.ts", "o.mp4"), vec!["-y", "-i", "i.ts", "-c", "copy", "o.mp4"]);
    assert_eq!(part_path("out/My Video.mp4", "mp4"), "out/My Video.mp4.part");
    assert_eq!(ffmpeg_failure(FfmpegStep::Merge, Some(1)), "ffmpeg exited with code Some(1)");
    assert_eq!(
        ffmpeg_failure(FfmpegStep::ExtractAudio, None),
        format!("ffmpeg audio extraction exited with code {:?}", None::<i32>)
    );
    assert_eq!(
        ffmpeg_failure(FfmpegStep::Remux, Some(-9)),
        format!("ffmpeg remux exited with code {:?}", Some(-9))
    );
    assert_eq!(
        ffmpeg_failure(FfmpegStep::ConvertHls, Some(i32::MIN)),
        format!("ffmpeg HLS conversion exited with code {:?}", Some(i32::MIN))
    );
}

// ───────── player responses ─────────

fn stream(itag: u32, mime: &str, bitrate: u64) -> StreamingFormat {
    StreamingFormat {
        itag,
        url: Some(format!("https://v/{}", itag)),
        signature_cipher: None,
        mime_type: mime.to_string(),
        bitrate: Some(bitrate),
        width: None,
        height: None,
        fps: None,
        quality_label: None,
        quality: None,
        audio_quality: None,
        audio_sample_rate: None,
        audio_channels: None,
        content_length: None,
        average_bitrate: None,
        approx_duration_ms: None,
        color_info: None,
    }
}

fn player(status: &str, streams: Vec<StreamingFormat>) -> PlayerResponse {
    PlayerResponse {
        video_details: Some(VideoDetails {
            video_id: "dQw4w9WgXcQ".to_string(),
            title: "Title".to_string(),
            short_description: Some("desc".to_string()),
            length_seconds: Some("213".to_string()),
            view_count: Some("1234".to_string()),
            author: Some("Rick".to_string()),
            channel_id: Some("UCx".to_string()),
            is_live_content: Some(false),
            thumbnail: Some(ThumbnailList {
                thumbnails: vec![
                    ThumbnailItem { url: "t0".to_string(), width: Some(1), height: Some(1) },
                    ThumbnailItem { url: "t1".to_string(), width: Some(2), height: Some(2) },
                ],
            }),
            keywords: Some(vec!["k".to_string()]),
            is_crawlable: Some(true),
        }),
        streaming_data: Some(StreamingData {
            formats: Some(streams),
            adaptive_formats: None,
            hls_manifest_url: None,
            dash_manifest_url: None,
        }),
        playability_status: Some(PlayabilityStatus { status: status.to_string(), reason: None }),
        captions: Some(Captions {
            player_captions_tracklist_renderer: Some(CaptionsTracklistRenderer {
                caption_tracks: Some(vec![
                    CaptionTrack {
                        base_url: "https://c/en".to_string(),
                        name_simple: Some("English".to_string()),
                        vss_id: Some(".en".to_string()),
                        language_code: Some("en".to_string()),
                        kind: None,
                    },
                    CaptionTrack {
                        base_url: "https://c/en-auto".to_string(),
                        name_simple: None,
                        vss_id: Some("a.en".to_string()),
                        language_code: Some("en".to_string()),
                        kind: Some("asr".to_string()),
                    },
                    CaptionTrack {
                        base_url: "https://c/en2".to_string(),
                        name_simple: None,
                        vss_id: None,
                        language_code: Some("en".to_string()),
                        kind: None,
                    },
                ]),
            }),
        }),
        microformat: Some(Microformat {
            player_microformat_renderer: Some(PlayerMicroformatRenderer {
                upload_date: Some("2009-10-25T00:00:00-07:00".to_string()),
                publish_date: None,
                category: Some("Music".to_string()),
                is_family_safe: Some(true),
            }),
        }),
    }
}

#[test]
fn stream_formats_from_the_player() {
    let mut s = stream(18, "video/mp4; codecs=\"avc1.42001E, mp4a.40.2\"", 500_000);
    s.average_bitrate = Some(400_000);
    s.approx_duration_ms = Some("10000".to_string());
    s.height = Some(360);
    s.quality_label = Some("360p".to_string());
    let f = stream_format(&s, "UA").unwrap();
    assert_eq!(f.format_id, "18");
    assert_eq!(f.ext, "mp4");
    assert_eq!(f.vcodec.as_deref(), Some("avc1"));
    assert_eq!(f.acodec.as_deref(), Some("mp4a"));
    assert_eq!(f.tbr, Some(400_000));
    assert_eq!(f.abr, Some(500_000));
    assert_eq!(f.vbr, Some(340_000));
    assert_eq!(f.filesize_approx, Some(500_000));
    assert_eq!(f.quality, Some(360));
    assert_eq!(f.format_note.as_deref(), Some("360p"));
    assert_eq!(
        f.http_headers,
        vec![
            ("User-Agent".to_string(), "UA".to_string()),
            ("Referer".to_string(), "https://www.youtube.com/".to_string()),
        ]
    );
    let mut a = stream(140, "audio/mp4; codecs=\"mp4a.40.2\"", 130_000);
    a.audio_quality = Some("AUDIO_QUALITY_MEDIUM".to_string());
    a.audio_sample_rate = Some("44100".to_string());
    let f = stream_format(&a, "UA").unwrap();
    assert_eq!(f.ext, "m4a");
    assert_eq!(f.format_note.as_deref(), Some("medium"));
    assert_eq!(f.asr, Some(44100));
    let mut c = stream(251, "audio/webm; codecs=\"opus\"", 1);
    c.url = None;
    c.signature_cipher = Some("s=x&url=https%3A%2F%2Fv%2F251".to_string());
    assert_eq!(stream_format(&c, "UA").unwrap().url, "https://v/251");
    c.signature_cipher = None;
    assert!(stream_format(&c, "UA").is_none());
    let sd = StreamingData {
        formats: Some(vec![stream(18, "video/mp4; codecs=\"avc1, mp4a\"", 1)]),
        adaptive_formats: Some(vec![stream(140, "audio/mp4; codecs=\"mp4a\"", 1)]),
        hls_manifest_url: Some("https://m/hls.m3u8".to_string()),
        dash_manifest_url: None,
    };
    let ids: Vec<String> = parse_formats(&sd, "UA").iter().map(|f| f.format_id.clone()).collect();
    assert_eq!(ids, vec!["18", "140", "hls-best"]);
}

#[test]
fn video_information_from_the_player() {
    let p = player("OK", vec![stream(18, "video/mp4; codecs=\"avc1, mp4a\"", 1)]);
    let mut info = video_info_from_player("dQw4w9WgXcQ", &p, "UA").unwrap();
    assert_eq!(info.title, "Title");
    assert_eq!(info.duration, Some(213));
    assert_eq!(info.view_count, Some(1234));
    assert_eq!(info.upload_date.as_deref(), Some("20091025"));
    assert_eq!(info.thumbnail.as_deref(), Some("t1"));
    assert_eq!(info.thumbnails[1].id.as_deref(), Some("1"));
    assert_eq!(info.channel_url.as_deref(), Some("https://www.youtube.com/channel/UCx"));
    assert_eq!(info.categories, vec!["Music".to_string()]);
    assert_eq!(info.webpage_url, "https://www.youtube.com/watch?v=dQw4w9WgXcQ");
    assert_eq!(info.age_limit, Some(0));
    assert_eq!(info.live_status.as_deref(), Some("not_live"));
    // The manual track and the track without an id share one entry.
    assert_eq!(info.subtitles.len(), 1);
    assert_eq!(info.subtitles[0].0, "en");
    assert_eq!(info.subtitles[0].1.len(), 6);
    assert_eq!(info.subtitles[0].1[0].url, "https://c/en&fmt=vtt");
    assert_eq!(info.subtitles[0].1[1].ext, "srv1");
    assert_eq!(info.automatic_captions.len(), 1);
    assert_eq!(info.automatic_captions[0].1[2].url, "https://c/en-auto&fmt=ttml");
    apply_webpage_info(
        &mut info,
        Some(WebpageInfo {
            like_count: Some(5),
            categories: vec![],
            channel_url: Some("https://www.youtube.com/channel/other".to_string()),
        }),
    );
    assert_eq!(info.like_count, Some(5));
    assert_eq!(info.channel_url.as_deref(), Some("https://www.youtube.com/channel/other"));
}

#[test]
fn unusable_player_responses() {
    let mut p = player("LOGIN_REQUIRED", vec![]);
    p.playability_status = Some(PlayabilityStatus {
        status: "LOGIN_REQUIRED".to_string(),
        reason: Some("Sign in".to_string()),
    });
    match video_info_from_player("x", &p, "UA") {
        Err(e) => assert_eq!(e.message(), "This video requires login. Reason: Sign in"),
        Ok(_) => panic!("expected an error"),
    }
    let p = player("UNPLAYABLE", vec![]);
    assert!(matches!(video_info_from_player("x", &p, "UA"), Err(ExtractError::Unplayable(r)) if r == "unknown"));
    let p = player("ERROR", vec![]);
    assert!(matches!(video_info_from_player("x", &p, "UA"), Err(ExtractError::VideoError(r)) if r == "ERROR"));
    let p = player("WEIRD", vec![]);
    assert!(matches!(video_info_from_player("x", &p, "UA"), Err(ExtractError::UnexpectedStatus(r)) if r == "WEIRD"));
    let p = player("OK", vec![]);
    assert!(matches!(video_info_from_player("x", &p, "UA"), Err(ExtractError::NoFormats)));
    let mut p = player("OK", vec![stream(1, "video/mp4", 1)]);
    p.video_details = None;
    assert!(matches!(video_info_from_player("x", &p, "UA"), Err(ExtractError::NoVideoDetails)));
}

#[test]
fn verdicts_and_the_client_search() {
    let ok = player("OK", vec![stream(18, "video/mp4", 1)]);
    assert!(player_verdict(&ok).is_ok());
    let empty = player("OK", vec![]);
    assert_eq!(player_verdict(&empty), Err("No streaming formats returned".to_string()));
    let mut refused = player("LOGIN_REQUIRED", vec![stream(18, "video/mp4", 1)]);
    assert_eq!(player_verdict(&refused), Err("LOGIN_REQUIRED".to_string()));
    refused.playability_status = Some(PlayabilityStatus {
        status: "LOGIN_REQUIRED".to_string(),
        reason: Some("Sign in".to_string()),
    });
    assert_eq!(player_verdict(&refused), Err("Sign in".to_string()));

    let clients = innertube_clients();
    assert_eq!(clients.len(), 5);
    assert_eq!(clients[0].client_name, "ANDROID");
    assert!(clients[1].age_bypass);
    assert_eq!(clients[4].client_name, "WEB");

    let (s, step) = start_search();
    assert!(matches!(step, SearchStep::AskClient(0)));
    let (s, step) = search_step(s, SearchEvent::Refused("403 Forbidden".to_string()));
    assert!(matches!(step, SearchStep::AskClient(1)));
    assert_eq!(s.last_error.as_deref(), Some("InnerTube API returned HTTP 403 Forbidden"));
    let (s, step) = search_step(s, SearchEvent::Answered(refused));
    assert!(matches!(step, SearchStep::AskClient(2)));
    assert_eq!(s.last_error.as_deref(), Some("Sign in"));
    let (_, step) = search_step(s, SearchEvent::Answered(ok));
    match step {
        SearchStep::Found(_, ua) => assert_eq!(ua, clients[2].user_agent),
        _ => panic!("expected Found"),
    }

    let mut s = PlayerSearch { next_client: 4, last_error: None };
    let (s2, step) = search_step(s, SearchEvent::Answered(player("OK", vec![])));
    assert!(matches!(step, SearchStep::ReadPage));
    s = s2;
    let (_, step) = search_step(s, SearchEvent::PageRead(None));
    assert!(matches!(step, SearchStep::Failed(m) if m == "No streaming formats returned"));
    let fresh = PlayerSearch { next_client: 5, last_error: None };
    let (_, step) = search_step(fresh, SearchEvent::PageRead(None));
    assert!(matches!(step, SearchStep::Failed(m) if m == "All InnerTube clients failed"));
    let fresh = PlayerSearch { next_client: 5, last_error: None };
    let page = player("OK", vec![stream(18, "video/mp4", 1)]);
    let (_, step) = search_step(fresh, SearchEvent::PageRead(Some(page)));
    assert!(matches!(step, SearchStep::Found(_, ua) if ua.contains("Chrome/131")));
    assert_eq!(watch_url("abc"), "https://www.youtube.com/watch?v=abc");
}

// ───────── InnerTube request bodies ─────────

fn obj(pairs: Vec<(&str, serde_json::Value)>) -> serde_json::Value {
    let mut m = serde_json::Map::new();
    for (k, v) in pairs {
        m.insert(k.to_string(), v);
    }
    serde_json::Value::Object(m)
}

fn s(v: &str) -> serde_json::Value {
    serde_json::Value::String(v.to_string())
}

#[test]
fn request_bodies_match_serde_json() {
    let clients = innertube_clients();
    let android_ua = "com.google.android.youtube/21.02.35 (Linux; U; Android 11) gzip";
    let vr_ua = "com.google.android.apps.youtube.vr.oculus/1.65.10 (Linux; U; Android 12L; eureka-user Build/SQ3A.220605.009.A1) gzip";
    let android_client = obj(vec![
        ("clientName", s("ANDROID")),
        ("clientVersion", s("21.02.35")),
        ("androidSdkVersion", serde_json::Value::from(30u32)),
        ("userAgent", s(android_ua)),
        ("osName", s("Android")),
        ("osVersion", s("11")),
    ]);
    let vr_client = obj(vec![
        ("clientName", s("ANDROID_VR")),
        ("clientVersion", s("1.65.10")),
        ("deviceMake", s("Oculus")),
        ("deviceModel", s("Quest 3")),
        ("androidSdkVersion", serde_json::Value::from(32u32)),
        ("userAgent", s(vr_ua)),
        ("osName", s("Android")),
        ("osVersion", s("12L")),
    ]);
    let web_client = obj(vec![
        ("clientName", s("WEB")),
        ("clientVersion", s("2.20241108.01.00")),
        ("hl", s("en")),
        ("gl", s("US")),
    ]);
    let playback = obj(vec![(
        "contentPlaybackContext",
        obj(vec![("html5Preference", s("HTML5_PREF_WANTS"))]),
    )]);
    let id = "dQw4w9WgXcQ";
    let expected = vec![
        obj(vec![("context", obj(vec![("client", android_client.clone())])), ("videoId", s(id))]),
        obj(vec![
            ("context", obj(vec![("client", android_client)])),
            ("videoId", s(id)),
            ("params", s("CgIQBg==")),
        ]),
        obj(vec![
            ("context", obj(vec![("client", vr_client.clone())])),
            ("videoId", s(id)),
            ("playbackContext", playback.clone()),
        ]),
        obj(vec![
            ("context", obj(vec![("client", vr_client)])),
            ("videoId", s(id)),
            ("playbackContext", playback),
            ("params", s("CgIQBg==")),
        ]),
        obj(vec![("context", obj(vec![("client", web_client)])), ("videoId", s(id))]),
    ];
    for (c, want) in clients.iter().zip(expected.iter()) {
        assert_eq!(request_body(c, id), serde_json::to_string(want).unwrap());
    }
    let odd = "quote\" back\\slash\ncontrol\u{1}\u{8}\u{c}\t\r é";
    let body = request_body(&clients[4], odd);
    let parsed: serde_json::Value = serde_json::from_str(&body).unwrap();
    assert_eq!(parsed["videoId"], s(odd));
    assert_eq!(
        body,
        serde_json::to_string(&obj(vec![
            ("context", obj(vec![("client", obj(vec![
                ("clientName", s("WEB")),
                ("clientVersion", s("2.20241108.01.00")),
                ("hl", s("en")),
                ("gl", s("US")),
            ]))])),
            ("videoId", s(odd)),
        ]))
        .unwrap()
    );
}

#[test]
fn extensions_with_separators_are_detected() {
    assert!(extension_would_panic("a/b"));
    assert!(!extension_would_panic("mp3"));
    assert!(!extension_would_panic(""));
}

#[test]
fn kept_merge_streams_go_beside_the_output() {
    assert_eq!(
        merge_part_paths("out/My Video.mkv", "ID", "mp4", "webm", true),
        Some(("out/ID.video.mp4".to_string(), "out/ID.audio.webm".to_string()))
    );
    assert_eq!(
        merge_part_paths("My Video.mkv", "ID", "mp4", "webm", true),
        Some(("ID.video.mp4".to_string(), "ID.audio.webm".to_string()))
    );
    assert_eq!(merge_part_paths("out/My Video.mkv", "ID", "mp4", "webm", false), None);
}

#[test]
fn fractional_and_written_out_lengths_keep_their_whole_part() {
    let mut p = player("OK", vec![stream(18, "video/mp4; codecs=\"avc1, mp4a\"", 1)]);
    if let Some(vd) = p.video_details.as_mut() {
        vd.length_seconds = Some("213.5".to_string());
    }
    assert_eq!(video_info_from_player("dQw4w9WgXcQ", &p, "UA").unwrap().duration, Some(213));
    if let Some(vd) = p.video_details.as_mut() {
        vd.length_seconds = Some("2.13e2".to_string());
    }
    assert_eq!(video_info_from_player("dQw4w9WgXcQ", &p, "UA").unwrap().duration, Some(213));
    if let Some(vd) = p.video_details.as_mut() {
        vd.length_seconds = Some("3:33".to_string());
    }
    assert_eq!(video_info_from_player("dQw4w9WgXcQ", &p, "UA").unwrap().duration, None);
    let mut s = stream(18, "video/mp4; codecs=\"avc1, mp4a\"", 800_000);
    s.approx_duration_ms = Some("10000.9".to_string());
    assert_eq!(stream_format(&s, "UA").unwrap().filesize_approx, Some(1_000_000));
    s.approx_duration_ms = Some("1e4".to_string());
    assert_eq!(stream_format(&s, "UA").unwrap().filesize_approx, Some(1_000_000));
}
