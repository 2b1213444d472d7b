use yt_dlp::selector::{
    parse_selector, select_formats, try_select_formats, FilterOp, FormatSelector, SelectError,
    SelectedFormats,
};
use yt_dlp::types::Format;

/// A format with the given id, extension, codecs and height; the bit rates
/// are in bits per second.
fn fmt(
    id: &str,
    ext: &str,
    vcodec: &str,
    acodec: &str,
    height: Option<u32>,
    abr: Option<u64>,
    tbr: Option<u64>,
) -> Format {
    Format {
        format_id: id.to_string(),
        ext: ext.to_string(),
        vcodec: Some(vcodec.to_string()),
        acodec: Some(acodec.to_string()),
        height,
        tbr,
        abr,
        ..Format::default()
    }
}

fn sample_formats() -> Vec<Format> {
    vec![
        // video-only adaptive
        fmt("313", "webm", "vp9", "none", Some(2160), None, Some(13_000_000)),
        fmt("137", "mp4", "avc1", "none", Some(1080), None, Some(3_000_000)),
        fmt("136", "mp4", "avc1", "none", Some(720), None, Some(1_000_000)),
        fmt("134", "mp4", "avc1", "none", Some(360), None, Some(300_000)),
        // audio-only adaptive
        fmt("251", "webm", "none", "opus", None, Some(130_000), Some(130_000)),
        fmt("140", "m4a", "none", "mp4a", None, Some(128_000), Some(128_000)),
        fmt("249", "webm", "none", "opus", None, Some(48_000), Some(48_000)),
        // combined (video+audio)
        fmt("18", "mp4", "avc1", "mp4a", Some(360), Some(96_000), Some(444_000)),
        fmt("22", "mp4", "avc1", "mp4a", Some(720), Some(192_000), Some(1_100_000)),
    ]
}

// ─── parse_selector ───────────────────────────────────────────────────

#[test]
fn parse_keywords() {
    assert!(matches!(parse_selector("best").unwrap(), FormatSelector::Best));
    assert!(matches!(parse_selector("worst").unwrap(), FormatSelector::Worst));
    assert!(matches!(parse_selector("bestvideo").unwrap(), FormatSelector::BestVideo));
    assert!(matches!(parse_selector("worstvideo").unwrap(), FormatSelector::WorstVideo));
    assert!(matches!(parse_selector("bestaudio").unwrap(), FormatSelector::BestAudio));
    assert!(matches!(parse_selector("worstaudio").unwrap(), FormatSelector::WorstAudio));
}

#[test]
fn parse_short_keywords() {
    assert!(matches!(parse_selector("b").unwrap(), FormatSelector::Best));
    assert!(matches!(parse_selector("bv").unwrap(), FormatSelector::BestVideo));
    assert!(matches!(parse_selector("ba").unwrap(), FormatSelector::BestAudio));
    assert!(matches!(parse_selector("wv").unwrap(), FormatSelector::WorstVideo));
    assert!(matches!(parse_selector("wa").unwrap(), FormatSelector::WorstAudio));
}

#[test]
fn parse_merge() {
    let sel = parse_selector("bestvideo+bestaudio").unwrap();
    assert!(matches!(sel, FormatSelector::Merge(_, _)));
}

#[test]
fn parse_fallback() {
    let sel = parse_selector("bestvideo+bestaudio/best").unwrap();
    assert!(matches!(sel, FormatSelector::Fallback(_, _)));
}

#[test]
fn parse_by_id() {
    let sel = parse_selector("137").unwrap();
    assert!(matches!(sel, FormatSelector::ById(ref id) if id == "137"));
}

#[test]
fn parse_filter_eq() {
    let sel = parse_selector("best[ext=mp4]").unwrap();
    assert!(matches!(sel, FormatSelector::Filtered(_, ref filters) if
        filters.len() == 1 && filters[0].field == "ext"
    ));
}

#[test]
fn parse_filter_le() {
    let sel = parse_selector("bestvideo[height<=1080]").unwrap();
    assert!(matches!(sel, FormatSelector::Filtered(_, ref f) if
        f[0].field == "height" && matches!(f[0].op, FilterOp::Le)
    ));
}

#[test]
fn parse_filter_chained() {
    let sel = parse_selector("bestvideo[height<=1080][ext=mp4]").unwrap();
    assert!(matches!(sel, FormatSelector::Filtered(_, ref f) if f.len() == 2));
}

#[test]
fn parse_fallback_contains_merge() {
    // "bestvideo+bestaudio/best" — Fallback wrapping a Merge
    let sel = parse_selector("bestvideo+bestaudio/best").unwrap();
    if let FormatSelector::Fallback(left, _right) = sel {
        assert!(matches!(*left, FormatSelector::Merge(_, _)));
    } else {
        panic!("expected Fallback");
    }
}

// ─── select_formats ───────────────────────────────────────────────────

#[test]
fn best_picks_combined() {
    let fmts = sample_formats();
    let sel = parse_selector("best").unwrap();
    let res = select_formats(&sel, &fmts).unwrap();
    // best must be combined (has both codecs)
    if let SelectedFormats::Single(f) = res {
        assert!(f.is_combined(), "expected combined, got {:?}", f.format_id);
    } else {
        panic!("expected Single");
    }
}

#[test]
fn best_picks_highest_combined() {
    let fmts = sample_formats();
    let sel = parse_selector("best").unwrap();
    if let SelectedFormats::Single(f) = select_formats(&sel, &fmts).unwrap() {
        // "22" (720p combined) should score higher than "18" (360p combined)
        assert_eq!(f.format_id, "22");
    }
}

#[test]
fn bestvideo_picks_video_only_over_combined() {
    let fmts = sample_formats();
    let sel = parse_selector("bestvideo").unwrap();
    if let SelectedFormats::Single(f) = select_formats(&sel, &fmts).unwrap() {
        // 2160p vp9 should win
        assert_eq!(f.format_id, "313");
    }
}

#[test]
fn bestaudio_picks_highest_abr() {
    let fmts = sample_formats();
    let sel = parse_selector("bestaudio").unwrap();
    if let SelectedFormats::Single(f) = select_formats(&sel, &fmts).unwrap() {
        // 251 (130kbps opus) beats 140 (128kbps m4a)
        assert_eq!(f.format_id, "251");
    }
}

#[test]
fn worstaudio_picks_lowest_abr() {
    let fmts = sample_formats();
    let sel = parse_selector("worstaudio").unwrap();
    if let SelectedFormats::Single(f) = select_formats(&sel, &fmts).unwrap() {
        assert_eq!(f.format_id, "249");
    }
}

#[test]
fn select_by_id() {
    let fmts = sample_formats();
    let sel = parse_selector("137").unwrap();
    if let SelectedFormats::Single(f) = select_formats(&sel, &fmts).unwrap() {
        assert_eq!(f.format_id, "137");
    }
}

#[test]
fn select_by_id_missing_returns_err() {
    let fmts = sample_formats();
    let sel = parse_selector("9999").unwrap();
    assert!(select_formats(&sel, &fmts).is_err());
}

#[test]
fn merge_returns_video_and_audio() {
    let fmts = sample_formats();
    let sel = parse_selector("bestvideo+bestaudio").unwrap();
    if let SelectedFormats::Merge(video, audio) = select_formats(&sel, &fmts).unwrap() {
        assert!(video.is_video_only() || video.is_combined());
        assert!(audio.is_audio_only() || audio.is_combined());
    } else {
        panic!("expected Merge");
    }
}

#[test]
fn fallback_uses_right_when_left_fails() {
    let fmts = sample_formats();
    // "9999" doesn't exist, so it should fall back to "best"
    let sel = parse_selector("9999/best").unwrap();
    let res = select_formats(&sel, &fmts).unwrap();
    assert!(matches!(res, SelectedFormats::Single(_)));
}

#[test]
fn filter_by_ext() {
    let fmts = sample_formats();
    let sel = parse_selector("bestvideo[ext=mp4]").unwrap();
    if let SelectedFormats::Single(f) = select_formats(&sel, &fmts).unwrap() {
        assert_eq!(f.ext, "mp4");
    }
}

#[test]
fn filter_by_height_le() {
    let fmts = sample_formats();
    let sel = parse_selector("bestvideo[height<=720]").unwrap();
    if let SelectedFormats::Single(f) = select_formats(&sel, &fmts).unwrap() {
        assert!(f.height.unwrap_or(9999) <= 720);
    }
}

#[test]
fn drm_formats_are_excluded() {
    let fmts = vec![Format {
        format_id: "1".to_string(),
        ext: "mp4".to_string(),
        height: Some(1080),
        vcodec: Some("avc1".to_string()),
        acodec: Some("mp4a".to_string()),
        has_drm: true,
        ..Format::default()
    }];
    let sel = parse_selector("best").unwrap();
    assert!(select_formats(&sel, &fmts).is_err());
}

#[test]
fn empty_format_list_returns_err() {
    let fmts: Vec<Format> = vec![];
    let sel = parse_selector("best").unwrap();
    assert!(select_formats(&sel, &fmts).is_err());
}

#[test]
fn worstvideo_picks_lowest_res() {
    let fmts = sample_formats();
    let sel = parse_selector("worstvideo").unwrap();
    if let SelectedFormats::Single(f) = select_formats(&sel, &fmts).unwrap() {
        // 360p avc1 or 360p combined — both at height=360
        assert!(f.height.unwrap_or(9999) <= 360);
    }
}

// ─── more cases ─────────────────────────────────────────────────────

fn single_id(sel: &str, fmts: &[Format]) -> String {
    let s = parse_selector(sel).unwrap();
    match select_formats(&s, fmts).unwrap() {
        SelectedFormats::Single(f) => f.format_id.clone(),
        SelectedFormats::Merge(_, _) => panic!("expected Single"),
    }
}

#[test]
fn exact_choices_on_the_sample() {
    let fmts = sample_formats();
    assert_eq!(single_id("worst", &fmts), "18");
    // Among the 720p streams the combined one has the higher bit rate.
    assert_eq!(single_id("bestvideo[height<=720]", &fmts), "22");
    assert_eq!(single_id("bestvideo[height<=720][acodec=none]", &fmts), "136");
    assert_eq!(single_id("worstvideo", &fmts), "134");
    assert_eq!(single_id("bestaudio[ext=m4a]", &fmts), "140");
    assert_eq!(single_id("bestvideo[vcodec=vp9]", &fmts), "313");
    assert_eq!(single_id("best[height>=720]", &fmts), "22");
    assert_eq!(single_id("bestaudio[abr<100]", &fmts), "249");
    let sel = parse_selector("bv+ba").unwrap();
    match select_formats(&sel, &fmts).unwrap() {
        SelectedFormats::Merge(v, a) => {
            assert_eq!(v.format_id, "313");
            assert_eq!(a.format_id, "251");
        }
        SelectedFormats::Single(_) => panic!("expected Merge"),
    }
}

#[test]
fn select_errors() {
    let fmts = sample_formats();
    let sel = parse_selector("9999").unwrap();
    match select_formats(&sel, &fmts) {
        Err(e) => assert_eq!(e.message(), "Format 9999 not found"),
        Ok(_) => panic!("expected an error"),
    }
    let sel = parse_selector("best[height>5000]").unwrap();
    match select_formats(&sel, &fmts) {
        Err(e) => assert_eq!(e.message(), "No formats available"),
        Ok(_) => panic!("expected an error"),
    }
    let only_audio = vec![fmt("1", "m4a", "none", "mp4a", None, Some(1), Some(1))];
    let sel = parse_selector("bestvideo").unwrap();
    assert!(matches!(select_formats(&sel, &only_audio), Err(SelectError::NoVideo)));
    let only_video = vec![fmt("1", "mp4", "avc1", "none", Some(1), None, Some(1))];
    let sel = parse_selector("bestaudio").unwrap();
    assert!(matches!(select_formats(&sel, &only_video), Err(SelectError::NoAudio)));
}

#[test]
fn merge_inside_a_merge_is_refused() {
    let fmts = sample_formats();
    let sel = FormatSelector::Merge(
        Box::new(FormatSelector::Merge(
            Box::new(FormatSelector::BestVideo),
            Box::new(FormatSelector::BestAudio),
        )),
        Box::new(FormatSelector::BestAudio),
    );
    assert!(matches!(try_select_formats(&sel, &fmts), Err(SelectError::Compound)));
}

#[test]
fn bad_selectors_are_refused() {
    assert!(parse_selector("best[height<=1080").is_err());
    assert!(parse_selector("best[heightX1080]").is_err());
}

#[test]
fn equal_scores_best_takes_the_last_and_worst_the_first() {
    let fmts = vec![
        fmt("a", "mp4", "avc1", "mp4a", Some(360), Some(1), Some(1)),
        fmt("b", "mp4", "avc1", "mp4a", Some(360), Some(1), Some(1)),
    ];
    assert_eq!(single_id("best", &fmts), "b");
    assert_eq!(single_id("worst", &fmts), "a");
}

#[test]
fn exponent_filter_values_compare_as_numbers() {
    let fmts = sample_formats();
    // At 720 lines the combined format 22 has the higher bit rate.
    let sel = parse_selector("bestvideo[height<=1e3]").unwrap();
    match select_formats(&sel, &fmts).unwrap() {
        SelectedFormats::Single(f) => assert_eq!(f.format_id, "22"),
        _ => panic!("expected one format"),
    }
    let sel = parse_selector("bestvideo[height<=1.08E+3]").unwrap();
    match select_formats(&sel, &fmts).unwrap() {
        SelectedFormats::Single(f) => assert_eq!(f.format_id, "137"),
        _ => panic!("expected one format"),
    }
}

#[test]
fn infinite_and_nan_filter_values() {
    let fmts = sample_formats();
    let sel = parse_selector("bestvideo[height<inf]").unwrap();
    match select_formats(&sel, &fmts).unwrap() {
        SelectedFormats::Single(f) => assert_eq!(f.format_id, "313"),
        _ => panic!("expected one format"),
    }
    let sel = parse_selector("bestvideo[height>-Infinity]").unwrap();
    match select_formats(&sel, &fmts).unwrap() {
        SelectedFormats::Single(f) => assert_eq!(f.format_id, "313"),
        _ => panic!("expected one format"),
    }
    let sel = parse_selector("bestvideo[height=NaN]").unwrap();
    assert!(select_formats(&sel, &fmts).is_err());
    let sel = parse_selector("bestvideo[height!=nan]").unwrap();
    match select_formats(&sel, &fmts).unwrap() {
        SelectedFormats::Single(f) => assert_eq!(f.format_id, "313"),
        _ => panic!("expected one format"),
    }
}

#[test]
fn long_and_fractional_filter_values() {
    let fmts = sample_formats();
    let sel = parse_selector("bestvideo[height<=1080.000000000000000000000001]").unwrap();
    match select_formats(&sel, &fmts).unwrap() {
        SelectedFormats::Single(f) => assert_eq!(f.format_id, "137"),
        _ => panic!("expected one format"),
    }
    let sel = parse_selector("bestvideo[height<1080.5][height>.72e3]").unwrap();
    match select_formats(&sel, &fmts).unwrap() {
        SelectedFormats::Single(f) => assert_eq!(f.format_id, "137"),
        _ => panic!("expected one format"),
    }
    // tbr is compared in kbit/s: 1000 kbit/s is format 136's rate.
    let sel = parse_selector("bestvideo[tbr=1e3]").unwrap();
    match select_formats(&sel, &fmts).unwrap() {
        SelectedFormats::Single(f) => assert_eq!(f.format_id, "136"),
        _ => panic!("expected one format"),
    }
}

#[test]
fn malformed_numbers_compare_as_text() {
    let fmts = sample_formats();
    for spec in ["bestvideo[height<=1e]", "bestvideo[height<=.]", "bestvideo[height<=1.2.3]", "bestvideo[height<=0x10]"] {
        let sel = parse_selector(spec).unwrap();
        assert!(select_formats(&sel, &fmts).is_err(), "{}", spec);
    }
}
