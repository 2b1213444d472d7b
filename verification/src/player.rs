//! The InnerTube player response, and the formats and video information
//! read from it.
use crate::text::{
    append_chars, append_str, chars_eq_str, chars_of, decimal, decimal_vec, parse_u64,
    parse_u64_chars, starts_with, starts_with_str, string_from, u64_to_string,
};
use crate::types::{
    clone_opt_string, clone_string, formats_view, names_codec, opt_view, pairs_view, subs_view,
    table_view, strings_view, thumbs_view, Format, FormatView, Subtitle, SubtitleView, Thumbnail,
    ThumbnailView, VideoInfo,
};
use crate::utils::{parse_mime_codecs, spec_mime_to_ext, spec_parse_mime_codecs, mime_to_ext};
use crate::youtube::{
    parse_cipher_url, parse_upload_date, spec_parse_cipher_url, spec_parse_upload_date,
    date_splits_char, date_would_split, WebpageInfo,
};
use crate::number::{spec_text_as_u64, text_as_u64};
use vstd::prelude::*;

verus! {

broadcast use vstd::string::group_string_axioms;

// ───────────────────────── the response ─────────────────────────

#[derive(Debug)]
pub struct PlayerResponse {
    pub video_details: Option<VideoDetails>,
    pub streaming_data: Option<StreamingData>,
    pub playability_status: Option<PlayabilityStatus>,
    pub captions: Option<Captions>,
    pub microformat: Option<Microformat>,
}

#[derive(Debug)]
pub struct PlayabilityStatus {
    pub status: String,
    pub reason: Option<String>,
}

#[derive(Debug)]
pub struct VideoDetails {
    pub video_id: String,
    pub title: String,
    pub short_description: Option<String>,
    pub length_seconds: Option<String>,
    pub view_count: Option<String>,
    pub author: Option<String>,
    pub channel_id: Option<String>,
    pub is_live_content: Option<bool>,
    pub thumbnail: Option<ThumbnailList>,
    pub keywords: Option<Vec<String>>,
    pub is_crawlable: Option<bool>,
}

#[derive(Debug)]
pub struct ThumbnailList {
    pub thumbnails: Vec<ThumbnailItem>,
}

#[derive(Debug)]
pub struct ThumbnailItem {
    pub url: String,
    pub width: Option<u32>,
    pub height: Option<u32>,
}

#[derive(Debug)]
pub struct StreamingData {
    pub formats: Option<Vec<StreamingFormat>>,
    pub adaptive_formats: Option<Vec<StreamingFormat>>,
    pub hls_manifest_url: Option<String>,
    pub dash_manifest_url: Option<String>,
}

#[derive(Debug)]
pub struct StreamingFormat {
    pub itag: u32,
    pub url: Option<String>,
    pub signature_cipher: Option<String>,
    pub mime_type: String,
    /// Bits per second.
    pub bitrate: Option<u64>,
    pub width: Option<u32>,
    pub height: Option<u32>,
    pub fps: Option<u32>,
    pub quality_label: Option<String>,
    pub quality: Option<String>,
    pub audio_quality: Option<String>,
    pub audio_sample_rate: Option<String>,
    pub audio_channels: Option<u8>,
    pub content_length: Option<String>,
    /// Bits per second.
    pub average_bitrate: Option<u64>,
    pub approx_duration_ms: Option<String>,
    pub color_info: Option<ColorInfo>,
}

#[derive(Debug)]
pub struct ColorInfo {
    pub primaries: Option<String>,
    pub transfer_characteristics: Option<String>,
}

#[derive(Debug)]
pub struct Captions {
    pub player_captions_tracklist_renderer: Option<CaptionsTracklistRenderer>,
}

#[derive(Debug)]
pub struct CaptionsTracklistRenderer {
    pub caption_tracks: Option<Vec<CaptionTrack>>,
}

#[derive(Debug)]
pub struct CaptionTrack {
    pub base_url: String,
    pub name_simple: Option<String>,
    pub vss_id: Option<String>,
    pub language_code: Option<String>,
    pub kind: Option<String>,
}

#[derive(Debug)]
pub struct Microformat {
    pub player_microformat_renderer: Option<PlayerMicroformatRenderer>,
}

#[derive(Debug)]
pub struct PlayerMicroformatRenderer {
    pub upload_date: Option<String>,
    pub publish_date: Option<String>,
    pub category: Option<String>,
    pub is_family_safe: Option<bool>,
}

// ───────────────────────── formats ─────────────────────────

pub open spec fn or_u64(a: Option<u64>, b: Option<u64>) -> Option<u64> {
    match a {
        Some(x) => Some(x),
        None => b,
    }
}

/// The URL of a stream: its own, else the one inside its signature cipher.
pub open spec fn stream_url(sf: StreamingFormat) -> Option<Seq<char>> {
    match sf.url {
        Some(u) => Some(u@),
        None => match sf.signature_cipher {
            Some(c) => spec_parse_cipher_url(c@),
            None => None,
        },
    }
}

/// The codec pair completed from the container: `"none"` for the kind of
/// stream the container says is absent.
pub open spec fn completed_codecs(
    v: Option<Seq<char>>,
    a: Option<Seq<char>>,
    is_video: bool,
    is_audio: bool,
) -> (Option<Seq<char>>, Option<Seq<char>>) {
    match (v, a) {
        (Some(v), Some(a)) => (Some(v), Some(a)),
        (Some(v), None) => if is_video {
            (Some(v), Some("none"@))
        } else if is_audio {
            (Some("none"@), Some(v))
        } else {
            (Some(v), None)
        },
        (None, Some(a)) => if is_audio {
            (Some("none"@), Some(a))
        } else {
            (None, Some(a))
        },
        (None, None) => (None, None),
    }
}

pub open spec fn parse_u32(s: Seq<char>) -> Option<u32> {
    match parse_u64(s) {
        Some(n) => if n <= u32::MAX {
            Some(n as u32)
        } else {
            None
        },
        None => None,
    }
}

pub open spec fn parsed_u64(o: Option<String>) -> Option<u64> {
    match o {
        Some(s) => parse_u64(s@),
        None => None,
    }
}

/// A text read as a decimal number (as `str::parse::<f64>` reads it) and
/// converted to a `u64` as `as u64` does: its whole part, held to the range
/// of `u64`.
pub open spec fn parsed_whole(o: Option<String>) -> Option<u64> {
    match o {
        Some(s) => spec_text_as_u64(s@),
        None => None,
    }
}

/// The estimated size of a stream: duration in milliseconds times bit rate
/// in bits per second, over 8000, in bytes. The duration comes in as its
/// whole milliseconds.
pub open spec fn approx_size(ms: Option<u64>, rate: Option<u64>) -> Option<u64> {
    match ms {
        Some(m) => match rate {
            Some(b) => Some(
                if (m as int) * (b as int) / 8000 > u64::MAX {
                    u64::MAX
                } else {
                    ((m as int) * (b as int) / 8000) as u64
                },
            ),
            None => None,
        },
        None => None,
    }
}

pub open spec fn audio_quality_note(q: Seq<char>) -> Seq<char> {
    if q == "AUDIO_QUALITY_LOW"@ {
        "low"@
    } else if q == "AUDIO_QUALITY_MEDIUM"@ {
        "medium"@
    } else if q == "AUDIO_QUALITY_HIGH"@ {
        "high"@
    } else {
        q
    }
}

pub open spec fn dynamic_range_of(ci: Option<ColorInfo>) -> Option<Seq<char>> {
    match ci {
        Some(c) => match c.primaries {
            Some(p) => Some(
                if p@ == "COLOR_PRIMARIES_BT2020"@ {
                    "HDR10"@
                } else {
                    "SDR"@
                },
            ),
            None => None,
        },
        None => None,
    }
}

pub open spec fn download_headers(ua: Seq<char>) -> Seq<(Seq<char>, Seq<char>)> {
    seq![("User-Agent"@, ua), ("Referer"@, "https://www.youtube.com/"@)]
}

/// The format a stream of the player response describes; `None` when it has
/// no usable URL.
pub open spec fn spec_stream_format(sf: StreamingFormat, ua: Seq<char>) -> Option<FormatView> {
    match stream_url(sf) {
        None => None,
        Some(url) => {
            let mime = sf.mime_type@;
            let ext = spec_mime_to_ext(mime);
            let is_video = starts_with(mime, "video/"@);
            let is_audio = starts_with(mime, "audio/"@);
            let codecs = spec_parse_mime_codecs(mime);
            let (vcodec, acodec) = completed_codecs(codecs.0, codecs.1, is_video, is_audio);
            let final_ext = if is_audio && acodec != Some("none"@) && !names_codec(vcodec) {
                if ext == "mp4"@ {
                    "m4a"@
                } else {
                    ext
                }
            } else {
                ext
            };
            let rate = or_u64(sf.bitrate, sf.average_bitrate);
            let abr = if is_audio || names_codec(acodec) {
                rate
            } else {
                None
            };
            let vbr = if is_video && names_codec(vcodec) {
                if is_audio || !names_codec(acodec) {
                    rate
                } else {
                    match sf.average_bitrate {
                        Some(b) => Some((b as int * 17 / 20) as u64),
                        None => None,
                    }
                }
            } else {
                None
            };
            Some(
                FormatView {
                    format_id: decimal(sf.itag as nat),
                    format_note: match sf.quality_label {
                        Some(q) => Some(q@),
                        None => match sf.audio_quality {
                            Some(q) => Some(audio_quality_note(q@)),
                            None => None,
                        },
                    },
                    url: url,
                    manifest_url: None,
                    ext: final_ext,
                    width: sf.width,
                    height: sf.height,
                    fps: sf.fps,
                    tbr: or_u64(sf.average_bitrate, sf.bitrate),
                    abr: abr,
                    vbr: vbr,
                    acodec: acodec,
                    vcodec: vcodec,
                    asr: match sf.audio_sample_rate {
                        Some(s) => parse_u32(s@),
                        None => None,
                    },
                    audio_channels: sf.audio_channels,
                    container: None,
                    filesize: parsed_u64(sf.content_length),
                    filesize_approx: approx_size(
                        parsed_whole(sf.approx_duration_ms),
                        or_u64(sf.average_bitrate, sf.bitrate),
                    ),
                    protocol: "https"@,
                    language: None,
                    quality: Some(
                        match sf.height {
                            Some(h) => h,
                            None => 0,
                        },
                    ),
                    source_preference: None,
                    has_drm: false,
                    dynamic_range: dynamic_range_of(sf.color_info),
                    http_headers: download_headers(ua),
                },
            )
        },
    }
}

/// The formats of a list of streams, in order, skipping streams without a URL.
pub open spec fn stream_formats(sfs: Seq<StreamingFormat>, ua: Seq<char>) -> Seq<FormatView>
    decreases sfs.len(),
{
    if sfs.len() == 0 {
        Seq::empty()
    } else {
        stream_formats(sfs.drop_last(), ua) + match spec_stream_format(sfs.last(), ua) {
            Some(f) => seq![f],
            None => Seq::empty(),
        }
    }
}

pub open spec fn opt_streams(o: Option<Vec<StreamingFormat>>) -> Seq<StreamingFormat> {
    match o {
        Some(v) => v@,
        None => Seq::empty(),
    }
}

/// The format standing for an HLS manifest.
pub open spec fn hls_format(url: Seq<char>, ua: Seq<char>) -> FormatView {
    FormatView {
        format_id: "hls-best"@,
        format_note: Some("HLS best"@),
        url: url,
        manifest_url: None,
        ext: "mp4"@,
        width: None,
        height: None,
        fps: None,
        tbr: None,
        abr: None,
        vbr: None,
        acodec: Some("mp4a"@),
        vcodec: Some("avc1"@),
        asr: None,
        audio_channels: None,
        container: None,
        filesize: None,
        filesize_approx: None,
        protocol: "hls"@,
        language: None,
        quality: Some(720),
        source_preference: None,
        has_drm: false,
        dynamic_range: None,
        http_headers: seq![("User-Agent"@, ua)],
    }
}

/// The formats of the streaming data: the muxed streams, then the adaptive
/// ones, then one for the HLS manifest if there is one.
pub open spec fn spec_parse_formats(sd: StreamingData, ua: Seq<char>) -> Seq<FormatView> {
    stream_formats(opt_streams(sd.formats) + opt_streams(sd.adaptive_formats), ua) + match sd.hls_manifest_url {
        Some(u) => seq![hls_format(u@, ua)],
        None => Seq::empty(),
    }
}

pub proof fn lemma_stream_formats_append(a: Seq<StreamingFormat>, b: Seq<StreamingFormat>, ua: Seq<char>)
    ensures
        stream_formats(a + b, ua) == stream_formats(a, ua) + stream_formats(b, ua),
    decreases b.len(),
{
    if b.len() == 0 {
        assert(a + b =~= a);
        assert(stream_formats(a, ua) + stream_formats(b, ua) =~= stream_formats(a, ua));
    } else {
        lemma_stream_formats_append(a, b.drop_last(), ua);
        assert((a + b).drop_last() =~= a + b.drop_last());
        assert((a + b).last() == b.last());
        let tail = match spec_stream_format(b.last(), ua) {
            Some(f) => seq![f],
            None => Seq::<FormatView>::empty(),
        };
        assert(stream_formats(a, ua) + stream_formats(b.drop_last(), ua) + tail =~= stream_formats(
            a,
            ua,
        ) + (stream_formats(b.drop_last(), ua) + tail));
    }
}

fn opt_u32_parse(o: &Option<String>) -> (r: Option<u32>)
    ensures
        r == match *o {
            Some(s) => parse_u32(s@),
            None => None,
        },
{
    match o {
        Some(s) => {
            let v = chars_of(s.as_str());
            match parse_u64_chars(&v) {
                Ok(n) => if n <= 0xffff_ffff {
                    Some(n as u32)
                } else {
                    None
                },
                Err(_) => None,
            }
        },
        None => None,
    }
}

fn opt_whole_parse(o: &Option<String>) -> (r: Option<u64>)
    ensures
        r == parsed_whole(*o),
{
    match o {
        Some(s) => text_as_u64(s.as_str()),
        None => None,
    }
}

fn opt_u64_parse(o: &Option<String>) -> (r: Option<u64>)
    ensures
        r == parsed_u64(*o),
{
    match o {
        Some(s) => {
            let v = chars_of(s.as_str());
            match parse_u64_chars(&v) {
                Ok(n) => Some(n),
                Err(_) => None,
            }
        },
        None => None,
    }
}

fn approx_size_exec(ms: Option<u64>, rate: Option<u64>) -> (r: Option<u64>)
    ensures
        r == approx_size(ms, rate),
{
    match ms {
        Some(m) => match rate {
            Some(b) => {
                proof {
                    let mm = m as int;
                    let bb = b as int;
                    assert(mm * bb <= 18446744073709551615 * 18446744073709551615)
                        by (nonlinear_arith)
                        requires
                            0 <= mm <= 18446744073709551615,
                            0 <= bb <= 18446744073709551615,
                    ;
                }
                let p: u128 = (m as u128) * (b as u128) / 8000;
                if p > 0xffff_ffff_ffff_ffff {
                    Some(0xffff_ffff_ffff_ffff)
                } else {
                    Some(p as u64)
                }
            },
            None => None,
        },
        None => None,
    }
}

fn audio_quality_note_exec(q: &String) -> (r: String)
    ensures
        r@ == audio_quality_note(q@),
{
    let v = chars_of(q.as_str());
    if chars_eq_str(&v, "AUDIO_QUALITY_LOW") {
        String::from_str("low")
    } else if chars_eq_str(&v, "AUDIO_QUALITY_MEDIUM") {
        String::from_str("medium")
    } else if chars_eq_str(&v, "AUDIO_QUALITY_HIGH") {
        String::from_str("high")
    } else {
        q.clone()
    }
}

fn dynamic_range_exec(ci: &Option<ColorInfo>) -> (r: Option<String>)
    ensures
        opt_view(r) == dynamic_range_of(*ci),
{
    match ci {
        Some(c) => match &c.primaries {
            Some(p) => {
                let v = chars_of(p.as_str());
                if chars_eq_str(&v, "COLOR_PRIMARIES_BT2020") {
                    Some(String::from_str("HDR10"))
                } else {
                    Some(String::from_str("SDR"))
                }
            },
            None => None,
        },
        None => None,
    }
}

fn download_headers_exec(ua: &str) -> (r: Vec<(String, String)>)
    ensures
        pairs_view(r@) == download_headers(ua@),
{
    let mut h: Vec<(String, String)> = Vec::new();
    h.push((String::from_str("User-Agent"), String::from_str(ua)));
    h.push((String::from_str("Referer"), String::from_str("https://www.youtube.com/")));
    assert(pairs_view(h@) =~= download_headers(ua@));
    h
}

fn is_none_str(o: &Option<String>) -> (b: bool)
    ensures
        b == (opt_view(*o) == Some("none"@)),
{
    match o {
        Some(s) => {
            let v = chars_of(s.as_str());
            chars_eq_str(&v, "none")
        },
        None => false,
    }
}

/// The format a stream describes, if it has a usable URL.
pub fn stream_format(sf: &StreamingFormat, ua: &str) -> (r: Option<Format>)
    ensures
        match r {
            Some(f) => spec_stream_format(*sf, ua@) == Some(f@),
            None => spec_stream_format(*sf, ua@) is None,
        },
{
    let url = match &sf.url {
        Some(u) => u.clone(),
        None => match &sf.signature_cipher {
            Some(c) => match parse_cipher_url(c.as_str()) {
                Some(u) => u,
                None => {
                    return None;
                },
            },
            None => {
                return None;
            },
        },
    };
    let mime = chars_of(sf.mime_type.as_str());
    let ext = mime_to_ext(sf.mime_type.as_str());
    let is_video = starts_with_str(&mime, "video/");
    let is_audio = starts_with_str(&mime, "audio/");
    let (v0, a0) = parse_mime_codecs(sf.mime_type.as_str());
    let (vcodec, acodec): (Option<String>, Option<String>) = match (v0, a0) {
        (Some(v), Some(a)) => (Some(v), Some(a)),
        (Some(v), None) => if is_video {
            (Some(v), Some(String::from_str("none")))
        } else if is_audio {
            (Some(String::from_str("none")), Some(v))
        } else {
            (Some(v), None)
        },
        (None, Some(a)) => if is_audio {
            (Some(String::from_str("none")), Some(a))
        } else {
            (None, Some(a))
        },
        (None, None) => (None, None),
    };
    let v_named = crate::types::codec_named(&vcodec);
    let a_named = crate::types::codec_named(&acodec);
    let ext_chars = chars_of(ext);
    let final_ext = if is_audio && !is_none_str(&acodec) && !v_named {
        if chars_eq_str(&ext_chars, "mp4") {
            String::from_str("m4a")
        } else {
            String::from_str(ext)
        }
    } else {
        String::from_str(ext)
    };
    let rate = match sf.bitrate {
        Some(b) => Some(b),
        None => sf.average_bitrate,
    };
    let abr = if is_audio || a_named {
        rate
    } else {
        None
    };
    let vbr = if is_video && v_named {
        if is_audio || !a_named {
            rate
        } else {
            match sf.average_bitrate {
                Some(b) => Some(((b as u128) * 17 / 20) as u64),
                None => None,
            }
        }
    } else {
        None
    };
    let tbr = match sf.average_bitrate {
        Some(b) => Some(b),
        None => sf.bitrate,
    };
    let format_note = match &sf.quality_label {
        Some(q) => Some(q.clone()),
        None => match &sf.audio_quality {
            Some(q) => Some(audio_quality_note_exec(q)),
            None => None,
        },
    };
    let ms = opt_whole_parse(&sf.approx_duration_ms);
    let f = Format {
        format_id: u64_to_string(sf.itag as u64),
        format_note: format_note,
        url: url,
        manifest_url: None,
        ext: final_ext,
        width: sf.width,
        height: sf.height,
        fps: sf.fps,
        tbr: tbr,
        abr: abr,
        vbr: vbr,
        acodec: acodec,
        vcodec: vcodec,
        asr: opt_u32_parse(&sf.audio_sample_rate),
        audio_channels: sf.audio_channels,
        container: None,
        filesize: opt_u64_parse(&sf.content_length),
        filesize_approx: approx_size_exec(ms, tbr),
        protocol: String::from_str("https"),
        language: None,
        quality: Some(
            match sf.height {
                Some(h) => h,
                None => 0,
            },
        ),
        source_preference: None,
        has_drm: false,
        dynamic_range: dynamic_range_exec(&sf.color_info),
        http_headers: download_headers_exec(ua),
    };
    assert(f@ =~= spec_stream_format(*sf, ua@)->Some_0);
    Some(f)
}

/// Appends the formats of a list of streams.
fn push_stream_formats(out: &mut Vec<Format>, sfs: &Vec<StreamingFormat>, ua: &str)
    ensures
        formats_view(final(out)@) == formats_view(old(out)@) + stream_formats(sfs@, ua@),
{
    let ghost start = formats_view(out@);
    let mut i: usize = 0;
    assert(sfs@.take(0) =~= Seq::<StreamingFormat>::empty());
    assert(formats_view(out@) =~= start + stream_formats(sfs@.take(0), ua@));
    while i < sfs.len()
        invariant
            i <= sfs.len(),
            formats_view(out@) == start + stream_formats(sfs@.take(i as int), ua@),
        decreases sfs.len() - i,
    {
        let ghost before = formats_view(out@);
        proof {
            assert(sfs@.take(i + 1).drop_last() =~= sfs@.take(i as int));
            assert(sfs@.take(i + 1).last() == sfs@[i as int]);
        }
        match stream_format(&sfs[i], ua) {
            Some(f) => {
                out.push(f);
                assert(formats_view(out@) =~= before + seq![f@]);
                assert(start + stream_formats(sfs@.take(i + 1), ua@) =~= before + seq![f@]);
            },
            None => {
                assert(start + stream_formats(sfs@.take(i + 1), ua@) =~= before);
            },
        }
        i = i + 1;
    }
    assert(sfs@.take(sfs@.len() as int) =~= sfs@);
}

fn hls_format_exec(url: &String, ua: &str) -> (f: Format)
    ensures
        f@ == hls_format(url@, ua@),
{
    let mut headers: Vec<(String, String)> = Vec::new();
    headers.push((String::from_str("User-Agent"), String::from_str(ua)));
    let f = Format {
        format_id: String::from_str("hls-best"),
        format_note: Some(String::from_str("HLS best")),
        url: url.clone(),
        manifest_url: None,
        ext: String::from_str("mp4"),
        width: None,
        height: None,
        fps: None,
        tbr: None,
        abr: None,
        vbr: None,
        acodec: Some(String::from_str("mp4a")),
        vcodec: Some(String::from_str("avc1")),
        asr: None,
        audio_channels: None,
        container: None,
        filesize: None,
        filesize_approx: None,
        protocol: String::from_str("hls"),
        language: None,
        quality: Some(720),
        source_preference: None,
        has_drm: false,
        dynamic_range: None,
        http_headers: headers,
    };
    assert(f@ =~= hls_format(url@, ua@));
    f
}

/// The formats the streaming data offers.
pub fn parse_formats(sd: &StreamingData, download_ua: &str) -> (r: Vec<Format>)
    ensures
        formats_view(r@) == spec_parse_formats(*sd, download_ua@),
{
    let mut out: Vec<Format> = Vec::new();
    match &sd.formats {
        Some(v) => push_stream_formats(&mut out, v, download_ua),
        None => {},
    }
    let ghost after_muxed = formats_view(out@);
    match &sd.adaptive_formats {
        Some(v) => push_stream_formats(&mut out, v, download_ua),
        None => {},
    }
    proof {
        lemma_stream_formats_append(opt_streams(sd.formats), opt_streams(sd.adaptive_formats), download_ua@);
        assert(stream_formats(Seq::<StreamingFormat>::empty(), download_ua@) =~= Seq::<FormatView>::empty());
        assert(formats_view(Seq::<Format>::empty()) =~= Seq::<FormatView>::empty());
        assert(formats_view(out@) =~= stream_formats(
            opt_streams(sd.formats) + opt_streams(sd.adaptive_formats),
            download_ua@,
        ));
    }
    let ghost before = formats_view(out@);
    match &sd.hls_manifest_url {
        Some(u) => {
            let f = hls_format_exec(u, download_ua);
            out.push(f);
            assert(formats_view(out@) =~= before + seq![hls_format(u@, download_ua@)]);
        },
        None => {
            assert(formats_view(out@) =~= before + Seq::<FormatView>::empty());
        },
    }
    out
}


// ───────────────────────── video information ─────────────────────────

/// Why the player response yields no video.
#[derive(Debug)]
pub enum ExtractError {
    LoginRequired(String),
    Unplayable(String),
    VideoError(String),
    UnexpectedStatus(String),
    NoVideoDetails,
    NoFormats,
}

pub enum SpecExtractError {
    LoginRequired(Seq<char>),
    Unplayable(Seq<char>),
    VideoError(Seq<char>),
    UnexpectedStatus(Seq<char>),
    NoVideoDetails,
    NoFormats,
}

impl View for ExtractError {
    type V = SpecExtractError;

    open spec fn view(&self) -> SpecExtractError {
        match self {
            ExtractError::LoginRequired(s) => SpecExtractError::LoginRequired(s@),
            ExtractError::Unplayable(s) => SpecExtractError::Unplayable(s@),
            ExtractError::VideoError(s) => SpecExtractError::VideoError(s@),
            ExtractError::UnexpectedStatus(s) => SpecExtractError::UnexpectedStatus(s@),
            ExtractError::NoVideoDetails => SpecExtractError::NoVideoDetails,
            ExtractError::NoFormats => SpecExtractError::NoFormats,
        }
    }
}

impl ExtractError {
    /// The message the command line prints for this error.
    pub fn message(&self) -> (m: String)
        ensures
            m@ == match self@ {
                SpecExtractError::LoginRequired(r) => "This video requires login. Reason: "@ + r,
                SpecExtractError::Unplayable(r) => "Video is unplayable: "@ + r,
                SpecExtractError::VideoError(r) => "Video error: "@ + r,
                SpecExtractError::UnexpectedStatus(s) => "Unexpected playability status: "@ + s,
                SpecExtractError::NoVideoDetails => "No video details in response"@,
                SpecExtractError::NoFormats =>
                    "No downloadable formats found. The video may be age-restricted or unavailable."@,
            },
    {
        let (head, tail): (&str, Option<&String>) = match self {
            ExtractError::LoginRequired(r) => ("This video requires login. Reason: ", Some(r)),
            ExtractError::Unplayable(r) => ("Video is unplayable: ", Some(r)),
            ExtractError::VideoError(r) => ("Video error: ", Some(r)),
            ExtractError::UnexpectedStatus(s) => ("Unexpected playability status: ", Some(s)),
            ExtractError::NoVideoDetails => ("No video details in response", None),
            ExtractError::NoFormats => (
                "No downloadable formats found. The video may be age-restricted or unavailable.",
                None,
            ),
        };
        let mut v = chars_of(head);
        match tail {
            Some(t) => {
                let w = chars_of(t.as_str());
                append_chars(&mut v, &w);
            },
            None => {},
        }
        string_from(&v)
    }
}

pub open spec fn reason_or(r: Option<String>, d: Seq<char>) -> Seq<char> {
    match r {
        Some(s) => s@,
        None => d,
    }
}

/// The error a playability status stands for, if any.
pub open spec fn playability_error(player: PlayerResponse) -> Option<SpecExtractError> {
    match player.playability_status {
        None => None,
        Some(ps) => {
            let s = ps.status@;
            if s == "OK"@ {
                None
            } else if s == "LOGIN_REQUIRED"@ {
                Some(SpecExtractError::LoginRequired(reason_or(ps.reason, "unknown"@)))
            } else if s == "UNPLAYABLE"@ {
                Some(SpecExtractError::Unplayable(reason_or(ps.reason, "unknown"@)))
            } else if s == "ERROR"@ || s == "CONTENT_CHECK_REQUIRED"@ {
                Some(SpecExtractError::VideoError(reason_or(ps.reason, s)))
            } else {
                Some(SpecExtractError::UnexpectedStatus(s))
            }
        },
    }
}

pub open spec fn player_formats(player: PlayerResponse, ua: Seq<char>) -> Seq<FormatView> {
    match player.streaming_data {
        Some(sd) => spec_parse_formats(sd, ua),
        None => Seq::empty(),
    }
}

/// Why the player response yields no video, checked in this order:
/// playability, video details, formats.
pub open spec fn extract_failure(player: PlayerResponse, ua: Seq<char>) -> Option<SpecExtractError> {
    match playability_error(player) {
        Some(e) => Some(e),
        None => match player.video_details {
            None => Some(SpecExtractError::NoVideoDetails),
            Some(_) => if player_formats(player, ua).len() == 0 {
                Some(SpecExtractError::NoFormats)
            } else {
                None
            },
        },
    }
}

pub open spec fn renderer(player: PlayerResponse) -> Option<PlayerMicroformatRenderer> {
    match player.microformat {
        Some(m) => m.player_microformat_renderer,
        None => None,
    }
}

/// The upload date (else the publish date) of the microformat.
pub open spec fn player_date(player: PlayerResponse) -> Option<Seq<char>> {
    match renderer(player) {
        Some(r) => match r.upload_date {
            Some(d) => Some(d@),
            None => opt_view(r.publish_date),
        },
        None => None,
    }
}

/// Reading the date would cut through a character.
pub open spec fn player_date_splits(player: PlayerResponse) -> bool {
    match player_date(player) {
        Some(d) => date_splits_char(d),
        None => false,
    }
}

pub open spec fn spec_thumbnails(items: Seq<ThumbnailItem>) -> Seq<ThumbnailView> {
    Seq::new(
        items.len(),
        |i: int|
            ThumbnailView {
                url: items[i].url@,
                width: items[i].width,
                height: items[i].height,
                id: Some(decimal(i as nat)),
                preference: Some(i as i32),
            },
    )
}

pub open spec fn player_thumbnails(vd: VideoDetails) -> Seq<ThumbnailView> {
    match vd.thumbnail {
        Some(tl) => spec_thumbnails(tl.thumbnails@),
        None => Seq::empty(),
    }
}

// Subtitles.

pub open spec fn track_lang(t: CaptionTrack) -> Seq<char> {
    reason_or(t.language_code, "und"@)
}

pub open spec fn track_is_auto(t: CaptionTrack) -> bool {
    match t.vss_id {
        Some(v) => v@.len() > 0 && v@[0] == 'a',
        None => false,
    }
}

pub open spec fn track_subtitle(t: CaptionTrack, ext: Seq<char>) -> SubtitleView {
    SubtitleView { url: t.base_url@ + "&fmt="@ + ext, ext: ext, name: opt_view(t.name_simple) }
}

/// The subtitle files of a track: WebVTT, SRV1 and TTML.
pub open spec fn track_subtitles(t: CaptionTrack) -> Seq<SubtitleView> {
    seq![track_subtitle(t, "vtt"@), track_subtitle(t, "srv1"@), track_subtitle(t, "ttml"@)]
}

pub open spec fn key_index(t: Seq<(Seq<char>, Seq<SubtitleView>)>, lang: Seq<char>) -> Option<int>
    decreases t.len(),
{
    if t.len() == 0 {
        None
    } else {
        match key_index(t.drop_last(), lang) {
            Some(k) => Some(k),
            None => if t.last().0 == lang {
                Some(t.len() - 1)
            } else {
                None
            },
        }
    }
}

/// A table with subtitles added under a language.
pub open spec fn add_to_table(
    t: Seq<(Seq<char>, Seq<SubtitleView>)>,
    lang: Seq<char>,
    subs: Seq<SubtitleView>,
) -> Seq<(Seq<char>, Seq<SubtitleView>)> {
    match key_index(t, lang) {
        Some(k) => t.update(k, (lang, t[k].1 + subs)),
        None => t.push((lang, subs)),
    }
}

/// The (manual, automatic) subtitle tables of a list of caption tracks.
pub open spec fn subtitle_tables(tracks: Seq<CaptionTrack>) -> (
    Seq<(Seq<char>, Seq<SubtitleView>)>,
    Seq<(Seq<char>, Seq<SubtitleView>)>,
)
    decreases tracks.len(),
{
    if tracks.len() == 0 {
        (Seq::empty(), Seq::empty())
    } else {
        let prev = subtitle_tables(tracks.drop_last());
        let t = tracks.last();
        if track_is_auto(t) {
            (prev.0, add_to_table(prev.1, track_lang(t), track_subtitles(t)))
        } else {
            (add_to_table(prev.0, track_lang(t), track_subtitles(t)), prev.1)
        }
    }
}

pub open spec fn player_tracks(player: PlayerResponse) -> Seq<CaptionTrack> {
    match player.captions {
        Some(c) => match c.player_captions_tracklist_renderer {
            Some(r) => match r.caption_tracks {
                Some(ts) => ts@,
                None => Seq::empty(),
            },
            None => Seq::empty(),
        },
        None => Seq::empty(),
    }
}

/// Everything the player response says of the video, field by field.
pub open spec fn info_from_player(
    info: VideoInfo,
    video_id: Seq<char>,
    player: PlayerResponse,
    ua: Seq<char>,
) -> bool {
    let vd = player.video_details->Some_0;
    let thumbs = player_thumbnails(vd);
    let tables = subtitle_tables(player_tracks(player));
    &&& info.id@ == video_id
    &&& info.title@ == vd.title@
    &&& info.webpage_url@ == "https://www.youtube.com/watch?v="@ + video_id
    &&& info.extractor@ == "youtube"@
    &&& opt_view(info.description) == opt_view(vd.short_description)
    &&& info.duration == parsed_whole(vd.length_seconds)
    &&& opt_view(info.uploader) == opt_view(vd.author)
    &&& info.uploader_id is None
    &&& opt_view(info.channel) == opt_view(vd.author)
    &&& opt_view(info.channel_id) == opt_view(vd.channel_id)
    &&& opt_view(info.channel_url) == match vd.channel_id {
        Some(c) => Some("https://www.youtube.com/channel/"@ + c@),
        None => None,
    }
    &&& info.view_count == parsed_u64(vd.view_count)
    &&& info.like_count is None
    &&& info.comment_count is None
    &&& opt_view(info.upload_date) == match player_date(player) {
        Some(d) => spec_parse_upload_date(d),
        None => None,
    }
    &&& info.timestamp is None
    &&& opt_view(info.thumbnail) == Some(
        if thumbs.len() > 0 {
            thumbs.last().url
        } else {
            "https://i.ytimg.com/vi/"@ + video_id + "/maxresdefault.jpg"@
        },
    )
    &&& thumbs_view(info.thumbnails@) == thumbs
    &&& formats_view(info.formats@) == player_formats(player, ua)
    &&& table_view(info.subtitles@) == tables.0
    &&& table_view(info.automatic_captions@) == tables.1
    &&& strings_view(info.tags@) == match vd.keywords {
        Some(k) => strings_view(k@),
        None => Seq::empty(),
    }
    &&& strings_view(info.categories@) == match renderer(player) {
        Some(r) => match r.category {
            Some(c) => seq![c@],
            None => Seq::empty(),
        },
        None => Seq::empty(),
    }
    &&& info.age_limit == Some(
        if vd.is_crawlable == Some(false) {
            18u8
        } else {
            0u8
        },
    )
    &&& info.is_live == Some(vd.is_live_content == Some(true))
    &&& opt_view(info.live_status) == Some(
        if vd.is_live_content == Some(true) {
            "is_live"@
        } else {
            "not_live"@
        },
    )
    &&& info.playlist is None && info.playlist_id is None && info.playlist_title is None
    &&& info.playlist_uploader is None && info.playlist_index is None
    &&& info.playlist_count is None && info.n_entries is None && info.availability is None
}

fn playability_check(player: &PlayerResponse) -> (r: Result<(), ExtractError>)
    ensures
        match r {
            Ok(_) => playability_error(*player) is None,
            Err(e) => playability_error(*player) == Some(e@),
        },
{
    match &player.playability_status {
        None => Ok(()),
        Some(ps) => {
            let s = chars_of(ps.status.as_str());
            let reason_or = |d: &str| -> (r: String)
                ensures
                    r@ == reason_or(ps.reason, d@),
                {
                    match &ps.reason {
                        Some(r) => r.clone(),
                        None => String::from_str(d),
                    }
                };
            if chars_eq_str(&s, "OK") {
                Ok(())
            } else if chars_eq_str(&s, "LOGIN_REQUIRED") {
                Err(ExtractError::LoginRequired(reason_or("unknown")))
            } else if chars_eq_str(&s, "UNPLAYABLE") {
                Err(ExtractError::Unplayable(reason_or("unknown")))
            } else if chars_eq_str(&s, "ERROR") || chars_eq_str(&s, "CONTENT_CHECK_REQUIRED") {
                let r = match &ps.reason {
                    Some(r) => r.clone(),
                    None => ps.status.clone(),
                };
                Err(ExtractError::VideoError(r))
            } else {
                Err(ExtractError::UnexpectedStatus(ps.status.clone()))
            }
        },
    }
}

fn build_thumbnails(items: &Vec<ThumbnailItem>) -> (r: Vec<Thumbnail>)
    ensures
        thumbs_view(r@) == spec_thumbnails(items@),
{
    let mut out: Vec<Thumbnail> = Vec::new();
    let mut i: usize = 0;
    while i < items.len()
        invariant
            i <= items.len(),
            thumbs_view(out@) == spec_thumbnails(items@).take(i as int),
        decreases items.len() - i,
    {
        let t = Thumbnail {
            url: items[i].url.clone(),
            width: items[i].width,
            height: items[i].height,
            id: Some(u64_to_string(i as u64)),
            preference: Some(i as i32),
        };
        let ghost before = thumbs_view(out@);
        assert(t.url@ == items@[i as int].url@);
        assert(opt_view(t.id) == Some(decimal(i as nat)));
        assert(t.preference == Some((i as int) as i32));
        assert(t@ == spec_thumbnails(items@)[i as int]);
        let ghost tv = t@;
        out.push(t);
        assert(thumbs_view(out@) =~= before.push(tv));
        assert(thumbs_view(out@) =~= spec_thumbnails(items@).take(i + 1));
        i = i + 1;
    }
    assert(spec_thumbnails(items@).take(items@.len() as int) =~= spec_thumbnails(items@));
    out
}

fn make_subtitle(t: &CaptionTrack, ext: &str) -> (s: Subtitle)
    ensures
        s@ == track_subtitle(*t, ext@),
{
    let mut url = chars_of(t.base_url.as_str());
    append_str(&mut url, "&fmt=");
    append_str(&mut url, ext);
    let s = Subtitle {
        url: string_from(&url),
        ext: String::from_str(ext),
        name: clone_opt_string(&t.name_simple),
    };
    assert(s@ =~= track_subtitle(*t, ext@));
    s
}

fn track_subtitles_exec(t: &CaptionTrack) -> (v: Vec<Subtitle>)
    ensures
        subs_view(v@) == track_subtitles(*t),
{
    let mut v: Vec<Subtitle> = Vec::new();
    v.push(make_subtitle(t, "vtt"));
    v.push(make_subtitle(t, "srv1"));
    v.push(make_subtitle(t, "ttml"));
    assert(subs_view(v@) =~= track_subtitles(*t));
    v
}

pub proof fn lemma_key_index(t: Seq<(Seq<char>, Seq<SubtitleView>)>, lang: Seq<char>)
    ensures
        key_index(t, lang) matches Some(k) ==> 0 <= k < t.len() && t[k].0 == lang,
        key_index(t, lang) is None ==> forall|j: int| 0 <= j < t.len() ==> t[j].0 != lang,
    decreases t.len(),
{
    if t.len() > 0 {
        lemma_key_index(t.drop_last(), lang);
        assert forall|j: int| 0 <= j < t.len() - 1 implies t[j] == t.drop_last()[j] by {}
    }
}

pub proof fn lemma_key_index_first(t: Seq<(Seq<char>, Seq<SubtitleView>)>, lang: Seq<char>, k: int)
    requires
        0 <= k < t.len(),
        t[k].0 == lang,
        forall|j: int| 0 <= j < k ==> t[j].0 != lang,
    ensures
        key_index(t, lang) == Some(k),
    decreases t.len(),
{
    if k < t.len() - 1 {
        lemma_key_index_first(t.drop_last(), lang, k);
    } else {
        lemma_key_index(t.drop_last(), lang);
        if key_index(t.drop_last(), lang) is Some {
            let m = key_index(t.drop_last(), lang)->0;
            assert(t[m] == t.drop_last()[m]);
        }
    }
}

/// Each language appears once in a table.
pub open spec fn unique_langs(t: Seq<(Seq<char>, Seq<SubtitleView>)>) -> bool {
    forall|i: int, j: int| 0 <= i < j < t.len() ==> #[trigger] t[i].0 != #[trigger] t[j].0
}

proof fn lemma_add_keeps_unique(t: Seq<(Seq<char>, Seq<SubtitleView>)>, lang: Seq<char>, subs: Seq<SubtitleView>)
    requires
        unique_langs(t),
    ensures
        unique_langs(add_to_table(t, lang, subs)),
        add_to_table(t, lang, subs).len() >= t.len(),
{
    lemma_key_index(t, lang);
    let r = add_to_table(t, lang, subs);
    match key_index(t, lang) {
        Some(k) => {
            assert forall|i: int, j: int| 0 <= i < j < r.len() implies #[trigger] r[i].0 != #[trigger] r[j].0 by {
                assert(r[i].0 == t[i].0 && r[j].0 == t[j].0);
            }
        },
        None => {
            assert forall|i: int, j: int| 0 <= i < j < r.len() implies #[trigger] r[i].0 != #[trigger] r[j].0 by {
                if j < t.len() {
                    assert(r[i] == t[i] && r[j] == t[j]);
                } else {
                    assert(r[i] == t[i] && r[j].0 == lang);
                }
            }
        },
    }
}

/// The subtitle tables built from caption tracks list each language once,
/// however many tracks share it.
pub proof fn law_subtitle_languages_unique(tracks: Seq<CaptionTrack>)
    ensures
        unique_langs(subtitle_tables(tracks).0),
        unique_langs(subtitle_tables(tracks).1),
    decreases tracks.len(),
{
    if tracks.len() > 0 {
        law_subtitle_languages_unique(tracks.drop_last());
        let prev = subtitle_tables(tracks.drop_last());
        let t = tracks.last();
        lemma_add_keeps_unique(prev.0, track_lang(t), track_subtitles(t));
        lemma_add_keeps_unique(prev.1, track_lang(t), track_subtitles(t));
    }
}

fn add_subtitles(table: &mut Vec<(String, Vec<Subtitle>)>, lang: String, subs: Vec<Subtitle>)
    ensures
        table_view(final(table)@) == add_to_table(table_view(old(table)@), lang@, subs_view(subs@)),
{
    let ghost t0 = table_view(table@);
    let mut k: usize = 0;
    while k < table.len()
        invariant
            k <= table.len(),
            t0 == table_view(table@),
            t0 == table_view(old(table)@),
            forall|j: int| 0 <= j < k ==> t0[j].0 != lang@,
        decreases table.len() - k,
    {
        if table[k].0 == lang {
            proof {
                lemma_key_index_first(t0, lang@, k as int);
            }
            let (l, mut existing) = table.remove(k);
            let mut more = subs;
            let ghost old_existing = subs_view(existing@);
            let ghost added = subs_view(more@);
            existing.append(&mut more);
            assert(subs_view(existing@) =~= old_existing + added);
            table.insert(k, (l, existing));
            assert(table_view(table@) =~= t0.update(k as int, (lang@, t0[k as int].1 + added)));
            return;
        }
        k = k + 1;
    }
    proof {
        lemma_key_index(t0, lang@);
        if key_index(t0, lang@) is Some {
            let m = key_index(t0, lang@)->0;
            assert(t0[m].0 != lang@);
        }
    }
    let ghost sv = subs_view(subs@);
    table.push((lang, subs));
    assert(table_view(table@) =~= t0.push((lang@, sv)));
}

fn build_subtitle_tables(tracks: &Vec<CaptionTrack>) -> (r: (
    Vec<(String, Vec<Subtitle>)>,
    Vec<(String, Vec<Subtitle>)>,
))
    ensures
        (table_view(r.0@), table_view(r.1@)) == subtitle_tables(tracks@),
{
    let mut manual: Vec<(String, Vec<Subtitle>)> = Vec::new();
    let mut auto: Vec<(String, Vec<Subtitle>)> = Vec::new();
    let mut i: usize = 0;
    assert(tracks@.take(0) =~= Seq::<CaptionTrack>::empty());
    assert(table_view(manual@) =~= Seq::<(Seq<char>, Seq<SubtitleView>)>::empty());
    assert(table_view(auto@) =~= Seq::<(Seq<char>, Seq<SubtitleView>)>::empty());
    while i < tracks.len()
        invariant
            i <= tracks.len(),
            (table_view(manual@), table_view(auto@)) == subtitle_tables(tracks@.take(i as int)),
        decreases tracks.len() - i,
    {
        let t = &tracks[i];
        proof {
            assert(tracks@.take(i + 1).drop_last() =~= tracks@.take(i as int));
            assert(tracks@.take(i + 1).last() == tracks@[i as int]);
        }
        let lang = match &t.language_code {
            Some(l) => l.clone(),
            None => String::from_str("und"),
        };
        let is_auto = match &t.vss_id {
            Some(v) => {
                let c = chars_of(v.as_str());
                c.len() > 0 && c[0] == 'a'
            },
            None => false,
        };
        let subs = track_subtitles_exec(t);
        if is_auto {
            add_subtitles(&mut auto, lang, subs);
        } else {
            add_subtitles(&mut manual, lang, subs);
        }
        i = i + 1;
    }
    assert(tracks@.take(tracks@.len() as int) =~= tracks@);
    (manual, auto)
}

fn clone_strings(v: &Vec<String>) -> (r: Vec<String>)
    ensures
        strings_view(r@) == strings_view(v@),
{
    let mut r: Vec<String> = Vec::new();
    let mut i: usize = 0;
    while i < v.len()
        invariant
            i <= v.len(),
            strings_view(r@) == strings_view(v@.take(i as int)),
        decreases v.len() - i,
    {
        let ghost before = strings_view(r@);
        let c = v[i].clone();
        assert(c@ == v@[i as int]@);
        r.push(c);
        assert(strings_view(r@) =~= before.push(v@[i as int]@));
        assert(strings_view(v@.take(i + 1)) =~= strings_view(v@.take(i as int)).push(v@[i as int]@));
        i = i + 1;
    }
    assert(v@.take(v@.len() as int) =~= v@);
    r
}

fn player_date_exec(player: &PlayerResponse) -> (r: Option<&String>)
    ensures
        match r {
            Some(d) => player_date(*player) == Some(d@),
            None => player_date(*player) is None,
        },
{
    match &player.microformat {
        Some(m) => match &m.player_microformat_renderer {
            Some(r) => match &r.upload_date {
                Some(d) => Some(d),
                None => match &r.publish_date {
                    Some(d) => Some(d),
                    None => None,
                },
            },
            None => None,
        },
        None => None,
    }
}

/// Whether reading the microformat's date would cut through a character.
pub fn player_date_would_split(player: &PlayerResponse) -> (b: bool)
    ensures
        b == player_date_splits(*player),
{
    match player_date_exec(player) {
        Some(d) => date_would_split(d.as_str()),
        None => false,
    }
}

/// The video information that a player response gives, before the watch page
/// adds to it; or why it gives none.
pub fn video_info_from_player(video_id: &str, player: &PlayerResponse, download_ua: &str) -> (r:
    Result<VideoInfo, ExtractError>)
    requires
        extract_failure(*player, download_ua@) is Some || !player_date_splits(*player),
    ensures
        match r {
            Ok(info) => extract_failure(*player, download_ua@) is None && info_from_player(
                info,
                video_id@,
                *player,
                download_ua@,
            ),
            Err(e) => extract_failure(*player, download_ua@) == Some(e@),
        },
{
    match playability_check(player) {
        Ok(_) => {},
        Err(e) => {
            return Err(e);
        },
    }
    let vd = match &player.video_details {
        Some(vd) => vd,
        None => {
            return Err(ExtractError::NoVideoDetails);
        },
    };
    let duration = opt_whole_parse(&vd.length_seconds);
    let formats = match &player.streaming_data {
        Some(sd) => parse_formats(sd, download_ua),
        None => Vec::new(),
    };
    if formats.len() == 0 {
        return Err(ExtractError::NoFormats);
    }
    let thumbnails = match &vd.thumbnail {
        Some(tl) => build_thumbnails(&tl.thumbnails),
        None => Vec::new(),
    };
    let n = thumbnails.len();
    let best_thumbnail = if n > 0 {
        thumbnails[n - 1].url.clone()
    } else {
        let mut v = chars_of("https://i.ytimg.com/vi/");
        append_str(&mut v, video_id);
        append_str(&mut v, "/maxresdefault.jpg");
        string_from(&v)
    };
    let tracks_empty: Vec<CaptionTrack> = Vec::new();
    let tracks = match &player.captions {
        Some(c) => match &c.player_captions_tracklist_renderer {
            Some(r) => match &r.caption_tracks {
                Some(ts) => ts,
                None => &tracks_empty,
            },
            None => &tracks_empty,
        },
        None => &tracks_empty,
    };
    let (subtitles, auto_captions) = build_subtitle_tables(tracks);
    let upload_date = match player_date_exec(player) {
        Some(d) => parse_upload_date(d.as_str()),
        None => None,
    };
    let mut categories: Vec<String> = Vec::new();
    match &player.microformat {
        Some(m) => match &m.player_microformat_renderer {
            Some(r) => match &r.category {
                Some(c) => categories.push(c.clone()),
                None => {},
            },
            None => {},
        },
        None => {},
    }
    let view_count = opt_u64_parse(&vd.view_count);
    let channel_url = match &vd.channel_id {
        Some(id) => {
            let mut v = chars_of("https://www.youtube.com/channel/");
            append_str(&mut v, id.as_str());
            Some(string_from(&v))
        },
        None => None,
    };
    let tags = match &vd.keywords {
        Some(k) => clone_strings(k),
        None => Vec::new(),
    };
    let live = match vd.is_live_content {
        Some(b) => b,
        None => false,
    };
    let mut webpage_url = chars_of("https://www.youtube.com/watch?v=");
    append_str(&mut webpage_url, video_id);
    let info = VideoInfo {
        id: String::from_str(video_id),
        title: vd.title.clone(),
        webpage_url: string_from(&webpage_url),
        extractor: String::from_str("youtube"),
        description: clone_opt_string(&vd.short_description),
        duration: duration,
        uploader: clone_opt_string(&vd.author),
        uploader_id: None,
        channel: clone_opt_string(&vd.author),
        channel_id: clone_opt_string(&vd.channel_id),
        channel_url: channel_url,
        view_count: view_count,
        like_count: None,
        comment_count: None,
        upload_date: upload_date,
        timestamp: None,
        thumbnail: Some(best_thumbnail),
        thumbnails: thumbnails,
        formats: formats,
        subtitles: subtitles,
        automatic_captions: auto_captions,
        tags: tags,
        categories: categories,
        age_limit: Some(
            if vd.is_crawlable == Some(false) {
                18
            } else {
                0
            },
        ),
        is_live: Some(live),
        live_status: Some(
            if live {
                String::from_str("is_live")
            } else {
                String::from_str("not_live")
            },
        ),
        playlist: None,
        playlist_id: None,
        playlist_title: None,
        playlist_uploader: None,
        playlist_index: None,
        playlist_count: None,
        n_entries: None,
        availability: None,
    };
    proof {
        let vdv = player.video_details->Some_0;
        let thumbs = player_thumbnails(vdv);
        if thumbs.len() > 0 {
            assert(thumbs.last() == thumbs_view(info.thumbnails@)[n - 1]);
        }
        assert(strings_view(info.categories@) =~= match renderer(*player) {
            Some(r) => match r.category {
                Some(c) => seq![c@],
                None => Seq::<Seq<char>>::empty(),
            },
            None => Seq::<Seq<char>>::empty(),
        });
        assert(strings_view(info.tags@) =~= match vdv.keywords {
            Some(k) => strings_view(k@),
            None => Seq::<Seq<char>>::empty(),
        });
        assert(tracks@ == player_tracks(*player));
        let tables = subtitle_tables(player_tracks(*player));
        assert(info.id@ == video_id@);
        assert(info.title@ == vdv.title@);
        assert(info.webpage_url@ == "https://www.youtube.com/watch?v="@ + video_id@);
        assert(info.extractor@ == "youtube"@);
        assert(opt_view(info.description) == opt_view(vdv.short_description));
        assert(info.duration == parsed_whole(vdv.length_seconds));
        assert(opt_view(info.uploader) == opt_view(vdv.author));
        assert(opt_view(info.channel) == opt_view(vdv.author));
        assert(opt_view(info.channel_id) == opt_view(vdv.channel_id));
        assert(info.view_count == parsed_u64(vdv.view_count));
        assert(opt_view(info.upload_date) == match player_date(*player) {
            Some(d) => spec_parse_upload_date(d),
            None => None,
        });
        assert(thumbs_view(info.thumbnails@) == thumbs);
        assert(formats_view(info.formats@) == player_formats(*player, download_ua@));
        assert(table_view(info.subtitles@) == tables.0);
        assert(table_view(info.automatic_captions@) == tables.1);
        assert(info.is_live == Some(vdv.is_live_content == Some(true)));
    }
    Ok(info)
}

/// Like [`video_info_from_player`], but `None` where reading the upload
/// date would cut through a character (and nothing failed before).
pub fn try_video_info_from_player(video_id: &str, player: &PlayerResponse, download_ua: &str) -> (r:
    Option<Result<VideoInfo, ExtractError>>)
    ensures
        match r {
            None => extract_failure(*player, download_ua@) is None && player_date_splits(*player),
            Some(Ok(info)) => extract_failure(*player, download_ua@) is None && info_from_player(
                info,
                video_id@,
                *player,
                download_ua@,
            ),
            Some(Err(e)) => extract_failure(*player, download_ua@) == Some(e@),
        },
{
    if player_date_would_split(player) {
        match playability_check(player) {
            Ok(_) => {},
            Err(e) => {
                return Some(Err(e));
            },
        }
        let formats = match &player.video_details {
            Some(_) => match &player.streaming_data {
                Some(sd) => parse_formats(sd, download_ua),
                None => Vec::new(),
            },
            None => {
                return Some(Err(ExtractError::NoVideoDetails));
            },
        };
        if formats.len() == 0 {
            return Some(Err(ExtractError::NoFormats));
        }
        None
    } else {
        Some(video_info_from_player(video_id, player, download_ua))
    }
}

/// Adds what the watch page tells to the video information: the like count,
/// and the channel URL when the page links one.
pub fn apply_webpage_info(info: &mut VideoInfo, webpage: Option<WebpageInfo>)
    ensures
        *final(info) == (VideoInfo {
            like_count: match webpage {
                Some(w) => w.like_count,
                None => None,
            },
            channel_url: match webpage {
                Some(w) => match w.channel_url {
                    Some(u) => Some(u),
                    None => old(info).channel_url,
                },
                None => old(info).channel_url,
            },
            ..*old(info)
        }),
{
    match webpage {
        Some(w) => {
            info.like_count = w.like_count;
            match w.channel_url {
                Some(u) => {
                    info.channel_url = Some(u);
                },
                None => {},
            }
        },
        None => {
            info.like_count = None;
        },
    }
}

/// A player response counts when it is playable (`OK`, or no status) and has
/// streams or a manifest.
pub open spec fn has_streams(player: PlayerResponse) -> bool {
    match player.streaming_data {
        Some(sd) => (match sd.formats {
            Some(f) => f@.len() > 0,
            None => false,
        }) || (match sd.adaptive_formats {
            Some(f) => f@.len() > 0,
            None => false,
        }) || sd.hls_manifest_url is Some || sd.dash_manifest_url is Some,
        None => false,
    }
}

pub open spec fn status_of(player: PlayerResponse) -> Seq<char> {
    match player.playability_status {
        Some(ps) => ps.status@,
        None => "OK"@,
    }
}

/// Whether a player response is usable, and if not, the reason to report:
/// the status's reason, else the lack of streams, else the status.
pub open spec fn spec_player_verdict(player: PlayerResponse) -> Result<(), Seq<char>> {
    if status_of(player) == "OK"@ && has_streams(player) {
        Ok(())
    } else {
        Err(
            match player.playability_status {
                Some(ps) => match ps.reason {
                    Some(r) => r@,
                    None => if !has_streams(player) {
                        "No streaming formats returned"@
                    } else {
                        status_of(player)
                    },
                },
                None => if !has_streams(player) {
                    "No streaming formats returned"@
                } else {
                    status_of(player)
                },
            },
        )
    }
}

/// Judges one player response while trying the InnerTube clients in turn.
pub fn player_verdict(player: &PlayerResponse) -> (r: Result<(), String>)
    ensures
        match r {
            Ok(_) => spec_player_verdict(*player) is Ok,
            Err(e) => spec_player_verdict(*player) == Err::<(), Seq<char>>(e@),
        },
{
    let status = match &player.playability_status {
        Some(ps) => ps.status.clone(),
        None => String::from_str("OK"),
    };
    let streams_present: bool = match &player.streaming_data {
        Some(sd) => (match &sd.formats {
            Some(f) => f.len() > 0,
            None => false,
        }) || (match &sd.adaptive_formats {
            Some(f) => f.len() > 0,
            None => false,
        }) || sd.hls_manifest_url.is_some() || sd.dash_manifest_url.is_some(),
        None => false,
    };
    let sv = chars_of(status.as_str());
    if chars_eq_str(&sv, "OK") && streams_present {
        return Ok(());
    }
    let fallback = if streams_present {
        status
    } else {
        String::from_str("No streaming formats returned")
    };
    match &player.playability_status {
        Some(ps) => match &ps.reason {
            Some(r) => Err(r.clone()),
            None => Err(fallback),
        },
        None => Err(fallback),
    }
}

/// A stream with a URL (given, or inside its `signatureCipher`) always
/// yields a format, and the format carries the stream over unchanged: its
/// id is the itag in decimal, its URL is the stream's URL, and its width,
/// height, frame rate and channel count are the stream's own; its total bit
/// rate is the average bit rate when there is one, else the peak bit rate;
/// it is never marked as DRM-protected; its quality is its height (0 when
/// unknown); it is fetched over HTTPS with the given user agent and the
/// YouTube referer; its size is the stream's content length and its sample
/// rate the stream's sample rate, each read as a number; and its note is the
/// stream's quality label when it has one.
pub proof fn law_stream_fields_carried_over(sf: StreamingFormat, ua: Seq<char>)
    requires
        stream_url(sf) is Some,
    ensures
        match spec_stream_format(sf, ua) {
            Some(f) => {
                &&& f.format_id == decimal(sf.itag as nat)
                &&& Some(f.url) == stream_url(sf)
                &&& f.width == sf.width
                &&& f.height == sf.height
                &&& f.fps == sf.fps
                &&& f.audio_channels == sf.audio_channels
                &&& f.tbr == (match sf.average_bitrate {
                    Some(b) => Some(b),
                    None => sf.bitrate,
                })
                &&& !f.has_drm
                &&& f.quality == Some(
                    match sf.height {
                        Some(h) => h,
                        None => 0u32,
                    },
                )
                &&& f.protocol == "https"@
                &&& f.filesize == match sf.content_length {
                    Some(c) => parse_u64(c@),
                    None => None,
                }
                &&& f.http_headers == seq![("User-Agent"@, ua), ("Referer"@, "https://www.youtube.com/"@)]
                &&& f.asr == match sf.audio_sample_rate {
                    Some(r) => parse_u32(r@),
                    None => None,
                }
                &&& (sf.quality_label matches Some(q) ==> f.format_note == Some(q@))
            },
            None => false,
        },
{
}

/// An answer is usable exactly when it is playable (its status is `OK`, or
/// it has none) and it offers something to download: a non-empty list of
/// formats, a non-empty list of adaptive formats, an HLS manifest or a DASH
/// manifest. Any one of these is enough. An answer that is not usable is
/// refused with the reason it gives; without one, with "No streaming formats
/// returned" when it offers nothing, else with its status.
pub proof fn law_usable_answers(player: PlayerResponse)
    ensures
        ({
            let playable = match player.playability_status {
                Some(ps) => ps.status@ == "OK"@,
                None => true,
            };
            let offers = match player.streaming_data {
                Some(sd) => {
                    ||| (sd.formats matches Some(f) && f@.len() > 0)
                    ||| (sd.adaptive_formats matches Some(f) && f@.len() > 0)
                    ||| sd.hls_manifest_url is Some
                    ||| sd.dash_manifest_url is Some
                },
                None => false,
            };
            &&& (spec_player_verdict(player) is Ok <==> playable && offers)
            &&& !(playable && offers) ==> spec_player_verdict(player) == Err::<(), Seq<char>>(
                match player.playability_status {
                    Some(ps) => match ps.reason {
                        Some(r) => r@,
                        None => if offers {
                            ps.status@
                        } else {
                            "No streaming formats returned"@
                        },
                    },
                    None => "No streaming formats returned"@,
                },
            )
        }),
{
}

} // verus!
