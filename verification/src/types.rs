//! The data the extractor produces and the selector and downloader consume.
//!
//! Bit rates are held in bits per second and frame rates in whole frames per
//! second; the quality scores are exact integers, 30 000 000 times the score
//! they stand for.
use crate::text::{append_chars, append_str, chars_eq_str, chars_of, decimal, decimal_vec, string_from};
use vstd::prelude::*;

verus! {

broadcast use vstd::string::group_string_axioms;

pub open spec fn opt_view(o: Option<String>) -> Option<Seq<char>> {
    match o {
        Some(s) => Some(s@),
        None => None,
    }
}

pub fn clone_string(s: &String) -> (r: String)
    ensures
        r@ == s@,
{
    s.clone()
}

pub fn clone_opt_string(o: &Option<String>) -> (r: Option<String>)
    ensures
        opt_view(r) == opt_view(*o),
{
    match o {
        Some(s) => Some(s.clone()),
        None => None,
    }
}

pub open spec fn pairs_view(v: Seq<(String, String)>) -> Seq<(Seq<char>, Seq<char>)> {
    v.map_values(|p: (String, String)| (p.0@, p.1@))
}

pub fn clone_pairs(v: &Vec<(String, String)>) -> (r: Vec<(String, String)>)
    ensures
        pairs_view(r@) == pairs_view(v@),
{
    let mut r: Vec<(String, String)> = Vec::new();
    let mut i: usize = 0;
    while i < v.len()
        invariant
            i <= v.len(),
            pairs_view(r@) == pairs_view(v@.subrange(0, i as int)),
        decreases v.len() - i,
    {
        let a = v[i].0.clone();
        let b = v[i].1.clone();
        let ghost old_r = r@;
        r.push((a, b));
        proof {
            let n = i as int;
            assert(pairs_view(old_r).len() == old_r.len());
            assert(pairs_view(v@.subrange(0, n)).len() == n);
            assert(old_r.len() == n);
            assert(pairs_view(r@).len() == n + 1);
            assert forall|j: int| 0 <= j < n + 1 implies #[trigger] pairs_view(r@)[j] == pairs_view(
                v@.subrange(0, n + 1),
            )[j] by {
                if j < n {
                    assert(pairs_view(r@)[j] == pairs_view(old_r)[j]);
                    assert(pairs_view(old_r)[j] == pairs_view(v@.subrange(0, n))[j]);
                }
            }
            assert(pairs_view(r@) =~= pairs_view(v@.subrange(0, n + 1)));
        }
        i = i + 1;
    }
    assert(v@.subrange(0, v@.len() as int) =~= v@);
    r
}

/// One downloadable stream of a video.
#[derive(Debug)]
pub struct Format {
    pub format_id: String,
    pub format_note: Option<String>,
    pub url: String,
    pub manifest_url: Option<String>,
    pub ext: String,
    pub width: Option<u32>,
    pub height: Option<u32>,
    /// Frames per second.
    pub fps: Option<u32>,
    /// Total bit rate, in bits per second.
    pub tbr: Option<u64>,
    /// Audio bit rate, in bits per second.
    pub abr: Option<u64>,
    /// Video bit rate, in bits per second.
    pub vbr: Option<u64>,
    pub acodec: Option<String>,
    pub vcodec: Option<String>,
    /// Audio sample rate, in Hz.
    pub asr: Option<u32>,
    pub audio_channels: Option<u8>,
    pub container: Option<String>,
    pub filesize: Option<u64>,
    pub filesize_approx: Option<u64>,
    pub protocol: String,
    pub language: Option<String>,
    pub quality: Option<u32>,
    pub source_preference: Option<i32>,
    pub has_drm: bool,
    pub dynamic_range: Option<String>,
    /// Request headers, in the order they are sent.
    pub http_headers: Vec<(String, String)>,
}

/// The mathematical value of a [`Format`].
#[verifier::ext_equal]
pub struct FormatView {
    pub format_id: Seq<char>,
    pub format_note: Option<Seq<char>>,
    pub url: Seq<char>,
    pub manifest_url: Option<Seq<char>>,
    pub ext: Seq<char>,
    pub width: Option<u32>,
    pub height: Option<u32>,
    pub fps: Option<u32>,
    pub tbr: Option<u64>,
    pub abr: Option<u64>,
    pub vbr: Option<u64>,
    pub acodec: Option<Seq<char>>,
    pub vcodec: Option<Seq<char>>,
    pub asr: Option<u32>,
    pub audio_channels: Option<u8>,
    pub container: Option<Seq<char>>,
    pub filesize: Option<u64>,
    pub filesize_approx: Option<u64>,
    pub protocol: Seq<char>,
    pub language: Option<Seq<char>>,
    pub quality: Option<u32>,
    pub source_preference: Option<i32>,
    pub has_drm: bool,
    pub dynamic_range: Option<Seq<char>>,
    pub http_headers: Seq<(Seq<char>, Seq<char>)>,
}

impl View for Format {
    type V = FormatView;

    open spec fn view(&self) -> FormatView {
        FormatView {
            format_id: self.format_id@,
            format_note: opt_view(self.format_note),
            url: self.url@,
            manifest_url: opt_view(self.manifest_url),
            ext: self.ext@,
            width: self.width,
            height: self.height,
            fps: self.fps,
            tbr: self.tbr,
            abr: self.abr,
            vbr: self.vbr,
            acodec: opt_view(self.acodec),
            vcodec: opt_view(self.vcodec),
            asr: self.asr,
            audio_channels: self.audio_channels,
            container: opt_view(self.container),
            filesize: self.filesize,
            filesize_approx: self.filesize_approx,
            protocol: self.protocol@,
            language: opt_view(self.language),
            quality: self.quality,
            source_preference: self.source_preference,
            has_drm: self.has_drm,
            dynamic_range: opt_view(self.dynamic_range),
            http_headers: pairs_view(self.http_headers@),
        }
    }
}

pub open spec fn formats_view(v: Seq<Format>) -> Seq<FormatView> {
    v.map_values(|f: Format| f@)
}

/// A codec field names a codec: it is present and not `"none"`.
pub open spec fn names_codec(c: Option<Seq<char>>) -> bool {
    match c {
        Some(s) => s != "none"@,
        None => false,
    }
}

/// The format carries video and no audio.
pub open spec fn spec_is_video_only(f: FormatView) -> bool {
    names_codec(f.vcodec) && !names_codec(f.acodec)
}

/// The format carries audio and no video.
pub open spec fn spec_is_audio_only(f: FormatView) -> bool {
    names_codec(f.acodec) && !names_codec(f.vcodec)
}

/// The format carries both video and audio.
pub open spec fn spec_is_combined(f: FormatView) -> bool {
    names_codec(f.vcodec) && names_codec(f.acodec)
}

/// The video score, times 30 000 000: ten points per line of height, one per
/// 30 frames per second (30 when unknown), and a tenth of a point per
/// megabit per second of video (or else total) bit rate.
pub open spec fn spec_video_score(f: FormatView) -> int {
    let h: int = match f.height {
        Some(h) => h as int,
        None => 0,
    };
    let fps: int = match f.fps {
        Some(r) => r as int,
        None => 30,
    };
    let rate: int = match f.vbr {
        Some(r) => r as int,
        None => match f.tbr {
            Some(r) => r as int,
            None => 0,
        },
    };
    300_000_000 * h + 1_000_000 * fps + 3 * rate
}

/// The audio score, times 30 000 000: one point per kilobit per second of
/// audio bit rate and a tenth of a point per kHz of sample rate.
pub open spec fn spec_audio_score(f: FormatView) -> int {
    let abr: int = match f.abr {
        Some(r) => r as int,
        None => 0,
    };
    let asr: int = match f.asr {
        Some(r) => r as int,
        None => 0,
    };
    30_000 * abr + 3_000 * asr
}

pub open spec fn spec_total_score(f: FormatView) -> int {
    spec_video_score(f) + spec_audio_score(f)
}

/// Whether a codec field names a codec.
pub fn codec_named(c: &Option<String>) -> (b: bool)
    ensures
        b == names_codec(opt_view(*c)),
{
    match c {
        Some(s) => {
            let v = chars_of(s.as_str());
            !chars_eq_str(&v, "none")
        },
        None => false,
    }
}

pub fn clone_headers(v: &Vec<(String, String)>) -> (r: Vec<(String, String)>)
    ensures
        pairs_view(r@) == pairs_view(v@),
{
    clone_pairs(v)
}

impl Format {
    /// A copy of this format.
    pub fn duplicate(&self) -> (r: Format)
        ensures
            r@ == self@,
    {
        Format {
            format_id: clone_string(&self.format_id),
            format_note: clone_opt_string(&self.format_note),
            url: clone_string(&self.url),
            manifest_url: clone_opt_string(&self.manifest_url),
            ext: clone_string(&self.ext),
            width: self.width,
            height: self.height,
            fps: self.fps,
            tbr: self.tbr,
            abr: self.abr,
            vbr: self.vbr,
            acodec: clone_opt_string(&self.acodec),
            vcodec: clone_opt_string(&self.vcodec),
            asr: self.asr,
            audio_channels: self.audio_channels,
            container: clone_opt_string(&self.container),
            filesize: self.filesize,
            filesize_approx: self.filesize_approx,
            protocol: clone_string(&self.protocol),
            language: clone_opt_string(&self.language),
            quality: self.quality,
            source_preference: self.source_preference,
            has_drm: self.has_drm,
            dynamic_range: clone_opt_string(&self.dynamic_range),
            http_headers: clone_headers(&self.http_headers),
        }
    }

    pub fn is_video_only(&self) -> (b: bool)
        ensures
            b == spec_is_video_only(self@),
    {
        codec_named(&self.vcodec) && !codec_named(&self.acodec)
    }

    pub fn is_audio_only(&self) -> (b: bool)
        ensures
            b == spec_is_audio_only(self@),
    {
        codec_named(&self.acodec) && !codec_named(&self.vcodec)
    }

    pub fn is_combined(&self) -> (b: bool)
        ensures
            b == spec_is_combined(self@),
    {
        codec_named(&self.vcodec) && codec_named(&self.acodec)
    }

    /// `"{width}x{height}"`, `"{height}p"` or `"unknown"`.
    pub fn resolution(&self) -> (r: String)
        ensures
            r@ == match (self.width, self.height) {
                (Some(w), Some(h)) => decimal(w as nat) + "x"@ + decimal(h as nat),
                (None, Some(h)) => decimal(h as nat) + "p"@,
                _ => "unknown"@,
            },
    {
        match (self.width, self.height) {
            (Some(w), Some(h)) => {
                let mut v = decimal_vec(w as u64);
                append_str(&mut v, "x");
                let hv = decimal_vec(h as u64);
                append_chars(&mut v, &hv);
                string_from(&v)
            },
            (None, Some(h)) => {
                let mut v = decimal_vec(h as u64);
                append_str(&mut v, "p");
                string_from(&v)
            },
            _ => String::from_str("unknown"),
        }
    }

    /// The video score, 30 000 000 times over (see [`spec_video_score`]).
    pub fn video_score(&self) -> (r: u128)
        ensures
            r as int == spec_video_score(self@),
    {
        let h: u128 = match self.height {
            Some(h) => h as u128,
            None => 0,
        };
        let fps: u128 = match self.fps {
            Some(r) => r as u128,
            None => 30,
        };
        let rate: u128 = match self.vbr {
            Some(r) => r as u128,
            None => match self.tbr {
                Some(r) => r as u128,
                None => 0,
            },
        };
        300_000_000 * h + 1_000_000 * fps + 3 * rate
    }

    /// The audio score, 30 000 000 times over (see [`spec_audio_score`]).
    pub fn audio_score(&self) -> (r: u128)
        ensures
            r as int == spec_audio_score(self@),
    {
        let abr: u128 = match self.abr {
            Some(r) => r as u128,
            None => 0,
        };
        let asr: u128 = match self.asr {
            Some(r) => r as u128,
            None => 0,
        };
        30_000 * abr + 3_000 * asr
    }

    /// The sum of the video and the audio score.
    pub fn total_score(&self) -> (r: u128)
        ensures
            r as int == spec_total_score(self@),
    {
        self.video_score() + self.audio_score()
    }

    /// The exact file size if known, else the estimate.
    pub fn approx_filesize(&self) -> (r: Option<u64>)
        ensures
            r == match self.filesize {
                Some(s) => Some(s),
                None => self.filesize_approx,
            },
    {
        match self.filesize {
            Some(s) => Some(s),
            None => self.filesize_approx,
        }
    }
}

impl Default for Format {
    fn default() -> (f: Format)
        ensures
            f@.format_id.len() == 0 && f@.url.len() == 0 && f@.ext.len() == 0 && f@.protocol.len()
                == 0,
            f.format_note is None && f.manifest_url is None && f.width is None && f.height is None
                && f.fps is None && f.tbr is None && f.abr is None && f.vbr is None
                && f.acodec is None && f.vcodec is None && f.asr is None
                && f.audio_channels is None && f.container is None && f.filesize is None
                && f.filesize_approx is None && f.language is None && f.quality is None
                && f.source_preference is None && !f.has_drm && f.dynamic_range is None,
            f.http_headers@.len() == 0,
    {
        Format {
            format_id: String::new(),
            format_note: None,
            url: String::new(),
            manifest_url: None,
            ext: String::new(),
            width: None,
            height: None,
            fps: None,
            tbr: None,
            abr: None,
            vbr: None,
            acodec: None,
            vcodec: None,
            asr: None,
            audio_channels: None,
            container: None,
            filesize: None,
            filesize_approx: None,
            protocol: String::new(),
            language: None,
            quality: None,
            source_preference: None,
            has_drm: false,
            dynamic_range: None,
            http_headers: Vec::new(),
        }
    }
}

/// A thumbnail image of a video.
#[derive(Debug)]
pub struct Thumbnail {
    pub url: String,
    pub width: Option<u32>,
    pub height: Option<u32>,
    pub id: Option<String>,
    pub preference: Option<i32>,
}

/// The mathematical value of a [`Thumbnail`].
#[verifier::ext_equal]
pub struct ThumbnailView {
    pub url: Seq<char>,
    pub width: Option<u32>,
    pub height: Option<u32>,
    pub id: Option<Seq<char>>,
    pub preference: Option<i32>,
}

impl View for Thumbnail {
    type V = ThumbnailView;

    open spec fn view(&self) -> ThumbnailView {
        ThumbnailView {
            url: self.url@,
            width: self.width,
            height: self.height,
            id: opt_view(self.id),
            preference: self.preference,
        }
    }
}

pub open spec fn thumbs_view(v: Seq<Thumbnail>) -> Seq<ThumbnailView> {
    v.map_values(|t: Thumbnail| t@)
}

/// One subtitle file of a video.
#[derive(Debug)]
pub struct Subtitle {
    pub url: String,
    pub ext: String,
    pub name: Option<String>,
}

/// The mathematical value of a [`Subtitle`].
#[verifier::ext_equal]
pub struct SubtitleView {
    pub url: Seq<char>,
    pub ext: Seq<char>,
    pub name: Option<Seq<char>>,
}

impl View for Subtitle {
    type V = SubtitleView;

    open spec fn view(&self) -> SubtitleView {
        SubtitleView { url: self.url@, ext: self.ext@, name: opt_view(self.name) }
    }
}

pub open spec fn subs_view(v: Seq<Subtitle>) -> Seq<SubtitleView> {
    v.map_values(|s: Subtitle| s@)
}

/// A subtitle table: each language with its subtitle files.
pub open spec fn table_view(t: Seq<(String, Vec<Subtitle>)>) -> Seq<(Seq<char>, Seq<SubtitleView>)> {
    t.map_values(|e: (String, Vec<Subtitle>)| (e.0@, subs_view(e.1@)))
}

pub open spec fn strings_view(v: Seq<String>) -> Seq<Seq<char>> {
    v.map_values(|s: String| s@)
}

/// Everything the extractor learned about one video.
///
/// The subtitle tables list each language once, in the order the languages
/// were first met.
#[derive(Debug)]
pub struct VideoInfo {
    pub id: String,
    pub title: String,
    pub webpage_url: String,
    pub extractor: String,
    pub description: Option<String>,
    /// Length in whole seconds.
    pub duration: Option<u64>,
    pub uploader: Option<String>,
    pub uploader_id: Option<String>,
    pub channel: Option<String>,
    pub channel_id: Option<String>,
    pub channel_url: Option<String>,
    pub view_count: Option<u64>,
    pub like_count: Option<u64>,
    pub comment_count: Option<u64>,
    pub upload_date: Option<String>,
    pub timestamp: Option<i64>,
    pub thumbnail: Option<String>,
    pub thumbnails: Vec<Thumbnail>,
    pub formats: Vec<Format>,
    pub subtitles: Vec<(String, Vec<Subtitle>)>,
    pub automatic_captions: Vec<(String, Vec<Subtitle>)>,
    pub tags: Vec<String>,
    pub categories: Vec<String>,
    pub age_limit: Option<u8>,
    pub is_live: Option<bool>,
    pub live_status: Option<String>,
    pub playlist: Option<String>,
    pub playlist_id: Option<String>,
    pub playlist_title: Option<String>,
    pub playlist_uploader: Option<String>,
    pub playlist_index: Option<usize>,
    pub playlist_count: Option<usize>,
    pub n_entries: Option<usize>,
    pub availability: Option<String>,
}

impl VideoInfo {
    /// The main thumbnail, else the URL of the last thumbnail listed.
    pub fn best_thumbnail(&self) -> (r: Option<&str>)
        ensures
            match r {
                Some(s) => match self.thumbnail {
                    Some(t) => s@ == t@,
                    None => self.thumbnails@.len() > 0 && s@
                        == self.thumbnails@[self.thumbnails@.len() - 1].url@,
                },
                None => self.thumbnail is None && self.thumbnails@.len() == 0,
            },
    {
        match &self.thumbnail {
            Some(t) => Some(t.as_str()),
            None => {
                let n = self.thumbnails.len();
                if n == 0 {
                    None
                } else {
                    Some(self.thumbnails[n - 1].url.as_str())
                }
            },
        }
    }
}

impl Default for VideoInfo {
    fn default() -> (v: VideoInfo)
        ensures
            v.id@.len() == 0 && v.title@.len() == 0 && v.webpage_url@.len() == 0
                && v.extractor@.len() == 0,
            v.description is None && v.duration is None && v.uploader is None
                && v.uploader_id is None && v.channel is None && v.channel_id is None
                && v.channel_url is None && v.view_count is None && v.like_count is None
                && v.comment_count is None && v.upload_date is None && v.timestamp is None
                && v.thumbnail is None && v.age_limit is None && v.is_live is None
                && v.live_status is None && v.playlist is None && v.playlist_id is None
                && v.playlist_title is None && v.playlist_uploader is None
                && v.playlist_index is None && v.playlist_count is None && v.n_entries is None
                && v.availability is None,
            v.thumbnails@.len() == 0 && v.formats@.len() == 0 && v.subtitles@.len() == 0
                && v.automatic_captions@.len() == 0 && v.tags@.len() == 0
                && v.categories@.len() == 0,
    {
        VideoInfo {
            id: String::new(),
            title: String::new(),
            webpage_url: String::new(),
            extractor: String::new(),
            description: None,
            duration: None,
            uploader: None,
            uploader_id: None,
            channel: None,
            channel_id: None,
            channel_url: None,
            view_count: None,
            like_count: None,
            comment_count: None,
            upload_date: None,
            timestamp: None,
            thumbnail: None,
            thumbnails: Vec::new(),
            formats: Vec::new(),
            subtitles: Vec::new(),
            automatic_captions: Vec::new(),
            tags: Vec::new(),
            categories: Vec::new(),
            age_limit: None,
            is_live: None,
            live_status: None,
            playlist: None,
            playlist_id: None,
            playlist_title: None,
            playlist_uploader: None,
            playlist_index: None,
            playlist_count: None,
            n_entries: None,
            availability: None,
        }
    }
}

/// What the user asked for on the command line.
#[derive(Debug)]
pub struct DownloadOptions {
    pub format: String,
    pub output_template: String,
    pub extract_audio: bool,
    pub audio_format: String,
    pub skip_download: bool,
    pub quiet: bool,
    pub no_progress: bool,
    pub retries: u32,
    pub concurrent_fragments: usize,
    pub merge_output_format: String,
    pub keep_video: bool,
    pub write_subs: bool,
    pub write_auto_subs: bool,
    pub sub_langs: Vec<String>,
    pub restrict_filenames: bool,
    pub rate_limit: Option<u64>,
    pub proxy: Option<String>,
    pub cookies_file: Option<String>,
}

impl Default for DownloadOptions {
    fn default() -> (o: DownloadOptions)
        ensures
            o.format@ == "bestvideo+bestaudio/best"@,
            o.output_template@ == "%(title)s [%(id)s].%(ext)s"@,
            !o.extract_audio,
            o.audio_format@ == "m4a"@,
            !o.skip_download && !o.quiet && !o.no_progress,
            o.retries == 10,
            o.concurrent_fragments == 4,
            o.merge_output_format@ == "mkv"@,
            !o.keep_video && !o.write_subs && !o.write_auto_subs,
            o.sub_langs@.len() == 1 && o.sub_langs@[0]@ == "en"@,
            !o.restrict_filenames,
            o.rate_limit is None && o.proxy is None && o.cookies_file is None,
    {
        let mut langs: Vec<String> = Vec::new();
        langs.push(String::from_str("en"));
        DownloadOptions {
            format: String::from_str("bestvideo+bestaudio/best"),
            output_template: String::from_str("%(title)s [%(id)s].%(ext)s"),
            extract_audio: false,
            audio_format: String::from_str("m4a"),
            skip_download: false,
            quiet: false,
            no_progress: false,
            retries: 10,
            concurrent_fragments: 4,
            merge_output_format: String::from_str("mkv"),
            keep_video: false,
            write_subs: false,
            write_auto_subs: false,
            sub_langs: langs,
            restrict_filenames: false,
            rate_limit: None,
            proxy: None,
            cookies_file: None,
        }
    }
}

} // verus!
