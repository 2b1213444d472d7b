//! What the command line decides: its options, the formats to fetch for a
//! video, the subtitles to write, and the listing of formats.
use crate::text::{
    append_chars, append_str, chars_eq_str, chars_of, decimal, decimal_vec, split_char, split_char_vec,
    string_from, trim, trim_vec, vecs_view, IntErrorKind,
};
use crate::selector::{
    select_formats, selection_incomplete, spec_select, FormatSelector, SelectError, SelectedFormats,
    SpecChoice, SpecSelectError, SpecSelector,
};
use crate::types::{
    clone_opt_string, formats_view, opt_view, spec_audio_score, spec_is_audio_only,
    spec_is_combined, spec_is_video_only, spec_total_score, spec_video_score, strings_view,
    subs_view, table_view, DownloadOptions, Format, FormatView, Subtitle, SubtitleView, VideoInfo,
};
use crate::utils::{format_bytes, pad2, pad2_vec, round_half_even, spec_format_bytes};
use crate::utils::{parse_rate_limit, spec_rate_limit, trimmed_pieces};
use vstd::prelude::*;

verus! {

broadcast use vstd::string::group_string_axioms;

// ───────────────────────── options ─────────────────────────

/// The command line's arguments, as given.
#[derive(Debug)]
pub struct Args {
    pub urls: Vec<String>,
    pub format: String,
    pub output: String,
    pub list_formats: bool,
    pub extract_audio: bool,
    pub audio_format: String,
    pub skip_download: bool,
    pub dump_json: bool,
    pub quiet: bool,
    pub no_progress: bool,
    pub rate_limit: Option<String>,
    pub retries: u32,
    pub concurrent_fragments: usize,
    pub merge_output_format: String,
    pub keep_video: bool,
    pub write_subs: bool,
    pub write_auto_subs: bool,
    pub sub_langs: String,
    pub restrict_filenames: bool,
    pub proxy: Option<String>,
    pub cookies: Option<String>,
    pub print_field: Option<String>,
    pub simulate: bool,
}

/// The rate limit given would not fit in a `u64`.
pub open spec fn rate_limit_too_large(args: Args) -> bool {
    match args.rate_limit {
        Some(r) => spec_rate_limit(r@) matches Ok(v) && v > u64::MAX,
        None => false,
    }
}

/// The download options the arguments stand for, when the rate limit reads.
pub open spec fn options_of(args: Args, o: DownloadOptions) -> bool {
    &&& o.format@ == args.format@
    &&& o.output_template@ == args.output@
    &&& o.extract_audio == args.extract_audio
    &&& o.audio_format@ == args.audio_format@
    &&& o.skip_download == (args.skip_download || args.simulate)
    &&& o.quiet == args.quiet
    &&& o.no_progress == args.no_progress
    &&& o.retries == args.retries
    &&& o.concurrent_fragments == args.concurrent_fragments
    &&& o.merge_output_format@ == args.merge_output_format@
    &&& o.keep_video == args.keep_video
    &&& o.write_subs == args.write_subs
    &&& o.write_auto_subs == args.write_auto_subs
    &&& strings_view(o.sub_langs@) == trimmed_pieces(args.sub_langs@, ',')
    &&& o.restrict_filenames == args.restrict_filenames
    &&& o.rate_limit == match args.rate_limit {
        Some(r) => match spec_rate_limit(r@) {
            Ok(v) => Some(v as u64),
            Err(_) => None,
        },
        None => None,
    }
    &&& opt_view(o.proxy) == opt_view(args.proxy)
    &&& opt_view(o.cookies_file) == opt_view(args.cookies)
}

/// The pieces of a comma-separated list, each trimmed.
pub fn split_list(s: &str) -> (r: Vec<String>)
    ensures
        strings_view(r@) == trimmed_pieces(s@, ','),
{
    let v = chars_of(s);
    let parts = split_char_vec(&v, ',');
    let ghost want = trimmed_pieces(s@, ',');
    let mut out: Vec<String> = Vec::new();
    let mut i: usize = 0;
    while i < parts.len()
        invariant
            i <= parts.len(),
            vecs_view(parts@) == split_char(v@, ','),
            v@ == s@,
            want == trimmed_pieces(s@, ','),
            strings_view(out@) == want.take(i as int),
        decreases parts.len() - i,
    {
        assert(vecs_view(parts@)[i as int] == parts@[i as int]@);
        let t = trim_vec(&parts[i]);
        let piece = string_from(&t);
        let ghost before = strings_view(out@);
        out.push(piece);
        assert(strings_view(out@) =~= before.push(want[i as int]));
        assert(want.take(i + 1) =~= want.take(i as int).push(want[i as int]));
        i = i + 1;
    }
    assert(want.take(parts.len() as int) =~= want);
    out
}

impl Args {
    /// The download options these arguments ask for; the rate limit's
    /// parse error when it does not read as a number of bytes per second.
    pub fn to_options(&self) -> (r: Result<DownloadOptions, IntErrorKind>)
        requires
            !rate_limit_too_large(*self),
        ensures
            match r {
                Ok(o) => options_of(*self, o),
                Err(e) => self.rate_limit matches Some(s) && spec_rate_limit(s@) == Err::<
                    int,
                    IntErrorKind,
                >(e),
            },
    {
        let rate_limit = match &self.rate_limit {
            Some(s) => match parse_rate_limit(s.as_str()) {
                Ok(v) => Some(v),
                Err(e) => {
                    return Err(e);
                },
            },
            None => None,
        };
        Ok(
            DownloadOptions {
                format: self.format.clone(),
                output_template: self.output.clone(),
                extract_audio: self.extract_audio,
                audio_format: self.audio_format.clone(),
                skip_download: self.skip_download || self.simulate,
                quiet: self.quiet,
                no_progress: self.no_progress,
                retries: self.retries,
                concurrent_fragments: self.concurrent_fragments,
                merge_output_format: self.merge_output_format.clone(),
                keep_video: self.keep_video,
                write_subs: self.write_subs,
                write_auto_subs: self.write_auto_subs,
                sub_langs: split_list(self.sub_langs.as_str()),
                restrict_filenames: self.restrict_filenames,
                rate_limit: rate_limit,
                proxy: clone_opt_string(&self.proxy),
                cookies_file: clone_opt_string(&self.cookies),
            },
        )
    }
}

// ───────────────────────── numbers ─────────────────────────

/// The digits of `d` up to index `i`, with a comma before each digit that
/// starts a group of three counted from the right.
pub open spec fn grouped_prefix(d: Seq<char>, i: int) -> Seq<char>
    decreases i,
{
    if i <= 0 || i > d.len() {
        Seq::empty()
    } else {
        grouped_prefix(d, i - 1) + (if i - 1 > 0 && (d.len() - (i - 1)) % 3 == 0 {
            seq![',']
        } else {
            Seq::empty()
        }) + seq![d[i - 1]]
    }
}

/// A count with its thousands separated by commas: `1,234,567`.
pub open spec fn spec_format_number(n: nat) -> Seq<char> {
    grouped_prefix(decimal(n), decimal(n).len() as int)
}

/// Writes a count with commas between its groups of three digits.
pub fn format_number(n: u64) -> (r: String)
    ensures
        r@ == spec_format_number(n as nat),
{
    let d = decimal_vec(n);
    let len = d.len();
    let mut out: Vec<char> = Vec::new();
    let mut i: usize = 0;
    while i < len
        invariant
            i <= len == d.len(),
            d@ == decimal(n as nat),
            out@ == grouped_prefix(d@, i as int),
        decreases len - i,
    {
        if i > 0 && (len - i) % 3 == 0 {
            out.push(',');
        }
        out.push(d[i]);
        i = i + 1;
        assert(out@ =~= grouped_prefix(d@, i as int));
    }
    string_from(&out)
}

/// A text with its commas taken out.
pub open spec fn without_commas(s: Seq<char>) -> Seq<char>
    decreases s.len(),
{
    if s.len() == 0 {
        s
    } else {
        without_commas(s.drop_last()) + (if s.last() == ',' {
            Seq::empty()
        } else {
            seq![s.last()]
        })
    }
}

proof fn lemma_without_commas_append(a: Seq<char>, b: Seq<char>)
    ensures
        without_commas(a + b) == without_commas(a) + without_commas(b),
    decreases b.len(),
{
    if b.len() == 0 {
        assert(a + b =~= a);
        assert(without_commas(b) =~= Seq::<char>::empty());
        assert(without_commas(a) + without_commas(b) =~= without_commas(a));
    } else {
        lemma_without_commas_append(a, b.drop_last());
        assert((a + b).drop_last() =~= a + b.drop_last());
        assert(without_commas(a) + without_commas(b) =~= without_commas(a) + without_commas(
            b.drop_last(),
        ) + (if b.last() == ',' {
            Seq::empty()
        } else {
            seq![b.last()]
        }));
    }
}

proof fn lemma_grouped_prefix(d: Seq<char>, i: int)
    requires
        0 <= i <= d.len(),
        forall|j: int| 0 <= j < d.len() ==> d[j] != ',',
    ensures
        without_commas(grouped_prefix(d, i)) == d.take(i),
    decreases i,
{
    if i > 0 {
        lemma_grouped_prefix(d, i - 1);
        let sep: Seq<char> = if i - 1 > 0 && (d.len() - (i - 1)) % 3 == 0 {
            seq![',']
        } else {
            Seq::empty()
        };
        lemma_without_commas_append(grouped_prefix(d, i - 1) + sep, seq![d[i - 1]]);
        lemma_without_commas_append(grouped_prefix(d, i - 1), sep);
        reveal_with_fuel(without_commas, 2);
        assert(without_commas(sep) =~= Seq::<char>::empty());
        assert(without_commas(seq![d[i - 1]]) =~= seq![d[i - 1]]) by {
            assert(seq![d[i - 1]].drop_last() =~= Seq::<char>::empty());
        }
        assert(d.take(i) =~= d.take(i - 1).push(d[i - 1]));
    } else {
        assert(d.take(0) =~= Seq::<char>::empty());
    }
}

/// Taking the commas out of a formatted count gives its plain decimal digits.
pub proof fn law_format_number_digits(n: nat)
    ensures
        without_commas(spec_format_number(n)) == decimal(n),
{
    crate::text::lemma_decimal_digits(n);
    let d = decimal(n);
    assert forall|j: int| 0 <= j < d.len() implies d[j] != ',' by {
        assert(crate::text::is_ascii_digit(d[j]));
    }
    lemma_grouped_prefix(d, d.len() as int);
    assert(d.take(d.len() as int) =~= d);
}


// ───────────────────────── what to download ─────────────────────────

/// Why no download can be planned.
#[derive(Debug)]
pub enum PlanError {
    /// The selector matches nothing.
    NoMatch(SelectError),
    /// A merge was chosen, ffmpeg is missing, and no single format stands in.
    NoCombined(SelectError),
}

pub enum SpecPlanError {
    NoMatch(SpecSelectError),
    NoCombined(SpecSelectError),
}

impl View for PlanError {
    type V = SpecPlanError;

    open spec fn view(&self) -> SpecPlanError {
        match self {
            PlanError::NoMatch(e) => SpecPlanError::NoMatch(e@),
            PlanError::NoCombined(e) => SpecPlanError::NoCombined(e@),
        }
    }
}

/// The formats to download and the extension of the file they make.
#[derive(Debug)]
pub struct DownloadPlan<'a> {
    pub selected: SelectedFormats<'a>,
    pub ext: String,
    /// A merge was wanted but ffmpeg is missing, so the best single format
    /// was taken instead.
    pub fell_back: bool,
}

/// The choice for a video: what the selector picks; but a merge without
/// ffmpeg gives way to the best single format. The file takes the single
/// format's extension, or the merge container's.
pub open spec fn spec_plan_download(
    sel: SpecSelector,
    fmts: Seq<FormatView>,
    has_ffmpeg: bool,
    merge_ext: Seq<char>,
) -> Result<(SpecChoice, Seq<char>, bool), SpecPlanError> {
    match spec_select(sel, fmts) {
        Err(e) => Err(SpecPlanError::NoMatch(e)),
        Ok(SpecChoice::Single(k)) => Ok((SpecChoice::Single(k), fmts[k].ext, false)),
        Ok(SpecChoice::Merge(i, j)) => if has_ffmpeg {
            Ok((SpecChoice::Merge(i, j), merge_ext, false))
        } else {
            match spec_select(SpecSelector::Best, fmts) {
                Ok(SpecChoice::Single(k)) => Ok((SpecChoice::Single(k), fmts[k].ext, true)),
                Ok(c) => Ok((c, "mp4"@, true)),
                Err(e) => Err(SpecPlanError::NoCombined(e)),
            }
        },
    }
}

/// Chooses what to download for a video.
pub fn plan_download<'a>(
    selector: &FormatSelector,
    formats: &'a [Format],
    has_ffmpeg: bool,
    merge_ext: &str,
) -> (r: Result<DownloadPlan<'a>, PlanError>)
    requires
        !selection_incomplete(selector@, formats_view(formats@)),
    ensures
        match (r, spec_plan_download(selector@, formats_view(formats@), has_ffmpeg, merge_ext@)) {
            (Ok(p), Ok((c, ext, fell))) => crate::selector::chosen(p.selected, formats@, c)
                && p.ext@ == ext && p.fell_back == fell,
            (Err(e), Err(g)) => e@ == g,
            _ => false,
        },
{
    let selected = match select_formats(selector, formats) {
        Ok(s) => s,
        Err(e) => {
            return Err(PlanError::NoMatch(e));
        },
    };
    match selected {
        SelectedFormats::Single(f) => {
            let ext = f.ext.clone();
            Ok(DownloadPlan { selected: SelectedFormats::Single(f), ext: ext, fell_back: false })
        },
        SelectedFormats::Merge(v, a) => {
            if has_ffmpeg {
                Ok(
                    DownloadPlan {
                        selected: SelectedFormats::Merge(v, a),
                        ext: String::from_str(merge_ext),
                        fell_back: false,
                    },
                )
            } else {
                let best = FormatSelector::Best;
                match select_formats(&best, formats) {
                    Ok(SelectedFormats::Single(f)) => {
                        let ext = f.ext.clone();
                        Ok(
                            DownloadPlan {
                                selected: SelectedFormats::Single(f),
                                ext: ext,
                                fell_back: true,
                            },
                        )
                    },
                    Ok(other) => Ok(
                        DownloadPlan { selected: other, ext: String::from_str("mp4"), fell_back: true },
                    ),
                    Err(e) => Err(PlanError::NoCombined(e)),
                }
            }
        },
    }
}

/// Without ffmpeg nothing is merged: the plan is always a single format,
/// and a merge the selector asked for gives way to the best single format.
pub proof fn law_no_merge_without_ffmpeg(sel: SpecSelector, fmts: Seq<FormatView>, merge_ext: Seq<char>)
    ensures
        spec_plan_download(sel, fmts, false, merge_ext) matches Ok((c, _, fell)) ==> (c is Single && (
        fell <==> (spec_select(sel, fmts) is Ok && spec_select(sel, fmts)->Ok_0 is Merge))),
{
    match spec_select(SpecSelector::Best, fmts) {
        Ok(c) => {
            assert(c is Single);
        },
        Err(_) => {},
    }
}

/// The size of a merged download: both streams' sizes, when both are known.
pub open spec fn spec_merge_size(video: FormatView, audio: FormatView) -> Option<int> {
    match (
        match video.filesize {
            Some(s) => Some(s),
            None => video.filesize_approx,
        },
        match audio.filesize {
            Some(s) => Some(s),
            None => audio.filesize_approx,
        },
    ) {
        (Some(v), Some(a)) => Some(v + a),
        _ => None,
    }
}

/// The announced size of a merged download.
pub fn merge_size(video: &Format, audio: &Format) -> (r: Option<u64>)
    requires
        spec_merge_size(video@, audio@) matches Some(t) ==> t <= u64::MAX,
    ensures
        match r {
            Some(t) => spec_merge_size(video@, audio@) == Some(t as int),
            None => spec_merge_size(video@, audio@) is None,
        },
{
    match (video.approx_filesize(), audio.approx_filesize()) {
        (Some(v), Some(a)) => Some(v + a),
        _ => None,
    }
}

// ───────────────────────── subtitles ─────────────────────────

/// A language is wanted when it is listed, or when `all` is.
pub open spec fn lang_wanted(langs: Seq<Seq<char>>, lang: Seq<char>) -> bool {
    langs.contains("all"@) || langs.contains(lang)
}

/// The first WebVTT file at or after index `i`.
pub open spec fn first_vtt(subs: Seq<SubtitleView>, i: int) -> Option<int>
    decreases subs.len() - i,
{
    if i < 0 || i >= subs.len() {
        None
    } else if subs[i].ext == "vtt"@ {
        Some(i)
    } else {
        first_vtt(subs, i + 1)
    }
}

/// Of a language's subtitle files, the one written: the first WebVTT one,
/// else the first.
pub open spec fn pick_subtitle(subs: Seq<SubtitleView>) -> Option<SubtitleView> {
    match first_vtt(subs, 0) {
        Some(k) => Some(subs[k]),
        None => if subs.len() > 0 {
            Some(subs[0])
        } else {
            None
        },
    }
}

/// For each wanted language of a table, in order, the file to write.
pub open spec fn table_picks(table: Seq<(Seq<char>, Seq<SubtitleView>)>, langs: Seq<Seq<char>>) -> Seq<
    (Seq<char>, SubtitleView),
>
    decreases table.len(),
{
    if table.len() == 0 {
        Seq::empty()
    } else {
        let prev = table_picks(table.drop_last(), langs);
        let e = table.last();
        if lang_wanted(langs, e.0) && pick_subtitle(e.1) is Some {
            prev.push((e.0, pick_subtitle(e.1)->0))
        } else {
            prev
        }
    }
}

proof fn lemma_first_vtt(subs: Seq<SubtitleView>, i: int)
    requires
        0 <= i,
    ensures
        first_vtt(subs, i) matches Some(k) ==> i <= k < subs.len() && subs[k].ext == "vtt"@,
        first_vtt(subs, i) is None ==> forall|j: int| i <= j < subs.len() ==> subs[j].ext != "vtt"@,
    decreases subs.len() - i,
{
    if i < subs.len() && subs[i].ext != "vtt"@ {
        lemma_first_vtt(subs, i + 1);
    }
}

/// A language's WebVTT file is written when it has one; otherwise its
/// first file, and nothing only when it has no file at all.
pub proof fn law_subtitle_prefers_vtt(subs: Seq<SubtitleView>)
    ensures
        (exists|j: int| 0 <= j < subs.len() && #[trigger] subs[j].ext == "vtt"@) ==> (pick_subtitle(
            subs,
        ) matches Some(p) && p.ext == "vtt"@),
        pick_subtitle(subs) is None <==> subs.len() == 0,
{
    lemma_first_vtt(subs, 0);
}

/// One subtitle file to fetch and write.
#[derive(Debug)]
pub struct SubtitleJob {
    pub lang: String,
    pub url: String,
    /// What follows the name in the file's path: `{lang}.{ext}`.
    pub file_ext: String,
}

pub open spec fn job_view(j: SubtitleJob) -> (Seq<char>, Seq<char>, Seq<char>) {
    (j.lang@, j.url@, j.file_ext@)
}

pub open spec fn jobs_view(v: Seq<SubtitleJob>) -> Seq<(Seq<char>, Seq<char>, Seq<char>)> {
    v.map_values(|j: SubtitleJob| job_view(j))
}

pub open spec fn pick_job(p: (Seq<char>, SubtitleView)) -> (Seq<char>, Seq<char>, Seq<char>) {
    (p.0, p.1.url, p.0 + "."@ + p.1.ext)
}

pub open spec fn picks_jobs(ps: Seq<(Seq<char>, SubtitleView)>) -> Seq<(Seq<char>, Seq<char>, Seq<char>)> {
    ps.map_values(|p: (Seq<char>, SubtitleView)| pick_job(p))
}

/// The subtitle files to write: the manual ones when asked for, then the
/// automatic ones when asked for.
pub open spec fn spec_subtitle_jobs(info: VideoInfo, opts: DownloadOptions) -> Seq<
    (Seq<char>, Seq<char>, Seq<char>),
> {
    let langs = strings_view(opts.sub_langs@);
    (if opts.write_subs {
        picks_jobs(table_picks(table_view(info.subtitles@), langs))
    } else {
        Seq::empty()
    }) + (if opts.write_auto_subs {
        picks_jobs(table_picks(table_view(info.automatic_captions@), langs))
    } else {
        Seq::empty()
    })
}

fn strings_contain(v: &Vec<String>, s: &str) -> (b: bool)
    ensures
        b == strings_view(v@).contains(s@),
{
    let mut i: usize = 0;
    while i < v.len()
        invariant
            i <= v.len(),
            forall|j: int| 0 <= j < i ==> strings_view(v@)[j] != s@,
        decreases v.len() - i,
    {
        let c = chars_of(v[i].as_str());
        assert(strings_view(v@)[i as int] == v@[i as int]@);
        if chars_eq_str(&c, s) {
            return true;
        }
        i = i + 1;
    }
    false
}

fn pick_subtitle_index(subs: &Vec<Subtitle>) -> (r: Option<usize>)
    ensures
        match r {
            Some(k) => k < subs.len() && pick_subtitle(subs_view(subs@)) == Some(subs_view(subs@)[k as int]),
            None => pick_subtitle(subs_view(subs@)) is None,
        },
{
    let ghost sv = subs_view(subs@);
    let mut i: usize = 0;
    while i < subs.len()
        invariant
            i <= subs.len(),
            sv == subs_view(subs@),
            first_vtt(sv, 0) == first_vtt(sv, i as int),
        decreases subs.len() - i,
    {
        let e = chars_of(subs[i].ext.as_str());
        assert(sv[i as int] == subs@[i as int]@);
        if chars_eq_str(&e, "vtt") {
            return Some(i);
        }
        i = i + 1;
    }
    if subs.len() > 0 {
        Some(0)
    } else {
        None
    }
}

fn add_picks(
    out: &mut Vec<SubtitleJob>,
    table: &Vec<(String, Vec<Subtitle>)>,
    langs: &Vec<String>,
    all: bool,
)
    requires
        all == strings_view(langs@).contains("all"@),
    ensures
        jobs_view(final(out)@) == jobs_view(old(out)@) + picks_jobs(
            table_picks(table_view(table@), strings_view(langs@)),
        ),
{
    let ghost start = jobs_view(out@);
    let ghost tv = table_view(table@);
    let ghost lv = strings_view(langs@);
    let mut i: usize = 0;
    assert(tv.take(0) =~= Seq::<(Seq<char>, Seq<SubtitleView>)>::empty());
    assert(jobs_view(out@) =~= start + picks_jobs(table_picks(tv.take(0), lv)));
    while i < table.len()
        invariant
            i <= table.len(),
            tv == table_view(table@),
            lv == strings_view(langs@),
            all == lv.contains("all"@),
            jobs_view(out@) == start + picks_jobs(table_picks(tv.take(i as int), lv)),
        decreases table.len() - i,
    {
        let ghost before = jobs_view(out@);
        proof {
            assert(tv.take(i + 1).drop_last() =~= tv.take(i as int));
            assert(tv.take(i + 1).last() == tv[i as int]);
            assert(tv[i as int] == (table@[i as int].0@, subs_view(table@[i as int].1@)));
        }
        let lang = &table[i].0;
        let wanted = all || strings_contain(langs, lang.as_str());
        if wanted {
            match pick_subtitle_index(&table[i].1) {
                Some(k) => {
                    let sub = &table[i].1[k];
                    let mut ext = chars_of(lang.as_str());
                    append_str(&mut ext, ".");
                    let e = chars_of(sub.ext.as_str());
                    append_chars(&mut ext, &e);
                    let job = SubtitleJob {
                        lang: lang.clone(),
                        url: sub.url.clone(),
                        file_ext: string_from(&ext),
                    };
                    let ghost jv = job_view(job);
                    out.push(job);
                    proof {
                        let p = (tv[i as int].0, pick_subtitle(tv[i as int].1)->0);
                        assert(subs_view(table@[i as int].1@)[k as int] == table@[i as int].1@[k as int]@);
                        assert(jv == pick_job(p));
                        assert(jobs_view(out@) =~= before.push(jv));
                        assert(picks_jobs(table_picks(tv.take(i + 1), lv)) =~= picks_jobs(
                            table_picks(tv.take(i as int), lv),
                        ).push(pick_job(p)));
                    }
                },
                None => {},
            }
        }
        i = i + 1;
    }
    assert(tv.take(table.len() as int) =~= tv);
}

/// The subtitle files to fetch for a video, with the text that ends each
/// one's file name.
pub fn subtitle_jobs(info: &VideoInfo, opts: &DownloadOptions) -> (r: Vec<SubtitleJob>)
    ensures
        jobs_view(r@) == spec_subtitle_jobs(*info, *opts),
{
    let all = strings_contain(&opts.sub_langs, "all");
    let mut out: Vec<SubtitleJob> = Vec::new();
    assert(jobs_view(out@) =~= Seq::<(Seq<char>, Seq<char>, Seq<char>)>::empty());
    if opts.write_subs {
        add_picks(&mut out, &info.subtitles, &opts.sub_langs, all);
    }
    let ghost mid = jobs_view(out@);
    if opts.write_auto_subs {
        add_picks(&mut out, &info.automatic_captions, &opts.sub_langs, all);
    }
    assert(jobs_view(out@) =~= spec_subtitle_jobs(*info, *opts));
    out
}


// ───────────────────────── listing formats ─────────────────────────

/// The three groups of the format listing, in the order they are printed.
#[derive(Debug, Clone, Copy, PartialEq, Eq)]
pub enum ListGroup {
    VideoOnly,
    AudioOnly,
    Combined,
}

pub open spec fn in_group(g: ListGroup, f: FormatView) -> bool {
    match g {
        ListGroup::VideoOnly => spec_is_video_only(f),
        ListGroup::AudioOnly => spec_is_audio_only(f),
        ListGroup::Combined => spec_is_combined(f),
    }
}

/// A group is listed by its own score: video, audio, or total.
pub open spec fn group_key(g: ListGroup, f: FormatView) -> int {
    match g {
        ListGroup::VideoOnly => spec_video_score(f),
        ListGroup::AudioOnly => spec_audio_score(f),
        ListGroup::Combined => spec_total_score(f),
    }
}

/// `r` lists, once each, the indices of the formats of group `g`: by
/// descending score, formats of equal score in their original order (a
/// stable sort).
pub open spec fn listed_in_order(r: Seq<usize>, fmts: Seq<FormatView>, g: ListGroup) -> bool {
    &&& forall|i: int| 0 <= i < r.len() ==> r[i] < fmts.len() && in_group(g, fmts[r[i] as int])
    &&& forall|k: int| 0 <= k < fmts.len() && in_group(g, fmts[k]) ==> r.contains(k as usize)
    &&& forall|i: int, j: int|
        #![trigger r[i], r[j]]
        0 <= i < j < r.len() ==> group_key(g, fmts[r[i] as int]) > group_key(g, fmts[r[j] as int]) || (
        group_key(g, fmts[r[i] as int]) == group_key(g, fmts[r[j] as int]) && r[i] < r[j])
}

/// The three groups of the listing do not overlap: a format is video-only,
/// audio-only or combined, or none of them (then it is not listed).
pub proof fn law_listing_groups_disjoint(f: FormatView)
    ensures
        !(in_group(ListGroup::VideoOnly, f) && in_group(ListGroup::AudioOnly, f)),
        !(in_group(ListGroup::VideoOnly, f) && in_group(ListGroup::Combined, f)),
        !(in_group(ListGroup::AudioOnly, f) && in_group(ListGroup::Combined, f)),
{
}

fn in_group_exec(g: ListGroup, f: &Format) -> (b: bool)
    ensures
        b == in_group(g, f@),
{
    match g {
        ListGroup::VideoOnly => f.is_video_only(),
        ListGroup::AudioOnly => f.is_audio_only(),
        ListGroup::Combined => f.is_combined(),
    }
}

fn group_key_exec(g: ListGroup, f: &Format) -> (k: u128)
    ensures
        k as int == group_key(g, f@),
{
    match g {
        ListGroup::VideoOnly => f.video_score(),
        ListGroup::AudioOnly => f.audio_score(),
        ListGroup::Combined => f.total_score(),
    }
}

/// The indices of a group's formats in listing order.
#[verifier::spinoff_prover]
#[verifier::rlimit(40)]
pub fn group_order(formats: &[Format], g: ListGroup) -> (r: Vec<usize>)
    ensures
        listed_in_order(r@, formats_view(formats@), g),
{
    let ghost fv = formats_view(formats@);
    let mut r: Vec<usize> = Vec::new();
    let mut keys: Vec<u128> = Vec::new();
    let mut k: usize = 0;
    while k < formats.len()
        invariant
            k <= formats.len(),
            fv == formats_view(formats@),
            fv.len() == formats.len(),
            keys@.len() == r@.len(),
            forall|i: int| 0 <= i < r@.len() ==> r@[i] < k && in_group(g, fv[r@[i] as int]),
            forall|i: int| 0 <= i < r@.len() ==> keys@[i] as int == group_key(g, fv[r@[i] as int]),
            forall|m: int| 0 <= m < k && in_group(g, fv[m]) ==> r@.contains(m as usize),
            forall|i: int, j: int|
                #![trigger r@[i], r@[j]]
                0 <= i < j < r@.len() ==> group_key(g, fv[r@[i] as int]) > group_key(
                    g,
                    fv[r@[j] as int],
                ) || (group_key(g, fv[r@[i] as int]) == group_key(g, fv[r@[j] as int]) && r@[i]
                    < r@[j]),
        decreases formats.len() - k,
    {
        assert(fv[k as int] == formats@[k as int]@);
        if in_group_exec(g, &formats[k]) {
            let key = group_key_exec(g, &formats[k]);
            let mut p: usize = 0;
            while p < r.len() && keys[p] >= key
                invariant
                    p <= r@.len(),
                    keys@.len() == r@.len(),
                    forall|i: int| 0 <= i < p ==> keys@[i] >= key,
                decreases r.len() - p,
            {
                p = p + 1;
            }
            let ghost r0 = r@;
            let ghost keys0 = keys@;
            proof {
                // Past `p` every key is below the new one: keys only fall along `r`.
                assert forall|i: int| p <= i < r0.len() implies keys0[i] < key by {
                    if keys0[p as int] < key {
                        if i > p {
                            assert(group_key(g, fv[r0[p as int] as int]) >= group_key(g, fv[r0[i] as int]));
                        }
                    }
                }
            }
            r.insert(p, k);
            keys.insert(p, key);
            proof {
                assert forall|i: int| 0 <= i < r@.len() implies r@[i] < k + 1 && in_group(g, fv[r@[i] as int]) by {
                    if i < p {
                        assert(r@[i] == r0[i]);
                    } else if i > p {
                        assert(r@[i] == r0[i - 1]);
                    }
                }
                assert forall|i: int| 0 <= i < r@.len() implies keys@[i] as int == group_key(g, fv[r@[i] as int]) by {
                    if i < p {
                        assert(r@[i] == r0[i] && keys@[i] == keys0[i]);
                    } else if i > p {
                        assert(r@[i] == r0[i - 1] && keys@[i] == keys0[i - 1]);
                    }
                }
                assert forall|m: int| 0 <= m < k + 1 && in_group(g, fv[m]) implies r@.contains(m as usize) by {
                    if m < k {
                        let q = choose|q: int| 0 <= q < r0.len() && r0[q] == m as usize;
                        if q < p {
                            assert(r@[q] == r0[q]);
                        } else {
                            assert(r@[q + 1] == r0[q]);
                        }
                    } else {
                        assert(r@[p as int] == k);
                    }
                }
                assert forall|i: int, j: int|
                    #![trigger r@[i], r@[j]]
                    0 <= i < j < r@.len() implies group_key(g, fv[r@[i] as int]) > group_key(
                        g,
                        fv[r@[j] as int],
                    ) || (group_key(g, fv[r@[i] as int]) == group_key(g, fv[r@[j] as int])
                        && r@[i] < r@[j]) by {
                    let ii = if i < p { i } else if i == p { -1 } else { i - 1 };
                    let jj = if j < p { j } else if j == p { -1 } else { j - 1 };
                    if i != p && j != p {
                        assert(r@[i] == r0[ii] && r@[j] == r0[jj]);
                        assert(r0[ii] == r0[ii] && r0[jj] == r0[jj]);
                    } else if i == p {
                        assert(r@[j] == r0[jj] && keys0[jj] < key);
                        assert(keys0[jj] as int == group_key(g, fv[r0[jj] as int]));
                    } else {
                        assert(r@[i] == r0[ii] && keys0[ii] >= key && r0[ii] < k);
                        assert(keys0[ii] as int == group_key(g, fv[r0[ii] as int]));
                    }
                }
            }
        }
        k = k + 1;
    }
    r
}

/// The order of the format listing: the video-only formats, then the
/// audio-only ones, then the combined ones, each group by its score.
pub fn listing_order(formats: &[Format]) -> (r: (Vec<usize>, Vec<usize>, Vec<usize>))
    ensures
        listed_in_order(r.0@, formats_view(formats@), ListGroup::VideoOnly),
        listed_in_order(r.1@, formats_view(formats@), ListGroup::AudioOnly),
        listed_in_order(r.2@, formats_view(formats@), ListGroup::Combined),
{
    (
        group_order(formats, ListGroup::VideoOnly),
        group_order(formats, ListGroup::AudioOnly),
        group_order(formats, ListGroup::Combined),
    )
}

/// The columns of one line of the format listing.
#[derive(Debug)]
pub struct FormatRow {
    pub id: String,
    pub ext: String,
    pub resolution: String,
    pub fps: String,
    pub size: String,
    pub tbr: String,
    pub vcodec: String,
    pub acodec: String,
    pub note: String,
    pub drm: bool,
}

pub open spec fn or_text(o: Option<Seq<char>>, d: Seq<char>) -> Seq<char> {
    match o {
        Some(s) => s,
        None => d,
    }
}

/// What the listing shows of a format: its size as a byte count (`~` when
/// unknown), its total bit rate in whole kbit/s (half-way rounded to even),
/// and `-` for a missing codec.
pub open spec fn row_of(row: FormatRow, f: FormatView) -> bool {
    &&& row.id@ == f.format_id
    &&& row.ext@ == f.ext
    &&& row.resolution@ == match (f.width, f.height) {
        (Some(w), Some(h)) => decimal(w as nat) + "x"@ + decimal(h as nat),
        (None, Some(h)) => decimal(h as nat) + "p"@,
        _ => if spec_is_audio_only(f) {
            "audio only"@
        } else {
            "unknown"@
        },
    }
    &&& row.fps@ == match f.fps {
        Some(r) => decimal(r as nat),
        None => " "@,
    }
    &&& row.size@ == match (
        match f.filesize {
            Some(s) => Some(s),
            None => f.filesize_approx,
        }
    ) {
        Some(s) => spec_format_bytes(s as nat),
        None => "~"@,
    }
    &&& row.tbr@ == match f.tbr {
        Some(t) => decimal(round_half_even(t as nat, 1000)) + "k"@,
        None => " "@,
    }
    &&& row.vcodec@ == or_text(f.vcodec, "-"@)
    &&& row.acodec@ == or_text(f.acodec, "-"@)
    &&& row.note@ == or_text(f.format_note, ""@)
    &&& row.drm == f.has_drm
}

fn or_text_exec(o: &Option<String>, d: &str) -> (r: String)
    ensures
        r@ == or_text(opt_view(*o), d@),
{
    match o {
        Some(s) => s.clone(),
        None => String::from_str(d),
    }
}

/// The listing line of a format.
pub fn format_row(f: &Format) -> (row: FormatRow)
    ensures
        row_of(row, f@),
{
    let resolution = match (f.width, f.height) {
        (Some(_), Some(_)) | (None, Some(_)) => f.resolution(),
        _ => if f.is_audio_only() {
            String::from_str("audio only")
        } else {
            String::from_str("unknown")
        },
    };
    let fps = match f.fps {
        Some(r) => {
            let v = decimal_vec(r as u64);
            string_from(&v)
        },
        None => String::from_str(" "),
    };
    let size = match f.approx_filesize() {
        Some(s) => format_bytes(s),
        None => String::from_str("~"),
    };
    let tbr = match f.tbr {
        Some(t) => {
            let q = t / 1000;
            let rem = t % 1000;
            let k = if 2 * rem > 1000 || (2 * rem == 1000 && q % 2 == 1) {
                q + 1
            } else {
                q
            };
            let mut v = decimal_vec(k);
            append_str(&mut v, "k");
            string_from(&v)
        },
        None => String::from_str(" "),
    };
    FormatRow {
        id: f.format_id.clone(),
        ext: f.ext.clone(),
        resolution: resolution,
        fps: fps,
        size: size,
        tbr: tbr,
        vcodec: or_text_exec(&f.vcodec, "-"),
        acodec: or_text_exec(&f.acodec, "-"),
        note: or_text_exec(&f.format_note, ""),
        drm: f.has_drm,
    }
}


// ───────────────────────── announcements ─────────────────────────

/// What `--skip-download` reports of the chosen formats.
pub open spec fn spec_simulate_line(sel: SelectedFormats) -> Seq<char> {
    match sel {
        SelectedFormats::Single(f) => "      Would download: "@ + f.format_id@ + " ("@ + decimal(
            (match f.width {
                Some(w) => w,
                None => 0,
            }) as nat,
        ) + "x"@ + decimal(
            (match f.height {
                Some(h) => h,
                None => 0,
            }) as nat,
        ) + ", "@ + (match (
            match f.filesize {
                Some(s) => Some(s),
                None => f.filesize_approx,
            }
        ) {
            Some(s) => spec_format_bytes(s as nat),
            None => "unknown size"@,
        }) + ")"@,
        SelectedFormats::Merge(v, a) => "      Would merge: "@ + v.format_id@ + " (video) + "@
            + a.format_id@ + " (audio)"@,
    }
}

/// The line that reports what would be downloaded.
pub fn simulate_line(sel: &SelectedFormats) -> (r: String)
    ensures
        r@ == spec_simulate_line(*sel),
{
    let mut v: Vec<char>;
    match sel {
        SelectedFormats::Single(f) => {
            v = chars_of("      Would download: ");
            append_str(&mut v, f.format_id.as_str());
            append_str(&mut v, " (");
            let w = decimal_vec(
                match f.width {
                    Some(w) => w,
                    None => 0,
                } as u64,
            );
            append_chars(&mut v, &w);
            append_str(&mut v, "x");
            let h = decimal_vec(
                match f.height {
                    Some(h) => h,
                    None => 0,
                } as u64,
            );
            append_chars(&mut v, &h);
            append_str(&mut v, ", ");
            let size = match f.approx_filesize() {
                Some(s) => format_bytes(s),
                None => String::from_str("unknown size"),
            };
            append_str(&mut v, size.as_str());
            append_str(&mut v, ")");
        },
        SelectedFormats::Merge(a, b) => {
            v = chars_of("      Would merge: ");
            append_str(&mut v, a.format_id.as_str());
            append_str(&mut v, " (video) + ");
            append_str(&mut v, b.format_id.as_str());
            append_str(&mut v, " (audio)");
        },
    }
    string_from(&v)
}

/// The duration line of a video's summary: whole minutes (however many)
/// and seconds, each with at least two digits.
pub fn duration_line(secs: u64) -> (r: String)
    ensures
        r@ == "      Duration: "@ + pad2((secs / 60) as nat) + ":"@ + pad2((secs % 60) as nat),
{
    let mut v = chars_of("      Duration: ");
    let m = pad2_vec(secs / 60);
    append_chars(&mut v, &m);
    append_str(&mut v, ":");
    let s = pad2_vec(secs % 60);
    append_chars(&mut v, &s);
    string_from(&v)
}

/// The line announcing the video stream of a merge: its id, height and
/// frame rate, when known (`  [video] 137 (1080p/30fps)`).
pub fn video_stream_line(f: &Format) -> (r: String)
    ensures
        r@ == "  [video] "@ + f.format_id@ + " ("@ + (match f.height {
            Some(h) => decimal(h as nat) + "p"@,
            None => Seq::empty(),
        }) + (match f.fps {
            Some(r) => "/"@ + decimal(r as nat) + "fps"@,
            None => Seq::empty(),
        }) + ")"@,
{
    let mut v = chars_of("  [video] ");
    append_str(&mut v, f.format_id.as_str());
    append_str(&mut v, " (");
    match f.height {
        Some(h) => {
            let d = decimal_vec(h as u64);
            append_chars(&mut v, &d);
            append_str(&mut v, "p");
        },
        None => {},
    }
    match f.fps {
        Some(r) => {
            append_str(&mut v, "/");
            let d = decimal_vec(r as u64);
            append_chars(&mut v, &d);
            append_str(&mut v, "fps");
        },
        None => {},
    }
    append_str(&mut v, ")");
    string_from(&v)
}

/// The line announcing the audio stream of a merge: its id and its bit rate
/// in whole kbit/s, rounded down (`  [audio] 140 (128 kbps)`).
pub fn audio_stream_line(f: &Format) -> (r: String)
    ensures
        r@ == "  [audio] "@ + f.format_id@ + " ("@ + decimal(
            (match f.abr {
                Some(b) => b,
                None => 0,
            } / 1000) as nat,
        ) + " kbps)"@,
{
    let mut v = chars_of("  [audio] ");
    append_str(&mut v, f.format_id.as_str());
    append_str(&mut v, " (");
    let kbps = match f.abr {
        Some(b) => b,
        None => 0,
    } / 1000;
    let d = decimal_vec(kbps);
    append_chars(&mut v, &d);
    append_str(&mut v, " kbps)");
    string_from(&v)
}

/// Where the two streams of a merge are downloaded when they are to be kept
/// (`-k`): beside the output file, under the names of
/// [`merge_part_names`]; `None` when they are not kept (they then go to a
/// temporary directory that is removed after the merge).
pub open spec fn spec_merge_part_paths(
    out_path: Seq<char>,
    id: Seq<char>,
    video_ext: Seq<char>,
    audio_ext: Seq<char>,
    keep: bool,
) -> Option<(Seq<char>, Seq<char>)> {
    if keep {
        let v = id + ".video."@ + video_ext;
        let a = id + ".audio."@ + audio_ext;
        match crate::external::path_parent(out_path) {
            Some(dir) => Some((crate::output::join_path(dir, v), crate::output::join_path(dir, a))),
            None => Some((v, a)),
        }
    } else {
        None
    }
}

fn join_exec(dir: &str, name: &str) -> (r: String)
    ensures
        r@ == crate::output::join_path(dir@, name@),
{
    let mut v = chars_of(dir);
    if v.len() > 0 && v[v.len() - 1] != '/' {
        v.push('/');
    }
    append_str(&mut v, name);
    let ghost d = dir@;
    proof {
        if d.len() > 0 && d.last() != '/' {
            reveal_strlit("/");
            assert(v@ =~= d + "/"@ + name@);
        } else {
            assert(v@ =~= d + name@);
        }
    }
    string_from(&v)
}

/// The paths of a merge's two streams when `-k` keeps them.
pub fn merge_part_paths(out_path: &str, id: &str, video_ext: &str, audio_ext: &str, keep: bool) -> (r:
    Option<(String, String)>)
    ensures
        match r {
            Some((v, a)) => spec_merge_part_paths(out_path@, id@, video_ext@, audio_ext@, keep) == Some(
                (v@, a@),
            ),
            None => spec_merge_part_paths(out_path@, id@, video_ext@, audio_ext@, keep) is None,
        },
{
    if !keep {
        return None;
    }
    let (v, a) = merge_part_names(id, video_ext, audio_ext);
    match crate::external::parent_of(out_path) {
        Some(dir) => Some((join_exec(dir.as_str(), v.as_str()), join_exec(dir.as_str(), a.as_str()))),
        None => Some((v, a)),
    }
}

/// The names of the two streams of a merge in the temporary directory:
/// `{id}.video.{ext}` and `{id}.audio.{ext}`.
pub fn merge_part_names(id: &str, video_ext: &str, audio_ext: &str) -> (r: (String, String))
    ensures
        r.0@ == id@ + ".video."@ + video_ext@,
        r.1@ == id@ + ".audio."@ + audio_ext@,
{
    let mut a = chars_of(id);
    append_str(&mut a, ".video.");
    append_str(&mut a, video_ext);
    let mut b = chars_of(id);
    append_str(&mut b, ".audio.");
    append_str(&mut b, audio_ext);
    (string_from(&a), string_from(&b))
}

} // verus!
