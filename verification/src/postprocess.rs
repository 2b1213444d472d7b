//! The ffmpeg command lines of the post-processing steps: merging a video
//! and an audio stream, extracting the audio, converting HLS and remuxing.
use crate::external::{is_path_separator, no_separator, path_with_ext, with_extension};
use crate::text::{append_chars, append_str, chars_eq_str, chars_of, decimal, decimal_vec, string_from};
use crate::types::strings_view;
use vstd::prelude::*;

verus! {

broadcast use vstd::string::group_string_axioms;

fn strings_of(parts: &[&str]) -> (r: Vec<String>)
    ensures
        strings_view(r@) == parts@.map_values(|p: &str| p@),
{
    let mut r: Vec<String> = Vec::new();
    let mut i: usize = 0;
    while i < parts.len()
        invariant
            i <= parts.len(),
            strings_view(r@) == parts@.map_values(|p: &str| p@).take(i as int),
        decreases parts.len() - i,
    {
        let ghost before = strings_view(r@);
        r.push(String::from_str(parts[i]));
        assert(strings_view(r@) =~= before.push(parts@[i as int]@));
        assert(parts@.map_values(|p: &str| p@).take(i + 1) =~= before.push(parts@[i as int]@));
        i = i + 1;
    }
    assert(parts@.map_values(|p: &str| p@).take(parts@.len() as int) =~= parts@.map_values(
        |p: &str| p@,
    ));
    r
}

/// The arguments that merge a video and an audio file into `output`,
/// copying both streams.
pub fn merge_args(video: &str, audio: &str, output: &str) -> (r: Vec<String>)
    ensures
        strings_view(r@) == seq!["-y"@, "-i"@, video@, "-i"@, audio@, "-c"@, "copy"@, output@],
{
    let r = strings_of(&["-y", "-i", video, "-i", audio, "-c", "copy", output]);
    assert(strings_view(r@) =~= seq!["-y"@, "-i"@, video@, "-i"@, audio@, "-c"@, "copy"@, output@]);
    r
}

/// How the audio is written for a target extension: copied for `m4a`,
/// `aac` and anything unknown; encoded with LAME (best quality) for `mp3`;
/// encoded with libopus for `opus`. The video is dropped either way.
pub open spec fn audio_codec_args(ext: Seq<char>) -> Seq<Seq<char>> {
    if ext == "mp3"@ {
        seq!["-vn"@, "-c:a"@, "libmp3lame"@, "-q:a"@, "0"@]
    } else if ext == "opus"@ {
        seq!["-vn"@, "-c:a"@, "libopus"@]
    } else {
        seq!["-vn"@, "-c:a"@, "copy"@]
    }
}

/// The arguments that extract the audio of `input` into the file of the
/// same name with extension `ext`, and that file's path.
pub fn extract_audio_args(input: &str, ext: &str) -> (r: (Vec<String>, String))
    requires
        no_separator(ext@),
    ensures
        r.1@ == path_with_ext(input@, ext@),
        strings_view(r.0@) == seq!["-y"@, "-i"@, input@] + audio_codec_args(ext@) + seq![r.1@],
{
    let output = with_extension(input, ext);
    let e = chars_of(ext);
    let codec: Vec<String> = if chars_eq_str(&e, "mp3") {
        strings_of(&["-vn", "-c:a", "libmp3lame", "-q:a", "0"])
    } else if chars_eq_str(&e, "opus") {
        strings_of(&["-vn", "-c:a", "libopus"])
    } else {
        strings_of(&["-vn", "-c:a", "copy"])
    };
    let mut args = strings_of(&["-y", "-i", input]);
    let ghost head = strings_view(args@);
    let ghost cv = strings_view(codec@);
    assert(cv =~= audio_codec_args(ext@));
    let mut i: usize = 0;
    while i < codec.len()
        invariant
            i <= codec.len(),
            cv == strings_view(codec@),
            strings_view(args@) == head + cv.take(i as int),
        decreases codec.len() - i,
    {
        let ghost before = strings_view(args@);
        args.push(codec[i].clone());
        assert(strings_view(args@) =~= before.push(cv[i as int]));
        assert(cv.take(i + 1) =~= cv.take(i as int).push(cv[i as int]));
        i = i + 1;
    }
    assert(cv.take(codec.len() as int) =~= cv);
    let ghost before = strings_view(args@);
    args.push(output.clone());
    assert(strings_view(args@) =~= before.push(output@));
    assert(head =~= seq!["-y"@, "-i"@, input@]);
    (args, output)
}

/// The arguments that fetch an HLS stream into `output`, copying the
/// streams and fixing the AAC framing for MP4.
pub fn convert_hls_args(m3u8_url: &str, output: &str) -> (r: Vec<String>)
    ensures
        strings_view(r@) == seq![
            "-y"@,
            "-i"@,
            m3u8_url@,
            "-c"@,
            "copy"@,
            "-bsf:a"@,
            "aac_adtstoasc"@,
            output@,
        ],
{
    let r = strings_of(&["-y", "-i", m3u8_url, "-c", "copy", "-bsf:a", "aac_adtstoasc", output]);
    assert(strings_view(r@) =~= seq![
        "-y"@,
        "-i"@,
        m3u8_url@,
        "-c"@,
        "copy"@,
        "-bsf:a"@,
        "aac_adtstoasc"@,
        output@,
    ]);
    r
}

/// The arguments that copy the streams of `input` into another container.
pub fn remux_args(input: &str, output: &str) -> (r: Vec<String>)
    ensures
        strings_view(r@) == seq!["-y"@, "-i"@, input@, "-c"@, "copy"@, output@],
{
    let r = strings_of(&["-y", "-i", input, "-c", "copy", output]);
    assert(strings_view(r@) =~= seq!["-y"@, "-i"@, input@, "-c"@, "copy"@, output@]);
    r
}

/// The file a download goes to until it is complete: the output path with
/// its extension replaced by `{ext}.part`.
pub fn part_path(output: &str, ext: &str) -> (r: String)
    requires
        no_separator(ext@),
    ensures
        r@ == path_with_ext(output@, ext@ + ".part"@),
{
    let mut e = chars_of(ext);
    append_str(&mut e, ".part");
    let es = string_from(&e);
    proof {
        reveal_strlit(".part");
        assert forall|i: int| 0 <= i < es@.len() implies !is_path_separator(#[trigger] es@[i]) by {
            if i >= ext@.len() {
                assert(es@[i] == ".part"@[i - ext@.len()]);
            }
        }
    }
    with_extension(output, es.as_str())
}

/// Whether an extension holds a path separator, on which replacing a
/// path's extension panics.
pub fn extension_would_panic(ext: &str) -> (b: bool)
    ensures
        b == !no_separator(ext@),
{
    let v = chars_of(ext);
    let mut i: usize = 0;
    while i < v.len()
        invariant
            i <= v.len(),
            v@ == ext@,
            forall|j: int| 0 <= j < i ==> !is_path_separator(#[trigger] v@[j]),
        decreases v.len() - i,
    {
        if v[i] == '/' {
            assert(is_path_separator(v@[i as int]));
            return true;
        }
        i = i + 1;
    }
    false
}

/// The post-processing steps that run ffmpeg.
#[derive(Debug, Clone, Copy, PartialEq, Eq)]
pub enum FfmpegStep {
    Merge,
    ExtractAudio,
    ConvertHls,
    Remux,
}

pub open spec fn step_prefix(step: FfmpegStep) -> Seq<char> {
    match step {
        FfmpegStep::Merge => "ffmpeg exited with code "@,
        FfmpegStep::ExtractAudio => "ffmpeg audio extraction exited with code "@,
        FfmpegStep::ConvertHls => "ffmpeg HLS conversion exited with code "@,
        FfmpegStep::Remux => "ffmpeg remux exited with code "@,
    }
}

/// An exit code as `{:?}` writes it: `Some(1)`, `Some(-2)` or `None`.
pub open spec fn code_text(code: Option<i32>) -> Seq<char> {
    match code {
        Some(c) => "Some("@ + (if c < 0 {
            "-"@ + decimal((-c) as nat)
        } else {
            decimal(c as nat)
        }) + ")"@,
        None => "None"@,
    }
}

/// The message for a failed ffmpeg run.
pub fn ffmpeg_failure(step: FfmpegStep, code: Option<i32>) -> (m: String)
    ensures
        m@ == step_prefix(step) + code_text(code),
{
    let mut v = match step {
        FfmpegStep::Merge => chars_of("ffmpeg exited with code "),
        FfmpegStep::ExtractAudio => chars_of("ffmpeg audio extraction exited with code "),
        FfmpegStep::ConvertHls => chars_of("ffmpeg HLS conversion exited with code "),
        FfmpegStep::Remux => chars_of("ffmpeg remux exited with code "),
    };
    match code {
        Some(c) => {
            append_str(&mut v, "Some(");
            if c < 0 {
                append_str(&mut v, "-");
                let mag: u64 = (-(c as i64)) as u64;
                let d = decimal_vec(mag);
                append_chars(&mut v, &d);
            } else {
                let d = decimal_vec(c as u64);
                append_chars(&mut v, &d);
            }
            append_str(&mut v, ")");
        },
        None => {
            append_str(&mut v, "None");
        },
    }
    string_from(&v)
}

} // verus!
