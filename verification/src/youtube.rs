//! YouTube: recognizing video URLs, reading the player response that the
//! InnerTube API returns, and scraping the watch page.
use crate::external::{
    capture_group1, parse_urlencoded, regex_group1, unicode_alphanumeric, urlencoded_pairs,
};
use crate::text::{
    append_chars, append_str, chars_eq_str, chars_of, contains, find, find_vec, index_of,
    index_of_vec, lemma_find_from, lemma_index_of_from, parse_u64, parse_u64_chars,
    replace_all, replace_str, string_from, sub_vec, trim, trim_vec, utf8_len, utf8_len_capped,
    IntErrorKind,
};
use crate::output::cut_at;
use vstd::prelude::*;

verus! {

broadcast use vstd::string::group_string_axioms;

/// The YouTube extractor.
pub struct YoutubeExtractor;

/// The patterns that find a video id in a URL, tried in this order.
pub open spec fn video_id_pattern(i: int) -> Seq<char> {
    if i == 0 {
        "[?&]v=([0-9A-Za-z_-]{11})"@
    } else if i == 1 {
        "youtu\\.be/([0-9A-Za-z_-]{11})"@
    } else if i == 2 {
        "youtube\\.com/(?:shorts|live|embed|v)/([0-9A-Za-z_-]{11})"@
    } else if i == 3 {
        "youtube\\.com/e/([0-9A-Za-z_-]{11})"@
    } else {
        "youtube\\.com/watch/([0-9A-Za-z_-]{11})"@
    }
}

fn video_id_pattern_exec(i: usize) -> (p: &'static str)
    requires
        i < 5,
    ensures
        p@ == video_id_pattern(i as int),
{
    if i == 0 {
        "[?&]v=([0-9A-Za-z_-]{11})"
    } else if i == 1 {
        "youtu\\.be/([0-9A-Za-z_-]{11})"
    } else if i == 2 {
        "youtube\\.com/(?:shorts|live|embed|v)/([0-9A-Za-z_-]{11})"
    } else if i == 3 {
        "youtube\\.com/e/([0-9A-Za-z_-]{11})"
    } else {
        "youtube\\.com/watch/([0-9A-Za-z_-]{11})"
    }
}

/// The id the first matching pattern (from the `i`-th on) captures.
pub open spec fn id_from_patterns(u: Seq<char>, i: int) -> Option<Seq<char>>
    decreases 5 - i,
{
    if i < 0 || i >= 5 {
        None
    } else {
        match regex_group1(video_id_pattern(i), u) {
            Some(g) => g,
            None => id_from_patterns(u, i + 1),
        }
    }
}

/// A character that may stand in a bare video id: an alphanumeric
/// character (for ASCII: a letter or a digit), `_` or `-`.
pub open spec fn id_char(c: char) -> bool {
    if (c as u32) < 128 {
        crate::text::is_ascii_alnum(c) || c == '_' || c == '-'
    } else {
        unicode_alphanumeric(c)
    }
}

/// A character of the alphabet YouTube writes its 11-character ids in.
pub open spec fn ascii_id_char(c: char) -> bool {
    crate::text::is_ascii_alnum(c) || c == '_' || c == '-'
}

proof fn lemma_ascii_utf8_len(s: Seq<char>)
    requires
        forall|i: int| 0 <= i < s.len() ==> ascii_id_char(#[trigger] s[i]),
    ensures
        utf8_len(s) == s.len(),
    decreases s.len(),
{
    if s.len() > 0 {
        let d = s.drop_last();
        assert forall|i: int| 0 <= i < d.len() implies ascii_id_char(#[trigger] d[i]) by {
            assert(d[i] == s[i]);
        }
        lemma_ascii_utf8_len(d);
        assert(ascii_id_char(s[s.len() - 1]));
    }
}

/// A bare id of 11 letters, digits, `_` and `-` names itself.
pub proof fn law_bare_id_names_itself(id: Seq<char>)
    requires
        id.len() == 11,
        forall|i: int| 0 <= i < id.len() ==> ascii_id_char(#[trigger] id[i]),
    ensures
        spec_extract_video_id(id) == Some(id),
{
    assert(ascii_id_char(id[0]) && ascii_id_char(id[10]));
    assert(!crate::text::is_ws(id[0]) && !crate::text::is_ws(id[10]));
    let k = crate::text::CharClass::Whitespace;
    assert(crate::text::left_end(id, k, 0) == 0);
    assert(crate::text::right_end(id, k, 0, 11) == 11);
    assert(id.subrange(0, 11) =~= id);
    assert(trim(id) == id);
    lemma_ascii_utf8_len(id);
    assert forall|i: int| 0 <= i < id.len() implies id_char(#[trigger] id[i]) by {
        assert(ascii_id_char(id[i]));
    }
}

/// The video id a URL names: the URL itself when, trimmed, it is 11 bytes of
/// alphanumeric characters, `_` and `-`; else what the first of the id
/// patterns that matches captures.
pub open spec fn spec_extract_video_id(url: Seq<char>) -> Option<Seq<char>> {
    let u = trim(url);
    if utf8_len(u) == 11 && forall|i: int| 0 <= i < u.len() ==> id_char(#[trigger] u[i]) {
        Some(u)
    } else {
        id_from_patterns(u, 0)
    }
}

fn all_id_chars(v: &Vec<char>) -> (b: bool)
    ensures
        b == forall|i: int| 0 <= i < v@.len() ==> id_char(#[trigger] v@[i]),
{
    let mut i: usize = 0;
    while i < v.len()
        invariant
            i <= v.len(),
            forall|j: int| 0 <= j < i ==> id_char(#[trigger] v@[j]),
        decreases v.len() - i,
    {
        let c = v[i];
        if !(crate::external::is_alphanumeric(c) || c == '_' || c == '-') {
            return false;
        }
        i = i + 1;
    }
    true
}

impl YoutubeExtractor {
    pub fn new() -> Self {
        YoutubeExtractor
    }

    /// The name of this extractor.
    pub fn name(&self) -> (r: &'static str)
        ensures
            r@ == "youtube"@,
    {
        "youtube"
    }

    /// The video id a URL (or a bare id) names.
    pub fn extract_video_id(url: &str) -> (r: Option<String>)
        ensures
            match r {
                Some(id) => spec_extract_video_id(url@) == Some(id@),
                None => spec_extract_video_id(url@) is None,
            },
    {
        let u = crate::text::trim_str(url);
        assert(u@.subrange(0, u@.len() as int) =~= u@);
        if utf8_len_capped(&u, 0, u.len(), 12) == 11 && all_id_chars(&u) {
            return Some(string_from(&u));
        }
        let us = string_from(&u);
        let mut i: usize = 0;
        while i < 5
            invariant
                i <= 5,
                us@ == u@,
                spec_extract_video_id(url@) == id_from_patterns(u@, i as int),
            decreases 5 - i,
        {
            let pat = video_id_pattern_exec(i);
            match capture_group1(pat, us.as_str()) {
                Some(g) => {
                    return g;
                },
                None => {},
            }
            i = i + 1;
        }
        None
    }

    /// Whether this extractor handles the URL: it names a video id.
    pub fn suitable(&self, url: &str) -> (b: bool)
        ensures
            b == spec_extract_video_id(url@) is Some,
    {
        Self::extract_video_id(url).is_some()
    }
}

/// The extractor for a URL: the YouTube one when the URL names a video id.
pub fn get_extractor(url: &str) -> (r: Option<YoutubeExtractor>)
    ensures
        r is Some <==> spec_extract_video_id(url@) is Some,
{
    let e = YoutubeExtractor::new();
    if e.suitable(url) {
        Some(e)
    } else {
        None
    }
}

// ───────────────────────── page scraping ─────────────────────────

/// From index `i` of a JSON text, with the given brace depth and string
/// state, the index of the brace that closes the outermost object.
pub open spec fn json_close(s: Seq<char>, i: int, depth: int, in_string: bool, escape: bool) -> Option<
    int,
>
    decreases s.len() - i,
{
    if i < 0 || i >= s.len() {
        None
    } else if escape {
        json_close(s, i + 1, depth, in_string, false)
    } else if s[i] == '\\' && in_string {
        json_close(s, i + 1, depth, in_string, true)
    } else if s[i] == '"' {
        json_close(s, i + 1, depth, !in_string, false)
    } else if in_string {
        json_close(s, i + 1, depth, in_string, false)
    } else if s[i] == '{' {
        json_close(s, i + 1, depth + 1, in_string, false)
    } else if s[i] == '}' {
        if depth - 1 == 0 {
            Some(i)
        } else {
            json_close(s, i + 1, depth - 1, in_string, false)
        }
    } else {
        json_close(s, i + 1, depth, in_string, false)
    }
}

/// The JSON object that follows `key` in `text`: found from the first `{`
/// after the first occurrence of `key`, if that brace lies at most 60 bytes on,
/// up to its matching `}` (braces inside strings do not count).
pub open spec fn spec_extract_json_object(text: Seq<char>, key: Seq<char>) -> Option<Seq<char>> {
    match find(text, key) {
        None => None,
        Some(start) => {
            let from_key = text.subrange(start, text.len() as int);
            match index_of(from_key, '{') {
                None => None,
                Some(b) => if utf8_len(from_key.subrange(0, b)) > 60 {
                    None
                } else {
                    let slice = from_key.subrange(b, from_key.len() as int);
                    match json_close(slice, 0, 0, false, false) {
                        Some(i) => Some(slice.subrange(0, i + 1)),
                        None => None,
                    }
                },
            }
        },
    }
}

/// The JSON object assigned to `key` in a page's text.
pub fn extract_json_object(text: &str, key: &str) -> (r: Option<String>)
    ensures
        match r {
            Some(s) => spec_extract_json_object(text@, key@) == Some(s@),
            None => spec_extract_json_object(text@, key@) is None,
        },
{
    let t = chars_of(text);
    let k = chars_of(key);
    proof {
        lemma_find_from(t@, k@, 0);
    }
    let start = match find_vec(&t, &k) {
        Some(s) => s,
        None => {
            return None;
        },
    };
    let from_key = sub_vec(&t, start, t.len());
    proof {
        lemma_index_of_from(from_key@, '{', 0);
    }
    let b = match index_of_vec(&from_key, '{') {
        Some(b) => b,
        None => {
            return None;
        },
    };
    if utf8_len_capped(&from_key, 0, b, 61) > 60 {
        return None;
    }
    let slice = sub_vec(&from_key, b, from_key.len());
    let mut depth: usize = 0;
    let mut in_string = false;
    let mut escape = false;
    let mut i: usize = 0;
    assert(slice@[0] == '{');
    assert(spec_extract_json_object(text@, key@) == match json_close(slice@, 0, 0, false, false) {
        Some(j) => Some(slice@.subrange(0, j + 1)),
        None => None,
    });
    while i < slice.len()
        invariant
            spec_extract_json_object(text@, key@) == match json_close(slice@, 0, 0, false, false) {
                Some(j) => Some(slice@.subrange(0, j + 1)),
                None => None,
            },
            0 < slice.len(),
            slice@[0] == '{',
            i <= slice.len(),
            i > 0 ==> depth >= 1,
            i == 0 ==> depth == 0 && !in_string && !escape,
            depth <= i,
            json_close(slice@, 0, 0, false, false) == json_close(
                slice@,
                i as int,
                depth as int,
                in_string,
                escape,
            ),
        decreases slice.len() - i,
    {
        let c = slice[i];
        if escape {
            escape = false;
        } else if c == '\\' && in_string {
            escape = true;
        } else if c == '"' {
            in_string = !in_string;
        } else if in_string {
        } else if c == '{' {
            depth = depth + 1;
        } else if c == '}' {
            depth = depth - 1;
            if depth == 0 {
                return Some(string_from(&sub_vec(&slice, 0, i + 1)));
            }
        }
        i = i + 1;
    }
    None
}

/// The pattern for the like count on a watch page.
pub open spec fn like_pattern() -> Seq<char> {
    "\"defaultText\":\\{\"accessibility\":\\{\"accessibilityData\":\\{\"label\":\"([0-9,]+) likes\"\\}\\}"@
}

/// The pattern for the category on a watch page.
pub open spec fn category_pattern() -> Seq<char> {
    "\"category\":\"([^\"]+)\""@
}

/// The pattern for the channel URL on a watch page.
pub open spec fn channel_url_pattern() -> Seq<char> {
    "\"channelUrl\":\"(https://www\\.youtube\\.com/channel/[^\"]+)\""@
}

/// The number a like label such as `1,234` stands for: its digit groups
/// joined and read as a `u64`.
pub open spec fn spec_like_count_from_label(label: Seq<char>) -> Option<u64> {
    parse_u64(replace_all(label, ","@, ""@))
}

/// The like count a watch page shows, its digit groups joined.
pub open spec fn spec_extract_like_count(html: Seq<char>) -> Option<u64> {
    match regex_group1(like_pattern(), html) {
        Some(Some(g)) => spec_like_count_from_label(g),
        _ => None,
    }
}

/// Reads the captured like label: the commas between digit groups go, and
/// what is left must read as a `u64`.
pub fn like_count_from_label(label: &str) -> (r: Option<u64>)
    ensures
        r == spec_like_count_from_label(label@),
{
    let v = chars_of(label);
    proof {
        reveal_strlit(",");
    }
    let digits = replace_str(&v, ",", "");
    match parse_u64_chars(&digits) {
        Ok(n) => Some(n),
        Err(_) => None,
    }
}

pub fn extract_like_count(html: &str) -> (r: Option<u64>)
    ensures
        r == spec_extract_like_count(html@),
{
    let pat = "\"defaultText\":\\{\"accessibility\":\\{\"accessibilityData\":\\{\"label\":\"([0-9,]+) likes\"\\}\\}";
    match capture_group1(pat, html) {
        Some(Some(g)) => like_count_from_label(g.as_str()),
        _ => None,
    }
}

/// The categories a watch page names (at most one).
pub open spec fn spec_extract_categories(html: Seq<char>) -> Seq<Seq<char>> {
    match regex_group1(category_pattern(), html) {
        Some(Some(g)) => seq![g],
        _ => Seq::empty(),
    }
}

pub fn extract_categories(html: &str) -> (r: Vec<String>)
    ensures
        crate::types::strings_view(r@) == spec_extract_categories(html@),
{
    let mut out: Vec<String> = Vec::new();
    match capture_group1("\"category\":\"([^\"]+)\"", html) {
        Some(Some(g)) => {
            let ghost gv = g@;
            out.push(g);
            assert(crate::types::strings_view(out@) =~= seq![gv]);
        },
        _ => {
            assert(crate::types::strings_view(out@) =~= Seq::<Seq<char>>::empty());
        },
    }
    out
}

/// The channel URL a watch page links.
pub open spec fn spec_extract_channel_url(html: Seq<char>) -> Option<Seq<char>> {
    match regex_group1(channel_url_pattern(), html) {
        Some(Some(g)) => Some(g),
        _ => None,
    }
}

pub fn extract_channel_url(html: &str) -> (r: Option<String>)
    ensures
        crate::types::opt_view(r) == spec_extract_channel_url(html@),
{
    match capture_group1("\"channelUrl\":\"(https://www\\.youtube\\.com/channel/[^\"]+)\"", html) {
        Some(Some(g)) => Some(g),
        _ => None,
    }
}

/// What a watch page adds to the player response.
#[derive(Debug)]
pub struct WebpageInfo {
    pub like_count: Option<u64>,
    pub categories: Vec<String>,
    pub channel_url: Option<String>,
}

/// Reads the like count, the category and the channel URL off a watch page.
pub fn webpage_info_from_html(html: &str) -> (w: WebpageInfo)
    ensures
        w.like_count == spec_extract_like_count(html@),
        crate::types::strings_view(w.categories@) == spec_extract_categories(html@),
        crate::types::opt_view(w.channel_url) == spec_extract_channel_url(html@),
{
    WebpageInfo {
        like_count: extract_like_count(html),
        categories: extract_categories(html),
        channel_url: extract_channel_url(html),
    }
}

// ───────────────────────── small fields ─────────────────────────

/// The value of the last pair named `url`.
pub open spec fn last_url_value(pairs: Seq<(Seq<char>, Seq<char>)>) -> Option<Seq<char>>
    decreases pairs.len(),
{
    if pairs.len() == 0 {
        None
    } else if pairs.last().0 == "url"@ {
        Some(pairs.last().1)
    } else {
        last_url_value(pairs.drop_last())
    }
}

/// The stream URL inside a `signatureCipher` value: the last `url` parameter.
pub open spec fn spec_parse_cipher_url(cipher: Seq<char>) -> Option<Seq<char>> {
    last_url_value(urlencoded_pairs(cipher))
}

/// The value of the last pair named `url` in decoded query pairs.
pub fn last_url_param(pairs: &Vec<(String, String)>) -> (r: Option<String>)
    ensures
        crate::types::opt_view(r) == last_url_value(crate::types::pairs_view(pairs@)),
{
    let ghost pv = crate::types::pairs_view(pairs@);
    let mut j = pairs.len();
    assert(pv.len() == pairs@.len());
    assert(pv.subrange(0, j as int) =~= pv);
    while j > 0
        invariant
            j <= pairs.len(),
            pv == crate::types::pairs_view(pairs@),
            pv.len() == pairs@.len(),
            last_url_value(pv) == last_url_value(pv.subrange(0, j as int)),
        decreases j,
    {
        let ghost sub = pv.subrange(0, j as int);
        assert(sub.drop_last() =~= pv.subrange(0, j - 1));
        assert(sub.last() == (pairs@[j - 1].0@, pairs@[j - 1].1@));
        let k = chars_of(pairs[j - 1].0.as_str());
        if chars_eq_str(&k, "url") {
            let v = pairs[j - 1].1.clone();
            assert(sub.last().0 == "url"@);
            assert(last_url_value(sub) == Some(sub.last().1));
            assert(v@ == sub.last().1);
            return Some(v);
        }
        j = j - 1;
    }
    assert(pv.subrange(0, 0) =~= Seq::<(Seq<char>, Seq<char>)>::empty());
    None
}

pub fn parse_cipher_url(cipher: &str) -> (r: Option<String>)
    ensures
        crate::types::opt_view(r) == spec_parse_cipher_url(cipher@),
{
    let pairs = parse_urlencoded(cipher);
    last_url_param(&pairs)
}

/// Taking the first 10 bytes of the date would split a character.
pub open spec fn date_splits_char(date: Seq<char>) -> bool {
    utf8_len(date) >= 10 && contains(date, "-"@) && cut_at(date, 10, 0, 0).1 != 10
}

/// An upload date as `YYYYMMDD`: the first ten bytes of an ISO date
/// (`2023-04-15...`) without the dashes, or an 8-byte date as it is.
pub open spec fn spec_parse_upload_date(date: Seq<char>) -> Option<Seq<char>> {
    if utf8_len(date) >= 10 && contains(date, "-"@) {
        Some(replace_all(date.subrange(0, cut_at(date, 10, 0, 0).0), "-"@, ""@))
    } else if utf8_len(date) == 8 {
        Some(date)
    } else {
        None
    }
}

fn cut_10(v: &Vec<char>) -> (r: (usize, usize))
    ensures
        r.0 as int == cut_at(v@, 10, 0, 0).0,
        r.1 as int == cut_at(v@, 10, 0, 0).1,
        r.0 <= v.len(),
{
    let mut i: usize = 0;
    let mut acc: usize = 0;
    while i < v.len() && acc + crate::text::utf8_width_of(v[i]) <= 10
        invariant
            i <= v.len(),
            acc <= 10,
            cut_at(v@, 10, 0, 0) == cut_at(v@, 10, i as int, acc as int),
        decreases v.len() - i,
    {
        acc = acc + crate::text::utf8_width_of(v[i]);
        i = i + 1;
    }
    (i, acc)
}

/// Whether taking the first 10 bytes of the date would split a character.
pub fn date_would_split(date: &str) -> (b: bool)
    ensures
        b == date_splits_char(date@),
{
    let v = chars_of(date);
    assert(v@.subrange(0, v@.len() as int) =~= v@);
    let n = utf8_len_capped(&v, 0, v.len(), 11);
    let has_dash = crate::text::contains_str(&v, "-");
    let (_k, bytes) = cut_10(&v);
    n >= 10 && has_dash && bytes != 10
}

/// Normalizes an upload date to `YYYYMMDD`.
pub fn parse_upload_date(date: &str) -> (r: Option<String>)
    requires
        !date_splits_char(date@),
    ensures
        crate::types::opt_view(r) == spec_parse_upload_date(date@),
{
    let v = chars_of(date);
    assert(v@.subrange(0, v@.len() as int) =~= v@);
    let n = utf8_len_capped(&v, 0, v.len(), 11);
    if n >= 10 && crate::text::contains_str(&v, "-") {
        let (k, _bytes) = cut_10(&v);
        let head = sub_vec(&v, 0, k);
        proof {
            reveal_strlit("-");
        }
        let r = replace_str(&head, "-", "");
        Some(string_from(&r))
    } else if n == 8 {
        Some(String::from_str(date))
    } else {
        None
    }
}

} // verus!
