//! The calls the library makes into `std` functions that vstd leaves
//! unspecified and into the `regex`, `url` and `m3u8-rs` crates. Each item
//! here is trusted: its contract is believed, not proved.
use vstd::prelude::*;

verus! {

broadcast use vstd::string::group_string_axioms;

// ───────────────────────── Unicode case and classes ─────────────────────────

/// What `str::to_lowercase` returns for a text: its Unicode `Lowercase` mapping.
pub uninterp spec fn unicode_lowercase(s: Seq<char>) -> Seq<char>;

/// The text with its ASCII capitals made small, other characters kept.
pub open spec fn ascii_lowercase(s: Seq<char>) -> Seq<char> {
    s.map_values(|c: char| crate::text::ascii_lower(c))
}

/// The text is all ASCII.
pub open spec fn all_ascii(s: Seq<char>) -> bool {
    forall|i: int| 0 <= i < s.len() ==> (#[trigger] s[i] as u32) < 128
}

/// What `str::to_lowercase` gives: for ASCII text its ASCII lower case,
/// else the Unicode mapping by its name.
pub open spec fn lowercased(s: Seq<char>) -> Seq<char> {
    if all_ascii(s) {
        ascii_lowercase(s)
    } else {
        unicode_lowercase(s)
    }
}

/// Calls `str::to_lowercase`; its result is the Unicode lowercase mapping of
/// the text, named and not spelled out (the mapping is Unicode's tables).
/// For an all-ASCII text it is stated: the ASCII capitals become small
/// letters and nothing else changes.
#[verifier::external_body]
pub(crate) fn to_lowercase(s: &str) -> (r: String)
    ensures
        r@ == unicode_lowercase(s@),
        (forall|i: int| 0 <= i < s@.len() ==> (#[trigger] s@[i] as u32) < 128) ==> r@
            == ascii_lowercase(s@),
{
    s.to_lowercase()
}

/// What `char::is_alphanumeric` says of a character: Unicode `Alphabetic` or `Numeric`.
pub uninterp spec fn unicode_alphanumeric(c: char) -> bool;

/// Calls `char::is_alphanumeric`. Its result is named; for ASCII characters
/// it is stated: true exactly for the ASCII letters and digits.
#[verifier::external_body]
pub(crate) fn is_alphanumeric(c: char) -> (b: bool)
    ensures
        b == unicode_alphanumeric(c),
        (c as u32) < 128 ==> (b <==> (('a' <= c <= 'z') || ('A' <= c <= 'Z') || ('0' <= c
            <= '9'))),
{
    c.is_alphanumeric()
}

// ───────────────────────── regular expressions ─────────────────────────

/// What matching `pattern` against `text` with the `regex` crate gives: `None`
/// when the pattern does not compile or does not match, else the text of
/// capture group 1 of the leftmost-first match (`None` inside when the group
/// took no part in it).
pub uninterp spec fn regex_group1(pattern: Seq<char>, text: Seq<char>) -> Option<Option<Seq<char>>>;

/// Compiles `pattern` with `regex::Regex::new`, finds the leftmost-first match
/// in `text` with `Regex::captures`, and returns capture group 1 of it. The
/// result is named; nothing is claimed of the regex engine itself.
#[verifier::external_body]
pub(crate) fn capture_group1(pattern: &str, text: &str) -> (r: Option<Option<String>>)
    ensures
        match r {
            Some(Some(g)) => regex_group1(pattern@, text@) == Some(Some(g@)),
            Some(None) => regex_group1(pattern@, text@) == Some(None::<Seq<char>>),
            None => regex_group1(pattern@, text@) is None,
        },
{
    match regex::Regex::new(pattern) {
        Ok(re) => match re.captures(text) {
            Some(caps) => Some(caps.get(1).map(|m| m.as_str().to_string())),
            None => None,
        },
        Err(_) => None,
    }
}

// ───────────────────────── URLs ─────────────────────────

/// The name/value pairs, percent- and `+`-decoded, that
/// `url::form_urlencoded::parse` reads from a text, in order.
pub uninterp spec fn urlencoded_pairs(input: Seq<char>) -> Seq<(Seq<char>, Seq<char>)>;

/// Calls `url::form_urlencoded::parse` on the bytes of `input` and collects
/// the pairs it yields. The result is named; the decoding is not spelled out.
#[verifier::external_body]
pub(crate) fn parse_urlencoded(input: &str) -> (r: Vec<(String, String)>)
    ensures
        crate::types::pairs_view(r@) == urlencoded_pairs(input@),
{
    url::form_urlencoded::parse(input.as_bytes()).map(|(k, v)| (k.into_owned(), v.into_owned())).collect()
}

/// Whether `url::Url::parse` accepts a text.
pub uninterp spec fn url_parses(s: Seq<char>) -> bool;

/// Calls `url::Url::parse` (the `reqwest::Url` type) and tells whether it
/// succeeded. The answer is named; the URL grammar is not spelled out.
#[verifier::external_body]
pub(crate) fn url_is_valid(s: &str) -> (b: bool)
    ensures
        b == url_parses(s@),
{
    url::Url::parse(s).is_ok()
}

// ───────────────────────── paths ─────────────────────────

/// The text of `Path::parent` of a path, if it has one.
pub uninterp spec fn path_parent(p: Seq<char>) -> Option<Seq<char>>;

/// Calls `std::path::Path::parent` on the path the text names. The result is
/// named; the component rules of `std::path` are not spelled out.
#[verifier::external_body]
pub(crate) fn parent_of(p: &str) -> (r: Option<String>)
    ensures
        match r {
            Some(s) => path_parent(p@) == Some(s@),
            None => path_parent(p@) is None,
        },
{
    std::path::Path::new(p).parent().map(|q| q.to_string_lossy().into_owned())
}

/// The text of `Path::file_name` of a path, if it has one.
pub uninterp spec fn path_file_name(p: Seq<char>) -> Option<Seq<char>>;

/// Calls `std::path::Path::file_name` on the path the text names. The result
/// is named; the component rules of `std::path` are not spelled out.
#[verifier::external_body]
pub(crate) fn file_name_of(p: &str) -> (r: Option<String>)
    ensures
        match r {
            Some(s) => path_file_name(p@) == Some(s@),
            None => path_file_name(p@) is None,
        },
{
    std::path::Path::new(p).file_name().map(|q| q.to_string_lossy().into_owned())
}

/// The text of `Path::with_extension` of a path and an extension.
pub uninterp spec fn path_with_ext(p: Seq<char>, ext: Seq<char>) -> Seq<char>;

/// A path separator of the Unix targets this library is built for.
pub open spec fn is_path_separator(c: char) -> bool {
    c == '/'
}

/// The text holds no path separator.
pub open spec fn no_separator(s: Seq<char>) -> bool {
    forall|i: int| 0 <= i < s.len() ==> !is_path_separator(#[trigger] s[i])
}

/// Calls `std::path::Path::with_extension` on the path the text names. The
/// result is named; which part of the name counts as the extension is
/// `std::path`'s rule and is not spelled out. `PathBuf::set_extension`, which
/// it calls, panics on an extension holding a path separator: such an
/// extension is left out.
#[verifier::external_body]
pub(crate) fn with_extension(p: &str, ext: &str) -> (r: String)
    requires
        no_separator(ext@),
    ensures
        r@ == path_with_ext(p@, ext@),
{
    std::path::Path::new(p).with_extension(ext).to_string_lossy().into_owned()
}

// ───────────────────────── HLS playlists ─────────────────────────

/// One stream of an HLS master playlist.
#[derive(Debug)]
pub struct Variant {
    pub uri: String,
    pub bandwidth: u64,
}

/// An HLS playlist: a master playlist lists streams, a media playlist the
/// URIs of its segments.
#[derive(Debug)]
pub enum Playlist {
    Master(Vec<Variant>),
    Media(Vec<String>),
}

pub enum PlaylistView {
    Master(Seq<(Seq<char>, u64)>),
    Media(Seq<Seq<char>>),
}

/// Each stream's URI and bandwidth.
pub open spec fn variants_view(vs: Seq<Variant>) -> Seq<(Seq<char>, u64)> {
    vs.map_values(|v: Variant| (v.uri@, v.bandwidth))
}

impl View for Playlist {
    type V = PlaylistView;

    open spec fn view(&self) -> PlaylistView {
        match self {
            Playlist::Master(vs) => PlaylistView::Master(variants_view(vs@)),
            Playlist::Media(ss) => PlaylistView::Media(crate::types::strings_view(ss@)),
        }
    }
}

/// What `m3u8_rs::parse_playlist_res` makes of a text: a playlist, or the
/// text of the parse error.
pub uninterp spec fn m3u8_parse(bytes: Seq<u8>) -> Result<PlaylistView, Seq<char>>;

/// Calls `m3u8_rs::parse_playlist_res` and keeps, of a master playlist, each
/// variant's URI and bandwidth, and of a media playlist each segment's URI, in
/// order; an error is kept as its text. The result is named; the M3U8 grammar
/// is not spelled out.
#[verifier::external_body]
pub(crate) fn parse_playlist(bytes: &[u8]) -> (r: Result<Playlist, String>)
    ensures
        match r {
            Ok(p) => m3u8_parse(bytes@) == Ok::<PlaylistView, Seq<char>>(p@),
            Err(e) => m3u8_parse(bytes@) == Err::<PlaylistView, Seq<char>>(e@),
        },
{
    match m3u8_rs::parse_playlist_res(bytes) {
        Ok(m3u8_rs::Playlist::MasterPlaylist(m)) => Ok(Playlist::Master(
            m.variants.into_iter().map(|v| Variant { uri: v.uri, bandwidth: v.bandwidth }).collect(),
        )),
        Ok(m3u8_rs::Playlist::MediaPlaylist(p)) => Ok(Playlist::Media(
            p.segments.into_iter().map(|s| s.uri).collect(),
        )),
        Err(e) => Err(format!("{}", e)),
    }
}

} // verus!
