//! HLS: which stream of a master playlist to fetch, and the segment URLs of
//! a media playlist, resolved against the playlist's own URL.
use crate::external::{m3u8_parse, parse_playlist, variants_view, Playlist, PlaylistView, Variant};
use crate::types::strings_view;
use crate::output::cut_at;
use crate::text::{
    append_chars, chars_of, index_of_from, index_of_vec_from, last_index_of, last_index_of_vec,
    lemma_index_of_from, lemma_last_index_of_before, starts_with, starts_with_str, string_from,
    string_from_range, sub_vec, trim_end_class, trim_end_class_vec, utf8_width_of, CharClass,
};
use vstd::prelude::*;

verus! {

broadcast use vstd::string::group_string_axioms;

// ───────────────────────── URLs ─────────────────────────

/// The URL up to and including its last `/` (the whole URL when it has none).
pub open spec fn spec_base_url_of(url: Seq<char>) -> Seq<char> {
    match last_index_of(url, '/') {
        Some(p) => url.subrange(0, p + 1),
        None => url,
    }
}

/// The directory part of a playlist URL, against which relative URIs resolve.
pub fn base_url_of(url: &str) -> (r: String)
    ensures
        r@ == spec_base_url_of(url@),
{
    let v = chars_of(url);
    proof {
        lemma_last_index_of_before(v@, '/', v@.len() as int);
    }
    match last_index_of_vec(&v, '/') {
        Some(p) => string_from_range(&v, 0, p + 1),
        None => String::from_str(url),
    }
}

/// A URI that names its own scheme.
pub open spec fn is_absolute_url(path: Seq<char>) -> bool {
    starts_with(path, "http://"@) || starts_with(path, "https://"@)
}

/// Resolving a root-relative path (`/...`) reads the base from its ninth
/// byte on, past `https://`; that byte must exist and begin a character.
pub open spec fn resolve_panics(base: Seq<char>, path: Seq<char>) -> bool {
    !is_absolute_url(path) && starts_with(path, "/"@) && cut_at(base, 8, 0, 0).1 != 8
}

/// A segment or stream URI resolved against a base URL: an absolute URL is
/// kept, a root-relative path goes after the base's origin (the base up to
/// its first `/` after the scheme, or the whole base without trailing `/`),
/// and anything else is appended to the base.
pub open spec fn spec_resolve_url(base: Seq<char>, path: Seq<char>) -> Seq<char> {
    if is_absolute_url(path) {
        path
    } else if starts_with(path, "/"@) {
        match index_of_from(base, '/', cut_at(base, 8, 0, 0).0) {
            Some(i) => base.subrange(0, i) + path,
            None => trim_end_class(base, CharClass::Slash) + path,
        }
    } else {
        base + path
    }
}

/// How many characters make the first 8 bytes of `v`, with the bytes they take.
fn cut_8(v: &Vec<char>) -> (r: (usize, usize))
    ensures
        r.0 as int == cut_at(v@, 8, 0, 0).0,
        r.1 as int == cut_at(v@, 8, 0, 0).1,
        r.0 <= v.len(),
{
    let mut i: usize = 0;
    let mut acc: usize = 0;
    while i < v.len() && acc + utf8_width_of(v[i]) <= 8
        invariant
            i <= v.len(),
            acc <= 8,
            cut_at(v@, 8, 0, 0) == cut_at(v@, 8, i as int, acc as int),
        decreases v.len() - i,
    {
        acc = acc + utf8_width_of(v[i]);
        i = i + 1;
    }
    (i, acc)
}

fn is_absolute_vec(p: &Vec<char>) -> (b: bool)
    ensures
        b == is_absolute_url(p@),
{
    starts_with_str(p, "http://") || starts_with_str(p, "https://")
}

/// Whether resolving `path` against `base` would slice the base through a
/// character or past its end.
pub fn resolve_would_panic(base: &str, path: &str) -> (b: bool)
    ensures
        b == resolve_panics(base@, path@),
{
    let bv = chars_of(base);
    let pv = chars_of(path);
    let (_k, bytes) = cut_8(&bv);
    !is_absolute_vec(&pv) && starts_with_str(&pv, "/") && bytes != 8
}

/// Resolves a playlist URI against the URL of the playlist's directory.
pub fn resolve_url(base: &str, path: &str) -> (r: String)
    requires
        !resolve_panics(base@, path@),
    ensures
        r@ == spec_resolve_url(base@, path@),
{
    let pv = chars_of(path);
    if is_absolute_vec(&pv) {
        return String::from_str(path);
    }
    let bv = chars_of(base);
    let mut out: Vec<char>;
    if starts_with_str(&pv, "/") {
        let (k, _bytes) = cut_8(&bv);
        match index_of_vec_from(&bv, '/', k) {
            Some(i) => {
                proof {
                    lemma_index_of_from(bv@, '/', k as int);
                }
                out = sub_vec(&bv, 0, i);
            },
            None => {
                out = trim_end_class_vec(&bv, CharClass::Slash);
            },
        }
    } else {
        out = bv;
    }
    append_chars(&mut out, &pv);
    string_from(&out)
}

/// An absolute URI is taken as it is, and a plain relative one is appended
/// to the base.
pub proof fn law_resolve_url(base: Seq<char>, path: Seq<char>)
    ensures
        is_absolute_url(path) ==> spec_resolve_url(base, path) == path && !resolve_panics(base, path),
        !is_absolute_url(path) && !starts_with(path, "/"@) ==> spec_resolve_url(base, path) == base
            + path && !resolve_panics(base, path),
{
}

// ───────────────────────── choosing a stream ─────────────────────────

/// The index of the stream with the highest bandwidth; of equal ones the
/// last, as `Iterator::max_by_key` picks.
pub open spec fn best_variant(vs: Seq<(Seq<char>, u64)>) -> Option<int>
    decreases vs.len(),
{
    if vs.len() == 0 {
        None
    } else {
        match best_variant(vs.drop_last()) {
            Some(k) => if vs.last().1 >= vs[k].1 {
                Some(vs.len() - 1)
            } else {
                Some(k)
            },
            None => Some(vs.len() - 1),
        }
    }
}

/// The stream chosen from a master playlist has the highest bandwidth of
/// all, and every later stream has less.
pub proof fn law_best_variant(vs: Seq<(Seq<char>, u64)>)
    ensures
        best_variant(vs) is None <==> vs.len() == 0,
        best_variant(vs) matches Some(k) ==> 0 <= k < vs.len() && (forall|j: int|
            0 <= j < vs.len() ==> vs[j].1 <= vs[k].1) && (forall|j: int|
            k < j < vs.len() ==> vs[j].1 < vs[k].1),
    decreases vs.len(),
{
    if vs.len() > 0 {
        let d = vs.drop_last();
        law_best_variant(d);
        assert forall|j: int| 0 <= j < d.len() implies d[j] == vs[j] by {}
    }
}

/// Why an HLS download cannot go on.
#[derive(Debug)]
pub enum HlsError {
    /// The first playlist did not parse; the parser's message.
    BadPlaylist(String),
    /// The media playlist did not parse; the parser's message.
    BadMediaPlaylist(String),
    /// A master playlist listed no stream.
    NoStreams,
    /// Where a media playlist was expected came a master playlist.
    ExpectedMedia,
}

pub enum SpecHlsError {
    BadPlaylist(Seq<char>),
    BadMediaPlaylist(Seq<char>),
    NoStreams,
    ExpectedMedia,
}

impl View for HlsError {
    type V = SpecHlsError;

    open spec fn view(&self) -> SpecHlsError {
        match self {
            HlsError::BadPlaylist(e) => SpecHlsError::BadPlaylist(e@),
            HlsError::BadMediaPlaylist(e) => SpecHlsError::BadMediaPlaylist(e@),
            HlsError::NoStreams => SpecHlsError::NoStreams,
            HlsError::ExpectedMedia => SpecHlsError::ExpectedMedia,
        }
    }
}

impl HlsError {
    /// The message the command line prints for this error.
    pub fn message(&self) -> (m: String)
        ensures
            m@ == match self@ {
                SpecHlsError::BadPlaylist(e) => "Failed to parse HLS playlist: "@ + e,
                SpecHlsError::BadMediaPlaylist(e) => "Failed to parse media playlist: "@ + e,
                SpecHlsError::NoStreams => "No streams in HLS master playlist"@,
                SpecHlsError::ExpectedMedia => "Expected media playlist, got master"@,
            },
    {
        let (head, tail): (&str, Option<&String>) = match self {
            HlsError::BadPlaylist(e) => ("Failed to parse HLS playlist: ", Some(e)),
            HlsError::BadMediaPlaylist(e) => ("Failed to parse media playlist: ", Some(e)),
            HlsError::NoStreams => ("No streams in HLS master playlist", None),
            HlsError::ExpectedMedia => ("Expected media playlist, got master", None),
        };
        let mut v = chars_of(head);
        match tail {
            Some(t) => {
                let w = chars_of(t.as_str());
                append_chars(&mut v, &w);
            },
            None => {},
        }
        string_from(&v)
    }
}

/// Resolving the chosen stream's URI would panic.
pub open spec fn stream_url_panics(base: Seq<char>, vs: Seq<(Seq<char>, u64)>) -> bool {
    best_variant(vs) matches Some(k) && resolve_panics(spec_base_url_of(base), vs[k].0)
}

/// The URL of the stream to fetch from a master playlist found at `base`.
pub open spec fn spec_select_stream_url(base: Seq<char>, vs: Seq<(Seq<char>, u64)>) -> Result<
    Seq<char>,
    SpecHlsError,
> {
    match best_variant(vs) {
        Some(k) => Ok(spec_resolve_url(spec_base_url_of(base), vs[k].0)),
        None => Err(SpecHlsError::NoStreams),
    }
}

fn best_variant_index(vs: &Vec<Variant>) -> (r: Option<usize>)
    ensures
        match r {
            Some(k) => best_variant(variants_view(vs@)) == Some(k as int),
            None => best_variant(variants_view(vs@)) is None,
        },
{
    let ghost view = variants_view(vs@);
    let mut best: Option<usize> = None;
    let mut i: usize = 0;
    while i < vs.len()
        invariant
            i <= vs.len(),
            view == variants_view(vs@),
            match best {
                Some(k) => k < i && best_variant(view.take(i as int)) == Some(k as int),
                None => i == 0,
            },
        decreases vs.len() - i,
    {
        proof {
            assert(view.take(i + 1).drop_last() =~= view.take(i as int));
        }
        match best {
            Some(k) => {
                if vs[i].bandwidth >= vs[k].bandwidth {
                    best = Some(i);
                }
            },
            None => {
                best = Some(i);
            },
        }
        i = i + 1;
    }
    assert(view.take(vs.len() as int) =~= view);
    best
}

/// Picks the stream with the highest bandwidth and resolves its URI.
pub fn select_stream_url(base: &str, variants: &Vec<Variant>) -> (r: Result<String, HlsError>)
    requires
        !stream_url_panics(base@, variants_view(variants@)),
    ensures
        match r {
            Ok(u) => spec_select_stream_url(base@, variants_view(variants@)) == Ok::<
                Seq<char>,
                SpecHlsError,
            >(u@),
            Err(e) => spec_select_stream_url(base@, variants_view(variants@)) == Err::<
                Seq<char>,
                SpecHlsError,
            >(e@),
        },
{
    proof {
        law_best_variant(variants_view(variants@));
    }
    match best_variant_index(variants) {
        Some(k) => {
            assert(variants_view(variants@)[k as int].0 == variants@[k as int].uri@);
            let b = base_url_of(base);
            Ok(resolve_url(b.as_str(), variants[k].uri.as_str()))
        },
        None => Err(HlsError::NoStreams),
    }
}

// ───────────────────────── playlists ─────────────────────────

/// The URL of the media playlist: the chosen stream of a master playlist,
/// or the playlist's own URL when it is a media playlist already.
pub open spec fn spec_media_url(url: Seq<char>, p: PlaylistView) -> Result<Seq<char>, SpecHlsError> {
    match p {
        PlaylistView::Master(vs) => spec_select_stream_url(url, vs),
        PlaylistView::Media(_) => Ok(url),
    }
}

pub open spec fn media_url_panics(url: Seq<char>, p: PlaylistView) -> bool {
    match p {
        PlaylistView::Master(vs) => stream_url_panics(url, vs),
        PlaylistView::Media(_) => false,
    }
}

/// Whether finding the media playlist's URL would panic.
pub fn media_url_would_panic(url: &str, playlist: &Playlist) -> (b: bool)
    ensures
        b == media_url_panics(url@, playlist@),
{
    match playlist {
        Playlist::Master(vs) => match best_variant_index(vs) {
            Some(k) => {
                proof {
                    law_best_variant(variants_view(vs@));
                }
                assert(variants_view(vs@)[k as int].0 == vs@[k as int].uri@);
                let b = base_url_of(url);
                resolve_would_panic(b.as_str(), vs[k].uri.as_str())
            },
            None => false,
        },
        Playlist::Media(_) => false,
    }
}

/// The URL of the media playlist to read after the playlist found at `url`.
pub fn media_url_for(url: &str, playlist: &Playlist) -> (r: Result<String, HlsError>)
    requires
        !media_url_panics(url@, playlist@),
    ensures
        match r {
            Ok(u) => spec_media_url(url@, playlist@) == Ok::<Seq<char>, SpecHlsError>(u@),
            Err(e) => spec_media_url(url@, playlist@) == Err::<Seq<char>, SpecHlsError>(e@),
        },
{
    match playlist {
        Playlist::Master(vs) => select_stream_url(url, vs),
        Playlist::Media(_) => Ok(String::from_str(url)),
    }
}

/// The segment URLs of a media playlist found at `media_url`, in order.
pub open spec fn spec_segment_urls(media_url: Seq<char>, p: PlaylistView) -> Result<
    Seq<Seq<char>>,
    SpecHlsError,
> {
    match p {
        PlaylistView::Media(segs) => Ok(
            segs.map_values(|s: Seq<char>| spec_resolve_url(spec_base_url_of(media_url), s)),
        ),
        PlaylistView::Master(_) => Err(SpecHlsError::ExpectedMedia),
    }
}

/// Resolving some URI of `segs` against `base` would panic.
pub open spec fn any_resolve_panics(base: Seq<char>, segs: Seq<Seq<char>>) -> bool {
    exists|i: int| 0 <= i < segs.len() && #[trigger] resolve_panics(base, segs[i])
}

pub open spec fn segments_panic(media_url: Seq<char>, p: PlaylistView) -> bool {
    match p {
        PlaylistView::Media(segs) => any_resolve_panics(spec_base_url_of(media_url), segs),
        PlaylistView::Master(_) => false,
    }
}

/// Whether resolving some segment URI would panic.
pub fn segments_would_panic(media_url: &str, playlist: &Playlist) -> (b: bool)
    ensures
        b == segments_panic(media_url@, playlist@),
{
    match playlist {
        Playlist::Media(segs) => {
            let base = base_url_of(media_url);
            let ghost sv = strings_view(segs@);
            let mut i: usize = 0;
            while i < segs.len()
                invariant
                    i <= segs.len(),
                    base@ == spec_base_url_of(media_url@),
                    sv == strings_view(segs@),
                    sv.len() == segs.len(),
                    playlist@ == PlaylistView::Media(sv),
                    forall|j: int| 0 <= j < i ==> !resolve_panics(base@, #[trigger] sv[j]),
                decreases segs.len() - i,
            {
                assert(sv[i as int] == segs@[i as int]@);
                if resolve_would_panic(base.as_str(), segs[i].as_str()) {
                    assert(resolve_panics(spec_base_url_of(media_url@), sv[i as int]));
                    assert(any_resolve_panics(spec_base_url_of(media_url@), sv));
                    return true;
                }
                i = i + 1;
            }
            assert forall|j: int| 0 <= j < sv.len() implies !resolve_panics(
                spec_base_url_of(media_url@),
                #[trigger] sv[j],
            ) by {}
            false
        },
        Playlist::Master(_) => false,
    }
}

/// Resolves every segment URI of a media playlist, in order.
pub fn segment_urls(media_url: &str, playlist: &Playlist) -> (r: Result<Vec<String>, HlsError>)
    requires
        !segments_panic(media_url@, playlist@),
    ensures
        match r {
            Ok(v) => spec_segment_urls(media_url@, playlist@) == Ok::<
                Seq<Seq<char>>,
                SpecHlsError,
            >(strings_view(v@)),
            Err(e) => spec_segment_urls(media_url@, playlist@) == Err::<
                Seq<Seq<char>>,
                SpecHlsError,
            >(e@),
        },
{
    match playlist {
        Playlist::Media(segs) => {
            let base = base_url_of(media_url);
            let ghost sv = strings_view(segs@);
            let ghost want = match spec_segment_urls(media_url@, playlist@) {
                Ok(w) => w,
                Err(_) => Seq::empty(),
            };
            assert(want.len() == segs.len());
            let mut out: Vec<String> = Vec::new();
            let mut i: usize = 0;
            while i < segs.len()
                invariant
                    i <= segs.len(),
                    base@ == spec_base_url_of(media_url@),
                    sv == strings_view(segs@),
                    want.len() == segs.len(),
                    forall|j: int| 0 <= j < segs.len() ==> #[trigger] want[j] == spec_resolve_url(base@, sv[j]),
                    forall|j: int| 0 <= j < segs.len() ==> !resolve_panics(base@, #[trigger] sv[j]),
                    strings_view(out@) == want.take(i as int),
                decreases segs.len() - i,
            {
                assert(sv[i as int] == segs@[i as int]@);
                assert(!resolve_panics(base@, sv[i as int]));
                let u = resolve_url(base.as_str(), segs[i].as_str());
                let ghost before = strings_view(out@);
                out.push(u);
                assert(strings_view(out@) =~= before.push(want[i as int]));
                assert(want.take(i + 1) =~= want.take(i as int).push(want[i as int]));
                i = i + 1;
            }
            assert(want.take(segs.len() as int) =~= want);
            Ok(out)
        },
        Playlist::Master(_) => Err(HlsError::ExpectedMedia),
    }
}

/// Reads the playlist first fetched: through `m3u8_rs`, with a parse failure
/// reported as such.
pub fn read_playlist(bytes: &[u8]) -> (r: Result<Playlist, HlsError>)
    ensures
        match m3u8_parse(bytes@) {
            Ok(p) => r matches Ok(q) && q@ == p,
            Err(e) => r matches Err(HlsError::BadPlaylist(m)) && m@ == e,
        },
{
    match parse_playlist(bytes) {
        Ok(p) => Ok(p),
        Err(e) => Err(HlsError::BadPlaylist(e)),
    }
}

/// Reads the media playlist: through `m3u8_rs`, with a parse failure
/// reported as a media-playlist failure.
pub fn read_media_playlist(bytes: &[u8]) -> (r: Result<Playlist, HlsError>)
    ensures
        match m3u8_parse(bytes@) {
            Ok(p) => r matches Ok(q) && q@ == p,
            Err(e) => r matches Err(HlsError::BadMediaPlaylist(m)) && m@ == e,
        },
{
    match parse_playlist(bytes) {
        Ok(p) => Ok(p),
        Err(e) => Err(HlsError::BadMediaPlaylist(e)),
    }
}

// ───────────────────────── batches ─────────────────────────

/// The index ranges of the batches in which the segments from `start` to
/// `n` are fetched, `size` at a time (as `slice::chunks` cuts them).
pub open spec fn batches_from(start: int, n: int, size: int) -> Seq<(int, int)>
    decreases n - start,
{
    if start >= n || size <= 0 {
        Seq::empty()
    } else if start + size >= n {
        seq![(start, n)]
    } else {
        seq![(start, start + size)] + batches_from(start + size, n, size)
    }
}

pub open spec fn ranges_view(v: Seq<(usize, usize)>) -> Seq<(int, int)> {
    v.map_values(|b: (usize, usize)| (b.0 as int, b.1 as int))
}

/// Splits `n` segments into batches of `size` (the last may be shorter).
pub fn segment_batches(n: usize, size: usize) -> (r: Vec<(usize, usize)>)
    requires
        size > 0,
    ensures
        ranges_view(r@) == batches_from(0, n as int, size as int),
{
    let mut out: Vec<(usize, usize)> = Vec::new();
    let mut start: usize = 0;
    assert(ranges_view(out@) + batches_from(0, n as int, size as int) =~= batches_from(
        0,
        n as int,
        size as int,
    ));
    while start < n
        invariant
            size > 0,
            start <= n,
            ranges_view(out@) + batches_from(start as int, n as int, size as int) == batches_from(
                0,
                n as int,
                size as int,
            ),
        decreases n - start,
    {
        let end = if n - start > size {
            start + size
        } else {
            n
        };
        let ghost before = ranges_view(out@);
        let ghost rest = batches_from(end as int, n as int, size as int);
        assert(batches_from(start as int, n as int, size as int) =~= seq![(start as int, end as int)]
            + rest);
        out.push((start, end));
        assert(ranges_view(out@) =~= before.push((start as int, end as int)));
        assert(ranges_view(out@) + rest =~= before + (seq![(start as int, end as int)] + rest));
        start = end;
    }
    assert(ranges_view(out@) + batches_from(start as int, n as int, size as int) =~= ranges_view(
        out@,
    ));
    out
}


proof fn lemma_batches(start: int, n: int, size: int)
    requires
        size > 0,
        0 <= start,
    ensures
        ({
            let b = batches_from(start, n, size);
            &&& start < n ==> b.len() > 0 && b[0].0 == start && b.last().1 == n
            &&& start >= n ==> b.len() == 0
            &&& forall|i: int| 0 <= i < b.len() ==> start <= #[trigger] b[i].0 < b[i].1 <= b[i].0 + size && b[i].1 <= n
            &&& forall|i: int| 0 <= i < b.len() - 1 ==> #[trigger] b[i].1 == b[i + 1].0
        }),
    decreases n - start,
{
    if start < n && start + size < n {
        lemma_batches(start + size, n, size);
        let rest = batches_from(start + size, n, size);
        let b = batches_from(start, n, size);
        assert(b =~= seq![(start, start + size)] + rest);
        assert forall|i: int| 0 <= i < b.len() implies start <= #[trigger] b[i].0 < b[i].1 <= b[i].0 + size && b[i].1 <= n by {
            if i > 0 {
                assert(b[i] == rest[i - 1]);
            }
        }
        assert forall|i: int| 0 <= i < b.len() - 1 implies #[trigger] b[i].1 == b[i + 1].0 by {
            if i > 0 {
                assert(b[i] == rest[i - 1] && b[i + 1] == rest[i]);
            } else {
                assert(b[1] == rest[0]);
            }
        }
    }
}

/// The batches of a download cover the segments exactly, in order: the
/// first starts at 0, each ends where the next starts, the last ends at the
/// segment count, and none is empty or holds more than `size` segments.
pub proof fn law_batches_cover(n: nat, size: nat)
    requires
        size > 0,
    ensures
        ({
            let b = batches_from(0, n as int, size as int);
            &&& n > 0 ==> b.len() > 0 && b[0].0 == 0 && b.last().1 == n
            &&& n == 0 ==> b.len() == 0
            &&& forall|i: int| 0 <= i < b.len() ==> 0 <= #[trigger] b[i].0 < b[i].1 <= b[i].0 + size
            &&& forall|i: int| 0 <= i < b.len() - 1 ==> #[trigger] b[i].1 == b[i + 1].0
        }),
{
    lemma_batches(0, n as int, size as int);
}

} // verus!
