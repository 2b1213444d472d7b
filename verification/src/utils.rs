//! Rate limits, byte counts, MIME types and codec names.
use crate::external::{lowercased, to_lowercase};
use crate::text::{
    after_char, append_chars, append_str, before_char, before_char_vec, chars_eq_str, chars_of,
    contains, contains_str, decimal, decimal_vec, digit_char, index_of, index_of_vec,
    lemma_index_of_from, parse_u64_chars, vecs_view, spec_parse_u64, split_char, split_char_vec,
    starts_with, starts_with_str, string_from, sub_vec, trim, trim_class, trim_class_vec, trim_vec,
    char_from_ascii_code, CharClass, IntErrorKind,
};
use vstd::prelude::*;

verus! {

broadcast use vstd::string::group_string_axioms;

// ───────────────────────── rate limits ─────────────────────────

/// The factor a rate suffix (`K`, `M` or `G`, in either case) stands for; 0 for no suffix.
pub open spec fn rate_multiplier(c: char) -> int {
    if c == 'k' || c == 'K' {
        1024
    } else if c == 'm' || c == 'M' {
        1048576
    } else if c == 'g' || c == 'G' {
        1073741824
    } else {
        0
    }
}

/// The bytes per second that a rate limit such as `500K` or `2m` asks for:
/// a `u64`, optionally followed by `K`, `M` or `G` (binary multiples), with
/// white space allowed around the number.
pub open spec fn spec_rate_limit(s: Seq<char>) -> Result<int, IntErrorKind> {
    let t = trim(s);
    if t.len() > 0 && rate_multiplier(t.last()) > 0 {
        match spec_parse_u64(trim(t.drop_last())) {
            Ok(n) => Ok(n * rate_multiplier(t.last())),
            Err(e) => Err(e),
        }
    } else {
        match spec_parse_u64(t) {
            Ok(n) => Ok(n as int),
            Err(e) => Err(e),
        }
    }
}

proof fn lemma_trim_unchanged(s: Seq<char>)
    requires
        s.len() > 0,
        !crate::text::is_ws(s[0]),
        !crate::text::is_ws(s.last()),
    ensures
        trim(s) == s,
{
    let k = CharClass::Whitespace;
    assert(crate::text::left_end(s, k, 0) == 0);
    assert(crate::text::right_end(s, k, 0, s.len() as int) == s.len());
    assert(s.subrange(0, s.len() as int) =~= s);
}

/// A `K`, `M` or `G` (in either case) after a number multiplies it by
/// 1024, 1024² or 1024³: the rate with the suffix is the rate without it,
/// scaled (or the same error).
pub proof fn law_rate_suffix_scales(digits: Seq<char>, suffix: char)
    requires
        digits.len() > 0,
        !crate::text::is_ws(digits[0]),
        crate::text::is_ascii_digit(digits.last()),
        rate_multiplier(suffix) > 0,
    ensures
        spec_rate_limit(digits.push(suffix)) == match spec_rate_limit(digits) {
            Ok(v) => Ok(v * rate_multiplier(suffix)),
            Err(e) => Err::<int, IntErrorKind>(e),
        },
{
    let t = digits.push(suffix);
    assert(t[0] == digits[0]);
    lemma_trim_unchanged(t);
    lemma_trim_unchanged(digits);
    assert(t.drop_last() =~= digits);
}

fn rate_multiplier_of(c: char) -> (m: u64)
    ensures
        m as int == rate_multiplier(c),
{
    if c == 'k' || c == 'K' {
        1024
    } else if c == 'm' || c == 'M' {
        1048576
    } else if c == 'g' || c == 'G' {
        1073741824
    } else {
        0
    }
}

/// The number and the multiplier a rate limit is made of.
fn rate_parts(s: &str) -> (r: Result<(u64, u64), IntErrorKind>)
    ensures
        match (r, spec_rate_limit(s@)) {
            (Ok((n, m)), Ok(v)) => n * m == v && m > 0,
            (Err(e), Err(g)) => e == g,
            _ => false,
        },
{
    let t = crate::text::trim_str(s);
    let n = t.len();
    if n > 0 && rate_multiplier_of(t[n - 1]) > 0 {
        let m = rate_multiplier_of(t[n - 1]);
        let body = sub_vec(&t, 0, n - 1);
        assert(body@ =~= t@.drop_last());
        let body = trim_vec(&body);
        match parse_u64_chars(&body) {
            Ok(k) => Ok((k, m)),
            Err(e) => Err(e),
        }
    } else {
        match parse_u64_chars(&t) {
            Ok(k) => Ok((k, 1)),
            Err(e) => Err(e),
        }
    }
}

/// Whether the rate limit's value lies beyond `u64::MAX`.
pub fn rate_limit_overflows(s: &str) -> (b: bool)
    ensures
        b == (spec_rate_limit(s@) matches Ok(v) && v > u64::MAX),
{
    match rate_parts(s) {
        Ok((n, m)) => n.checked_mul(m).is_none(),
        Err(_) => false,
    }
}

/// Parses a rate limit such as `500K`, `2M` or `100` into bytes per second.
pub fn parse_rate_limit(s: &str) -> (r: Result<u64, IntErrorKind>)
    requires
        !(spec_rate_limit(s@) matches Ok(v) && v > u64::MAX),
    ensures
        match (r, spec_rate_limit(s@)) {
            (Ok(n), Ok(v)) => n == v,
            (Err(e), Err(g)) => e == g,
            _ => false,
        },
{
    match rate_parts(s) {
        Ok((n, m)) => Ok(n * m),
        Err(e) => Err(e),
    }
}

// ───────────────────────── byte counts ─────────────────────────

pub open spec fn pow2(n: nat) -> nat
    decreases n,
{
    if n == 0 {
        1
    } else {
        2 * pow2((n - 1) as nat)
    }
}

/// The number of binary digits of `n`.
pub open spec fn bit_length(n: nat) -> nat
    decreases n,
{
    if n == 0 {
        0
    } else {
        1 + bit_length(n / 2)
    }
}

/// `n` rounded to the nearest number with 53 significant binary digits (ties
/// to even): the value of `n as f64`.
pub open spec fn round_to_double(n: nat) -> nat {
    if bit_length(n) <= 53 {
        n
    } else {
        let s = (bit_length(n) - 53) as nat;
        let q = n / pow2(s);
        let r = n % pow2(s);
        let half = pow2((s - 1) as nat);
        if r > half || (r == half && q % 2 == 1) {
            (q + 1) * pow2(s)
        } else {
            q * pow2(s)
        }
    }
}

/// `a / b` rounded to the nearest integer, ties to even.
pub open spec fn round_half_even(a: nat, b: nat) -> nat {
    let q = a / b;
    let r = a % b;
    if 2 * r > b || (2 * r == b && q % 2 == 1) {
        q + 1
    } else {
        q
    }
}

pub open spec fn kib_power(k: nat) -> nat {
    pow2(10 * k)
}

/// How many times a size is divided by 1024 before printing (at most 4).
pub open spec fn unit_index(v: nat) -> nat {
    if v >= kib_power(4) {
        4
    } else if v >= kib_power(3) {
        3
    } else if v >= kib_power(2) {
        2
    } else if v >= kib_power(1) {
        1
    } else {
        0
    }
}

pub open spec fn unit_name(k: nat) -> Seq<char> {
    if k == 1 {
        "KiB"@
    } else if k == 2 {
        "MiB"@
    } else if k == 3 {
        "GiB"@
    } else if k == 4 {
        "TiB"@
    } else {
        "B"@
    }
}

/// `h / 100` written with two decimals.
pub open spec fn two_decimals(h: nat) -> Seq<char> {
    decimal(h / 100) + seq!['.', digit_char(((h / 10) % 10) as int), digit_char((h % 10) as int)]
}

/// A byte count as people read it: `500 B` below 1024, else the size in KiB,
/// MiB, GiB or TiB with two decimals, from the count as a double, rounded to
/// the nearest hundredth (ties to even).
pub open spec fn spec_format_bytes(bytes: nat) -> Seq<char> {
    let v = round_to_double(bytes);
    let k = unit_index(v);
    if k == 0 {
        decimal(bytes) + " B"@
    } else {
        two_decimals(round_half_even(100 * v, kib_power(k))) + " "@ + unit_name(k)
    }
}

pub proof fn lemma_pow2_facts()
    ensures
        pow2(10) == 1024,
        pow2(20) == 1048576,
        pow2(30) == 1073741824,
        pow2(40) == 1099511627776,
        pow2(53) == 9007199254740992,
        pow2(64) == 18446744073709551616,
{
    reveal_with_fuel(pow2, 11);
    assert(pow2(10) == 1024);
    lemma_pow2_add(10, 10);
    lemma_pow2_add(20, 10);
    lemma_pow2_add(30, 10);
    lemma_pow2_add(40, 13);
    assert(pow2(13) == 8192) by {
        reveal_with_fuel(pow2, 14);
    }
    lemma_pow2_add(53, 11);
    assert(pow2(11) == 2048) by {
        reveal_with_fuel(pow2, 12);
    }
}

pub proof fn lemma_pow2_mono(a: nat, b: nat)
    requires
        a <= b,
    ensures
        1 <= pow2(a) <= pow2(b),
    decreases b,
{
    if a < b {
        lemma_pow2_mono(a, (b - 1) as nat);
    } else {
        lemma_pow2_pos(a);
    }
}

proof fn lemma_pow2_pos(a: nat)
    ensures
        pow2(a) >= 1,
    decreases a,
{
    if a > 0 {
        lemma_pow2_pos((a - 1) as nat);
    }
}

proof fn lemma_bit_length(n: nat)
    ensures
        n < pow2(bit_length(n)),
        n > 0 ==> pow2((bit_length(n) - 1) as nat) <= n,
    decreases n,
{
    if n > 0 {
        lemma_bit_length(n / 2);
    }
}

/// The number of binary digits of `n`.
fn bit_length_of(n: u64) -> (b: u32)
    ensures
        b as nat == bit_length(n as nat),
        b <= 64,
{
    let mut m = n;
    let mut b: u32 = 0;
    proof {
        lemma_bit_length_le(n as nat);
    }
    while m > 0
        invariant
            b + bit_length(m as nat) == bit_length(n as nat),
            b as nat + bit_length(m as nat) <= 64,
        decreases m,
    {
        proof {
            lemma_bit_length(m as nat);
            lemma_bit_length_le(m as nat);
        }
        m = m / 2;
        b = b + 1;
    }
    b
}

proof fn lemma_bit_length_le(n: nat)
    requires
        n <= u64::MAX,
    ensures
        bit_length(n) <= 64,
{
    lemma_bit_length(n);
    lemma_pow2_facts();
    if bit_length(n) > 64 {
        lemma_pow2_mono(64, (bit_length(n) - 1) as nat);
    }
}

pub(crate) fn pow2_u128(n: u32) -> (r: u128)
    requires
        n <= 64,
    ensures
        r as nat == pow2(n as nat),
{
    let mut r: u128 = 1;
    let mut i: u32 = 0;
    while i < n
        invariant
            i <= n <= 64,
            r as nat == pow2(i as nat),
        decreases n - i,
    {
        proof {
            lemma_pow2_mono((i + 1) as nat, 64);
            lemma_pow2_facts();
        }
        r = r * 2;
        i = i + 1;
    }
    r
}

proof fn lemma_pow2_add(a: nat, b: nat)
    ensures
        pow2(a + b) == pow2(a) * pow2(b),
    decreases a,
{
    if a > 0 {
        lemma_pow2_add((a - 1) as nat, b);
        assert(pow2(a + b) == 2 * pow2((a - 1 + b) as nat));
        assert(pow2(a) == 2 * pow2((a - 1) as nat));
        let x = pow2((a - 1) as nat);
        let y = pow2(b);
        assert(2 * (x * y) == (2 * x) * y) by (nonlinear_arith);
    } else {
        assert(pow2(0) == 1);
        assert(a + b == b);
    }
}

/// The value of `bytes as f64`.
fn double_of(bytes: u64) -> (v: u128)
    ensures
        v as nat == round_to_double(bytes as nat),
        v <= pow2(64),
{
    let b = bit_length_of(bytes);
    proof {
        lemma_pow2_facts();
    }
    if b <= 53 {
        return bytes as u128;
    }
    let s = b - 53;
    proof {
        lemma_pow2_pos(s as nat);
        lemma_pow2_pos((s - 1) as nat);
        lemma_bit_length(bytes as nat);
        lemma_pow2_add(53, s as nat);
        lemma_pow2_mono(b as nat, 64);
        assert(pow2(s as nat) == 2 * pow2((s - 1) as nat));
    }
    let p = pow2_u128(s);
    let h = pow2_u128(s - 1);
    let q = (bytes as u128) / p;
    let r = (bytes as u128) % p;
    proof {
        let bb = bytes as int;
        let pp = p as int;
        let qq = q as int;
        assert(pp * qq <= bb) by (nonlinear_arith)
            requires
                pp > 0,
                bb >= 0,
                qq == bb / pp,
        ;
        assert(qq < 9007199254740992) by (nonlinear_arith)
            requires
                pp > 0,
                bb >= 0,
                qq == bb / pp,
                bb < 9007199254740992 * pp,
        ;
        assert((qq + 1) * pp <= 9007199254740992 * pp) by (nonlinear_arith)
            requires
                pp > 0,
                qq < 9007199254740992,
        ;
    }
    if r > h || (r == h && q % 2 == 1) {
        (q + 1) * p
    } else {
        q * p
    }
}

/// Formats a byte count: `500 B`, `1.00 KiB`, `1.50 MiB`, ...
pub fn format_bytes(bytes: u64) -> (s: String)
    ensures
        s@ == spec_format_bytes(bytes as nat),
{
    let v = double_of(bytes);
    proof {
        lemma_pow2_facts();
    }
    let k: u32 = if v >= 1099511627776 {
        4
    } else if v >= 1073741824 {
        3
    } else if v >= 1048576 {
        2
    } else if v >= 1024 {
        1
    } else {
        0
    };
    if k == 0 {
        let mut out = decimal_vec(bytes);
        append_str(&mut out, " B");
        return string_from(&out);
    }
    let d = pow2_u128(10 * k);
    let a = 100 * v;
    let q = a / d;
    let r = a % d;
    let h: u128 = if 2 * r > d || (2 * r == d && q % 2 == 1) {
        q + 1
    } else {
        q
    };
    proof {
        let aa = a as int;
        let dd = d as int;
        assert(aa / dd <= aa) by (nonlinear_arith)
            requires
                dd >= 1,
                aa >= 0,
        ;
    }
    let whole = (h / 100) as u64;
    let mut out = decimal_vec(whole);
    out.push('.');
    out.push(char_from_ascii_code(48 + ((h / 10) % 10) as u32));
    out.push(char_from_ascii_code(48 + (h % 10) as u32));
    append_str(&mut out, " ");
    let unit = if k == 1 {
        "KiB"
    } else if k == 2 {
        "MiB"
    } else if k == 3 {
        "GiB"
    } else {
        "TiB"
    };
    append_str(&mut out, unit);
    proof {
        assert(out@ =~= spec_format_bytes(bytes as nat));
    }
    string_from(&out)
}

// ───────────────────────── clock times ─────────────────────────

/// A number written with at least two digits.
pub open spec fn pad2(n: nat) -> Seq<char> {
    if n < 10 {
        seq!['0'] + decimal(n)
    } else {
        decimal(n)
    }
}

/// Seconds as `MM:SS`, or `HH:MM:SS` from one hour up.
pub open spec fn spec_format_clock(secs: nat) -> Seq<char> {
    let h = secs / 3600;
    let m = (secs % 3600) / 60;
    let s = secs % 60;
    if h > 0 {
        pad2(h) + ":"@ + pad2(m) + ":"@ + pad2(s)
    } else {
        pad2(m) + ":"@ + pad2(s)
    }
}

pub(crate) fn pad2_vec(n: u64) -> (r: Vec<char>)
    ensures
        r@ == pad2(n as nat),
{
    if n < 10 {
        let mut r: Vec<char> = Vec::new();
        r.push('0');
        let d = decimal_vec(n);
        append_chars(&mut r, &d);
        assert(r@ =~= seq!['0'] + decimal(n as nat));
        r
    } else {
        decimal_vec(n)
    }
}

/// Formats a number of seconds as `MM:SS` or `HH:MM:SS`.
pub fn format_clock(secs: u64) -> (r: String)
    ensures
        r@ == spec_format_clock(secs as nat),
{
    let h = secs / 3600;
    let m = (secs % 3600) / 60;
    let s = secs % 60;
    let mut out: Vec<char>;
    if h > 0 {
        out = pad2_vec(h);
        append_str(&mut out, ":");
        let mv = pad2_vec(m);
        append_chars(&mut out, &mv);
    } else {
        out = pad2_vec(m);
    }
    append_str(&mut out, ":");
    let sv = pad2_vec(s);
    append_chars(&mut out, &sv);
    string_from(&out)
}

// ───────────────────────── MIME types ─────────────────────────

/// The file extension for a MIME type such as `video/mp4; codecs="avc1"`.
pub open spec fn spec_mime_to_ext(m: Seq<char>) -> Seq<char> {
    let base = trim(before_char(m, ';'));
    if base == "video/mp4"@ || base == "audio/mp4"@ {
        "mp4"@
    } else if base == "video/webm"@ || base == "audio/webm"@ {
        "webm"@
    } else if base == "video/x-flv"@ {
        "flv"@
    } else if base == "video/3gpp"@ {
        "3gp"@
    } else if base == "audio/mpeg"@ {
        "mp3"@
    } else if base == "audio/ogg"@ {
        "ogg"@
    } else if base == "application/x-mpegURL"@ || base == "application/vnd.apple.mpegURL"@ {
        "m3u8"@
    } else if base == "application/dash+xml"@ {
        "mpd"@
    } else {
        let sub = if index_of(base, '/') is Some {
            before_char(after_char(base, '/'), '/')
        } else {
            "mp4"@
        };
        if contains(sub, "mp4"@) {
            "mp4"@
        } else if contains(sub, "webm"@) {
            "webm"@
        } else {
            "mp4"@
        }
    }
}

fn after_char_vec(v: &Vec<char>, c: char) -> (r: Vec<char>)
    ensures
        r@ == after_char(v@, c),
{
    proof {
        lemma_index_of_from(v@, c, 0);
    }
    match index_of_vec(v, c) {
        Some(k) => {
            assert(k < v.len());
            sub_vec(v, k + 1, v.len())
        },
        None => Vec::new(),
    }
}

/// The file extension for a MIME type.
pub fn mime_to_ext(mime_type: &str) -> (r: &'static str)
    ensures
        r@ == spec_mime_to_ext(mime_type@),
{
    let m = chars_of(mime_type);
    let base = before_char_vec(&m, ';');
    let base = trim_vec(&base);
    if chars_eq_str(&base, "video/mp4") || chars_eq_str(&base, "audio/mp4") {
        "mp4"
    } else if chars_eq_str(&base, "video/webm") || chars_eq_str(&base, "audio/webm") {
        "webm"
    } else if chars_eq_str(&base, "video/x-flv") {
        "flv"
    } else if chars_eq_str(&base, "video/3gpp") {
        "3gp"
    } else if chars_eq_str(&base, "audio/mpeg") {
        "mp3"
    } else if chars_eq_str(&base, "audio/ogg") {
        "ogg"
    } else if chars_eq_str(&base, "application/x-mpegURL") || chars_eq_str(
        &base,
        "application/vnd.apple.mpegURL",
    ) {
        "m3u8"
    } else if chars_eq_str(&base, "application/dash+xml") {
        "mpd"
    } else {
        let has_slash = index_of_vec(&base, '/').is_some();
        let sub = if has_slash {
            let after = after_char_vec(&base, '/');
            before_char_vec(&after, '/')
        } else {
            chars_of("mp4")
        };
        if contains_str(&sub, "mp4") {
            "mp4"
        } else if contains_str(&sub, "webm") {
            "webm"
        } else {
            "mp4"
        }
    }
}

// ───────────────────────── codecs ─────────────────────────

/// Whether a codec string names an audio codec (compared in lower case).
pub open spec fn spec_is_audio_codec(codec: Seq<char>) -> bool {
    let c = lowercased(codec);
    starts_with(c, "mp4a"@) || starts_with(c, "opus"@) || starts_with(c, "vorbis"@)
        || starts_with(c, "flac"@) || starts_with(c, "mp3"@) || starts_with(c, "ac-3"@)
        || starts_with(c, "ec-3"@)
}

fn is_audio_codec(codec: &Vec<char>) -> (b: bool)
    ensures
        b == spec_is_audio_codec(codec@),
{
    let s = string_from(codec);
    let lower = to_lowercase(s.as_str());
    let c = chars_of(lower.as_str());
    starts_with_str(&c, "mp4a") || starts_with_str(&c, "opus") || starts_with_str(&c, "vorbis")
        || starts_with_str(&c, "flac") || starts_with_str(&c, "mp3") || starts_with_str(&c, "ac-3")
        || starts_with_str(&c, "ec-3")
}

/// The short name of a codec string: `avc1.64002A` is `avc1`, `vp09.00.50.08`
/// is `vp9`, `hev1...` is `h265`; an unknown codec is its part before the
/// first `.`, in lower case.
pub open spec fn spec_codec_shortname(codec: Seq<char>) -> Seq<char> {
    let c = trim(codec);
    if starts_with(c, "avc1"@) || starts_with(c, "avc3"@) {
        "avc1"@
    } else if starts_with(c, "mp4a"@) {
        "mp4a"@
    } else if starts_with(c, "vp9"@) || starts_with(c, "vp09"@) {
        "vp9"@
    } else if starts_with(c, "vp8"@) {
        "vp8"@
    } else if starts_with(c, "av01"@) || starts_with(c, "av1"@) {
        "av01"@
    } else if starts_with(c, "opus"@) {
        "opus"@
    } else if starts_with(c, "vorbis"@) {
        "vorbis"@
    } else if starts_with(c, "hvc1"@) || starts_with(c, "hev1"@) {
        "h265"@
    } else {
        lowercased(before_char(c, '.'))
    }
}

fn codec_shortname_chars(codec: &Vec<char>) -> (r: String)
    ensures
        r@ == spec_codec_shortname(codec@),
{
    let c = trim_vec(codec);
    if starts_with_str(&c, "avc1") || starts_with_str(&c, "avc3") {
        String::from_str("avc1")
    } else if starts_with_str(&c, "mp4a") {
        String::from_str("mp4a")
    } else if starts_with_str(&c, "vp9") || starts_with_str(&c, "vp09") {
        String::from_str("vp9")
    } else if starts_with_str(&c, "vp8") {
        String::from_str("vp8")
    } else if starts_with_str(&c, "av01") || starts_with_str(&c, "av1") {
        String::from_str("av01")
    } else if starts_with_str(&c, "opus") {
        String::from_str("opus")
    } else if starts_with_str(&c, "vorbis") {
        String::from_str("vorbis")
    } else if starts_with_str(&c, "hvc1") || starts_with_str(&c, "hev1") {
        String::from_str("h265")
    } else {
        let head = before_char_vec(&c, '.');
        let head = string_from(&head);
        to_lowercase(head.as_str())
    }
}

/// The short name of a codec string.
pub fn codec_shortname(codec: &str) -> (r: String)
    ensures
        r@ == spec_codec_shortname(codec@),
{
    let v = chars_of(codec);
    codec_shortname_chars(&v)
}

/// The value of the first `codecs=` parameter among `parts[i..]`, without
/// surrounding quotes.
pub open spec fn codecs_param_from(parts: Seq<Seq<char>>, i: int) -> Option<Seq<char>>
    decreases parts.len() - i,
{
    if i < 0 || i >= parts.len() {
        None
    } else if starts_with(trim(parts[i]), "codecs="@) {
        let p = trim(parts[i]);
        Some(trim_class(p.subrange(7, p.len() as int), CharClass::Quote))
    } else {
        codecs_param_from(parts, i + 1)
    }
}

pub open spec fn trimmed_pieces(s: Seq<char>, c: char) -> Seq<Seq<char>> {
    split_char(s, c).map_values(|p: Seq<char>| trim(p))
}

/// The (video, audio) codecs that a MIME type's `codecs` parameter names;
/// `"none"` for a stream kind the type lacks.
pub open spec fn spec_parse_mime_codecs(m: Seq<char>) -> (Option<Seq<char>>, Option<Seq<char>>) {
    match codecs_param_from(split_char(m, ';'), 1) {
        None => (None, None),
        Some(cs) => {
            let codecs = trimmed_pieces(cs, ',');
            if starts_with(m, "video/"@) {
                if codecs.len() >= 2 {
                    (
                        Some(spec_codec_shortname(codecs[0])),
                        Some(spec_codec_shortname(codecs[1])),
                    )
                } else if codecs.len() == 1 {
                    if spec_is_audio_codec(codecs[0]) {
                        (Some("none"@), Some(spec_codec_shortname(codecs[0])))
                    } else {
                        (Some(spec_codec_shortname(codecs[0])), Some("none"@))
                    }
                } else {
                    (None, None)
                }
            } else if codecs.len() >= 1 {
                (Some("none"@), Some(spec_codec_shortname(codecs[0])))
            } else {
                (Some("none"@), None)
            }
        },
    }
}

fn codecs_param(parts: &Vec<Vec<char>>) -> (r: Option<Vec<char>>)
    ensures
        match r {
            Some(v) => codecs_param_from(vecs_view(parts@), 1) == Some(v@),
            None => codecs_param_from(vecs_view(parts@), 1) is None,
        },
{
    let ghost ps = vecs_view(parts@);
    let mut i: usize = 1;
    while i < parts.len()
        invariant
            1 <= i,
            ps == vecs_view(parts@),
            codecs_param_from(ps, 1) == codecs_param_from(ps, i as int),
        decreases parts.len() - i,
    {
        assert(ps[i as int] == parts@[i as int]@);
        let p = trim_vec(&parts[i]);
        if starts_with_str(&p, "codecs=") {
            proof {
                reveal_strlit("codecs=");
            }
            let rest = sub_vec(&p, 7, p.len());
            return Some(trim_class_vec(&rest, CharClass::Quote));
        }
        i = i + 1;
    }
    None
}

/// The (video, audio) codecs of a MIME type such as `video/mp4; codecs="avc1.64002A, mp4a.40.2"`.
pub fn parse_mime_codecs(mime_type: &str) -> (r: (Option<String>, Option<String>))
    ensures
        (crate::types::opt_view(r.0), crate::types::opt_view(r.1)) == spec_parse_mime_codecs(
            mime_type@,
        ),
{
    let m = chars_of(mime_type);
    let parts = split_char_vec(&m, ';');
    let cs = match codecs_param(&parts) {
        Some(cs) => cs,
        None => {
            return (None, None);
        },
    };
    let raw = split_char_vec(&cs, ',');
    let ghost codecs = trimmed_pieces(cs@, ',');
    proof {
        crate::text::lemma_split_char_first(cs@, ',');
        assert(raw@.len() == codecs.len());
    }
    let is_video = starts_with_str(&m, "video/");
    if is_video {
        if raw.len() >= 2 {
            let c0 = trim_vec(&raw[0]);
            let c1 = trim_vec(&raw[1]);
            assert(c0@ == codecs[0] && c1@ == codecs[1]);
            (Some(codec_shortname_chars(&c0)), Some(codec_shortname_chars(&c1)))
        } else {
            let c0 = trim_vec(&raw[0]);
            assert(c0@ == codecs[0]);
            if is_audio_codec(&c0) {
                (Some(String::from_str("none")), Some(codec_shortname_chars(&c0)))
            } else {
                (Some(codec_shortname_chars(&c0)), Some(String::from_str("none")))
            }
        }
    } else {
        let c0 = trim_vec(&raw[0]);
        assert(c0@ == codecs[0]);
        (Some(String::from_str("none")), Some(codec_shortname_chars(&c0)))
    }
}

} // verus!
