//! Character-sequence building blocks: the mathematical meaning of the
//! string operations the library relies on (trimming, searching, replacing,
//! splitting, decimal digits) and verified executable versions of them.
use vstd::prelude::*;

verus! {

broadcast use vstd::string::group_string_axioms;

/// `String::push`, which vstd leaves unspecified: trusted to append the
/// character to the string's characters, as its documentation says.
pub assume_specification[ String::push ](s: &mut String, ch: char)
    ensures
        final(s)@ == old(s)@.push(ch),
;

// ───────────────────────── conversions ─────────────────────────

/// The characters of a string slice, in order.
pub fn chars_of(s: &str) -> (v: Vec<char>)
    ensures
        v@ == s@,
{
    let mut v: Vec<char> = Vec::new();
    for c in it: s.chars()
        invariant
            v@ == it.seq().take(it.index() as int),
            it.seq() == s@,
    {
        v.push(c);
    }
    v
}

/// A `String` holding exactly the characters `v[from..to]`.
pub fn string_from_range(v: &Vec<char>, from: usize, to: usize) -> (s: String)
    requires
        from <= to <= v.len(),
    ensures
        s@ == v@.subrange(from as int, to as int),
{
    let mut s = String::new();
    let mut i = from;
    while i < to
        invariant
            from <= i <= to <= v.len(),
            s@ == v@.subrange(from as int, i as int),
        decreases to - i,
    {
        s.push(v[i]);
        i = i + 1;
        assert(s@ =~= v@.subrange(from as int, i as int));
    }
    s
}

/// A `String` holding exactly the characters of `v`.
pub fn string_from(v: &Vec<char>) -> (s: String)
    ensures
        s@ == v@,
{
    let s = string_from_range(v, 0, v.len());
    assert(v@.subrange(0, v@.len() as int) =~= v@);
    s
}

/// The vector `v[from..to]`.
pub fn sub_vec(v: &Vec<char>, from: usize, to: usize) -> (r: Vec<char>)
    requires
        from <= to <= v.len(),
    ensures
        r@ == v@.subrange(from as int, to as int),
{
    let mut r: Vec<char> = Vec::new();
    let mut i = from;
    while i < to
        invariant
            from <= i <= to <= v.len(),
            r@ == v@.subrange(from as int, i as int),
        decreases to - i,
    {
        r.push(v[i]);
        i = i + 1;
        assert(r@ =~= v@.subrange(from as int, i as int));
    }
    r
}

/// Appends all of `w` to `v`.
pub fn append_chars(v: &mut Vec<char>, w: &Vec<char>)
    ensures
        final(v)@ == old(v)@ + w@,
{
    let ghost v0 = v@;
    let mut i: usize = 0;
    while i < w.len()
        invariant
            i <= w.len(),
            v@ == v0 + w@.subrange(0, i as int),
        decreases w.len() - i,
    {
        v.push(w[i]);
        i = i + 1;
        assert(v@ =~= v0 + w@.subrange(0, i as int));
    }
    assert(w@.subrange(0, w@.len() as int) =~= w@);
}

/// Appends all characters of `s` to `v`.
pub fn append_str(v: &mut Vec<char>, s: &str)
    ensures
        final(v)@ == old(v)@ + s@,
{
    let w = chars_of(s);
    append_chars(v, &w);
}

/// Whether two character vectors hold the same characters.
pub fn chars_eq(a: &Vec<char>, b: &Vec<char>) -> (r: bool)
    ensures
        r == (a@ == b@),
{
    if a.len() != b.len() {
        return false;
    }
    let mut i: usize = 0;
    while i < a.len()
        invariant
            a.len() == b.len(),
            i <= a.len(),
            forall|j: int| 0 <= j < i ==> a@[j] == b@[j],
        decreases a.len() - i,
    {
        if a[i] != b[i] {
            return false;
        }
        i = i + 1;
    }
    assert(a@ =~= b@);
    true
}

/// Whether a character vector holds the same characters as a string slice.
pub fn chars_eq_str(a: &Vec<char>, s: &str) -> (r: bool)
    ensures
        r == (a@ == s@),
{
    let b = chars_of(s);
    chars_eq(a, &b)
}

// ───────────────────────── character classes ─────────────────────────

/// Unicode `White_Space`: the characters that `str::trim` removes.
pub open spec fn is_ws(c: char) -> bool {
    let u = c as u32;
    ||| 9 <= u <= 13
    ||| u == 32
    ||| u == 0x85
    ||| u == 0xA0
    ||| u == 0x1680
    ||| 0x2000 <= u <= 0x200A
    ||| u == 0x2028
    ||| u == 0x2029
    ||| u == 0x202F
    ||| u == 0x205F
    ||| u == 0x3000
}

pub fn is_ws_char(c: char) -> (b: bool)
    ensures
        b == is_ws(c),
{
    let u = c as u32;
    (9 <= u && u <= 13) || u == 32 || u == 0x85 || u == 0xA0 || u == 0x1680 || (0x2000 <= u && u
        <= 0x200A) || u == 0x2028 || u == 0x2029 || u == 0x202F || u == 0x205F || u == 0x3000
}

pub open spec fn is_ascii_digit(c: char) -> bool {
    '0' <= c <= '9'
}

pub open spec fn is_ascii_alpha(c: char) -> bool {
    ('a' <= c <= 'z') || ('A' <= c <= 'Z')
}

pub open spec fn is_ascii_alnum(c: char) -> bool {
    is_ascii_digit(c) || is_ascii_alpha(c)
}

pub open spec fn is_ascii_char(c: char) -> bool {
    (c as u32) < 128
}

/// ASCII lower-casing of one character (other characters are unchanged).
pub open spec fn ascii_lower(c: char) -> char {
    if 'A' <= c <= 'Z' {
        ((c as u32) + 32) as char
    } else {
        c
    }
}

pub fn ascii_lower_char(c: char) -> (r: char)
    ensures
        r == ascii_lower(c),
{
    if 'A' <= c && c <= 'Z' {
        let u = (c as u32) + 32;
        assert(0x61 <= u <= 0x7A);
        char_from_ascii_code(u)
    } else {
        c
    }
}

/// The ASCII character with code `u`.
pub fn char_from_ascii_code(u: u32) -> (c: char)
    requires
        u < 128,
    ensures
        c == u as char,
        c as u32 == u,
{
    let b = u as u8;
    b as char
}

/// The character of the decimal digit `d`.
pub open spec fn digit_char(d: int) -> char {
    (('0' as u32) + d) as char
}

pub open spec fn digit_value(c: char) -> int {
    (c as u32) - ('0' as u32)
}

// ───────────────────────── trimming ─────────────────────────

/// The sets of characters that the library trims from the ends of strings.
#[derive(Clone, Copy, PartialEq, Eq)]
pub enum CharClass {
    /// Unicode white space, as `str::trim` removes it.
    Whitespace,
    /// A space or a dot.
    SpaceOrDot,
    /// A dot.
    Dot,
    /// A double quote.
    Quote,
    /// A character that is not Unicode alphanumeric (for ASCII: not a letter
    /// or a digit).
    NotAlphanumeric,
    /// A forward slash.
    Slash,
}

pub open spec fn class_has(k: CharClass, c: char) -> bool {
    match k {
        CharClass::Whitespace => is_ws(c),
        CharClass::SpaceOrDot => c == ' ' || c == '.',
        CharClass::Dot => c == '.',
        CharClass::Quote => c == '"',
        CharClass::NotAlphanumeric => if (c as u32) < 128 {
            !is_ascii_alnum(c)
        } else {
            !crate::external::unicode_alphanumeric(c)
        },
        CharClass::Slash => c == '/',
    }
}

pub fn class_has_char(k: CharClass, c: char) -> (b: bool)
    ensures
        b == class_has(k, c),
{
    match k {
        CharClass::Whitespace => is_ws_char(c),
        CharClass::SpaceOrDot => c == ' ' || c == '.',
        CharClass::Dot => c == '.',
        CharClass::Quote => c == '"',
        CharClass::NotAlphanumeric => !crate::external::is_alphanumeric(c),
        CharClass::Slash => c == '/',
    }
}

/// The first index at or after `i` whose character is not in `k`
/// (or the length when there is none).
pub open spec fn left_end(s: Seq<char>, k: CharClass, i: int) -> int
    decreases s.len() - i,
{
    if 0 <= i < s.len() && class_has(k, s[i]) {
        left_end(s, k, i + 1)
    } else {
        i
    }
}

/// Going left from `j` (but not past `lo`), the end of the last character not in `k`.
pub open spec fn right_end(s: Seq<char>, k: CharClass, lo: int, j: int) -> int
    decreases j,
{
    if 0 <= lo < j <= s.len() && class_has(k, s[j - 1]) {
        right_end(s, k, lo, j - 1)
    } else {
        j
    }
}

/// `s` without the characters of `k` at either end.
pub open spec fn trim_class(s: Seq<char>, k: CharClass) -> Seq<char> {
    let a = left_end(s, k, 0);
    s.subrange(a, right_end(s, k, a, s.len() as int))
}

/// `s` without the characters of `k` at its start.
pub open spec fn trim_start_class(s: Seq<char>, k: CharClass) -> Seq<char> {
    s.subrange(left_end(s, k, 0), s.len() as int)
}

/// `s` without the characters of `k` at its end.
pub open spec fn trim_end_class(s: Seq<char>, k: CharClass) -> Seq<char> {
    s.subrange(0, right_end(s, k, 0, s.len() as int))
}

/// `s` without white space at either end, as `str::trim` gives it.
pub open spec fn trim(s: Seq<char>) -> Seq<char> {
    trim_class(s, CharClass::Whitespace)
}

pub proof fn lemma_left_end_bounds(s: Seq<char>, k: CharClass, i: int)
    requires
        0 <= i <= s.len(),
    ensures
        i <= left_end(s, k, i) <= s.len(),
        forall|j: int| i <= j < left_end(s, k, i) ==> class_has(k, #[trigger] s[j]),
        left_end(s, k, i) < s.len() ==> !class_has(k, s[left_end(s, k, i)]),
    decreases s.len() - i,
{
    if i < s.len() && class_has(k, s[i]) {
        lemma_left_end_bounds(s, k, i + 1);
    }
}

pub proof fn lemma_right_end_bounds(s: Seq<char>, k: CharClass, lo: int, j: int)
    requires
        0 <= lo <= j <= s.len(),
    ensures
        lo <= right_end(s, k, lo, j) <= j,
        forall|m: int| right_end(s, k, lo, j) <= m < j ==> class_has(k, #[trigger] s[m]),
        right_end(s, k, lo, j) > lo ==> !class_has(k, s[right_end(s, k, lo, j) - 1]),
    decreases j,
{
    if lo < j && class_has(k, s[j - 1]) {
        lemma_right_end_bounds(s, k, lo, j - 1);
    }
}

/// The index where the characters of `k` starting at `from` end.
pub fn skip_class_from(v: &Vec<char>, k: CharClass, from: usize) -> (i: usize)
    requires
        from <= v.len(),
    ensures
        i as int == left_end(v@, k, from as int),
        from <= i <= v.len(),
{
    let mut i = from;
    while i < v.len() && class_has_char(k, v[i])
        invariant
            from <= i <= v.len(),
            left_end(v@, k, from as int) == left_end(v@, k, i as int),
        decreases v.len() - i,
    {
        i = i + 1;
    }
    i
}

/// Going left from `to` and not past `lo`, the end of the last character not in `k`.
pub fn rskip_class(v: &Vec<char>, k: CharClass, lo: usize, to: usize) -> (j: usize)
    requires
        lo <= to <= v.len(),
    ensures
        j as int == right_end(v@, k, lo as int, to as int),
        lo <= j <= to,
{
    let mut j = to;
    while j > lo && class_has_char(k, v[j - 1])
        invariant
            lo <= j <= to <= v.len(),
            right_end(v@, k, lo as int, to as int) == right_end(v@, k, lo as int, j as int),
        decreases j,
    {
        j = j - 1;
    }
    j
}

/// `v` without the characters of `k` at either end.
pub fn trim_class_vec(v: &Vec<char>, k: CharClass) -> (r: Vec<char>)
    ensures
        r@ == trim_class(v@, k),
{
    let a = skip_class_from(v, k, 0);
    let b = rskip_class(v, k, a, v.len());
    sub_vec(v, a, b)
}

/// `v` without the characters of `k` at its start.
pub fn trim_start_class_vec(v: &Vec<char>, k: CharClass) -> (r: Vec<char>)
    ensures
        r@ == trim_start_class(v@, k),
{
    let a = skip_class_from(v, k, 0);
    sub_vec(v, a, v.len())
}

/// `v` without the characters of `k` at its end.
pub fn trim_end_class_vec(v: &Vec<char>, k: CharClass) -> (r: Vec<char>)
    ensures
        r@ == trim_end_class(v@, k),
{
    let b = rskip_class(v, k, 0, v.len());
    sub_vec(v, 0, b)
}

/// `v` without white space at either end.
pub fn trim_vec(v: &Vec<char>) -> (r: Vec<char>)
    ensures
        r@ == trim(v@),
{
    trim_class_vec(v, CharClass::Whitespace)
}

/// The characters of `s` without white space at either end.
pub fn trim_str(s: &str) -> (r: Vec<char>)
    ensures
        r@ == trim(s@),
{
    let v = chars_of(s);
    trim_vec(&v)
}

// ───────────────────────── searching ─────────────────────────

/// `pat` occurs in `s` at index `i`.
pub open spec fn matches_at(s: Seq<char>, pat: Seq<char>, i: int) -> bool {
    0 <= i && i + pat.len() <= s.len() && s.subrange(i, i + pat.len()) == pat
}

/// The first index at or after `i` where `pat` occurs in `s`.
pub open spec fn find_from(s: Seq<char>, pat: Seq<char>, i: int) -> Option<int>
    decreases s.len() + 1 - i,
{
    if i < 0 || i + pat.len() > s.len() {
        None
    } else if matches_at(s, pat, i) {
        Some(i)
    } else {
        find_from(s, pat, i + 1)
    }
}

/// The first index where `pat` occurs in `s`, as `str::find` gives it.
pub open spec fn find(s: Seq<char>, pat: Seq<char>) -> Option<int> {
    find_from(s, pat, 0)
}

/// `pat` occurs somewhere in `s`, as `str::contains` says.
pub open spec fn contains(s: Seq<char>, pat: Seq<char>) -> bool {
    find(s, pat) is Some
}

pub open spec fn starts_with(s: Seq<char>, p: Seq<char>) -> bool {
    p.len() <= s.len() && s.subrange(0, p.len() as int) == p
}

pub proof fn lemma_find_from(s: Seq<char>, pat: Seq<char>, i: int)
    requires
        0 <= i,
    ensures
        find_from(s, pat, i) matches Some(k) ==> i <= k && matches_at(s, pat, k) && forall|j: int|
            i <= j < k ==> !matches_at(s, pat, j),
        find_from(s, pat, i) is None ==> forall|j: int| i <= j ==> !matches_at(s, pat, j),
    decreases s.len() + 1 - i,
{
    if i + pat.len() > s.len() {
    } else if matches_at(s, pat, i) {
    } else {
        lemma_find_from(s, pat, i + 1);
    }
}

/// Whether `pat` occurs in `s` at index `i`.
pub fn matches_at_vec(s: &Vec<char>, pat: &Vec<char>, i: usize) -> (r: bool)
    ensures
        r == matches_at(s@, pat@, i as int),
{
    if i > s.len() || pat.len() > s.len() - i {
        return false;
    }
    let mut j: usize = 0;
    while j < pat.len()
        invariant
            i + pat.len() <= s.len(),
            j <= pat.len(),
            forall|m: int| 0 <= m < j ==> s@[i + m] == pat@[m],
        decreases pat.len() - j,
    {
        if s[i + j] != pat[j] {
            assert(s@.subrange(i as int, i + pat.len())[j as int] != pat@[j as int]);
            return false;
        }
        j = j + 1;
    }
    assert(s@.subrange(i as int, i + pat.len()) =~= pat@);
    true
}

/// The first index at or after `from` where `pat` occurs in `s`.
pub fn find_vec_from(s: &Vec<char>, pat: &Vec<char>, from: usize) -> (r: Option<usize>)
    ensures
        match r {
            Some(k) => find_from(s@, pat@, from as int) == Some(k as int),
            None => find_from(s@, pat@, from as int) is None,
        },
{
    let mut i = from;
    while i <= s.len() && pat.len() <= s.len() - i
        invariant
            from <= i,
            find_from(s@, pat@, from as int) == find_from(s@, pat@, i as int),
        decreases s.len() + 1 - i,
    {
        if matches_at_vec(s, pat, i) {
            return Some(i);
        }
        assert(i < s.len()) by {
            if i == s.len() {
                assert(s@.subrange(i as int, i as int) =~= pat@);
            }
        }
        i = i + 1;
    }
    None
}

/// The first index where `pat` occurs in `s`.
pub fn find_vec(s: &Vec<char>, pat: &Vec<char>) -> (r: Option<usize>)
    ensures
        match r {
            Some(k) => find(s@, pat@) == Some(k as int),
            None => find(s@, pat@) is None,
        },
{
    find_vec_from(s, pat, 0)
}

/// The first index at or after `i` where `c` occurs in `s`.
pub open spec fn index_of_from(s: Seq<char>, c: char, i: int) -> Option<int>
    decreases s.len() - i,
{
    if i < 0 || i >= s.len() {
        None
    } else if s[i] == c {
        Some(i)
    } else {
        index_of_from(s, c, i + 1)
    }
}

/// The first index where `c` occurs in `s`.
pub open spec fn index_of(s: Seq<char>, c: char) -> Option<int> {
    index_of_from(s, c, 0)
}

pub proof fn lemma_index_of_from(s: Seq<char>, c: char, i: int)
    requires
        0 <= i,
    ensures
        index_of_from(s, c, i) matches Some(k) ==> i <= k < s.len() && s[k] == c && forall|j: int|
            i <= j < k ==> s[j] != c,
        index_of_from(s, c, i) is None ==> forall|j: int| i <= j < s.len() ==> s[j] != c,
    decreases s.len() - i,
{
    if i < s.len() && s[i] != c {
        lemma_index_of_from(s, c, i + 1);
    }
}

/// The first index at or after `from` where `c` occurs in `v`.
pub fn index_of_vec_from(v: &Vec<char>, c: char, from: usize) -> (r: Option<usize>)
    ensures
        match r {
            Some(k) => index_of_from(v@, c, from as int) == Some(k as int),
            None => index_of_from(v@, c, from as int) is None,
        },
{
    let mut i = from;
    while i < v.len()
        invariant
            from <= i,
            index_of_from(v@, c, from as int) == index_of_from(v@, c, i as int),
        decreases v.len() - i,
    {
        if v[i] == c {
            return Some(i);
        }
        i = i + 1;
    }
    None
}

/// The first index where `c` occurs in `v`.
pub fn index_of_vec(v: &Vec<char>, c: char) -> (r: Option<usize>)
    ensures
        match r {
            Some(k) => index_of(v@, c) == Some(k as int),
            None => index_of(v@, c) is None,
        },
{
    index_of_vec_from(v, c, 0)
}

/// The last index where `c` occurs in `s[..j]`.
pub open spec fn last_index_of_before(s: Seq<char>, c: char, j: int) -> Option<int>
    decreases j,
{
    if j <= 0 || j > s.len() {
        None
    } else if s[j - 1] == c {
        Some(j - 1)
    } else {
        last_index_of_before(s, c, j - 1)
    }
}

/// The last index where `c` occurs in `s`, as `str::rfind` gives it.
pub open spec fn last_index_of(s: Seq<char>, c: char) -> Option<int> {
    last_index_of_before(s, c, s.len() as int)
}

pub proof fn lemma_last_index_of_before(s: Seq<char>, c: char, j: int)
    requires
        j <= s.len(),
    ensures
        last_index_of_before(s, c, j) matches Some(k) ==> 0 <= k < j && s[k] == c,
    decreases j,
{
    if j > 0 && s[j - 1] != c {
        lemma_last_index_of_before(s, c, j - 1);
    }
}

/// The last index where `c` occurs in `v`.
pub fn last_index_of_vec(v: &Vec<char>, c: char) -> (r: Option<usize>)
    ensures
        match r {
            Some(k) => last_index_of(v@, c) == Some(k as int),
            None => last_index_of(v@, c) is None,
        },
{
    let mut j = v.len();
    while j > 0
        invariant
            j <= v.len(),
            last_index_of(v@, c) == last_index_of_before(v@, c, j as int),
        decreases j,
    {
        if v[j - 1] == c {
            return Some(j - 1);
        }
        j = j - 1;
    }
    None
}

/// Whether `p` is a prefix of `v`.
pub fn starts_with_vec(v: &Vec<char>, p: &Vec<char>) -> (r: bool)
    ensures
        r == starts_with(v@, p@),
{
    let r = matches_at_vec(v, p, 0);
    r
}

/// Whether the characters of `p` are a prefix of `v`.
pub fn starts_with_str(v: &Vec<char>, p: &str) -> (r: bool)
    ensures
        r == starts_with(v@, p@),
{
    let pv = chars_of(p);
    starts_with_vec(v, &pv)
}

/// Whether `p` is a suffix of `v`.
pub open spec fn ends_with(s: Seq<char>, p: Seq<char>) -> bool {
    p.len() <= s.len() && s.subrange(s.len() - p.len(), s.len() as int) == p
}

/// Whether the characters of `p` occur in `v`.
pub fn contains_str(v: &Vec<char>, p: &str) -> (r: bool)
    ensures
        r == contains(v@, p@),
{
    let pv = chars_of(p);
    let r = find_vec(v, &pv);
    r.is_some()
}

// ───────────────────────── replacing ─────────────────────────

/// `s[i..]` with every occurrence of `pat` (found left to right, without
/// overlap) replaced by `rep`.
pub open spec fn replace_from(s: Seq<char>, pat: Seq<char>, rep: Seq<char>, i: int) -> Seq<char>
    decreases s.len() - i,
{
    if i < 0 || i >= s.len() {
        Seq::empty()
    } else if pat.len() > 0 && matches_at(s, pat, i) {
        rep + replace_from(s, pat, rep, i + pat.len())
    } else {
        seq![s[i]] + replace_from(s, pat, rep, i + 1)
    }
}

/// `s` with every occurrence of `pat` replaced by `rep`, as `str::replace` gives it.
pub open spec fn replace_all(s: Seq<char>, pat: Seq<char>, rep: Seq<char>) -> Seq<char> {
    replace_from(s, pat, rep, 0)
}

/// `v` with every occurrence of `pat` replaced by `rep`.
pub fn replace_vec(v: &Vec<char>, pat: &Vec<char>, rep: &Vec<char>) -> (r: Vec<char>)
    requires
        pat.len() > 0,
    ensures
        r@ == replace_all(v@, pat@, rep@),
{
    let mut out: Vec<char> = Vec::new();
    let mut i: usize = 0;
    while i < v.len()
        invariant
            pat.len() > 0,
            i <= v.len(),
            out@ + replace_from(v@, pat@, rep@, i as int) == replace_all(v@, pat@, rep@),
        decreases v.len() - i,
    {
        let ghost before = out@;
        if matches_at_vec(v, pat, i) {
            append_chars(&mut out, rep);
            assert(out@ + replace_from(v@, pat@, rep@, i + pat@.len()) =~= before + replace_from(
                v@,
                pat@,
                rep@,
                i as int,
            ));
            i = i + pat.len();
        } else {
            out.push(v[i]);
            assert(out@ + replace_from(v@, pat@, rep@, i + 1) =~= before + replace_from(
                v@,
                pat@,
                rep@,
                i as int,
            ));
            i = i + 1;
        }
    }
    assert(replace_from(v@, pat@, rep@, i as int) =~= Seq::<char>::empty());
    assert(out@ + Seq::<char>::empty() =~= out@);
    out
}

/// `v` with every occurrence of the characters of `pat` replaced by those of `rep`.
pub fn replace_str(v: &Vec<char>, pat: &str, rep: &str) -> (r: Vec<char>)
    requires
        pat@.len() > 0,
    ensures
        r@ == replace_all(v@, pat@, rep@),
{
    let p = chars_of(pat);
    let q = chars_of(rep);
    replace_vec(v, &p, &q)
}

// ───────────────────────── splitting ─────────────────────────

/// The pieces of `s` between the occurrences of `c`, as `str::split` yields them.
pub open spec fn split_char(s: Seq<char>, c: char) -> Seq<Seq<char>>
    decreases s.len(),
{
    match index_of(s, c) {
        Some(k) => if 0 <= k < s.len() {
            seq![s.subrange(0, k)] + split_char(s.subrange(k + 1, s.len() as int), c)
        } else {
            seq![s]
        },
        None => seq![s],
    }
}

/// The piece of `s` before the first `c` (all of `s` when there is none):
/// the first item that `str::split` yields.
pub open spec fn before_char(s: Seq<char>, c: char) -> Seq<char> {
    match index_of(s, c) {
        Some(k) => s.subrange(0, k),
        None => s,
    }
}

/// The piece of `s` after the first `c`.
pub open spec fn after_char(s: Seq<char>, c: char) -> Seq<char> {
    match index_of(s, c) {
        Some(k) => s.subrange(k + 1, s.len() as int),
        None => Seq::empty(),
    }
}

pub proof fn lemma_split_char_first(s: Seq<char>, c: char)
    ensures
        split_char(s, c).len() >= 1,
        split_char(s, c)[0] == before_char(s, c),
        index_of(s, c) is Some ==> split_char(s, c).drop_first() == split_char(after_char(s, c), c),
        index_of(s, c) is None ==> split_char(s, c).len() == 1,
{
    lemma_index_of_from(s, c, 0);
    match index_of(s, c) {
        Some(k) => {
            assert(split_char(s, c).drop_first() =~= split_char(after_char(s, c), c));
        },
        None => {},
    }
}

/// The characters of `v` before the first `c`.
pub fn before_char_vec(v: &Vec<char>, c: char) -> (r: Vec<char>)
    ensures
        r@ == before_char(v@, c),
{
    proof {
        lemma_index_of_from(v@, c, 0);
    }
    match index_of_vec(v, c) {
        Some(k) => sub_vec(v, 0, k),
        None => sub_vec(v, 0, v.len()),
    }
}

/// The texts a list of character vectors holds.
pub open spec fn vecs_view(v: Seq<Vec<char>>) -> Seq<Seq<char>> {
    v.map_values(|p: Vec<char>| p@)
}

/// All the pieces of `v` between the occurrences of `c`.
pub fn split_char_vec(v: &Vec<char>, c: char) -> (parts: Vec<Vec<char>>)
    ensures
        vecs_view(parts@) == split_char(v@, c),
{
    let mut parts: Vec<Vec<char>> = Vec::new();
    let mut start: usize = 0;
    assert(v@.subrange(0, v@.len() as int) =~= v@);
    assert(vecs_view(parts@) =~= Seq::<Seq<char>>::empty());
    assert(Seq::<Seq<char>>::empty() + split_char(v@, c) =~= split_char(v@, c));
    loop
        invariant
            start <= v.len(),
            vecs_view(parts@) + split_char(
                v@.subrange(start as int, v.len() as int),
                c,
            ) == split_char(v@, c),
        decreases v.len() - start,
    {
        let ghost rest = v@.subrange(start as int, v.len() as int);
        let ghost before = vecs_view(parts@);
        proof {
            lemma_index_of_from(rest, c, 0);
        }
        match index_of_vec_from(v, c, start) {
            Some(k) => {
                proof {
                    lemma_index_of_from(v@, c, start as int);
                    assert(index_of(rest, c) == Some(k - start)) by {
                        assert(rest[k - start] == c);
                        assert forall|j: int| 0 <= j < k - start implies rest[j] != c by {
                            assert(rest[j] == v@[start + j]);
                        }
                        lemma_index_of_unique(rest, c, k - start);
                    }
                }
                let piece = sub_vec(v, start, k);
                parts.push(piece);
                proof {
                    assert(rest.subrange(0, k - start) =~= v@.subrange(start as int, k as int));
                    assert(rest.subrange(k - start + 1, rest.len() as int) =~= v@.subrange(
                        k + 1,
                        v.len() as int,
                    ));
                    assert(vecs_view(parts@) =~= before.push(
                        v@.subrange(start as int, k as int),
                    ));
                    assert(split_char(rest, c) =~= seq![v@.subrange(start as int, k as int)]
                        + split_char(v@.subrange(k + 1, v.len() as int), c));
                    assert(vecs_view(parts@) + split_char(
                        v@.subrange(k + 1, v.len() as int),
                        c,
                    ) =~= before + split_char(rest, c));
                }
                start = k + 1;
            },
            None => {
                proof {
                    lemma_index_of_from(v@, c, start as int);
                    assert(index_of(rest, c) is None) by {
                        if index_of(rest, c) is Some {
                            let k = index_of(rest, c)->0;
                            assert(rest[k] == v@[start + k]);
                        }
                    }
                }
                let piece = sub_vec(v, start, v.len());
                parts.push(piece);
                proof {
                    assert(vecs_view(parts@) =~= before.push(rest));
                    assert(split_char(rest, c) =~= seq![rest]);
                    assert(vecs_view(parts@) =~= before + split_char(rest, c));
                }
                return parts;
            },
        }
    }
}

/// An index `k` with `s[k] == c` and no earlier `c` is the first index of `c`.
pub proof fn lemma_index_of_unique(s: Seq<char>, c: char, k: int)
    requires
        0 <= k < s.len(),
        s[k] == c,
        forall|j: int| 0 <= j < k ==> s[j] != c,
    ensures
        index_of(s, c) == Some(k),
{
    lemma_index_of_from(s, c, 0);
    match index_of(s, c) {
        Some(m) => {
            if m < k {
            } else if m > k {
            }
        },
        None => {},
    }
}

// ───────────────────────── decimal numbers ─────────────────────────

/// The decimal digits of `n`, without leading zeros, as `u64::to_string` writes them.
pub open spec fn decimal(n: nat) -> Seq<char>
    decreases n,
{
    if n < 10 {
        seq![digit_char(n as int)]
    } else {
        decimal(n / 10).push(digit_char((n % 10) as int))
    }
}

/// The decimal writing of a number is made of ASCII digits, at least one.
pub proof fn lemma_decimal_digits(n: nat)
    ensures
        decimal(n).len() >= 1,
        forall|j: int| 0 <= j < decimal(n).len() ==> is_ascii_digit(#[trigger] decimal(n)[j]),
    decreases n,
{
    if n >= 10 {
        lemma_decimal_digits(n / 10);
        let d = (n % 10) as int;
        assert(is_ascii_digit(digit_char(d)));
        assert forall|j: int| 0 <= j < decimal(n).len() implies is_ascii_digit(
            #[trigger] decimal(n)[j],
        ) by {
            if j < decimal(n / 10).len() {
                assert(decimal(n)[j] == decimal(n / 10)[j]);
            }
        }
    } else {
        assert(is_ascii_digit(digit_char(n as int)));
    }
}

/// The decimal digits of `n`.
pub fn decimal_vec(n: u64) -> (r: Vec<char>)
    ensures
        r@ == decimal(n as nat),
    decreases n,
{
    if n < 10 {
        let mut r: Vec<char> = Vec::new();
        r.push(char_from_ascii_code(48 + n as u32));
        assert(r@ =~= seq![digit_char(n as int)]);
        r
    } else {
        let mut r = decimal_vec(n / 10);
        r.push(char_from_ascii_code(48 + (n % 10) as u32));
        r
    }
}

/// `u64::to_string`.
pub fn u64_to_string(n: u64) -> (s: String)
    ensures
        s@ == decimal(n as nat),
{
    let v = decimal_vec(n);
    string_from(&v)
}

/// The number that a non-empty run of ASCII digits denotes.
pub open spec fn digits_value(s: Seq<char>) -> nat
    decreases s.len(),
{
    if s.len() == 0 {
        0
    } else {
        (digits_value(s.drop_last()) * 10 + digit_value(s.last())) as nat
    }
}

pub open spec fn all_digits(s: Seq<char>) -> bool {
    forall|i: int| 0 <= i < s.len() ==> is_ascii_digit(#[trigger] s[i])
}

/// Why `str::parse::<u64>` refuses a text.
#[derive(Debug, Clone, Copy, PartialEq, Eq)]
pub enum IntErrorKind {
    /// The text is empty.
    Empty,
    /// A character is not a digit (met before any overflow).
    InvalidDigit,
    /// The number does not fit in a `u64` (noticed before any bad character).
    PosOverflow,
}

impl IntErrorKind {
    /// The text `std` gives the error: what the command line prints.
    pub fn message(&self) -> (m: &'static str)
        ensures
            m@ == match *self {
                IntErrorKind::Empty => "cannot parse integer from empty string"@,
                IntErrorKind::InvalidDigit => "invalid digit found in string"@,
                IntErrorKind::PosOverflow => "number too large to fit in target type"@,
            },
    {
        match self {
            IntErrorKind::Empty => "cannot parse integer from empty string",
            IntErrorKind::InvalidDigit => "invalid digit found in string",
            IntErrorKind::PosOverflow => "number too large to fit in target type",
        }
    }
}

/// Reads the digits of `s` from index `i`, `acc` being the value so far.
pub open spec fn scan_digits(s: Seq<char>, i: int, acc: int) -> Result<u64, IntErrorKind>
    decreases s.len() - i,
{
    if i < 0 || i >= s.len() {
        if 0 <= acc <= u64::MAX {
            Ok(acc as u64)
        } else {
            Err(IntErrorKind::PosOverflow)
        }
    } else if !is_ascii_digit(s[i]) {
        Err(IntErrorKind::InvalidDigit)
    } else if acc * 10 + digit_value(s[i]) > u64::MAX {
        Err(IntErrorKind::PosOverflow)
    } else {
        scan_digits(s, i + 1, acc * 10 + digit_value(s[i]))
    }
}

/// The result of `str::parse::<u64>`: an optional `+`, then ASCII digits,
/// read left to right until a bad character or an overflow.
pub open spec fn spec_parse_u64(s: Seq<char>) -> Result<u64, IntErrorKind> {
    if s.len() == 0 {
        Err(IntErrorKind::Empty)
    } else if (s[0] == '+' || s[0] == '-') && s.len() == 1 {
        Err(IntErrorKind::InvalidDigit)
    } else if s[0] == '+' {
        scan_digits(s, 1, 0)
    } else {
        scan_digits(s, 0, 0)
    }
}

/// The number that `str::parse::<u64>` reads from `s`, if any.
pub open spec fn parse_u64(s: Seq<char>) -> Option<u64> {
    match spec_parse_u64(s) {
        Ok(v) => Some(v),
        Err(_) => None,
    }
}

/// `str::parse::<u64>` on the characters of `v`.
pub fn parse_u64_chars(v: &Vec<char>) -> (r: Result<u64, IntErrorKind>)
    ensures
        r == spec_parse_u64(v@),
{
    if v.len() == 0 {
        return Err(IntErrorKind::Empty);
    }
    if (v[0] == '+' || v[0] == '-') && v.len() == 1 {
        return Err(IntErrorKind::InvalidDigit);
    }
    let mut i: usize = if v[0] == '+' {
        1
    } else {
        0
    };
    let mut acc: u64 = 0;
    while i < v.len()
        invariant
            i <= v.len(),
            spec_parse_u64(v@) == scan_digits(v@, i as int, acc as int),
        decreases v.len() - i,
    {
        let c = v[i];
        if !('0' <= c && c <= '9') {
            return Err(IntErrorKind::InvalidDigit);
        }
        let d = (c as u32 - '0' as u32) as u64;
        match acc.checked_mul(10) {
            None => {
                return Err(IntErrorKind::PosOverflow);
            },
            Some(a) => match a.checked_add(d) {
                None => {
                    return Err(IntErrorKind::PosOverflow);
                },
                Some(b) => {
                    acc = b;
                },
            },
        }
        i = i + 1;
    }
    Ok(acc)
}

/// `str::parse::<u64>` on the characters `v[from..to]`.
pub fn parse_u64_range(v: &Vec<char>, from: usize, to: usize) -> (r: Option<u64>)
    requires
        from <= to <= v.len(),
    ensures
        r == parse_u64(v@.subrange(from as int, to as int)),
{
    let w = sub_vec(v, from, to);
    match parse_u64_chars(&w) {
        Ok(n) => Some(n),
        Err(_) => None,
    }
}

/// A prefix of a digit run denotes at most what the whole run denotes.
pub proof fn lemma_digits_value_prefix_le(s: Seq<char>, n: int)
    requires
        0 <= n <= s.len(),
        all_digits(s),
    ensures
        digits_value(s.subrange(0, n)) <= digits_value(s),
    decreases s.len() - n,
{
    if n < s.len() {
        lemma_digits_value_prefix_le(s, n + 1);
        assert(s.subrange(0, n + 1).drop_last() =~= s.subrange(0, n));
        assert(is_ascii_digit(s[n]));
    } else {
        assert(s.subrange(0, n) =~= s);
    }
}


// ───────────────────────── UTF-8 lengths ─────────────────────────

/// The bytes the UTF-8 encoding of a character takes.
pub open spec fn utf8_width(c: char) -> int {
    let u = c as u32;
    if u < 0x80 {
        1
    } else if u < 0x800 {
        2
    } else if u < 0x10000 {
        3
    } else {
        4
    }
}

pub fn utf8_width_of(c: char) -> (w: usize)
    ensures
        w as int == utf8_width(c),
{
    let u = c as u32;
    if u < 0x80 {
        1
    } else if u < 0x800 {
        2
    } else if u < 0x10000 {
        3
    } else {
        4
    }
}

/// The bytes the UTF-8 encoding of `s` takes, as `str::len` counts them.
pub open spec fn utf8_len(s: Seq<char>) -> int
    decreases s.len(),
{
    if s.len() == 0 {
        0
    } else {
        utf8_len(s.drop_last()) + utf8_width(s.last())
    }
}

pub proof fn lemma_utf8_len_nonneg(s: Seq<char>)
    ensures
        utf8_len(s) >= s.len(),
    decreases s.len(),
{
    if s.len() > 0 {
        lemma_utf8_len_nonneg(s.drop_last());
    }
}

/// The UTF-8 length of `v[from..to]`, or `cap` if that is less.
pub fn utf8_len_capped(v: &Vec<char>, from: usize, to: usize, cap: usize) -> (n: usize)
    requires
        from <= to <= v.len(),
    ensures
        n as int == if utf8_len(v@.subrange(from as int, to as int)) < cap {
            utf8_len(v@.subrange(from as int, to as int))
        } else {
            cap as int
        },
{
    let mut acc: usize = 0;
    let mut i = from;
    proof {
        assert(v@.subrange(from as int, from as int).len() == 0);
    }
    while i < to
        invariant
            from <= i <= to <= v.len(),
            acc <= cap,
            acc as int == if utf8_len(v@.subrange(from as int, i as int)) < cap {
                utf8_len(v@.subrange(from as int, i as int))
            } else {
                cap as int
            },
        decreases to - i,
    {
        proof {
            assert(v@.subrange(from as int, i + 1).drop_last() =~= v@.subrange(from as int, i as int));
            lemma_utf8_len_nonneg(v@.subrange(from as int, i as int));
        }
        let w = utf8_width_of(v[i]);
        if acc < cap {
            if w < cap - acc {
                acc = acc + w;
            } else {
                acc = cap;
            }
        }
        i = i + 1;
    }
    acc
}

} // verus!
