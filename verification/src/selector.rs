//! Format selector expressions (`bestvideo[height<=1080]+bestaudio/best`):
//! their grammar, their parser, and the choice of formats they make.
use crate::text::{
    before_char, before_char_vec, chars_eq_str, chars_of, find, index_of, index_of_from,
    index_of_vec, index_of_vec_from, lemma_index_of_from, sub_vec, string_from, trim, trim_vec,
    find_vec, lemma_find_from, matches_at, left_end, right_end, lemma_left_end_bounds,
    is_ascii_alpha, is_ws,
    lemma_right_end_bounds, CharClass,
};
use crate::types::{
    formats_view, spec_audio_score, spec_is_audio_only, spec_is_combined, spec_is_video_only,
    spec_total_score, spec_video_score, Format, FormatView,
};
use crate::number::{
    lemma_pow10_23, lemma_pow10_add, pow10, parse_number, spec_parse_float, spec_relate_thousandths, FloatText, Number,
    Relation,
};
use vstd::prelude::*;

verus! {

broadcast use vstd::string::group_string_axioms;

// ───────────────────────── the selector language ─────────────────────────

#[derive(Debug, Clone, Copy, PartialEq, Eq)]
pub enum FilterOp {
    Eq,
    Ne,
    Lt,
    Le,
    Gt,
    Ge,
}

/// The right-hand side of a filter.
#[derive(Debug)]
pub enum FilterValue {
    Str(String),
    Num(Number),
}

pub enum SpecValue {
    Str(Seq<char>),
    Num(FloatText),
}

impl View for FilterValue {
    type V = SpecValue;

    open spec fn view(&self) -> SpecValue {
        match self {
            FilterValue::Str(s) => SpecValue::Str(s@),
            FilterValue::Num(d) => SpecValue::Num(d@),
        }
    }
}

/// One `[field op value]` condition.
#[derive(Debug)]
pub struct FormatFilter {
    pub field: String,
    pub op: FilterOp,
    pub value: FilterValue,
}

pub struct SpecFilter {
    pub field: Seq<char>,
    pub op: FilterOp,
    pub value: SpecValue,
}

impl View for FormatFilter {
    type V = SpecFilter;

    open spec fn view(&self) -> SpecFilter {
        SpecFilter { field: self.field@, op: self.op, value: self.value@ }
    }
}

pub open spec fn filters_view(v: Seq<FormatFilter>) -> Seq<SpecFilter> {
    v.map_values(|f: FormatFilter| f@)
}

/// A parsed format selector.
#[derive(Debug)]
pub enum FormatSelector {
    Best,
    Worst,
    BestVideo,
    WorstVideo,
    BestAudio,
    WorstAudio,
    ById(String),
    Merge(Box<FormatSelector>, Box<FormatSelector>),
    Fallback(Box<FormatSelector>, Box<FormatSelector>),
    Filtered(Box<FormatSelector>, Vec<FormatFilter>),
}

pub enum SpecSelector {
    Best,
    Worst,
    BestVideo,
    WorstVideo,
    BestAudio,
    WorstAudio,
    ById(Seq<char>),
    Merge(Box<SpecSelector>, Box<SpecSelector>),
    Fallback(Box<SpecSelector>, Box<SpecSelector>),
    Filtered(Box<SpecSelector>, Seq<SpecFilter>),
}

pub open spec fn selector_view(s: FormatSelector) -> SpecSelector
    decreases s,
{
    match s {
        FormatSelector::Best => SpecSelector::Best,
        FormatSelector::Worst => SpecSelector::Worst,
        FormatSelector::BestVideo => SpecSelector::BestVideo,
        FormatSelector::WorstVideo => SpecSelector::WorstVideo,
        FormatSelector::BestAudio => SpecSelector::BestAudio,
        FormatSelector::WorstAudio => SpecSelector::WorstAudio,
        FormatSelector::ById(id) => SpecSelector::ById(id@),
        FormatSelector::Merge(a, b) => SpecSelector::Merge(
            Box::new(selector_view(*a)),
            Box::new(selector_view(*b)),
        ),
        FormatSelector::Fallback(a, b) => SpecSelector::Fallback(
            Box::new(selector_view(*a)),
            Box::new(selector_view(*b)),
        ),
        FormatSelector::Filtered(a, fs) => SpecSelector::Filtered(
            Box::new(selector_view(*a)),
            filters_view(fs@),
        ),
    }
}

impl View for FormatSelector {
    type V = SpecSelector;

    open spec fn view(&self) -> SpecSelector {
        selector_view(*self)
    }
}

/// Why a selector expression was refused.
#[derive(Debug)]
pub enum SelectorError {
    /// A `[` without a matching `]`.
    UnclosedBracket,
    /// A filter with none of the operators `<= >= != = < >`; holds the filter's text.
    BadFilter(String),
}

pub enum SpecSelectorError {
    UnclosedBracket,
    BadFilter(Seq<char>),
}

impl View for SelectorError {
    type V = SpecSelectorError;

    open spec fn view(&self) -> SpecSelectorError {
        match self {
            SelectorError::UnclosedBracket => SpecSelectorError::UnclosedBracket,
            SelectorError::BadFilter(s) => SpecSelectorError::BadFilter(s@),
        }
    }
}

impl SelectorError {
    /// The message the command line prints for this error.
    pub fn message(&self) -> (m: String)
        ensures
            m@ == match self@ {
                SpecSelectorError::UnclosedBracket => "Unclosed '[' in filter"@,
                SpecSelectorError::BadFilter(s) => "Cannot parse filter: "@ + s,
            },
    {
        match self {
            SelectorError::UnclosedBracket => String::from_str("Unclosed '[' in filter"),
            SelectorError::BadFilter(s) => {
                let mut v = chars_of("Cannot parse filter: ");
                let w = chars_of(s.as_str());
                crate::text::append_chars(&mut v, &w);
                string_from(&v)
            },
        }
    }
}

// ───────────────────────── grammar ─────────────────────────

/// The first index at or after `i` holding `c` outside brackets, where
/// `depth` is the bracket depth before index `i`.
pub open spec fn find_top_from(s: Seq<char>, c: char, i: int, depth: int) -> Option<int>
    decreases s.len() - i,
{
    if i < 0 || i >= s.len() {
        None
    } else if s[i] == '[' {
        find_top_from(s, c, i + 1, depth + 1)
    } else if s[i] == ']' {
        find_top_from(s, c, i + 1, depth - 1)
    } else if s[i] == c && depth == 0 {
        Some(i)
    } else {
        find_top_from(s, c, i + 1, depth)
    }
}

/// The first index holding `c` outside brackets.
pub open spec fn find_top(s: Seq<char>, c: char) -> Option<int> {
    find_top_from(s, c, 0, 0)
}

pub proof fn lemma_find_top_from(s: Seq<char>, c: char, i: int, depth: int)
    requires
        0 <= i,
    ensures
        find_top_from(s, c, i, depth) matches Some(k) ==> i <= k < s.len() && s[k] == c,
    decreases s.len() - i,
{
    if i < s.len() {
        if s[i] == '[' {
            lemma_find_top_from(s, c, i + 1, depth + 1);
        } else if s[i] == ']' {
            lemma_find_top_from(s, c, i + 1, depth - 1);
        } else if s[i] == c && depth == 0 {
        } else {
            lemma_find_top_from(s, c, i + 1, depth);
        }
    }
}

pub proof fn lemma_trim_len(s: Seq<char>)
    ensures
        trim(s).len() <= s.len(),
{
    lemma_left_end_bounds(s, CharClass::Whitespace, 0);
    let a = left_end(s, CharClass::Whitespace, 0);
    lemma_right_end_bounds(s, CharClass::Whitespace, a, s.len() as int);
}

/// A selector keyword, or else a format id.
pub open spec fn spec_keyword(s: Seq<char>) -> SpecSelector {
    let t = trim(s);
    if t == "best"@ || t == "b"@ {
        SpecSelector::Best
    } else if t == "worst"@ || t == "w"@ {
        SpecSelector::Worst
    } else if t == "bestvideo"@ || t == "bv"@ {
        SpecSelector::BestVideo
    } else if t == "worstvideo"@ || t == "wv"@ {
        SpecSelector::WorstVideo
    } else if t == "bestaudio"@ || t == "ba"@ {
        SpecSelector::BestAudio
    } else if t == "worstaudio"@ || t == "wa"@ {
        SpecSelector::WorstAudio
    } else {
        SpecSelector::ById(t)
    }
}

/// A filter's value: a number when it reads as one (as `str::parse::<f64>`
/// reads numbers), else the text itself.
pub open spec fn spec_filter_value(s: Seq<char>) -> SpecValue {
    match spec_parse_float(s) {
        Some(x) => SpecValue::Num(x),
        None => SpecValue::Str(s),
    }
}

/// The operators, in the order they are looked for.
pub open spec fn op_text(i: int) -> Seq<char> {
    if i == 0 {
        "<="@
    } else if i == 1 {
        ">="@
    } else if i == 2 {
        "!="@
    } else if i == 3 {
        "="@
    } else if i == 4 {
        "<"@
    } else {
        ">"@
    }
}

pub open spec fn op_kind(i: int) -> FilterOp {
    if i == 0 {
        FilterOp::Le
    } else if i == 1 {
        FilterOp::Ge
    } else if i == 2 {
        FilterOp::Ne
    } else if i == 3 {
        FilterOp::Eq
    } else if i == 4 {
        FilterOp::Lt
    } else {
        FilterOp::Gt
    }
}

/// A filter split at the first occurrence of the first operator (in the order
/// `<= >= != = < >`) that occurs in it at all.
pub open spec fn spec_parse_filter_from(s: Seq<char>, i: int) -> Result<
    SpecFilter,
    SpecSelectorError,
>
    decreases 6 - i,
{
    if i < 0 || i >= 6 {
        Err(SpecSelectorError::BadFilter(s))
    } else {
        match find(s, op_text(i)) {
            Some(pos) => Ok(
                SpecFilter {
                    field: trim(s.subrange(0, pos)),
                    op: op_kind(i),
                    value: spec_filter_value(
                        trim(s.subrange(pos + op_text(i).len(), s.len() as int)),
                    ),
                },
            ),
            None => spec_parse_filter_from(s, i + 1),
        }
    }
}

pub open spec fn spec_parse_filter(s: Seq<char>) -> Result<SpecFilter, SpecSelectorError> {
    spec_parse_filter_from(s, 0)
}

/// The filters of `[f1][f2]...`; text between the bracketed parts is skipped.
pub open spec fn spec_parse_filters(s: Seq<char>) -> Result<Seq<SpecFilter>, SpecSelectorError>
    decreases s.len(),
{
    match index_of(s, '[') {
        None => Ok(Seq::empty()),
        Some(open) => match index_of_from(s, ']', open) {
            None => Err(SpecSelectorError::UnclosedBracket),
            Some(close) => if 0 <= open < close < s.len() {
                match spec_parse_filter(s.subrange(open + 1, close)) {
                    Err(e) => Err(e),
                    Ok(f) => match spec_parse_filters(s.subrange(close + 1, s.len() as int)) {
                        Err(e) => Err(e),
                        Ok(rest) => Ok(seq![f] + rest),
                    },
                }
            } else {
                Err(SpecSelectorError::UnclosedBracket)
            },
        },
    }
}

/// The selector that an expression denotes: split at the first `/` outside
/// brackets (fallback), else at the first `+` outside brackets (merge), else
/// a keyword or id followed by filters.
pub open spec fn spec_parse_selector(s: Seq<char>) -> Result<SpecSelector, SpecSelectorError>
    decreases s.len(),
{
    match find_top(s, '/') {
        Some(k) => {
            let l = trim(s.subrange(0, k));
            let r = trim(s.subrange(k + 1, s.len() as int));
            if l.len() < s.len() && r.len() < s.len() {
                match spec_parse_selector(l) {
                    Err(e) => Err(e),
                    Ok(a) => match spec_parse_selector(r) {
                        Err(e) => Err(e),
                        Ok(b) => Ok(SpecSelector::Fallback(Box::new(a), Box::new(b))),
                    },
                }
            } else {
                Err(SpecSelectorError::UnclosedBracket)
            }
        },
        None => match find_top(s, '+') {
            Some(k) => {
                let l = trim(s.subrange(0, k));
                let r = trim(s.subrange(k + 1, s.len() as int));
                if l.len() < s.len() && r.len() < s.len() {
                    match spec_parse_selector(l) {
                        Err(e) => Err(e),
                        Ok(a) => match spec_parse_selector(r) {
                            Err(e) => Err(e),
                            Ok(b) => Ok(SpecSelector::Merge(Box::new(a), Box::new(b))),
                        },
                    }
                } else {
                    Err(SpecSelectorError::UnclosedBracket)
                }
            },
            None => match index_of(s, '[') {
                Some(b) => match spec_parse_filters(s.subrange(b, s.len() as int)) {
                    Err(e) => Err(e),
                    Ok(fs) => Ok(
                        SpecSelector::Filtered(Box::new(spec_keyword(s.subrange(0, b))), fs),
                    ),
                },
                None => Ok(spec_keyword(s)),
            },
        },
    }
}

// ───────────────────────── parser ─────────────────────────

/// The first index at or after `from` holding `c` outside brackets.
fn find_top_vec(v: &Vec<char>, c: char) -> (r: Option<usize>)
    ensures
        match r {
            Some(k) => find_top(v@, c) == Some(k as int),
            None => find_top(v@, c) is None,
        },
{
    let mut depth: i128 = 0;
    let mut i: usize = 0;
    while i < v.len()
        invariant
            i <= v.len(),
            -(i as int) <= depth <= i,
            find_top(v@, c) == find_top_from(v@, c, i as int, depth as int),
        decreases v.len() - i,
    {
        let ch = v[i];
        if ch == '[' {
            depth = depth + 1;
        } else if ch == ']' {
            depth = depth - 1;
        } else if ch == c && depth == 0 {
            return Some(i);
        }
        i = i + 1;
    }
    None
}

/// Where a fallback splits a selector: the first `/` outside brackets.
fn find_slash(v: &Vec<char>) -> (r: Option<usize>)
    ensures
        match r {
            Some(k) => find_top(v@, '/') == Some(k as int),
            None => find_top(v@, '/') is None,
        },
{
    find_top_vec(v, '/')
}

/// Where a merge splits a selector: the first `+` outside brackets.
fn find_plus(v: &Vec<char>) -> (r: Option<usize>)
    ensures
        match r {
            Some(k) => find_top(v@, '+') == Some(k as int),
            None => find_top(v@, '+') is None,
        },
{
    find_top_vec(v, '+')
}

/// Whether the characters of `v` are those of `lit`.
fn is_word(v: &Vec<char>, lit: &str) -> (b: bool)
    ensures
        b == (v@ == lit@),
{
    chars_eq_str(v, lit)
}

fn parse_selector_keyword(v: &Vec<char>) -> (sel: FormatSelector)
    ensures
        sel@ == spec_keyword(v@),
{
    let t = trim_vec(v);
    if is_word(&t, "best") || is_word(&t, "b") {
        FormatSelector::Best
    } else if is_word(&t, "worst") || is_word(&t, "w") {
        FormatSelector::Worst
    } else if is_word(&t, "bestvideo") || is_word(&t, "bv") {
        FormatSelector::BestVideo
    } else if is_word(&t, "worstvideo") || is_word(&t, "wv") {
        FormatSelector::WorstVideo
    } else if is_word(&t, "bestaudio") || is_word(&t, "ba") {
        FormatSelector::BestAudio
    } else if is_word(&t, "worstaudio") || is_word(&t, "wa") {
        FormatSelector::WorstAudio
    } else {
        FormatSelector::ById(string_from(&t))
    }
}

fn filter_value(v: Vec<char>) -> (r: FilterValue)
    ensures
        r@ == spec_filter_value(v@),
{
    match parse_number(&v) {
        Some(x) => FilterValue::Num(x),
        None => FilterValue::Str(string_from(&v)),
    }
}

fn op_entry(i: usize) -> (r: (&'static str, FilterOp))
    requires
        i < 6,
    ensures
        r.0@ == op_text(i as int),
        r.1 == op_kind(i as int),
{
    if i == 0 {
        ("<=", FilterOp::Le)
    } else if i == 1 {
        (">=", FilterOp::Ge)
    } else if i == 2 {
        ("!=", FilterOp::Ne)
    } else if i == 3 {
        ("=", FilterOp::Eq)
    } else if i == 4 {
        ("<", FilterOp::Lt)
    } else {
        (">", FilterOp::Gt)
    }
}

fn parse_filter(v: &Vec<char>) -> (r: Result<FormatFilter, SelectorError>)
    ensures
        match (r, spec_parse_filter(v@)) {
            (Ok(f), Ok(g)) => f@ == g,
            (Err(e), Err(g)) => e@ == g,
            _ => false,
        },
{
    let mut i: usize = 0;
    while i < 6
        invariant
            i <= 6,
            spec_parse_filter(v@) == spec_parse_filter_from(v@, i as int),
        decreases 6 - i,
    {
        let (text, op) = op_entry(i);
        let pat = chars_of(text);
        match find_vec(v, &pat) {
            Some(pos) => {
                proof {
                    lemma_find_from(v@, pat@, 0);
                    assert(matches_at(v@, pat@, pos as int));
                    assert(pos + pat@.len() <= v@.len());
                }
                assert(pos + pat.len() <= v.len());
                let field = sub_vec(v, 0, pos);
                let field = trim_vec(&field);
                let rest = sub_vec(v, pos + pat.len(), v.len());
                let rest = trim_vec(&rest);
                return Ok(
                    FormatFilter { field: string_from(&field), op: op, value: filter_value(rest) },
                );
            },
            None => {},
        }
        i = i + 1;
    }
    Err(SelectorError::BadFilter(string_from(v)))
}

proof fn lemma_index_of_from_shift(s: Seq<char>, c: char, a: int)
    requires
        0 <= a <= s.len(),
    ensures
        match (index_of(s.subrange(a, s.len() as int), c), index_of_from(s, c, a)) {
            (Some(k), Some(m)) => m == a + k,
            (None, None) => true,
            _ => false,
        },
{
    let t = s.subrange(a, s.len() as int);
    lemma_index_of_from(t, c, 0);
    lemma_index_of_from(s, c, a);
    match index_of_from(s, c, a) {
        Some(m) => {
            assert(t[m - a] == c);
            assert forall|j: int| 0 <= j < m - a implies t[j] != c by {
                assert(t[j] == s[a + j]);
            }
            crate::text::lemma_index_of_unique(t, c, m - a);
        },
        None => {
            if index_of(t, c) is Some {
                let k = index_of(t, c)->0;
                assert(t[k] == s[a + k]);
            }
        },
    }
}

fn parse_filters(v: &Vec<char>) -> (r: Result<Vec<FormatFilter>, SelectorError>)
    ensures
        match (r, spec_parse_filters(v@)) {
            (Ok(fs), Ok(g)) => filters_view(fs@) == g,
            (Err(e), Err(g)) => e@ == g,
            _ => false,
        },
{
    let mut filters: Vec<FormatFilter> = Vec::new();
    let mut start: usize = 0;
    assert(v@.subrange(0, v@.len() as int) =~= v@);
    loop
        invariant
            start <= v.len(),
            match spec_parse_filters(v@.subrange(start as int, v.len() as int)) {
                Ok(g) => spec_parse_filters(v@) == Ok::<Seq<SpecFilter>, SpecSelectorError>(
                    filters_view(filters@) + g,
                ),
                Err(e) => spec_parse_filters(v@) == Err::<Seq<SpecFilter>, SpecSelectorError>(e),
            },
        decreases v.len() - start,
    {
        let ghost rest = v@.subrange(start as int, v.len() as int);
        proof {
            lemma_index_of_from_shift(v@, '[', start as int);
            lemma_index_of_from(v@, '[', start as int);
            lemma_index_of_from(rest, '[', 0);
        }
        match index_of_vec_from(v, '[', start) {
            None => {
                proof {
                    assert(filters_view(filters@) + Seq::<SpecFilter>::empty() =~= filters_view(
                        filters@,
                    ));
                }
                return Ok(filters);
            },
            Some(open) => {
                proof {
                    lemma_index_of_from_shift(v@, ']', open as int);
                    lemma_index_of_from(v@, ']', open as int);
                    lemma_index_of_from(rest, ']', open - start);
                    assert(rest.subrange(open - start, rest.len() as int) =~= v@.subrange(
                        open as int,
                        v.len() as int,
                    ));
                    lemma_index_of_from_shift(rest, ']', open - start);
                }
                match index_of_vec_from(v, ']', open) {
                    None => {
                        return Err(SelectorError::UnclosedBracket);
                    },
                    Some(close) => {
                        assert(v@[open as int] == '[');
                        let inner = sub_vec(v, open + 1, close);
                        assert(inner@ =~= rest.subrange(open - start + 1, close - start));
                        match parse_filter(&inner) {
                            Err(e) => {
                                return Err(e);
                            },
                            Ok(f) => {
                                let ghost before = filters_view(filters@);
                                filters.push(f);
                                proof {
                                    assert(filters_view(filters@) =~= before.push(f@));
                                    assert(rest.subrange(close - start + 1, rest.len() as int)
                                        =~= v@.subrange(close + 1, v.len() as int));
                                    match spec_parse_filters(
                                        v@.subrange(close + 1, v.len() as int),
                                    ) {
                                        Ok(g) => {
                                            assert(before + (seq![f@] + g) =~= filters_view(
                                                filters@,
                                            ) + g);
                                        },
                                        Err(_) => {},
                                    }
                                }
                                start = close + 1;
                            },
                        }
                    },
                }
            },
        }
    }
}

/// Parses a format selector expression.
fn parse_selector_chars(v: &Vec<char>) -> (r: Result<FormatSelector, SelectorError>)
    ensures
        match (r, spec_parse_selector(v@)) {
            (Ok(s), Ok(g)) => s@ == g,
            (Err(e), Err(g)) => e@ == g,
            _ => false,
        },
    decreases v.len(),
{
    match find_slash(v) {
        Some(k) => {
            proof {
                lemma_find_top_from(v@, '/', 0, 0);
                lemma_trim_len(v@.subrange(0, k as int));
                lemma_trim_len(v@.subrange(k + 1, v@.len() as int));
            }
            let l = sub_vec(v, 0, k);
            let l = trim_vec(&l);
            let r = sub_vec(v, k + 1, v.len());
            let r = trim_vec(&r);
            let a = match parse_selector_chars(&l) {
                Err(e) => {
                    return Err(e);
                },
                Ok(a) => a,
            };
            let b = match parse_selector_chars(&r) {
                Err(e) => {
                    return Err(e);
                },
                Ok(b) => b,
            };
            Ok(FormatSelector::Fallback(Box::new(a), Box::new(b)))
        },
        None => match find_plus(v) {
            Some(k) => {
                proof {
                    lemma_find_top_from(v@, '+', 0, 0);
                    lemma_trim_len(v@.subrange(0, k as int));
                    lemma_trim_len(v@.subrange(k + 1, v@.len() as int));
                }
                let l = sub_vec(v, 0, k);
                let l = trim_vec(&l);
                let r = sub_vec(v, k + 1, v.len());
                let r = trim_vec(&r);
                let a = match parse_selector_chars(&l) {
                    Err(e) => {
                        return Err(e);
                    },
                    Ok(a) => a,
                };
                let b = match parse_selector_chars(&r) {
                    Err(e) => {
                        return Err(e);
                    },
                    Ok(b) => b,
                };
                Ok(FormatSelector::Merge(Box::new(a), Box::new(b)))
            },
            None => {
                proof {
                    lemma_index_of_from(v@, '[', 0);
                }
                match index_of_vec(v, '[') {
                    Some(b) => {
                        let rest = sub_vec(v, b, v.len());
                        let filters = match parse_filters(&rest) {
                            Err(e) => {
                                return Err(e);
                            },
                            Ok(fs) => fs,
                        };
                        let base = sub_vec(v, 0, b);
                        let base = parse_selector_keyword(&base);
                        Ok(FormatSelector::Filtered(Box::new(base), filters))
                    },
                    None => Ok(parse_selector_keyword(v)),
                }
            },
        },
    }
}

/// Parses a format selector expression such as `bestvideo[height<=1080]+bestaudio/best`.
pub fn parse_selector(spec: &str) -> (r: Result<FormatSelector, SelectorError>)
    ensures
        match (r, spec_parse_selector(spec@)) {
            (Ok(s), Ok(g)) => s@ == g,
            (Err(e), Err(g)) => e@ == g,
            _ => false,
        },
{
    let v = chars_of(spec);
    parse_selector_chars(&v)
}


// ───────────────────────── matching filters ─────────────────────────

/// The value of a format's field that a filter names: text, or the number
/// `numerator / denominator`. Bit rates are compared in kilobits per second.
pub enum FieldValue {
    Text(Seq<char>),
    Number(int, int),
}

pub open spec fn num_field(v: Option<int>, den: int) -> Option<FieldValue> {
    match v {
        Some(n) => Some(FieldValue::Number(n, den)),
        None => None,
    }
}

pub open spec fn text_field(v: Option<Seq<char>>) -> Option<FieldValue> {
    match v {
        Some(t) => Some(FieldValue::Text(t)),
        None => None,
    }
}

pub open spec fn opt_u32(v: Option<u32>) -> Option<int> {
    match v {
        Some(n) => Some(n as int),
        None => None,
    }
}

pub open spec fn opt_u64(v: Option<u64>) -> Option<int> {
    match v {
        Some(n) => Some(n as int),
        None => None,
    }
}

pub open spec fn field_value(f: FormatView, field: Seq<char>) -> Option<FieldValue> {
    if field == "ext"@ || field == "extension"@ {
        Some(FieldValue::Text(f.ext))
    } else if field == "height"@ {
        num_field(opt_u32(f.height), 1)
    } else if field == "width"@ {
        num_field(opt_u32(f.width), 1)
    } else if field == "fps"@ {
        num_field(opt_u32(f.fps), 1)
    } else if field == "tbr"@ {
        num_field(opt_u64(f.tbr), 1000)
    } else if field == "abr"@ {
        num_field(opt_u64(f.abr), 1000)
    } else if field == "vbr"@ {
        num_field(opt_u64(f.vbr), 1000)
    } else if field == "asr"@ {
        num_field(opt_u32(f.asr), 1)
    } else if field == "vcodec"@ {
        text_field(f.vcodec)
    } else if field == "acodec"@ {
        text_field(f.acodec)
    } else if field == "protocol"@ {
        Some(FieldValue::Text(f.protocol))
    } else if field == "format_id"@ {
        Some(FieldValue::Text(f.format_id))
    } else {
        None
    }
}

/// Whether a relation between two numbers is the one an operator asks for;
/// when either is not a number only `!=` holds.
pub open spec fn relation_holds(r: Relation, op: FilterOp) -> bool {
    match op {
        FilterOp::Eq => r == Relation::Equal,
        FilterOp::Ne => r != Relation::Equal,
        FilterOp::Lt => r == Relation::Less,
        FilterOp::Le => r == Relation::Less || r == Relation::Equal,
        FilterOp::Gt => r == Relation::Greater,
        FilterOp::Ge => r == Relation::Greater || r == Relation::Equal,
    }
}

/// `n / d op x`, for `d` either 1 or 1000, with `x` taken exactly.
pub open spec fn compare_number(n: int, d: int, x: FloatText, op: FilterOp) -> bool {
    relation_holds(spec_relate_thousandths(n * (1000int / d), x), op)
}

/// A format passes a filter: the field exists and compares as asked; text
/// compares only by `=` and `!=`, and text never compares with a number.
pub open spec fn spec_filter_matches(f: FormatView, flt: SpecFilter) -> bool {
    match field_value(f, flt.field) {
        None => false,
        Some(FieldValue::Text(a)) => match flt.value {
            SpecValue::Str(b) => match flt.op {
                FilterOp::Eq => a == b,
                FilterOp::Ne => a != b,
                _ => false,
            },
            SpecValue::Num(_) => false,
        },
        Some(FieldValue::Number(n, d)) => match flt.value {
            SpecValue::Num(x) => compare_number(n, d, x, flt.op),
            SpecValue::Str(_) => false,
        },
    }
}

pub open spec fn spec_all_match(f: FormatView, fs: Seq<SpecFilter>) -> bool {
    forall|j: int| 0 <= j < fs.len() ==> spec_filter_matches(f, #[trigger] fs[j])
}

/// The formats that pass all the filters, in their order.
pub open spec fn keep_matching(fmts: Seq<FormatView>, fs: Seq<SpecFilter>) -> Seq<FormatView>
    decreases fmts.len(),
{
    if fmts.len() == 0 {
        Seq::empty()
    } else {
        keep_matching(fmts.drop_last(), fs) + if spec_all_match(fmts.last(), fs) {
            seq![fmts.last()]
        } else {
            Seq::empty()
        }
    }
}

fn relation_holds_exec(r: Relation, op: FilterOp) -> (b: bool)
    ensures
        b == relation_holds(r, op),
{
    match op {
        FilterOp::Eq => r == Relation::Equal,
        FilterOp::Ne => r != Relation::Equal,
        FilterOp::Lt => r == Relation::Less,
        FilterOp::Le => r == Relation::Less || r == Relation::Equal,
        FilterOp::Gt => r == Relation::Greater,
        FilterOp::Ge => r == Relation::Greater || r == Relation::Equal,
    }
}

fn text_matches(a: &String, value: &FilterValue, op: FilterOp) -> (b: bool)
    ensures
        b == match value@ {
            SpecValue::Str(t) => match op {
                FilterOp::Eq => a@ == t,
                FilterOp::Ne => a@ != t,
                _ => false,
            },
            SpecValue::Num(_) => false,
        },
{
    match value {
        FilterValue::Str(t) => match op {
            FilterOp::Eq => *a == *t,
            FilterOp::Ne => !(*a == *t),
            _ => false,
        },
        FilterValue::Num(_) => false,
    }
}

fn number_matches(n: u64, d: u64, value: &FilterValue, op: FilterOp) -> (b: bool)
    requires
        d == 1 || d == 1000,
    ensures
        b == match value@ {
            SpecValue::Num(x) => compare_number(n as int, d as int, x, op),
            SpecValue::Str(_) => false,
        },
{
    match value {
        FilterValue::Num(x) => {
            let scale: u64 = if d == 1 {
                1000
            } else {
                1
            };
            proof {
                lemma_pow10_23();
                let nn = n as int;
                let sc = scale as int;
                assert(nn * sc <= 18446744073709551615 * 1000) by (nonlinear_arith)
                    requires
                        0 <= nn <= 18446744073709551615,
                        0 <= sc <= 1000,
                ;
            }
            let q: u128 = (n as u128) * (scale as u128);
            assert(q == n * (1000int / (d as int)));
            let r = x.relate_thousandths(q);
            relation_holds_exec(r, op)
        },
        FilterValue::Str(_) => false,
    }
}

/// Whether a format passes one filter.
pub fn format_matches_filter(fmt: &Format, filter: &FormatFilter) -> (b: bool)
    ensures
        b == spec_filter_matches(fmt@, filter@),
{
    let name = chars_of(filter.field.as_str());
    let op = filter.op;
    let value = &filter.value;
    if is_word(&name, "ext") || is_word(&name, "extension") {
        text_matches(&fmt.ext, value, op)
    } else if is_word(&name, "height") {
        match fmt.height {
            Some(h) => number_matches(h as u64, 1, value, op),
            None => false,
        }
    } else if is_word(&name, "width") {
        match fmt.width {
            Some(w) => number_matches(w as u64, 1, value, op),
            None => false,
        }
    } else if is_word(&name, "fps") {
        match fmt.fps {
            Some(r) => number_matches(r as u64, 1, value, op),
            None => false,
        }
    } else if is_word(&name, "tbr") {
        match fmt.tbr {
            Some(r) => number_matches(r, 1000, value, op),
            None => false,
        }
    } else if is_word(&name, "abr") {
        match fmt.abr {
            Some(r) => number_matches(r, 1000, value, op),
            None => false,
        }
    } else if is_word(&name, "vbr") {
        match fmt.vbr {
            Some(r) => number_matches(r, 1000, value, op),
            None => false,
        }
    } else if is_word(&name, "asr") {
        match fmt.asr {
            Some(r) => number_matches(r as u64, 1, value, op),
            None => false,
        }
    } else if is_word(&name, "vcodec") {
        match &fmt.vcodec {
            Some(c) => text_matches(c, value, op),
            None => false,
        }
    } else if is_word(&name, "acodec") {
        match &fmt.acodec {
            Some(c) => text_matches(c, value, op),
            None => false,
        }
    } else if is_word(&name, "protocol") {
        text_matches(&fmt.protocol, value, op)
    } else if is_word(&name, "format_id") {
        text_matches(&fmt.format_id, value, op)
    } else {
        false
    }
}

fn all_filters_match(fmt: &Format, filters: &Vec<FormatFilter>) -> (b: bool)
    ensures
        b == spec_all_match(fmt@, filters_view(filters@)),
{
    let mut j: usize = 0;
    while j < filters.len()
        invariant
            j <= filters.len(),
            forall|m: int|
                0 <= m < j ==> spec_filter_matches(fmt@, #[trigger] filters_view(filters@)[m]),
        decreases filters.len() - j,
    {
        if !format_matches_filter(fmt, &filters[j]) {
            assert(filters_view(filters@)[j as int] == filters@[j as int]@);
            return false;
        }
        j = j + 1;
    }
    true
}

// ───────────────────────── choosing formats ─────────────────────────

/// The candidates a keyword chooses among (formats under DRM never qualify).
#[derive(Clone, Copy)]
pub enum Pool {
    /// Formats with both video and audio.
    Combined,
    /// Every format.
    Any,
    /// Formats with video (alone or with audio).
    WithVideo,
    /// Formats with audio alone.
    AudioOnly,
}

pub open spec fn in_pool(p: Pool, f: FormatView) -> bool {
    !f.has_drm && match p {
        Pool::Combined => spec_is_combined(f),
        Pool::Any => true,
        Pool::WithVideo => spec_is_video_only(f) || spec_is_combined(f),
        Pool::AudioOnly => spec_is_audio_only(f),
    }
}

#[derive(Clone, Copy)]
pub enum ScoreKind {
    Total,
    Video,
    Audio,
}

pub open spec fn score(k: ScoreKind, f: FormatView) -> int {
    match k {
        ScoreKind::Total => spec_total_score(f),
        ScoreKind::Video => spec_video_score(f),
        ScoreKind::Audio => spec_audio_score(f),
    }
}

/// The pick among `fmts[..n]` in pool `p`: the last of the highest-scoring
/// ones when maximizing (as `Iterator::max_by` picks), the first of the
/// lowest-scoring ones otherwise (as `Iterator::min_by` picks).
pub open spec fn scan(fmts: Seq<FormatView>, p: Pool, k: ScoreKind, maximize: bool, n: int) -> Option<
    int,
>
    decreases n,
{
    if n <= 0 || n > fmts.len() {
        None
    } else {
        let prev = scan(fmts, p, k, maximize, n - 1);
        if in_pool(p, fmts[n - 1]) {
            match prev {
                None => Some(n - 1),
                Some(b) => if (maximize && score(k, fmts[n - 1]) >= score(k, fmts[b])) || (
                !maximize && score(k, fmts[n - 1]) < score(k, fmts[b])) {
                    Some(n - 1)
                } else {
                    Some(b)
                },
            }
        } else {
            prev
        }
    }
}

pub open spec fn pick(fmts: Seq<FormatView>, p: Pool, k: ScoreKind, maximize: bool) -> Option<int> {
    scan(fmts, p, k, maximize, fmts.len() as int)
}

/// Some format lies in the pool.
pub open spec fn pool_has(fmts: Seq<FormatView>, p: Pool) -> bool {
    exists|i: int| 0 <= i < fmts.len() && in_pool(p, #[trigger] fmts[i])
}

/// The first format with this id.
pub open spec fn first_with_id(fmts: Seq<FormatView>, id: Seq<char>) -> Option<int> {
    first_with_id_from(fmts, id, 0)
}

pub open spec fn first_with_id_from(fmts: Seq<FormatView>, id: Seq<char>, i: int) -> Option<int>
    decreases fmts.len() - i,
{
    if i < 0 || i >= fmts.len() {
        None
    } else if fmts[i].format_id == id {
        Some(i)
    } else {
        first_with_id_from(fmts, id, i + 1)
    }
}

/// Why no format could be chosen.
#[derive(Debug)]
pub enum SelectError {
    NoFormats,
    NoVideo,
    NoAudio,
    /// No format has this id.
    NotFound(String),
    NotFoundAfterFilter,
    /// A merge or fallback stands where a single format is wanted.
    Compound,
}

pub enum SpecSelectError {
    NoFormats,
    NoVideo,
    NoAudio,
    NotFound(Seq<char>),
    NotFoundAfterFilter,
    Compound,
}

impl View for SelectError {
    type V = SpecSelectError;

    open spec fn view(&self) -> SpecSelectError {
        match self {
            SelectError::NoFormats => SpecSelectError::NoFormats,
            SelectError::NoVideo => SpecSelectError::NoVideo,
            SelectError::NoAudio => SpecSelectError::NoAudio,
            SelectError::NotFound(s) => SpecSelectError::NotFound(s@),
            SelectError::NotFoundAfterFilter => SpecSelectError::NotFoundAfterFilter,
            SelectError::Compound => SpecSelectError::Compound,
        }
    }
}

impl SelectError {
    /// The message the command line prints for this error.
    pub fn message(&self) -> (m: String)
        ensures
            m@ == match self@ {
                SpecSelectError::NoFormats => "No formats available"@,
                SpecSelectError::NoVideo => "No video formats available"@,
                SpecSelectError::NoAudio => "No audio formats available"@,
                SpecSelectError::NotFound(id) => "Format "@ + id + " not found"@,
                SpecSelectError::NotFoundAfterFilter => "Format not found after filter"@,
                SpecSelectError::Compound => "select_best_single called with compound selector"@,
            },
    {
        match self {
            SelectError::NoFormats => String::from_str("No formats available"),
            SelectError::NoVideo => String::from_str("No video formats available"),
            SelectError::NoAudio => String::from_str("No audio formats available"),
            SelectError::NotFound(id) => {
                let mut v = chars_of("Format ");
                let w = chars_of(id.as_str());
                crate::text::append_chars(&mut v, &w);
                crate::text::append_str(&mut v, " not found");
                string_from(&v)
            },
            SelectError::NotFoundAfterFilter => String::from_str("Format not found after filter"),
            SelectError::Compound => String::from_str(
                "select_best_single called with compound selector",
            ),
        }
    }
}

pub open spec fn pick_or(
    fmts: Seq<FormatView>,
    p: Pool,
    k: ScoreKind,
    maximize: bool,
    e: SpecSelectError,
) -> Result<int, SpecSelectError> {
    match pick(fmts, p, k, maximize) {
        Some(i) => Ok(i),
        None => Err(e),
    }
}

/// The single format a selector chooses, by index.
pub open spec fn spec_select_single(sel: SpecSelector, fmts: Seq<FormatView>) -> Result<
    int,
    SpecSelectError,
>
    decreases sel,
{
    match sel {
        SpecSelector::Best => {
            let p = if pool_has(fmts, Pool::Combined) {
                Pool::Combined
            } else {
                Pool::Any
            };
            pick_or(fmts, p, ScoreKind::Total, true, SpecSelectError::NoFormats)
        },
        SpecSelector::Worst => {
            let p = if pool_has(fmts, Pool::Combined) {
                Pool::Combined
            } else {
                Pool::Any
            };
            pick_or(fmts, p, ScoreKind::Total, false, SpecSelectError::NoFormats)
        },
        SpecSelector::BestVideo => pick_or(
            fmts,
            Pool::WithVideo,
            ScoreKind::Video,
            true,
            SpecSelectError::NoVideo,
        ),
        SpecSelector::WorstVideo => pick_or(
            fmts,
            Pool::WithVideo,
            ScoreKind::Video,
            false,
            SpecSelectError::NoVideo,
        ),
        SpecSelector::BestAudio => {
            let p = if pool_has(fmts, Pool::AudioOnly) {
                Pool::AudioOnly
            } else {
                Pool::Combined
            };
            pick_or(fmts, p, ScoreKind::Audio, true, SpecSelectError::NoAudio)
        },
        SpecSelector::WorstAudio => {
            let p = if pool_has(fmts, Pool::AudioOnly) {
                Pool::AudioOnly
            } else {
                Pool::Combined
            };
            pick_or(fmts, p, ScoreKind::Audio, false, SpecSelectError::NoAudio)
        },
        SpecSelector::ById(id) => {
            let target = before_char(id, '+');
            match first_with_id(fmts, target) {
                Some(i) => Ok(i),
                None => Err(SpecSelectError::NotFound(target)),
            }
        },
        SpecSelector::Filtered(base, fs) => {
            let sub = keep_matching(fmts, fs);
            match spec_select_single(*base, sub) {
                Err(e) => Err(e),
                Ok(j) => if 0 <= j < sub.len() {
                    match first_with_id(fmts, sub[j].format_id) {
                        Some(i) => Ok(i),
                        None => Err(SpecSelectError::NotFoundAfterFilter),
                    }
                } else {
                    Err(SpecSelectError::NotFoundAfterFilter)
                },
            }
        },
        _ => Err(SpecSelectError::Compound),
    }
}

/// What a selector chooses: one format, or a video and an audio format to merge.
pub enum SpecChoice {
    Single(int),
    Merge(int, int),
}

/// The formats a selector chooses. `Err(Compound)` marks the selectors on
/// which choosing does not complete: a merge or fallback met where a single
/// format is wanted.
pub open spec fn spec_select(sel: SpecSelector, fmts: Seq<FormatView>) -> Result<
    SpecChoice,
    SpecSelectError,
>
    decreases sel,
{
    match sel {
        SpecSelector::Fallback(l, r) => match spec_select(*l, fmts) {
            Ok(c) => Ok(c),
            Err(SpecSelectError::Compound) => Err(SpecSelectError::Compound),
            Err(_) => spec_select(*r, fmts),
        },
        SpecSelector::Merge(v, a) => match spec_select_single(*v, fmts) {
            Err(e) => Err(e),
            Ok(i) => match spec_select_single(*a, fmts) {
                Err(e) => Err(e),
                Ok(j) => Ok(SpecChoice::Merge(i, j)),
            },
        },
        _ => match spec_select_single(sel, fmts) {
            Ok(i) => Ok(SpecChoice::Single(i)),
            Err(e) => Err(e),
        },
    }
}

/// Choosing formats with this selector does not complete.
pub open spec fn selection_incomplete(sel: SpecSelector, fmts: Seq<FormatView>) -> bool {
    spec_select(sel, fmts) == Err::<SpecChoice, SpecSelectError>(SpecSelectError::Compound)
}

fn in_pool_exec(p: Pool, f: &Format) -> (b: bool)
    ensures
        b == in_pool(p, f@),
{
    if f.has_drm {
        return false;
    }
    match p {
        Pool::Combined => f.is_combined(),
        Pool::Any => true,
        Pool::WithVideo => f.is_video_only() || f.is_combined(),
        Pool::AudioOnly => f.is_audio_only(),
    }
}

fn score_exec(k: ScoreKind, f: &Format) -> (r: u128)
    ensures
        r as int == score(k, f@),
{
    match k {
        ScoreKind::Total => f.total_score(),
        ScoreKind::Video => f.video_score(),
        ScoreKind::Audio => f.audio_score(),
    }
}

pub proof fn lemma_scan_in_range(fmts: Seq<FormatView>, p: Pool, k: ScoreKind, maximize: bool, n: int)
    ensures
        scan(fmts, p, k, maximize, n) matches Some(i) ==> 0 <= i < n && i < fmts.len() && in_pool(
            p,
            fmts[i],
        ),
    decreases n,
{
    if n > 0 && n <= fmts.len() {
        lemma_scan_in_range(fmts, p, k, maximize, n - 1);
    }
}

pub proof fn lemma_scan_some(fmts: Seq<FormatView>, p: Pool, k: ScoreKind, maximize: bool, n: int)
    requires
        0 <= n <= fmts.len(),
    ensures
        scan(fmts, p, k, maximize, n) is Some <==> exists|i: int|
            0 <= i < n && in_pool(p, #[trigger] fmts[i]),
    decreases n,
{
    if n > 0 {
        lemma_scan_some(fmts, p, k, maximize, n - 1);
        if scan(fmts, p, k, maximize, n - 1) is Some {
            let i = choose|i: int| 0 <= i < n - 1 && in_pool(p, #[trigger] fmts[i]);
            assert(0 <= i < n);
        }
    }
}

fn pick_exec(fmts: &[Format], p: Pool, k: ScoreKind, maximize: bool) -> (r: Option<usize>)
    ensures
        match r {
            Some(i) => pick(formats_view(fmts@), p, k, maximize) == Some(i as int),
            None => pick(formats_view(fmts@), p, k, maximize) is None,
        },
{
    let ghost v = formats_view(fmts@);
    let mut best: Option<usize> = None;
    let mut best_score: u128 = 0;
    let mut i: usize = 0;
    while i < fmts.len()
        invariant
            i <= fmts.len(),
            v == formats_view(fmts@),
            match best {
                Some(b) => scan(v, p, k, maximize, i as int) == Some(b as int) && b < i
                    && best_score as int == score(k, v[b as int]),
                None => scan(v, p, k, maximize, i as int) is None,
            },
        decreases fmts.len() - i,
    {
        assert(v[i as int] == fmts@[i as int]@);
        if in_pool_exec(p, &fmts[i]) {
            let s = score_exec(k, &fmts[i]);
            match best {
                None => {
                    best = Some(i);
                    best_score = s;
                },
                Some(b) => {
                    if (maximize && s >= best_score) || (!maximize && s < best_score) {
                        best = Some(i);
                        best_score = s;
                    }
                },
            }
        }
        i = i + 1;
    }
    best
}

fn pool_has_exec(fmts: &[Format], p: Pool) -> (b: bool)
    ensures
        b == pool_has(formats_view(fmts@), p),
{
    let r = pick_exec(fmts, p, ScoreKind::Total, true);
    proof {
        lemma_scan_some(formats_view(fmts@), p, ScoreKind::Total, true, fmts@.len() as int);
    }
    r.is_some()
}

fn first_with_id_exec(fmts: &[Format], id: &Vec<char>) -> (r: Option<usize>)
    ensures
        match r {
            Some(i) => first_with_id(formats_view(fmts@), id@) == Some(i as int),
            None => first_with_id(formats_view(fmts@), id@) is None,
        },
{
    let ghost v = formats_view(fmts@);
    let mut i: usize = 0;
    while i < fmts.len()
        invariant
            i <= fmts.len(),
            v == formats_view(fmts@),
            first_with_id(v, id@) == first_with_id_from(v, id@, i as int),
        decreases fmts.len() - i,
    {
        assert(v[i as int] == fmts@[i as int]@);
        let fid = chars_of(fmts[i].format_id.as_str());
        if crate::text::chars_eq(&fid, id) {
            return Some(i);
        }
        i = i + 1;
    }
    None
}

fn keep_matching_exec(fmts: &[Format], filters: &Vec<FormatFilter>) -> (r: Vec<Format>)
    ensures
        formats_view(r@) == keep_matching(formats_view(fmts@), filters_view(filters@)),
{
    let ghost v = formats_view(fmts@);
    let ghost fs = filters_view(filters@);
    let mut out: Vec<Format> = Vec::new();
    let mut i: usize = 0;
    while i < fmts.len()
        invariant
            i <= fmts.len(),
            v == formats_view(fmts@),
            fs == filters_view(filters@),
            formats_view(out@) == keep_matching(v.take(i as int), fs),
        decreases fmts.len() - i,
    {
        let ghost before = formats_view(out@);
        proof {
            assert(v.take(i + 1).drop_last() =~= v.take(i as int));
            assert(v.take(i + 1).last() == v[i as int]);
            assert(v[i as int] == fmts@[i as int]@);
        }
        if all_filters_match(&fmts[i], filters) {
            let d = fmts[i].duplicate();
            out.push(d);
            assert(formats_view(out@) =~= before + seq![v[i as int]]);
        } else {
            assert(formats_view(out@) =~= before + Seq::<FormatView>::empty());
        }
        i = i + 1;
    }
    assert(v.take(fmts@.len() as int) =~= v);
    out
}

fn select_best_single(sel: &FormatSelector, fmts: &[Format]) -> (r: Result<usize, SelectError>)
    ensures
        match (r, spec_select_single(sel@, formats_view(fmts@))) {
            (Ok(i), Ok(j)) => i as int == j && i < fmts@.len(),
            (Err(e), Err(g)) => e@ == g,
            _ => false,
        },
    decreases sel,
{
    let ghost v = formats_view(fmts@);
    match sel {
        FormatSelector::Best | FormatSelector::Worst => {
            let maximize = match sel {
                FormatSelector::Best => true,
                _ => false,
            };
            let p = if pool_has_exec(fmts, Pool::Combined) {
                Pool::Combined
            } else {
                Pool::Any
            };
            proof {
                lemma_scan_in_range(v, p, ScoreKind::Total, maximize, v.len() as int);
            }
            match pick_exec(fmts, p, ScoreKind::Total, maximize) {
                Some(i) => Ok(i),
                None => Err(SelectError::NoFormats),
            }
        },
        FormatSelector::BestVideo | FormatSelector::WorstVideo => {
            let maximize = match sel {
                FormatSelector::BestVideo => true,
                _ => false,
            };
            proof {
                lemma_scan_in_range(v, Pool::WithVideo, ScoreKind::Video, maximize, v.len() as int);
            }
            match pick_exec(fmts, Pool::WithVideo, ScoreKind::Video, maximize) {
                Some(i) => Ok(i),
                None => Err(SelectError::NoVideo),
            }
        },
        FormatSelector::BestAudio | FormatSelector::WorstAudio => {
            let maximize = match sel {
                FormatSelector::BestAudio => true,
                _ => false,
            };
            let p = if pool_has_exec(fmts, Pool::AudioOnly) {
                Pool::AudioOnly
            } else {
                Pool::Combined
            };
            proof {
                lemma_scan_in_range(v, p, ScoreKind::Audio, maximize, v.len() as int);
            }
            match pick_exec(fmts, p, ScoreKind::Audio, maximize) {
                Some(i) => Ok(i),
                None => Err(SelectError::NoAudio),
            }
        },
        FormatSelector::ById(id) => {
            let idv = chars_of(id.as_str());
            let target = before_char_vec(&idv, '+');
            proof {
                lemma_first_with_id_from(v, target@, 0);
            }
            match first_with_id_exec(fmts, &target) {
                Some(i) => Ok(i),
                None => Err(SelectError::NotFound(string_from(&target))),
            }
        },
        FormatSelector::Filtered(base, filters) => {
            let sub = keep_matching_exec(fmts, filters);
            match select_best_single(base, sub.as_slice()) {
                Err(e) => Err(e),
                Ok(j) => {
                    assert(formats_view(sub@)[j as int] == sub@[j as int]@);
                    let id = chars_of(sub[j].format_id.as_str());
                    proof {
                        lemma_first_with_id_from(v, id@, 0);
                    }
                    match first_with_id_exec(fmts, &id) {
                        Some(i) => Ok(i),
                        None => Err(SelectError::NotFoundAfterFilter),
                    }
                },
            }
        },
        _ => Err(SelectError::Compound),
    }
}

pub proof fn lemma_first_with_id_from(fmts: Seq<FormatView>, id: Seq<char>, i: int)
    requires
        0 <= i,
    ensures
        first_with_id_from(fmts, id, i) matches Some(k) ==> i <= k < fmts.len() && fmts[k].format_id
            == id && forall|j: int| i <= j < k ==> fmts[j].format_id != id,
        first_with_id_from(fmts, id, i) is None ==> forall|j: int|
            i <= j < fmts.len() ==> fmts[j].format_id != id,
    decreases fmts.len() - i,
{
    if i < fmts.len() && fmts[i].format_id != id {
        lemma_first_with_id_from(fmts, id, i + 1);
    }
}

/// The formats a selector chooses: one, or a video and an audio stream to merge.
#[derive(Debug)]
pub enum SelectedFormats<'a> {
    Single(&'a Format),
    Merge(&'a Format, &'a Format),
}

/// The choice, by index, behind a [`SelectedFormats`].
pub open spec fn chosen(res: SelectedFormats, fmts: Seq<Format>, c: SpecChoice) -> bool {
    match (res, c) {
        (SelectedFormats::Single(f), SpecChoice::Single(i)) => 0 <= i < fmts.len() && *f == fmts[i],
        (SelectedFormats::Merge(f, g), SpecChoice::Merge(i, j)) => 0 <= i < fmts.len() && 0 <= j
            < fmts.len() && *f == fmts[i] && *g == fmts[j],
        _ => false,
    }
}

/// Chooses formats; `Err(SelectError::Compound)` when a merge or fallback
/// stands where a single format is wanted.
pub fn try_select_formats<'a>(selector: &FormatSelector, formats: &'a [Format]) -> (r: Result<
    SelectedFormats<'a>,
    SelectError,
>)
    ensures
        match (r, spec_select(selector@, formats_view(formats@))) {
            (Ok(s), Ok(c)) => chosen(s, formats@, c),
            (Err(e), Err(g)) => e@ == g,
            _ => false,
        },
    decreases selector,
{
    match selector {
        FormatSelector::Fallback(left, right) => {
            match try_select_formats(left, formats) {
                Ok(res) => Ok(res),
                Err(SelectError::Compound) => Err(SelectError::Compound),
                Err(_) => try_select_formats(right, formats),
            }
        },
        FormatSelector::Merge(video_sel, audio_sel) => {
            let video = match select_best_single(video_sel, formats) {
                Ok(i) => i,
                Err(e) => {
                    return Err(e);
                },
            };
            let audio = match select_best_single(audio_sel, formats) {
                Ok(i) => i,
                Err(e) => {
                    return Err(e);
                },
            };
            Ok(SelectedFormats::Merge(&formats[video], &formats[audio]))
        },
        _ => match select_best_single(selector, formats) {
            Ok(i) => Ok(SelectedFormats::Single(&formats[i])),
            Err(e) => Err(e),
        },
    }
}

/// Chooses formats for a selector: the fallback's right side when its left
/// side fails, one video and one audio format for a merge, else one format.
pub fn select_formats<'a>(selector: &FormatSelector, formats: &'a [Format]) -> (r: Result<
    SelectedFormats<'a>,
    SelectError,
>)
    requires
        !selection_incomplete(selector@, formats_view(formats@)),
    ensures
        match (r, spec_select(selector@, formats_view(formats@))) {
            (Ok(s), Ok(c)) => chosen(s, formats@, c),
            (Err(e), Err(g)) => e@ == g,
            _ => false,
        },
{
    try_select_formats(selector, formats)
}


// ───────────────────────── laws ─────────────────────────

pub proof fn lemma_scan_extreme(fmts: Seq<FormatView>, p: Pool, k: ScoreKind, maximize: bool, n: int)
    requires
        0 <= n <= fmts.len(),
    ensures
        scan(fmts, p, k, maximize, n) matches Some(i) ==> {
            &&& maximize ==> forall|j: int|
                0 <= j < n && in_pool(p, #[trigger] fmts[j]) ==> score(k, fmts[j]) <= score(
                    k,
                    fmts[i],
                )
            &&& maximize ==> forall|j: int|
                i < j < n && in_pool(p, #[trigger] fmts[j]) ==> score(k, fmts[j]) < score(k, fmts[i])
            &&& !maximize ==> forall|j: int|
                0 <= j < n && in_pool(p, #[trigger] fmts[j]) ==> score(k, fmts[i]) <= score(
                    k,
                    fmts[j],
                )
            &&& !maximize ==> forall|j: int|
                0 <= j < i && in_pool(p, #[trigger] fmts[j]) ==> score(k, fmts[i]) < score(k, fmts[j])
        },
    decreases n,
{
    if n > 0 {
        lemma_scan_extreme(fmts, p, k, maximize, n - 1);
        lemma_scan_in_range(fmts, p, k, maximize, n - 1);
        lemma_scan_some(fmts, p, k, maximize, n - 1);
    }
}

/// The keywords (`best`, `worst`, `bestvideo`, ...) never choose a format
/// under DRM, and choose one whenever some format of their kind is free of it:
/// `best`/`worst` whenever any format is, the video keywords whenever a format
/// with video is, the audio keywords whenever a format with audio alone or with
/// video is.
pub proof fn law_keywords_skip_drm(sel: SpecSelector, fmts: Seq<FormatView>)
    requires
        sel is Best || sel is Worst || sel is BestVideo || sel is WorstVideo || sel is BestAudio
            || sel is WorstAudio,
    ensures
        spec_select_single(sel, fmts) matches Ok(i) ==> 0 <= i < fmts.len() && !fmts[i].has_drm,
        (sel is Best || sel is Worst) ==> (spec_select_single(sel, fmts) is Ok <==> pool_has(
            fmts,
            Pool::Any,
        )),
        (sel is BestVideo || sel is WorstVideo) ==> (spec_select_single(sel, fmts) is Ok
            <==> pool_has(fmts, Pool::WithVideo)),
        (sel is BestAudio || sel is WorstAudio) ==> (spec_select_single(sel, fmts) is Ok
            <==> pool_has(fmts, Pool::AudioOnly) || pool_has(fmts, Pool::Combined)),
{
    let n = fmts.len() as int;
    lemma_scan_in_range(fmts, Pool::Combined, ScoreKind::Total, true, n);
    lemma_scan_in_range(fmts, Pool::Combined, ScoreKind::Total, false, n);
    lemma_scan_in_range(fmts, Pool::Any, ScoreKind::Total, true, n);
    lemma_scan_in_range(fmts, Pool::Any, ScoreKind::Total, false, n);
    lemma_scan_in_range(fmts, Pool::WithVideo, ScoreKind::Video, true, n);
    lemma_scan_in_range(fmts, Pool::WithVideo, ScoreKind::Video, false, n);
    lemma_scan_in_range(fmts, Pool::AudioOnly, ScoreKind::Audio, true, n);
    lemma_scan_in_range(fmts, Pool::AudioOnly, ScoreKind::Audio, false, n);
    lemma_scan_in_range(fmts, Pool::Combined, ScoreKind::Audio, true, n);
    lemma_scan_in_range(fmts, Pool::Combined, ScoreKind::Audio, false, n);
    lemma_scan_some(fmts, Pool::Combined, ScoreKind::Total, true, n);
    lemma_scan_some(fmts, Pool::Combined, ScoreKind::Total, false, n);
    lemma_scan_some(fmts, Pool::Any, ScoreKind::Total, true, n);
    lemma_scan_some(fmts, Pool::Any, ScoreKind::Total, false, n);
    lemma_scan_some(fmts, Pool::WithVideo, ScoreKind::Video, true, n);
    lemma_scan_some(fmts, Pool::WithVideo, ScoreKind::Video, false, n);
    lemma_scan_some(fmts, Pool::AudioOnly, ScoreKind::Audio, true, n);
    lemma_scan_some(fmts, Pool::AudioOnly, ScoreKind::Audio, false, n);
    lemma_scan_some(fmts, Pool::Combined, ScoreKind::Audio, true, n);
    lemma_scan_some(fmts, Pool::Combined, ScoreKind::Audio, false, n);
    if pool_has(fmts, Pool::Combined) {
        let i = choose|i: int| 0 <= i < fmts.len() && in_pool(Pool::Combined, #[trigger] fmts[i]);
        assert(in_pool(Pool::Any, fmts[i]));
    }
}

/// `best` (and `worst`) take a format with both video and audio whenever
/// there is one free of DRM; among the candidates, `best` takes the highest
/// total score (the last such format on a tie) and `worst` the lowest (the
/// first on a tie).
pub proof fn law_best_and_worst(fmts: Seq<FormatView>)
    ensures
        spec_select_single(SpecSelector::Best, fmts) matches Ok(i) ==> {
            &&& pool_has(fmts, Pool::Combined) ==> spec_is_combined(fmts[i])
            &&& forall|j: int|
                0 <= j < fmts.len() && in_pool(
                    (if pool_has(fmts, Pool::Combined) {
                        Pool::Combined
                    } else {
                        Pool::Any
                    }),
                    #[trigger] fmts[j],
                ) ==> spec_total_score(fmts[j]) <= spec_total_score(fmts[i])
            &&& forall|j: int|
                i < j < fmts.len() && in_pool(
                    (if pool_has(fmts, Pool::Combined) {
                        Pool::Combined
                    } else {
                        Pool::Any
                    }),
                    #[trigger] fmts[j],
                ) ==> spec_total_score(fmts[j]) < spec_total_score(fmts[i])
        },
        spec_select_single(SpecSelector::Worst, fmts) matches Ok(i) ==> {
            &&& pool_has(fmts, Pool::Combined) ==> spec_is_combined(fmts[i])
            &&& forall|j: int|
                0 <= j < fmts.len() && in_pool(
                    (if pool_has(fmts, Pool::Combined) {
                        Pool::Combined
                    } else {
                        Pool::Any
                    }),
                    #[trigger] fmts[j],
                ) ==> spec_total_score(fmts[i]) <= spec_total_score(fmts[j])
            &&& forall|j: int|
                0 <= j < i && in_pool(
                    (if pool_has(fmts, Pool::Combined) {
                        Pool::Combined
                    } else {
                        Pool::Any
                    }),
                    #[trigger] fmts[j],
                ) ==> spec_total_score(fmts[i]) < spec_total_score(fmts[j])
        },
{
    let n = fmts.len() as int;
    let p = if pool_has(fmts, Pool::Combined) {
        Pool::Combined
    } else {
        Pool::Any
    };
    lemma_scan_in_range(fmts, p, ScoreKind::Total, true, n);
    lemma_scan_in_range(fmts, p, ScoreKind::Total, false, n);
    lemma_scan_extreme(fmts, p, ScoreKind::Total, true, n);
    lemma_scan_extreme(fmts, p, ScoreKind::Total, false, n);
}

/// `bestvideo` takes a format with video (alone or with audio) of the highest
/// video score, the last such on a tie; `worstvideo` one of the lowest, the
/// first such on a tie.
pub proof fn law_video_keywords(fmts: Seq<FormatView>)
    ensures
        spec_select_single(SpecSelector::BestVideo, fmts) matches Ok(i) ==> {
            &&& spec_is_video_only(fmts[i]) || spec_is_combined(fmts[i])
            &&& forall|j: int|
                0 <= j < fmts.len() && in_pool(Pool::WithVideo, #[trigger] fmts[j])
                    ==> spec_video_score(fmts[j]) <= spec_video_score(fmts[i])
            &&& forall|j: int|
                i < j < fmts.len() && in_pool(Pool::WithVideo, #[trigger] fmts[j])
                    ==> spec_video_score(fmts[j]) < spec_video_score(fmts[i])
        },
        spec_select_single(SpecSelector::WorstVideo, fmts) matches Ok(i) ==> {
            &&& spec_is_video_only(fmts[i]) || spec_is_combined(fmts[i])
            &&& forall|j: int|
                0 <= j < fmts.len() && in_pool(Pool::WithVideo, #[trigger] fmts[j])
                    ==> spec_video_score(fmts[i]) <= spec_video_score(fmts[j])
            &&& forall|j: int|
                0 <= j < i && in_pool(Pool::WithVideo, #[trigger] fmts[j])
                    ==> spec_video_score(fmts[i]) < spec_video_score(fmts[j])
        },
{
    let n = fmts.len() as int;
    lemma_scan_in_range(fmts, Pool::WithVideo, ScoreKind::Video, true, n);
    lemma_scan_in_range(fmts, Pool::WithVideo, ScoreKind::Video, false, n);
    lemma_scan_extreme(fmts, Pool::WithVideo, ScoreKind::Video, true, n);
    lemma_scan_extreme(fmts, Pool::WithVideo, ScoreKind::Video, false, n);
}

/// `bestaudio` takes an audio-only format whenever there is one free of DRM
/// (else one with video and audio), of the highest audio score, the last such
/// on a tie; `worstaudio` likewise of the lowest, the first such on a tie.
pub proof fn law_audio_keywords(fmts: Seq<FormatView>)
    ensures
        spec_select_single(SpecSelector::BestAudio, fmts) matches Ok(i) ==> {
            &&& pool_has(fmts, Pool::AudioOnly) ==> spec_is_audio_only(fmts[i])
            &&& spec_is_audio_only(fmts[i]) || spec_is_combined(fmts[i])
            &&& forall|j: int|
                0 <= j < fmts.len() && in_pool(
                    (if pool_has(fmts, Pool::AudioOnly) {
                        Pool::AudioOnly
                    } else {
                        Pool::Combined
                    }),
                    #[trigger] fmts[j],
                ) ==> spec_audio_score(fmts[j]) <= spec_audio_score(fmts[i])
            &&& forall|j: int|
                i < j < fmts.len() && in_pool(
                    (if pool_has(fmts, Pool::AudioOnly) {
                        Pool::AudioOnly
                    } else {
                        Pool::Combined
                    }),
                    #[trigger] fmts[j],
                ) ==> spec_audio_score(fmts[j]) < spec_audio_score(fmts[i])
        },
        spec_select_single(SpecSelector::WorstAudio, fmts) matches Ok(i) ==> {
            &&& pool_has(fmts, Pool::AudioOnly) ==> spec_is_audio_only(fmts[i])
            &&& spec_is_audio_only(fmts[i]) || spec_is_combined(fmts[i])
            &&& forall|j: int|
                0 <= j < fmts.len() && in_pool(
                    (if pool_has(fmts, Pool::AudioOnly) {
                        Pool::AudioOnly
                    } else {
                        Pool::Combined
                    }),
                    #[trigger] fmts[j],
                ) ==> spec_audio_score(fmts[i]) <= spec_audio_score(fmts[j])
            &&& forall|j: int|
                0 <= j < i && in_pool(
                    (if pool_has(fmts, Pool::AudioOnly) {
                        Pool::AudioOnly
                    } else {
                        Pool::Combined
                    }),
                    #[trigger] fmts[j],
                ) ==> spec_audio_score(fmts[i]) < spec_audio_score(fmts[j])
        },
{
    let n = fmts.len() as int;
    let p = if pool_has(fmts, Pool::AudioOnly) {
        Pool::AudioOnly
    } else {
        Pool::Combined
    };
    lemma_scan_in_range(fmts, p, ScoreKind::Audio, true, n);
    lemma_scan_in_range(fmts, p, ScoreKind::Audio, false, n);
    lemma_scan_extreme(fmts, p, ScoreKind::Audio, true, n);
    lemma_scan_extreme(fmts, p, ScoreKind::Audio, false, n);
}

/// Choosing by id takes the first format whose id is the part of the id
/// before any `+`, and fails exactly when no format has that id.
pub proof fn law_by_id(id: Seq<char>, fmts: Seq<FormatView>)
    ensures
        spec_select_single(SpecSelector::ById(id), fmts) matches Ok(i) ==> 0 <= i < fmts.len()
            && fmts[i].format_id == before_char(id, '+') && forall|j: int|
            0 <= j < i ==> fmts[j].format_id != before_char(id, '+'),
        spec_select_single(SpecSelector::ById(id), fmts) is Err <==> forall|j: int|
            0 <= j < fmts.len() ==> fmts[j].format_id != before_char(id, '+'),
{
    lemma_first_with_id_from(fmts, before_char(id, '+'), 0);
}

/// A fallback gives what its left side gives, unless that fails (for a
/// reason other than an incomplete choice); then it gives its right side.
pub proof fn law_fallback(l: SpecSelector, r: SpecSelector, fmts: Seq<FormatView>)
    ensures
        spec_select(l, fmts) is Ok ==> spec_select(
            SpecSelector::Fallback(Box::new(l), Box::new(r)),
            fmts,
        ) == spec_select(l, fmts),
        spec_select(l, fmts) is Err && !selection_incomplete(l, fmts) ==> spec_select(
            SpecSelector::Fallback(Box::new(l), Box::new(r)),
            fmts,
        ) == spec_select(r, fmts),
{
}

/// A merge takes one format for each side, or fails with the first side that fails.
pub proof fn law_merge(v: SpecSelector, a: SpecSelector, fmts: Seq<FormatView>)
    ensures
        spec_select(SpecSelector::Merge(Box::new(v), Box::new(a)), fmts) matches Ok(c) ==> c
            == SpecChoice::Merge(
            spec_select_single(v, fmts)->Ok_0,
            spec_select_single(a, fmts)->Ok_0,
        ),
        spec_select(SpecSelector::Merge(Box::new(v), Box::new(a)), fmts) is Ok <==> (
        spec_select_single(v, fmts) is Ok && spec_select_single(a, fmts) is Ok),
{
}

proof fn lemma_keep_matching(fmts: Seq<FormatView>, fs: Seq<SpecFilter>)
    ensures
        forall|j: int|
            0 <= j < keep_matching(fmts, fs).len() ==> spec_all_match(
                #[trigger] keep_matching(fmts, fs)[j],
                fs,
            ) && exists|i: int| 0 <= i < fmts.len() && fmts[i] == keep_matching(fmts, fs)[j],
    decreases fmts.len(),
{
    if fmts.len() > 0 {
        let rest = fmts.drop_last();
        lemma_keep_matching(rest, fs);
        let k = keep_matching(fmts, fs);
        let kr = keep_matching(rest, fs);
        assert forall|j: int| 0 <= j < k.len() implies spec_all_match(#[trigger] k[j], fs)
            && exists|i: int| 0 <= i < fmts.len() && fmts[i] == k[j] by {
            if j < kr.len() {
                assert(k[j] == kr[j]);
                let i = choose|i: int| 0 <= i < rest.len() && rest[i] == kr[j];
                assert(fmts[i] == rest[i]);
            } else {
                assert(k[j] == fmts.last());
                assert(fmts[fmts.len() - 1] == fmts.last());
            }
        }
    }
}

/// When no two formats share an id, what a filtered selector chooses passes
/// all of its filters.
pub proof fn law_filtered_passes_filters(base: SpecSelector, fs: Seq<SpecFilter>, fmts: Seq<FormatView>)
    requires
        forall|a: int, b: int|
            0 <= a < b < fmts.len() ==> #[trigger] fmts[a].format_id != #[trigger] fmts[b].format_id,
    ensures
        spec_select_single(SpecSelector::Filtered(Box::new(base), fs), fmts) matches Ok(i)
            ==> 0 <= i < fmts.len() && spec_all_match(fmts[i], fs),
{
    let sub = keep_matching(fmts, fs);
    lemma_keep_matching(fmts, fs);
    match spec_select_single(base, sub) {
        Ok(j) => {
            if 0 <= j < sub.len() {
                lemma_first_with_id_from(fmts, sub[j].format_id, 0);
                let m = choose|m: int| 0 <= m < fmts.len() && fmts[m] == sub[j];
                match first_with_id(fmts, sub[j].format_id) {
                    Some(i) => {
                        if i != m {
                            if i < m {
                                assert(fmts[i].format_id != fmts[m].format_id);
                            } else {
                                assert(fmts[m].format_id != fmts[i].format_id);
                            }
                        }
                    },
                    None => {},
                }
            }
        },
        Err(_) => {},
    }
}

/// `a op b` between two integers.
pub open spec fn holds_between(a: int, b: int, op: FilterOp) -> bool {
    match op {
        FilterOp::Eq => a == b,
        FilterOp::Ne => a != b,
        FilterOp::Lt => a < b,
        FilterOp::Le => a <= b,
        FilterOp::Gt => a > b,
        FilterOp::Ge => a >= b,
    }
}

/// The value `±m · 10^e` of a numeral with no fractional part.
pub open spec fn whole_literal(negative: bool, m: nat, e: nat) -> int {
    if negative {
        -((m * pow10(e)) as int)
    } else {
        (m * pow10(e)) as int
    }
}

proof fn lemma_compare_whole(n: int, negative: bool, m: nat, e: nat, op: FilterOp)
    ensures
        compare_number(
            n,
            1,
            FloatText::Finite { negative, mantissa: m, exponent: e as int },
            op,
        ) == holds_between(n, whole_literal(negative, m, e), op),
        compare_number(
            n,
            1000,
            FloatText::Finite { negative, mantissa: m, exponent: e as int },
            op,
        ) == holds_between(n, 1000 * whole_literal(negative, m, e), op),
{
    lemma_pow10_add(e, 3);
    reveal_with_fuel(pow10, 4);
    assert(pow10(3) == 1000);
    let a = m as int;
    let b = pow10(e) as int;
    let s3: nat = ((e as int) + 3) as nat;
    assert(s3 == e + 3);
    assert(pow10(s3) == b * 1000);
    assert(a * (b * 1000) == (a * b) * 1000) by (nonlinear_arith);
    let v = whole_literal(negative, m, e);
    let mag = (m * pow10(s3)) as int;
    assert(mag == (a * b) * 1000);
    let rhs = if negative {
        -mag
    } else {
        mag
    };
    assert(rhs == v * 1000);
    let x = FloatText::Finite { negative, mantissa: m, exponent: e as int };
    assert(spec_relate_thousandths(n * 1000, x) == (if n * 1000 < rhs {
        Relation::Less
    } else if n * 1000 == rhs {
        Relation::Equal
    } else {
        Relation::Greater
    }));
    assert(spec_relate_thousandths(n, x) == (if n < rhs {
        Relation::Less
    } else if n == rhs {
        Relation::Equal
    } else {
        Relation::Greater
    }));
    assert(n * (1000int / 1) == n * 1000);
    assert(n * (1000int / 1000) == n);
}

/// A numeric filter compares the field it names: on a per-unit field
/// (`height` and `width` in pixels, `fps` in frames per second, `asr` in
/// Hz) a whole-number value `v` keeps a format exactly when the format has
/// the field and its value `n` satisfies `n op v`; on a bit-rate field
/// (`tbr`, `abr`, `vbr`, held in bit/s) the value is in kbit/s, so the test
/// is `n op 1000 · v`. A format without the field never passes.
pub proof fn law_numeric_filters(f: FormatView, op: FilterOp, negative: bool, m: nat, e: nat)
    ensures
        ({
            let x = SpecValue::Num(FloatText::Finite { negative, mantissa: m, exponent: e as int });
            let v = whole_literal(negative, m, e);
            &&& spec_filter_matches(f, (SpecFilter { field: "height"@, op, value: x }))
                == (f.height matches Some(n) && holds_between(n as int, v, op))
            &&& spec_filter_matches(f, (SpecFilter { field: "width"@, op, value: x }))
                == (f.width matches Some(n) && holds_between(n as int, v, op))
            &&& spec_filter_matches(f, (SpecFilter { field: "fps"@, op, value: x }))
                == (f.fps matches Some(n) && holds_between(n as int, v, op))
            &&& spec_filter_matches(f, (SpecFilter { field: "asr"@, op, value: x }))
                == (f.asr matches Some(n) && holds_between(n as int, v, op))
            &&& spec_filter_matches(f, (SpecFilter { field: "tbr"@, op, value: x }))
                == (f.tbr matches Some(n) && holds_between(n as int, 1000 * v, op))
            &&& spec_filter_matches(f, (SpecFilter { field: "abr"@, op, value: x }))
                == (f.abr matches Some(n) && holds_between(n as int, 1000 * v, op))
            &&& spec_filter_matches(f, (SpecFilter { field: "vbr"@, op, value: x }))
                == (f.vbr matches Some(n) && holds_between(n as int, 1000 * v, op))
        }),
{
    reveal_strlit("ext");
    reveal_strlit("extension");
    reveal_strlit("height");
    reveal_strlit("width");
    reveal_strlit("fps");
    reveal_strlit("tbr");
    reveal_strlit("abr");
    reveal_strlit("vbr");
    reveal_strlit("asr");
    assert("ext"@[0] == 'e' && "extension"@[0] == 'e' && "height"@[0] == 'h');
    assert("width"@[0] == 'w' && "fps"@[0] == 'f' && "tbr"@[0] == 't');
    assert("abr"@[0] == 'a' && "vbr"@[0] == 'v' && "asr"@[0] == 'a');
    assert("abr"@[1] == 'b' && "asr"@[1] == 's');
    match f.height {
        Some(n) => lemma_compare_whole(n as int, negative, m, e, op),
        None => {},
    }
    match f.width {
        Some(n) => lemma_compare_whole(n as int, negative, m, e, op),
        None => {},
    }
    match f.fps {
        Some(n) => lemma_compare_whole(n as int, negative, m, e, op),
        None => {},
    }
    match f.asr {
        Some(n) => lemma_compare_whole(n as int, negative, m, e, op),
        None => {},
    }
    match f.tbr {
        Some(n) => lemma_compare_whole(n as int, negative, m, e, op),
        None => {},
    }
    match f.abr {
        Some(n) => lemma_compare_whole(n as int, negative, m, e, op),
        None => {},
    }
    match f.vbr {
        Some(n) => lemma_compare_whole(n as int, negative, m, e, op),
        None => {},
    }
}

proof fn lemma_find_top_absent(s: Seq<char>, c: char, i: int, depth: int)
    requires
        0 <= i,
        forall|j: int| i <= j < s.len() ==> s[j] != c,
    ensures
        find_top_from(s, c, i, depth) is None,
    decreases s.len() - i,
{
    if i < s.len() {
        if s[i] == '[' {
            lemma_find_top_absent(s, c, i + 1, depth + 1);
        } else if s[i] == ']' {
            lemma_find_top_absent(s, c, i + 1, depth - 1);
        } else {
            lemma_find_top_absent(s, c, i + 1, depth);
        }
    }
}

/// A word of ASCII letters is a selector by itself: it parses as the
/// keyword it spells, each short keyword standing for its long form (`b`
/// for `best`, `w` for `worst`, `bv` for `bestvideo`, `wv` for
/// `worstvideo`, `ba` for `bestaudio`, `wa` for `worstaudio`), and any
/// other word as the format id it spells.
pub proof fn law_keyword_words(s: Seq<char>)
    requires
        s.len() >= 1,
        forall|j: int| 0 <= j < s.len() ==> is_ascii_alpha(#[trigger] s[j]),
    ensures
        (s == "b"@ || s == "best"@) ==> spec_parse_selector(s) == Ok::<SpecSelector, SpecSelectorError>(SpecSelector::Best),
        (s == "w"@ || s == "worst"@) ==> spec_parse_selector(s) == Ok::<SpecSelector, SpecSelectorError>(SpecSelector::Worst),
        (s == "bv"@ || s == "bestvideo"@) ==> spec_parse_selector(s) == Ok::<SpecSelector, SpecSelectorError>(SpecSelector::BestVideo),
        (s == "wv"@ || s == "worstvideo"@) ==> spec_parse_selector(s) == Ok::<SpecSelector, SpecSelectorError>(SpecSelector::WorstVideo),
        (s == "ba"@ || s == "bestaudio"@) ==> spec_parse_selector(s) == Ok::<SpecSelector, SpecSelectorError>(SpecSelector::BestAudio),
        (s == "wa"@ || s == "worstaudio"@) ==> spec_parse_selector(s) == Ok::<SpecSelector, SpecSelectorError>(SpecSelector::WorstAudio),
        !(s == "b"@ || s == "best"@ || s == "w"@ || s == "worst"@ || s == "bv"@ || s == "bestvideo"@
            || s == "wv"@ || s == "worstvideo"@ || s == "ba"@ || s == "bestaudio"@ || s == "wa"@
            || s == "worstaudio"@) ==> spec_parse_selector(s) == Ok::<SpecSelector, SpecSelectorError>(SpecSelector::ById(s)),
{
    assert(forall|j: int| 0 <= j < s.len() ==> s[j] != '/' && s[j] != '+' && s[j] != '['
        && !is_ws(s[j])) by {
        assert forall|j: int| 0 <= j < s.len() implies s[j] != '/' && s[j] != '+' && s[j] != '['
            && !is_ws(s[j]) by {
            assert(is_ascii_alpha(s[j]));
        }
    }
    lemma_find_top_absent(s, '/', 0, 0);
    lemma_find_top_absent(s, '+', 0, 0);
    lemma_index_of_from(s, '[', 0);
    assert(left_end(s, CharClass::Whitespace, 0) == 0);
    assert(right_end(s, CharClass::Whitespace, 0, s.len() as int) == s.len());
    assert(s.subrange(0, s.len() as int) =~= s);
    assert(trim(s) == s);
    reveal_strlit("b");
    reveal_strlit("best");
    reveal_strlit("w");
    reveal_strlit("worst");
    reveal_strlit("bv");
    reveal_strlit("bestvideo");
    reveal_strlit("wv");
    reveal_strlit("worstvideo");
    reveal_strlit("ba");
    reveal_strlit("bestaudio");
    reveal_strlit("wa");
    reveal_strlit("worstaudio");
    assert("b"@[0] == 'b' && "w"@[0] == 'w' && "best"@[0] == 'b' && "worst"@[0] == 'w');
    assert("bv"@[1] == 'v' && "ba"@[1] == 'a' && "wv"@[1] == 'v' && "wa"@[1] == 'a');
    assert("bv"@[0] == 'b' && "ba"@[0] == 'b' && "wv"@[0] == 'w' && "wa"@[0] == 'w');
    assert("bestvideo"@[4] == 'v' && "bestaudio"@[4] == 'a');
    assert("worstvideo"@[5] == 'v' && "worstaudio"@[5] == 'a');
    assert("bestvideo"@[0] == 'b' && "bestaudio"@[0] == 'b' && "worstvideo"@[0] == 'w' && "worstaudio"@[0] == 'w');
}

/// `a op t` between texts: only `=` and `!=` hold of any.
pub open spec fn text_op_holds(a: Seq<char>, t: Seq<char>, op: FilterOp) -> bool {
    match op {
        FilterOp::Eq => a == t,
        FilterOp::Ne => a != t,
        _ => false,
    }
}

/// A filter with a text value compares text fields only, and only by `=`
/// and `!=`: on `ext` (or `extension`), `protocol` and `format_id` it tests
/// the format's own text, on `vcodec` and `acodec` the codec when the
/// format names one; any other operator, a numeric field, or a field the
/// library does not know never passes.
pub proof fn law_text_filters(f: FormatView, op: FilterOp, t: Seq<char>)
    ensures
        ({
            let x = SpecValue::Str(t);
            &&& spec_filter_matches(f, (SpecFilter { field: "ext"@, op, value: x })) == text_op_holds(f.ext, t, op)
            &&& spec_filter_matches(f, (SpecFilter { field: "extension"@, op, value: x })) == text_op_holds(f.ext, t, op)
            &&& spec_filter_matches(f, (SpecFilter { field: "protocol"@, op, value: x })) == text_op_holds(f.protocol, t, op)
            &&& spec_filter_matches(f, (SpecFilter { field: "format_id"@, op, value: x })) == text_op_holds(f.format_id, t, op)
            &&& spec_filter_matches(f, (SpecFilter { field: "vcodec"@, op, value: x })) == (
            f.vcodec matches Some(c) && text_op_holds(c, t, op))
            &&& spec_filter_matches(f, (SpecFilter { field: "acodec"@, op, value: x })) == (
            f.acodec matches Some(c) && text_op_holds(c, t, op))
            &&& !spec_filter_matches(f, (SpecFilter { field: "height"@, op, value: x }))
            &&& !spec_filter_matches(f, (SpecFilter { field: "tbr"@, op, value: x }))
            &&& !spec_filter_matches(f, (SpecFilter { field: "resolution"@, op, value: x }))
        }),
{
    reveal_strlit("ext");
    reveal_strlit("extension");
    reveal_strlit("height");
    reveal_strlit("width");
    reveal_strlit("fps");
    reveal_strlit("tbr");
    reveal_strlit("abr");
    reveal_strlit("vbr");
    reveal_strlit("asr");
    reveal_strlit("vcodec");
    reveal_strlit("acodec");
    reveal_strlit("protocol");
    reveal_strlit("format_id");
    reveal_strlit("resolution");
    assert("ext"@[0] == 'e' && "extension"@[0] == 'e' && "height"@[0] == 'h');
    assert("width"@[0] == 'w' && "fps"@[0] == 'f' && "tbr"@[0] == 't');
    assert("abr"@[0] == 'a' && "vbr"@[0] == 'v' && "asr"@[0] == 'a');
    assert("vcodec"@[0] == 'v' && "acodec"@[0] == 'a' && "protocol"@[0] == 'p');
    assert("format_id"@[0] == 'f' && "resolution"@[0] == 'r');
    assert("vcodec"@[1] == 'c' && "acodec"@[1] == 'c');
    assert("format_id"@[1] == 'o' && "fps"@[1] == 'p');
}

/// Not-a-number and the infinities compare as floating-point values do: a
/// format with the field passes a `nan` filter only through `!=`, an `inf`
/// filter through `!=`, `<` and `<=`, and a `-inf` filter through `!=`, `>`
/// and `>=`.
pub proof fn law_special_filter_values(f: FormatView, op: FilterOp)
    ensures
        f.height is Some ==> (spec_filter_matches(
            f,
            (SpecFilter { field: "height"@, op, value: SpecValue::Num(FloatText::NotANumber) }),
        ) <==> op == FilterOp::Ne),
        f.height is Some ==> (spec_filter_matches(
            f,
            (SpecFilter {
                field: "height"@,
                op,
                value: SpecValue::Num(FloatText::Infinite { negative: false }),
            }),
        ) <==> (op == FilterOp::Ne || op == FilterOp::Lt || op == FilterOp::Le)),
        f.height is Some ==> (spec_filter_matches(
            f,
            (SpecFilter {
                field: "height"@,
                op,
                value: SpecValue::Num(FloatText::Infinite { negative: true }),
            }),
        ) <==> (op == FilterOp::Ne || op == FilterOp::Gt || op == FilterOp::Ge)),
{
    reveal_strlit("ext");
    reveal_strlit("extension");
    reveal_strlit("height");
    assert("ext"@[0] == 'e' && "extension"@[0] == 'e' && "height"@[0] == 'h');
}

} // verus!
