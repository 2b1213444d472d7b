//! Numbers written as text, read the way `str::parse::<f64>` reads them
//! (an optional sign, then `inf`, `infinity`, `nan` or a decimal numeral
//! with an optional exponent, letters in either case) but kept exact: a
//! numeral stands for its digits times a power of ten, not for the nearest
//! double.
use crate::external::ascii_lowercase;
use crate::text::{
    after_char, all_digits, ascii_lower, ascii_lower_char, before_char, chars_eq_str,
    digit_value, digits_value, index_of, index_of_vec, is_ascii_digit, lemma_index_of_from,
    sub_vec,
};
use vstd::arithmetic::div_mod::{
    lemma_div_is_ordered, lemma_fundamental_div_mod, lemma_fundamental_div_mod_converse,
};
use vstd::prelude::*;

verus! {

broadcast use vstd::string::group_string_axioms;

// ───────────────────────── powers of ten ─────────────────────────

pub open spec fn pow10(n: nat) -> nat
    decreases n,
{
    if n == 0 {
        1
    } else {
        10 * pow10((n - 1) as nat)
    }
}

pub proof fn lemma_pow10_pos(n: nat)
    ensures
        pow10(n) >= 1,
    decreases n,
{
    if n > 0 {
        lemma_pow10_pos((n - 1) as nat);
    }
}

pub proof fn lemma_pow10_mono(a: nat, b: nat)
    requires
        a <= b,
    ensures
        pow10(a) <= pow10(b),
    decreases b,
{
    if a < b {
        lemma_pow10_mono(a, (b - 1) as nat);
    }
}

pub proof fn lemma_pow10_add(a: nat, b: nat)
    ensures
        pow10(a + b) == pow10(a) * pow10(b),
    decreases b,
{
    if b > 0 {
        let b1 = (b - 1) as nat;
        lemma_pow10_add(a, b1);
        let x = pow10(a) as int;
        let y = pow10(b1) as int;
        assert(pow10(a + b) == 10 * pow10(a + b1));
        assert(pow10(b) == 10 * y);
        assert(pow10(a + b1) == x * y);
        assert(10 * (x * y) == x * (10 * y)) by (nonlinear_arith);
    } else {
        assert(pow10(0) == 1);
        assert(a + b == a);
    }
}

proof fn lemma_pow10_38()
    ensures
        pow10(38) == 100000000000000000000000000000000000000nat,
{
    reveal_with_fuel(pow10, 39);
}

/// `10^n` as a `u128`.
pub fn pow10_u128(n: u32) -> (r: u128)
    requires
        n <= 38,
    ensures
        r as nat == pow10(n as nat),
{
    let mut r: u128 = 1;
    let mut i: u32 = 0;
    while i < n
        invariant
            i <= n <= 38,
            r as nat == pow10(i as nat),
        decreases n - i,
    {
        proof {
            lemma_pow10_mono((i + 1) as nat, 38);
            lemma_pow10_38();
        }
        r = r * 10;
        i = i + 1;
    }
    r
}

// ───────────────────────── digit runs ─────────────────────────

pub proof fn lemma_digits_value_bound(s: Seq<char>)
    requires
        all_digits(s),
    ensures
        digits_value(s) < pow10(s.len()),
    decreases s.len(),
{
    if s.len() > 0 {
        let p = s.drop_last();
        assert(all_digits(p)) by {
            assert forall|i: int| 0 <= i < p.len() implies is_ascii_digit(#[trigger] p[i]) by {
                assert(p[i] == s[i]);
            }
        }
        lemma_digits_value_bound(p);
        assert(is_ascii_digit(s[s.len() - 1]));
    }
}

/// The value of two digit runs one after the other.
pub proof fn lemma_digits_value_append(a: Seq<char>, b: Seq<char>)
    requires
        all_digits(b),
    ensures
        digits_value(a + b) == digits_value(a) * pow10(b.len()) + digits_value(b),
    decreases b.len(),
{
    if b.len() == 0 {
        assert(a + b =~= a);
        assert(pow10(0) == 1);
        assert(digits_value(b) == 0);
    } else {
        let b0 = b.drop_last();
        assert(all_digits(b0)) by {
            assert forall|i: int| 0 <= i < b0.len() implies is_ascii_digit(#[trigger] b0[i]) by {
                assert(b0[i] == b[i]);
            }
        }
        assert(is_ascii_digit(b[b.len() - 1]));
        assert((a + b).drop_last() =~= a + b0);
        assert((a + b).last() == b.last());
        lemma_digits_value_append(a, b0);
        assert(digits_value(a + b) == digits_value(a + b0) * 10 + digit_value(b.last()));
        assert(digits_value(b) == digits_value(b0) * 10 + digit_value(b.last()));
        assert(pow10(b.len()) == 10 * pow10(b0.len()));
        let x = digits_value(a) as int;
        let y = pow10(b0.len()) as int;
        let z = digits_value(b0) as int;
        let d = digit_value(b.last());
        assert((x * y + z) * 10 + d == x * (10 * y) + (z * 10 + d)) by (nonlinear_arith);
    }
}

/// A run of digits is worth nothing exactly when all its digits are `0`.
pub proof fn lemma_digits_value_zero(s: Seq<char>)
    requires
        all_digits(s),
    ensures
        (digits_value(s) == 0) == (forall|i: int| 0 <= i < s.len() ==> s[i] == '0'),
    decreases s.len(),
{
    if s.len() > 0 {
        let p = s.drop_last();
        assert(all_digits(p)) by {
            assert forall|i: int| 0 <= i < p.len() implies is_ascii_digit(#[trigger] p[i]) by {
                assert(p[i] == s[i]);
            }
        }
        lemma_digits_value_zero(p);
        assert(is_ascii_digit(s[s.len() - 1]));
        if forall|i: int| 0 <= i < s.len() ==> s[i] == '0' {
            assert forall|i: int| 0 <= i < p.len() implies p[i] == '0' by {
                assert(p[i] == s[i]);
            }
        }
        if digits_value(s) == 0 {
            assert forall|i: int| 0 <= i < s.len() implies s[i] == '0' by {
                if i < p.len() {
                    assert(p[i] == s[i]);
                }
            }
        }
    }
}

/// A run of digits that does not start with `0` is worth at least `10^(len-1)`.
pub proof fn lemma_digits_value_lower(s: Seq<char>)
    requires
        all_digits(s),
        s.len() >= 1,
        s[0] != '0',
    ensures
        digits_value(s) >= pow10((s.len() - 1) as nat),
{
    let head = s.subrange(0, 1);
    let rest = s.subrange(1, s.len() as int);
    assert(head + rest =~= s);
    assert(all_digits(rest)) by {
        assert forall|i: int| 0 <= i < rest.len() implies is_ascii_digit(#[trigger] rest[i]) by {
            assert(rest[i] == s[i + 1]);
        }
    }
    lemma_digits_value_append(head, rest);
    assert(head.drop_last() =~= Seq::<char>::empty());
    assert(head.last() == s[0]);
    assert(digits_value(Seq::<char>::empty()) == 0);
    assert(digits_value(head) == digits_value(head.drop_last()) * 10 + digit_value(head.last()));
    assert(digits_value(head) == digit_value(s[0]));
    assert(is_ascii_digit(s[0]));
    let x = digits_value(head) as int;
    let y = pow10(rest.len()) as int;
    assert(x >= 1 ==> x * y >= y) by (nonlinear_arith)
        requires
            y >= 0,
    ;
}

/// Whether `v[from..to]` are all ASCII digits.
pub fn all_digits_range(v: &Vec<char>, from: usize, to: usize) -> (b: bool)
    requires
        from <= to <= v.len(),
    ensures
        b == all_digits(v@.subrange(from as int, to as int)),
{
    let mut i = from;
    while i < to
        invariant
            from <= i <= to <= v.len(),
            forall|j: int| from <= j < i ==> is_ascii_digit(#[trigger] v@[j]),
        decreases to - i,
    {
        if !('0' <= v[i] && v[i] <= '9') {
            assert(v@.subrange(from as int, to as int)[i - from] == v@[i as int]);
            return false;
        }
        i = i + 1;
    }
    assert forall|j: int| 0 <= j < to - from implies is_ascii_digit(
        #[trigger] v@.subrange(from as int, to as int)[j],
    ) by {
        assert(v@.subrange(from as int, to as int)[j] == v@[from + j]);
    }
    true
}

/// The value of the ASCII digits `v[from..to]`, of which there are at most 38.
pub fn digits_u128(v: &Vec<char>, from: usize, to: usize) -> (r: u128)
    requires
        from <= to <= v.len(),
        to - from <= 38,
        all_digits(v@.subrange(from as int, to as int)),
    ensures
        r as nat == digits_value(v@.subrange(from as int, to as int)),
{
    let mut acc: u128 = 0;
    let mut i = from;
    while i < to
        invariant
            from <= i <= to <= v.len(),
            to - from <= 38,
            all_digits(v@.subrange(from as int, to as int)),
            acc as nat == digits_value(v@.subrange(from as int, i as int)),
        decreases to - i,
    {
        let ghost pre = v@.subrange(from as int, (i + 1) as int);
        proof {
            assert(pre.drop_last() =~= v@.subrange(from as int, i as int));
            assert(pre[pre.len() - 1] == v@.subrange(from as int, to as int)[i - from]);
            assert(all_digits(pre)) by {
                assert forall|j: int| 0 <= j < pre.len() implies is_ascii_digit(#[trigger] pre[j]) by {
                    assert(pre[j] == v@.subrange(from as int, to as int)[j]);
                }
            }
            lemma_digits_value_bound(pre);
            lemma_pow10_mono(pre.len(), 38);
            lemma_pow10_38();
        }
        let d = (v[i] as u32 - '0' as u32) as u128;
        acc = acc * 10 + d;
        i = i + 1;
    }
    acc
}

/// The first index at or after `from` that does not hold `0` (`v.len()` if none).
fn skip_zeros(v: &Vec<char>, from: usize) -> (z: usize)
    requires
        from <= v.len(),
    ensures
        from <= z <= v.len(),
        forall|j: int| from <= j < z ==> v@[j] == '0',
        z < v.len() ==> v@[z as int] != '0',
{
    let mut i = from;
    while i < v.len() && v[i] == '0'
        invariant
            from <= i <= v.len(),
            forall|j: int| from <= j < i ==> v@[j] == '0',
        decreases v.len() - i,
    {
        i = i + 1;
    }
    i
}

// ───────────────────────── the grammar ─────────────────────────

/// The value a number text stands for: `±mantissa · 10^exponent`, an
/// infinity, or not-a-number.
pub enum FloatText {
    NotANumber,
    Infinite { negative: bool },
    Finite { negative: bool, mantissa: nat, exponent: int },
}

/// The text after one leading `+` or `-`, if there is one.
pub open spec fn unsigned_part(s: Seq<char>) -> Seq<char> {
    if s.len() > 0 && (s[0] == '+' || s[0] == '-') {
        s.drop_first()
    } else {
        s
    }
}

/// An exponent: an optional sign, then at least one digit.
pub open spec fn spec_exponent(t: Seq<char>) -> Option<int> {
    let ds = unsigned_part(t);
    if ds.len() >= 1 && all_digits(ds) {
        Some(
            if t[0] == '-' {
                -(digits_value(ds) as int)
            } else {
                digits_value(ds) as int
            },
        )
    } else {
        None
    }
}

/// A numeral in lower case: digits with at most one `.` (at least one digit
/// in all), then optionally `e` and an exponent. Its value is the digits
/// read as one integer, times ten to the exponent less the digits after
/// the point.
pub open spec fn spec_numeral(t: Seq<char>) -> Option<(nat, int)> {
    let num = match index_of(t, 'e') {
        Some(k) => t.subrange(0, k),
        None => t,
    };
    let exp = match index_of(t, 'e') {
        Some(k) => spec_exponent(t.subrange(k + 1, t.len() as int)),
        None => Some(0int),
    };
    let int_part = before_char(num, '.');
    let frac = after_char(num, '.');
    match exp {
        Some(x) => if all_digits(int_part) && all_digits(frac) && int_part.len() + frac.len()
            >= 1 {
            Some((digits_value(int_part + frac), x - frac.len()))
        } else {
            None
        },
        None => None,
    }
}

/// What a text stands for as a number, if it is one: an optional sign, then
/// `inf`, `infinity`, `nan` or a numeral, letters in either case.
pub open spec fn spec_parse_float(s: Seq<char>) -> Option<FloatText> {
    let negative = s.len() > 0 && s[0] == '-';
    let t = ascii_lowercase(unsigned_part(s));
    if t == "inf"@ || t == "infinity"@ {
        Some(FloatText::Infinite { negative })
    } else if t == "nan"@ {
        Some(FloatText::NotANumber)
    } else {
        match spec_numeral(t) {
            Some((m, e)) => Some(FloatText::Finite { negative, mantissa: m, exponent: e }),
            None => None,
        }
    }
}

// ───────────────────────── what a number is worth ─────────────────────────

/// The whole part of `m · 10^e`.
pub open spec fn floor_scaled(m: nat, e: int) -> nat {
    if e >= 0 {
        m * pow10(e as nat)
    } else {
        m / pow10((-e) as nat)
    }
}

/// Whether `m · 10^e` has a fractional part.
pub open spec fn has_fraction(m: nat, e: int) -> bool {
    e < 0 && m % pow10((-e) as nat) != 0
}

/// The number as `as u64` converts it: truncated toward zero and held to
/// `0..=u64::MAX`; not-a-number becomes 0.
pub open spec fn spec_whole_u64(x: FloatText) -> u64 {
    match x {
        FloatText::NotANumber => 0,
        FloatText::Infinite { negative } => if negative {
            0
        } else {
            u64::MAX
        },
        FloatText::Finite { negative, mantissa, exponent } => if negative {
            0
        } else if floor_scaled(mantissa, exponent) > u64::MAX {
            u64::MAX
        } else {
            floor_scaled(mantissa, exponent) as u64
        },
    }
}

/// What a text reads as, converted to a `u64` as `as u64` does.
pub open spec fn spec_text_as_u64(s: Seq<char>) -> Option<u64> {
    match spec_parse_float(s) {
        Some(x) => Some(spec_whole_u64(x)),
        None => None,
    }
}

/// How one number stands to another.
#[derive(Debug, Clone, Copy, PartialEq, Eq, Structural)]
pub enum Relation {
    Less,
    Equal,
    Greater,
    /// One of them is not a number.
    Unordered,
}

/// How `q / 1000` stands to the number.
pub open spec fn spec_relate_thousandths(q: int, x: FloatText) -> Relation {
    match x {
        FloatText::NotANumber => Relation::Unordered,
        FloatText::Infinite { negative } => if negative {
            Relation::Greater
        } else {
            Relation::Less
        },
        FloatText::Finite { negative, mantissa, exponent } => {
            let s = exponent + 3;
            let lhs = if s < 0 {
                q * pow10((-s) as nat)
            } else {
                q
            };
            let mag = if s < 0 {
                mantissa as int
            } else {
                (mantissa * pow10(s as nat)) as int
            };
            let rhs = if negative {
                -mag
            } else {
                mag
            };
            if lhs < rhs {
                Relation::Less
            } else if lhs == rhs {
                Relation::Equal
            } else {
                Relation::Greater
            }
        },
    }
}

// ───────────────────────── the executable number ─────────────────────────

#[derive(Debug, Clone, Copy, PartialEq, Eq, Structural)]
enum NumberKind {
    NotANumber,
    Infinite,
    Finite,
}

/// A number read from text: its sign, its kind, and for a numeral its
/// digits (those before the point, then those after it), how many of them
/// follow the point, and its exponent's sign and digits.
#[derive(Debug)]
pub struct Number {
    negative: bool,
    kind: NumberKind,
    digits: Vec<char>,
    frac_len: usize,
    exp_negative: bool,
    exp_digits: Vec<char>,
}

impl Number {
    #[verifier::type_invariant]
    spec fn well_formed(self) -> bool {
        &&& all_digits(self.digits@)
        &&& all_digits(self.exp_digits@)
        &&& self.frac_len <= self.digits@.len()
    }

    spec fn exponent_value(self) -> int {
        if self.exp_negative {
            -(digits_value(self.exp_digits@) as int)
        } else {
            digits_value(self.exp_digits@) as int
        }
    }
}

impl View for Number {
    type V = FloatText;

    closed spec fn view(&self) -> FloatText {
        match self.kind {
            NumberKind::NotANumber => FloatText::NotANumber,
            NumberKind::Infinite => FloatText::Infinite { negative: self.negative },
            NumberKind::Finite => FloatText::Finite {
                negative: self.negative,
                mantissa: digits_value(self.digits@),
                exponent: self.exponent_value() - self.frac_len,
            },
        }
    }
}


proof fn lemma_pow10_20()
    ensures
        pow10(20) == 100000000000000000000nat,
{
    reveal_with_fuel(pow10, 21);
}

pub proof fn lemma_pow10_23()
    ensures
        pow10(23) == 100000000000000000000000nat,
{
    reveal_with_fuel(pow10, 24);
}

proof fn lemma_pow10_30()
    ensures
        pow10(30) == 1000000000000000000000000000000nat,
{
    reveal_with_fuel(pow10, 31);
}

/// The digits of `v` with ASCII capitals made small.
fn ascii_lower_vec(v: &Vec<char>) -> (r: Vec<char>)
    ensures
        r@ == ascii_lowercase(v@),
{
    let mut r: Vec<char> = Vec::new();
    let mut i: usize = 0;
    while i < v.len()
        invariant
            i <= v.len(),
            r@.len() == i,
            forall|j: int| 0 <= j < i ==> r@[j] == ascii_lower(#[trigger] v@[j]),
        decreases v.len() - i,
    {
        r.push(ascii_lower_char(v[i]));
        i = i + 1;
    }
    assert(r@ =~= ascii_lowercase(v@));
    r
}

/// Reads an exponent: whether it is negative, and its digits.
fn parse_exponent(t: &Vec<char>) -> (r: Option<(bool, Vec<char>)>)
    ensures
        match r {
            Some((neg, ds)) => all_digits(ds@) && spec_exponent(t@) == Some(
                if neg {
                    -(digits_value(ds@) as int)
                } else {
                    digits_value(ds@) as int
                },
            ),
            None => spec_exponent(t@) is None,
        },
{
    let signed = t.len() > 0 && (t[0] == '+' || t[0] == '-');
    let start: usize = if signed {
        1
    } else {
        0
    };
    let ds = sub_vec(t, start, t.len());
    assert(ds@ =~= unsigned_part(t@));
    if ds.len() >= 1 && all_digits_range(&ds, 0, ds.len()) {
        assert(ds@.subrange(0, ds@.len() as int) =~= ds@);
        let neg = t[0] == '-';
        Some((neg, ds))
    } else {
        assert(ds.len() >= 1 ==> ds@.subrange(0, ds@.len() as int) =~= ds@);
        None
    }
}

/// Reads a text as a number, as `str::parse::<f64>` accepts it.
pub fn parse_number(v: &Vec<char>) -> (r: Option<Number>)
    ensures
        match r {
            Some(n) => spec_parse_float(v@) == Some(n@),
            None => spec_parse_float(v@) is None,
        },
{
    let negative = v.len() > 0 && v[0] == '-';
    let signed = v.len() > 0 && (v[0] == '+' || v[0] == '-');
    let start: usize = if signed {
        1
    } else {
        0
    };
    let body = sub_vec(v, start, v.len());
    assert(body@ =~= unsigned_part(v@));
    let t = ascii_lower_vec(&body);
    proof {
        reveal_strlit("inf");
        reveal_strlit("infinity");
        reveal_strlit("nan");
    }
    if chars_eq_str(&t, "inf") || chars_eq_str(&t, "infinity") {
        let n = Number {
            negative,
            kind: NumberKind::Infinite,
            digits: Vec::new(),
            frac_len: 0,
            exp_negative: false,
            exp_digits: Vec::new(),
        };
        return Some(n);
    }
    if chars_eq_str(&t, "nan") {
        let n = Number {
            negative,
            kind: NumberKind::NotANumber,
            digits: Vec::new(),
            frac_len: 0,
            exp_negative: false,
            exp_digits: Vec::new(),
        };
        return Some(n);
    }
    match parse_numeral(&t) {
        Some((digits, frac_len, exp_negative, exp_digits)) => {
            let n = Number {
                negative,
                kind: NumberKind::Finite,
                digits,
                frac_len,
                exp_negative,
                exp_digits,
            };
            Some(n)
        },
        None => None,
    }
}

/// Reads a numeral in lower case: its digits (before the point, then after
/// it), how many follow the point, and its exponent's sign and digits.
fn parse_numeral(t: &Vec<char>) -> (r: Option<(Vec<char>, usize, bool, Vec<char>)>)
    ensures
        match r {
            Some((ds, fl, en, es)) => {
                &&& all_digits(ds@)
                &&& all_digits(es@)
                &&& fl <= ds@.len()
                &&& spec_numeral(t@) == Some(
                    (
                        digits_value(ds@),
                        (if en {
                            -(digits_value(es@) as int)
                        } else {
                            digits_value(es@) as int
                        }) - fl,
                    ),
                )
            },
            None => spec_numeral(t@) is None,
        },
{
    let mark = index_of_vec(t, 'e');
    proof {
        lemma_index_of_from(t@, 'e', 0);
    }
    let num_end: usize = match mark {
        Some(k) => k,
        None => t.len(),
    };
    let num = sub_vec(t, 0, num_end);
    assert(mark is None ==> num@ =~= t@);
    let exp: Option<(bool, Vec<char>)> = match mark {
        Some(k) => {
            assert(index_of(t@, 'e') == Some(k as int));
            assert(k < t.len());
            let rest = sub_vec(t, k + 1, t.len());
            parse_exponent(&rest)
        },
        None => Some((false, Vec::new())),
    };
    let (exp_negative, exp_digits) = match exp {
        Some(p) => p,
        None => {
            return None;
        },
    };
    assert(digits_value(Seq::<char>::empty()) == 0);
    let dot = index_of_vec(&num, '.');
    proof {
        lemma_index_of_from(num@, '.', 0);
    }
    let int_end: usize = match dot {
        Some(k) => k,
        None => num.len(),
    };
    let frac_start: usize = match dot {
        Some(k) => k + 1,
        None => num.len(),
    };
    let int_part = sub_vec(&num, 0, int_end);
    let frac = sub_vec(&num, frac_start, num.len());
    assert(int_part@ =~= before_char(num@, '.'));
    assert(frac@ =~= after_char(num@, '.'));
    if !all_digits_range(&int_part, 0, int_part.len()) || !all_digits_range(
        &frac,
        0,
        frac.len(),
    ) || int_part.len() + frac.len() < 1 {
        assert(int_part@.subrange(0, int_part@.len() as int) =~= int_part@);
        assert(frac@.subrange(0, frac@.len() as int) =~= frac@);
        return None;
    }
    assert(int_part@.subrange(0, int_part@.len() as int) =~= int_part@);
    assert(frac@.subrange(0, frac@.len() as int) =~= frac@);
    let frac_len = frac.len();
    let mut digits = int_part;
    let ghost ip = digits@;
    crate::text::append_chars(&mut digits, &frac);
    assert(digits@ == ip + frac@);
    assert(all_digits(digits@)) by {
        assert forall|j: int| 0 <= j < digits@.len() implies is_ascii_digit(#[trigger] digits@[j]) by {
            if j < ip.len() {
                assert(digits@[j] == ip[j]);
            } else {
                assert(digits@[j] == frac@[j - ip.len()]);
            }
        }
    }
    Some((digits, frac_len, exp_negative, exp_digits))
}


/// The digits of an exponent read as a number, held once it reaches `10^30`.
fn exp_magnitude(ds: &Vec<char>) -> (r: u128)
    requires
        all_digits(ds@),
    ensures
        digits_value(ds@) < pow10(30) ==> r as nat == digits_value(ds@),
        digits_value(ds@) >= pow10(30) ==> r >= pow10(30),
{
    let big: u128 = 1_000_000_000_000_000_000_000_000_000_000;
    proof {
        lemma_pow10_30();
    }
    let mut acc: u128 = 0;
    let mut i: usize = 0;
    assert(ds@.subrange(0, 0) =~= Seq::<char>::empty());
    while i < ds.len()
        invariant
            i <= ds.len(),
            all_digits(ds@),
            big == pow10(30),
            big == 1_000_000_000_000_000_000_000_000_000_000u128,
            digits_value(ds@.subrange(0, i as int)) < big ==> acc == digits_value(
                ds@.subrange(0, i as int),
            ),
            digits_value(ds@.subrange(0, i as int)) >= big ==> acc >= big,
            acc < 10 * big + 10,
        decreases ds.len() - i,
    {
        let ghost prev = ds@.subrange(0, i as int);
        let ghost pre = ds@.subrange(0, i + 1);
        assert(pre.drop_last() =~= prev);
        assert(pre.last() == ds@[i as int]);
        assert(is_ascii_digit(ds@[i as int]));
        if acc < big {
            let d = (ds[i] as u32 - '0' as u32) as u128;
            acc = acc * 10 + d;
        }
        i = i + 1;
    }
    assert(ds@.subrange(0, ds@.len() as int) =~= ds@);
    acc
}

/// Dividing `q · p` and `t · p + r` by `p` shows how `q` and `t` compare.
proof fn lemma_scaled_compare(q: int, t: int, r: int, p: int)
    requires
        p > 0,
        0 <= r < p,
    ensures
        q < t ==> q * p < t * p + r,
        q > t ==> q * p > t * p + r,
        q == t ==> (q * p < t * p + r) == (r > 0),
        q == t ==> (q * p == t * p + r) == (r == 0),
{
    assert(q < t ==> q * p < t * p + r) by (nonlinear_arith)
        requires
            p > 0,
            0 <= r,
    ;
    assert(q > t ==> q * p > t * p + r) by (nonlinear_arith)
        requires
            p > 0,
            r < p,
    ;
}

/// For a finite `m · 10^e`: the whole part of `m · 10^(e + extra)` and
/// whether it has a fractional part, or `None` when the whole part
/// reaches `10^w`.
fn leading_part(n: &Number, extra: u8, w: u32) -> (r: Option<(u128, bool)>)
    requires
        n.kind == NumberKind::Finite,
        extra <= 3,
        1 <= w <= 30,
    ensures
        ({
            let m = digits_value(n.digits@);
            let s = n.exponent_value() - n.frac_len + extra;
            match r {
                Some((t, f)) => t == floor_scaled(m, s) && f == has_fraction(m, s) && t < pow10(
                    w as nat,
                ),
                None => floor_scaled(m, s) >= pow10(w as nat),
            }
        }),
{
    proof {
        use_type_invariant(n);
        lemma_pow10_30();
        lemma_pow10_mono(w as nat, 30);
        lemma_pow10_pos(w as nat);
    }
    let len = n.digits.len();
    let z = skip_zeros(&n.digits, 0);
    let ghost d = n.digits@;
    let ghost m = digits_value(d);
    let ghost s = n.exponent_value() - n.frac_len + extra;
    let ghost tail = d.subrange(z as int, len as int);
    proof {
        let zs = d.subrange(0, z as int);
        assert(zs + tail =~= d);
        assert(all_digits(tail)) by {
            assert forall|j: int| 0 <= j < tail.len() implies is_ascii_digit(#[trigger] tail[j]) by {
                assert(tail[j] == d[z + j]);
            }
        }
        assert(all_digits(zs)) by {
            assert forall|j: int| 0 <= j < zs.len() implies is_ascii_digit(#[trigger] zs[j]) by {
                assert(zs[j] == d[j]);
            }
        }
        lemma_digits_value_append(zs, tail);
        lemma_digits_value_zero(zs);
        assert(digits_value(zs) == 0);
        let zv = digits_value(zs) as int;
        let pt = pow10(tail.len()) as int;
        assert(zv * pt == 0) by (nonlinear_arith)
            requires
                zv == 0,
        ;
        assert(m == digits_value(tail));
        lemma_digits_value_bound(tail);
    }
    if z == len {
        proof {
            assert(tail.len() == 0);
            assert(m == 0);
            if s < 0 {
                let p = pow10((-s) as nat);
                lemma_pow10_pos((-s) as nat);
                lemma_fundamental_div_mod_converse(0, p as int, 0, 0);
            } else {
                let b = pow10(s as nat) as int;
                assert(m * b == 0) by (nonlinear_arith)
                    requires
                        m == 0,
                ;
            }
            assert(floor_scaled(m, s) == 0);
            assert(!has_fraction(m, s));
        }
        return Some((0, false));
    }
    let k = len - z;
    proof {
        assert(tail[0] == d[z as int]);
        lemma_digits_value_lower(tail);
        lemma_pow10_pos((k - 1) as nat);
    }
    let big: u128 = 1_000_000_000_000_000_000_000_000_000_000;
    let mag = exp_magnitude(&n.exp_digits);
    if mag >= big {
        if !n.exp_negative {
            proof {
                assert(s >= w);
                let p = pow10(s as nat);
                lemma_pow10_mono(w as nat, s as nat);
                lemma_pow10_pos(s as nat);
                assert(m * p >= p) by (nonlinear_arith)
                    requires
                        m >= 1,
                        p >= 1,
                ;
            }
            return None;
        } else {
            proof {
                assert(-s >= k);
                let p = pow10((-s) as nat);
                lemma_pow10_mono(k as nat, (-s) as nat);
                lemma_fundamental_div_mod_converse(m as int, p as int, 0, m as int);
            }
            return Some((0, true));
        }
    }
    let x: i128 = if n.exp_negative {
        -(mag as i128)
    } else {
        mag as i128
    };
    let s_exec: i128 = x - (n.frac_len as i128) + (extra as i128);
    assert(s_exec == s);
    let ks: i128 = (k as i128) + s_exec;
    if ks > w as i128 {
        proof {
            if s >= 0 {
                lemma_pow10_add((k - 1) as nat, s as nat);
                lemma_pow10_mono(w as nat, (k - 1 + s) as nat);
                let a = pow10((k - 1) as nat) as int;
                let b = pow10(s as nat) as int;
                assert(m * b >= a * b) by (nonlinear_arith)
                    requires
                        m >= a,
                        b >= 0,
                ;
            } else {
                let c = pow10((k - 1 + s) as nat);
                let p = pow10((-s) as nat);
                lemma_pow10_pos((-s) as nat);
                lemma_pow10_add((k - 1 + s) as nat, (-s) as nat);
                assert((k - 1 + s) as nat + (-s) as nat == (k - 1) as nat);
                lemma_div_is_ordered((c * p) as int, m as int, p as int);
                lemma_fundamental_div_mod_converse((c * p) as int, p as int, c as int, 0);
                lemma_pow10_mono(w as nat, (k - 1 + s) as nat);
            }
        }
        return None;
    }
    if ks <= 0 {
        proof {
            assert(-s >= k);
            let p = pow10((-s) as nat);
            lemma_pow10_mono(k as nat, (-s) as nat);
            lemma_fundamental_div_mod_converse(m as int, p as int, 0, m as int);
        }
        return Some((0, true));
    }
    if s_exec >= 0 {
        let base = digits_u128(&n.digits, z, len);
        let p = pow10_u128(s_exec as u32);
        proof {
            lemma_pow10_add(k as nat, s as nat);
            lemma_pow10_mono((k + s) as nat, w as nat);
            lemma_pow10_pos(s as nat);
            let a = pow10(k as nat) as int;
            let b = p as int;
            assert(m * b < a * b) by (nonlinear_arith)
                requires
                    m < a,
                    b >= 1,
            ;
        }
        return Some((base * p, false));
    }
    let j: usize = z + (ks as usize);
    let t = digits_u128(&n.digits, z, j);
    let nz = skip_zeros(&n.digits, j);
    proof {
        let a = d.subrange(z as int, j as int);
        let b = d.subrange(j as int, len as int);
        assert(a + b =~= tail);
        assert(all_digits(b)) by {
            assert forall|i: int| 0 <= i < b.len() implies is_ascii_digit(#[trigger] b[i]) by {
                assert(b[i] == tail[i + j - z]);
            }
        }
        assert(all_digits(a)) by {
            assert forall|i: int| 0 <= i < a.len() implies is_ascii_digit(#[trigger] a[i]) by {
                assert(a[i] == tail[i]);
            }
        }
        assert(b.len() == -s);
        lemma_digits_value_append(a, b);
        lemma_digits_value_bound(b);
        lemma_digits_value_bound(a);
        lemma_digits_value_zero(b);
        let p = pow10((-s) as nat);
        lemma_fundamental_div_mod_converse(
            m as int,
            p as int,
            digits_value(a) as int,
            digits_value(b) as int,
        );
        lemma_pow10_mono(ks as nat, w as nat);
        if nz < len {
            assert(b[nz - j] == d[nz as int]);
        } else {
            assert forall|i: int| 0 <= i < b.len() implies b[i] == '0' by {
                assert(b[i] == d[i + j]);
            }
        }
    }
    Some((t, nz < len))
}

impl Number {
    /// How `q / 1000` stands to this number.
    pub fn relate_thousandths(&self, q: u128) -> (r: Relation)
        requires
            q < pow10(23),
        ensures
            r == spec_relate_thousandths(q as int, self@),
    {
        match self.kind {
            NumberKind::NotANumber => Relation::Unordered,
            NumberKind::Infinite => if self.negative {
                Relation::Greater
            } else {
                Relation::Less
            },
            NumberKind::Finite => {
                proof {
                    lemma_pow10_mono(23, 30);
                }
                let lp = leading_part(self, 3, 23);
                let ghost m = digits_value(self.digits@);
                let ghost s = self.exponent_value() - self.frac_len + 3;
                let ghost p = pow10((-s) as nat);
                proof {
                    lemma_pow10_pos((-s) as nat);
                    lemma_pow10_pos(s as nat);
                    if s < 0 {
                        lemma_fundamental_div_mod(m as int, p as int);
                        vstd::arithmetic::div_mod::lemma_mod_pos_bound(m as int, p as int);
                        let dq = (m as int) / (p as int);
                        assert(dq >= 0) by (nonlinear_arith)
                            requires
                                m >= 0,
                                p > 0,
                                dq == (m as int) / (p as int),
                        ;
                        assert(dq == 0 ==> p * dq == 0) by (nonlinear_arith);
                        assert(q * p >= 0) by (nonlinear_arith)
                            requires
                                q >= 0,
                                p > 0,
                        ;
                        assert(q > 0 ==> q * p > 0) by (nonlinear_arith)
                            requires
                                p > 0,
                        ;
                        assert(q == 0 ==> q * p == 0) by (nonlinear_arith);
                        if m == 0 {
                            lemma_fundamental_div_mod_converse(0, p as int, 0, 0);
                        }
                    } else {
                        let b = pow10(s as nat) as int;
                        assert(m * b >= 0) by (nonlinear_arith)
                            requires
                                m >= 0,
                                b > 0,
                        ;
                        assert(m * b == 0 ==> m == 0) by (nonlinear_arith)
                            requires
                                m >= 0,
                                b > 0,
                        ;
                        assert(m > 0 ==> m * b > 0) by (nonlinear_arith)
                            requires
                                b > 0,
                        ;
                        assert(m == 0 ==> m * b == 0) by (nonlinear_arith);
                    }
                }
                match lp {
                    None => {
                        if self.negative {
                            assert(m > 0);
                            Relation::Greater
                        } else {
                            proof {
                                if s < 0 {
                                    let dq = (m as int) / (p as int);
                                    assert(p * dq >= p * (q + 1)) by (nonlinear_arith)
                                        requires
                                            dq >= q + 1,
                                            p > 0,
                                    ;
                                    assert(p * (q + 1) == q * p + p) by (nonlinear_arith);
                                }
                            }
                            Relation::Less
                        }
                    },
                    Some((t, f)) => {
                        if t == 0 && !f {
                            assert(m == 0);
                            if q == 0 {
                                Relation::Equal
                            } else {
                                Relation::Greater
                            }
                        } else if self.negative {
                            assert(m > 0);
                            Relation::Greater
                        } else if q < t {
                            proof {
                                if s < 0 {
                                    lemma_scaled_compare(q as int, t as int, (m as int) % (p as int), p as int);
                                }
                            }
                            Relation::Less
                        } else if q > t {
                            proof {
                                if s < 0 {
                                    lemma_scaled_compare(q as int, t as int, (m as int) % (p as int), p as int);
                                }
                            }
                            Relation::Greater
                        } else if f {
                            proof {
                                lemma_scaled_compare(q as int, t as int, (m as int) % (p as int), p as int);
                            }
                            Relation::Less
                        } else {
                            proof {
                                if s < 0 {
                                    lemma_scaled_compare(q as int, t as int, (m as int) % (p as int), p as int);
                                }
                            }
                            Relation::Equal
                        }
                    },
                }
            },
        }
    }

    /// The number as `as u64` converts it.
    pub fn whole_u64(&self) -> (r: u64)
        ensures
            r == spec_whole_u64(self@),
    {
        match self.kind {
            NumberKind::NotANumber => 0,
            NumberKind::Infinite => if self.negative {
                0
            } else {
                u64::MAX
            },
            NumberKind::Finite => {
                if self.negative {
                    0
                } else {
                    proof {
                        lemma_pow10_20();
                    }
                    match leading_part(self, 0, 20) {
                        None => u64::MAX,
                        Some((t, _)) => if t > 0xffff_ffff_ffff_ffff {
                            u64::MAX
                        } else {
                            t as u64
                        },
                    }
                }
            },
        }
    }
}

/// Reads a text as a number and converts it as `as u64` does; `None` when
/// the text is no number.
pub fn text_as_u64(s: &str) -> (r: Option<u64>)
    ensures
        r == spec_text_as_u64(s@),
{
    let v = crate::text::chars_of(s);
    match parse_number(&v) {
        Some(n) => Some(n.whole_u64()),
        None => None,
    }
}

} // verus!
