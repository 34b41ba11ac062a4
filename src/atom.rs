//! Atoms, and the conversion from tokens to atoms.
use vstd::prelude::*;

use crate::text::{chars_of, push_chars};
use crate::token::DatumToken;

verus! {

/// A floating-point atom. The library keeps the literal as written; turning a
/// decimal literal into a binary floating-point value is left to the caller.
#[derive(Clone, PartialEq, Eq, Debug)]
pub enum DatumFloat<B> {
    /// Not a number.
    NaN,
    /// Positive infinity.
    Infinity,
    /// Negative infinity.
    NegInfinity,
    /// A decimal literal (digits, an optional fraction, an optional exponent), as
    /// written. Reading gives only literals for which `decimal_literal_ok` holds;
    /// build one with `DatumFloat::decimal`, which checks it.
    Decimal(B),
}

/// Atomic Datum value.
#[derive(Clone, PartialEq, Eq, Debug)]
pub enum DatumAtom<B> {
    String(B),
    ID(B),
    Integer(i64),
    Float(DatumFloat<B>),
    Boolean(bool),
    Nil,
}

impl<B> Default for DatumAtom<B> {
    fn default() -> (r: Self)
        ensures
            r == DatumAtom::<B>::Nil,
    {
        DatumAtom::Nil
    }
}

impl View for DatumAtom<String> {
    type V = DatumAtom<Seq<char>>;

    open spec fn view(&self) -> DatumAtom<Seq<char>> {
        match self {
            DatumAtom::String(b) => DatumAtom::String(b@),
            DatumAtom::ID(b) => DatumAtom::ID(b@),
            DatumAtom::Integer(v) => DatumAtom::Integer(*v),
            DatumAtom::Float(DatumFloat::NaN) => DatumAtom::Float(DatumFloat::NaN),
            DatumAtom::Float(DatumFloat::Infinity) => DatumAtom::Float(DatumFloat::Infinity),
            DatumAtom::Float(DatumFloat::NegInfinity) => DatumAtom::Float(DatumFloat::NegInfinity),
            DatumAtom::Float(DatumFloat::Decimal(b)) => DatumAtom::Float(DatumFloat::Decimal(b@)),
            DatumAtom::Boolean(v) => DatumAtom::Boolean(*v),
            DatumAtom::Nil => DatumAtom::Nil,
        }
    }
}

/// ASCII letters folded to lower case; every other character unchanged.
pub open spec fn ascii_lower(c: char) -> char {
    if 'A' <= c <= 'Z' {
        ((c as u32) + 32) as char
    } else {
        c
    }
}

/// Equality of two texts, ignoring ASCII case.
pub open spec fn eq_ignore_case(a: Seq<char>, b: Seq<char>) -> bool {
    a.len() == b.len() && forall|i: int| 0 <= i < a.len() ==> ascii_lower(#[trigger] a[i]) == ascii_lower(b[i])
}

pub open spec fn is_digit(c: char) -> bool {
    '0' <= c <= '9'
}

pub open spec fn all_digits(s: Seq<char>) -> bool {
    forall|i: int| 0 <= i < s.len() ==> is_digit(#[trigger] s[i])
}

/// The value of a sequence of decimal digits.
pub open spec fn digits_value(s: Seq<char>) -> int
    decreases s.len(),
{
    if s.len() == 0 {
        0
    } else {
        digits_value(s.drop_last()) * 10 + (s.last() as int - '0' as int)
    }
}

/// The text after an optional leading sign, and whether that sign was '-'.
pub open spec fn strip_sign(s: Seq<char>) -> (bool, Seq<char>) {
    if s.len() > 0 && s[0] == '-' {
        (true, s.subrange(1, s.len() as int))
    } else if s.len() > 0 && s[0] == '+' {
        (false, s.subrange(1, s.len() as int))
    } else {
        (false, s)
    }
}

/// The value of a signed 64-bit integer literal: an optional sign, then one or more
/// digits, in range.
pub open spec fn i64_value(s: Seq<char>) -> Option<i64> {
    let (neg, body) = strip_sign(s);
    let v = if neg {
        -digits_value(body)
    } else {
        digits_value(body)
    };
    if body.len() > 0 && all_digits(body) && i64::MIN <= v <= i64::MAX {
        Some(v as i64)
    } else {
        None
    }
}

/// Digits with at most one '.' among them, and at least one digit.
pub open spec fn mantissa_ok(m: Seq<char>) -> bool {
    ||| m.len() > 0 && all_digits(m)
    ||| exists|d: int|
        0 <= d < m.len() && m.len() > 1 && #[trigger] m[d] == '.' && all_digits(m.subrange(0, d))
            && all_digits(m.subrange(d + 1, m.len() as int))
}

pub open spec fn is_exponent_mark(c: char) -> bool {
    c == 'e' || c == 'E'
}

/// An optional sign, then one or more digits.
pub open spec fn exponent_ok(x: Seq<char>) -> bool {
    let y = strip_sign(x).1;
    y.len() > 0 && all_digits(y)
}

/// A decimal floating-point number: a mantissa, then an optional exponent.
pub open spec fn decimal_ok(b: Seq<char>) -> bool {
    ||| mantissa_ok(b)
    ||| exists|k: int|
        0 <= k < b.len() && is_exponent_mark(#[trigger] b[k]) && mantissa_ok(b.subrange(0, k))
            && exponent_ok(b.subrange(k + 1, b.len() as int))
}

/// The floating-point literal forms: an optional sign, then `inf`, `infinity` or
/// `nan` (in any case), or a decimal number.
pub open spec fn float_value(s: Seq<char>) -> Option<DatumFloat<Seq<char>>> {
    let (neg, body) = strip_sign(s);
    if eq_ignore_case(body, seq!['i', 'n', 'f']) || eq_ignore_case(body, seq!['i', 'n', 'f', 'i', 'n', 'i', 't', 'y']) {
        Some(
            if neg {
                DatumFloat::NegInfinity
            } else {
                DatumFloat::Infinity
            },
        )
    } else if eq_ignore_case(body, seq!['n', 'a', 'n']) {
        Some(DatumFloat::NaN)
    } else if decimal_ok(body) {
        Some(DatumFloat::Decimal(s))
    } else {
        None
    }
}

/// The atom that a numeric text stands for.
pub open spec fn numeric_atom(b: Seq<char>) -> Option<DatumAtom<Seq<char>>> {
    if eq_ignore_case(b, seq!['+', 'n', 'a', 'n', '.', '0']) {
        Some(DatumAtom::Float(DatumFloat::NaN))
    } else if eq_ignore_case(b, seq!['+', 'i', 'n', 'f', '.', '0']) {
        Some(DatumAtom::Float(DatumFloat::Infinity))
    } else if eq_ignore_case(b, seq!['-', 'i', 'n', 'f', '.', '0']) {
        Some(DatumAtom::Float(DatumFloat::NegInfinity))
    } else if let Some(v) = i64_value(b) {
        Some(DatumAtom::Integer(v))
    } else if let Some(f) = float_value(b) {
        Some(DatumAtom::Float(f))
    } else {
        None
    }
}

/// A decimal float literal in the form that reading keeps: it is a decimal number
/// and no integer literal, so that it is written and read back as the same float.
pub open spec fn decimal_literal_ok(t: Seq<char>) -> bool {
    numeric_atom(t) == Some(DatumAtom::Float(DatumFloat::Decimal(t)))
}

/// The atom that a token stands for; `None` where it stands for none.
pub open spec fn atom_of_token(t: DatumToken<Seq<char>>) -> Option<DatumAtom<Seq<char>>> {
    match t {
        DatumToken::String(b) => Some(DatumAtom::String(b)),
        DatumToken::ID(b) => Some(DatumAtom::ID(b)),
        DatumToken::SpecialID(b) => if eq_ignore_case(b, seq!['t']) {
            Some(DatumAtom::Boolean(true))
        } else if eq_ignore_case(b, seq!['f']) {
            Some(DatumAtom::Boolean(false))
        } else if eq_ignore_case(b, seq!['n', 'i', 'l']) {
            Some(DatumAtom::Nil)
        } else if b == seq!['{', '}', '#'] {
            Some(DatumAtom::ID(seq![]))
        } else if b.len() > 0 && (b[0] == 'i' || b[0] == 'I') {
            numeric_atom(b.subrange(1, b.len() as int))
        } else {
            None
        },
        DatumToken::Numeric(b) => numeric_atom(b),
        _ => None,
    }
}

fn to_lower(c: char) -> (r: char)
    ensures
        r == ascii_lower(c),
{
    if c >= 'A' && c <= 'Z' {
        let v: u8 = c as u8 + 32;
        v as char
    } else {
        c
    }
}

/// Equality of two texts, ignoring ASCII case.
pub fn eq_ignore_ascii_case(a: &[char], b: &[char]) -> (r: bool)
    ensures
        r == eq_ignore_case(a@, b@),
{
    if a.len() != b.len() {
        return false;
    }
    let mut i: usize = 0;
    while i < a.len()
        invariant
            a@.len() == b@.len(),
            i <= a.len(),
            forall|j: int| 0 <= j < i ==> ascii_lower(#[trigger] a@[j]) == ascii_lower(b@[j]),
        decreases a.len() - i,
    {
        if to_lower(a[i]) != to_lower(b[i]) {
            return false;
        }
        i = i + 1;
    }
    true
}

/// The length of the run of digits at the start of `s[from..]`, counted from `from`.
fn digit_run_end(s: &[char], from: usize) -> (r: usize)
    requires
        from <= s.len(),
    ensures
        from <= r <= s.len(),
        all_digits(s@.subrange(from as int, r as int)),
        r < s.len() ==> !is_digit(s@[r as int]),
{
    let mut i = from;
    while i < s.len() && s[i] >= '0' && s[i] <= '9'
        invariant
            from <= i <= s.len(),
            all_digits(s@.subrange(from as int, i as int)),
        decreases s.len() - i,
    {
        i = i + 1;
        assert(forall|j: int| 0 <= j < i - from ==> #[trigger] s@.subrange(from as int, i as int)[j] == s@[from + j]);
    }
    i
}

/// Every character of `s[from..to]` is a digit.
fn digits_only(s: &[char], from: usize, to: usize) -> (r: bool)
    requires
        from <= to <= s.len(),
    ensures
        r == all_digits(s@.subrange(from as int, to as int)),
{
    let mut i = from;
    while i < to
        invariant
            from <= i <= to,
            to <= s.len(),
            all_digits(s@.subrange(from as int, i as int)),
        decreases to - i,
    {
        if !(s[i] >= '0' && s[i] <= '9') {
            assert(s@.subrange(from as int, to as int)[i - from] == s@[i as int]);
            return false;
        }
        i = i + 1;
        assert(forall|j: int| 0 <= j < i - from ==> #[trigger] s@.subrange(from as int, i as int)[j] == s@[from + j]);
    }
    true
}

/// Whether `s[from..to]` is a mantissa: digits with at most one '.', and a digit.
fn is_mantissa(s: &[char], from: usize, to: usize) -> (r: bool)
    requires
        from <= to <= s.len(),
    ensures
        r == mantissa_ok(s@.subrange(from as int, to as int)),
{
    let ghost m = s@.subrange(from as int, to as int);
    let d = digit_run_end(s, from);
    let d = if d > to {
        to
    } else {
        d
    };
    assert(all_digits(m.subrange(0, d - from))) by {
        assert(forall|j: int| 0 <= j < d - from ==> #[trigger] m.subrange(0, d - from)[j] == s@.subrange(from as int, d as int)[j]);
    }
    if d == to {
        assert(m.subrange(0, d - from) =~= m);
        return to > from;
    }
    assert(!is_digit(m[d - from]));
    if s[d] != '.' {
        assert(!all_digits(m));
        assert forall|k: int|
            0 <= k < m.len() && m.len() > 1 && #[trigger] m[k] == '.' && all_digits(m.subrange(0, k)) implies
                !all_digits(m.subrange(k + 1, m.len() as int)) by {
            if k < d - from {
                assert(m.subrange(0, d - from)[k] == m[k]);
            } else if k > d - from {
                assert(m.subrange(0, k)[d - from] == m[d - from]);
            }
        }
        return false;
    }
    let rest = digits_only(s, d + 1, to);
    proof {
        let e = d - from;
        assert(m.subrange(e + 1, m.len() as int) =~= s@.subrange(d + 1, to as int));
        assert(m.subrange(0, e) =~= s@.subrange(from as int, d as int));
        assert forall|k: int|
            0 <= k < m.len() && m.len() > 1 && #[trigger] m[k] == '.' && all_digits(m.subrange(0, k)) implies
                k == e by {
            if k < e {
                assert(m.subrange(0, e)[k] == m[k]);
            } else if k > e {
                assert(m.subrange(0, k)[e] == m[e]);
            }
        }
        if rest && to - from > 1 {
            assert(mantissa_ok(m));
        }
        assert(!all_digits(m));
    }
    rest && to - from > 1
}

/// Whether `s[from..to]` is an exponent: an optional sign, then digits.
fn is_exponent(s: &[char], from: usize, to: usize) -> (r: bool)
    requires
        from <= to <= s.len(),
    ensures
        r == exponent_ok(s@.subrange(from as int, to as int)),
{
    let ghost x = s@.subrange(from as int, to as int);
    let start = if from < to && (s[from] == '-' || s[from] == '+') {
        from + 1
    } else {
        from
    };
    assert(strip_sign(x).1 =~= s@.subrange(start as int, to as int));
    let ok = digits_only(s, start, to);
    ok && start < to
}

/// Whether `s[from..]` is a decimal number.
fn is_decimal(s: &[char], from: usize) -> (r: bool)
    requires
        from <= s.len(),
    ensures
        r == decimal_ok(s@.subrange(from as int, s.len() as int)),
{
    let ghost b = s@.subrange(from as int, s.len() as int);
    let mut k = from;
    while k < s.len() && s[k] != 'e' && s[k] != 'E'
        invariant
            from <= k <= s.len(),
            forall|j: int| from <= j < k ==> !is_exponent_mark(#[trigger] s@[j]),
        decreases s.len() - k,
    {
        k = k + 1;
    }
    let ghost e: int = k - from;
    // every witness of an exponent split is at the first exponent mark
    assert forall|j: int|
        0 <= j < b.len() && is_exponent_mark(#[trigger] b[j]) && mantissa_ok(b.subrange(0, j)) implies j == e by {
        assert(b[j] == s@[from + j]);
        if j > e {
            let m = b.subrange(0, j);
            assert(m[e] == b[e]);
            assert(b[e] == s@[k as int]);
            if m.len() > 0 && all_digits(m) {
                assert(is_digit(m[e]));
            } else {
                let d = choose|d: int|
                    0 <= d < m.len() && m.len() > 1 && #[trigger] m[d] == '.' && all_digits(m.subrange(0, d))
                        && all_digits(m.subrange(d + 1, m.len() as int));
                if e < d {
                    assert(m.subrange(0, d)[e] == m[e]);
                } else if e > d {
                    assert(m.subrange(d + 1, m.len() as int)[e - d - 1] == m[e]);
                }
            }
        }
    }
    if k == s.len() {
        assert(s@.subrange(from as int, k as int) =~= b);
        return is_mantissa(s, from, k);
    }
    proof {
        // a mantissa holds no exponent mark
        let m = b;
        if mantissa_ok(m) {
            if m.len() > 0 && all_digits(m) {
                assert(is_digit(m[e]));
            } else {
                let d = choose|d: int|
                    0 <= d < m.len() && m.len() > 1 && #[trigger] m[d] == '.' && all_digits(m.subrange(0, d))
                        && all_digits(m.subrange(d + 1, m.len() as int));
                if e < d {
                    assert(m.subrange(0, d)[e] == m[e]);
                } else if e > d {
                    assert(m.subrange(d + 1, m.len() as int)[e - d - 1] == m[e]);
                }
            }
            assert(false);
        }
        assert(b.subrange(0, e) =~= s@.subrange(from as int, k as int));
        assert(b.subrange(e + 1, b.len() as int) =~= s@.subrange(k + 1, s.len() as int));
        assert(b[e] == s@[k as int]);
        assert(is_exponent_mark(b[e]));
        if mantissa_ok(b.subrange(0, e)) && exponent_ok(b.subrange(e + 1, b.len() as int)) {
            assert(decimal_ok(b));
        }
        if decimal_ok(b) {
            let j = choose|j: int|
                0 <= j < b.len() && is_exponent_mark(#[trigger] b[j]) && mantissa_ok(b.subrange(0, j))
                    && exponent_ok(b.subrange(j + 1, b.len() as int));
            assert(j == e);
        }
    }
    is_mantissa(s, from, k) && is_exponent(s, k + 1, s.len())
}

proof fn lemma_digits_value_prefix(s: Seq<char>, k: int)
    requires
        0 <= k <= s.len(),
        all_digits(s),
    ensures
        digits_value(s) >= digits_value(s.subrange(0, k)),
        digits_value(s.subrange(0, k)) >= 0,
    decreases s.len(),
{
    if s.len() > 0 {
        assert(all_digits(s.drop_last()));
        if k == s.len() {
            assert(s.subrange(0, k) =~= s);
            lemma_digits_value_prefix(s.drop_last(), k - 1);
        } else {
            lemma_digits_value_prefix(s.drop_last(), k);
            assert(s.drop_last().subrange(0, k) =~= s.subrange(0, k));
        }
        lemma_digits_value_prefix(s.drop_last(), s.len() - 1);
        assert(s.drop_last().subrange(0, s.len() - 1) =~= s.drop_last());
    } else {
        assert(s.subrange(0, k) =~= s);
    }
}

/// Parses a signed 64-bit integer: an optional sign, then one or more digits, in range.
pub fn parse_i64(s: &[char]) -> (r: Option<i64>)
    ensures
        r == i64_value(s@),
{
    let neg = s.len() > 0 && s[0] == '-';
    let start: usize = if s.len() > 0 && (s[0] == '-' || s[0] == '+') {
        1
    } else {
        0
    };
    let ghost body = strip_sign(s@).1;
    assert(body =~= s@.subrange(start as int, s.len() as int));
    if start == s.len() {
        return None;
    }
    let limit: u64 = 9223372036854775808;
    let mut acc: u64 = 0;
    let mut i = start;
    while i < s.len()
        invariant
            start <= i <= s.len(),
            body == s@.subrange(start as int, s.len() as int),
            body == strip_sign(s@).1,
            neg == strip_sign(s@).0,
            limit == 9223372036854775808u64,
            all_digits(body.subrange(0, i - start)),
            acc as int == digits_value(body.subrange(0, i - start)),
            acc <= limit,
        decreases s.len() - i,
    {
        let c = s[i];
        if !(c >= '0' && c <= '9') {
            assert(body[i - start] == c);
            assert(!all_digits(body));
            return None;
        }
        let d = (c as u32 - '0' as u32) as u64;
        assert(d <= 9);
        let ghost prev = body.subrange(0, i - start);
        let ghost next = body.subrange(0, i - start + 1);
        assert(next.drop_last() =~= prev);
        assert(next.last() == c);
        assert(all_digits(next)) by {
            assert(forall|j: int| 0 <= j < next.len() - 1 ==> #[trigger] next[j] == prev[j]);
        }
        if acc > (limit - d) / 10 {
            proof {
                assert(digits_value(next) > limit);
                if all_digits(body) {
                    lemma_digits_value_prefix(body, i - start + 1);
                }
            }
            return None;
        }
        acc = acc * 10 + d;
        i = i + 1;
    }
    assert(body.subrange(0, i - start) =~= body);
    if neg {
        if acc == limit {
            Some(-9223372036854775807i64 - 1)
        } else {
            Some(-(acc as i64))
        }
    } else {
        if acc == limit {
            None
        } else {
            Some(acc as i64)
        }
    }
}

/// The floating-point literal forms: which one `s` is, if any.
fn parse_float_kind(s: &[char]) -> (r: Option<u8>)
    ensures
        float_value(s@) matches Some(f) ==> r == Some((match f {
            DatumFloat::NaN => 0u8,
            DatumFloat::Infinity => 1u8,
            DatumFloat::NegInfinity => 2u8,
            DatumFloat::Decimal(_) => 3u8,
        })),
        float_value(s@) is None ==> r is None,
{
    let neg = s.len() > 0 && s[0] == '-';
    let start: usize = if s.len() > 0 && (s[0] == '-' || s[0] == '+') {
        1
    } else {
        0
    };
    let ghost body = strip_sign(s@).1;
    assert(body =~= s@.subrange(start as int, s.len() as int));
    let tail = slice_from(s, start);
    if eq_ignore_ascii_case(tail.as_slice(), &['i', 'n', 'f']) || eq_ignore_ascii_case(
        tail.as_slice(),
        &['i', 'n', 'f', 'i', 'n', 'i', 't', 'y'],
    ) {
        return Some(
            if neg {
                2
            } else {
                1
            },
        );
    }
    if eq_ignore_ascii_case(tail.as_slice(), &['n', 'a', 'n']) {
        return Some(0);
    }
    if is_decimal(s, start) {
        Some(3)
    } else {
        None
    }
}

/// The characters of `s[from..]`.
fn slice_from(s: &[char], from: usize) -> (r: Vec<char>)
    requires
        from <= s.len(),
    ensures
        r@ == s@.subrange(from as int, s.len() as int),
{
    let mut out: Vec<char> = Vec::new();
    let mut i = from;
    while i < s.len()
        invariant
            from <= i <= s.len(),
            out@ == s@.subrange(from as int, i as int),
        decreases s.len() - i,
    {
        out.push(s[i]);
        i = i + 1;
        assert(out@ =~= s@.subrange(from as int, i as int));
    }
    out
}

/// A string holding the given characters.
fn string_of(cs: &Vec<char>) -> (r: String)
    ensures
        r@ == cs@,
{
    let mut s = String::new();
    push_chars(&mut s, cs);
    assert(s@ =~= cs@);
    s
}

impl DatumFloat<String> {
    /// A decimal float from its literal, where the literal is in the form that
    /// reading keeps (see `decimal_literal_ok`); `None` otherwise.
    pub fn decimal(text: &str) -> (r: Option<DatumFloat<String>>)
        ensures
            decimal_literal_ok(text@) <==> r is Some,
            r matches Some(f) ==> f matches DatumFloat::Decimal(s) && s@ == text@,
    {
        let cs = chars_of(text);
        match DatumAtom::from_numeric(cs.as_slice()) {
            Ok(DatumAtom::Float(DatumFloat::Decimal(s))) => Some(DatumFloat::Decimal(s)),
            _ => None,
        }
    }
}

impl DatumAtom<String> {
    /// The atom that a numeric text stands for.
    pub fn from_numeric(b: &[char]) -> (r: Result<DatumAtom<String>, ()>)
        ensures
            numeric_atom(b@) matches Some(a) ==> r matches Ok(x) && x@ == a,
            numeric_atom(b@) is None ==> r is Err,
    {
        if eq_ignore_ascii_case(b, &['+', 'n', 'a', 'n', '.', '0']) {
            return Ok(DatumAtom::Float(DatumFloat::NaN));
        }
        if eq_ignore_ascii_case(b, &['+', 'i', 'n', 'f', '.', '0']) {
            return Ok(DatumAtom::Float(DatumFloat::Infinity));
        }
        if eq_ignore_ascii_case(b, &['-', 'i', 'n', 'f', '.', '0']) {
            return Ok(DatumAtom::Float(DatumFloat::NegInfinity));
        }
        if let Some(v) = parse_i64(b) {
            return Ok(DatumAtom::Integer(v));
        }
        match parse_float_kind(b) {
            Some(0) => Ok(DatumAtom::Float(DatumFloat::NaN)),
            Some(1) => Ok(DatumAtom::Float(DatumFloat::Infinity)),
            Some(2) => Ok(DatumAtom::Float(DatumFloat::NegInfinity)),
            Some(_) => {
                let v = slice_from(b, 0);
                assert(b@.subrange(0, b@.len() as int) =~= b@);
                Ok(DatumAtom::Float(DatumFloat::Decimal(string_of(&v))))
            },
            None => Err(()),
        }
    }

    /// Converts a token into the atom that it stands for.
    pub fn try_from(token: DatumToken<String>) -> (r: Result<DatumAtom<String>, ()>)
        ensures
            atom_of_token(token@) matches Some(a) ==> r matches Ok(x) && x@ == a,
            atom_of_token(token@) is None ==> r is Err,
    {
        match token {
            DatumToken::String(b) => Ok(DatumAtom::String(b)),
            DatumToken::ID(b) => Ok(DatumAtom::ID(b)),
            DatumToken::SpecialID(b) => {
                let cs = chars_of(b.as_str());
                if eq_ignore_ascii_case(cs.as_slice(), &['t']) {
                    Ok(DatumAtom::Boolean(true))
                } else if eq_ignore_ascii_case(cs.as_slice(), &['f']) {
                    Ok(DatumAtom::Boolean(false))
                } else if eq_ignore_ascii_case(cs.as_slice(), &['n', 'i', 'l']) {
                    Ok(DatumAtom::Nil)
                } else if cs.len() == 3 && cs[0] == '{' && cs[1] == '}' && cs[2] == '#' {
                    assert(cs@ =~= seq!['{', '}', '#']);
                    Ok(DatumAtom::ID(String::new()))
                } else if cs.len() > 0 && (cs[0] == 'i' || cs[0] == 'I') {
                    assert(cs@ != seq!['{', '}', '#']);
                    let rest = slice_from(cs.as_slice(), 1);
                    Self::from_numeric(rest.as_slice())
                } else {
                    assert(cs@ != seq!['{', '}', '#']);
                    Err(())
                }
            },
            DatumToken::Numeric(b) => {
                let cs = chars_of(b.as_str());
                Self::from_numeric(cs.as_slice())
            },
            _ => Err(()),
        }
    }
}

} // verus!
