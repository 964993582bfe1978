//! The lexical grammar of a matrix cell: a decimal floating-point literal.
//!
//! A valid token is an optional leading sign, then a number: digits with at
//! most one decimal point and at least one digit, followed by an optional
//! exponent part `e`/`E`, an optional sign and one or more digits. Nothing
//! else is accepted — in particular no whitespace and no words.

use vstd::prelude::*;

use crate::text::find_char;
use crate::text::lemma_find_char_is;

verus! {

/// A decimal digit.
pub open spec fn is_digit(c: char) -> bool {
    0x30 <= c as u32 && c as u32 <= 0x39
}

/// Every character of `s` is a decimal digit.
pub open spec fn all_digits(s: Seq<char>) -> bool {
    forall|i: int| 0 <= i < s.len() ==> is_digit(#[trigger] s[i])
}

/// An exponent marker.
pub open spec fn is_exp_marker(c: char) -> bool {
    c == 'e' || c == 'E'
}

/// The index of the first exponent marker in `s`, or `s.len()` if absent.
pub open spec fn find_exp(s: Seq<char>) -> int
    decreases s.len(),
{
    if s.len() == 0 {
        0
    } else if is_exp_marker(s[0]) {
        0
    } else {
        1 + find_exp(s.skip(1))
    }
}

/// `find_exp` is the unique position fitting its characterization.
pub proof fn lemma_find_exp_is(s: Seq<char>, k: int)
    requires
        0 <= k <= s.len(),
        forall|j: int| 0 <= j < k ==> !is_exp_marker(s[j]),
        k < s.len() ==> is_exp_marker(s[k]),
    ensures
        find_exp(s) == k,
    decreases s.len(),
{
    if s.len() == 0 {
    } else if is_exp_marker(s[0]) {
    } else {
        assert forall|j: int| 0 <= j < k - 1 implies !is_exp_marker(s.skip(1)[j]) by {
            assert(s.skip(1)[j] == s[j + 1]);
        }
        if k < s.len() {
            assert(s.skip(1)[k - 1] == s[k]);
        }
        lemma_find_exp_is(s.skip(1), k - 1);
    }
}

/// A mantissa: digits holding at most one decimal point, with at least one
/// digit in all.
pub open spec fn is_mantissa(s: Seq<char>) -> bool {
    let d = find_char(s, '.');
    if 0 <= d < s.len() {
        all_digits(s.take(d)) && all_digits(s.skip(d + 1)) && s.len() >= 2
    } else {
        s.len() >= 1 && all_digits(s)
    }
}

/// What follows an exponent marker: an optional sign, then one or more
/// digits.
pub open spec fn is_exp_tail(s: Seq<char>) -> bool {
    if s.len() > 0 && (s[0] == '+' || s[0] == '-') {
        s.len() >= 2 && all_digits(s.skip(1))
    } else {
        s.len() >= 1 && all_digits(s)
    }
}

/// A number: a mantissa, optionally followed by an exponent marker and an
/// exponent tail.
pub open spec fn is_number(s: Seq<char>) -> bool {
    let e = find_exp(s);
    if 0 <= e < s.len() {
        is_mantissa(s.take(e)) && is_exp_tail(s.skip(e + 1))
    } else {
        is_mantissa(s)
    }
}

/// A decimal floating-point literal: an optional sign, then a number.
/// Exactly these tokens are accepted as matrix cells.
pub open spec fn is_float_literal(s: Seq<char>) -> bool {
    if s.len() > 0 && (s[0] == '+' || s[0] == '-') {
        is_number(s.skip(1))
    } else {
        is_number(s)
    }
}

/// Decides `is_digit`.
fn char_is_digit(c: char) -> (r: bool)
    ensures
        r == is_digit(c),
{
    let u = c as u32;
    0x30 <= u && u <= 0x39
}

/// Decides `all_digits` on `v[from..to]`.
fn all_digits_range(v: &Vec<char>, from: usize, to: usize) -> (r: bool)
    requires
        from <= to <= v.len(),
    ensures
        r == all_digits(v@.subrange(from as int, to as int)),
{
    let ghost s = v@.subrange(from as int, to as int);
    let mut i: usize = from;
    while i < to
        invariant
            from <= i <= to <= v.len(),
            s == v@.subrange(from as int, to as int),
            forall|j: int| 0 <= j < i - from ==> is_digit(#[trigger] s[j]),
        decreases to - i,
    {
        if !char_is_digit(v[i]) {
            proof {
                assert(s[i - from] == v@[i as int]);
            }
            return false;
        }
        proof {
            assert(s[i - from] == v@[i as int]);
        }
        i = i + 1;
    }
    true
}

/// The first index in `[from, to)` where `v` holds `c`, or `to` if none.
fn scan_char(v: &Vec<char>, from: usize, to: usize, c: char) -> (k: usize)
    requires
        from <= to <= v.len(),
    ensures
        from <= k <= to,
        forall|j: int| from <= j < k ==> v@[j] != c,
        k < to ==> v@[k as int] == c,
{
    let mut i: usize = from;
    while i < to
        invariant
            from <= i <= to <= v.len(),
            forall|j: int| from <= j < i ==> v@[j] != c,
        decreases to - i,
    {
        if v[i] == c {
            return i;
        }
        i = i + 1;
    }
    to
}

/// The first index in `[from, to)` where `v` holds an exponent marker, or
/// `to` if none.
fn scan_exp(v: &Vec<char>, from: usize, to: usize) -> (k: usize)
    requires
        from <= to <= v.len(),
    ensures
        from <= k <= to,
        forall|j: int| from <= j < k ==> !is_exp_marker(v@[j]),
        k < to ==> is_exp_marker(v@[k as int]),
{
    let mut i: usize = from;
    while i < to
        invariant
            from <= i <= to <= v.len(),
            forall|j: int| from <= j < i ==> !is_exp_marker(v@[j]),
        decreases to - i,
    {
        let ch = v[i];
        if ch == 'e' || ch == 'E' {
            return i;
        }
        i = i + 1;
    }
    to
}

/// Decides `is_mantissa` on `v[from..to]`.
fn is_mantissa_range(v: &Vec<char>, from: usize, to: usize) -> (r: bool)
    requires
        from <= to <= v.len(),
    ensures
        r == is_mantissa(v@.subrange(from as int, to as int)),
{
    let ghost s = v@.subrange(from as int, to as int);
    let d = scan_char(v, from, to, '.');
    proof {
        assert forall|j: int| 0 <= j < d - from implies s[j] != '.' by {
            assert(s[j] == v@[from + j]);
        }
        if d < to {
            assert(s[d - from] == v@[d as int]);
        }
        lemma_find_char_is(s, '.', d - from);
    }
    if d == to {
        proof {
            assert(s =~= v@.subrange(from as int, to as int));
        }
        to - from >= 1 && all_digits_range(v, from, to)
    } else {
        proof {
            assert(s.take(d - from) =~= v@.subrange(from as int, d as int));
            assert(s.skip(d - from + 1) =~= v@.subrange(d as int + 1, to as int));
        }
        let head_ok = all_digits_range(v, from, d);
        let tail_ok = all_digits_range(v, d + 1, to);
        head_ok && tail_ok && to - from >= 2
    }
}

/// Decides `is_exp_tail` on `v[from..to]`.
fn is_exp_tail_range(v: &Vec<char>, from: usize, to: usize) -> (r: bool)
    requires
        from <= to <= v.len(),
    ensures
        r == is_exp_tail(v@.subrange(from as int, to as int)),
{
    let ghost s = v@.subrange(from as int, to as int);
    if from < to && (v[from] == '+' || v[from] == '-') {
        proof {
            assert(s[0] == v@[from as int]);
            assert(s.skip(1) =~= v@.subrange(from as int + 1, to as int));
        }
        to - from >= 2 && all_digits_range(v, from + 1, to)
    } else {
        proof {
            if from < to {
                assert(s[0] == v@[from as int]);
            }
        }
        to - from >= 1 && all_digits_range(v, from, to)
    }
}

/// Decides `is_number` on `v[from..to]`.
fn is_number_range(v: &Vec<char>, from: usize, to: usize) -> (r: bool)
    requires
        from <= to <= v.len(),
    ensures
        r == is_number(v@.subrange(from as int, to as int)),
{
    let ghost s = v@.subrange(from as int, to as int);
    let e = scan_exp(v, from, to);
    proof {
        assert forall|j: int| 0 <= j < e - from implies !is_exp_marker(s[j]) by {
            assert(s[j] == v@[from + j]);
        }
        if e < to {
            assert(s[e - from] == v@[e as int]);
        }
        lemma_find_exp_is(s, e - from);
    }
    if e == to {
        is_mantissa_range(v, from, to)
    } else {
        proof {
            assert(s.take(e - from) =~= v@.subrange(from as int, e as int));
            assert(s.skip(e - from + 1) =~= v@.subrange(e as int + 1, to as int));
        }
        let mant_ok = is_mantissa_range(v, from, e);
        let tail_ok = is_exp_tail_range(v, e + 1, to);
        mant_ok && tail_ok
    }
}

/// Decides whether the token `s` is a floating-point literal, as
/// `is_float_literal` describes.
pub fn is_float_token(s: &str) -> (r: bool)
    ensures
        r == is_float_literal(s@),
{
    let v = crate::text::chars_of(s);
    let n = v.len();
    let start: usize = if n > 0 && (v[0] == '+' || v[0] == '-') {
        1
    } else {
        0
    };
    proof {
        assert(v@.subrange(start as int, n as int) =~= s@.skip(start as int));
        assert(v@.subrange(0, n as int) =~= s@);
    }
    is_number_range(&v, start, n)
}

} // verus!
