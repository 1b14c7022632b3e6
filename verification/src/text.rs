//! Character-level text primitives: conversion of strings to character
//! vectors, equality, the lexicographic order used for entity keys, and
//! substring search.
//!
//! Every contract here speaks of a string through its view, the sequence of
//! its Unicode scalar values.

use vstd::arithmetic::div_mod::lemma_div_denominator;
use vstd::prelude::*;
use vstd::string::*;

verus! {

/// Outcome of comparing two keys.
#[derive(Clone, Copy, Debug, PartialEq, Eq, Structural)]
pub enum KeyOrder {
    Less,
    Equal,
    Greater,
}

/// Lexicographic comparison of `a` and `b` by scalar value, looking only at
/// positions `i` and beyond.
pub open spec fn lex_lt_from(a: Seq<char>, b: Seq<char>, i: int) -> bool
    decreases a.len() - i,
{
    if i < 0 || i >= b.len() {
        false
    } else if i >= a.len() {
        true
    } else if a[i] != b[i] {
        (a[i] as int) < (b[i] as int)
    } else {
        lex_lt_from(a, b, i + 1)
    }
}

/// `a` sorts strictly before `b`: at the first position where they differ
/// `a` holds the smaller scalar value, or `a` is a proper prefix of `b`.
/// This is the order in which the standard library sorts strings.
pub open spec fn lex_lt(a: Seq<char>, b: Seq<char>) -> bool {
    lex_lt_from(a, b, 0)
}

/// `pat` occurs in `text` starting at position `i`.
pub open spec fn occurs_at(text: Seq<char>, pat: Seq<char>, i: int) -> bool {
    &&& 0 <= i
    &&& i + pat.len() <= text.len()
    &&& text.subrange(i, i + pat.len()) == pat
}

/// `text` begins with `pat`.
pub open spec fn has_prefix(text: Seq<char>, pat: Seq<char>) -> bool {
    occurs_at(text, pat, 0)
}

/// Comparison from position `i` agrees with comparison from the start when
/// the two sequences agree on everything before `i`.
pub proof fn lemma_lex_lt_skips_common_prefix(a: Seq<char>, b: Seq<char>, i: int)
    requires
        0 <= i <= a.len(),
        i <= b.len(),
        forall|j: int| 0 <= j < i ==> a[j] == b[j],
    ensures
        lex_lt(a, b) == lex_lt_from(a, b, i),
    decreases i,
{
    if i > 0 {
        lemma_lex_lt_skips_common_prefix(a, b, i - 1);
    }
}

/// No sequence sorts before itself.
pub proof fn lemma_lex_lt_irreflexive(a: Seq<char>)
    ensures
        !lex_lt(a, a),
{
    lemma_lex_lt_skips_common_prefix(a, a, a.len() as int);
}

proof fn lemma_lex_lt_from_transitive(a: Seq<char>, b: Seq<char>, c: Seq<char>, i: int)
    requires
        0 <= i,
        lex_lt_from(a, b, i),
        lex_lt_from(b, c, i),
    ensures
        lex_lt_from(a, c, i),
    decreases b.len() - i,
{
    if i < a.len() && a[i] == b[i] && b[i] == c[i] {
        lemma_lex_lt_from_transitive(a, b, c, i + 1);
    }
}

/// The key order is transitive.
pub proof fn lemma_lex_lt_transitive(a: Seq<char>, b: Seq<char>, c: Seq<char>)
    requires
        lex_lt(a, b),
        lex_lt(b, c),
    ensures
        lex_lt(a, c),
{
    lemma_lex_lt_from_transitive(a, b, c, 0);
}

/// A sequence never sorts both before and after another.
pub proof fn lemma_lex_lt_asymmetric(a: Seq<char>, b: Seq<char>)
    requires
        lex_lt(a, b),
    ensures
        !lex_lt(b, a),
        a != b,
{
    if lex_lt(b, a) {
        lemma_lex_lt_transitive(a, b, a);
    }
    lemma_lex_lt_irreflexive(a);
}

/// The characters of `s`, in order.
pub fn chars_of(s: &str) -> (r: Vec<char>)
    ensures
        r@ == s@,
{
    let mut out: Vec<char> = Vec::new();
    for c in it: s.chars()
        invariant
            out@ == it.seq().take(it.index() as int),
    {
        out.push(c);
    }
    out
}

/// Compares the string `a` with the character vector `b` in key order.
pub fn key_order(a: &str, b: &Vec<char>) -> (r: KeyOrder)
    ensures
        r == KeyOrder::Less <==> lex_lt(a@, b@),
        r == KeyOrder::Equal <==> a@ == b@,
        r == KeyOrder::Greater <==> lex_lt(b@, a@),
{
    let mut i: usize = 0;
    for c in it: a.chars()
        invariant
            it.seq() == a@,
            i == it.index(),
            i <= b@.len(),
            forall|j: int| 0 <= j < i ==> a@[j] == b@[j],
    {
        proof {
            lemma_lex_lt_skips_common_prefix(a@, b@, i as int);
            lemma_lex_lt_skips_common_prefix(b@, a@, i as int);
        }
        if i >= b.len() {
            return KeyOrder::Greater;
        }
        let d = b[i];
        if c != d {
            if c < d {
                return KeyOrder::Less;
            } else {
                return KeyOrder::Greater;
            }
        }
        i += 1;
    }
    proof {
        lemma_lex_lt_skips_common_prefix(a@, b@, i as int);
        lemma_lex_lt_skips_common_prefix(b@, a@, i as int);
    }
    if i < b.len() {
        KeyOrder::Less
    } else {
        assert(a@ =~= b@);
        KeyOrder::Equal
    }
}

/// Whether two strings hold the same characters.
pub fn same_text(a: &str, b: &str) -> (r: bool)
    ensures
        r == (a@ == b@),
{
    let probe = chars_of(b);
    key_order(a, &probe) == KeyOrder::Equal
}

/// Whether `pat` occurs in `text` at position `at`.
pub fn matches_at(text: &Vec<char>, pat: &Vec<char>, at: usize) -> (r: bool)
    ensures
        r == occurs_at(text@, pat@, at as int),
{
    if at > text.len() || pat.len() > text.len() - at {
        return false;
    }
    let mut j: usize = 0;
    while j < pat.len()
        invariant
            j <= pat.len(),
            at + pat.len() <= text.len(),
            forall|k: int| 0 <= k < j ==> text@[at + k] == pat@[k],
        decreases pat.len() - j,
    {
        if text[at + j] != pat[j] {
            assert(text@.subrange(at as int, at + pat@.len())[j as int] != pat@[j as int]);
            return false;
        }
        j += 1;
    }
    assert(text@.subrange(at as int, at + pat@.len()) =~= pat@);
    true
}

/// The part of `text` after the leading `pat`, when `text` begins with `pat`.
pub fn strip_prefix(text: &str, pat: &str) -> (r: Option<String>)
    ensures
        has_prefix(text@, pat@) ==> r.is_some() && r.unwrap()@ == text@.subrange(
            pat@.len() as int,
            text@.len() as int,
        ),
        !has_prefix(text@, pat@) ==> r.is_none(),
{
    let t = chars_of(text);
    let p = chars_of(pat);
    if matches_at(&t, &p, 0) {
        Some(text.substring_char(p.len(), t.len()).to_owned())
    } else {
        None
    }
}

/// The decimal digit character for `d`, which is below ten.
pub open spec fn digit_char(d: nat) -> char {
    if d == 0 {
        '0'
    } else if d == 1 {
        '1'
    } else if d == 2 {
        '2'
    } else if d == 3 {
        '3'
    } else if d == 4 {
        '4'
    } else if d == 5 {
        '5'
    } else if d == 6 {
        '6'
    } else if d == 7 {
        '7'
    } else if d == 8 {
        '8'
    } else {
        '9'
    }
}

/// The decimal numeral of `n` in exactly six digits, padded with zeros on
/// the left. Meant for `n` below one million.
pub open spec fn six_digits(n: nat) -> Seq<char> {
    seq![
        digit_char(digit_at(n, 100000)),
        digit_char(digit_at(n, 10000)),
        digit_char(digit_at(n, 1000)),
        digit_char(digit_at(n, 100)),
        digit_char(digit_at(n, 10)),
        digit_char(digit_at(n, 1)),
    ]
}

/// Different digits are written with different characters.
pub proof fn lemma_digit_char_injective(d: nat, e: nat)
    requires
        d < 10,
        e < 10,
        digit_char(d) == digit_char(e),
    ensures
        d == e,
{
}

/// The digit of `n` at the decimal place `place`, a power of ten.
pub open spec fn digit_at(n: nat, place: nat) -> nat {
    (n / place) % 10
}

/// A number below one million is the sum of its six digits, each weighted
/// by its place.
proof fn lemma_six_digits_value(n: nat)
    requires
        n < 1000000,
    ensures
        n == digit_at(n, 100000) * 100000 + digit_at(n, 10000) * 10000 + digit_at(n, 1000) * 1000
            + digit_at(n, 100) * 100 + digit_at(n, 10) * 10 + digit_at(n, 1),
{
    let q1 = n / 10;
    let q2 = n / 100;
    let q3 = n / 1000;
    let q4 = n / 10000;
    let q5 = n / 100000;
    lemma_div_denominator(n as int, 10, 10);
    lemma_div_denominator(n as int, 100, 10);
    lemma_div_denominator(n as int, 1000, 10);
    lemma_div_denominator(n as int, 10000, 10);
    assert(q2 == q1 / 10);
    assert(q3 == q2 / 10);
    assert(q4 == q3 / 10);
    assert(q5 == q4 / 10);
    assert(q5 < 10);
    assert(n == q1 * 10 + n % 10);
    assert(q1 == q2 * 10 + q1 % 10);
    assert(q2 == q3 * 10 + q2 % 10);
    assert(q3 == q4 * 10 + q3 % 10);
    assert(q4 == q5 * 10 + q4 % 10);
    assert(q5 % 10 == q5);
    assert(n / 1 == n);
}

/// Different numbers below one million have different six-digit numerals.
pub proof fn lemma_six_digits_injective(m: nat, n: nat)
    requires
        m < 1000000,
        n < 1000000,
        six_digits(m) == six_digits(n),
    ensures
        m == n,
{
    let a = six_digits(m);
    let b = six_digits(n);
    assert(digit_at(m, 100000) == digit_at(n, 100000)) by {
        assert(a[0] == b[0]);
        lemma_digit_char_injective(digit_at(m, 100000), digit_at(n, 100000));
    }
    assert(digit_at(m, 10000) == digit_at(n, 10000)) by {
        assert(a[1] == b[1]);
        lemma_digit_char_injective(digit_at(m, 10000), digit_at(n, 10000));
    }
    assert(digit_at(m, 1000) == digit_at(n, 1000)) by {
        assert(a[2] == b[2]);
        lemma_digit_char_injective(digit_at(m, 1000), digit_at(n, 1000));
    }
    assert(digit_at(m, 100) == digit_at(n, 100)) by {
        assert(a[3] == b[3]);
        lemma_digit_char_injective(digit_at(m, 100), digit_at(n, 100));
    }
    assert(digit_at(m, 10) == digit_at(n, 10)) by {
        assert(a[4] == b[4]);
        lemma_digit_char_injective(digit_at(m, 10), digit_at(n, 10));
    }
    assert(digit_at(m, 1) == digit_at(n, 1)) by {
        assert(a[5] == b[5]);
        lemma_digit_char_injective(digit_at(m, 1), digit_at(n, 1));
    }
    lemma_six_digits_value(m);
    lemma_six_digits_value(n);
}

/// The one-character string for the decimal digit `d`.
pub fn digit_str(d: u8) -> (s: &'static str)
    requires
        d < 10,
    ensures
        s@ == seq![digit_char(d as nat)],
{
    proof {
        reveal_strlit("0");
        reveal_strlit("1");
        reveal_strlit("2");
        reveal_strlit("3");
        reveal_strlit("4");
        reveal_strlit("5");
        reveal_strlit("6");
        reveal_strlit("7");
        reveal_strlit("8");
        reveal_strlit("9");
    }
    let s = if d == 0 {
        "0"
    } else if d == 1 {
        "1"
    } else if d == 2 {
        "2"
    } else if d == 3 {
        "3"
    } else if d == 4 {
        "4"
    } else if d == 5 {
        "5"
    } else if d == 6 {
        "6"
    } else if d == 7 {
        "7"
    } else if d == 8 {
        "8"
    } else {
        "9"
    };
    assert(s@ =~= seq![digit_char(d as nat)]);
    s
}

/// The decimal numeral of `n`, without leading zeros.
pub open spec fn decimal(n: nat) -> Seq<char>
    decreases n,
{
    if n < 10 {
        seq![digit_char(n)]
    } else {
        decimal(n / 10).push(digit_char(n % 10))
    }
}

/// Appends the decimal numeral of `n` to `text`.
pub fn append_decimal(text: &mut String, n: u16)
    ensures
        final(text)@ == old(text)@ + decimal(n as nat),
    decreases n,
{
    if n >= 10 {
        append_decimal(text, n / 10);
    }
    text.append(digit_str((n % 10) as u8));
    assert(text@ =~= old(text)@ + decimal(n as nat));
}

} // verus!
