//! Character-level helpers on `str` and `String` that the rest of the crate
//! builds on: conversion to and from character vectors, substring search and
//! decimal integers.

use vstd::prelude::*;

verus! {

/// Appends one character to a `String` (`String::push`).
#[verifier::external_body]
fn push_char(s: &mut String, c: char)
    ensures
        final(s)@ == old(s)@.push(c),
{
    s.push(c);
}

/// The characters of `s`, in order.
pub fn chars_of(s: &str) -> (v: Vec<char>)
    ensures
        v@ == s@,
{
    let mut v: Vec<char> = Vec::new();
    for c in it: s.chars()
        invariant
            v@ == it.seq().take(it.index() as int),
    {
        v.push(c);
    }
    v
}

/// A `String` made of the characters of `v`, in order.
pub fn string_of(v: &Vec<char>) -> (s: String)
    ensures
        s@ == v@,
{
    let mut s = String::new();
    let mut i: usize = 0;
    while i < v.len()
        invariant
            i <= v.len(),
            s@ == v@.take(i as int),
        decreases v.len() - i,
    {
        push_char(&mut s, v[i]);
        i += 1;
        assert(s@ =~= v@.take(i as int));
    }
    assert(v@.take(v.len() as int) =~= v@);
    s
}

} // verus!

verus! {

// ---------------------------------------------------------------------------
// Decimal digits
// ---------------------------------------------------------------------------

/// An ASCII decimal digit (`char::is_ascii_digit`).
pub open spec fn is_digit(c: char) -> bool {
    '0' <= c && c <= '9'
}

/// The value of a decimal digit.
pub open spec fn digit_value(c: char) -> int {
    c as int - '0' as int
}

/// The character of a decimal digit `0 <= d < 10`.
pub open spec fn digit_char(d: int) -> char {
    (d + '0' as int) as char
}

/// Every character of `s` is an ASCII decimal digit (true of the empty sequence).
pub open spec fn all_digits(s: Seq<char>) -> bool {
    forall|i: int| 0 <= i < s.len() ==> is_digit(#[trigger] s[i])
}

/// The number that a sequence of decimal digits denotes.
pub open spec fn digits_value(s: Seq<char>) -> int
    decreases s.len(),
{
    if s.len() == 0 {
        0
    } else {
        digits_value(s.drop_last()) * 10 + digit_value(s.last())
    }
}

/// The integer a numeral denotes, read the way `str::parse` reads a signed
/// integer type: an optional `+` or `-`, then at least one ASCII digit and
/// nothing else. `None` for any other text.
pub open spec fn numeral_value(s: Seq<char>) -> Option<int> {
    if s.len() == 0 {
        None
    } else if s[0] == '+' || s[0] == '-' {
        let rest = s.skip(1);
        if rest.len() > 0 && all_digits(rest) {
            Some(if s[0] == '-' { -digits_value(rest) } else { digits_value(rest) })
        } else {
            None
        }
    } else if all_digits(s) {
        Some(digits_value(s))
    } else {
        None
    }
}

/// What `s.parse::<i64>()` gives: the numeral's value when it fits.
pub open spec fn parsed_i64(s: Seq<char>) -> Option<i64> {
    match numeral_value(s) {
        Some(n) => if i64::MIN <= n <= i64::MAX { Some(n as i64) } else { None },
        None => None,
    }
}

/// What `s.parse::<i32>()` gives: the numeral's value when it fits.
pub open spec fn parsed_i32(s: Seq<char>) -> Option<i32> {
    match numeral_value(s) {
        Some(n) => if i32::MIN <= n <= i32::MAX { Some(n as i32) } else { None },
        None => None,
    }
}

/// The decimal numeral of a natural number, without leading zeros.
pub open spec fn decimal_of_nat(n: nat) -> Seq<char>
    decreases n,
{
    if n < 10 {
        seq![digit_char(n as int)]
    } else {
        decimal_of_nat(n / 10).push(digit_char((n % 10) as int))
    }
}

/// The decimal numeral of an integer, with a leading `-` when negative
/// (what `{}` formatting writes for an integer).
pub open spec fn decimal_of_int(n: int) -> Seq<char> {
    if n < 0 {
        seq!['-'] + decimal_of_nat((-n) as nat)
    } else {
        decimal_of_nat(n as nat)
    }
}

proof fn lemma_digits_value_nonneg(s: Seq<char>)
    requires
        all_digits(s),
    ensures
        digits_value(s) >= 0,
    decreases s.len(),
{
    if s.len() > 0 {
        assert(is_digit(s[s.len() - 1]));
        lemma_digits_value_nonneg(s.drop_last());
    }
}

/// A digit sequence denotes at least what each of its prefixes denotes.
proof fn lemma_digits_value_prefix(s: Seq<char>, k: int)
    requires
        all_digits(s),
        0 <= k <= s.len(),
    ensures
        digits_value(s.take(k)) <= digits_value(s),
    decreases s.len(),
{
    if k == s.len() {
        assert(s.take(k) =~= s);
    } else {
        let t = s.drop_last();
        assert(all_digits(t));
        assert(t.take(k) =~= s.take(k));
        lemma_digits_value_prefix(t, k);
        lemma_digits_value_nonneg(t);
        assert(is_digit(s[s.len() - 1]));
    }
}

fn digit_of(d: u64) -> (c: char)
    requires
        d < 10,
    ensures
        c == digit_char(d as int),
{
    if d == 0 {
        '0'
    } else if d == 1 {
        '1'
    } else if d == 2 {
        '2'
    } else if d == 3 {
        '3'
    } else if d == 4 {
        '4'
    } else if d == 5 {
        '5'
    } else if d == 6 {
        '6'
    } else if d == 7 {
        '7'
    } else if d == 8 {
        '8'
    } else {
        '9'
    }
}

/// Appends the decimal numeral of `n` to `out`.
fn push_decimal(out: &mut Vec<char>, n: u64)
    ensures
        final(out)@ == old(out)@ + decimal_of_nat(n as nat),
    decreases n,
{
    if n >= 10 {
        push_decimal(out, n / 10);
    }
    out.push(digit_of(n % 10));
    if n < 10 {
        assert(final(out)@ =~= old(out)@ + decimal_of_nat(n as nat));
    } else {
        assert(final(out)@ =~= old(out)@ + decimal_of_nat(n as nat));
    }
}

/// The decimal numeral of an `i64`, as `{}` formatting writes it.
pub fn decimal_i64(n: i64) -> (s: Vec<char>)
    ensures
        s@ == decimal_of_int(n as int),
{
    let mut out: Vec<char> = Vec::new();
    if n < 0 {
        out.push('-');
        let m: u64 = if n == i64::MIN {
            9223372036854775808u64
        } else {
            (-n) as u64
        };
        push_decimal(&mut out, m);
    } else {
        push_decimal(&mut out, n as u64);
    }
    out
}

/// The decimal numeral of a `u64`, as `{}` formatting writes it.
pub fn decimal_u64(n: u64) -> (s: Vec<char>)
    ensures
        s@ == decimal_of_nat(n as nat),
{
    let mut out: Vec<char> = Vec::new();
    push_decimal(&mut out, n);
    assert(out@ =~= decimal_of_nat(n as nat));
    out
}

/// Reads the digits of `v` from `start` on as a magnitude of at most `bound`.
fn bounded_magnitude(v: &Vec<char>, start: usize, bound: u64) -> (r: Option<u64>)
    requires
        start <= v.len(),
    ensures
        r == (if all_digits(v@.skip(start as int)) && digits_value(v@.skip(start as int)) <= bound {
            Some(digits_value(v@.skip(start as int)) as u64)
        } else {
            None
        }),
{
    let ghost t = v@.skip(start as int);
    let mut acc: u64 = 0;
    let mut i: usize = start;
    assert(t.take(0) =~= Seq::<char>::empty());
    while i < v.len()
        invariant
            start <= i <= v.len(),
            t == v@.skip(start as int),
            all_digits(t.take(i - start)),
            acc as int == digits_value(t.take(i - start)),
            acc <= bound,
        decreases v.len() - i,
    {
        let c = v[i];
        if !('0' <= c && c <= '9') {
            assert(t[i - start] == c);
            return None;
        }
        let d: u64 = (c as u32 - '0' as u32) as u64;
        let next: u128 = acc as u128 * 10 + d as u128;
        proof {
            let p = t.take(i - start + 1);
            assert(p.drop_last() =~= t.take(i - start));
            assert(p.last() == c);
            assert(all_digits(p)) by {
                assert forall|j: int| 0 <= j < p.len() implies is_digit(#[trigger] p[j]) by {
                    if j < p.len() - 1 {
                        assert(p[j] == t.take(i - start)[j]);
                    }
                }
            }
        }
        if next > bound as u128 {
            proof {
                let k = i - start + 1;
                if all_digits(t) {
                    lemma_digits_value_prefix(t, k as int);
                }
            }
            return None;
        }
        acc = next as u64;
        i += 1;
    }
    assert(t.take(i - start) =~= t);
    Some(acc)
}

/// The value of the numeral `v` if it lies in `-max ..= max - 1`.
fn bounded_numeral(v: &Vec<char>, max: u64) -> (r: Option<i128>)
    requires
        1 <= max <= 0x8000_0000_0000_0000u64,
    ensures
        r == (match numeral_value(v@) {
            Some(n) => if -(max as int) <= n < max { Some(n as i128) } else { None },
            None => None,
        }),
{
    if v.len() == 0 {
        return None;
    }
    let signed = v[0] == '+' || v[0] == '-';
    if signed && v.len() == 1 {
        return None;
    }
    let negative = v[0] == '-';
    let start: usize = if signed { 1 } else { 0 };
    let bound: u64 = if negative { max } else { max - 1 };
    assert(v@.skip(0) =~= v@);
    match bounded_magnitude(v, start, bound) {
        None => {
            proof {
                let t = v@.skip(start as int);
                if all_digits(t) {
                    lemma_digits_value_nonneg(t);
                }
            }
            None
        },
        Some(m) => {
            proof {
                lemma_digits_value_nonneg(v@.skip(start as int));
            }
            if negative {
                Some(-(m as i128))
            } else {
                Some(m as i128)
            }
        },
    }
}

/// `s.parse::<i64>().ok()`.
pub fn parse_i64(s: &str) -> (r: Option<i64>)
    ensures
        r == parsed_i64(s@),
{
    let v = chars_of(s);
    match bounded_numeral(&v, 0x8000_0000_0000_0000u64) {
        Some(n) => Some(n as i64),
        None => None,
    }
}

/// `s.parse::<i32>().ok()` on a character vector.
pub fn parse_i32_chars(v: &Vec<char>) -> (r: Option<i32>)
    ensures
        r == parsed_i32(v@),
{
    match bounded_numeral(v, 0x8000_0000u64) {
        Some(n) => Some(n as i32),
        None => None,
    }
}

/// `s.parse::<i32>().ok()`.
pub fn parse_i32(s: &str) -> (r: Option<i32>)
    ensures
        r == parsed_i32(s@),
{
    let v = chars_of(s);
    parse_i32_chars(&v)
}

/// Whether every character of `s` is an ASCII digit
/// (`s.chars().all(|c| c.is_ascii_digit())`; true of the empty string).
pub fn all_ascii_digits(s: &str) -> (r: bool)
    ensures
        r == all_digits(s@),
{
    let v = chars_of(s);
    let mut i: usize = 0;
    while i < v.len()
        invariant
            i <= v.len(),
            v@ == s@,
            forall|j: int| 0 <= j < i ==> is_digit(#[trigger] v@[j]),
        decreases v.len() - i,
    {
        if !('0' <= v[i] && v[i] <= '9') {
            return false;
        }
        i += 1;
    }
    true
}

} // verus!

verus! {

// ---------------------------------------------------------------------------
// Substring search
// ---------------------------------------------------------------------------

/// `n` occurs in `h` starting at character `i`.
pub open spec fn occurs_at(h: Seq<char>, n: Seq<char>, i: int) -> bool {
    0 <= i && i + n.len() <= h.len() && h.subrange(i, i + n.len()) == n
}

/// The first position at or after `i` where `n` occurs in `h`.
pub open spec fn find_from(h: Seq<char>, n: Seq<char>, i: int) -> Option<int>
    decreases h.len() + 1 - i,
{
    if i < 0 || i + n.len() > h.len() {
        None
    } else if occurs_at(h, n, i) {
        Some(i)
    } else {
        find_from(h, n, i + 1)
    }
}

/// The first position where `n` occurs in `h` (`str::find`, counted in characters).
pub open spec fn find_seq(h: Seq<char>, n: Seq<char>) -> Option<int> {
    find_from(h, n, 0)
}

/// `n` occurs somewhere in `h` (`str::contains`).
pub open spec fn contains_seq(h: Seq<char>, n: Seq<char>) -> bool {
    find_seq(h, n) is Some
}

/// The ASCII digits of `s`, in order (`s.chars().filter(|c| c.is_ascii_digit())`).
pub open spec fn digits_only(s: Seq<char>) -> Seq<char>
    decreases s.len(),
{
    if s.len() == 0 {
        s
    } else if is_digit(s.last()) {
        digits_only(s.drop_last()).push(s.last())
    } else {
        digits_only(s.drop_last())
    }
}

/// What `find_from` says, in terms of positions.
pub proof fn lemma_find_from(h: Seq<char>, n: Seq<char>, i: int)
    requires
        0 <= i,
    ensures
        match find_from(h, n, i) {
            Some(j) => i <= j && occurs_at(h, n, j) && forall|k: int|
                i <= k < j ==> !occurs_at(h, n, k),
            None => forall|k: int| i <= k ==> !occurs_at(h, n, k),
        },
    decreases h.len() + 1 - i,
{
    if i + n.len() > h.len() {
    } else if occurs_at(h, n, i) {
    } else {
        lemma_find_from(h, n, i + 1);
    }
}

fn occurs_at_exec(h: &Vec<char>, n: &Vec<char>, i: usize) -> (r: bool)
    requires
        i + n.len() <= h.len(),
    ensures
        r == occurs_at(h@, n@, i as int),
{
    let mut k: usize = 0;
    while k < n.len()
        invariant
            k <= n.len(),
            i + n.len() <= h.len(),
            forall|j: int| 0 <= j < k ==> h@[i + j] == n@[j],
        decreases n.len() - k,
    {
        if h[i + k] != n[k] {
            assert(h@.subrange(i as int, i + n.len())[k as int] != n@[k as int]);
            return false;
        }
        k += 1;
    }
    assert(h@.subrange(i as int, i + n.len()) =~= n@);
    true
}

/// The first character position where `n` occurs in `h`.
pub fn find_chars(h: &Vec<char>, n: &Vec<char>) -> (r: Option<usize>)
    ensures
        match find_seq(h@, n@) {
            Some(j) => r is Some && r.unwrap() as int == j,
            None => r is None,
        },
{
    let mut i: usize = 0;
    if n.len() > h.len() {
        return None;
    }
    let last: usize = h.len() - n.len();
    while i <= last
        invariant
            n.len() <= h.len(),
            last == h.len() - n.len(),
            i <= last + 1,
            find_from(h@, n@, 0) == find_from(h@, n@, i as int),
        decreases last + 1 - i,
    {
        if occurs_at_exec(h, n, i) {
            return Some(i);
        }
        if i == last {
            return None;
        }
        i += 1;
    }
    None
}

/// Whether `n` occurs in `h` (`str::contains`).
pub fn contains_chars(h: &Vec<char>, n: &Vec<char>) -> (r: bool)
    ensures
        r == contains_seq(h@, n@),
{
    find_chars(h, n).is_some()
}

/// The end of the run of ASCII digits that starts at `i`: the first position
/// at or after `i` that holds no digit (or the length of `s`).
pub open spec fn digit_run_end(s: Seq<char>, i: int) -> int
    decreases s.len() - i,
{
    if i < 0 || i >= s.len() || !is_digit(s[i]) {
        i
    } else {
        digit_run_end(s, i + 1)
    }
}

/// Where the run of digits that starts at `i` ends.
pub fn find_digit_run_end(v: &Vec<char>, i: usize) -> (r: usize)
    requires
        i <= v.len(),
    ensures
        r as int == digit_run_end(v@, i as int),
        i <= r <= v.len(),
{
    let mut j: usize = i;
    while j < v.len() && '0' <= v[j] && v[j] <= '9'
        invariant
            i <= j <= v.len(),
            digit_run_end(v@, j as int) == digit_run_end(v@, i as int),
        decreases v.len() - j,
    {
        j += 1;
    }
    j
}

/// The ASCII digits of `v`, in order.
pub fn digits_of(v: &Vec<char>) -> (r: Vec<char>)
    ensures
        r@ == digits_only(v@),
{
    let mut r: Vec<char> = Vec::new();
    let mut i: usize = 0;
    while i < v.len()
        invariant
            i <= v.len(),
            r@ == digits_only(v@.take(i as int)),
        decreases v.len() - i,
    {
        let ghost before = v@.take(i as int);
        assert(v@.take(i + 1).drop_last() =~= before);
        if '0' <= v[i] && v[i] <= '9' {
            r.push(v[i]);
        }
        i += 1;
    }
    assert(v@.take(v.len() as int) =~= v@);
    r
}

/// The characters of `v` from `a` up to `b`.
pub fn chars_between(v: &Vec<char>, a: usize, b: usize) -> (r: Vec<char>)
    requires
        a <= b <= v.len(),
    ensures
        r@ == v@.subrange(a as int, b as int),
{
    let mut r: Vec<char> = Vec::new();
    let mut i: usize = a;
    while i < b
        invariant
            a <= i <= b <= v.len(),
            r@ == v@.subrange(a as int, i as int),
        decreases b - i,
    {
        r.push(v[i]);
        i += 1;
        assert(r@ =~= v@.subrange(a as int, i as int));
    }
    r
}

proof fn lemma_digit_char(d: int)
    requires
        0 <= d < 10,
    ensures
        is_digit(digit_char(d)),
        digit_value(digit_char(d)) == d,
{
    assert(('0' as int) == 48);
    assert(((d + 48) as char) as int == d + 48);
}

/// The numeral of a natural number is a non-empty run of digits that spells it.
pub proof fn lemma_decimal_of_nat(n: nat)
    ensures
        all_digits(decimal_of_nat(n)),
        digits_value(decimal_of_nat(n)) == n,
        decimal_of_nat(n).len() > 0,
    decreases n,
{
    let d = decimal_of_nat(n);
    lemma_digit_char((n % 10) as int);
    if n < 10 {
        lemma_digit_char(n as int);
        assert(d[0] == digit_char(n as int));
        assert(d.drop_last() =~= Seq::<char>::empty());
        assert(d.last() == digit_char(n as int));
        assert(digits_value(d) == digits_value(d.drop_last()) * 10 + digit_value(d.last()));
    } else {
        lemma_decimal_of_nat(n / 10);
        let p = decimal_of_nat(n / 10);
        assert(d.drop_last() =~= p);
        assert forall|i: int| 0 <= i < d.len() implies is_digit(#[trigger] d[i]) by {
            if i < d.len() - 1 {
                assert(d[i] == p[i]);
            }
        }
        assert(n == (n / 10) * 10 + n % 10) by (nonlinear_arith);
        assert(d.last() == digit_char((n % 10) as int));
        assert(digits_value(d) == digits_value(p) * 10 + digit_value(d.last()));
    }
}

/// A decimal numeral reads back as the integer it was written from:
/// `decimal_of_int(n)` parses to `n`.
pub proof fn lemma_decimal_round_trip(n: int)
    ensures
        numeral_value(decimal_of_int(n)) == Some(n),
        i64::MIN <= n <= i64::MAX ==> parsed_i64(decimal_of_int(n)) == Some(n as i64),
        i32::MIN <= n <= i32::MAX ==> parsed_i32(decimal_of_int(n)) == Some(n as i32),
{
    if n < 0 {
        let m = (-n) as nat;
        lemma_decimal_of_nat(m);
        let s = decimal_of_int(n);
        let d = decimal_of_nat(m);
        assert(s.skip(1) =~= d);
        assert(s[0] == '-');
    } else {
        lemma_decimal_of_nat(n as nat);
        let d = decimal_of_nat(n as nat);
        assert(is_digit(d[0]));
    }
}

} // verus!
