//! Real numbers written as text, in the grammar the standard library reads a
//! single-precision number in: an optional sign, then `inf`, `infinity` or
//! `nan` in any letter case, or digits with an optional point and an
//! optional exponent (`e` or `E`, an optional sign, digits). Values are kept
//! exact: a finite number is its digits and a power of ten.
use vstd::prelude::*;
use vstd::string::*;
use vstd::arithmetic::div_mod::{
    lemma_basic_div, lemma_div_by_multiple, lemma_div_denominator, lemma_div_is_ordered, lemma_div_pos_is_pos,
    lemma_hoist_over_denominator,
};
use crate::text::{
    all_digits, all_digits_in, chars_of, clamp_i32, digit_value, digits_value, dot_index, find_char, int_of,
    is_digit, lemma_digits_value_bound, lemma_digits_value_step, lemma_dot_index, lemma_pow10_mono,
    lemma_pow10_pos, pow10, sign_split,
};

verus! {

// ---------------------------------------------------------------------------
// Grammar
// ---------------------------------------------------------------------------

pub open spec fn is_exp_mark(c: char) -> bool {
    c == 'e' || c == 'E'
}

/// Index of the first `e` or `E` in `s`, or `s.len()` when there is none.
pub open spec fn exp_index(s: Seq<char>) -> int
    decreases s.len(),
{
    if s.len() == 0 {
        0
    } else if is_exp_mark(s[0]) {
        0
    } else {
        1 + exp_index(s.drop_first())
    }
}

/// `s` spells the word whose lowercase letters are `lower` and uppercase
/// letters are `upper`, each letter in either case.
pub open spec fn letters_match(s: Seq<char>, lower: Seq<char>, upper: Seq<char>) -> bool {
    &&& s.len() == lower.len()
    &&& s.len() == upper.len()
    &&& forall|i: int| 0 <= i < s.len() ==> (#[trigger] s[i] == lower[i] || s[i] == upper[i])
}

/// The words that stand for no finite number: `Some(Some(neg))` for an
/// infinity of that sign, `Some(None)` for not-a-number, `None` otherwise.
pub open spec fn special_of(s: Seq<char>) -> Option<Option<bool>> {
    let (neg, b) = sign_split(s);
    if letters_match(b, "inf"@, "INF"@) || letters_match(b, "infinity"@, "INFINITY"@) {
        Some(Some(neg))
    } else if letters_match(b, "nan"@, "NAN"@) {
        Some(None)
    } else {
        None
    }
}

/// A finite number `[+-]digits[.digits][(e|E)[+-]digits]` with at least one
/// digit before the exponent: its sign, all its digits (the point left out)
/// and the power of ten they are scaled by.
pub open spec fn finite_of(s: Seq<char>) -> Option<(bool, Seq<char>, int)> {
    let (neg, b) = sign_split(s);
    let x = exp_index(b);
    let mant = b.take(x);
    let d = dot_index(mant);
    let ip = mant.take(d);
    let fp = if d < mant.len() { mant.skip(d + 1) } else { Seq::<char>::empty() };
    let e = if x < b.len() { int_of(b.skip(x + 1)) } else { Some(0int) };
    if all_digits(ip) && all_digits(fp) && ip.len() + fp.len() > 0 && e is Some {
        Some((neg, ip + fp, e.unwrap() - fp.len()))
    } else {
        None
    }
}

// ---------------------------------------------------------------------------
// Percentages
// ---------------------------------------------------------------------------

/// `m * n * 10^e`, rounded down.
pub open spec fn scaled(m: nat, n: nat, e: int) -> nat {
    if e >= 0 {
        m * n * pow10(e as nat)
    } else {
        (m * n) / pow10((-e) as nat)
    }
}

pub open spec fn abs_of(x: int) -> nat {
    if x < 0 { (-x) as nat } else { x as nat }
}

/// `size * (±n * 10^e) / 100`, rounded toward zero and saturated to `i32`.
pub open spec fn scaled_percent(size: int, neg: bool, n: nat, e: int) -> i32 {
    let mag = scaled(abs_of(size), n, e - 2);
    if (size < 0) != neg { clamp_i32(-mag) } else { clamp_i32(mag as int) }
}

/// The given percentage of `size`, rounded toward zero and saturated to
/// `i32`: an infinity gives the bound of its sign (nothing when `size` is 0),
/// not-a-number gives 0. `None` when `s` is no number.
pub open spec fn percent_text(s: Seq<char>, size: int) -> Option<i32> {
    match special_of(s) {
        Some(None) => Some(0i32),
        Some(Some(neg)) => Some(if size == 0 { 0i32 } else if (size > 0) != neg { i32::MAX } else { i32::MIN }),
        None => match finite_of(s) {
            Some((neg, ds, e)) => Some(scaled_percent(size, neg, digits_value(ds), e)),
            None => None,
        },
    }
}

// ---------------------------------------------------------------------------
// Lemmas
// ---------------------------------------------------------------------------

pub proof fn lemma_exp_index(s: Seq<char>, k: int)
    requires
        0 <= k <= s.len(),
        forall|j: int| 0 <= j < k ==> !is_exp_mark(s[j]),
        k < s.len() ==> is_exp_mark(s[k]),
    ensures
        exp_index(s) == k,
    decreases k,
{
    if k > 0 {
        lemma_exp_index(s.drop_first(), k - 1);
    }
}

pub proof fn lemma_pow10_add(a: nat, b: nat)
    ensures
        pow10(a + b) == pow10(a) * pow10(b),
    decreases b,
{
    if b > 0 {
        lemma_pow10_add(a, (b - 1) as nat);
        let p = pow10(a);
        let q = pow10((b - 1) as nat);
        assert((a + (b - 1) as nat) as nat == (a + b - 1) as nat);
        assert(pow10((a + b - 1) as nat) == p * q);
        assert(pow10(a + b) == 10 * pow10((a + b - 1) as nat));
        assert(pow10(b) == 10 * q);
        assert(10 * (p * q) == p * (10 * q)) by (nonlinear_arith);
    } else {
        assert(pow10(0) == 1);
        assert(a + b == a);
    }
}

pub proof fn lemma_pow10_ten()
    ensures
        pow10(10) == 10000000000,
{
    reveal_with_fuel(pow10, 11);
}

/// Digits read one after another.
pub proof fn lemma_digits_concat(a: Seq<char>, b: Seq<char>)
    ensures
        digits_value(a + b) == digits_value(a) * pow10(b.len()) + digits_value(b),
    decreases b.len(),
{
    if b.len() == 0 {
        assert(a + b =~= a);
        assert(pow10(0) == 1);
        assert(digits_value(b) == 0);
    } else {
        let b1 = b.drop_last();
        assert((a + b).drop_last() =~= a + b1);
        assert((a + b).last() == b.last());
        lemma_digits_concat(a, b1);
        let x = digits_value(a);
        let p = pow10(b1.len());
        let y = digits_value(b1);
        let d = digit_value(b.last());
        assert(pow10(b.len()) == 10 * p);
        assert(digits_value(b) == y * 10 + d);
        assert(digits_value(a + b) == digits_value(a + b1) * 10 + d);
        assert((x * p + y) * 10 + d == x * (10 * p) + (y * 10 + d)) by (nonlinear_arith);
    }
}

proof fn lemma_capped_step(x: int, d: int, cap: int)
    requires
        0 <= x,
        0 <= d,
        0 < cap,
    ensures
        (if (if x < cap { x } else { cap }) * 10 + d < cap { (if x < cap { x } else { cap }) * 10 + d } else { cap })
            == (if x * 10 + d < cap { x * 10 + d } else { cap }),
{
}

/// `m * min(x, cap)`, capped, is `m * x` capped, for `m >= 1`.
proof fn lemma_capped_mul(m: int, x: int, cap: int)
    requires
        1 <= m,
        0 <= x,
        0 < cap,
    ensures
        (if m * (if x < cap { x } else { cap }) < cap { m * (if x < cap { x } else { cap }) } else { cap })
            == (if m * x < cap { m * x } else { cap }),
{
    if x >= cap {
        assert(m * cap >= cap) by (nonlinear_arith) requires m >= 1, cap > 0;
        assert(m * x >= cap) by (nonlinear_arith) requires m >= 1, x >= cap, cap > 0;
    }
}

/// The value of the digits from `i` on: the digit at `i` in front of the rest.
proof fn lemma_digits_front(s: Seq<char>, i: int)
    requires
        0 <= i < s.len(),
    ensures
        digits_value(s.skip(i)) == digit_value(s[i]) * pow10((s.len() - i - 1) as nat) + digits_value(s.skip(i + 1)),
{
    let head = seq![s[i]];
    assert(s.skip(i) =~= head + s.skip(i + 1));
    lemma_digits_concat(head, s.skip(i + 1));
    assert(head.drop_last() =~= Seq::<char>::empty());
    assert(digits_value(head.drop_last()) == 0);
    assert(head.last() == s[i]);
    assert(digits_value(head) == digit_value(s[i]));
}

/// One step of long division from the right: `m * (d·10^j + v) / 10^(j+1)`
/// is `(m * d + m * v / 10^j) / 10`.
proof fn lemma_div_step(m: nat, d: nat, v: nat, p: nat)
    requires
        p > 0,
    ensures
        (m * (d * p + v)) / (p * 10) == (m * d + (m * v) / p) / 10,
{
    let x = m * v;
    let j = m * d;
    assert(m * (d * p + v) == x + j * p) by (nonlinear_arith) requires x == m * v, j == m * d;
    lemma_hoist_over_denominator(x as int, j as int, p);
    assert(x >= 0 && j * p >= 0) by (nonlinear_arith);
    lemma_div_denominator((x + j * p) as int, p as int, 10);
}

// ---------------------------------------------------------------------------
// Executable parts
// ---------------------------------------------------------------------------

/// `min(digits_value(v[lo..hi]), cap)`.
fn capped_digits(v: &Vec<char>, lo: usize, hi: usize, cap: u128) -> (r: u128)
    requires
        lo <= hi <= v@.len(),
        all_digits(v@.subrange(lo as int, hi as int)),
        0 < cap <= 1000000000000000000000000000000,
    ensures
        r as nat == (if digits_value(v@.subrange(lo as int, hi as int)) < cap {
            digits_value(v@.subrange(lo as int, hi as int))
        } else {
            cap as nat
        }),
{
    let ghost w = v@.subrange(lo as int, hi as int);
    let mut acc: u128 = 0;
    let mut i = lo;
    proof {
        assert(w.take(0) =~= Seq::<char>::empty());
    }
    while i < hi
        invariant
            lo <= i <= hi <= v@.len(),
            w == v@.subrange(lo as int, hi as int),
            all_digits(w),
            0 < cap <= 1000000000000000000000000000000,
            acc as nat == (if digits_value(w.take(i - lo)) < cap { digits_value(w.take(i - lo)) } else { cap as nat }),
        decreases hi - i,
    {
        let c = v[i];
        assert(is_digit(w[i - lo]));
        assert(w[i - lo] == c);
        let d: u128 = (c as u32 - '0' as u32) as u128;
        proof {
            lemma_digits_value_step(w, i - lo);
            lemma_capped_step(digits_value(w.take(i - lo)) as int, d as int, cap as int);
        }
        let t = acc * 10 + d;
        acc = if t < cap { t } else { cap };
        i = i + 1;
    }
    assert(w.take(hi - lo) =~= w);
    acc
}

/// `m * digits_value(v[lo..hi]) / 10^(hi-lo)`, rounded down, by long division
/// from the rightmost digit.
fn frac_floor(v: &Vec<char>, lo: usize, hi: usize, m: u64) -> (r: u64)
    requires
        lo <= hi <= v@.len(),
        all_digits(v@.subrange(lo as int, hi as int)),
        m <= 2147483648,
    ensures
        r as nat == ((m as nat) * digits_value(v@.subrange(lo as int, hi as int))) / pow10((hi - lo) as nat),
        r <= m,
{
    let ghost w = v@.subrange(lo as int, hi as int);
    let mut c: u64 = 0;
    let mut i = hi;
    proof {
        assert(w.skip(hi - lo) =~= Seq::<char>::empty());
        lemma_pow10_pos(0);
        reveal_with_fuel(pow10, 1);
    }
    while i > lo
        invariant
            lo <= i <= hi <= v@.len(),
            w == v@.subrange(lo as int, hi as int),
            all_digits(w),
            m <= 2147483648,
            c as nat == ((m as nat) * digits_value(w.skip(i - lo))) / pow10((hi - i) as nat),
            c <= m,
        decreases i - lo,
    {
        i = i - 1;
        let ch = v[i];
        assert(is_digit(w[i - lo]));
        assert(w[i - lo] == ch);
        let d: u64 = (ch as u32 - '0' as u32) as u64;
        assert(d as nat == digit_value(w[i - lo]) && d <= 9);
        assert(m * d <= 9 * 2147483648) by (nonlinear_arith) requires m <= 2147483648, d <= 9;
        proof {
            let k = i - lo;
            let p = pow10((hi - i - 1) as nat);
            lemma_pow10_pos((hi - i - 1) as nat);
            lemma_digits_front(w, k);
            assert(w.len() - k - 1 == hi - i - 1);
            let vv = digits_value(w.skip(k + 1));
            lemma_div_step(m as nat, d as nat, vv, p);
            assert(pow10((hi - i) as nat) == 10 * p);
            assert(p * 10 == 10 * p);
        }
        let t = m * d + c;
        c = t / 10;
        proof {
            let k = i - lo;
            let p = pow10((hi - i) as nat);
            lemma_pow10_pos((hi - i) as nat);
            lemma_digits_value_bound(w.skip(k));
            assert(w.skip(k).len() == hi - i);
            let vv = digits_value(w.skip(k));
            assert(m * vv <= m * p) by (nonlinear_arith) requires vv < p;
            lemma_div_is_ordered((m * vv) as int, (m * p) as int, p as int);
            lemma_div_by_multiple(m as int, p as int);
            assert((m * p) as int == (m as int) * (p as int));
        }
    }
    assert(w.skip(0) =~= w);
    c
}

/// The most a magnitude is ever needed up to: `2^31`.
pub open spec fn mag_cap() -> nat {
    2147483648
}

pub open spec fn capped(x: nat) -> nat {
    if x < mag_cap() { x } else { mag_cap() }
}

/// `capped(scaled(m, digits_value(ds), e))` for `e >= 0`: the digits'
/// value, capped, scaled up ten at a time until it reaches the cap or 0.
#[verifier::rlimit(40)]
fn scaled_up(ds: &Vec<char>, m: u64, e: i128) -> (r: u64)
    requires
        all_digits(ds@),
        1 <= m <= 2147483648,
        0 <= e < 1000000000000000000000,
    ensures
        r as nat == capped(scaled(m as nat, digits_value(ds@), e as int)),
{
    let len = ds.len();
    let ghost dv = digits_value(ds@);
    assert(ds@.subrange(0, len as int) =~= ds@);
    let mut acc = capped_digits(ds, 0, len, 2147483648) as u64;
    let mut j: i128 = 0;
    proof {
        assert(pow10(0) == 1);
        assert(dv * pow10(0) == dv);
    }
    while j < e && 0 < acc && acc < 2147483648
        invariant
            0 <= j <= e,
            acc as nat == capped(dv * pow10(j as nat)),
        decreases e - j,
    {
        proof {
            let p = pow10(j as nat);
            assert(pow10((j + 1) as nat) == 10 * p);
            assert(dv * (10 * p) == (dv * p) * 10) by (nonlinear_arith);
            lemma_capped_step((dv * p) as int, 0, mag_cap() as int);
        }
        let t = acc * 10;
        acc = if t < 2147483648 { t } else { 2147483648 };
        j = j + 1;
    }
    proof {
        let pj = pow10(j as nat);
        let pe = pow10(e as nat);
        lemma_pow10_mono(j as nat, e as nat);
        lemma_pow10_pos(j as nat);
        if j < e {
            if acc == 0 {
                assert(dv * pj == 0);
                assert(dv == 0) by (nonlinear_arith) requires dv * pj == 0, pj >= 1;
                assert(dv * pe == 0) by (nonlinear_arith) requires dv == 0;
            } else {
                assert(dv * pe >= dv * pj) by (nonlinear_arith) requires pe >= pj;
            }
        }
        lemma_capped_mul(m as int, (dv * pe) as int, mag_cap() as int);
        assert((m as nat) * dv * pe == (m as nat) * (dv * pe)) by (nonlinear_arith);
    }
    assert(acc <= 2147483648);
    assert(m * acc <= 2147483648 * 2147483648) by (nonlinear_arith) requires m <= 2147483648, acc <= 2147483648;
    let t = (m as u128) * (acc as u128);
    if t < 2147483648 { t as u64 } else { 2147483648 }
}

/// `capped(scaled(m, digits_value(ds), -k))` for `0 < k <= ds.len()`: the
/// digits before the last `k` count whole, the last `k` by long division.
#[verifier::rlimit(40)]
fn scaled_down_split(ds: &Vec<char>, m: u64, k: i128) -> (r: u64)
    requires
        all_digits(ds@),
        1 <= m <= 2147483648,
        0 < k <= ds@.len(),
    ensures
        r as nat == capped(scaled(m as nat, digits_value(ds@), -k)),
{
    let len = ds.len();
    let ghost dv = digits_value(ds@);
    assert(ds@.subrange(0, len as int) =~= ds@);
    let a = len - k as usize;
    proof {
        assert(all_digits(ds@.subrange(0, a as int))) by {
            assert forall|q: int| 0 <= q < a implies is_digit(#[trigger] ds@.subrange(0, a as int)[q]) by {
                assert(ds@.subrange(0, a as int)[q] == ds@[q]);
            }
        }
        assert(all_digits(ds@.subrange(a as int, len as int))) by {
            assert forall|q: int| 0 <= q < len - a implies is_digit(#[trigger] ds@.subrange(a as int, len as int)[q]) by {
                assert(ds@.subrange(a as int, len as int)[q] == ds@[a + q]);
            }
        }
    }
    let ip = capped_digits(ds, 0, a, 2147483648) as u64;
    let c = frac_floor(ds, a, len, m);
    proof {
        let iw = ds@.subrange(0, a as int);
        let fw = ds@.subrange(a as int, len as int);
        assert(ds@ =~= iw + fw);
        lemma_digits_concat(iw, fw);
        let iv = digits_value(iw);
        let fv = digits_value(fw);
        let p = pow10(k as nat);
        assert(fw.len() == k);
        lemma_pow10_pos(k as nat);
        assert((m as nat) * dv == (m as nat) * fv + ((m as nat) * iv) * p) by (nonlinear_arith)
            requires dv == iv * p + fv;
        lemma_hoist_over_denominator(((m as nat) * fv) as int, ((m as nat) * iv) as int, p);
        lemma_capped_mul(m as int, iv as int, mag_cap() as int);
        let ci = capped(iv);
        assert(m * ci <= 2147483648 * 2147483648) by (nonlinear_arith) requires m <= 2147483648, ci <= 2147483648;
    }
    let t: u128 = (m as u128) * (ip as u128) + c as u128;
    if t < 2147483648 { t as u64 } else { 2147483648 }
}

/// `capped(scaled(m, digits_value(ds), -k))` for `k > ds.len()`: long
/// division over all digits, then by ten until `k` or 0 is reached.
#[verifier::rlimit(40)]
fn scaled_down_small(ds: &Vec<char>, m: u64, k: i128) -> (r: u64)
    requires
        all_digits(ds@),
        1 <= m <= 2147483648,
        ds@.len() < k < 2000000000000000000000,
    ensures
        r as nat == capped(scaled(m as nat, digits_value(ds@), -k)),
{
    let len = ds.len();
    let ghost dv = digits_value(ds@);
    assert(ds@.subrange(0, len as int) =~= ds@);
    let mut c = frac_floor(ds, 0, len, m);
    let mut j: i128 = len as i128;
    while j < k && c > 0
        invariant
            len as i128 <= j <= k,
            c as nat == ((m as nat) * dv) / pow10(j as nat),
            c <= m,
        decreases k - j,
    {
        proof {
            let p = pow10(j as nat);
            lemma_pow10_pos(j as nat);
            assert((m as nat) * dv >= 0) by (nonlinear_arith);
            lemma_div_denominator(((m as nat) * dv) as int, p as int, 10);
            assert(pow10((j + 1) as nat) == 10 * p);
            assert(p * 10 == 10 * p);
        }
        c = c / 10;
        j = j + 1;
    }
    proof {
        let x = (m as nat) * dv;
        assert(x >= 0) by (nonlinear_arith);
        if j < k {
            let pj = pow10(j as nat);
            let pr = pow10((k - j) as nat);
            lemma_pow10_pos(j as nat);
            lemma_pow10_pos((k - j) as nat);
            lemma_pow10_add(j as nat, (k - j) as nat);
            lemma_div_denominator(x as int, pj as int, pr as int);
            assert(0int / (pr as int) == 0) by { lemma_basic_div(0, pr as int); }
        }
        lemma_pow10_pos(k as nat);
        lemma_div_pos_is_pos(x as int, pow10(k as nat) as int);
    }
    c
}

/// `capped(scaled(m, digits_value(ds), e))`, for `m >= 1` and `|e|` below
/// `10^21`.
fn scaled_capped(ds: &Vec<char>, m: u64, e: i128) -> (r: u64)
    requires
        all_digits(ds@),
        1 <= m <= 2147483648,
        -1000000000000000000000 < e < 1000000000000000000000,
    ensures
        r as nat == capped(scaled(m as nat, digits_value(ds@), e as int)),
{
    if e >= 0 {
        scaled_up(ds, m, e)
    } else if 0 - e <= ds.len() as i128 {
        scaled_down_split(ds, m, 0 - e)
    } else {
        scaled_down_small(ds, m, 0 - e)
    }
}

/// The characters `w[lo..lo + lower.len()]` spell the word in either case.
fn letters_at(w: &Vec<char>, lo: usize, lower: &Vec<char>, upper: &Vec<char>) -> (b: bool)
    requires
        lo <= w@.len(),
        lower@.len() == upper@.len(),
    ensures
        b == letters_match(w@.subrange(lo as int, w@.len() as int), lower@, upper@),
{
    let ghost s = w@.subrange(lo as int, w@.len() as int);
    if w.len() - lo != lower.len() {
        return false;
    }
    let mut k: usize = lo;
    while k < w.len()
        invariant
            s == w@.subrange(lo as int, w@.len() as int),
            lo <= k <= w@.len(),
            w@.len() - lo == lower@.len(),
            lower@.len() == upper@.len(),
            forall|q: int| 0 <= q < k - lo ==> (#[trigger] s[q] == lower@[q] || s[q] == upper@[q]),
        decreases w@.len() - k,
    {
        let c = w[k];
        assert(s[k - lo] == c);
        if c != lower[k - lo] && c != upper[k - lo] {
            return false;
        }
        k = k + 1;
    }
    true
}

/// First `e` or `E` at or after `lo`, or the length.
fn exp_mark_from(w: &Vec<char>, lo: usize) -> (k: usize)
    requires
        lo <= w@.len(),
    ensures
        lo <= k <= w@.len(),
        forall|j: int| lo <= j < k ==> !is_exp_mark(w@[j]),
        k < w@.len() ==> is_exp_mark(w@[k as int]),
{
    let mut k = lo;
    while k < w.len()
        invariant
            lo <= k <= w@.len(),
            forall|j: int| lo <= j < k ==> !is_exp_mark(w@[j]),
        decreases w@.len() - k,
    {
        if w[k] == 'e' || w[k] == 'E' {
            return k;
        }
        k = k + 1;
    }
    k
}

/// The exponent's magnitude is capped here: beyond it every value is 0 or
/// past every bound.
pub open spec fn exp_cap() -> nat {
    100000000000000000000
}

/// The parts of a finite number `w` whose sign takes `w[..s0]`: all digits,
/// the exponent's sign and magnitude (capped at `exp_cap()`), and how many
/// digits follow the point.
#[verifier::rlimit(40)]
fn finite_parts(w: &Vec<char>, s0: usize) -> (r: Option<(Vec<char>, bool, u128, usize)>)
    requires
        s0 <= w@.len(),
        sign_split(w@).1 == w@.subrange(s0 as int, w@.len() as int),
    ensures
        match r {
            None => finite_of(w@) is None,
            Some((ds, e_neg, e_mag, fplen)) => finite_of(w@) matches Some((n, dsq, e)) && {
                &&& n == sign_split(w@).0
                &&& dsq == ds@
                &&& all_digits(ds@)
                &&& e_mag <= exp_cap()
                &&& fplen <= w@.len()
                &&& (e_mag < exp_cap() ==> e == (if e_neg { -(e_mag as int) } else { e_mag as int }) - fplen)
                &&& (e_mag == exp_cap() && !e_neg ==> e >= exp_cap() - fplen)
                &&& (e_mag == exp_cap() && e_neg ==> e <= -(exp_cap() as int))
            },
        },
{
    let len = w.len();
    let ghost b = sign_split(w@).1;
    let x = exp_mark_from(w, s0);
    proof {
        lemma_exp_index(b, x - s0);
    }
    let ghost mant = b.take(x - s0);
    assert(mant =~= w@.subrange(s0 as int, x as int));
    let p0 = find_char(w, s0, '.');
    let d = if p0 < x { p0 } else { x };
    proof {
        lemma_dot_index(mant, d - s0);
    }
    let fs = if d < x { d + 1 } else { x };
    let ghost ip = mant.take(d - s0);
    let ghost fp = if d - s0 < mant.len() { mant.skip(d - s0 + 1) } else { Seq::<char>::empty() };
    assert(ip =~= w@.subrange(s0 as int, d as int));
    assert(fp =~= w@.subrange(fs as int, x as int));
    if !all_digits_in(w, s0, d) || !all_digits_in(w, fs, x) || (d - s0) + (x - fs) == 0 {
        return None;
    }
    let (e_ok, e_neg, e_mag) = if x < len {
        assert(b.skip(x - s0 + 1) =~= w@.subrange(x + 1, len as int));
        exponent_at(w, x + 1)
    } else {
        (true, false, 0)
    };
    if !e_ok {
        return None;
    }
    let ds = digits_without_point(w, s0, d, fs, x);
    assert(ds@ == ip + fp);
    Some((ds, e_neg, e_mag, x - fs))
}

/// The exponent written in `w[lo..]`: whether it is one (an optional sign
/// and at least one digit), its sign and its magnitude capped at
/// `exp_cap()`.
fn exponent_at(w: &Vec<char>, lo: usize) -> (r: (bool, bool, u128))
    requires
        lo <= w@.len(),
    ensures
        r.0 == int_of(w@.subrange(lo as int, w@.len() as int)) is Some,
        r.0 ==> {
            let v = int_of(w@.subrange(lo as int, w@.len() as int)).unwrap();
            &&& r.2 <= exp_cap()
            &&& (r.2 < exp_cap() ==> v == if r.1 { -(r.2 as int) } else { r.2 as int })
            &&& (r.2 == exp_cap() && !r.1 ==> v >= exp_cap())
            &&& (r.2 == exp_cap() && r.1 ==> v <= -(exp_cap() as int))
        },
{
    let len = w.len();
    let ghost t = w@.subrange(lo as int, len as int);
    let mut e_neg = false;
    let mut es = lo;
    if es < len && w[es] == '-' {
        e_neg = true;
        es = es + 1;
    } else if es < len && w[es] == '+' {
        es = es + 1;
    }
    assert(sign_split(t).1 =~= w@.subrange(es as int, len as int));
    assert(sign_split(t).0 == e_neg);
    if es == len || !all_digits_in(w, es, len) {
        return (false, false, 0);
    }
    let e_mag = capped_digits(w, es, len, 100000000000000000000);
    (true, e_neg, e_mag)
}

/// The digits `w[s0..d]` followed by `w[fs..x]`.
fn digits_without_point(w: &Vec<char>, s0: usize, d: usize, fs: usize, x: usize) -> (ds: Vec<char>)
    requires
        s0 <= d <= fs <= x <= w@.len(),
        all_digits(w@.subrange(s0 as int, d as int)),
        all_digits(w@.subrange(fs as int, x as int)),
    ensures
        ds@ == w@.subrange(s0 as int, d as int) + w@.subrange(fs as int, x as int),
        all_digits(ds@),
{
    let mut ds: Vec<char> = Vec::new();
    let mut i = s0;
    while i < d
        invariant
            s0 <= i <= d <= x <= w@.len(),
            ds@ == w@.subrange(s0 as int, i as int),
        decreases d - i,
    {
        ds.push(w[i]);
        i = i + 1;
        assert(ds@ =~= w@.subrange(s0 as int, i as int));
    }
    let mut j = fs;
    while j < x
        invariant
            fs <= j <= x <= w@.len(),
            d <= x,
            ds@ == w@.subrange(s0 as int, d as int) + w@.subrange(fs as int, j as int),
        decreases x - j,
    {
        ds.push(w[j]);
        j = j + 1;
        assert(ds@ =~= w@.subrange(s0 as int, d as int) + w@.subrange(fs as int, j as int));
    }
    proof {
        let ip = w@.subrange(s0 as int, d as int);
        let fp = w@.subrange(fs as int, x as int);
        assert forall|q: int| 0 <= q < ds@.len() implies is_digit(#[trigger] ds@[q]) by {
            if q < ip.len() {
                assert(ds@[q] == ip[q]);
            } else {
                assert(ds@[q] == fp[q - ip.len()]);
            }
        }
    }
    ds
}

/// The percentage of `size` for the finite number with digits `ds`, sign
/// `neg` and exponent `e`, the exponent given as its sign and capped
/// magnitude.
#[verifier::rlimit(40)]
fn percent_from_parts(ds: &Vec<char>, neg: bool, e_neg: bool, e_mag: u128, fplen: usize, size: i32, Ghost(e): Ghost<int>)
    -> (r: i32)
    requires
        all_digits(ds@),
        e_mag <= exp_cap(),
        e_mag < exp_cap() ==> e == (if e_neg { -(e_mag as int) } else { e_mag as int }) - fplen,
        e_mag == exp_cap() && !e_neg ==> e >= exp_cap() - fplen,
        e_mag == exp_cap() && e_neg ==> e <= -(exp_cap() as int),
    ensures
        r == scaled_percent(size as int, neg, digits_value(ds@), e),
{
    let ghost dv = digits_value(ds@);
    if size == 0 {
        proof {
            assert(abs_of(0) == 0);
            if e - 2 >= 0 {
                assert(0 * dv * pow10((e - 2) as nat) == 0) by (nonlinear_arith);
            } else {
                lemma_pow10_pos((-(e - 2)) as nat);
                assert(0 * dv == 0) by (nonlinear_arith);
                lemma_basic_div(0, pow10((-(e - 2)) as nat) as int);
            }
        }
        return 0;
    }
    let m: u64 = if size < 0 { (0i64 - size as i64) as u64 } else { size as u64 };
    assert(m as nat == abs_of(size as int));
    let negative = (size < 0) != neg;
    let mag: u64 = if e_mag == 100000000000000000000 {
        if !e_neg {
            let z = capped_digits(ds, 0, ds.len(), 1);
            proof {
                assert(ds@.subrange(0, ds@.len() as int) =~= ds@);
                let e2 = e - 2;
                assert(e2 >= 10);
                lemma_pow10_mono(10, e2 as nat);
                lemma_pow10_ten();
                let pe = pow10(e2 as nat);
                if z == 0 {
                    assert(dv == 0);
                    assert((m as nat) * dv * pe == 0) by (nonlinear_arith) requires dv == 0;
                } else {
                    assert((m as nat) * dv * pe >= pe) by (nonlinear_arith) requires m >= 1, dv >= 1, pe >= 1;
                }
            }
            if z == 0 { 0 } else { 2147483648 }
        } else {
            let dl = ds.len();
            proof {
                assert(dl == ds@.len());
                let e2 = e - 2;
                let k = (-e2) as nat;
                let l = ds@.len();
                assert(k >= l + 10);
                lemma_digits_value_bound(ds@);
                lemma_pow10_ten();
                lemma_pow10_add(10, l);
                lemma_pow10_mono(10 + l, k);
                let pl = pow10(l);
                assert((m as nat) * dv < 10000000000 * pl) by (nonlinear_arith)
                    requires m <= 2147483648, dv < pl;
                assert(pow10(10 + l) == 10000000000 * pl);
                assert((m as nat) * dv >= 0) by (nonlinear_arith);
                lemma_basic_div(((m as nat) * dv) as int, pow10(k) as int);
            }
            0
        }
    } else {
        let ee: i128 = (if e_neg { 0 - (e_mag as i128) } else { e_mag as i128 }) - fplen as i128 - 2;
        scaled_capped(ds, m, ee)
    };
    assert(mag as nat == capped(scaled(m as nat, dv, e - 2)));
    if negative {
        if mag >= 2147483648 { i32::MIN } else { 0 - mag as i32 }
    } else {
        if mag > 2147483647 { i32::MAX } else { mag as i32 }
    }
}

/// The given percentage (see `percent_text`) of `size`, with the number
/// written as `w`.
pub fn percent_chars(w: &Vec<char>, size: i32) -> (r: Option<i32>)
    ensures
        r == percent_text(w@, size as int),
{
    proof {
        reveal_strlit("inf");
        reveal_strlit("INF");
        reveal_strlit("infinity");
        reveal_strlit("INFINITY");
        reveal_strlit("nan");
        reveal_strlit("NAN");
    }
    let len = w.len();
    let mut s0: usize = 0;
    let mut neg = false;
    if len > 0 && w[0] == '-' {
        neg = true;
        s0 = 1;
    } else if len > 0 && w[0] == '+' {
        s0 = 1;
    }
    assert(sign_split(w@).1 =~= w@.subrange(s0 as int, len as int));
    assert(sign_split(w@).0 == neg);
    if letters_at(w, s0, &chars_of("inf"), &chars_of("INF")) || letters_at(w, s0, &chars_of("infinity"), &chars_of("INFINITY")) {
        let v: i32 = if size == 0 { 0 } else if (size > 0) != neg { i32::MAX } else { i32::MIN };
        return Some(v);
    }
    if letters_at(w, s0, &chars_of("nan"), &chars_of("NAN")) {
        return Some(0);
    }
    match finite_parts(w, s0) {
        None => None,
        Some((ds, e_neg, e_mag, fplen)) => {
            let ghost e = finite_of(w@).unwrap().2;
            Some(percent_from_parts(&ds, neg, e_neg, e_mag, fplen, size, Ghost(e)))
        },
    }
}

} // verus!
