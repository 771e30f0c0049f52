//! Character-level helpers shared by the parsers: decimal numbers, whitespace
//! splitting, prefix/suffix tests and string building.
use vstd::prelude::*;
use vstd::string::*;

verus! {

// ---------------------------------------------------------------------------
// Specifications
// ---------------------------------------------------------------------------

/// Unicode `White_Space`, the set that `char::is_whitespace` accepts.
pub open spec fn is_ws(c: char) -> bool {
    ||| ('\u{9}' <= c && c <= '\u{d}')
    ||| c == ' '
    ||| c == '\u{85}'
    ||| c == '\u{a0}'
    ||| c == '\u{1680}'
    ||| ('\u{2000}' <= c && c <= '\u{200a}')
    ||| c == '\u{2028}'
    ||| c == '\u{2029}'
    ||| c == '\u{202f}'
    ||| c == '\u{205f}'
    ||| c == '\u{3000}'
}

pub open spec fn is_digit(c: char) -> bool {
    '0' <= c && c <= '9'
}

pub open spec fn digit_value(c: char) -> nat {
    ((c as int) - ('0' as int)) as nat
}

pub open spec fn all_digits(s: Seq<char>) -> bool {
    forall|i: int| 0 <= i < s.len() ==> is_digit(#[trigger] s[i])
}

/// Value of a string of decimal digits (most significant first).
pub open spec fn digits_value(s: Seq<char>) -> nat
    decreases s.len(),
{
    if s.len() == 0 {
        0
    } else {
        digits_value(s.drop_last()) * 10 + digit_value(s.last())
    }
}

/// A sign character at the front, if any, and the rest.
pub open spec fn sign_split(s: Seq<char>) -> (bool, Seq<char>) {
    if s.len() > 0 && s[0] == '-' {
        (true, s.drop_first())
    } else if s.len() > 0 && s[0] == '+' {
        (false, s.drop_first())
    } else {
        (false, s)
    }
}

/// The integer that `str::parse` reads from `s`: an optional sign and at least one digit.
pub open spec fn int_of(s: Seq<char>) -> Option<int> {
    let (neg, body) = sign_split(s);
    if body.len() > 0 && all_digits(body) {
        Some(if neg { -(digits_value(body) as int) } else { digits_value(body) as int })
    } else {
        None
    }
}

/// `str::parse::<i32>`: the integer, when it fits.
pub open spec fn i32_of(s: Seq<char>) -> Option<i32> {
    match int_of(s) {
        Some(v) => if i32::MIN <= v <= i32::MAX { Some(v as i32) } else { None },
        None => None,
    }
}

/// `str::parse::<u8>`: digits with an optional `+`, at most 255.
pub open spec fn u8_of(s: Seq<char>) -> Option<u8> {
    let body = if s.len() > 0 && s[0] == '+' { s.drop_first() } else { s };
    if body.len() > 0 && all_digits(body) && digits_value(body) <= 255 {
        Some(digits_value(body) as u8)
    } else {
        None
    }
}

/// Index of the first `'.'` in `s`, or `s.len()` when there is none.
pub open spec fn dot_index(s: Seq<char>) -> int
    decreases s.len(),
{
    if s.len() == 0 {
        0
    } else if s[0] == '.' {
        0
    } else {
        1 + dot_index(s.drop_first())
    }
}

pub open spec fn pow10(k: nat) -> nat
    decreases k,
{
    if k == 0 {
        1
    } else {
        10 * pow10((k - 1) as nat)
    }
}

/// `n / d` rounded toward zero, for `d > 0`.
pub open spec fn div_toward_zero(n: int, d: int) -> int {
    if n >= 0 {
        n / d
    } else {
        -((-n) / d)
    }
}

pub open spec fn clamp_i32(v: int) -> i32 {
    if v < i32::MIN {
        i32::MIN
    } else if v > i32::MAX {
        i32::MAX
    } else {
        v as i32
    }
}

pub open spec fn has_suffix(s: Seq<char>, suffix: Seq<char>) -> bool {
    suffix.len() <= s.len() && s.skip(s.len() - suffix.len()) == suffix
}

pub open spec fn has_prefix(s: Seq<char>, prefix: Seq<char>) -> bool {
    prefix.len() <= s.len() && s.take(prefix.len() as int) == prefix
}

/// `str::trim_end_matches(pattern)` for a non-empty pattern: every trailing copy removed.
pub open spec fn trim_end_all(s: Seq<char>, pat: Seq<char>) -> Seq<char>
    decreases s.len(),
{
    if pat.len() > 0 && has_suffix(s, pat) {
        trim_end_all(s.take(s.len() - pat.len()), pat)
    } else {
        s
    }
}

/// `str::trim`: leading and trailing whitespace removed.
pub open spec fn trim_start(s: Seq<char>) -> Seq<char>
    decreases s.len(),
{
    if s.len() > 0 && is_ws(s[0]) {
        trim_start(s.drop_first())
    } else {
        s
    }
}

pub open spec fn trim_end(s: Seq<char>) -> Seq<char>
    decreases s.len(),
{
    if s.len() > 0 && is_ws(s.last()) {
        trim_end(s.drop_last())
    } else {
        s
    }
}

pub open spec fn trim(s: Seq<char>) -> Seq<char> {
    trim_end(trim_start(s))
}

/// `str::split_whitespace`: the maximal runs of non-whitespace, in order.
pub open spec fn words(s: Seq<char>) -> Seq<Seq<char>>
    decreases s.len(),
{
    let t = trim_start(s);
    if t.len() == 0 {
        Seq::empty()
    } else {
        let w = word_len(t);
        proof {
            lemma_ws_len(s);
            lemma_ws_len(t);
            lemma_trim_start_head(s);
        }
        seq![t.take(w)] + words(t.skip(w))
    }
}

/// Length of the leading run of non-whitespace characters.
pub open spec fn word_len(s: Seq<char>) -> int
    decreases s.len(),
{
    if s.len() == 0 || is_ws(s[0]) {
        0
    } else {
        1 + word_len(s.drop_first())
    }
}

/// Decimal rendering of an integer, as `Display` writes it.
pub open spec fn nat_digits(n: nat) -> Seq<char>
    decreases n,
{
    if n < 10 {
        seq![digit_char(n)]
    } else {
        nat_digits(n / 10).push(digit_char(n % 10))
    }
}

pub open spec fn digit_char(d: nat) -> char {
    if d == 0 { '0' }
    else if d == 1 { '1' }
    else if d == 2 { '2' }
    else if d == 3 { '3' }
    else if d == 4 { '4' }
    else if d == 5 { '5' }
    else if d == 6 { '6' }
    else if d == 7 { '7' }
    else if d == 8 { '8' }
    else { '9' }
}

pub open spec fn int_text(v: int) -> Seq<char> {
    if v < 0 {
        seq!['-'] + nat_digits((-v) as nat)
    } else {
        nat_digits(v as nat)
    }
}

/// The parts joined with `sep` between neighbours, as `[..].join(sep)` does.
pub open spec fn join(parts: Seq<Seq<char>>, sep: Seq<char>) -> Seq<char>
    decreases parts.len(),
{
    if parts.len() == 0 {
        Seq::empty()
    } else if parts.len() == 1 {
        parts[0]
    } else {
        join(parts.drop_last(), sep) + sep + parts.last()
    }
}

// ---------------------------------------------------------------------------
// Lemmas
// ---------------------------------------------------------------------------

pub proof fn lemma_ws_len(s: Seq<char>)
    ensures
        trim_start(s).len() <= s.len(),
        0 <= word_len(s) <= s.len(),
        trim_end(s).len() <= s.len(),
    decreases s.len(),
{
    if s.len() > 0 {
        lemma_ws_len(s.drop_first());
        lemma_ws_len(s.drop_last());
    }
}

pub proof fn lemma_trim_start_head(s: Seq<char>)
    ensures
        trim_start(s).len() > 0 ==> !is_ws(trim_start(s)[0]) && word_len(trim_start(s)) >= 1,
    decreases s.len(),
{
    if s.len() > 0 && is_ws(s[0]) {
        lemma_trim_start_head(s.drop_first());
    } else if s.len() > 0 {
        lemma_ws_len(s.drop_first());
    }
}

pub proof fn lemma_digits_value_step(s: Seq<char>, k: int)
    requires
        0 <= k < s.len(),
    ensures
        digits_value(s.take(k + 1)) == digits_value(s.take(k)) * 10 + digit_value(s[k]),
{
    assert(s.take(k + 1).drop_last() =~= s.take(k));
}

/// At most `k` digits are worth less than `10^k`.
pub proof fn lemma_digits_value_bound(s: Seq<char>)
    requires
        all_digits(s),
    ensures
        digits_value(s) < pow10(s.len()),
    decreases s.len(),
{
    if s.len() > 0 {
        lemma_digits_value_bound(s.drop_last());
        assert(is_digit(s[s.len() - 1]));
    }
}

pub proof fn lemma_pow10_pos(k: nat)
    ensures
        pow10(k) >= 1,
    decreases k,
{
    if k > 0 {
        lemma_pow10_pos((k - 1) as nat);
    }
}

pub proof fn lemma_pow10_mono(a: nat, b: nat)
    requires
        a <= b,
    ensures
        pow10(a) <= pow10(b),
    decreases b,
{
    if a < b {
        lemma_pow10_mono(a, (b - 1) as nat);
        lemma_pow10_pos((b - 1) as nat);
    }
}

pub proof fn lemma_pow10_values()
    ensures
        pow10(2) == 100,
        pow10(3) == 1000,
        pow10(11) == 100000000000,
        pow10(18) == 1000000000000000000,
{
    reveal_with_fuel(pow10, 19);
}

// ---------------------------------------------------------------------------
// String conversion
// ---------------------------------------------------------------------------

/// The characters of `s`, in order.
pub fn chars_of(s: &str) -> (out: Vec<char>)
    ensures
        out@ == s@,
{
    let n = s.unicode_len();
    let mut out: Vec<char> = Vec::new();
    let mut i: usize = 0;
    while i < n
        invariant
            n == s@.len(),
            i <= n,
            out@ == s@.take(i as int),
        decreases n - i,
    {
        let c = s.get_char(i);
        out.push(c);
        i = i + 1;
        assert(out@ =~= s@.take(i as int));
    }
    assert(s@.take(n as int) =~= s@);
    out
}

/// `String::push`: appends one character.
#[verifier::external_body]
pub(crate) fn push_char(s: &mut String, c: char)
    ensures
        final(s)@ == old(s)@.push(c),
{
    s.push(c);
}

/// A `String` holding the characters `v[lo..hi]`.
pub fn string_of_range(v: &Vec<char>, lo: usize, hi: usize) -> (out: String)
    requires
        lo <= hi <= v@.len(),
    ensures
        out@ == v@.subrange(lo as int, hi as int),
{
    let mut out = String::new();
    let mut i = lo;
    while i < hi
        invariant
            lo <= i <= hi <= v@.len(),
            out@ == v@.subrange(lo as int, i as int),
        decreases hi - i,
    {
        push_char(&mut out, v[i]);
        i = i + 1;
        assert(out@ =~= v@.subrange(lo as int, i as int));
    }
    out
}

/// A `String` holding the characters of `v`.
pub fn string_of(v: &Vec<char>) -> (out: String)
    ensures
        out@ == v@,
{
    let out = string_of_range(v, 0, v.len());
    assert(v@.subrange(0, v@.len() as int) =~= v@);
    out
}

/// Appends `t` to `s`.
pub fn append_str(s: &mut String, t: &str)
    ensures
        final(s)@ == old(s)@ + t@,
{
    s.append(t);
}

/// Appends the decimal rendering of `n` to `s`.
pub fn append_nat128(s: &mut String, n: u128)
    ensures
        final(s)@ == old(s)@ + nat_digits(n as nat),
    decreases n,
{
    let ghost start = s@;
    if n >= 10 {
        append_nat128(s, n / 10);
        push_char(s, digit_of((n % 10) as u64));
        assert(nat_digits(n as nat) == nat_digits((n / 10) as nat).push(digit_char((n % 10) as nat)));
        assert(s@ =~= start + nat_digits(n as nat));
    } else {
        push_char(s, digit_of(n as u64));
        assert(s@ =~= start + nat_digits(n as nat));
    }
}

/// `true` or `false`, as `bool` is displayed.
pub open spec fn bool_text(b: bool) -> Seq<char> {
    if b { "true"@ } else { "false"@ }
}

/// Appends `b` as it is displayed.
pub fn append_bool(s: &mut String, b: bool)
    ensures
        final(s)@ == old(s)@ + bool_text(b),
{
    if b { append_str(s, "true") } else { append_str(s, "false") }
}

/// Appends the decimal rendering of `v` to `s`.
pub fn append_int(s: &mut String, v: i64)
    ensures
        final(s)@ == old(s)@ + int_text(v as int),
{
    let ghost start = s@;
    if v < 0 {
        push_char(s, '-');
        let m: u64 = if v == i64::MIN { 9223372036854775808u64 } else { (-v) as u64 };
        append_nat(s, m);
        assert(s@ =~= start + int_text(v as int));
    } else {
        append_nat(s, v as u64);
    }
}

/// Appends the decimal rendering of `n` to `s`.
pub fn append_nat(s: &mut String, n: u64)
    ensures
        final(s)@ == old(s)@ + nat_digits(n as nat),
    decreases n,
{
    let ghost start = s@;
    if n >= 10 {
        append_nat(s, n / 10);
        push_char(s, digit_of(n % 10));
        assert(nat_digits(n as nat) == nat_digits((n / 10) as nat).push(digit_char((n % 10) as nat)));
        assert(s@ =~= start + nat_digits(n as nat));
    } else {
        push_char(s, digit_of(n));
        assert(s@ =~= start + nat_digits(n as nat));
    }
}

fn digit_of(d: u64) -> (c: char)
    requires
        d < 10,
    ensures
        c == digit_char(d as nat),
{
    if d == 0 { '0' }
    else if d == 1 { '1' }
    else if d == 2 { '2' }
    else if d == 3 { '3' }
    else if d == 4 { '4' }
    else if d == 5 { '5' }
    else if d == 6 { '6' }
    else if d == 7 { '7' }
    else if d == 8 { '8' }
    else { '9' }
}

// ---------------------------------------------------------------------------
// Character tests
// ---------------------------------------------------------------------------

pub fn is_ws_char(c: char) -> (b: bool)
    ensures
        b == is_ws(c),
{
    ('\u{9}' <= c && c <= '\u{d}') || c == ' ' || c == '\u{85}' || c == '\u{a0}' || c == '\u{1680}'
        || ('\u{2000}' <= c && c <= '\u{200a}') || c == '\u{2028}' || c == '\u{2029}'
        || c == '\u{202f}' || c == '\u{205f}' || c == '\u{3000}'
}

pub fn is_digit_char(c: char) -> (b: bool)
    ensures
        b == is_digit(c),
{
    '0' <= c && c <= '9'
}

fn digit_num(c: char) -> (d: u64)
    requires
        is_digit(c),
    ensures
        d as nat == digit_value(c),
        d < 10,
{
    (c as u32 - '0' as u32) as u64
}

// ---------------------------------------------------------------------------
// Numbers
// ---------------------------------------------------------------------------

/// Value of `v[lo..hi]`, a run of at most eighteen decimal digits.
pub fn digits_to_u64(v: &Vec<char>, lo: usize, hi: usize) -> (n: u64)
    requires
        lo <= hi <= v@.len(),
        hi - lo <= 18,
        all_digits(v@.subrange(lo as int, hi as int)),
    ensures
        n as nat == digits_value(v@.subrange(lo as int, hi as int)),
{
    let ghost w = v@.subrange(lo as int, hi as int);
    let mut acc: u64 = 0;
    let mut i = lo;
    while i < hi
        invariant
            lo <= i <= hi <= v@.len(),
            hi - lo <= 18,
            w == v@.subrange(lo as int, hi as int),
            all_digits(w),
            acc as nat == digits_value(w.take(i - lo)),
            acc < pow10((i - lo) as nat),
        decreases hi - i,
    {
        assert(is_digit(w[i - lo]));
        assert(w[i - lo] == v@[i as int]);
        let d = digit_num(v[i]);
        proof {
            lemma_digits_value_step(w, i - lo);
            lemma_pow10_mono((i - lo + 1) as nat, 18);
            lemma_pow10_values();
        }
        acc = acc * 10 + d;
        i = i + 1;
    }
    assert(w.take(hi - lo) =~= w);
    acc
}

/// Position of the first `c` in `v[lo..]`, or `v.len()`.
pub fn find_char(v: &Vec<char>, lo: usize, c: char) -> (k: usize)
    requires
        lo <= v@.len(),
    ensures
        lo <= k <= v@.len(),
        forall|j: int| lo <= j < k ==> v@[j] != c,
        k < v@.len() ==> v@[k as int] == c,
{
    let mut k = lo;
    while k < v.len()
        invariant
            lo <= k <= v@.len(),
            forall|j: int| lo <= j < k ==> v@[j] != c,
        decreases v@.len() - k,
    {
        if v[k] == c {
            return k;
        }
        k = k + 1;
    }
    k
}

pub proof fn lemma_dot_index(s: Seq<char>, k: int)
    requires
        0 <= k <= s.len(),
        forall|j: int| 0 <= j < k ==> s[j] != '.',
        k < s.len() ==> s[k] == '.',
    ensures
        dot_index(s) == k,
    decreases k,
{
    if k > 0 {
        lemma_dot_index(s.drop_first(), k - 1);
    }
}

/// Whether `v[lo..hi]` consists of digits only.
pub fn all_digits_in(v: &Vec<char>, lo: usize, hi: usize) -> (b: bool)
    requires
        lo <= hi <= v@.len(),
    ensures
        b == all_digits(v@.subrange(lo as int, hi as int)),
{
    let mut i = lo;
    while i < hi
        invariant
            lo <= i <= hi <= v@.len(),
            forall|j: int| lo <= j < i ==> is_digit(v@[j]),
        decreases hi - i,
    {
        if !is_digit_char(v[i]) {
            assert(!is_digit(v@.subrange(lo as int, hi as int)[i - lo]));
            return false;
        }
        i = i + 1;
    }
    assert forall|j: int| 0 <= j < hi - lo implies is_digit(#[trigger] v@.subrange(lo as int, hi as int)[j]) by {
        assert(v@.subrange(lo as int, hi as int)[j] == v@[lo + j]);
    }
    true
}

/// `str::parse::<i32>` on the characters of `v`.
pub fn parse_i32(v: &Vec<char>) -> (r: Option<i32>)
    ensures
        r == i32_of(v@),
{
    let n = v.len();
    let mut start: usize = 0;
    let mut neg = false;
    if n > 0 && v[0] == '-' {
        neg = true;
        start = 1;
    } else if n > 0 && v[0] == '+' {
        start = 1;
    }
    let ghost body = sign_split(v@).1;
    assert(body =~= v@.subrange(start as int, n as int));
    if start == n {
        return None;
    }
    if !all_digits_in(v, start, n) {
        return None;
    }
    // Read at most eleven digits; anything longer is out of range unless it has leading zeros,
    // so skip those first.
    let mut first = start;
    while first + 1 < n && v[first] == '0'
        invariant
            start <= first < n,
            n == v@.len(),
            body == v@.subrange(start as int, n as int),
            all_digits(body),
            digits_value(body) == digits_value(v@.subrange(first as int, n as int)),
        decreases n - first,
    {
        proof { lemma_leading_zero(v@.subrange(first as int, n as int)); }
        assert(v@.subrange(first as int, n as int).drop_first() =~= v@.subrange(first + 1, n as int));
        first = first + 1;
    }
    assert(all_digits(v@.subrange(first as int, n as int))) by {
        assert forall|j: int| 0 <= j < n - first implies is_digit(#[trigger] v@.subrange(first as int, n as int)[j]) by {
            assert(v@.subrange(first as int, n as int)[j] == body[first - start + j]);
        }
    }
    if n - first > 11 {
        proof {
            let t = v@.subrange(first as int, n as int);
            assert(t[0] != '0');
            assert(is_digit(t[0]));
            lemma_digits_value_leading(t);
            lemma_pow10_mono(11, (t.len() - 1) as nat);
            lemma_pow10_values();
        }
        return None;
    }
    let m = digits_to_u64(v, first, n);
    if neg {
        if m <= 2147483648 {
            if m == 2147483648 {
                Some(i32::MIN)
            } else {
                Some(-(m as i32))
            }
        } else {
            None
        }
    } else {
        if m <= 2147483647 {
            Some(m as i32)
        } else {
            None
        }
    }
}

pub proof fn lemma_leading_zero(s: Seq<char>)
    requires
        s.len() > 1,
        s[0] == '0',
    ensures
        digits_value(s) == digits_value(s.drop_first()),
    decreases s.len(),
{
    if s.len() > 2 {
        lemma_leading_zero(s.drop_last());
        assert(s.drop_last().drop_first() =~= s.drop_first().drop_last());
        assert(s.drop_first().last() == s.last());
    } else {
        let a = s.drop_last();
        assert(a.drop_last() =~= Seq::<char>::empty());
        assert(digits_value(a) == digits_value(a.drop_last()) * 10 + digit_value(a.last()));
        assert(digit_value(a.last()) == 0);
        let b = s.drop_first();
        assert(b.drop_last() =~= Seq::<char>::empty());
        assert(digits_value(b) == digits_value(b.drop_last()) * 10 + digit_value(b.last()));
        assert(b.last() == s.last());
    }
}

/// A digit string with a non-zero leading digit is worth at least `10^(len-1)`.
pub proof fn lemma_digits_value_leading(s: Seq<char>)
    requires
        s.len() >= 1,
        all_digits(s),
        s[0] != '0',
    ensures
        digits_value(s) >= pow10((s.len() - 1) as nat),
    decreases s.len(),
{
    assert(is_digit(s[0]));
    if s.len() > 1 {
        assert(all_digits(s.drop_last())) by {
            assert forall|j: int| 0 <= j < s.len() - 1 implies is_digit(#[trigger] s.drop_last()[j]) by {
                assert(s.drop_last()[j] == s[j]);
            }
        }
        lemma_digits_value_leading(s.drop_last());
    } else {
        assert(s.drop_last() =~= Seq::<char>::empty());
    }
}

/// `str::parse::<u8>` on `v[lo..hi]`.
pub fn parse_u8_range(v: &Vec<char>, lo: usize, hi: usize) -> (r: Option<u8>)
    requires
        lo <= hi <= v@.len(),
    ensures
        r == u8_of(v@.subrange(lo as int, hi as int)),
{
    let ghost s = v@.subrange(lo as int, hi as int);
    let mut start = lo;
    if lo < hi && v[lo] == '+' {
        start = lo + 1;
    }
    let ghost body = if s.len() > 0 && s[0] == '+' { s.drop_first() } else { s };
    assert(body =~= v@.subrange(start as int, hi as int));
    if start == hi || !all_digits_in(v, start, hi) {
        return None;
    }
    let mut first = start;
    while first + 1 < hi && v[first] == '0'
        invariant
            start <= first < hi <= v@.len(),
            body == v@.subrange(start as int, hi as int),
            all_digits(body),
            digits_value(body) == digits_value(v@.subrange(first as int, hi as int)),
        decreases hi - first,
    {
        proof { lemma_leading_zero(v@.subrange(first as int, hi as int)); }
        assert(v@.subrange(first as int, hi as int).drop_first() =~= v@.subrange(first + 1, hi as int));
        first = first + 1;
    }
    assert(all_digits(v@.subrange(first as int, hi as int))) by {
        assert forall|j: int| 0 <= j < hi - first implies is_digit(#[trigger] v@.subrange(first as int, hi as int)[j]) by {
            assert(v@.subrange(first as int, hi as int)[j] == body[first - start + j]);
        }
    }
    if hi - first > 3 {
        proof {
            let t = v@.subrange(first as int, hi as int);
            lemma_digits_value_leading(t);
            lemma_pow10_mono(3, (t.len() - 1) as nat);
            lemma_pow10_values();
        }
        return None;
    }
    let m = digits_to_u64(v, first, hi);
    if m <= 255 {
        Some(m as u8)
    } else {
        None
    }
}

// ---------------------------------------------------------------------------
// Words
// ---------------------------------------------------------------------------

pub proof fn lemma_words_ws(s: Seq<char>)
    requires
        s.len() > 0,
        is_ws(s[0]),
    ensures
        words(s) == words(s.drop_first()),
{
}

pub proof fn lemma_word_len_run(s: Seq<char>, k: int)
    requires
        0 <= k <= s.len(),
        forall|j: int| 0 <= j < k ==> !is_ws(#[trigger] s[j]),
        k == s.len() || is_ws(s[k]),
    ensures
        word_len(s) == k,
    decreases k,
{
    if k > 0 {
        lemma_word_len_run(s.drop_first(), k - 1);
    }
}

pub proof fn lemma_words_word(s: Seq<char>, k: int)
    requires
        0 < k <= s.len(),
        forall|j: int| 0 <= j < k ==> !is_ws(#[trigger] s[j]),
        k == s.len() || is_ws(s[k]),
    ensures
        words(s) == seq![s.take(k)] + words(s.skip(k)),
{
    lemma_word_len_run(s, k);
    assert(!is_ws(s[0]));
}

/// `str::split_whitespace` on the characters of `v`.
pub fn split_words(v: &Vec<char>) -> (out: Vec<Vec<char>>)
    ensures
        out@.len() == words(v@).len(),
        forall|i: int| 0 <= i < out@.len() ==> #[trigger] out@[i]@ == words(v@)[i],
{
    let n = v.len();
    let mut out: Vec<Vec<char>> = Vec::new();
    let ghost mut acc: Seq<Seq<char>> = Seq::empty();
    let mut i: usize = 0;
    assert(v@.skip(0) =~= v@);
    while i < n
        invariant
            n == v@.len(),
            i <= n,
            out@.len() == acc.len(),
            forall|q: int| 0 <= q < out@.len() ==> #[trigger] out@[q]@ == acc[q],
            acc + words(v@.skip(i as int)) == words(v@),
        decreases n - i,
    {
        if is_ws_char(v[i]) {
            proof {
                lemma_words_ws(v@.skip(i as int));
                assert(v@.skip(i as int).drop_first() =~= v@.skip(i + 1));
            }
            i = i + 1;
        } else {
            let mut j = i;
            let mut w: Vec<char> = Vec::new();
            while j < n && !is_ws_char(v[j])
                invariant
                    i <= j <= n,
                    n == v@.len(),
                    w@ == v@.subrange(i as int, j as int),
                    forall|q: int| i <= q < j ==> !is_ws(#[trigger] v@[q]),
                decreases n - j,
            {
                w.push(v[j]);
                j = j + 1;
                assert(w@ =~= v@.subrange(i as int, j as int));
            }
            proof {
                let t = v@.skip(i as int);
                assert forall|q: int| 0 <= q < j - i implies !is_ws(#[trigger] t[q]) by {
                    assert(t[q] == v@[i + q]);
                }
                assert(!is_ws(v@[i as int]));
                lemma_words_word(t, j - i);
                assert(t.take(j - i) =~= w@);
                assert(t.skip(j - i) =~= v@.skip(j as int));
                assert(acc.push(w@) + words(v@.skip(j as int)) =~= acc + words(t));
                acc = acc.push(w@);
            }
            out.push(w);
            i = j;
        }
    }
    assert(v@.skip(n as int) =~= Seq::<char>::empty());
    assert(words(Seq::<char>::empty()) =~= Seq::<Seq<char>>::empty());
    assert(acc + Seq::<Seq<char>>::empty() =~= acc);
    out
}

// ---------------------------------------------------------------------------
// Affixes
// ---------------------------------------------------------------------------

/// Whether `v` ends with `suffix`.
pub fn ends_with(v: &Vec<char>, suffix: &Vec<char>) -> (b: bool)
    ensures
        b == has_suffix(v@, suffix@),
{
    assert(v@.take(v@.len() as int) =~= v@);
    ends_with_at(v, v.len(), suffix)
}

/// Whether `v[..hi]` ends with `suffix`.
pub fn ends_with_at(v: &Vec<char>, hi: usize, suffix: &Vec<char>) -> (b: bool)
    requires
        hi <= v@.len(),
    ensures
        b == has_suffix(v@.take(hi as int), suffix@),
{
    if suffix.len() > hi {
        return false;
    }
    let off = hi - suffix.len();
    let mut i: usize = 0;
    while i < suffix.len()
        invariant
            off + suffix@.len() == hi,
            hi <= v@.len(),
            i <= suffix@.len(),
            forall|q: int| 0 <= q < i ==> v@[off + q] == suffix@[q],
        decreases suffix@.len() - i,
    {
        if v[off + i] != suffix[i] {
            assert(v@.take(hi as int).skip(off as int)[i as int] != suffix@[i as int]);
            return false;
        }
        i = i + 1;
    }
    assert(v@.take(hi as int).skip(off as int) =~= suffix@);
    true
}

/// Whether `v` starts with `prefix`.
pub fn starts_with(v: &Vec<char>, prefix: &Vec<char>) -> (b: bool)
    ensures
        b == has_prefix(v@, prefix@),
{
    if prefix.len() > v.len() {
        return false;
    }
    let mut i: usize = 0;
    while i < prefix.len()
        invariant
            prefix@.len() <= v@.len(),
            i <= prefix@.len(),
            forall|q: int| 0 <= q < i ==> v@[q] == prefix@[q],
        decreases prefix@.len() - i,
    {
        if v[i] != prefix[i] {
            assert(v@.take(prefix@.len() as int)[i as int] != prefix@[i as int]);
            return false;
        }
        i = i + 1;
    }
    assert(v@.take(prefix@.len() as int) =~= prefix@);
    true
}

/// Length of `v` once every trailing copy of a non-empty `pat` is removed.
pub fn trim_end_all_len(v: &Vec<char>, pat: &Vec<char>) -> (k: usize)
    requires
        pat@.len() > 0,
    ensures
        k <= v@.len(),
        v@.take(k as int) == trim_end_all(v@, pat@),
{
    let mut k = v.len();
    assert(v@.take(k as int) =~= v@);
    while ends_with_at(v, k, pat)
        invariant
            k <= v@.len(),
            pat@.len() > 0,
            trim_end_all(v@.take(k as int), pat@) == trim_end_all(v@, pat@),
        decreases k,
    {
        assert(v@.take(k as int).take(k - pat@.len()) =~= v@.take(k - pat@.len()));
        k = k - pat.len();
    }
    k
}

/// Whether two character vectors are equal.
pub fn chars_eq(a: &Vec<char>, b: &Vec<char>) -> (r: bool)
    ensures
        r == (a@ == b@),
{
    if a.len() != b.len() {
        return false;
    }
    let mut i: usize = 0;
    while i < a.len()
        invariant
            a@.len() == b@.len(),
            i <= a@.len(),
            forall|q: int| 0 <= q < i ==> a@[q] == b@[q],
        decreases a@.len() - i,
    {
        if a[i] != b[i] {
            return false;
        }
        i = i + 1;
    }
    assert(a@ =~= b@);
    true
}

/// Whether the string `a` equals the characters `b`.
pub fn str_eq(a: &str, b: &Vec<char>) -> (r: bool)
    ensures
        r == (a@ == b@),
{
    let ac = chars_of(a);
    chars_eq(&ac, b)
}

// ---------------------------------------------------------------------------
// Replacement
// ---------------------------------------------------------------------------

/// `str::replace(pat, rep)` for a non-empty `pat`: occurrences found left to
/// right, without overlap, each replaced by `rep`.
pub open spec fn replace_all(s: Seq<char>, pat: Seq<char>, rep: Seq<char>) -> Seq<char>
    decreases s.len(),
{
    if pat.len() == 0 || s.len() < pat.len() {
        s
    } else if s.take(pat.len() as int) == pat {
        rep + replace_all(s.skip(pat.len() as int), pat, rep)
    } else {
        seq![s[0]] + replace_all(s.drop_first(), pat, rep)
    }
}

/// Whether `v[i..]` starts with `pat`.
fn matches_at(v: &Vec<char>, i: usize, pat: &Vec<char>) -> (b: bool)
    requires
        i <= v@.len(),
    ensures
        b == (pat@.len() <= v@.len() - i && v@.skip(i as int).take(pat@.len() as int) == pat@),
{
    if pat.len() > v.len() - i {
        return false;
    }
    let mut j: usize = 0;
    while j < pat.len()
        invariant
            pat@.len() <= v@.len() - i,
            i + pat@.len() <= v@.len(),
            v@.len() <= usize::MAX,
            j <= pat@.len(),
            forall|q: int| 0 <= q < j ==> v@[i + q] == pat@[q],
        decreases pat@.len() - j,
    {
        if v[i + j] != pat[j] {
            assert(v@.skip(i as int).take(pat@.len() as int)[j as int] != pat@[j as int]);
            return false;
        }
        j = j + 1;
    }
    assert(v@.skip(i as int).take(pat@.len() as int) =~= pat@);
    true
}

/// `str::replace` on characters, for a non-empty pattern.
pub fn replace_chars(v: &Vec<char>, pat: &Vec<char>, rep: &Vec<char>) -> (out: Vec<char>)
    requires
        pat@.len() > 0,
    ensures
        out@ == replace_all(v@, pat@, rep@),
{
    let mut out: Vec<char> = Vec::new();
    let mut i: usize = 0;
    assert(v@.skip(0) =~= v@);
    while i < v.len()
        invariant
            i <= v@.len(),
            pat@.len() > 0,
            out@ + replace_all(v@.skip(i as int), pat@, rep@) == replace_all(v@, pat@, rep@),
        decreases v@.len() - i,
    {
        let ghost t = v@.skip(i as int);
        if matches_at(v, i, pat) {
            let mut k: usize = 0;
            let ghost before = out@;
            while k < rep.len()
                invariant
                    k <= rep@.len(),
                    out@ == before + rep@.take(k as int),
                decreases rep@.len() - k,
            {
                out.push(rep[k]);
                k = k + 1;
                assert(out@ =~= before + rep@.take(k as int));
            }
            assert(rep@.take(rep@.len() as int) =~= rep@);
            assert(t.skip(pat@.len() as int) =~= v@.skip(i + pat@.len()));
            assert(before + (rep@ + replace_all(t.skip(pat@.len() as int), pat@, rep@))
                =~= out@ + replace_all(v@.skip(i + pat@.len()), pat@, rep@));
            i = i + pat.len();
        } else {
            let ghost before = out@;
            out.push(v[i]);
            proof {
                if t.len() >= pat@.len() {
                    assert(t.drop_first() =~= v@.skip(i + 1));
                    assert(before + (seq![t[0]] + replace_all(t.drop_first(), pat@, rep@))
                        =~= out@ + replace_all(v@.skip(i + 1), pat@, rep@));
                } else {
                    // Too short for another match: the rest is copied as is.
                    assert(replace_all(t, pat@, rep@) == t);
                    assert(t.drop_first().len() < pat@.len());
                    assert(replace_all(t.drop_first(), pat@, rep@) == t.drop_first());
                    assert(t.drop_first() =~= v@.skip(i + 1));
                    assert(before + t =~= out@ + v@.skip(i + 1));
                }
            }
            i = i + 1;
        }
    }
    assert(v@.skip(v@.len() as int) =~= Seq::<char>::empty());
    assert(out@ + Seq::<char>::empty() =~= out@);
    out
}

/// `c` occurs nowhere in `s`.
pub open spec fn lacks(s: Seq<char>, c: char) -> bool {
    forall|i: int| 0 <= i < s.len() ==> s[i] != c
}

/// Text in which the pattern's first character never occurs is left as it is.
pub proof fn lemma_replace_all_absent(s: Seq<char>, pat: Seq<char>, rep: Seq<char>)
    requires
        pat.len() > 0,
        lacks(s, pat[0]),
    ensures
        replace_all(s, pat, rep) == s,
    decreases s.len(),
{
    if s.len() >= pat.len() {
        assert(s.take(pat.len() as int)[0] == s[0]);
        assert(s.take(pat.len() as int) != pat);
        assert(lacks(s.drop_first(), pat[0])) by {
            assert forall|i: int| 0 <= i < s.drop_first().len() implies s.drop_first()[i] != pat[0] by {
                assert(s.drop_first()[i] == s[i + 1]);
            }
        }
        lemma_replace_all_absent(s.drop_first(), pat, rep);
        assert(seq![s[0]] + s.drop_first() =~= s);
    }
}

/// Replacing a two-character pattern in two pieces joined where no occurrence
/// can straddle the join (the first piece does not end with the pattern's
/// first character) is replacing in each piece.
pub proof fn lemma_replace_all_split(x: Seq<char>, y: Seq<char>, pat: Seq<char>, rep: Seq<char>)
    requires
        pat.len() == 2,
        x.len() > 0 ==> x.last() != pat[0],
    ensures
        replace_all(x + y, pat, rep) == replace_all(x, pat, rep) + replace_all(y, pat, rep),
    decreases x.len(),
{
    let xy = x + y;
    if x.len() == 0 {
        assert(xy =~= y);
        assert(replace_all(x, pat, rep) + replace_all(y, pat, rep) =~= replace_all(y, pat, rep));
    } else if x.len() == 1 {
        assert(replace_all(x, pat, rep) == x);
        if xy.len() >= 2 {
            assert(xy.take(2)[0] == x[0]);
            assert(xy.take(2) != pat);
            assert(xy.drop_first() =~= y);
            assert(seq![xy[0]] =~= x);
        } else {
            assert(y.len() == 0);
            assert(replace_all(y, pat, rep) == y);
            assert(xy =~= x);
            assert(x + y =~= x);
        }
    } else {
        assert(xy.take(2) =~= x.take(2));
        if x.take(2) == pat {
            assert(xy.skip(2) =~= x.skip(2) + y);
            if x.skip(2).len() > 0 {
                assert(x.skip(2).last() == x.last());
            }
            lemma_replace_all_split(x.skip(2), y, pat, rep);
            assert(rep + (replace_all(x.skip(2), pat, rep) + replace_all(y, pat, rep))
                =~= (rep + replace_all(x.skip(2), pat, rep)) + replace_all(y, pat, rep));
        } else {
            assert(xy.drop_first() =~= x.drop_first() + y);
            assert(x.drop_first().last() == x.last());
            lemma_replace_all_split(x.drop_first(), y, pat, rep);
            assert(xy[0] == x[0]);
            assert(seq![x[0]] + (replace_all(x.drop_first(), pat, rep) + replace_all(y, pat, rep))
                =~= (seq![x[0]] + replace_all(x.drop_first(), pat, rep)) + replace_all(y, pat, rep));
        }
    }
}

/// With a replacement that does not end with `c`, text that does not end with
/// `c` still does not after the replacement.
pub proof fn lemma_replace_all_last(x: Seq<char>, pat: Seq<char>, rep: Seq<char>, c: char)
    requires
        pat.len() > 0,
        rep.len() > 0,
        rep.last() != c,
        x.len() > 0,
        x.last() != c,
    ensures
        replace_all(x, pat, rep).len() > 0,
        replace_all(x, pat, rep).last() != c,
    decreases x.len(),
{
    if x.len() < pat.len() {
    } else if x.take(pat.len() as int) == pat {
        let rest = x.skip(pat.len() as int);
        if rest.len() == 0 {
            assert(replace_all(rest, pat, rep) == rest);
            assert(rep + rest =~= rep);
        } else {
            assert(rest.last() == x.last());
            lemma_replace_all_last(rest, pat, rep, c);
        }
    } else {
        let rest = x.drop_first();
        if rest.len() == 0 {
            assert(replace_all(rest, pat, rep) == rest);
            assert(seq![x[0]] + rest =~= seq![x[0]]);
        } else {
            assert(rest.last() == x.last());
            lemma_replace_all_last(rest, pat, rep, c);
        }
    }
}

proof fn lemma_trim_start_skip(s: Seq<char>, a: int)
    requires
        0 <= a <= s.len(),
        forall|j: int| 0 <= j < a ==> is_ws(s[j]),
        a == s.len() || !is_ws(s[a]),
    ensures
        trim_start(s) == s.skip(a),
    decreases a,
{
    if a == 0 {
        assert(s.skip(0) =~= s);
    } else {
        let t = s.drop_first();
        assert forall|j: int| 0 <= j < a - 1 implies is_ws(t[j]) by { assert(t[j] == s[j + 1]); }
        if a - 1 < t.len() { assert(t[a - 1] == s[a]); }
        lemma_trim_start_skip(t, a - 1);
        assert(t.skip(a - 1) =~= s.skip(a));
    }
}

proof fn lemma_trim_end_take(s: Seq<char>, b: int)
    requires
        0 <= b <= s.len(),
        forall|j: int| b <= j < s.len() ==> is_ws(s[j]),
        b == 0 || !is_ws(s[b - 1]),
    ensures
        trim_end(s) == s.take(b),
    decreases s.len() - b,
{
    if b == s.len() {
        assert(s.take(b) =~= s);
    } else {
        let t = s.drop_last();
        assert forall|j: int| b <= j < t.len() implies is_ws(t[j]) by { assert(t[j] == s[j]); }
        if b > 0 { assert(t[b - 1] == s[b - 1]); }
        lemma_trim_end_take(t, b);
        assert(t.take(b) =~= s.take(b));
    }
}

/// The characters of `v[lo..hi]` without leading and trailing whitespace.
pub fn trim_range(v: &Vec<char>, lo: usize, hi: usize) -> (out: Vec<char>)
    requires
        lo <= hi <= v@.len(),
    ensures
        out@ == trim(v@.subrange(lo as int, hi as int)),
{
    let ghost s = v@.subrange(lo as int, hi as int);
    let mut a = lo;
    while a < hi && is_ws_char(v[a])
        invariant
            lo <= a <= hi <= v@.len(),
            s == v@.subrange(lo as int, hi as int),
            forall|j: int| 0 <= j < a - lo ==> is_ws(s[j]),
        decreases hi - a,
    {
        a = a + 1;
    }
    proof { lemma_trim_start_skip(s, a - lo); }
    let ghost t = s.skip(a - lo);
    let mut b = hi;
    while b > a && is_ws_char(v[b - 1])
        invariant
            lo <= a <= b <= hi <= v@.len(),
            s == v@.subrange(lo as int, hi as int),
            t == s.skip(a - lo),
            forall|j: int| b - a <= j < t.len() ==> is_ws(t[j]),
        decreases b - a,
    {
        b = b - 1;
    }
    proof { lemma_trim_end_take(t, b - a); }
    let mut out: Vec<char> = Vec::new();
    let mut k = a;
    while k < b
        invariant
            lo <= a <= k <= b <= hi <= v@.len(),
            out@ == v@.subrange(a as int, k as int),
        decreases b - k,
    {
        out.push(v[k]);
        k = k + 1;
        assert(out@ =~= v@.subrange(a as int, k as int));
    }
    assert(t.take(b - a) =~= v@.subrange(a as int, b as int));
    out
}

/// `t` occurs in `s` as a contiguous run.
pub open spec fn contains_seq(s: Seq<char>, t: Seq<char>) -> bool {
    exists|i: int| 0 <= i && i + t.len() <= s.len() && #[trigger] s.subrange(i, i + t.len()) == t
}

/// Whether `t` occurs in `v`.
pub fn contains_chars(v: &Vec<char>, t: &Vec<char>) -> (b: bool)
    ensures
        b == contains_seq(v@, t@),
{
    if t.len() > v.len() {
        proof {
            if contains_seq(v@, t@) {
                let i = choose|i: int| 0 <= i && i + t@.len() <= v@.len() && #[trigger] v@.subrange(i, i + t@.len()) == t@;
            }
        }
        return false;
    }
    let n = v.len();
    let last = n - t.len();
    let mut i: usize = 0;
    loop
        invariant
            n == v@.len(),
            t@.len() <= v@.len(),
            last == v@.len() - t@.len(),
            i <= last,
            forall|j: int| 0 <= j < i ==> #[trigger] v@.subrange(j, j + t@.len()) != t@,
        decreases last - i,
    {
        let mut k: usize = 0;
        let mut same = true;
        while k < t.len()
            invariant
                n == v@.len(),
                t@.len() <= v@.len(),
                i <= last,
                last == v@.len() - t@.len(),
                k <= t@.len(),
                same == forall|q: int| 0 <= q < k ==> v@[i + q] == t@[q],
            decreases t@.len() - k,
        {
            if v[i + k] != t[k] {
                same = false;
            }
            k = k + 1;
        }
        if same {
            assert(v@.subrange(i as int, i + t@.len()) =~= t@);
            return true;
        }
        proof {
            let q = choose|q: int| 0 <= q < t@.len() && v@[i + q] != t@[q];
            assert(v@.subrange(i as int, i + t@.len())[q] != t@[q]);
        }
        if i == last {
            proof {
                if contains_seq(v@, t@) {
                    let j = choose|j: int| 0 <= j && j + t@.len() <= v@.len() && #[trigger] v@.subrange(j, j + t@.len()) == t@;
                    assert(j <= i);
                }
            }
            return false;
        }
        i = i + 1;
    }
}

/// What `str::to_lowercase` gives for `s`: each character replaced by its
/// Unicode lowercase mapping.
pub uninterp spec fn lowercase(s: Seq<char>) -> Seq<char>;

/// `str::to_lowercase`. The result is the name `lowercase` applied to the
/// argument; nothing more about the Unicode mapping is stated.
#[verifier::external_body]
pub(crate) fn to_lowercase(s: &str) -> (r: String)
    ensures
        r@ == lowercase(s@),
{
    s.to_lowercase()
}

/// A `String` with the characters of `s`.
pub fn owned(s: &str) -> (out: String)
    ensures
        out@ == s@,
{
    String::from_str(s)
}

/// A copy of `s`.
pub fn copy_string(s: &String) -> (out: String)
    ensures
        out@ == s@,
{
    s.clone()
}

pub open spec fn opt_chars(o: Option<String>) -> Option<Seq<char>> {
    match o {
        Some(s) => Some(s@),
        None => None,
    }
}

/// A copy of an optional string.
pub fn copy_opt(o: &Option<String>) -> (out: Option<String>)
    ensures
        opt_chars(out) == opt_chars(*o),
{
    match o {
        Some(s) => Some(s.clone()),
        None => None,
    }
}

pub open spec fn strs(v: Seq<String>) -> Seq<Seq<char>> {
    v.map_values(|s: String| s@)
}

/// A copy of a list of strings.
pub fn copy_strings(v: &Vec<String>) -> (out: Vec<String>)
    ensures
        strs(out@) == strs(v@),
{
    let mut out: Vec<String> = Vec::new();
    let mut i: usize = 0;
    while i < v.len()
        invariant
            i <= v@.len(),
            out@.len() == i,
            forall|q: int| 0 <= q < i ==> #[trigger] out@[q]@ == v@[q]@,
        decreases v@.len() - i,
    {
        let c = v[i].clone();
        out.push(c);
        i = i + 1;
    }
    assert(strs(out@) =~= strs(v@));
    out
}

} // verus!
