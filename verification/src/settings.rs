use vstd::prelude::*;

use crate::text::push_char;

verus! {

/// How long the player waits between tracks. Times are whole milliseconds.
pub struct Settings {
    pub min_wait_time: u64,
    pub max_wait_time: u64,
}

impl Settings {
    /// A wait can be drawn from `min_wait_time..max_wait_time` only when the
    /// range is not empty.
    pub open spec fn wait_range_ok(&self) -> bool {
        self.min_wait_time < self.max_wait_time
    }
}

/// The settings a fresh installation starts with: one to four minutes.
pub fn init_settings() -> (s: Settings)
    ensures
        s.min_wait_time == 60_000,
        s.max_wait_time == 240_000,
{
    Settings { min_wait_time: 60_000, max_wait_time: 240_000 }
}

// ---------------------------------------------------------------------------
// Numerals of seconds, as `f64` text reads them
// ---------------------------------------------------------------------------

pub open spec fn is_digit(c: char) -> bool {
    '0' <= c && c <= '9'
}

pub open spec fn digit_value(c: char) -> nat {
    (c as int - '0' as int) as nat
}

pub open spec fn digit_char(d: nat) -> char {
    (d + '0' as int) as char
}

pub open spec fn all_digits(s: Seq<char>) -> bool {
    forall|i: int| 0 <= i < s.len() ==> is_digit(#[trigger] s[i])
}

/// The value of a run of decimal digits.
pub open spec fn digits_value(s: Seq<char>) -> nat
    decreases s.len(),
{
    if s.len() == 0 {
        0
    } else {
        digits_value(s.drop_last()) * 10 + digit_value(s.last())
    }
}

pub open spec fn pow10(k: nat) -> nat
    decreases k,
{
    if k == 0 {
        1
    } else {
        10 * pow10((k - 1) as nat)
    }
}

/// Index of the first `a` or `b`, or the length when there is none.
pub open spec fn first_of(s: Seq<char>, a: char, b: char) -> nat
    decreases s.len(),
{
    if s.len() == 0 {
        0
    } else if s[0] == a || s[0] == b {
        0
    } else {
        1 + first_of(s.drop_first(), a, b)
    }
}

/// Index of the first `'.'`, or the length when there is none.
pub open spec fn dot_index(s: Seq<char>) -> nat {
    first_of(s, '.', '.')
}

/// The digits before the decimal point.
pub open spec fn int_part(s: Seq<char>) -> Seq<char> {
    s.take(dot_index(s) as int)
}

/// The digits after the decimal point (empty when there is none).
pub open spec fn frac_part(s: Seq<char>) -> Seq<char> {
    if dot_index(s) < s.len() {
        s.skip((dot_index(s) + 1) as int)
    } else {
        Seq::empty()
    }
}

/// Digits with at most one decimal point, and at least one digit
/// ("5", "5.", ".5", "12.25").
pub open spec fn is_decimal(s: Seq<char>) -> bool {
    &&& forall|i: int| 0 <= i < s.len() ==> is_digit(#[trigger] s[i]) || s[i] == '.'
    &&& forall|i: int, j: int|
        0 <= i < s.len() && 0 <= j < s.len() && #[trigger] s[i] == '.' && #[trigger] s[j] == '.'
            ==> i == j
    &&& exists|i: int| 0 <= i < s.len() && is_digit(#[trigger] s[i])
}

/// Length of a leading `'+'` (0 or 1).
pub open spec fn sign_len(s: Seq<char>) -> nat {
    if s.len() > 0 && s[0] == '+' {
        1
    } else {
        0
    }
}

/// Index of the exponent mark `'e'` or `'E'`, or the length when there is none.
pub open spec fn exp_index(s: Seq<char>) -> nat {
    first_of(s, 'e', 'E')
}

/// The decimal between the sign and the exponent.
pub open spec fn mantissa(s: Seq<char>) -> Seq<char> {
    s.subrange(sign_len(s) as int, exp_index(s) as int)
}

/// The text after the exponent mark.
pub open spec fn exponent_text(s: Seq<char>) -> Seq<char> {
    s.skip((exp_index(s) + 1) as int)
}

/// An exponent: digits, with an optional sign before them.
pub open spec fn is_exponent(x: Seq<char>) -> bool {
    if x.len() > 0 && (x[0] == '+' || x[0] == '-') {
        x.len() > 1 && all_digits(x.skip(1))
    } else {
        x.len() > 0 && all_digits(x)
    }
}

pub open spec fn exponent_value(x: Seq<char>) -> int {
    if x.len() > 0 && x[0] == '-' {
        -digits_value(x.skip(1))
    } else if x.len() > 0 && x[0] == '+' {
        digits_value(x.skip(1)) as int
    } else {
        digits_value(x) as int
    }
}

/// A non-negative numeral of seconds as `f64` text writes it: an optional
/// `'+'`, a decimal, and an optional exponent ("5", "+.5", "12.25",
/// "1e3", "2E-1"). Negative numbers, infinities and NaN, which `f64` also
/// reads, stand for no whole number of milliseconds and are not numerals here.
pub open spec fn is_wait_numeral(s: Seq<char>) -> bool {
    &&& is_decimal(mantissa(s))
    &&& exp_index(s) < s.len() ==> is_exponent(exponent_text(s))
}

/// The power of ten the numeral's exponent gives (0 without one).
pub open spec fn numeral_exponent(s: Seq<char>) -> int {
    if exp_index(s) < s.len() {
        exponent_value(exponent_text(s))
    } else {
        0
    }
}

/// The whole part of the number whose digits are `d` with the decimal point
/// after the first `p` of them (`p` may lie outside the digits).
pub open spec fn shifted_value(d: Seq<char>, p: int) -> nat {
    if p <= 0 {
        0
    } else if p <= d.len() {
        digits_value(d.take(p))
    } else {
        digits_value(d) * pow10((p - d.len()) as nat)
    }
}

/// The time a numeral of seconds stands for, in whole milliseconds
/// (fractions of a millisecond dropped): its digits, with the point moved
/// by the exponent and three places more.
pub open spec fn numeral_ms(s: Seq<char>) -> nat {
    let m = mantissa(s);
    shifted_value(int_part(m) + frac_part(m), int_part(m).len() + numeral_exponent(s) + 3)
}

/// What reading a wait time gives: the milliseconds of a numeral, capped at
/// `u64::MAX`, or `None` for text that is no numeral.
pub open spec fn parsed_wait(s: Seq<char>) -> Option<u64> {
    if is_wait_numeral(s) {
        if numeral_ms(s) > u64::MAX {
            Some(u64::MAX)
        } else {
            Some(numeral_ms(s) as u64)
        }
    } else {
        None
    }
}

/// The decimal digits of `n`, most significant first, without leading zeros.
pub open spec fn nat_digits(n: nat) -> Seq<char>
    decreases n,
{
    if n < 10 {
        seq![digit_char(n)]
    } else {
        nat_digits(n / 10).push(digit_char(n % 10))
    }
}

/// The fraction of a second for `r` milliseconds (`r < 1000`): nothing for
/// whole seconds, else a point and the digits without trailing zeros.
pub open spec fn frac_text(r: nat) -> Seq<char> {
    if r == 0 {
        Seq::empty()
    } else if r % 100 == 0 {
        seq!['.', digit_char(r / 100)]
    } else if r % 10 == 0 {
        seq!['.', digit_char(r / 100), digit_char((r / 10) % 10)]
    } else {
        seq!['.', digit_char(r / 100), digit_char((r / 10) % 10), digit_char(r % 10)]
    }
}

/// How a wait time is shown: seconds with the shortest decimal fraction,
/// e.g. 60000 ms as "60", 12500 ms as "12.5", 250 ms as "0.25".
pub open spec fn wait_text(ms: nat) -> Seq<char> {
    nat_digits(ms / 1000) + frac_text(ms % 1000)
}

// ---------------------------------------------------------------------------
// Lemmas on numerals
// ---------------------------------------------------------------------------

proof fn lemma_first_of(s: Seq<char>, a: char, b: char)
    ensures
        first_of(s, a, b) <= s.len(),
        forall|j: int| 0 <= j < first_of(s, a, b) ==> s[j] != a && s[j] != b,
        first_of(s, a, b) < s.len() ==> (s[first_of(s, a, b) as int] == a || s[first_of(
            s,
            a,
            b,
        ) as int] == b),
    decreases s.len(),
{
    if s.len() > 0 && s[0] != a && s[0] != b {
        lemma_first_of(s.drop_first(), a, b);
        assert forall|j: int| 0 <= j < first_of(s, a, b) implies s[j] != a && s[j] != b by {
            if j > 0 {
                assert(s[j] == s.drop_first()[j - 1]);
            }
        }
    }
}

/// The first `a` or `b` is at `k` when none comes before it.
proof fn lemma_first_of_at(s: Seq<char>, a: char, b: char, k: int)
    requires
        0 <= k <= s.len(),
        forall|j: int| 0 <= j < k ==> s[j] != a && s[j] != b,
        k < s.len() ==> (s[k] == a || s[k] == b),
    ensures
        first_of(s, a, b) == k,
{
    lemma_first_of(s, a, b);
    if first_of(s, a, b) < k {
        let f = first_of(s, a, b) as int;
        assert(s[f] != a && s[f] != b);
    }
    if first_of(s, a, b) > k {
        assert(s[k] != a && s[k] != b);
    }
}

proof fn lemma_digits_value_step(s: Seq<char>, i: int)
    requires
        0 <= i < s.len(),
    ensures
        digits_value(s.take(i + 1)) == digits_value(s.take(i)) * 10 + digit_value(s[i]),
{
    assert(s.take(i + 1).drop_last() =~= s.take(i));
}

proof fn lemma_digits_value_concat(a: Seq<char>, b: Seq<char>)
    ensures
        digits_value(a + b) == digits_value(a) * pow10(b.len()) + digits_value(b),
    decreases b.len(),
{
    if b.len() == 0 {
        assert(a + b =~= a);
        assert(pow10(0) == 1);
        assert(digits_value(b) == 0);
        assert(digits_value(a) * 1 == digits_value(a));
    } else {
        lemma_digits_value_concat(a, b.drop_last());
        assert((a + b).drop_last() =~= a + b.drop_last());
        assert((a + b).last() == b.last());
        let x = digits_value(a);
        let y = pow10(b.drop_last().len());
        let z = digits_value(b.drop_last());
        let w = digit_value(b.last());
        assert(pow10(b.len()) == 10 * y);
        assert(digits_value(b) == z * 10 + w);
        assert(digits_value(a + b) == (x * y + z) * 10 + w);
        assert((x * y + z) * 10 + w == x * (10 * y) + (z * 10 + w)) by (nonlinear_arith);
    }
}

proof fn lemma_pow10_grows(k: nat)
    ensures
        pow10(k) >= 1,
        k >= 20 ==> pow10(k) >= 100_000_000_000_000_000_000,
    decreases k,
{
    if k > 0 {
        lemma_pow10_grows((k - 1) as nat);
        if k == 20 {
            assert(pow10(20) == 100_000_000_000_000_000_000) by {
                reveal_with_fuel(pow10, 21);
            }
        }
    }
}

proof fn lemma_digit_char(d: nat)
    requires
        d < 10,
    ensures
        is_digit(digit_char(d)),
        digit_value(digit_char(d)) == d,
{
}

proof fn lemma_nat_digits(n: nat)
    ensures
        nat_digits(n).len() > 0,
        forall|i: int| 0 <= i < nat_digits(n).len() ==> is_digit(#[trigger] nat_digits(n)[i]),
        digits_value(nat_digits(n)) == n,
    decreases n,
{
    lemma_digit_char(n % 10);
    if n >= 10 {
        lemma_nat_digits(n / 10);
        let s = nat_digits(n);
        assert(s == nat_digits(n / 10).push(digit_char(n % 10)));
        assert(s.drop_last() =~= nat_digits(n / 10));
        assert(s.last() == digit_char(n % 10));
        assert(digits_value(s) == digits_value(nat_digits(n / 10)) * 10 + digit_value(
            digit_char(n % 10),
        ));
        assert(n == (n / 10) * 10 + n % 10);
    } else {
        let s = seq![digit_char(n)];
        assert(s.drop_last() =~= Seq::<char>::empty());
        assert(digits_value(Seq::<char>::empty()) == 0);
        assert(s.last() == digit_char(n));
        assert(digits_value(s) == digit_value(digit_char(n)));
    }
}

/// A plain decimal (digits and at most one point) is a numeral: it has no
/// sign and no exponent, and stands for its digits with the point moved
/// three places.
pub proof fn lemma_plain_decimal(s: Seq<char>)
    requires
        is_decimal(s),
    ensures
        is_wait_numeral(s),
        mantissa(s) == s,
        numeral_exponent(s) == 0,
{
    assert forall|j: int| 0 <= j < s.len() implies s[j] != 'e' && s[j] != 'E' by {
        assert(is_digit(s[j]) || s[j] == '.');
    }
    lemma_first_of_at(s, 'e', 'E', s.len() as int);
    let i = choose|i: int| 0 <= i < s.len() && is_digit(#[trigger] s[i]);
    assert(is_digit(s[i]));
    assert(s[0] != '+');
    assert(mantissa(s) =~= s);
}

/// Showing a wait time and reading the text back gives the same time.
pub proof fn lemma_wait_text_round_trip(ms: u64)
    ensures
        parsed_wait(wait_text(ms as nat)) == Some(ms),
{
    let n = ms as nat / 1000;
    let r = ms as nat % 1000;
    let a = nat_digits(n);
    let b = frac_text(r);
    let s = wait_text(ms as nat);
    lemma_nat_digits(n);
    assert(s == a + b);
    assert forall|i: int| 0 <= i < s.len() implies is_digit(#[trigger] s[i]) || s[i] == '.' by {
        if i < a.len() {
            assert(s[i] == a[i]);
        } else {
            assert(s[i] == b[i - a.len()]);
        }
    }
    assert forall|i: int, j: int|
        0 <= i < s.len() && 0 <= j < s.len() && #[trigger] s[i] == '.' && #[trigger] s[j]
            == '.' implies i == j by {
        if i < a.len() {
            assert(s[i] == a[i]);
        } else {
            assert(s[i] == b[i - a.len()]);
        }
        if j < a.len() {
            assert(s[j] == a[j]);
        } else {
            assert(s[j] == b[j - a.len()]);
        }
    }
    assert(s[0] == a[0]);
    assert(is_digit(s[0]));
    lemma_plain_decimal(s);
    assert forall|j: int| 0 <= j < a.len() implies s[j] != '.' && s[j] != '.' by {
        assert(s[j] == a[j]);
    }
    if r > 0 {
        assert(s[a.len() as int] == b[0]);
    }
    lemma_first_of_at(s, '.', '.', a.len() as int);
    assert(int_part(s) =~= a);
    let f = frac_part(s);
    if r > 0 {
        assert(f =~= b.drop_first());
    } else {
        assert(f =~= Seq::<char>::empty());
    }
    let d = a + f;
    lemma_digits_value_concat(a, f);
    lemma_digit_char(r / 100);
    lemma_digit_char((r / 10) % 10);
    lemma_digit_char(r % 10);
    let c1 = digit_char(r / 100);
    let c2 = digit_char((r / 10) % 10);
    let c3 = digit_char(r % 10);
    let e0 = Seq::<char>::empty();
    let f1 = seq![c1];
    let f2 = seq![c1, c2];
    let f3 = seq![c1, c2, c3];
    assert(digits_value(e0) == 0);
    assert(f1.drop_last() =~= e0);
    assert(digits_value(f1) == digits_value(e0) * 10 + digit_value(c1));
    assert(f2.drop_last() =~= f1);
    assert(digits_value(f2) == digits_value(f1) * 10 + digit_value(c2));
    assert(f3.drop_last() =~= f2);
    assert(digits_value(f3) == digits_value(f2) * 10 + digit_value(c3));
    assert(pow10(0) == 1);
    assert(pow10(1) == 10);
    assert(pow10(2) == 100);
    assert(pow10(3) == 1000);
    assert(mantissa(s) == s);
    assert(numeral_exponent(s) == 0);
    assert(numeral_ms(s) == shifted_value(d, a.len() + 3int));
    assert(digits_value(d) == n * pow10(f.len()) + digits_value(f));
    assert(ms == n * 1000 + r);
    if r == 0 {
        assert(f =~= e0);
        assert(shifted_value(d, a.len() + 3int) == digits_value(d) * pow10(3));
    } else if r % 100 == 0 {
        assert(f =~= f1);
        assert(shifted_value(d, a.len() + 3int) == digits_value(d) * pow10(2));
        assert((n * 10 + r / 100) * 100 == n * 1000 + r) by (nonlinear_arith)
            requires
                r % 100 == 0,
        ;
    } else if r % 10 == 0 {
        assert(f =~= f2);
        assert(shifted_value(d, a.len() + 3int) == digits_value(d) * pow10(1));
        assert((n * 100 + ((r / 100) * 10 + (r / 10) % 10)) * 10 == n * 1000 + r)
            by (nonlinear_arith)
            requires
                r % 10 == 0,
                r < 1000,
        ;
    } else {
        assert(f =~= f3);
        assert(d.take(d.len() as int) =~= d);
        assert(shifted_value(d, a.len() + 3int) == digits_value(d));
        assert(n * 1000 + (((r / 100) * 10 + (r / 10) % 10) * 10 + r % 10) == n * 1000 + r)
            by (nonlinear_arith)
            requires
                r < 1000,
        ;
    }
    assert(numeral_ms(s) == ms);
}

// ---------------------------------------------------------------------------
// Reading and showing wait times
// ---------------------------------------------------------------------------

/// `x` held at `cap`.
pub open spec fn capped(x: nat, cap: nat) -> nat {
    if x < cap {
        x
    } else {
        cap
    }
}

/// Exponents are read held to plus or minus this much; beyond it every
/// numeral reads as 0 or as the cap.
pub open spec fn exponent_bound() -> int {
    0x4_0000_0000_0000_0000
}

pub open spec fn clamped_exponent(e: int) -> int {
    if e > exponent_bound() {
        exponent_bound()
    } else if e < -exponent_bound() {
        -exponent_bound()
    } else {
        e
    }
}

/// Index of the first `a` or `b` in `text[lo..hi]`, or `hi`.
fn find_first(text: &str, lo: usize, hi: usize, a: char, b: char) -> (r: usize)
    requires
        lo <= hi <= text@.len(),
    ensures
        r == lo + first_of(text@.subrange(lo as int, hi as int), a, b),
        lo <= r <= hi,
{
    let ghost s = text@.subrange(lo as int, hi as int);
    let mut j = lo;
    while j < hi
        invariant
            s == text@.subrange(lo as int, hi as int),
            lo <= j <= hi <= text@.len(),
            forall|k: int| 0 <= k < j - lo ==> s[k] != a && s[k] != b,
        decreases hi - j,
    {
        let c = text.get_char(j);
        if c == a || c == b {
            proof {
                assert(s[j - lo] == c);
                lemma_first_of_at(s, a, b, j - lo);
            }
            return j;
        }
        proof {
            assert(s[j - lo] == c);
        }
        j = j + 1;
    }
    proof {
        lemma_first_of_at(s, a, b, (hi - lo) as int);
    }
    hi
}

/// Whether `text[lo..hi]` is a decimal, given where its first point is.
fn decimal_ok(text: &str, lo: usize, hi: usize, dot: usize) -> (r: bool)
    requires
        lo <= dot <= hi <= text@.len(),
        dot == lo + dot_index(text@.subrange(lo as int, hi as int)),
    ensures
        r == is_decimal(text@.subrange(lo as int, hi as int)),
{
    let ghost m = text@.subrange(lo as int, hi as int);
    proof {
        lemma_first_of(m, '.', '.');
    }
    let mut seen_digit = false;
    let ghost mut digit_at: int = 0;
    let mut j = lo;
    while j < hi
        invariant
            m == text@.subrange(lo as int, hi as int),
            lo <= dot <= hi <= text@.len(),
            dot == lo + dot_index(m),
            dot < hi ==> m[dot - lo] == '.',
            forall|k: int| 0 <= k < dot - lo ==> m[k] != '.',
            lo <= j <= hi,
            forall|k: int| 0 <= k < j - lo ==> is_digit(#[trigger] m[k]) || m[k] == '.',
            forall|k: int| 0 <= k < j - lo && m[k] == '.' ==> k == dot - lo,
            seen_digit ==> 0 <= digit_at < j - lo && is_digit(m[digit_at]),
            !seen_digit ==> forall|k: int| 0 <= k < j - lo ==> !is_digit(m[k]),
        decreases hi - j,
    {
        let c = text.get_char(j);
        proof {
            assert(m[j - lo] == c);
        }
        if c == '.' {
            if j != dot {
                proof {
                    assert(dot < j);
                    let x = dot - lo;
                    let y = j - lo;
                    assert(m[x] == '.' && m[y] == '.');
                }
                return false;
            }
        } else if '0' <= c && c <= '9' {
            proof {
                digit_at = j - lo;
            }
            seen_digit = true;
        } else {
            return false;
        }
        j = j + 1;
    }
    if !seen_digit {
        return false;
    }
    proof {
        assert(is_digit(m[digit_at]));
    }
    true
}

proof fn lemma_cap_step(x: nat, d: nat, cap: nat)
    ensures
        capped(capped(x, cap) * 10 + d, cap) == capped(x * 10 + d, cap),
{
}

/// Reads `text[lo..hi]` as an exponent: `None` when it is none, else its
/// value held within the exponent bound.
fn read_exponent(text: &str, lo: usize, hi: usize) -> (r: Option<i128>)
    requires
        lo <= hi <= text@.len(),
    ensures
        r is Some == is_exponent(text@.subrange(lo as int, hi as int)),
        r matches Some(v) ==> v == clamped_exponent(
            exponent_value(text@.subrange(lo as int, hi as int)),
        ),
{
    let ghost x = text@.subrange(lo as int, hi as int);
    if lo == hi {
        return None;
    }
    let c0 = text.get_char(lo);
    proof {
        assert(x[0] == c0);
    }
    let neg = c0 == '-';
    let start: usize = if c0 == '-' || c0 == '+' {
        lo + 1
    } else {
        lo
    };
    if start == hi {
        return None;
    }
    let ghost ds = text@.subrange(start as int, hi as int);
    proof {
        if start == lo + 1 {
            assert(x.skip(1) =~= ds);
        } else {
            assert(x =~= ds);
        }
    }
    let cap: u128 = 0x4_0000_0000_0000_0000;
    let mut acc: u128 = 0;
    let mut j = start;
    while j < hi
        invariant
            ds == text@.subrange(start as int, hi as int),
            x == text@.subrange(lo as int, hi as int),
            x.len() > 0,
            start == lo || start == lo + 1,
            start == lo + 1 ==> x.skip(1) == ds && (x[0] == '+' || x[0] == '-'),
            start == lo ==> x == ds && !(x[0] == '+' || x[0] == '-'),
            lo <= start <= j <= hi <= text@.len(),
            cap == 0x4_0000_0000_0000_0000u128,
            forall|k: int| 0 <= k < j - start ==> is_digit(#[trigger] ds[k]),
            acc == capped(digits_value(ds.take(j - start)), cap as nat),
        decreases hi - j,
    {
        let c = text.get_char(j);
        proof {
            assert(ds[j - start] == c);
        }
        if !('0' <= c && c <= '9') {
            proof {
                assert(!is_digit(ds[j - start]));
                assert(!all_digits(ds));
                if start == lo + 1 {
                    assert(!all_digits(x.skip(1)));
                } else {
                    assert(!all_digits(x));
                }
                assert(!is_exponent(x));
            }
            return None;
        }
        let d: u128 = (c as u32 - '0' as u32) as u128;
        proof {
            lemma_digits_value_step(ds, j - start);
            lemma_cap_step(digits_value(ds.take(j - start)), d as nat, cap as nat);
        }
        let next: u128 = acc * 10 + d;
        acc = if next < cap {
            next
        } else {
            cap
        };
        j = j + 1;
    }
    proof {
        assert(ds.take(hi - start) =~= ds);
        assert(all_digits(ds));
        if start == lo + 1 {
            assert(x.skip(1) =~= ds);
            assert(x.len() > 1);
        } else {
            assert(x =~= ds);
        }
    }
    let v: i128 = acc as i128;
    if neg {
        Some(-v)
    } else {
        Some(v)
    }
}

/// The digits of a decimal without its point: those before the first point,
/// then those after it.
proof fn lemma_decimal_digits(m: Seq<char>)
    ensures
        dot_index(m) < m.len() ==> m[dot_index(m) as int] == '.',
        forall|k: int| 0 <= k < dot_index(m) ==> m[k] != '.',
        ({
            let di = dot_index(m);
            let d = int_part(m) + frac_part(m);
            &&& di <= m.len()
            &&& d.len() == (if di < m.len() {
                m.len() - 1
            } else {
                m.len() as int
            })
            &&& forall|k: int|
                0 <= k < d.len() ==> #[trigger] d[k] == (if k < di {
                    m[k]
                } else {
                    m[k + 1]
                })
        }),
{
    lemma_first_of(m, '.', '.');
}

proof fn lemma_cap_times_ten(x: nat, y: nat, cap: nat)
    ensures
        capped(capped(x * y, cap) * 10, cap) == capped(x * (10 * y), cap),
{
    assert(x * (10 * y) == (x * y) * 10) by (nonlinear_arith);
}

/// The whole milliseconds of decimal `text[lo..hi]` (first point at `dot`)
/// with the point moved to after its `p`th digit, held at 2^64.
fn mantissa_shift(text: &str, lo: usize, hi: usize, dot: usize, p: i128) -> (r: u128)
    requires
        lo <= dot <= hi <= text@.len(),
        dot == lo + dot_index(text@.subrange(lo as int, hi as int)),
        is_decimal(text@.subrange(lo as int, hi as int)),
    ensures
        ({
            let m = text@.subrange(lo as int, hi as int);
            r == capped(
                shifted_value(int_part(m) + frac_part(m), p as int),
                0x1_0000_0000_0000_0000,
            )
        }),
{
    let ghost m = text@.subrange(lo as int, hi as int);
    let ghost dseq = int_part(m) + frac_part(m);
    let cap: u128 = 0x1_0000_0000_0000_0000;
    proof {
        lemma_decimal_digits(m);
    }
    if p <= 0 {
        return 0;
    }
    let dlen: usize = if dot < hi {
        hi - lo - 1
    } else {
        hi - lo
    };
    let lim: usize = if p < dlen as i128 {
        p as usize
    } else {
        dlen
    };
    let mut acc: u128 = 0;
    let mut count: usize = 0;
    let mut j = lo;
    while count < lim
        invariant
            m == text@.subrange(lo as int, hi as int),
            dseq == int_part(m) + frac_part(m),
            lo <= dot <= hi <= text@.len(),
            dot == lo + dot_index(m),
            is_decimal(m),
            dseq.len() == dlen,
            forall|k: int|
                0 <= k < dseq.len() ==> #[trigger] dseq[k] == (if k < dot - lo {
                    m[k]
                } else {
                    m[k + 1]
                }),
            lim <= dlen,
            dot < hi ==> m[dot - lo] == '.',
            forall|k: int| 0 <= k < dot - lo ==> m[k] != '.',
            cap == 0x1_0000_0000_0000_0000u128,
            lo <= j <= hi,
            count == (j - lo) - (if dot < j {
                1int
            } else {
                0
            }),
            count <= lim,
            acc == capped(digits_value(dseq.take(count as int)), cap as nat),
        decreases hi - j,
    {
        if j != dot {
            let c = text.get_char(j);
            proof {
                assert(m[j - lo] == c);
                assert(dseq[count as int] == c);
                assert(c != '.') by {
                    if dot < hi {
                        assert(m[dot - lo] == '.');
                    }
                };
                assert(is_digit(m[j - lo]));
                lemma_digits_value_step(dseq, count as int);
            }
            let d: u128 = (c as u32 - '0' as u32) as u128;
            proof {
                lemma_cap_step(digits_value(dseq.take(count as int)), d as nat, cap as nat);
            }
            let next: u128 = acc * 10 + d;
            acc = if next < cap {
                next
            } else {
                cap
            };
            count = count + 1;
        }
        j = j + 1;
    }
    if p <= dlen as i128 {
        return acc;
    }
    proof {
        assert(count == dlen);
        assert(dseq.take(dlen as int) =~= dseq);
        assert(pow10(0) == 1);
        assert(digits_value(dseq) * pow10(0) == digits_value(dseq));
    }
    if acc == 0 {
        proof {
            assert(digits_value(dseq) == 0);
            let y = pow10((p - dlen) as nat);
            assert(0 * y == 0) by (nonlinear_arith);
            assert(shifted_value(dseq, p as int) == digits_value(dseq) * y);
        }
        return 0;
    }
    let k: i128 = p - dlen as i128;
    if k >= 20 {
        proof {
            lemma_pow10_grows(k as nat);
            assert(digits_value(dseq) * pow10(k as nat) >= pow10(k as nat)) by (nonlinear_arith)
                requires
                    digits_value(dseq) >= 1,
            ;
        }
        return cap;
    }
    let mut i: i128 = 0;
    while i < k
        invariant
            0 <= i <= k < 20,
            cap == 0x1_0000_0000_0000_0000u128,
            acc == capped(digits_value(dseq) * pow10(i as nat), cap as nat),
        decreases k - i,
    {
        proof {
            lemma_cap_times_ten(digits_value(dseq), pow10(i as nat), cap as nat);
        }
        let next: u128 = acc * 10;
        acc = if next < cap {
            next
        } else {
            cap
        };
        i = i + 1;
    }
    acc
}

/// Clamping the exponent changes nothing once the result is held at 2^64.
proof fn lemma_clamped_shift(d: Seq<char>, q: nat, e: int)
    requires
        q <= d.len() <= 0x1_0000_0000_0000_0000,
    ensures
        capped(shifted_value(d, q + e + 3), 0x1_0000_0000_0000_0000) == capped(
            shifted_value(d, q + clamped_exponent(e) + 3),
            0x1_0000_0000_0000_0000,
        ),
{
    let p1 = q + e + 3;
    let p2 = q + clamped_exponent(e) + 3;
    if e > exponent_bound() {
        lemma_pow10_grows((p1 - d.len()) as nat);
        lemma_pow10_grows((p2 - d.len()) as nat);
        if digits_value(d) > 0 {
            let v = digits_value(d);
            let a = pow10((p1 - d.len()) as nat);
            let b = pow10((p2 - d.len()) as nat);
            assert(v * a >= a) by (nonlinear_arith)
                requires
                    v >= 1,
            ;
            assert(v * b >= b) by (nonlinear_arith)
                requires
                    v >= 1,
            ;
        }
    }
}

/// Reads a wait time written in seconds as `f64` text writes a
/// non-negative number ("90", "1.5", ".25", "+5", "1e3", "2E-1") as whole
/// milliseconds, capped at `u64::MAX`; `None` when the text is no such
/// numeral.
pub fn parse_wait_time(text: &str) -> (r: Option<u64>)
    ensures
        r == parsed_wait(text@),
{
    let ghost s = text@;
    let n = text.unicode_len();
    let start: usize = if n > 0 && text.get_char(0) == '+' {
        1
    } else {
        0
    };
    proof {
        assert(s.subrange(0, n as int) =~= s);
        lemma_first_of(s, 'e', 'E');
    }
    let e = find_first(text, 0, n, 'e', 'E');
    proof {
        assert(start == sign_len(s));
        if start == 1 {
            assert(s[0] == '+');
        }
        assert(start <= e);
    }
    let dot = find_first(text, start, e, '.', '.');
    if !decimal_ok(text, start, e, dot) {
        return None;
    }
    let exp: i128 = if e < n {
        proof {
            assert(exponent_text(s) =~= s.subrange(e + 1, n as int));
        }
        match read_exponent(text, e + 1, n) {
            Some(v) => v,
            None => {
                return None;
            },
        }
    } else {
        0
    };
    proof {
        assert(is_wait_numeral(s));
        let m = mantissa(s);
        lemma_decimal_digits(m);
        lemma_clamped_shift(int_part(m) + frac_part(m), int_part(m).len(), numeral_exponent(s));
    }
    let p: i128 = (dot - start) as i128 + exp + 3;
    let v = mantissa_shift(text, start, e, dot, p);
    if v > u64::MAX as u128 {
        Some(u64::MAX)
    } else {
        Some(v as u64)
    }
}

/// Appends the decimal digits of `n`.
fn push_digits(out: &mut String, n: u64)
    ensures
        final(out)@ == old(out)@ + nat_digits(n as nat),
    decreases n,
{
    if n >= 10 {
        push_digits(out, n / 10);
    }
    push_char(out, digit_to_char(n % 10));
}

fn digit_to_char(d: u64) -> (c: char)
    requires
        d < 10,
    ensures
        c == digit_char(d as nat),
{
    let b: u8 = d as u8 + 48;
    b as char
}

/// Shows a wait time in seconds with the shortest decimal fraction, as it
/// is typed back in: 60000 ms as "60", 12500 ms as "12.5".
pub fn format_wait_time(ms: u64) -> (s: String)
    ensures
        s@ == wait_text(ms as nat),
{
    let mut out = String::new();
    push_digits(&mut out, ms / 1000);
    let r = ms % 1000;
    if r != 0 {
        push_char(&mut out, '.');
        push_char(&mut out, digit_to_char(r / 100));
        if r % 100 != 0 {
            push_char(&mut out, digit_to_char((r / 10) % 10));
            if r % 10 != 0 {
                push_char(&mut out, digit_to_char(r % 10));
            }
        }
    }
    proof {
        assert(out@ =~= wait_text(ms as nat));
    }
    out
}

// ---------------------------------------------------------------------------
// Changing a setting
// ---------------------------------------------------------------------------

/// What a request to change a setting did.
#[derive(Clone, Copy, Debug, PartialEq, Eq, Structural)]
pub enum SettingChange {
    /// The text was empty: nothing changed.
    Ignored,
    /// The setting took the new value.
    Updated,
    /// No setting has that index: nothing changed.
    InvalidIndex,
}

/// Whether `set_setting` can take this text for this index: empty text and
/// unknown indices are always handled, a real change needs a numeral.
pub open spec fn setting_text_ok(which: i32, value: Seq<char>) -> bool {
    value.len() > 0 && (which == 0 || which == 1) ==> is_wait_numeral(value)
}

/// The settings and report after setting `which` from `value`: empty text
/// changes nothing, index 0 sets the minimum and index 1 the maximum wait
/// to the numeral's milliseconds, any other index changes nothing.
pub open spec fn setting_applied(s: Settings, which: i32, value: Seq<char>) -> (
    Settings,
    SettingChange,
) {
    if value.len() == 0 {
        (s, SettingChange::Ignored)
    } else if which == 0 {
        (Settings { min_wait_time: parsed_wait(value).unwrap(), ..s }, SettingChange::Updated)
    } else if which == 1 {
        (Settings { max_wait_time: parsed_wait(value).unwrap(), ..s }, SettingChange::Updated)
    } else {
        (s, SettingChange::InvalidIndex)
    }
}

/// Sets the minimum (`which == 0`) or maximum (`which == 1`) wait time from
/// text typed in seconds. Empty text changes nothing; any other index
/// changes nothing and is reported.
pub fn set_setting(settings: &mut Settings, which: i32, value: &String) -> (r: SettingChange)
    requires
        setting_text_ok(which, value@),
    ensures
        (*final(settings), r) == setting_applied(*old(settings), which, value@),
{
    let text = value.as_str();
    if text.is_empty() {
        return SettingChange::Ignored;
    }
    if which == 0 {
        match parse_wait_time(text) {
            Some(v) => {
                settings.min_wait_time = v;
            },
            None => {},
        }
        SettingChange::Updated
    } else if which == 1 {
        match parse_wait_time(text) {
            Some(v) => {
                settings.max_wait_time = v;
            },
            None => {},
        }
        SettingChange::Updated
    } else {
        SettingChange::InvalidIndex
    }
}

/// Whether `set_setting(_, which, value)` is within its contract; the
/// program checks this before passing on text it did not build itself.
pub fn can_set_setting(which: i32, value: &String) -> (r: bool)
    ensures
        r == setting_text_ok(which, value@),
{
    let text = value.as_str();
    if text.is_empty() || (which != 0 && which != 1) {
        return true;
    }
    parse_wait_time(text).is_some()
}

// ---------------------------------------------------------------------------
// Laws of reading and storing wait times
// ---------------------------------------------------------------------------

/// Storing text: empty text changes nothing; index 0 sets only the minimum
/// and index 1 only the maximum wait to what the text reads as; any other
/// index changes nothing and is reported.
pub proof fn lemma_setting_change(s: Settings, which: i32, value: Seq<char>)
    ensures
        ({
            let (t, r) = setting_applied(s, which, value);
            &&& value.len() == 0 ==> t == s && r == SettingChange::Ignored
            &&& value.len() > 0 && which == 0 ==> t.min_wait_time == parsed_wait(value).unwrap()
                && t.max_wait_time == s.max_wait_time && r == SettingChange::Updated
            &&& value.len() > 0 && which == 1 ==> t.max_wait_time == parsed_wait(value).unwrap()
                && t.min_wait_time == s.min_wait_time && r == SettingChange::Updated
            &&& value.len() > 0 && which != 0 && which != 1 ==> t == s && r
                == SettingChange::InvalidIndex
        }),
{
}

proof fn lemma_first_of_after(a: Seq<char>, b: Seq<char>, x: char, y: char)
    requires
        forall|j: int| 0 <= j < a.len() ==> a[j] != x && a[j] != y,
    ensures
        first_of(a + b, x, y) == a.len() + first_of(b, x, y),
{
    lemma_first_of(b, x, y);
    let s = a + b;
    let k = a.len() + first_of(b, x, y);
    assert forall|j: int| 0 <= j < k implies s[j] != x && s[j] != y by {
        if j < a.len() {
            assert(s[j] == a[j]);
        } else {
            assert(s[j] == b[j - a.len()]);
        }
    }
    if k < s.len() {
        assert(s[k as int] == b[first_of(b, x, y) as int]);
    }
    lemma_first_of_at(s, x, y, k as int);
}

/// Whole seconds written as digits read as that many thousand
/// milliseconds (held at `u64::MAX`).
pub proof fn lemma_whole_seconds(t: Seq<char>)
    requires
        t.len() > 0,
        all_digits(t),
    ensures
        parsed_wait(t) == Some(
            if digits_value(t) * 1000 > u64::MAX {
                u64::MAX
            } else {
                (digits_value(t) * 1000) as u64
            },
        ),
{
    assert(is_digit(t[0]));
    assert(is_decimal(t));
    lemma_plain_decimal(t);
    lemma_first_of_at(t, '.', '.', t.len() as int);
    assert(int_part(t) =~= t);
    assert(frac_part(t) =~= Seq::<char>::empty());
    assert(int_part(t) + frac_part(t) =~= t);
    assert(pow10(3) == 1000) by {
        reveal_with_fuel(pow10, 4);
    }
}

/// Whole seconds times ten to the power `k` ("3e2") read as that many
/// thousand milliseconds (held at `u64::MAX`).
pub proof fn lemma_exponent_scales(t: Seq<char>, x: Seq<char>)
    requires
        t.len() > 0,
        all_digits(t),
        x.len() > 0,
        all_digits(x),
    ensures
        parsed_wait(t + seq!['e'] + x) == Some(
            if digits_value(t) * pow10(digits_value(x) + 3) > u64::MAX {
                u64::MAX
            } else {
                (digits_value(t) * pow10(digits_value(x) + 3)) as u64
            },
        ),
{
    let s = t + seq!['e'] + x;
    assert forall|j: int| 0 <= j < t.len() implies t[j] != 'e' && t[j] != 'E' by {
        assert(is_digit(t[j]));
    }
    lemma_first_of_after(t, seq!['e'] + x, 'e', 'E');
    assert(s =~= t + (seq!['e'] + x));
    assert(first_of(seq!['e'] + x, 'e', 'E') == 0);
    assert(exp_index(s) == t.len());
    assert(is_digit(t[0]));
    assert(s[0] == t[0]);
    assert(sign_len(s) == 0);
    assert(mantissa(s) =~= t);
    assert(exponent_text(s) =~= x);
    assert(is_digit(x[0]));
    assert(is_exponent(x));
    assert(exponent_value(x) == digits_value(x));
    assert(is_decimal(t));
    assert forall|j: int| 0 <= j < t.len() implies t[j] != '.' && t[j] != '.' by {
        assert(is_digit(t[j]));
    }
    lemma_first_of_at(t, '.', '.', t.len() as int);
    assert(int_part(t) =~= t);
    assert(frac_part(t) =~= Seq::<char>::empty());
    assert(int_part(t) + frac_part(t) =~= t);
    assert(numeral_ms(s) == digits_value(t) * pow10(digits_value(x) + 3));
}

/// A leading `'+'` changes nothing: "+t" reads as "t".
pub proof fn lemma_plus_sign(t: Seq<char>)
    requires
        t.len() == 0 || t[0] != '+',
    ensures
        parsed_wait(seq!['+'] + t) == parsed_wait(t),
{
    let s = seq!['+'] + t;
    lemma_first_of_after(seq!['+'], t, 'e', 'E');
    lemma_first_of(t, 'e', 'E');
    assert(sign_len(s) == 1);
    assert(sign_len(t) == 0);
    assert(mantissa(s) =~= mantissa(t));
    if exp_index(t) < t.len() {
        assert(exponent_text(s) =~= exponent_text(t));
    }
    assert(is_wait_numeral(s) == is_wait_numeral(t));
    assert(numeral_exponent(s) == numeral_exponent(t));
}

proof fn lemma_nat_digits_lead(n: nat)
    ensures
        n >= 1 ==> nat_digits(n)[0] != '0',
        nat_digits(n).len() > 0,
    decreases n,
{
    if n >= 10 {
        lemma_nat_digits_lead(n / 10);
        assert(nat_digits(n)[0] == nat_digits(n / 10)[0]);
    } else {
        lemma_digit_char(n);
    }
}

/// A wait time is shown in the shortest way: whole seconds without a point,
/// no leading zero before other digits, and a fraction without trailing
/// zeros.
pub proof fn lemma_wait_text_shortest(ms: u64)
    ensures
        ({
            let t = wait_text(ms as nat);
            &&& ms % 1000 == 0 ==> forall|i: int| 0 <= i < t.len() ==> t[i] != '.'
            &&& ms % 1000 != 0 ==> t.last() != '0' && t.last() != '.'
            &&& ms >= 1000 ==> t[0] != '0'
            &&& ms < 1000 ==> t[0] == '0'
        }),
{
    let n = ms as nat / 1000;
    let r = ms as nat % 1000;
    let a = nat_digits(n);
    let t = wait_text(ms as nat);
    lemma_nat_digits(n);
    lemma_nat_digits_lead(n);
    lemma_digit_char(r / 100);
    lemma_digit_char((r / 10) % 10);
    lemma_digit_char(r % 10);
    assert(t[0] == a[0]);
    if r == 0 {
        assert(t =~= a);
        assert forall|i: int| 0 <= i < t.len() implies t[i] != '.' by {
            assert(is_digit(a[i]));
        }
    }
    if n == 0 {
        assert(a =~= seq![digit_char(0)]);
    }
}

} // verus!
