//! Arithmetic on numbers with 53 binary digits, each result rounded to the
//! nearest such number and, of two that are equally near, to the even one.
//!
//! This is what IEEE 754 prescribes for double precision. Only numbers that are
//! not negative are needed, and none so large or so small that their exponent
//! would be out of that format's range.
use vstd::prelude::*;

verus! {

/// The smallest mantissa of a number other than zero.
pub const LEAST_MANTISSA: u64 = 0x10_0000_0000_0000;

/// The first number above all mantissas.
pub const MANTISSA_END: u64 = 0x20_0000_0000_0000;

/// The number `mantissa * 2^exponent`.
#[derive(Debug, Clone, Copy, PartialEq, Eq, Structural)]
pub struct Binary64 {
    pub mantissa: u64,
    pub exponent: i32,
}

impl View for Binary64 {
    type V = (int, int);

    open spec fn view(&self) -> (int, int) {
        (self.mantissa as int, self.exponent as int)
    }
}

/// Whether a pair is a number in its one form: zero, or a mantissa of 53 digits.
pub open spec fn normal(b: (int, int)) -> bool {
    b == (0int, 0int) || LEAST_MANTISSA <= b.0 < MANTISSA_END
}

/// The integer next to a quotient; of two that are equally near, the even one.
pub open spec fn nearest(num: int, den: int) -> int {
    let q = num / den;
    let r = num % den;
    if 2 * r > den || (2 * r == den && q % 2 == 1) {
        q + 1
    } else {
        q
    }
}

/// How far a quotient is from having 53 digits before the point.
pub open spec fn distance(num: int, den: int) -> int {
    if num < LEAST_MANTISSA * den {
        LEAST_MANTISSA * den - num
    } else if num >= MANTISSA_END * den {
        num / den
    } else {
        0
    }
}

/// `num / den * 2^e`, rounded: the quotient is doubled or halved until it has 53
/// digits before the point, and what stands behind the point is rounded away.
pub open spec fn rounded(num: int, den: int, e: int) -> (int, int)
    decreases distance(num, den),
    via rounded_ends
{
    if num <= 0 || den <= 0 {
        (0, 0)
    } else if num < LEAST_MANTISSA * den {
        rounded(2 * num, den, e - 1)
    } else if num >= MANTISSA_END * den {
        rounded(num, 2 * den, e + 1)
    } else if nearest(num, den) == MANTISSA_END {
        (LEAST_MANTISSA as int, e + 1)
    } else {
        (nearest(num, den), e)
    }
}

pub proof fn lemma_distance(num: int, den: int)
    requires
        num > 0,
        den > 0,
    ensures
        distance(num, den) >= 0,
        num < LEAST_MANTISSA * den ==> 0 <= distance(2 * num, den) < distance(num, den),
        num >= MANTISSA_END * den ==> 0 <= distance(num, 2 * den) < distance(num, den),
{
    if num >= MANTISSA_END * den {
        assert(0 <= num / (2 * den) < num / den) by (nonlinear_arith)
            requires
                den > 0,
                num >= 0x20_0000_0000_0000 * den,
        ;
    }
}

#[via_fn]
proof fn rounded_ends(num: int, den: int, e: int) {
    if num > 0 && den > 0 {
        lemma_distance(num, den);
    }
}

/// A whole number.
pub open spec fn count_of(n: int) -> (int, int) {
    rounded(n, 1, 0)
}

pub open spec fn quotient(a: (int, int), b: (int, int)) -> (int, int) {
    rounded(a.0, b.0, a.1 - b.1)
}

pub open spec fn product(a: (int, int), b: (int, int)) -> (int, int) {
    rounded(a.0 * b.0, 1, a.1 + b.1)
}

pub open spec fn two_to(n: int) -> int
    decreases n,
{
    if n <= 0 {
        1
    } else {
        2 * two_to(n - 1)
    }
}

pub open spec fn sum(a: (int, int), b: (int, int)) -> (int, int) {
    if a.0 == 0 {
        b
    } else if b.0 == 0 {
        a
    } else {
        let e = if a.1 < b.1 {
            a.1
        } else {
            b.1
        };
        rounded(a.0 * two_to(a.1 - e) + b.0 * two_to(b.1 - e), 1, e)
    }
}

/// Whether a number is less than another. Both have 53 digits, so the exponent
/// decides before the mantissa does.
pub open spec fn below(a: (int, int), b: (int, int)) -> bool {
    if a.0 <= 0 || b.0 <= 0 {
        a.0 <= 0 < b.0
    } else {
        a.1 < b.1 || (a.1 == b.1 && a.0 < b.0)
    }
}

/// The number 1.
pub open spec fn one() -> (int, int) {
    (LEAST_MANTISSA as int, -52)
}

/// The number next to 0.8.
pub open spec fn four_fifths() -> (int, int) {
    (0x19_9999_9999_999A, -53)
}

pub proof fn lemma_nearest(num: int, den: int)
    requires
        0 < den,
        LEAST_MANTISSA * den <= num < MANTISSA_END * den,
    ensures
        LEAST_MANTISSA <= nearest(num, den) <= MANTISSA_END,
        2 * num - den <= 2 * (nearest(num, den) * den) <= 2 * num + den,
{
    let q = num / den;
    let r = num % den;
    assert(num == q * den + r && 0 <= r < den) by (nonlinear_arith)
        requires
            den > 0,
            q == num / den,
            r == num % den,
    ;
    assert(0x10_0000_0000_0000 <= q < 0x20_0000_0000_0000) by (nonlinear_arith)
        requires
            0x10_0000_0000_0000 * den <= num < 0x20_0000_0000_0000 * den,
            num == q * den + r,
            0 <= r < den,
    ;
    assert((q + 1) * den == q * den + den) by (nonlinear_arith);
}

/// A rounded number has its one form.
pub proof fn lemma_rounded_normal(num: int, den: int, e: int)
    ensures
        normal(rounded(num, den, e)),
        num > 0 && den > 0 ==> rounded(num, den, e).0 > 0,
    decreases distance(num, den),
{
    if num <= 0 || den <= 0 {
    } else if num < LEAST_MANTISSA * den {
        lemma_distance(num, den);
        lemma_rounded_normal(2 * num, den, e - 1);
    } else if num >= MANTISSA_END * den {
        lemma_distance(num, den);
        lemma_rounded_normal(num, 2 * den, e + 1);
    } else {
        lemma_nearest(num, den);
    }
}

// ---------------------------------------------------------------------------
// Powers of two
// ---------------------------------------------------------------------------

pub proof fn lemma_two_to_positive(n: int)
    ensures
        two_to(n) >= 1,
    decreases n,
{
    if n > 0 {
        lemma_two_to_positive(n - 1);
    }
}

pub proof fn lemma_two_to_adds(a: int, b: int)
    requires
        0 <= a,
        0 <= b,
    ensures
        two_to(a + b) == two_to(a) * two_to(b),
    decreases a,
{
    if a > 0 {
        lemma_two_to_adds(a - 1, b);
        assert(2 * (two_to(a - 1) * two_to(b)) == (2 * two_to(a - 1)) * two_to(b))
            by (nonlinear_arith);
    }
}

pub proof fn lemma_two_to_grows(a: int, b: int)
    requires
        a <= b,
    ensures
        two_to(a) <= two_to(b),
    decreases b - a,
{
    if a < b {
        lemma_two_to_grows(a, b - 1);
        lemma_two_to_positive(b - 1);
    }
}

pub proof fn lemma_two_to_values()
    ensures
        two_to(52) == LEAST_MANTISSA,
        two_to(53) == MANTISSA_END,
        two_to(64) == 0x1_0000_0000_0000_0000,
        two_to(118) == 0x40_0000_0000_0000_0000_0000_0000_0000,
{
    reveal_with_fuel(two_to, 14);
    assert(two_to(13) == 0x2000);
    lemma_two_to_adds(13, 13);
    lemma_two_to_adds(26, 26);
    lemma_two_to_adds(1, 52);
    assert(two_to(1) == 2);
    assert(two_to(11) == 2048);
    lemma_two_to_adds(53, 11);
    lemma_two_to_adds(53, 1);
    lemma_two_to_adds(54, 64);
}

// ---------------------------------------------------------------------------
// Computing
// ---------------------------------------------------------------------------

impl Binary64 {
    pub open spec fn wf(self) -> bool {
        normal(self@) && -5000 <= self.exponent <= 5000
    }
}

/// Rounds `num / den * 2^e`.
fn round(num: u128, den: u128, e: i32) -> (r: Binary64)
    requires
        0 < den < 0x1_0000_0000_0000_0000,
        num < 0x40_0000_0000_0000_0000_0000_0000_0000,
        -10_000 <= e <= 10_000,
    ensures
        r@ == rounded(num as int, den as int, e as int),
        normal(r@),
        num > 0 ==> e - 119 <= r.exponent <= e + 119,
{
    proof {
        lemma_rounded_normal(num as int, den as int, e as int);
        lemma_two_to_values();
    }
    if num == 0 {
        return Binary64 { mantissa: 0, exponent: 0 };
    }
    let mut n: u128 = num;
    let mut d: u128 = den;
    let mut x: i32 = e;
    proof {
        assert(two_to(0) == 1);
    }
    while n < LEAST_MANTISSA as u128 * d
        invariant
            d == den,
            0 < den < 0x1_0000_0000_0000_0000,
            0 < n < 0x40_0000_0000_0000_0000_0000_0000_0000,
            -10_000 <= e <= 10_000,
            x <= e,
            e - x <= 118,
            n >= two_to(e - x),
            two_to(118) == 0x40_0000_0000_0000_0000_0000_0000_0000,
            n == num || n < MANTISSA_END * d,
            rounded(num as int, den as int, e as int) == rounded(n as int, d as int, x as int),
        decreases 2 * (LEAST_MANTISSA * d) - n,
    {
        proof {
            if e - x >= 118 {
                lemma_two_to_grows(118, e - x);
            }
            assert(two_to(e - x + 1) == 2 * two_to(e - x));
        }
        n = 2 * n;
        x = x - 1;
    }
    let ghost low = x;
    while n >= MANTISSA_END as u128 * d
        invariant
            0 < n < 0x40_0000_0000_0000_0000_0000_0000_0000,
            0 < d,
            d < 0x1_0000_0000_0000_0000 || MANTISSA_END * d <= 2 * n,
            n >= LEAST_MANTISSA * d,
            -10_000 <= e <= 10_000,
            e - 118 <= low <= e,
            low <= x <= low + 118,
            d >= two_to(x - low),
            two_to(118) == 0x40_0000_0000_0000_0000_0000_0000_0000,
            rounded(num as int, den as int, e as int) == rounded(n as int, d as int, x as int),
        decreases 2 * n - MANTISSA_END * d,
    {
        proof {
            if x - low >= 118 {
                lemma_two_to_grows(118, x - low);
            }
            assert(two_to(x - low + 1) == 2 * two_to(x - low));
        }
        d = 2 * d;
        x = x + 1;
    }
    proof {
        lemma_nearest(n as int, d as int);
    }
    let q: u128 = n / d;
    let rest: u128 = n % d;
    proof {
        assert(0 <= q && q <= n && rest < d) by (nonlinear_arith)
            requires
                d > 0,
                n > 0,
                q == n / d,
                rest == n % d,
        ;
        assert(q as int == n as int / d as int);
        assert(rest as int == n as int % d as int);
    }
    let up = rest > d - rest || (rest == d - rest && q % 2 == 1);
    let m: u128 = if up {
        q + 1
    } else {
        q
    };
    proof {
        assert(m == nearest(n as int, d as int));
    }
    if m == MANTISSA_END as u128 {
        Binary64 { mantissa: LEAST_MANTISSA, exponent: x + 1 }
    } else {
        Binary64 { mantissa: m as u64, exponent: x }
    }
}

/// A whole number.
pub fn from_count(n: u64) -> (r: Binary64)
    ensures
        r@ == count_of(n as int),
        r.wf(),
        n > 0 ==> r.mantissa > 0,
        -119 <= r.exponent <= 119,
{
    proof {
        lemma_rounded_normal(n as int, 1, 0);
    }
    round(n as u128, 1, 0)
}

pub fn divide(a: Binary64, b: Binary64) -> (r: Binary64)
    requires
        normal(a@),
        normal(b@),
        b.mantissa > 0,
        -3000 <= a.exponent <= 3000,
        -1000 <= b.exponent <= 1000,
    ensures
        r@ == quotient(a@, b@),
        r.wf(),
        a.mantissa > 0 ==> a.exponent - b.exponent - 119 <= r.exponent <= a.exponent - b.exponent
            + 119,
        a.mantissa == 0 ==> r.exponent == 0,
{
    round(a.mantissa as u128, b.mantissa as u128, a.exponent - b.exponent)
}

pub fn multiply(a: Binary64, b: Binary64) -> (r: Binary64)
    requires
        normal(a@),
        normal(b@),
        -2000 <= a.exponent <= 2000,
        -1000 <= b.exponent <= 1000,
    ensures
        r@ == product(a@, b@),
        r.wf(),
        a.exponent + b.exponent - 119 <= r.exponent <= a.exponent + b.exponent + 119
            || r.exponent == 0,
{
    proof {
        assert(a.mantissa as int * b.mantissa as int <= 0x20_0000_0000_0000 * 0x20_0000_0000_0000)
            by (nonlinear_arith)
            requires
                0 <= a.mantissa as int <= 0x20_0000_0000_0000,
                0 <= b.mantissa as int <= 0x20_0000_0000_0000,
        ;
        assert(a.mantissa as int * b.mantissa as int >= 0) by (nonlinear_arith)
            requires
                0 <= a.mantissa as int,
                0 <= b.mantissa as int,
        ;
    }
    round(a.mantissa as u128 * b.mantissa as u128, 1, a.exponent + b.exponent)
}

/// A number so small that it cannot be seen beside another is rounded away.
proof fn lemma_rounded_away(a: int, b: int, d: int, e: int, j: int)
    requires
        LEAST_MANTISSA <= a < MANTISSA_END,
        0 <= b < MANTISSA_END,
        d >= 55,
        0 <= j <= d,
    ensures
        rounded(a * two_to(d) + b, two_to(j), e + j) == (a, e + d),
    decreases d - j,
{
    let num = a * two_to(d) + b;
    lemma_two_to_positive(j);
    lemma_two_to_positive(d);
    lemma_two_to_values();
    lemma_two_to_grows(53, d - 2);
    assert(two_to(d) == 4 * two_to(d - 2)) by {
        assert(two_to(d) == 2 * two_to(d - 1));
        assert(two_to(d - 1) == 2 * two_to(d - 2));
    }
    assert(0x10_0000_0000_0000 * two_to(d) <= a * two_to(d) <= (0x20_0000_0000_0000 - 1) * two_to(d))
        by (nonlinear_arith)
        requires
            0x10_0000_0000_0000 <= a < 0x20_0000_0000_0000,
            two_to(d) >= 1,
    ;
    if j < d {
        lemma_two_to_grows(j, d - 1);
        assert(two_to(d) == 2 * two_to(d - 1));
        assert(num >= MANTISSA_END * two_to(j));
        assert(two_to(j + 1) == 2 * two_to(j));
        lemma_rounded_away(a, b, d, e, j + 1);
    } else {
        let t = two_to(d);
        assert(LEAST_MANTISSA * t <= num < MANTISSA_END * t);
        vstd::arithmetic::div_mod::lemma_fundamental_div_mod_converse(num, t, a, b);
        assert(nearest(num, t) == a);
    }
}

fn add_aligned(a: Binary64, b: Binary64) -> (r: Binary64)
    requires
        normal(a@),
        normal(b@),
        a.mantissa > 0,
        b.mantissa > 0,
        -2000 <= b.exponent <= a.exponent <= 2000,
    ensures
        r@ == rounded(
            a.mantissa * two_to(a.exponent - b.exponent) + b.mantissa,
            1,
            b.exponent as int,
        ),
        normal(r@),
        b.exponent - 119 <= r.exponent <= a.exponent + 119,
{
    let d: i32 = a.exponent - b.exponent;
    if d >= 60 {
        proof {
            lemma_rounded_away(
                a.mantissa as int,
                b.mantissa as int,
                d as int,
                b.exponent as int,
                0,
            );
            assert(two_to(0) == 1);
        }
        return a;
    }
    let mut n: u128 = a.mantissa as u128;
    let mut k: i32 = 0;
    proof {
        assert(two_to(0) == 1);
        lemma_two_to_values();
    }
    while k < d
        invariant
            0 <= k <= d < 60,
            0 < a.mantissa < MANTISSA_END,
            n == a.mantissa * two_to(k as int),
            two_to(64) == 0x1_0000_0000_0000_0000,
            n < 0x40_0000_0000_0000_0000_0000_0000_0000,
        decreases d - k,
    {
        proof {
            lemma_two_to_grows(k + 1, 64);
            lemma_two_to_positive(k + 1);
            assert(two_to(k + 1) == 2 * two_to(k as int));
            assert(a.mantissa * (2 * two_to(k as int)) == 2 * (a.mantissa * two_to(k as int)))
                by (nonlinear_arith);
            assert(a.mantissa * two_to(k + 1) <= 0x20_0000_0000_0000 * 0x1_0000_0000_0000_0000)
                by (nonlinear_arith)
                requires
                    0 <= a.mantissa as int <= 0x20_0000_0000_0000,
                    two_to(k + 1) <= 0x1_0000_0000_0000_0000,
                    0 <= two_to(k + 1),
            ;
        }
        n = 2 * n;
        k = k + 1;
    }
    proof {
        lemma_two_to_grows(d as int, 63);
        lemma_two_to_positive(d as int);
        assert(two_to(64) == 2 * two_to(63));
        assert(a.mantissa * two_to(d as int) <= 0x20_0000_0000_0000 * 0x8000_0000_0000_0000)
            by (nonlinear_arith)
            requires
                0 <= a.mantissa as int <= 0x20_0000_0000_0000,
                0 <= two_to(d as int) <= 0x8000_0000_0000_0000,
        ;
    }
    round(n + b.mantissa as u128, 1, b.exponent)
}

pub fn plus(a: Binary64, b: Binary64) -> (r: Binary64)
    requires
        normal(a@),
        normal(b@),
        -2000 <= a.exponent <= 2000,
        -2000 <= b.exponent <= 2000,
    ensures
        r@ == sum(a@, b@),
        r.wf(),
        -2119 <= r.exponent <= 2119,
{
    if a.mantissa == 0 {
        return b;
    }
    if b.mantissa == 0 {
        return a;
    }
    proof {
        assert(two_to(0) == 1);
    }
    if a.exponent < b.exponent {
        add_aligned(b, a)
    } else {
        add_aligned(a, b)
    }
}

pub fn less(a: Binary64, b: Binary64) -> (r: bool)
    ensures
        r == below(a@, b@),
{
    if a.mantissa == 0 || b.mantissa == 0 {
        a.mantissa == 0 && b.mantissa > 0
    } else {
        a.exponent < b.exponent || (a.exponent == b.exponent && a.mantissa < b.mantissa)
    }
}

} // verus!
