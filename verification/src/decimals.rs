//! Rounded numbers, written with two decimals.
use crate::binary64::{
    Binary64, LEAST_MANTISSA, MANTISSA_END, count_of, divide, from_count, lemma_rounded_normal,
    lemma_two_to_adds, lemma_two_to_grows, lemma_two_to_positive, lemma_two_to_values, nearest,
    normal, quotient, two_to,
};
use crate::binary64_laws::{
    lemma_exponent_falls, lemma_quotient_of_counts, rounding_is_close, scaled,
};
use crate::text::{concat3, decimal, decimal_text};
use crate::time::{zero_padded, zero_padded_text};
use vstd::prelude::*;

verus! {

/// How many hundredths a number has, rounded to the nearest whole and, of two
/// that are equally near, to the even one.
pub open spec fn hundredths(b: (int, int)) -> int {
    if b.1 >= 0 {
        100 * (b.0 * two_to(b.1))
    } else {
        nearest(100 * b.0, two_to(-b.1))
    }
}

/// A number with two decimals.
pub open spec fn two_decimals(b: (int, int)) -> Seq<char> {
    decimal((hundredths(b) / 100) as nat) + "."@ + zero_padded((hundredths(b) % 100) as nat, 2)
}

/// The quotient of two whole numbers, each rounded before.
pub open spec fn ratio_of(a: int, b: int) -> (int, int) {
    quotient(count_of(a), count_of(b))
}

spec fn magnitude(n: int) -> int {
    if n < 0 {
        -n
    } else {
        n
    }
}

proof fn lemma_quotient_cross(a: (int, int), b: (int, int), k: int)
    requires
        a.0 > 0,
        b.0 > 0,
        a.1 - b.1 + k >= 0,
        b.1 + k >= 0,
        a.1 + k >= 0,
        k >= 0,
        quotient(a, b).1 + k >= 1,
    ensures
        MANTISSA_END * (scaled(quotient(a, b), k) * scaled(b, k)) <= (MANTISSA_END + 1) * (scaled(
            a,
            k,
        ) * two_to(k)),
{
    let q = quotient(a, b);
    rounding_is_close(a.0, b.0, a.1 - b.1, k);
    let p = two_to(b.1 + k);
    lemma_two_to_positive(b.1 + k);
    lemma_two_to_adds(a.1 - b.1 + k, b.1 + k);
    lemma_two_to_adds(a.1 + k, k);
    let x = two_to(a.1 - b.1 + k);
    let v = scaled(q, k);
    assert((a.0 * x) * p == scaled(a, k) * two_to(k)) by (nonlinear_arith)
        requires
            x * p == two_to(a.1 + k) * two_to(k),
            scaled(a, k) == a.0 * two_to(a.1 + k),
    ;
    assert((v * b.0) * p == v * scaled(b, k)) by (nonlinear_arith)
        requires
            scaled(b, k) == b.0 * p,
    ;
    assert(0x20_0000_0000_0000 * ((v * b.0) * p) <= (0x20_0000_0000_0000 + 1) * ((a.0 * x) * p))
        by (nonlinear_arith)
        requires
            0x20_0000_0000_0000 * (v * b.0) <= (0x20_0000_0000_0000 + 1) * (a.0 * x),
            p >= 1,
    ;
}

/// The quotient of a number up to 2^63 and a whole number is below 2^64.
proof fn lemma_ratio_exponent(a: int, b: int)
    requires
        0 < a <= 0x8000_0000_0000_0000,
        0 < b,
    ensures
        ratio_of(a, b).1 <= 11,
{
    let x = count_of(a);
    let y = count_of(b);
    let q = quotient(x, y);
    if q.1 >= 12 {
        let k = 100 + 2 * magnitude(x.1) + 2 * magnitude(y.1) + magnitude(q.1);
        let t = two_to(k);
        lemma_two_to_positive(k);
        lemma_rounded_normal(a, 1, 0);
        lemma_rounded_normal(b, 1, 0);
        lemma_rounded_normal(x.0, y.0, x.1 - y.1);
        rounding_is_close(a, 1, 0, k);
        rounding_is_close(b, 1, 0, k);
        lemma_quotient_cross(x, y, k);
        lemma_two_to_values();
        lemma_two_to_grows(12 + k, q.1 + k);
        lemma_two_to_adds(12, k);
        reveal_with_fuel(two_to, 13);
        assert(two_to(12) == 4096);
        let vq = scaled(q, k);
        let vx = scaled(x, k);
        let vy = scaled(y, k);
        let e: int = 0x20_0000_0000_0000;
        let u: int = 0x20_0000_0000_0001;
        let d: int = 0x1F_FFFF_FFFF_FFFF;
        let w: int = 0x1_0000_0000_0000_0000;
        let h: int = 0x8000_0000_0000_0000;
        assert(vx * 1 == vx && vy * 1 == vy);
        assert(vq >= w * t) by (nonlinear_arith)
            requires
                vq == q.0 * two_to(q.1 + k),
                q.0 >= 0x10_0000_0000_0000,
                two_to(q.1 + k) >= 4096 * t,
                t >= 1,
                w == 0x1_0000_0000_0000_0000,
        ;
        assert(e * vx <= u * (h * t)) by (nonlinear_arith)
            requires
                e * vx <= u * (a * t),
                a <= h,
                t >= 1,
                u == 0x20_0000_0000_0001,
        ;
        assert(e * vy >= d * t) by (nonlinear_arith)
            requires
                e * vy >= d * (b * t),
                b >= 1,
                t >= 1,
                d == 0x1F_FFFF_FFFF_FFFF,
        ;
        assert(vy >= 1) by (nonlinear_arith)
            requires
                e * vy >= d * t,
                t >= 1,
                d == 0x1F_FFFF_FFFF_FFFF,
                e == 0x20_0000_0000_0000,
        ;
        assert(e * ((w * t) * vy) <= e * (vq * vy)) by (nonlinear_arith)
            requires
                vq >= w * t,
                vy >= 1,
                e == 0x20_0000_0000_0000,
        ;
        assert(e * ((w * t) * vy) <= u * (vx * t));
        assert(e * (w * vy) <= u * vx) by (nonlinear_arith)
            requires
                e * ((w * t) * vy) <= u * (vx * t),
                t >= 1,
        ;
        assert(w * (d * t) <= w * (e * vy)) by (nonlinear_arith)
            requires
                e * vy >= d * t,
                w == 0x1_0000_0000_0000_0000,
        ;
        assert(w * (e * vy) == e * (w * vy)) by (nonlinear_arith);
        assert(e * (w * (d * t)) <= u * (u * (h * t))) by (nonlinear_arith)
            requires
                w * (d * t) <= u * vx,
                e * vx <= u * (h * t),
                e == 0x20_0000_0000_0000,
                u == 0x20_0000_0000_0001,
        ;
        assert(false) by (nonlinear_arith)
            requires
                e * (w * (d * t)) <= u * (u * (h * t)),
                t >= 1,
                e == 0x20_0000_0000_0000,
                u == 0x20_0000_0000_0001,
                d == 0x1F_FFFF_FFFF_FFFF,
                w == 0x1_0000_0000_0000_0000,
                h == 0x8000_0000_0000_0000,
        ;
    }
}

pub fn ratio(a: u64, b: u64) -> (r: Binary64)
    requires
        a <= 0x8000_0000_0000_0000,
        b > 0,
    ensures
        r@ == ratio_of(a as int, b as int),
        normal(r@),
        -1000 <= r.exponent <= 11,
{
    proof {
        if a > 0 {
            lemma_ratio_exponent(a as int, b as int);
        }
    }
    divide(from_count(a), from_count(b))
}

/// Writes a number below 2^64 with two decimals.
pub fn format_two_decimals(b: Binary64) -> (r: String)
    requires
        normal(b@),
        -1000 <= b.exponent <= 11,
    ensures
        r@ == two_decimals(b@),
{
    proof {
        lemma_two_to_values();
    }
    let mut whole: u64 = b.mantissa;
    let mut part: u64 = 0;
    if b.exponent >= 0 {
        let mut k: i32 = 0;
        proof {
            assert(two_to(0) == 1);
        }
        while k < b.exponent
            invariant
                0 <= k <= b.exponent <= 11,
                b.mantissa < MANTISSA_END,
                whole == b.mantissa * two_to(k as int),
            decreases b.exponent - k,
        {
            proof {
                lemma_two_to_grows(k + 1, 11);
                lemma_two_to_positive(k + 1);
                reveal_with_fuel(two_to, 12);
                assert(two_to(11) == 2048);
                assert(b.mantissa * two_to(k + 1) == 2 * (b.mantissa * two_to(k as int)))
                    by (nonlinear_arith)
                    requires
                        two_to(k + 1) == 2 * two_to(k as int),
                ;
                assert(b.mantissa * two_to(k + 1) <= (0x20_0000_0000_0000 - 1) * 2048)
                    by (nonlinear_arith)
                    requires
                        0 <= b.mantissa as int <= 0x20_0000_0000_0000 - 1,
                        0 <= two_to(k + 1) <= 2048,
                ;
            }
            whole = 2 * whole;
            k = k + 1;
        }
        proof {
            assert(hundredths(b@) == 100 * whole);
        }
    } else {
        let num: u128 = 100 * b.mantissa as u128;
        let far: i32 = -b.exponent;
        let mut den: u128 = 1;
        let mut k: i32 = 0;
        proof {
            assert(two_to(0) == 1);
            reveal_with_fuel(two_to, 12);
            assert(two_to(7) == 128);
            lemma_two_to_adds(64, 7);
        }
        while k < far && k < 70
            invariant
                0 <= k <= far,
                k <= 70,
                den == two_to(k as int),
                two_to(71) == 128 * 0x1_0000_0000_0000_0000,
            decreases far - k,
        {
            proof {
                lemma_two_to_grows(k + 1, 71);
                lemma_two_to_positive(k as int);
            }
            den = 2 * den;
            k = k + 1;
        }
        proof {
            lemma_two_to_positive(k as int);
        }
        let q: u128 = num / den;
        let rest: u128 = num % den;
        proof {
            assert(0 <= q && q <= num && rest < den) by (nonlinear_arith)
                requires
                    den > 0,
                    q == num / den,
                    rest == num % den,
            ;
            assert(k >= 1 ==> num / den <= num);
        }
        let up = rest > den - rest || (rest == den - rest && q % 2 == 1);
        let h: u128 = if up {
            q + 1
        } else {
            q
        };
        proof {
            assert(h == nearest(num as int, den as int));
            if k < far {
                let wide = two_to(far as int);
                lemma_two_to_grows(70, far as int);
                assert(two_to(71) == 2 * two_to(70));
                assert(num as int / den as int == 0 && num as int % den as int == num) by {
                    vstd::arithmetic::div_mod::lemma_fundamental_div_mod_converse(
                        num as int,
                        den as int,
                        0,
                        num as int,
                    );
                }
                vstd::arithmetic::div_mod::lemma_fundamental_div_mod_converse(
                    num as int,
                    wide,
                    0,
                    num as int,
                );
                assert(nearest(num as int, wide) == 0);
                assert(nearest(num as int, den as int) == 0);
            }
            assert(hundredths(b@) == h);
            assert(h <= 100 * 0x20_0000_0000_0000 + 1);
        }
        whole = (h / 100) as u64;
        part = (h % 100) as u64;
    }
    let w = decimal_text(whole);
    let p = zero_padded_text(part, 2);
    concat3(w.as_str(), ".", p.as_str())
}

/// Amounts of fewer than 2^52 hundredths are written as they are.
pub proof fn amounts_are_written_exactly(cents: int)
    requires
        0 <= cents < LEAST_MANTISSA,
    ensures
        hundredths(ratio_of(cents, 100)) == cents,
{
    if cents == 0 {
        assert(count_of(0) == (0int, 0int));
        assert(ratio_of(0, 100) == (0int, 0int));
        assert(0 * two_to(0) == 0);
    } else {
        let q = ratio_of(cents, 100);
        lemma_quotient_of_counts(cents, 100);
        lemma_rounded_normal(cents, 100, 0);
        lemma_exponent_falls(cents, 100, 0);
        let k = 1 - q.1;
        rounding_is_close(cents, 100, 0, k);
        let t = two_to(k);
        lemma_two_to_positive(k);
        assert(two_to(0) == 1);
        assert(two_to(1) == 2);
        let v = 100 * q.0;
        assert(scaled(q, k) * 100 == 2 * v) by (nonlinear_arith)
            requires
                scaled(q, k) == q.0 * 2,
                v == 100 * q.0,
        ;
        let c = cents * t;
        assert(2 * c < 0x20_0000_0000_0000 * t) by (nonlinear_arith)
            requires
                c == cents * t,
                cents < 0x10_0000_0000_0000,
                t >= 1,
        ;
        assert((0x20_0000_0000_0000 + 1) * c == 0x20_0000_0000_0000 * c + c) by (nonlinear_arith);
        assert((0x20_0000_0000_0000 - 1) * c == 0x20_0000_0000_0000 * c - c) by (nonlinear_arith);
        // Twice the amount is off by less than half of the step between amounts.
        assert(2 * (2 * v) < 2 * c + t);
        assert(2 * (2 * v) > 2 * c - t);
        if q.1 == 0 {
            assert(t == 2);
            assert(q.0 * two_to(0) == q.0) by {
                assert(two_to(0) == 1);
            }
            assert(c == cents * 2);
        } else {
            let d = two_to(-q.1);
            assert(t == 2 * d);
            assert(c == 2 * (cents * d)) by (nonlinear_arith)
                requires
                    c == cents * t,
                    t == 2 * d,
            ;
            let x = cents * d;
            assert(2 * v < 2 * x + d && 2 * v > 2 * x - d);
            if v >= x {
                vstd::arithmetic::div_mod::lemma_fundamental_div_mod_converse(v, d, cents, v - x);
            } else {
                assert((cents - 1) * d == x - d) by (nonlinear_arith)
                    requires
                        x == cents * d,
                ;
                vstd::arithmetic::div_mod::lemma_fundamental_div_mod_converse(
                    v,
                    d,
                    cents - 1,
                    v - (x - d),
                );
            }
        }
    }
}

} // verus!
