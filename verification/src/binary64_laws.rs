//! What holds of rounded arithmetic.
use crate::binary64::{
    LEAST_MANTISSA, MANTISSA_END, count_of, distance, lemma_distance, lemma_nearest,
    lemma_rounded_normal, lemma_two_to_adds, lemma_two_to_positive, lemma_two_to_values, nearest,
    normal, one, product, quotient, rounded, sum, two_to,
};
use vstd::prelude::*;

verus! {

proof fn lemma_nearest_factor(num: int, den: int, c: int)
    requires
        num > 0,
        den > 0,
        c > 0,
    ensures
        nearest(c * num, c * den) == nearest(num, den),
{
    let q = num / den;
    let r = num % den;
    assert(num == q * den + r && 0 <= r < den) by (nonlinear_arith)
        requires
            den > 0,
            q == num / den,
            r == num % den,
    ;
    assert(c * num == q * (c * den) + c * r) by (nonlinear_arith)
        requires
            num == q * den + r,
    ;
    assert(0 <= c * r < c * den && c * den > 0) by (nonlinear_arith)
        requires
            0 <= r < den,
            c > 0,
    ;
    vstd::arithmetic::div_mod::lemma_fundamental_div_mod_converse(c * num, c * den, q, c * r);
    assert((2 * (c * r) > c * den) == (2 * r > den)) by (nonlinear_arith)
        requires
            c > 0,
    ;
    assert((2 * (c * r) == c * den) == (2 * r == den)) by (nonlinear_arith)
        requires
            c > 0,
    ;
}

/// A common factor of both parts of a quotient does not matter.
proof fn lemma_rounded_factor(num: int, den: int, e: int, c: int)
    requires
        num > 0,
        den > 0,
        c > 0,
    ensures
        rounded(c * num, c * den, e) == rounded(num, den, e),
    decreases distance(num, den),
{
    lemma_distance(num, den);
    assert(c * num > 0 && c * den > 0) by (nonlinear_arith)
        requires
            num > 0,
            den > 0,
            c > 0,
    ;
    assert((c * num < 0x10_0000_0000_0000 * (c * den)) == (num < 0x10_0000_0000_0000 * den))
        by (nonlinear_arith)
        requires
            c > 0,
    ;
    assert((c * num >= 0x20_0000_0000_0000 * (c * den)) == (num >= 0x20_0000_0000_0000 * den))
        by (nonlinear_arith)
        requires
            c > 0,
    ;
    if num < LEAST_MANTISSA * den {
        lemma_rounded_factor(2 * num, den, e - 1, c);
        assert(c * (2 * num) == 2 * (c * num)) by (nonlinear_arith);
    } else if num >= MANTISSA_END * den {
        lemma_rounded_factor(num, 2 * den, e + 1, c);
        assert(c * (2 * den) == 2 * (c * den)) by (nonlinear_arith);
    } else {
        lemma_nearest_factor(num, den, c);
    }
}

proof fn lemma_rounded_doubled(num: int, den: int, e: int)
    requires
        num > 0,
        den > 0,
    ensures
        rounded(2 * num, den, e - 1) == rounded(num, den, e),
{
    if num >= LEAST_MANTISSA * den {
        lemma_rounded_factor(num, den, e, 2);
    }
}

proof fn lemma_rounded_halved(num: int, den: int, e: int)
    requires
        num > 0,
        den > 0,
    ensures
        rounded(num, 2 * den, e + 1) == rounded(num, den, e),
{
    lemma_rounded_factor(num, den, e, 2);
    lemma_rounded_doubled(num, 2 * den, e + 1);
}

pub proof fn lemma_rounded_shifted_up(num: int, den: int, e: int, k: int)
    requires
        num > 0,
        den > 0,
        k >= 0,
    ensures
        rounded(num * two_to(k), den, e - k) == rounded(num, den, e),
    decreases k,
{
    if k > 0 {
        lemma_rounded_shifted_up(num, den, e, k - 1);
        lemma_two_to_positive(k - 1);
        let n = num * two_to(k - 1);
        assert(n > 0) by (nonlinear_arith)
            requires
                num > 0,
                two_to(k - 1) >= 1,
                n == num * two_to(k - 1),
        ;
        lemma_rounded_doubled(n, den, e - k + 1);
        assert(num * (2 * two_to(k - 1)) == 2 * (num * two_to(k - 1))) by (nonlinear_arith);
    } else {
        assert(num * 1 == num);
    }
}

pub proof fn lemma_rounded_shifted_down(num: int, den: int, e: int, k: int)
    requires
        num > 0,
        den > 0,
        k >= 0,
    ensures
        rounded(num, den * two_to(k), e + k) == rounded(num, den, e),
    decreases k,
{
    if k > 0 {
        lemma_rounded_shifted_down(num, den, e, k - 1);
        lemma_two_to_positive(k - 1);
        let d = den * two_to(k - 1);
        assert(d > 0) by (nonlinear_arith)
            requires
                den > 0,
                two_to(k - 1) >= 1,
                d == den * two_to(k - 1),
        ;
        lemma_rounded_halved(num, d, e + k - 1);
        assert(den * (2 * two_to(k - 1)) == 2 * (den * two_to(k - 1))) by (nonlinear_arith);
    } else {
        assert(den * 1 == den);
    }
}

/// A whole number of at most 53 digits stays as it is.
pub proof fn lemma_exact(num: int, e: int)
    requires
        0 < num < MANTISSA_END,
    ensures
        rounded(num, 1, e).1 <= e,
        rounded(num, 1, e).0 == num * two_to(e - rounded(num, 1, e).1),
    decreases MANTISSA_END - num,
{
    if num < LEAST_MANTISSA {
        lemma_exact(2 * num, e - 1);
        let r = rounded(2 * num, 1, e - 1);
        assert(two_to(e - r.1) == 2 * two_to(e - 1 - r.1));
        assert((2 * num) * two_to(e - 1 - r.1) == num * (2 * two_to(e - 1 - r.1)))
            by (nonlinear_arith);
    } else {
        assert(num / 1 == num && num % 1 == 0);
        assert(two_to(0) == 1);
    }
}

/// Dividing whole numbers of at most 53 digits rounds once.
pub proof fn lemma_quotient_of_counts(m: int, n: int)
    requires
        0 < m < MANTISSA_END,
        0 < n < MANTISSA_END,
    ensures
        quotient(count_of(m), count_of(n)) == rounded(m, n, 0),
{
    lemma_exact(m, 0);
    lemma_exact(n, 0);
    let j = -count_of(m).1;
    let k = -count_of(n).1;
    lemma_rounded_shifted_down(m, n, 0, k);
    lemma_two_to_positive(k);
    assert(n * two_to(k) > 0) by (nonlinear_arith)
        requires
            n > 0,
            two_to(k) >= 1,
    ;
    lemma_rounded_shifted_up(m, n * two_to(k), k, j);
}

/// Where a quotient has too few digits, rounding never raises the exponent.
pub proof fn lemma_exponent_falls(num: int, den: int, e: int)
    requires
        num > 0,
        den > 0,
        num < LEAST_MANTISSA * den,
    ensures
        rounded(num, den, e).1 <= e,
    decreases distance(num, den),
{
    lemma_distance(num, den);
    assert(rounded(num, den, e) == rounded(2 * num, den, e - 1));
    if 2 * num < LEAST_MANTISSA * den {
        lemma_exponent_falls(2 * num, den, e - 1);
    } else {
        assert(2 * num < MANTISSA_END * den);
    }
}

/// Of two whole numbers of at most 53 digits, the quotient of the smaller and the
/// greater is 1 only where they are equal.
pub proof fn a_rounded_ratio_is_one_only_of_equals(m: int, n: int)
    requires
        0 <= m <= n < MANTISSA_END,
        0 < n,
    ensures
        (quotient(count_of(m), count_of(n)) == one()) == (m == n),
{
    if m > 0 {
        lemma_quotient_of_counts(m, n);
        lemma_two_to_values();
        if m == n {
            lemma_rounded_factor(1, 1, 0, n);
            assert(n * 1 == n);
            lemma_rounded_shifted_up(1, 1, 0, 52);
            assert(LEAST_MANTISSA as int / 1 == LEAST_MANTISSA as int);
            assert(rounded(LEAST_MANTISSA as int, 1, -52) == one());
        } else {
            lemma_rounded_shifted_up(m, n, 0, 53);
            let num = m * MANTISSA_END;
            assert(num < (0x20_0000_0000_0000 - 1) * n) by (nonlinear_arith)
                requires
                    num == m * 0x20_0000_0000_0000,
                    m <= n - 1,
                    n < 0x20_0000_0000_0000,
            ;
            if num < LEAST_MANTISSA * n {
                lemma_exponent_falls(num, n, -53);
            } else {
                lemma_nearest(num, n);
                assert(num / n < 0x20_0000_0000_0000 - 1) by (nonlinear_arith)
                    requires
                        num < (0x20_0000_0000_0000 - 1) * n,
                        n > 0,
                ;
            }
        }
    } else {
        lemma_rounded_normal(n, 1, 0);
    }
}

/// A number times `2^k`, for a `k` that makes it whole.
pub open spec fn scaled(b: (int, int), k: int) -> int {
    b.0 * two_to(b.1 + k)
}

proof fn lemma_close_base(num: int, den: int, m: int, p: int)
    requires
        num > 0,
        den > 0,
        p > 0,
        LEAST_MANTISSA * den <= num,
        2 * num - den <= 2 * (m * den) <= 2 * num + den,
    ensures
        MANTISSA_END * ((m * p) * den) <= (MANTISSA_END + 1) * (num * p),
        MANTISSA_END * ((m * p) * den) >= (MANTISSA_END - 1) * (num * p),
{
    let a = m * den;
    assert(2 * a <= 2 * num + den && 2 * a >= 2 * num - den);
    assert(0x10_0000_0000_0000 * den <= num);
    assert(0x20_0000_0000_0000 * a <= 0x20_0000_0000_0000 * num + 0x10_0000_0000_0000 * den);
    assert(0x20_0000_0000_0000 * a >= 0x20_0000_0000_0000 * num - 0x10_0000_0000_0000 * den);
    assert((0x20_0000_0000_0000 + 1) * num == 0x20_0000_0000_0000 * num + num) by (nonlinear_arith);
    assert((0x20_0000_0000_0000 - 1) * num == 0x20_0000_0000_0000 * num - num) by (nonlinear_arith);
    assert((m * p) * den == a * p) by (nonlinear_arith)
        requires
            a == m * den,
    ;
    assert(0x20_0000_0000_0000 * (a * p) <= (0x20_0000_0000_0000 + 1) * (num * p))
        by (nonlinear_arith)
        requires
            0x20_0000_0000_0000 * a <= (0x20_0000_0000_0000 + 1) * num,
            p > 0,
    ;
    assert(0x20_0000_0000_0000 * (a * p) >= (0x20_0000_0000_0000 - 1) * (num * p))
        by (nonlinear_arith)
        requires
            0x20_0000_0000_0000 * a >= (0x20_0000_0000_0000 - 1) * num,
            p > 0,
    ;
}

/// A rounded number is off by no more than one part in 2^53.
pub proof fn rounding_is_close(num: int, den: int, e: int, k: int)
    requires
        num > 0,
        den > 0,
        e + k >= 0,
        rounded(num, den, e).1 + k >= 1,
    ensures
        MANTISSA_END * (scaled(rounded(num, den, e), k) * den) <= (MANTISSA_END + 1) * (num
            * two_to(e + k)),
        MANTISSA_END * (scaled(rounded(num, den, e), k) * den) >= (MANTISSA_END - 1) * (num
            * two_to(e + k)),
    decreases distance(num, den),
{
    let r = rounded(num, den, e);
    let s = scaled(r, k);
    let p = two_to(e + k);
    lemma_distance(num, den);
    lemma_two_to_positive(e + k);
    if num < LEAST_MANTISSA * den {
        lemma_exponent_falls(num, den, e);
        rounding_is_close(2 * num, den, e - 1, k);
        assert(p == 2 * two_to(e - 1 + k));
        assert((2 * num) * two_to(e - 1 + k) == num * (2 * two_to(e - 1 + k))) by (nonlinear_arith);
    } else if num >= MANTISSA_END * den {
        rounding_is_close(num, 2 * den, e + 1, k);
        assert(two_to(e + 1 + k) == 2 * p);
        assert(s * (2 * den) == 2 * (s * den)) by (nonlinear_arith);
        assert(num * (2 * p) == 2 * (num * p)) by (nonlinear_arith);
    } else {
        let m = nearest(num, den);
        lemma_nearest(num, den);
        lemma_close_base(num, den, m, p);
        if m == MANTISSA_END {
            assert(two_to(e + 1 + k) == 2 * p);
            assert(0x10_0000_0000_0000 * (2 * p) == 0x20_0000_0000_0000 * p) by (nonlinear_arith);
        }
        assert(s == m * p);
    }
}

/// Multiplying by a whole number of at most 53 digits rounds once.
pub proof fn lemma_product_by_count(a: (int, int), n: int)
    requires
        a.0 > 0,
        0 < n < MANTISSA_END,
    ensures
        product(a, count_of(n)) == rounded(a.0 * n, 1, a.1),
{
    lemma_exact(n, 0);
    let j = -count_of(n).1;
    assert(a.0 * n > 0) by (nonlinear_arith)
        requires
            a.0 > 0,
            n > 0,
    ;
    lemma_rounded_shifted_up(a.0 * n, 1, a.1, j);
    assert(a.0 * (n * two_to(j)) == (a.0 * n) * two_to(j)) by (nonlinear_arith);
}

/// Dividing by a whole number of at most 53 digits rounds once.
pub proof fn lemma_quotient_by_count(a: (int, int), n: int)
    requires
        a.0 > 0,
        0 < n < MANTISSA_END,
    ensures
        quotient(a, count_of(n)) == rounded(a.0, n, a.1),
{
    lemma_exact(n, 0);
    lemma_rounded_shifted_down(a.0, n, a.1, -count_of(n).1);
}

proof fn lemma_scaled_shift(a: (int, int), e: int, k: int)
    requires
        e <= a.1,
        0 <= e + k,
    ensures
        (a.0 * two_to(a.1 - e)) * two_to(e + k) == scaled(a, k),
{
    lemma_two_to_adds(a.1 - e, e + k);
    assert((a.0 * two_to(a.1 - e)) * two_to(e + k) == a.0 * (two_to(a.1 - e) * two_to(e + k)))
        by (nonlinear_arith);
}

/// A sum is not much greater or smaller than its parts together.
pub proof fn lemma_sum_close(a: (int, int), b: (int, int), k: int)
    requires
        normal(a),
        normal(b),
        a.1 + k >= 0,
        b.1 + k >= 0,
        sum(a, b).1 + k >= 1,
    ensures
        MANTISSA_END * scaled(sum(a, b), k) <= (MANTISSA_END + 1) * (scaled(a, k) + scaled(b, k)),
        MANTISSA_END * scaled(sum(a, b), k) >= (MANTISSA_END - 1) * (scaled(a, k) + scaled(b, k)),
{
    let r = sum(a, b);
    lemma_two_to_positive(a.1 + k);
    lemma_two_to_positive(b.1 + k);
    assert(scaled(a, k) >= 0) by (nonlinear_arith)
        requires
            scaled(a, k) == a.0 * two_to(a.1 + k),
            a.0 >= 0,
            two_to(a.1 + k) >= 1,
    ;
    assert(scaled(b, k) >= 0) by (nonlinear_arith)
        requires
            scaled(b, k) == b.0 * two_to(b.1 + k),
            b.0 >= 0,
            two_to(b.1 + k) >= 1,
    ;
    if a.0 == 0 {
        assert(0 * two_to(a.1 + k) == 0);
    } else if b.0 == 0 {
        assert(0 * two_to(b.1 + k) == 0);
    } else {
        let e = if a.1 < b.1 {
            a.1
        } else {
            b.1
        };
        let x = a.0 * two_to(a.1 - e);
        let y = b.0 * two_to(b.1 - e);
        lemma_two_to_positive(a.1 - e);
        lemma_two_to_positive(b.1 - e);
        assert(x > 0) by (nonlinear_arith)
            requires
                x == a.0 * two_to(a.1 - e),
                a.0 > 0,
                two_to(a.1 - e) >= 1,
        ;
        assert(y > 0) by (nonlinear_arith)
            requires
                y == b.0 * two_to(b.1 - e),
                b.0 > 0,
                two_to(b.1 - e) >= 1,
        ;
        rounding_is_close(x + y, 1, e, k);
        lemma_scaled_shift(a, e, k);
        lemma_scaled_shift(b, e, k);
        assert((x + y) * two_to(e + k) == x * two_to(e + k) + y * two_to(e + k))
            by (nonlinear_arith);
        assert(scaled(r, k) * 1 == scaled(r, k));
    }
}

} // verus!
