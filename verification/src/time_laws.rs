//! What dates and instants look like as text.
use crate::calendar::{civil, every_day_has_a_date, is_date};
use crate::text::{all_digits, decimal, digit_ascii, digits_value, lemma_decimal};
use crate::time::{date_text, day_text, year_text, zero_padded};
use vstd::prelude::*;

verus! {

proof fn lemma_leading_zeros(k: int, s: Seq<char>)
    requires
        k >= 0,
    ensures
        digits_value(Seq::new(k as nat, |i: int| '0') + s) == digits_value(s),
    decreases s.len(), k,
{
    let zeros = Seq::new(k as nat, |i: int| '0');
    if s.len() > 0 {
        lemma_leading_zeros(k, s.drop_last());
        assert((zeros + s).drop_last() =~= zeros + s.drop_last());
        assert((zeros + s).last() == s.last());
    } else if k > 0 {
        let fewer = Seq::new((k - 1) as nat, |i: int| '0');
        lemma_leading_zeros(k - 1, s);
        assert((zeros + s).drop_last() =~= fewer + s);
        assert((zeros + s).last() == '0');
    } else {
        assert(zeros + s =~= s);
    }
}

/// A number written with leading zeros has at least as many digits as asked for,
/// and is the number.
pub proof fn padding_keeps_the_number(n: nat, width: nat)
    ensures
        zero_padded(n, width).len() >= width,
        all_digits(zero_padded(n, width)),
        digits_value(zero_padded(n, width)) == n,
{
    lemma_decimal(n);
    let d = decimal(n);
    if d.len() < width {
        lemma_leading_zeros(width - d.len(), d);
        let z = zero_padded(n, width);
        assert forall|i: int| 0 <= i < z.len() implies digit_ascii(#[trigger] z[i]) by {
            if i >= width - d.len() {
                assert(z[i] == d[i - (width - d.len())]);
            }
        }
    }
}

proof fn lemma_two_digits(n: nat)
    requires
        n < 100,
    ensures
        zero_padded(n, 2).len() == 2,
{
    if n >= 10 {
        assert(decimal(n / 10).len() == 1);
    }
}

proof fn lemma_year_text(a: int, b: int)
    requires
        year_text(a) == year_text(b),
    ensures
        a == b,
{
    let x = year_text(a);
    let y = year_text(b);
    let p = zero_padded(
        (if a < 0 {
            -a
        } else {
            a
        }) as nat,
        4,
    );
    let q = zero_padded(
        (if b < 0 {
            -b
        } else {
            b
        }) as nat,
        4,
    );
    padding_keeps_the_number(
        (if a < 0 {
            -a
        } else {
            a
        }) as nat,
        4,
    );
    padding_keeps_the_number(
        (if b < 0 {
            -b
        } else {
            b
        }) as nat,
        4,
    );
    assert(digit_ascii(p[0]) && digit_ascii(q[0]));
    if !(0 <= a <= 9999) {
        assert(x.skip(1) =~= p);
    }
    if !(0 <= b <= 9999) {
        assert(y.skip(1) =~= q);
    }
    assert(x[0] == y[0]);
}

/// Two dates are written alike only where they are the same date.
pub proof fn different_dates_are_written_differently(a: (int, int, int), b: (int, int, int))
    requires
        is_date(a),
        is_date(b),
        date_text(a) == date_text(b),
    ensures
        a == b,
{
    let x = date_text(a);
    let n = x.len() as int;
    lemma_two_digits(a.1 as nat);
    lemma_two_digits(a.2 as nat);
    lemma_two_digits(b.1 as nat);
    lemma_two_digits(b.2 as nat);
    padding_keeps_the_number(a.1 as nat, 2);
    padding_keeps_the_number(a.2 as nat, 2);
    padding_keeps_the_number(b.1 as nat, 2);
    padding_keeps_the_number(b.2 as nat, 2);
    assert(x.skip(n - 2) =~= zero_padded(a.2 as nat, 2));
    assert(x.skip(n - 2) =~= zero_padded(b.2 as nat, 2));
    assert(x.subrange(n - 5, n - 3) =~= zero_padded(a.1 as nat, 2));
    assert(x.subrange(n - 5, n - 3) =~= zero_padded(b.1 as nat, 2));
    assert(x.take(n - 6) =~= year_text(a.0));
    assert(x.take(n - 6) =~= year_text(b.0));
    lemma_year_text(a.0, b.0);
}

/// Two days are written alike only where they are the same day.
pub proof fn different_days_are_written_differently(a: int, b: int)
    requires
        day_text(a) == day_text(b),
    ensures
        a == b,
{
    every_day_has_a_date(a);
    every_day_has_a_date(b);
    different_dates_are_written_differently(civil(a), civil(b));
}

} // verus!
