//! Figures of the dashboard as text: byte counts and the error rate.

use crate::decimal::{
    decimal, one_decimal, one_decimal_text, signed_decimal, signed_decimal_text,
};
use crate::double::{
    double_div, double_mul, double_of_int, law_rounds_to_nearest_even, lemma_binade_bounds, lemma_nearest_scale, lemma_nearest_shift, lemma_nearest_zero,
    lemma_relative_error, lemma_round_limits, lemma_round_scale, lemma_small_int_exact, nearest,
    round_half_even, tenths, Double, DoubleView,
};
use vstd::arithmetic::mul::{
    lemma_mul_inequality_converse, lemma_mul_strict_inequality_converse,
};
use vstd::arithmetic::power2::{lemma_pow2_adds, pow2};
use vstd::prelude::*;
use vstd::string::StringExecFns;

verus! {

/// How many times a byte count is divided by 1024 before it is shown.
pub open spec fn unit_index(n: int) -> int {
    if n < 0x400 {
        0
    } else if n < 0x10_0000 {
        1
    } else if n < 0x4000_0000 {
        2
    } else if n < 0x100_0000_0000 {
        3
    } else {
        4
    }
}

/// The name of a byte unit.
pub open spec fn unit_name(k: int) -> Seq<char> {
    if k == 0 {
        "B"@
    } else if k == 1 {
        "KB"@
    } else if k == 2 {
        "MB"@
    } else if k == 3 {
        "GB"@
    } else {
        "TB"@
    }
}

/// A byte count in its unit: the double of `n` over `1024^k`.
pub open spec fn in_unit(n: int) -> DoubleView {
    double_of_int(n as nat).scaled(-10 * unit_index(n))
}

/// A byte count as it is shown: a whole number of bytes below 1024, else a
/// figure with one decimal in the largest unit that leaves it at 1 or more.
pub open spec fn human_bytes_text(n: int) -> Seq<char> {
    if n < 0x400 {
        signed_decimal(n) + " "@ + unit_name(0)
    } else {
        one_decimal(tenths(in_unit(n))) + " "@ + unit_name(unit_index(n))
    }
}

/// Formats a byte count as a human-readable string (B/KB/MB/GB/TB).
pub fn human_bytes(n: i64) -> (r: String)
    ensures
        r@ == human_bytes_text(n as int),
{
    if n < 0x400 {
        let mut text = signed_decimal_text(n);
        text.append(" ");
        text.append("B");
        return text;
    }
    let (k, name): (i32, &str) = if n < 0x10_0000 {
        (1, "KB")
    } else if n < 0x4000_0000 {
        (2, "MB")
    } else if n < 0x100_0000_0000 {
        (3, "GB")
    } else {
        (4, "TB")
    };
    let figure = Double::of_int(n as u64).scale_down(10 * k);
    let mut text = one_decimal_text(figure.tenths());
    text.append(" ");
    text.append(name);
    text
}

/// The share of errors among the requests in percent, as doubles give it:
/// `errors * 100 / requests`, each step rounded.
pub open spec fn error_percent(errors: nat, requests: nat) -> DoubleView {
    double_div(double_mul(double_of_int(errors), double_of_int(100)), double_of_int(requests))
}

/// The error rate as it is shown, with one decimal.
pub open spec fn error_rate_text(errors: int, requests: int) -> Seq<char> {
    if requests <= 0 {
        "0.0%"@
    } else if errors < 0 {
        "-"@ + one_decimal(tenths(error_percent((-errors) as nat, requests as nat))) + "%"@
    } else {
        one_decimal(tenths(error_percent(errors as nat, requests as nat))) + "%"@
    }
}

/// Formats the share of errors among the requests, such as `4.2%`.
pub fn error_rate(errors: i64, requests: i64) -> (r: String)
    ensures
        r@ == error_rate_text(errors as int, requests as int),
{
    if requests <= 0 {
        return "0.0%".to_string();
    }
    proof {
        vstd::arithmetic::power2::lemma2_to64();
        lemma_binade_bounds(100, 1, 6, 7);
    }
    let magnitude: u64 = if errors < 0 {
        (-(errors as i128)) as u64
    } else {
        errors as u64
    };
    let percent = Double::of_int(magnitude).mul(Double::of_int(100)).div(
        Double::of_int(requests as u64),
    );
    let mut text = if errors < 0 {
        "-".to_string()
    } else {
        String::new()
    };
    text.append(one_decimal_text(percent.tenths()).as_str());
    text.append("%");
    text
}

/// Up to `2^53` bytes, the figure of a byte count is the exact quotient by the
/// unit rounded to one decimal.
pub proof fn law_human_bytes_exact(n: int)
    requires
        0x400 <= n <= 0x20_0000_0000_0000,
    ensures
        tenths(in_unit(n)) == round_half_even(10 * n as nat, pow2((10 * unit_index(n)) as nat)),
{
    vstd::arithmetic::power2::lemma2_to64();
    vstd::arithmetic::power2::lemma2_to64_rest();
    let k = unit_index(n);
    let x = double_of_int(n as nat);
    if n == 0x20_0000_0000_0000 {
        lemma_binade_bounds(n as nat, 1, 53, 54);
        vstd::arithmetic::div_mod::lemma_fundamental_div_mod_converse(n, 2, n / 2, 0);
        lemma_round_scale(10 * x.significand, pow2(39), 2);
    } else {
        lemma_small_int_exact(n as nat);
        let down = (-x.exponent) as nat;
        let p = pow2(down);
        let unit = pow2((10 * k) as nat);
        assert(x.den() == p);
        lemma_pow2_adds(down, (10 * k) as nat);
        assert(in_unit(n).den() == p * unit);
        assert(10 * (n * p) == p * (10 * n)) by (nonlinear_arith);
        lemma_round_scale(10 * n as nat, unit, p);
    }
}

/// A quotient above 0.95 is shown as at least 1.0, and one up to 1024 as at most
/// 1024.0.
proof fn lemma_figure_range(num: nat, den: nat)
    requires
        den > 0,
        20 * num > 19 * den,
    ensures
        round_half_even(10 * num, den) >= 10,
        num <= 1024 * den ==> round_half_even(10 * num, den) <= 10240,
{
    lemma_round_limits(10 * num, den, 10240);
    lemma_round_limits(10 * num, den, 10);
    assert((2 * 10240nat + 1) * den == 20481 * den) by (nonlinear_arith);
    assert((2 * 10nat - 1) * den == 19 * den) by (nonlinear_arith);
}

/// The figure of a byte count is at least 1.0, and at most 1024.0 while there is
/// a larger unit.
pub proof fn law_human_bytes_range(n: int)
    requires
        0x400 <= n <= i64::MAX,
    ensures
        tenths(in_unit(n)) >= 10,
        unit_index(n) < 4 ==> tenths(in_unit(n)) <= 10240,
{
    if n <= 0x20_0000_0000_0000 {
        let unit = pow2((10 * unit_index(n)) as nat);
        assert(0 < unit <= n && (unit_index(n) < 4 ==> n <= 1024 * unit)) by {
            vstd::arithmetic::power2::lemma2_to64();
            vstd::arithmetic::power2::lemma2_to64_rest();
        }
        law_human_bytes_exact(n);
        lemma_figure_range(n as nat, unit);
    } else {
        vstd::arithmetic::power2::lemma2_to64();
        vstd::arithmetic::power2::lemma2_to64_rest();
        let x = double_of_int(n as nat);
        lemma_binade_bounds(n as nat, 1, 53, 63);
        lemma_relative_error(n as nat, 1);
        let raised = x.exponent as nat;
        let (s, p, q) = (x.significand as int, pow2(raised) as int, pow2((40 - raised) as nat) as int);
        lemma_pow2_adds(raised, (40 - raised) as nat);
        assert(x.den() == 1 && x.num() == s * p);
        assert(n * 0x1f_ffff_ffff_ffff <= (s * p) * 0x20_0000_0000_0000);
        assert(s * p >= 0x10_0000_0000_0000);
        assert(20 * s > 19 * q) by {
            assert((19 * q) * p == 19 * (p * q)) by (nonlinear_arith);
            assert((20 * s) * p == 20 * (s * p)) by (nonlinear_arith);
            lemma_mul_strict_inequality_converse(19 * q, 20 * s, p);
        }
        assert(in_unit(n).den() == q && in_unit(n).num() == s);
        lemma_figure_range(in_unit(n).num(), in_unit(n).den());
    }
}

/// Below 1024 a byte count is shown as it is.
pub proof fn law_few_bytes_are_shown_as_they_are(n: int)
    requires
        n < 1024,
    ensures
        human_bytes_text(n) == signed_decimal(n) + " B"@,
{
    reveal_strlit(" ");
    reveal_strlit("B");
    reveal_strlit(" B");
    assert(" "@ + "B"@ =~= " B"@);
    assert(signed_decimal(n) + " "@ + "B"@ =~= signed_decimal(n) + " B"@);
}

/// From 1024 on a byte count is shown in the largest unit that is not above it:
/// with the number of tenths `t` that is nearest to the count in that unit, an
/// even one where two are equally near. A count above `2^53` may first have been
/// rounded by up to 1024 bytes.
pub proof fn law_bytes_are_shown_in_their_unit(n: int, unit: int, name: Seq<char>)
    requires
        unit <= n <= i64::MAX,
        ({
            ||| unit == 0x400 && name == " KB"@ && n < 0x10_0000
            ||| unit == 0x10_0000 && name == " MB"@ && n < 0x4000_0000
            ||| unit == 0x4000_0000 && name == " GB"@ && n < 0x100_0000_0000
            ||| unit == 0x100_0000_0000 && name == " TB"@
        }),
    ensures
        exists|t: nat|
            #![trigger one_decimal(t)]
            {
                let twice_off = 2 * (t * unit) - 20 * n;
                &&& human_bytes_text(n) == one_decimal(t) + name
                &&& n <= 0x20_0000_0000_0000 ==> -unit <= twice_off <= unit
                &&& n <= 0x20_0000_0000_0000 && (twice_off == unit || twice_off == -unit) ==> t % 2
                    == 0
                &&& -unit - 20480 <= twice_off <= unit + 20480
            },
{
    let t = tenths(in_unit(n));
    lemma_unit_text(n, unit, name);
    assert(pow2((10 * unit_index(n)) as nat) == unit) by {
        vstd::arithmetic::power2::lemma2_to64();
        vstd::arithmetic::power2::lemma2_to64_rest();
    }
    if n <= 0x20_0000_0000_0000 {
        law_human_bytes_exact(n);
        law_rounds_to_nearest_even(10 * n as nat, unit as nat);
    } else {
        lemma_many_bytes(n);
    }
    assert(human_bytes_text(n) == one_decimal(t) + name);
}

proof fn lemma_unit_text(n: int, unit: int, name: Seq<char>)
    requires
        unit <= n,
        ({
            ||| unit == 0x400 && name == " KB"@ && n < 0x10_0000
            ||| unit == 0x10_0000 && name == " MB"@ && n < 0x4000_0000
            ||| unit == 0x4000_0000 && name == " GB"@ && n < 0x100_0000_0000
            ||| unit == 0x100_0000_0000 && name == " TB"@
        }),
    ensures
        human_bytes_text(n) == one_decimal(tenths(in_unit(n))) + name,
{
    reveal_strlit(" ");
    reveal_strlit("KB");
    reveal_strlit("MB");
    reveal_strlit("GB");
    reveal_strlit("TB");
    reveal_strlit(" KB");
    reveal_strlit(" MB");
    reveal_strlit(" GB");
    reveal_strlit(" TB");
    let figure = one_decimal(tenths(in_unit(n)));
    assert(figure + " "@ + unit_name(unit_index(n)) =~= figure + name);
}

proof fn lemma_many_bytes(n: int)
    requires
        0x20_0000_0000_0000 < n <= i64::MAX,
    ensures
        ({
            let twice_off = 2 * (tenths(in_unit(n)) * 0x100_0000_0000) - 20 * n;
            -0x100_0000_0000 - 20480 <= twice_off <= 0x100_0000_0000 + 20480
        }),
{
    vstd::arithmetic::power2::lemma2_to64();
    vstd::arithmetic::power2::lemma2_to64_rest();
    let x = double_of_int(n as nat);
    lemma_binade_bounds(n as nat, 1, 53, 63);
    lemma_relative_error(n as nat, 1);
    let raised = x.exponent as nat;
    let (s, p, q) = (x.significand as int, pow2(raised) as int, pow2((40 - raised) as nat) as int);
    lemma_pow2_adds(raised, (40 - raised) as nat);
    assert(x.den() == 1 && x.num() == s * p);
    assert(n * 0x1f_ffff_ffff_ffff <= (s * p) * 0x20_0000_0000_0000);
    assert((s * p) * 0x20_0000_0000_0000 <= n * 0x20_0000_0000_0001);
    assert(-1024 <= s * p - n <= 1024);
    assert(in_unit(n).den() == q && in_unit(n).num() == s);
    let t = tenths(in_unit(n)) as int;
    law_rounds_to_nearest_even(10 * in_unit(n).num(), in_unit(n).den());
    assert(-q <= 2 * (t * q) - 20 * s <= q);
    assert(-(p * q) <= 2 * (t * (p * q)) - 20 * (s * p) <= p * q) by (nonlinear_arith)
        requires
            -q <= 2 * (t * q) - 20 * s <= q,
            p > 0,
    ;
}

/// The error rate is shown in percent with the nearest number of tenths `t`, up to
/// a relative error of `2^-50` in the percentage.
pub proof fn law_error_rate_is_the_share(errors: int, requests: int)
    requires
        requests > 0,
    ensures
        exists|t: nat|
            #![trigger one_decimal(t)]
            {
                let e = if errors < 0 {
                    -errors
                } else {
                    errors
                };
                let sign = if errors < 0 {
                    "-"@
                } else {
                    Seq::<char>::empty()
                };
                &&& error_rate_text(errors, requests) == sign + one_decimal(t) + "%"@
                &&& 0x4_0000_0000_0000 * (2 * (t * requests)) <= 0x4_0000_0000_0000 * requests
                    + 0x4_0000_0000_0001 * (2000 * e)
                &&& 0x3_ffff_ffff_ffff * (2000 * e) <= 0x4_0000_0000_0000 * (2 * (t * requests))
                    + 0x4_0000_0000_0000 * requests
            },
{
    let e = if errors < 0 {
        -errors
    } else {
        errors
    };
    let t = tenths(error_percent(e as nat, requests as nat));
    let empty = Seq::<char>::empty();
    assert(empty + one_decimal(t) =~= one_decimal(t));
    lemma_error_rate_near(e as nat, requests as nat);
}

/// Where the share of errors is a whole number of quarters of a percent, the
/// number of tenths is the nearest one, and an even one where two are equally
/// near.
pub proof fn law_quarter_percents_round_to_even(errors: nat, requests: nat, quarters: nat)
    requires
        0 < requests < 0x20_0000_0000_0000,
        100 * errors < 0x20_0000_0000_0000,
        quarters < 0x20_0000_0000_0000,
        400 * errors == quarters * requests,
    ensures
        exists|t: nat|
            #![trigger one_decimal(t)]
            {
                let twice_off = 8 * t - 20 * quarters;
                &&& error_rate_text(errors as int, requests as int) == one_decimal(t) + "%"@
                &&& -4 <= twice_off <= 4
                &&& twice_off == 4 || twice_off == -4 ==> t % 2 == 0
            },
{
    let t = tenths(error_percent(errors, requests));
    assert(error_rate_text(errors as int, requests as int) == one_decimal(t) + "%"@);
    if errors == 0 {
        lemma_no_errors(requests);
        assert(quarters == 0) by (nonlinear_arith)
            requires
                quarters * requests == 0,
                requests > 0,
        ;
    } else {
        lemma_quarters(errors, requests, quarters);
        law_rounds_to_nearest_even(10 * quarters, 4);
    }
}

proof fn lemma_quarters(errors: nat, requests: nat, quarters: nat)
    requires
        0 < requests < 0x20_0000_0000_0000,
        0 < 100 * errors < 0x20_0000_0000_0000,
        quarters < 0x20_0000_0000_0000,
        400 * errors == quarters * requests,
    ensures
        tenths(error_percent(errors, requests)) == round_half_even(10 * quarters, 4),
{
    let a = double_of_int(errors);
    let h = double_of_int(100);
    let hundredfold = 100 * errors;
    let b = double_of_int(hundredfold);
    let c = double_of_int(requests);
    let m = double_of_int(quarters);
    lemma_small_int_exact(errors);
    lemma_small_int_exact(100);
    lemma_small_int_exact(hundredfold);
    lemma_small_int_exact(requests);
    lemma_small_int_exact(quarters);
    assert(double_mul(a, h) == b) by {
        let k = a.den() * h.den();
        lemma_product_positive(a.den() as int, h.den() as int);
        assert(a.num() * h.num() == k * hundredfold) by (nonlinear_arith)
            requires
                a.num() == errors * a.den(),
                h.num() == 100 * h.den(),
                k == a.den() * h.den(),
                hundredfold == 100 * errors,
        ;
        lemma_nearest_scale(hundredfold, 1, k);
        assert(k * 1 == k);
    }
    assert(quarters > 0) by (nonlinear_arith)
        requires
            400 * errors == quarters * requests,
            errors > 0,
    ;
    assert(double_div(b, c) == nearest(quarters, 4)) by {
        let k = b.den() * c.den();
        lemma_product_positive(b.den() as int, c.den() as int);
        assert(b.num() * c.den() == k * hundredfold) by (nonlinear_arith)
            requires
                b.num() == hundredfold * b.den(),
                k == b.den() * c.den(),
        ;
        assert(b.den() * c.num() == k * requests) by (nonlinear_arith)
            requires
                c.num() == requests * c.den(),
                k == b.den() * c.den(),
        ;
        lemma_nearest_scale(hundredfold, requests, k);
        lemma_nearest_scale(hundredfold, requests, 4);
        lemma_nearest_scale(quarters, 4, requests);
        assert(4 * hundredfold == requests * quarters) by (nonlinear_arith)
            requires
                400 * errors == quarters * requests,
                hundredfold == 100 * errors,
        ;
    }
    vstd::arithmetic::power2::lemma2_to64();
    lemma_nearest_shift(quarters, 1, 0, 2);
    let x = m.scaled(-2);
    assert(nearest(quarters, 4) == x) by {
        assert(quarters * pow2(0) == quarters && 1 * pow2(2) == 4);
    }
    let down = (-m.exponent) as nat;
    lemma_pow2_adds(down, 2);
    let d = pow2(down);
    assert(m.den() == d);
    assert(x.den() == d * 4 && x.num() == quarters * d);
    assert(10 * (quarters * d) == d * (10 * quarters)) by (nonlinear_arith);
    lemma_round_scale(10 * quarters, 4, d);
}

/// Without requests the error rate is shown as 0.0%.
pub proof fn law_no_requests_no_error_rate(errors: int, requests: int)
    requires
        requests <= 0,
    ensures
        error_rate_text(errors, requests) == "0.0%"@,
{
}

/// The share of errors among the requests is shown as 0.0% to 100.0%: as 0.0%
/// without errors, and as 100.0% if every request is one.
pub proof fn law_error_rate_range(errors: nat, requests: nat)
    requires
        errors <= requests,
        requests > 0,
    ensures
        tenths(error_percent(errors, requests)) <= 1000,
        errors == 0 ==> tenths(error_percent(errors, requests)) == 0,
        errors == requests ==> tenths(error_percent(errors, requests)) == 1000,
        errors == 0 ==> error_rate_text(0, requests as int) == "0.0%"@,
        errors == requests ==> error_rate_text(errors as int, requests as int) == "100.0%"@,
{
    let x = error_percent(errors, requests);
    lemma_whole_percents();
    if errors == 0 {
        lemma_no_errors(requests);
    } else {
        lemma_error_percent_close(errors, requests);
        lemma_round_limits(10 * x.num(), x.den(), 1000);
    }
}

proof fn lemma_whole_percents()
    ensures
        one_decimal(0) + "%"@ == "0.0%"@,
        one_decimal(1000) + "%"@ == "100.0%"@,
{
    reveal_strlit("0.0%");
    reveal_strlit("100.0%");
    reveal_strlit(".");
    reveal_strlit("%");
    reveal_with_fuel(decimal, 4);
    assert(decimal(0) =~= seq!['0']);
    assert(decimal(100) =~= seq!['1', '0', '0']);
    assert(one_decimal(0) + "%"@ =~= "0.0%"@);
    assert(one_decimal(1000) + "%"@ =~= "100.0%"@);
}

proof fn lemma_no_errors(requests: nat)
    requires
        requests > 0,
    ensures
        tenths(error_percent(0, requests)) == 0,
{
    let zero = DoubleView { significand: 0, exponent: -52 };
    let hundred = double_of_int(100);
    let c = double_of_int(requests);
    lemma_relative_error(requests, 1);
    assert(c.num() > 0) by (nonlinear_arith)
        requires
            requests * c.den() * 0x1f_ffff_ffff_ffff <= c.num() * 1 * 0x20_0000_0000_0000,
            requests > 0,
            c.den() > 0,
    ;
    lemma_relative_error(100, 1);
    lemma_nearest_zero(1);
    vstd::arithmetic::power2::lemma2_to64_rest();
    let p = zero.den();
    assert(p > 0);
    assert(0 * hundred.num() == 0 && p * hundred.den() > 0) by (nonlinear_arith)
        requires
            p > 0,
            hundred.den() > 0,
    ;
    lemma_nearest_zero(p * hundred.den());
    assert(0 * c.den() == 0 && p * c.num() > 0) by (nonlinear_arith)
        requires
            p > 0,
            c.num() > 0,
    ;
    lemma_nearest_zero(p * c.num());
    assert(tenths(zero) == 0);
}

/// A fraction, by its numerator and its denominator.
type Fraction = (int, int);

/// Whether `x` is at most `y * p / q`.
spec fn at_most(x: Fraction, y: Fraction, p: int, q: int) -> bool {
    x.0 * y.1 * q <= y.0 * x.1 * p
}

spec fn positive(x: Fraction) -> bool {
    x.0 > 0 && x.1 > 0
}

spec fn times(x: Fraction, y: Fraction) -> Fraction {
    (x.0 * y.0, x.1 * y.1)
}

spec fn over(x: Fraction, y: Fraction) -> Fraction {
    (x.0 * y.1, x.1 * y.0)
}

proof fn lemma_product_positive(a: int, b: int)
    requires
        a > 0,
        b > 0,
    ensures
        a * b > 0,
{
    assert(a * b > 0) by (nonlinear_arith)
        requires
            a > 0,
            b > 0,
    ;
}

proof fn lemma_at_most_trans(
    x: Fraction,
    y: Fraction,
    z: Fraction,
    p1: int,
    q1: int,
    p2: int,
    q2: int,
)
    requires
        positive(x),
        positive(y),
        positive(z),
        p1 > 0,
        q2 > 0,
        at_most(x, y, p1, q1),
        at_most(y, z, p2, q2),
    ensures
        at_most(x, z, p1 * p2, q1 * q2),
{
    let (f, g) = (z.1 * q2, x.1 * p1);
    lemma_product_positive(z.1, q2);
    lemma_product_positive(x.1, p1);
    assert((x.0 * y.1 * q1) * f <= (y.0 * x.1 * p1) * f) by (nonlinear_arith)
        requires
            x.0 * y.1 * q1 <= y.0 * x.1 * p1,
            f > 0,
    ;
    assert(y.0 * x.1 * p1 == y.0 * g) by (nonlinear_arith)
        requires
            g == x.1 * p1,
    ;
    assert((y.0 * g) * f == (y.0 * f) * g) by (nonlinear_arith);
    assert(y.0 * f == y.0 * z.1 * q2) by (nonlinear_arith)
        requires
            f == z.1 * q2,
    ;
    assert((y.0 * z.1 * q2) * g <= (z.0 * y.1 * p2) * g) by (nonlinear_arith)
        requires
            y.0 * z.1 * q2 <= z.0 * y.1 * p2,
            g > 0,
    ;
    assert((x.0 * y.1 * q1) * f == (x.0 * z.1 * (q1 * q2)) * y.1) by {
        let (h, k) = (x.0 * q1, z.1);
        assert(x.0 * y.1 * q1 == h * y.1) by (nonlinear_arith)
            requires
                h == x.0 * q1,
        ;
        assert((h * y.1) * (k * q2) == (h * k * q2) * y.1) by (nonlinear_arith);
        assert(h * k * q2 == x.0 * k * (q1 * q2)) by (nonlinear_arith)
            requires
                h == x.0 * q1,
        ;
    }
    assert((z.0 * y.1 * p2) * g == (z.0 * x.1 * (p1 * p2)) * y.1) by {
        let (h, k) = (z.0 * p2, x.1);
        assert(z.0 * y.1 * p2 == h * y.1) by (nonlinear_arith)
            requires
                h == z.0 * p2,
        ;
        assert((h * y.1) * (k * p1) == (h * k * p1) * y.1) by (nonlinear_arith);
        assert(h * k * p1 == z.0 * k * (p1 * p2)) by (nonlinear_arith)
            requires
                h == z.0 * p2,
        ;
    }
    lemma_mul_inequality_converse(x.0 * z.1 * (q1 * q2), z.0 * x.1 * (p1 * p2), y.1);
}

proof fn lemma_at_most_times(x: Fraction, y: Fraction, f: Fraction, p: int, q: int)
    requires
        positive(f),
        at_most(x, y, p, q),
    ensures
        at_most(times(x, f), times(y, f), p, q),
{
    let k = f.0 * f.1;
    lemma_product_positive(f.0, f.1);
    assert((x.0 * y.1 * q) * k <= (y.0 * x.1 * p) * k) by (nonlinear_arith)
        requires
            x.0 * y.1 * q <= y.0 * x.1 * p,
            k > 0,
    ;
    lemma_regroup(x.0, f.0, y.1, f.1, q);
    lemma_regroup(y.0, f.0, x.1, f.1, p);
}

proof fn lemma_regroup(a: int, f: int, b: int, g: int, q: int)
    ensures
        (a * f) * (b * g) * q == (a * b * q) * (f * g),
{
    assert((a * f) * (b * g) == (a * b) * (f * g)) by (nonlinear_arith);
    let (h, k) = (a * b, f * g);
    assert((h * k) * q == (h * q) * k) by (nonlinear_arith);
}

/// The greater the divisor, the smaller the quotient.
proof fn lemma_at_most_over(x: Fraction, c: Fraction, d: Fraction, p: int, q: int)
    requires
        positive(x),
        at_most(c, d, p, q),
    ensures
        at_most(over(x, d), over(x, c), p, q),
{
    let k = x.0 * x.1;
    lemma_product_positive(x.0, x.1);
    assert((c.0 * d.1 * q) * k <= (d.0 * c.1 * p) * k) by (nonlinear_arith)
        requires
            c.0 * d.1 * q <= d.0 * c.1 * p,
            k > 0,
    ;
    lemma_regroup(d.1, x.0, c.0, x.1, q);
    lemma_regroup(c.1, x.0, d.0, x.1, p);
    assert(d.1 * c.0 == c.0 * d.1 && c.1 * d.0 == d.0 * c.1) by (nonlinear_arith);
    assert(x.0 * d.1 == d.1 * x.0 && x.1 * c.0 == c.0 * x.1) by (nonlinear_arith);
    assert(x.0 * c.1 == c.1 * x.0 && x.1 * d.0 == d.0 * x.1) by (nonlinear_arith);
}

/// A double as a fraction.
spec fn fraction(x: DoubleView) -> Fraction {
    (x.num() as int, x.den() as int)
}

/// The nearest double is at most one part in `2^53` above the fraction that it
/// stands for, and below it.
proof fn lemma_nearest_close(x: Fraction)
    requires
        positive(x),
    ensures
        positive(fraction(nearest(x.0 as nat, x.1 as nat))),
        at_most(
            fraction(nearest(x.0 as nat, x.1 as nat)),
            x,
            0x20_0000_0000_0001,
            0x20_0000_0000_0000,
        ),
        at_most(
            x,
            fraction(nearest(x.0 as nat, x.1 as nat)),
            0x20_0000_0000_0000,
            0x1f_ffff_ffff_ffff,
        ),
{
    let y = fraction(nearest(x.0 as nat, x.1 as nat));
    lemma_relative_error(x.0 as nat, x.1 as nat);
    lemma_product_positive(x.0, y.1);
    assert(y.0 > 0) by (nonlinear_arith)
        requires
            y.0 * x.1 > 0,
            x.1 > 0,
    ;
}

/// The computed percentage is within four roundings of the exact one.
proof fn lemma_error_percent_near(errors: nat, requests: nat, h: Fraction)
    requires
        0 < errors,
        0 < requests,
        h == fraction(double_of_int(100)),
    ensures
        ({
            let u: int = 0x20_0000_0000_0000;
            let (v, t) = (u + 1, u - 1);
            let exact = over(times((errors as int, 1), h), (requests as int, 1));
            let q = fraction(error_percent(errors, requests));
            &&& positive(q) && positive(h) && h.0 == 100 * h.1
            &&& at_most(q, exact, v * v * v * u, u * u * u * t)
            &&& at_most(exact, q, v * u * u * u, u * t * t * t)
        }),
{
    let u: int = 0x20_0000_0000_0000;
    let (v, t) = (u + 1, u - 1);
    let e: Fraction = (errors as int, 1);
    let r: Fraction = (requests as int, 1);
    lemma_small_int_exact(100);
    lemma_nearest_close(e);
    let a = fraction(double_of_int(errors));
    lemma_nearest_close(r);
    let c = fraction(double_of_int(requests));
    lemma_times_positive(a, h);
    lemma_nearest_close(times(a, h));
    let b = fraction(double_mul(double_of_int(errors), double_of_int(100)));
    lemma_over_positive(b, c);
    lemma_nearest_close(over(b, c));
    let q = fraction(error_percent(errors, requests));
    let flipped: Fraction = (c.1, c.0);
    lemma_times_positive(e, h);
    lemma_over_positive(times(a, h), c);
    lemma_over_positive(times(e, h), c);
    lemma_over_positive(times(e, h), r);
    let exact = over(times(e, h), r);
    assert(over(b, c) == times(b, flipped));
    // q ~ b / c ~ (a h) / c ~ (e h) / c ~ (e h) / r, each step with one rounding.
    lemma_at_most_times(b, times(a, h), flipped, v, u);
    lemma_at_most_times(a, e, h, v, u);
    lemma_at_most_times(times(a, h), times(e, h), flipped, v, u);
    lemma_at_most_over(times(e, h), r, c, u, t);
    lemma_at_most_trans(q, over(b, c), over(times(a, h), c), v, u, v, u);
    lemma_at_most_trans(q, over(times(a, h), c), over(times(e, h), c), v * v, u * u, v, u);
    lemma_at_most_trans(q, over(times(e, h), c), exact, v * v * v, u * u * u, u, t);
    lemma_at_most_times(times(a, h), b, flipped, u, t);
    lemma_at_most_times(e, a, h, u, t);
    lemma_at_most_times(times(e, h), times(a, h), flipped, u, t);
    lemma_at_most_over(times(e, h), c, r, v, u);
    lemma_at_most_trans(exact, over(times(e, h), c), over(times(a, h), c), v, u, u, t);
    lemma_at_most_trans(exact, over(times(a, h), c), over(b, c), v * u, u * t, u, t);
    lemma_at_most_trans(exact, over(b, c), q, v * u * u, u * t * t, u, t);
}

/// With errors among the requests, the computed percentage is close to the
/// exact one: below 100.05, and above 99.95 if every request is an error.
proof fn lemma_error_percent_close(errors: nat, requests: nat)
    requires
        0 < errors <= requests,
    ensures
        error_percent(errors, requests).den() > 0,
        20 * error_percent(errors, requests).num() < 2001 * error_percent(errors, requests).den(),
        errors == requests ==> 20 * error_percent(errors, requests).num() > 1999 * error_percent(
            errors,
            requests,
        ).den(),
{
    let u: int = 0x20_0000_0000_0000;
    let (v, t) = (u + 1, u - 1);
    let h = fraction(double_of_int(100));
    let q = fraction(error_percent(errors, requests));
    lemma_error_percent_near(errors, requests, h);
    lemma_at_most_percent(q, errors as int, requests as int, h, v * v * v * u, u * u * u * t);
    lemma_ratio_below(q.0, q.1, u * u * u * t, 100 * (v * v * v * u), 2001);
    if errors == requests {
        lemma_percent_at_most(q, requests as int, h, v * u * u * u, u * t * t * t);
        lemma_ratio_above(q.0, q.1, v * u * u * u, 100 * (u * t * t * t), 1999);
    }
}

proof fn lemma_error_rate_near(errors: nat, requests: nat)
    requires
        requests > 0,
    ensures
        ({
            let t = tenths(error_percent(errors, requests));
            &&& 0x4_0000_0000_0000 * (2 * (t * requests)) <= 0x4_0000_0000_0000 * requests
                + 0x4_0000_0000_0001 * (2000 * errors)
            &&& 0x3_ffff_ffff_ffff * (2000 * errors) <= 0x4_0000_0000_0000 * (2 * (t * requests))
                + 0x4_0000_0000_0000 * requests
        }),
{
    let s = tenths(error_percent(errors, requests)) as int;
    if errors == 0 {
        lemma_no_errors(requests);
        assert(s * requests == 0) by (nonlinear_arith)
            requires
                s == 0,
        ;
    } else {
        let u: int = 0x20_0000_0000_0000;
        let (v, t) = (u + 1, u - 1);
        let h = fraction(double_of_int(100));
        let q = fraction(error_percent(errors, requests));
        let (e, r) = (errors as int, requests as int);
        lemma_error_percent_near(errors, requests, h);
        law_rounds_to_nearest_even(10 * q.0 as nat, q.1 as nat);
        assert(-q.1 <= 2 * (s * q.1) - 20 * q.0 <= q.1);
        lemma_exact_cancels(q, e, r, h, v * v * v * u, u * u * u * t);
        lemma_cancels_exact(q, e, r, h, v * u * u * u, u * t * t * t);
        lemma_shown_at_most(s, q, e, r, v * v * v * u, u * u * u * t);
        lemma_shown_at_least(s, q, e, r, v * u * u * u, u * t * t * t);
    }
}

/// What is at most `p / q` of the exact percentage, in terms of the counts.
proof fn lemma_exact_cancels(x: Fraction, e: int, r: int, h: Fraction, p: int, q: int)
    requires
        positive(h),
        h.0 == 100 * h.1,
        at_most(x, over(times((e, 1), h), (r, 1)), p, q),
    ensures
        (x.0 * r) * q <= (100 * e * x.1) * p,
{
    let g = h.1;
    assert(x.0 * ((1 * g) * r) * q == ((x.0 * r) * q) * g) by (nonlinear_arith);
    assert((e * h.0 * 1) * x.1 * p == ((100 * e * x.1) * p) * g) by (nonlinear_arith)
        requires
            h.0 == 100 * g,
    ;
    lemma_mul_inequality_converse((x.0 * r) * q, (100 * e * x.1) * p, g);
}

/// What the exact percentage is at most `p / q` of, in terms of the counts.
proof fn lemma_cancels_exact(x: Fraction, e: int, r: int, h: Fraction, p: int, q: int)
    requires
        positive(h),
        h.0 == 100 * h.1,
        at_most(over(times((e, 1), h), (r, 1)), x, p, q),
    ensures
        (100 * e * x.1) * q <= (x.0 * r) * p,
{
    let g = h.1;
    assert(x.0 * ((1 * g) * r) * p == ((x.0 * r) * p) * g) by (nonlinear_arith);
    assert((e * h.0 * 1) * x.1 * q == ((100 * e * x.1) * q) * g) by (nonlinear_arith)
        requires
            h.0 == 100 * g,
    ;
    lemma_mul_inequality_converse((100 * e * x.1) * q, (x.0 * r) * p, g);
}

/// A number of tenths `s` that is nearest to a percentage `x` is bounded from
/// above by the counts where `x` is.
proof fn lemma_shown_at_most(s: int, x: Fraction, e: int, r: int, p: int, q: int)
    requires
        e > 0,
        r > 0,
        x.1 > 0,
        q > 0,
        2 * (s * x.1) - 20 * x.0 <= x.1,
        (x.0 * r) * q <= (100 * e * x.1) * p,
        p * 0x4_0000_0000_0000 <= q * 0x4_0000_0000_0001,
    ensures
        0x4_0000_0000_0000 * (2 * (s * r)) <= 0x4_0000_0000_0000 * r + 0x4_0000_0000_0001 * (2000
            * e),
{
    let g = r * q;
    lemma_product_positive(r, q);
    assert((2 * (s * x.1)) * g <= (20 * x.0 + x.1) * g) by (nonlinear_arith)
        requires
            2 * (s * x.1) <= 20 * x.0 + x.1,
            g > 0,
    ;
    assert((2 * (s * x.1)) * g == ((2 * (s * r)) * q) * x.1) by (nonlinear_arith)
        requires
            g == r * q,
    ;
    assert((20 * x.0 + x.1) * g == 20 * ((x.0 * r) * q) + (r * q) * x.1) by (nonlinear_arith)
        requires
            g == r * q,
    ;
    assert(20 * ((100 * e * x.1) * p) == ((2000 * e) * p) * x.1) by (nonlinear_arith);
    assert(((2000 * e) * p) * x.1 + (r * q) * x.1 == ((2000 * e) * p + r * q) * x.1)
        by (nonlinear_arith);
    lemma_mul_inequality_converse((2 * (s * r)) * q, (2000 * e) * p + r * q, x.1);
    let (a, m): (int, int) = (2000 * e, 0x4_0000_0000_0000);
    assert((a * p) * m <= (a * (m + 1)) * q) by (nonlinear_arith)
        requires
            p * m <= q * (m + 1),
            a > 0,
    ;
    let b = 2 * (s * r);
    assert((m * b) * q <= (m * r + (m + 1) * a) * q) by (nonlinear_arith)
        requires
            b * q <= a * p + r * q,
            (a * p) * m <= (a * (m + 1)) * q,
            m > 0,
    ;
    lemma_mul_inequality_converse(m * b, m * r + (m + 1) * a, q);
}

/// The same from below.
proof fn lemma_shown_at_least(s: int, x: Fraction, e: int, r: int, p: int, q: int)
    requires
        e > 0,
        r > 0,
        x.1 > 0,
        p > 0,
        -x.1 <= 2 * (s * x.1) - 20 * x.0,
        (100 * e * x.1) * q <= (x.0 * r) * p,
        p * 0x3_ffff_ffff_ffff <= q * 0x4_0000_0000_0000,
    ensures
        0x3_ffff_ffff_ffff * (2000 * e) <= 0x4_0000_0000_0000 * (2 * (s * r)) + 0x4_0000_0000_0000
            * r,
{
    let g = r * p;
    lemma_product_positive(r, p);
    assert((20 * x.0) * g <= (2 * (s * x.1) + x.1) * g) by (nonlinear_arith)
        requires
            20 * x.0 <= 2 * (s * x.1) + x.1,
            g > 0,
    ;
    assert((20 * x.0) * g == 20 * ((x.0 * r) * p)) by (nonlinear_arith)
        requires
            g == r * p,
    ;
    assert((2 * (s * x.1) + x.1) * g == ((2 * (s * r)) * p + r * p) * x.1) by (nonlinear_arith)
        requires
            g == r * p,
    ;
    assert(20 * ((100 * e * x.1) * q) == ((2000 * e) * q) * x.1) by (nonlinear_arith);
    lemma_mul_inequality_converse((2000 * e) * q, (2 * (s * r)) * p + r * p, x.1);
    let (a, m): (int, int) = (2000 * e, 0x4_0000_0000_0000);
    assert((a * (m - 1)) * p <= (a * m) * q) by (nonlinear_arith)
        requires
            p * (m - 1) <= q * m,
            a > 0,
    ;
    let b = 2 * (s * r);
    assert(((m - 1) * a) * p <= (m * b + m * r) * p) by (nonlinear_arith)
        requires
            a * q <= b * p + r * p,
            (a * (m - 1)) * p <= (a * m) * q,
            m > 0,
    ;
    lemma_mul_inequality_converse((m - 1) * a, m * b + m * r, p);
}

proof fn lemma_times_positive(x: Fraction, y: Fraction)
    requires
        positive(x),
        positive(y),
    ensures
        positive(times(x, y)),
{
    lemma_product_positive(x.0, y.0);
    lemma_product_positive(x.1, y.1);
}

proof fn lemma_over_positive(x: Fraction, y: Fraction)
    requires
        positive(x),
        positive(y),
    ensures
        positive(over(x, y)),
{
    lemma_product_positive(x.0, y.1);
    lemma_product_positive(x.1, y.0);
}

/// The exact percentage is at most 100, so what is at most `p / q` of it is at
/// most that of 100.
proof fn lemma_at_most_percent(x: Fraction, e: int, r: int, h: Fraction, p: int, q: int)
    requires
        0 < e <= r,
        positive(x),
        positive(h),
        h.0 == 100 * h.1,
        p > 0,
        at_most(x, over(times((e, 1), h), (r, 1)), p, q),
    ensures
        x.0 * q <= x.1 * (100 * p),
{
    let k = h.1 * r;
    lemma_product_positive(h.1, r);
    assert(x.0 * ((1 * h.1) * r) * q == (x.0 * q) * k) by (nonlinear_arith)
        requires
            k == h.1 * r,
    ;
    assert(e * h.0 * 1 <= 100 * k) by (nonlinear_arith)
        requires
            h.0 == 100 * h.1,
            k == h.1 * r,
            e <= r,
            h.1 > 0,
    ;
    let m = e * h.0 * 1;
    assert(m * x.1 * p <= (x.1 * (100 * p)) * k) by {
        lemma_product_positive(x.1, p);
        let n = x.1 * p;
        assert(m * x.1 * p == m * n) by (nonlinear_arith)
            requires
                n == x.1 * p,
        ;
        assert(m * n <= (100 * k) * n) by (nonlinear_arith)
            requires
                m <= 100 * k,
                n > 0,
        ;
        assert((100 * k) * n == (x.1 * (100 * p)) * k) by (nonlinear_arith)
            requires
                n == x.1 * p,
        ;
    }
    lemma_mul_inequality_converse(x.0 * q, x.1 * (100 * p), k);
}

/// If every request is an error, the exact percentage is 100.
proof fn lemma_percent_at_most(x: Fraction, r: int, h: Fraction, p: int, q: int)
    requires
        0 < r,
        positive(x),
        positive(h),
        h.0 == 100 * h.1,
        at_most(over(times((r, 1), h), (r, 1)), x, p, q),
    ensures
        x.1 * (100 * q) <= x.0 * p,
{
    let k = h.1 * r;
    lemma_product_positive(h.1, r);
    let m = r * h.0 * 1;
    assert(m == 100 * k) by (nonlinear_arith)
        requires
            m == r * h.0 * 1,
            h.0 == 100 * h.1,
            k == h.1 * r,
    ;
    assert(m * x.1 * q == (x.1 * (100 * q)) * k) by (nonlinear_arith)
        requires
            m == 100 * k,
    ;
    assert(x.0 * ((1 * h.1) * r) * p == (x.0 * p) * k) by (nonlinear_arith)
        requires
            k == h.1 * r,
    ;
    lemma_mul_inequality_converse(x.1 * (100 * q), x.0 * p, k);
}

/// If `n / d` is at most `y / x`, and that is below `c / 20`, so is `n / d`.
proof fn lemma_ratio_below(n: int, d: int, x: int, y: int, c: int)
    requires
        d > 0,
        x > 0,
        n * x <= d * y,
        20 * y < c * x,
    ensures
        20 * n < c * d,
{
    assert(d * (20 * y) < d * (c * x)) by (nonlinear_arith)
        requires
            d > 0,
            20 * y < c * x,
    ;
    assert(d * (20 * y) == 20 * (d * y)) by (nonlinear_arith);
    assert(d * (c * x) == (c * d) * x) by (nonlinear_arith);
    assert((20 * n) * x == 20 * (n * x)) by (nonlinear_arith);
    lemma_mul_strict_inequality_converse(20 * n, c * d, x);
}

/// The same from above.
proof fn lemma_ratio_above(n: int, d: int, x: int, y: int, c: int)
    requires
        d > 0,
        x > 0,
        n * x >= d * y,
        20 * y > c * x,
    ensures
        20 * n > c * d,
{
    assert(d * (20 * y) > d * (c * x)) by (nonlinear_arith)
        requires
            d > 0,
            20 * y > c * x,
    ;
    assert(d * (20 * y) == 20 * (d * y)) by (nonlinear_arith);
    assert(d * (c * x) == (c * d) * x) by (nonlinear_arith);
    assert((20 * n) * x == 20 * (n * x)) by (nonlinear_arith);
    lemma_mul_strict_inequality_converse(c * d, 20 * n, x);
}

} // verus!
