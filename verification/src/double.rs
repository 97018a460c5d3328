//! Non-negative binary64 arithmetic, rounded to nearest with ties to even.
//!
//! Dashboard figures are quotients of counters, shown with one decimal. A
//! [`Double`] holds a 53-bit significand and a binary exponent; each operation
//! gives the value of that form nearest to the exact result.

use vstd::arithmetic::power2::{lemma_pow2_adds, lemma_pow2_pos, lemma_pow2_unfold, pow2};
use vstd::prelude::*;

verus! {

/// The integer nearest to `num / den`; a value half way between two integers
/// goes to the even one.
pub open spec fn round_half_even(num: nat, den: nat) -> nat {
    let q = num / den;
    let r = num % den;
    if 2 * r < den {
        q
    } else if 2 * r > den {
        q + 1
    } else {
        q + q % 2
    }
}

/// The power of two in front of `num / den`: the `k` for which
/// `2^k <= num / den < 2^(k + 1)`.
pub open spec fn binade(num: nat, den: nat) -> int
    decreases
            if num < den {
                1int
            } else {
                0int
            },
            if num < den {
                den - num
            } else {
                num - den
            },
{
    if num == 0 || den == 0 {
        0
    } else if num >= 2 * den {
        binade(num, 2 * den) + 1
    } else if num < den {
        binade(2 * num, den) - 1
    } else {
        0
    }
}

/// The value `significand * 2^exponent`.
pub struct DoubleView {
    pub significand: nat,
    pub exponent: int,
}

impl DoubleView {
    /// The value as a fraction: the numerator.
    pub open spec fn num(self) -> nat {
        if self.exponent >= 0 {
            self.significand * pow2(self.exponent as nat)
        } else {
            self.significand
        }
    }

    /// The value as a fraction: the denominator, a power of two.
    pub open spec fn den(self) -> nat {
        if self.exponent >= 0 {
            1
        } else {
            pow2((-self.exponent) as nat)
        }
    }

    /// The value times `2^k`, which is exact.
    pub open spec fn scaled(self, k: int) -> DoubleView {
        DoubleView { significand: self.significand, exponent: self.exponent + k }
    }
}

/// The value with a 53-bit significand that is nearest to `num / den`.
pub open spec fn nearest(num: nat, den: nat) -> DoubleView {
    let exponent = binade(num, den) - 52;
    let significand = if exponent >= 0 {
        round_half_even(num, den * pow2(exponent as nat))
    } else {
        round_half_even(num * pow2((-exponent) as nat), den)
    };
    DoubleView { significand, exponent }
}

/// An integer as a double.
pub open spec fn double_of_int(n: nat) -> DoubleView {
    nearest(n, 1)
}

/// The product of two doubles, as a double.
pub open spec fn double_mul(x: DoubleView, y: DoubleView) -> DoubleView {
    nearest(x.num() * y.num(), x.den() * y.den())
}

/// The quotient of two doubles, as a double.
pub open spec fn double_div(x: DoubleView, y: DoubleView) -> DoubleView {
    nearest(x.num() * y.den(), x.den() * y.num())
}

/// The value in tenths, as it is shown with one decimal.
pub open spec fn tenths(x: DoubleView) -> nat {
    round_half_even(10 * x.num(), x.den())
}

/// A common factor of numerator and denominator does not change the rounding.
pub proof fn lemma_round_scale(num: nat, den: nat, k: nat)
    requires
        den > 0,
        k > 0,
    ensures
        round_half_even(k * num, k * den) == round_half_even(num, den),
{
    let q = num / den;
    let r = num % den;
    vstd::arithmetic::div_mod::lemma_fundamental_div_mod(num as int, den as int);
    assert(k * num == q * (k * den) + k * r) by (nonlinear_arith)
        requires
            num == den * q + r,
    ;
    assert(0 <= k * r < k * den) by (nonlinear_arith)
        requires
            0 <= r < den,
            k > 0,
    ;
    vstd::arithmetic::div_mod::lemma_fundamental_div_mod_converse(
        (k * num) as int,
        (k * den) as int,
        q as int,
        (k * r) as int,
    );
    assert(2 * (k * r) < k * den <==> 2 * r < den) by (nonlinear_arith)
        requires
            k > 0,
    ;
    assert(2 * (k * r) > k * den <==> 2 * r > den) by (nonlinear_arith)
        requires
            k > 0,
    ;
}

proof fn lemma_binade_scale(num: nat, den: nat, k: nat)
    requires
        num > 0,
        den > 0,
        k > 0,
    ensures
        binade(k * num, k * den) == binade(num, den),
    decreases
            if num < den {
                1int
            } else {
                0int
            },
            if num < den {
                den - num
            } else {
                num - den
            },
{
    assert(k * num > 0 && k * den > 0) by (nonlinear_arith)
        requires
            num > 0,
            den > 0,
            k > 0,
    ;
    assert(k * num >= 2 * (k * den) <==> num >= 2 * den) by (nonlinear_arith)
        requires
            k > 0,
    ;
    assert(k * num < k * den <==> num < den) by (nonlinear_arith)
        requires
            k > 0,
    ;
    if num >= 2 * den {
        lemma_binade_scale(num, 2 * den, k);
        assert(k * (2 * den) == 2 * (k * den)) by (nonlinear_arith);
    } else if num < den {
        lemma_binade_scale(2 * num, den, k);
        assert(k * (2 * num) == 2 * (k * num)) by (nonlinear_arith);
    }
}

/// Twice the quotient lies one power of two higher.
proof fn lemma_binade_double(num: nat, den: nat)
    requires
        num > 0,
        den > 0,
    ensures
        binade(2 * num, den) == binade(num, den) + 1,
{
    if num >= den {
        lemma_binade_scale(num, den, 2);
        assert(binade(2 * num, den) == binade(2 * num, 2 * den) + 1);
    }
}

/// A common factor of numerator and denominator does not change the nearest
/// double.
pub proof fn lemma_nearest_scale(num: nat, den: nat, k: nat)
    requires
        num > 0,
        den > 0,
        k > 0,
    ensures
        nearest(k * num, k * den) == nearest(num, den),
{
    lemma_binade_scale(num, den, k);
    let exponent = binade(num, den) - 52;
    if exponent >= 0 {
        let p = pow2(exponent as nat);
        lemma_pow2_pos(exponent as nat);
        assert((k * den) * p == k * (den * p)) by (nonlinear_arith);
        assert(den * p > 0) by (nonlinear_arith)
            requires
                den > 0,
                p > 0,
        ;
        lemma_round_scale(num, den * p, k);
    } else {
        let p = pow2((-exponent) as nat);
        assert((k * num) * p == k * (num * p)) by (nonlinear_arith);
        lemma_round_scale(num * p, den, k);
    }
}

proof fn lemma_nearest_double(num: nat, den: nat)
    requires
        num > 0,
        den > 0,
    ensures
        nearest(2 * num, den) == nearest(num, den).scaled(1),
{
    lemma_binade_double(num, den);
    let exponent = binade(num, den) - 52;
    if exponent >= 0 {
        let p = pow2(exponent as nat);
        lemma_pow2_pos(exponent as nat);
        lemma_pow2_unfold((exponent + 1) as nat);
        assert(den * (2 * p) == 2 * (den * p)) by (nonlinear_arith);
        assert(den * p > 0) by (nonlinear_arith)
            requires
                den > 0,
                p > 0,
        ;
        lemma_round_scale(num, den * p, 2);
    } else {
        let p = pow2((-exponent - 1) as nat);
        lemma_pow2_unfold((-exponent) as nat);
        assert(num * (2 * p) == (2 * num) * p) by (nonlinear_arith);
        if exponent == -1 {
            vstd::arithmetic::power2::lemma2_to64();
            assert(den * 1 == den);
            assert((2 * num) * p == 2 * num) by (nonlinear_arith)
                requires
                    p == 1,
            ;
        }
    }
}

/// Powers of two in a fraction only move the exponent of the nearest double.
pub proof fn lemma_nearest_shift(num: nat, den: nat, j: nat, k: nat)
    requires
        num > 0,
        den > 0,
    ensures
        nearest(num * pow2(j), den * pow2(k)) == nearest(num, den).scaled(j - k),
    decreases j + k,
{
    vstd::arithmetic::power2::lemma2_to64();
    if j > 0 {
        let p = pow2((j - 1) as nat);
        lemma_pow2_unfold(j);
        lemma_pow2_pos((j - 1) as nat);
        lemma_pow2_pos(k);
        lemma_nearest_shift(num, den, (j - 1) as nat, k);
        assert(num * (2 * p) == 2 * (num * p)) by (nonlinear_arith);
        assert(num * p > 0 && den * pow2(k) > 0) by (nonlinear_arith)
            requires
                num > 0,
                p > 0,
                den > 0,
                pow2(k) > 0,
        ;
        lemma_nearest_double(num * p, den * pow2(k));
    } else if k > 0 {
        let p = pow2((k - 1) as nat);
        lemma_pow2_unfold(k);
        lemma_pow2_pos((k - 1) as nat);
        lemma_nearest_shift(num, den, 0, (k - 1) as nat);
        assert(num * 1 == num);
        assert(den * (2 * p) == 2 * (den * p)) by (nonlinear_arith);
        assert(den * p > 0) by (nonlinear_arith)
            requires
                p > 0,
                den > 0,
        ;
        lemma_nearest_double(num, 2 * (den * p));
        lemma_nearest_scale(num, den * p, 2);
        assert(nearest(num, den * p) == nearest(num, 2 * (den * p)).scaled(1));
    } else {
        assert(num * 1 == num);
        assert(den * 1 == den);
    }
}

/// Where `2^low <= num / den < 2^high`, the power of two in front of the
/// quotient lies in that range.
pub proof fn lemma_binade_bounds(num: nat, den: nat, low: nat, high: nat)
    requires
        num > 0,
        den > 0,
        pow2(low) * den <= num,
        num < pow2(high) * den,
    ensures
        low <= binade(num, den) < high,
    decreases high,
{
    vstd::arithmetic::power2::lemma2_to64();
    lemma_pow2_pos(low);
    assert(den <= num) by (nonlinear_arith)
        requires
            pow2(low) * den <= num,
            pow2(low) >= 1,
    ;
    if high == 0 {
        assert(pow2(0) * den == den);
    } else if num >= 2 * den {
        lemma_pow2_unfold(high);
        assert(pow2(high) * den == pow2((high - 1) as nat) * (2 * den)) by (nonlinear_arith)
            requires
                pow2(high) == 2 * pow2((high - 1) as nat),
        ;
        if low > 0 {
            lemma_pow2_unfold(low);
            assert(pow2(low) * den == pow2((low - 1) as nat) * (2 * den)) by (nonlinear_arith)
                requires
                    pow2(low) == 2 * pow2((low - 1) as nat),
            ;
            lemma_binade_bounds(num, 2 * den, (low - 1) as nat, (high - 1) as nat);
        } else {
            assert(pow2(0) * (2 * den) == 2 * den);
            lemma_binade_bounds(num, 2 * den, 0, (high - 1) as nat);
        }
    } else if low > 0 {
        lemma_pow2_unfold(low);
        lemma_pow2_pos((low - 1) as nat);
        assert(pow2(low) * den >= 2 * den) by (nonlinear_arith)
            requires
                pow2(low) == 2 * pow2((low - 1) as nat),
                pow2((low - 1) as nat) >= 1,
        ;
    }
}

/// A non-negative binary64 value.
#[derive(Clone, Copy)]
pub struct Double {
    significand: u64,
    exponent: i32,
}

impl View for Double {
    type V = DoubleView;

    closed spec fn view(&self) -> DoubleView {
        DoubleView { significand: self.significand as nat, exponent: self.exponent as int }
    }
}

impl DoubleView {
    /// The significand has its 53 bits (or was rounded up to the next power of
    /// two), or the value is zero.
    pub open spec fn normal(self) -> bool {
        ||| 0x10_0000_0000_0000 <= self.significand <= 0x20_0000_0000_0000
        ||| self.significand == 0 && self.exponent == -52
    }
}

/// Rounds `num / den` to the nearest integer, ties to even.
fn divide_half_even(num: u128, den: u128) -> (r: u128)
    requires
        0 < den <= 0x8000_0000_0000_0000_0000_0000_0000_0000,
        num <= 0x8000_0000_0000_0000_0000_0000_0000_0000,
    ensures
        r == round_half_even(num as nat, den as nat),
{
    let q: u128 = num / den;
    let r: u128 = num % den;
    assert(q <= num) by (nonlinear_arith)
        requires
            q == num / den,
            den > 0,
    ;
    if r < den - r {
        q
    } else if r > den - r {
        q + 1
    } else {
        q + q % 2
    }
}

/// The double nearest to `num / den`.
fn nearest_double(num: u128, den: u128) -> (r: Double)
    requires
        0 < num <= 0x400_0000_0000_0000_0000_0000_0000,
        0 < den <= 0x20_0000_0000_0000,
    ensures
        r@ == nearest(num as nat, den as nat),
        0x10_0000_0000_0000 <= r@.significand <= 0x20_0000_0000_0000,
{
    let mut n: u128 = num;
    let mut d: u128 = den;
    let mut exponent: i32 = 0;
    proof {
        vstd::arithmetic::power2::lemma2_to64_rest();
        vstd::arithmetic::power2::lemma2_to64();
        lemma_pow2_adds(53, 52);
    }
    while n < d * 0x10_0000_0000_0000
        invariant
            d == den,
            0 < n <= 0x400_0000_0000_0000_0000_0000_0000,
            0 < den <= 0x20_0000_0000_0000,
            -106 <= exponent <= 0,
            n >= pow2((-exponent) as nat),
            pow2(105) == 0x200_0000_0000_0000_0000_0000_0000,
            nearest(num as nat, den as nat) == nearest(n as nat, d as nat).scaled(exponent as int),
        decreases d * 0x20_0000_0000_0000 - n,
    {
        proof {
            lemma_nearest_double(n as nat, d as nat);
            if exponent < -105 {
                vstd::arithmetic::power2::lemma_pow2_strictly_increases(105, (-exponent) as nat);
            }
            lemma_pow2_unfold((1 - exponent) as nat);
        }
        n = n * 2;
        exponent = exponent - 1;
    }
    let ghost base = exponent;
    while n >= d * 0x20_0000_0000_0000
        invariant
            base <= exponent,
            -106 <= base <= 0,
            0 < n <= 0x400_0000_0000_0000_0000_0000_0000,
            0 < d <= 0x40_0000_0000_0000,
            n >= d * 0x10_0000_0000_0000,
            d >= pow2((exponent - base) as nat),
            pow2(54) == 0x40_0000_0000_0000,
            nearest(num as nat, den as nat) == nearest(n as nat, d as nat).scaled(exponent as int),
        decreases n - d,
    {
        proof {
            lemma_nearest_double(n as nat, 2 * d as nat);
            lemma_nearest_scale(n as nat, d as nat, 2);
            if exponent - base > 54 {
                vstd::arithmetic::power2::lemma_pow2_strictly_increases(
                    54,
                    (exponent - base) as nat,
                );
            }
            lemma_pow2_unfold((exponent + 1 - base) as nat);
        }
        d = d * 2;
        exponent = exponent + 1;
    }
    proof {
        lemma_binade_bounds(n as nat, d as nat, 52, 53);
        assert(d * pow2(0) == d);
    }
    let significand: u128 = divide_half_even(n, d);
    assert(0x10_0000_0000_0000 <= n / d < 0x20_0000_0000_0000) by (nonlinear_arith)
        requires
            d * 0x10_0000_0000_0000 <= n < d * 0x20_0000_0000_0000,
            d > 0,
    ;
    Double { significand: significand as u64, exponent }
}

impl Double {
    /// An integer as a double.
    pub fn of_int(n: u64) -> (r: Double)
        ensures
            r@ == double_of_int(n as nat),
            r@.normal(),
            r@.significand > 0 <==> n > 0,
            -52 <= r@.exponent <= 11,
    {
        if n == 0 {
            assert(0nat * pow2(52) == 0);
            Double { significand: 0, exponent: -52 }
        } else {
            proof {
                vstd::arithmetic::power2::lemma2_to64();
                vstd::arithmetic::power2::lemma2_to64_rest();
                lemma_pow2_unfold(64);
                lemma_binade_bounds(n as nat, 1, 0, 64);
            }
            nearest_double(n as u128, 1)
        }
    }

    /// The product of two doubles.
    pub fn mul(self, other: Double) -> (r: Double)
        requires
            self@.normal(),
            other@.normal(),
            -1000 <= self@.exponent <= 1000,
            -1000 <= other@.exponent <= 1000,
        ensures
            r@ == double_mul(self@, other@),
            r@.normal(),
            r@.significand > 0 ==> 52 <= r@.exponent - self@.exponent - other@.exponent <= 54,
    {
        if self.significand == 0 || other.significand == 0 {
            proof {
                self@.lemma_fraction();
                other@.lemma_fraction();
                let num = self@.num() * other@.num();
                let den = self@.den() * other@.den();
                assert(num == 0 && den > 0) by (nonlinear_arith)
                    requires
                        num == self@.num() * other@.num(),
                        den == self@.den() * other@.den(),
                        self@.num() == 0 || other@.num() == 0,
                        self@.den() > 0,
                        other@.den() > 0,
                ;
                lemma_nearest_zero(den);
            }
            return Double { significand: 0, exponent: -52 };
        }
        let m: u64 = self.significand;
        let n: u64 = other.significand;
        proof {
            vstd::arithmetic::power2::lemma2_to64_rest();
            vstd::arithmetic::power2::lemma2_to64();
            lemma_pow2_adds(52, 52);
            lemma_pow2_adds(53, 53);
            lemma_pow2_unfold(107);
            assert(m * n <= 0x20_0000_0000_0000 * 0x20_0000_0000_0000 && m * n >= 0x10_0000_0000_0000
                * 0x10_0000_0000_0000) by (nonlinear_arith)
                requires
                    0x10_0000_0000_0000 <= m <= 0x20_0000_0000_0000,
                    0x10_0000_0000_0000 <= n <= 0x20_0000_0000_0000,
            ;
            lemma_binade_bounds((m * n) as nat, 1, 104, 107);
            lemma_product(self@, other@);
        }
        let product = nearest_double(m as u128 * n as u128, 1);
        Double {
            significand: product.significand,
            exponent: product.exponent + self.exponent + other.exponent,
        }
    }

    /// The quotient of two doubles.
    pub fn div(self, other: Double) -> (r: Double)
        requires
            self@.normal(),
            other@.normal(),
            other@.significand > 0,
            -1000 <= self@.exponent <= 1000,
            -1000 <= other@.exponent <= 1000,
        ensures
            r@ == double_div(self@, other@),
            r@.normal(),
            r@.significand > 0 ==> -53 <= r@.exponent - (self@.exponent - other@.exponent) <= -51,
    {
        if self.significand == 0 {
            proof {
                self@.lemma_fraction();
                other@.lemma_fraction();
                let num = self@.num() * other@.den();
                let den = self@.den() * other@.num();
                assert(num == 0 && den > 0) by (nonlinear_arith)
                    requires
                        num == self@.num() * other@.den(),
                        den == self@.den() * other@.num(),
                        self@.num() == 0,
                        self@.den() > 0,
                        other@.num() > 0,
                ;
                lemma_nearest_zero(den);
            }
            return Double { significand: 0, exponent: -52 };
        }
        let m: u64 = self.significand;
        let n: u64 = other.significand;
        proof {
            vstd::arithmetic::power2::lemma2_to64();
            lemma_binade_double(m as nat, n as nat);
            lemma_binade_bounds((2 * m) as nat, n as nat, 0, 3);
            lemma_quotient(self@, other@);
        }
        let quotient = nearest_double(m as u128, n as u128);
        Double {
            significand: quotient.significand,
            exponent: quotient.exponent + (self.exponent - other.exponent),
        }
    }

    /// The value divided by `2^k`, which is exact.
    pub fn scale_down(self, k: i32) -> (r: Double)
        requires
            0 <= k <= 1000,
            -1000 <= self@.exponent <= 1000,
        ensures
            r@ == self@.scaled(-k as int),
    {
        Double { significand: self.significand, exponent: self.exponent - k }
    }

    /// The value in tenths, rounded to nearest with ties to even.
    pub fn tenths(self) -> (r: u128)
        requires
            self@.significand <= 0x20_0000_0000_0000,
            -2000 <= self@.exponent <= 60,
        ensures
            r == tenths(self@),
    {
        let m: u128 = self.significand as u128;
        let mut p: u128 = 1;
        let mut k: i32 = 0;
        proof {
            vstd::arithmetic::power2::lemma2_to64_rest();
            vstd::arithmetic::power2::lemma2_to64();
        }
        if self.exponent >= 0 {
            while k < self.exponent
                invariant
                    0 <= k <= self.exponent <= 60,
                    p == pow2(k as nat),
                    pow2(60) == 0x1000_0000_0000_0000,
                decreases self.exponent - k,
            {
                proof {
                    lemma_pow2_unfold((k + 1) as nat);
                    if k < 60 {
                        vstd::arithmetic::power2::lemma_pow2_strictly_increases(k as nat, 60);
                    }
                }
                p = p * 2;
                k = k + 1;
            }
            proof {
                let e = self.exponent as nat;
                if e < 60 {
                    vstd::arithmetic::power2::lemma_pow2_strictly_increases(e, 60);
                }
                assert(m * p <= 0x20_0000_0000_0000 * 0x1000_0000_0000_0000) by (nonlinear_arith)
                    requires
                        m <= 0x20_0000_0000_0000,
                        p <= 0x1000_0000_0000_0000,
                ;
            }
            10 * (m * p)
        } else if self.exponent < -63 {
            proof {
                let e = (-self.exponent) as nat;
                if e > 64 {
                    vstd::arithmetic::power2::lemma_pow2_strictly_increases(64, e);
                }
                let num = 10 * m as nat;
                vstd::arithmetic::div_mod::lemma_basic_div(num as int, pow2(e) as int);
                vstd::arithmetic::div_mod::lemma_small_mod(num, pow2(e));
            }
            0
        } else {
            while k < -self.exponent
                invariant
                    0 <= k <= -self.exponent <= 63,
                    p == pow2(k as nat),
                    pow2(63) == 0x8000_0000_0000_0000,
                decreases -self.exponent - k,
            {
                proof {
                    lemma_pow2_unfold((k + 1) as nat);
                    if k < 63 {
                        vstd::arithmetic::power2::lemma_pow2_strictly_increases(k as nat, 63);
                    }
                }
                p = p * 2;
                k = k + 1;
            }
            proof {
                let e = (-self.exponent) as nat;
                if e < 63 {
                    vstd::arithmetic::power2::lemma_pow2_strictly_increases(e, 63);
                }
                lemma_pow2_pos(e);
            }
            divide_half_even(10 * m, p)
        }
    }
}

impl DoubleView {
    /// The two powers of two by which the fraction differs from the
    /// significand over one.
    spec fn raised(self) -> nat {
        if self.exponent >= 0 {
            self.exponent as nat
        } else {
            0
        }
    }

    spec fn lowered(self) -> nat {
        if self.exponent >= 0 {
            0
        } else {
            (-self.exponent) as nat
        }
    }

    proof fn lemma_fraction(self)
        ensures
            self.num() == self.significand * pow2(self.raised()),
            self.den() == pow2(self.lowered()),
            self.den() > 0,
            self.significand > 0 <==> self.num() > 0,
    {
        vstd::arithmetic::power2::lemma2_to64();
        lemma_pow2_pos(self.lowered());
        lemma_pow2_pos(self.raised());
        assert(self.significand > 0 <==> self.significand * pow2(self.raised()) > 0)
            by (nonlinear_arith)
            requires
                pow2(self.raised()) > 0,
        ;
        if self.exponent < 0 {
            assert(self.significand * 1 == self.significand);
        }
    }
}

/// Zero is a double.
pub proof fn lemma_nearest_zero(den: nat)
    requires
        den > 0,
    ensures
        nearest(0, den) == (DoubleView { significand: 0, exponent: -52 }),
{
    assert(0nat * pow2(52) == 0);
    vstd::arithmetic::div_mod::lemma_basic_div(0, den as int);
    vstd::arithmetic::div_mod::lemma_small_mod(0, den);
}

/// A product of doubles is the rounded product of the significands, moved by
/// the two exponents.
proof fn lemma_product(x: DoubleView, y: DoubleView)
    requires
        x.significand > 0,
        y.significand > 0,
    ensures
        double_mul(x, y) == nearest(x.significand * y.significand, 1).scaled(
            x.exponent + y.exponent,
        ),
{
    x.lemma_fraction();
    y.lemma_fraction();
    let (m, n) = (x.significand, y.significand);
    let (a, b) = (x.raised(), y.raised());
    let (c, d) = (x.lowered(), y.lowered());
    lemma_pow2_adds(a, b);
    lemma_pow2_adds(c, d);
    assert((m * pow2(a)) * (n * pow2(b)) == (m * n) * (pow2(a) * pow2(b))) by (nonlinear_arith);
    assert(m * n > 0) by (nonlinear_arith)
        requires
            m > 0,
            n > 0,
    ;
    assert(1 * pow2(c + d) == pow2(c + d));
    lemma_nearest_shift(m * n, 1, a + b, c + d);
}

/// A quotient of doubles is the rounded quotient of the significands, moved by
/// the difference of the exponents.
proof fn lemma_quotient(x: DoubleView, y: DoubleView)
    requires
        x.significand > 0,
        y.significand > 0,
    ensures
        double_div(x, y) == nearest(x.significand, y.significand).scaled(x.exponent - y.exponent),
{
    x.lemma_fraction();
    y.lemma_fraction();
    let (m, n) = (x.significand, y.significand);
    let (a, b) = (x.raised(), y.raised());
    let (c, d) = (x.lowered(), y.lowered());
    lemma_pow2_adds(a, d);
    lemma_pow2_adds(c, b);
    assert((m * pow2(a)) * pow2(d) == m * (pow2(a) * pow2(d))) by (nonlinear_arith);
    assert(pow2(c) * (n * pow2(b)) == n * (pow2(c) * pow2(b))) by (nonlinear_arith);
    lemma_nearest_shift(m, n, a + d, c + b);
}

/// The quotient is at least the power of two in front of it.
proof fn lemma_binade_lower(num: nat, den: nat)
    requires
        num > 0,
        den > 0,
    ensures
        binade(num, den) >= 0 ==> pow2(binade(num, den) as nat) * den <= num,
        binade(num, den) < 0 ==> den <= num * pow2((-binade(num, den)) as nat),
    decreases
            if num < den {
                1int
            } else {
                0int
            },
            if num < den {
                den - num
            } else {
                num - den
            },
{
    vstd::arithmetic::power2::lemma2_to64();
    let k = binade(num, den);
    if num >= 2 * den {
        lemma_binade_nonneg(num, 2 * den);
        lemma_binade_lower(num, 2 * den);
        lemma_pow2_unfold(k as nat);
        let p = pow2((k - 1) as nat);
        assert((2 * p) * den == p * (2 * den)) by (nonlinear_arith);
    } else if num < den {
        lemma_binade_lower(2 * num, den);
        lemma_binade_negative(num, den);
        lemma_pow2_unfold((-k) as nat);
        let p = pow2((-k - 1) as nat);
        assert(num * (2 * p) == (2 * num) * p) by (nonlinear_arith);
        if k + 1 == 0 {
            assert(2 * num * 1 == 2 * num);
        }
    } else {
        assert(pow2(0) * den == den);
    }
}

proof fn lemma_binade_nonneg(num: nat, den: nat)
    requires
        0 < den <= num,
    ensures
        binade(num, den) >= 0,
    decreases num - den,
{
    if num >= 2 * den {
        lemma_binade_nonneg(num, 2 * den);
    }
}

proof fn lemma_binade_negative(num: nat, den: nat)
    requires
        0 < num < den,
    ensures
        binade(num, den) < 0,
    decreases den - num,
{
    if 2 * num < den {
        lemma_binade_negative(2 * num, den);
    } else {
        assert(binade(2 * num, den) == 0);
    }
}

proof fn lemma_round_error(num: nat, den: nat)
    requires
        den > 0,
    ensures
        2 * (round_half_even(num, den) * den) <= 2 * num + den,
        2 * num <= 2 * (round_half_even(num, den) * den) + den,
{
    let q = num / den;
    let r = num % den;
    vstd::arithmetic::div_mod::lemma_fundamental_div_mod(num as int, den as int);
    assert(q * den == den * q) by (nonlinear_arith);
    assert((q + 1) * den == q * den + den) by (nonlinear_arith);
    let s = round_half_even(num, den);
    assert(s == q || s == q + 1);
}

/// The nearest double differs from the quotient by at most one part in `2^53`.
pub proof fn lemma_relative_error(num: nat, den: nat)
    requires
        num > 0,
        den > 0,
    ensures
        nearest(num, den).den() > 0,
        nearest(num, den).num() * den * 0x20_0000_0000_0000 <= num * nearest(num, den).den()
            * 0x20_0000_0000_0001,
        num * nearest(num, den).den() * 0x1f_ffff_ffff_ffff <= nearest(num, den).num() * den
            * 0x20_0000_0000_0000,
{
    vstd::arithmetic::power2::lemma2_to64_rest();
    vstd::arithmetic::power2::lemma2_to64();
    lemma_binade_lower(num, den);
    let k = binade(num, den);
    let exponent = k - 52;
    let x = nearest(num, den);
    let s = x.significand;
    if exponent >= 0 {
        let p = pow2(exponent as nat);
        lemma_pow2_pos(exponent as nat);
        lemma_pow2_adds(52, exponent as nat);
        assert((pow2(52) * p) * den == 0x10_0000_0000_0000 * (den * p)) by (nonlinear_arith)
            requires
                pow2(52) == 0x10_0000_0000_0000,
        ;
        assert(den * p > 0) by (nonlinear_arith)
            requires
                den > 0,
                p > 0,
        ;
        lemma_round_error(num, den * p);
        assert((s * p) * den == s * (den * p)) by (nonlinear_arith);
    } else {
        let p = pow2((-exponent) as nat);
        lemma_pow2_pos((-exponent) as nat);
        lemma_round_error(num * p, den);
        if k >= 0 {
            lemma_pow2_adds(k as nat, (-exponent) as nat);
            assert(num * p >= 0x10_0000_0000_0000 * den) by (nonlinear_arith)
                requires
                    pow2(k as nat) * den <= num,
                    pow2(k as nat) * p == 0x10_0000_0000_0000,
            ;
        } else {
            lemma_pow2_adds((-k) as nat, 52);
            assert(num * p >= 0x10_0000_0000_0000 * den) by (nonlinear_arith)
                requires
                    den <= num * pow2((-k) as nat),
                    p == pow2((-k) as nat) * 0x10_0000_0000_0000,
            ;
        }
    }
}

/// An integer below `2^53` is a double.
pub proof fn lemma_small_int_exact(n: nat)
    requires
        n < 0x20_0000_0000_0000,
    ensures
        double_of_int(n).exponent <= 0,
        double_of_int(n).significand == n * double_of_int(n).den(),
        double_of_int(n).num() == n * double_of_int(n).den(),
        double_of_int(n).den() > 0,
{
    vstd::arithmetic::power2::lemma2_to64_rest();
    vstd::arithmetic::power2::lemma2_to64();
    double_of_int(n).lemma_fraction();
    if n == 0 {
        lemma_nearest_zero(1);
    } else {
        assert(pow2(0) * 1 == 1);
        lemma_binade_bounds(n, 1, 0, 53);
        let p = pow2((52 - binade(n, 1)) as nat);
        assert(n * p / 1 == n * p);
        if binade(n, 1) == 52 {
            assert(1 * p == 1 && n * p == n);
        }
    }
}

/// A fraction that is close enough to an integer rounds to no more, or no
/// less, than that integer.
pub proof fn lemma_round_limits(num: nat, den: nat, t: nat)
    requires
        den > 0,
    ensures
        2 * num < (2 * t + 1) * den ==> round_half_even(num, den) <= t,
        t > 0 && 2 * num > (2 * t - 1) * den ==> round_half_even(num, den) >= t,
{
    let s = round_half_even(num, den);
    lemma_round_error(num, den);
    if 2 * num < (2 * t + 1) * den && s > t {
        assert(2 * (s * den) >= 2 * ((t + 1) * den)) by (nonlinear_arith)
            requires
                s >= t + 1,
        ;
        assert(2 * ((t + 1) * den) == (2 * t + 1) * den + den) by (nonlinear_arith);
    }
    if t > 0 && 2 * num > (2 * t - 1) * den && s < t {
        assert(2 * (s * den) <= 2 * ((t - 1) * den)) by (nonlinear_arith)
            requires
                s <= t - 1,
        ;
        assert(2 * ((t - 1) * den) == (2 * t - 1) * den - den) by (nonlinear_arith);
    }
}

/// Rounding goes to an integer that no other is nearer than, and to an even one
/// where two are equally near.
pub proof fn law_rounds_to_nearest_even(num: nat, den: nat)
    requires
        den > 0,
    ensures
        ({
            let twice_off = 2 * (round_half_even(num, den) * den) - 2 * num;
            &&& -den <= twice_off <= den
            &&& twice_off == den || twice_off == -den ==> round_half_even(num, den) % 2 == 0
        }),
{
    let q = num / den;
    lemma_round_error(num, den);
    vstd::arithmetic::div_mod::lemma_fundamental_div_mod(num as int, den as int);
    assert(q * den == den * q) by (nonlinear_arith);
    assert((q + 1) * den == q * den + den) by (nonlinear_arith);
}

} // verus!
