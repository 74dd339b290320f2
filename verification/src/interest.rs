//! Interest arithmetic over exact ratios.
//!
//! Rates are carried in hundredths of a percent (7.25% is 725), so both the
//! simple and the compound interest formulas come out as exact integer
//! ratios instead of rounded quotients.

use vstd::arithmetic::div_mod::lemma_fundamental_div_mod;
use vstd::arithmetic::div_mod::lemma_mod_bound;
use vstd::arithmetic::power::lemma_pow0;
use vstd::arithmetic::power::lemma_pow1;
use vstd::arithmetic::power::lemma_pow_adds;
use vstd::arithmetic::power::lemma_pow_increases;
use vstd::arithmetic::power::lemma_pow_positive;
use vstd::arithmetic::power::pow;
use vstd::prelude::*;

verus! {

/// An exact non-negative ratio `num / den`.
pub struct Fraction {
    pub num: u128,
    pub den: u128,
}

/// Interest inputs: principal in whole currency units, yearly rate in
/// hundredths of a percent, time in years, and the number of compounding
/// periods per year, if one has been set.
pub struct Intrest {
    pub principal: u64,
    pub rate: u32,
    pub time: u32,
    pub period: Option<u32>,
}

/// For a positive `b`, the product `a * b` exceeds `u128::MAX` exactly when
/// `a` exceeds the integer quotient `u128::MAX / b`.
proof fn lemma_mul_overflow_check(a: int, b: int)
    requires
        0 <= a,
        1 <= b,
    ensures
        a > (u128::MAX as int) / b <==> a * b > u128::MAX,
{
    lemma_fundamental_div_mod(u128::MAX as int, b);
    lemma_mod_bound(u128::MAX as int, b);
    let q = (u128::MAX as int) / b;
    let m = (u128::MAX as int) % b;
    assert(a > q <==> a * b > b * q + m) by (nonlinear_arith)
        requires
            0 <= a,
            1 <= b,
            0 <= m < b,
    ;
}

/// Powers of an equal or smaller non-negative base are equal or smaller.
pub proof fn lemma_pow_base_monotone(a: int, b: int, e: nat)
    requires
        0 <= a <= b,
    ensures
        0 <= pow(a, e) <= pow(b, e),
    decreases e,
{
    reveal(pow);
    if e > 0 {
        lemma_pow_base_monotone(a, b, (e - 1) as nat);
        assert(pow(a, e) == a * pow(a, (e - 1) as nat));
        assert(pow(b, e) == b * pow(b, (e - 1) as nat));
        assert(0 <= a * pow(a, (e - 1) as nat) <= b * pow(b, (e - 1) as nat)) by (nonlinear_arith)
            requires
                0 <= a <= b,
                0 <= pow(a, (e - 1) as nat) <= pow(b, (e - 1) as nat),
        ;
    }
}

/// `b` to the power `e` by repeated multiplication; `None` exactly when the
/// power does not fit in `u128`.
#[verifier::loop_isolation(false)]
pub fn pow_checked(b: u128, e: u64) -> (r: Option<u128>)
    requires
        b >= 1,
    ensures
        match r {
            Some(v) => v as int == pow(b as int, e as nat),
            None => pow(b as int, e as nat) > u128::MAX,
        },
{
    proof {
        lemma_pow0(b as int);
    }
    let mut acc: u128 = 1;
    let mut i: u64 = 0;
    while i < e
        invariant
            i <= e,
            acc as int == pow(b as int, i as nat),
        decreases e - i,
    {
        proof {
            lemma_mul_overflow_check(acc as int, b as int);
            lemma_pow_adds(b as int, i as nat, 1nat);
            lemma_pow1(b as int);
            assert((i + 1) as nat == i as nat + 1nat);
            assert(acc * b == pow(b as int, (i + 1) as nat));
        }
        if acc > u128::MAX / b {
            proof {
                lemma_pow_increases(b as nat, (i + 1) as nat, e as nat);
            }
            return None;
        }
        acc = acc * b;
        i = i + 1;
    }
    Some(acc)
}

impl Intrest {
    /// Simple interest `principal * rate * time / 100`: with the rate in
    /// hundredths of a percent, the exact ratio
    /// `principal * rate * time / 10000`.
    pub fn simple_interest(&self) -> (r: Fraction)
        ensures
            r.num == self.principal * self.rate * self.time,
            r.den == 10000,
    {
        proof {
            assert(self.principal * self.rate <= u128::MAX && self.principal * self.rate
                * self.time <= u128::MAX) by (nonlinear_arith)
                requires
                    self.principal <= u64::MAX,
                    self.rate <= u32::MAX,
                    self.time <= u32::MAX,
            ;
        }
        let num = self.principal as u128 * self.rate as u128 * self.time as u128;
        Fraction { num, den: 10000 }
    }

    /// Compound interest `principal * ((1 + rate/(100*period))^(time*period) - 1)`
    /// as an exact ratio: with the rate in hundredths of a percent, the
    /// per-period growth factor is `(10000*period + rate) / (10000*period)`.
    /// With no period set the interest is zero, as the calculator defines it.
    /// The result is `None` exactly when the exact numerator or denominator
    /// does not fit in `u128`.
    pub fn compound_interest(&self) -> (r: Option<Fraction>)
        requires
            self.period matches Some(p) ==> p > 0,
        ensures
            match self.period {
                None => r == Some(Fraction { num: 0u128, den: 1u128 }),
                Some(p) => {
                    let gnum = 10000 * p + self.rate;
                    let gden = 10000 * p;
                    let e = (self.time * p) as nat;
                    &&& (r matches Some(f) ==> {
                        &&& f.num == self.principal * (pow(gnum as int, e) - pow(gden as int, e))
                        &&& f.den == pow(gden as int, e)
                    })
                    &&& (r is Some <==> pow(gnum as int, e) <= u128::MAX && self.principal * (pow(
                        gnum as int,
                        e,
                    ) - pow(gden as int, e)) <= u128::MAX)
                },
            },
    {
        match self.period {
            None => Some(Fraction { num: 0, den: 1 }),
            Some(p) => {
                let gnum: u128 = 10000 * (p as u128) + (self.rate as u128);
                let gden: u128 = 10000 * (p as u128);
                proof {
                    assert((self.time as int) * (p as int) <= u64::MAX) by (nonlinear_arith)
                        requires
                            self.time <= u32::MAX,
                            p <= u32::MAX,
                    ;
                }
                let e: u64 = (self.time as u64) * (p as u64);
                proof {
                    lemma_pow_base_monotone(gden as int, gnum as int, e as nat);
                    lemma_pow_positive(gden as int, e as nat);
                }
                match pow_checked(gnum, e) {
                    None => None,
                    Some(a) => {
                        let d = pow_checked(gden, e).unwrap();
                        let diff = a - d;
                        proof {
                            if diff > 0 {
                                lemma_mul_overflow_check(self.principal as int, diff as int);
                            }
                        }
                        if diff > 0 && (self.principal as u128) > u128::MAX / diff {
                            return None;
                        }
                        Some(Fraction { num: (self.principal as u128) * diff, den: d })
                    },
                }
            },
        }
    }
}

} // verus!
