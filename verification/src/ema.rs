//! Exponentially weighted moving average of an integer-valued signal.

use crate::fixed::EMA_MAX;
use crate::fixed::is_sqrt_floor;
use crate::fixed::isqrt;
use crate::fixed::lemma_sqrt_floor_unique;
use crate::fixed::lemma_tdiv_fraction;
use crate::fixed::tdiv;
use vstd::prelude::*;

verus! {

/// Floor of the square root, as a mathematical function (for stating what
/// the smoothed standard deviation is).
pub open spec fn sqrt_floor(v: int) -> int {
    choose|r: int| is_sqrt_floor(r, v)
}

/// A scalar smoother: keeps an exponentially weighted mean, variance and
/// standard deviation of the samples fed to it.
///
/// The weight of a new sample is the rational `alpha = alpha_num/alpha_den`;
/// a window of `n` historic samples corresponds to `alpha = 2/(n+1)`.
/// Samples, mean and standard deviation are fixed-point integers; the
/// variance is their square and is kept in 128 bits.
#[derive(Clone, Copy)]
pub struct ExponentialMovingAverage {
    /// Numerator of the smoothing weight.
    pub alpha_num: i64,
    /// Denominator of the smoothing weight.
    pub alpha_den: i64,
    /// Smoothed mean; `None` until the first sample arrives.
    pub value: Option<i64>,
    /// Exponentially weighted variance of the samples about the mean.
    pub var: i128,
    /// Floor of the square root of `var`.
    pub std_dev: i64,
}

impl ExponentialMovingAverage {
    /// Well-formedness: the weight is a rational in (0, 1] with a bounded
    /// denominator, and the statistics are absent or mutually consistent
    /// and bounded.
    pub open spec fn wf(self) -> bool {
        &&& 0 < self.alpha_num <= self.alpha_den <= 0x8000_0000
        &&& match self.value {
            None => self.var == 0 && self.std_dev == 0,
            Some(x) => {
                &&& -EMA_MAX <= x <= EMA_MAX
                &&& 0 <= self.var <= (2 * EMA_MAX as int) * (2 * EMA_MAX as int)
                &&& is_sqrt_floor(self.std_dev as int, self.var as int)
            },
        }
    }

    /// The state after feeding sample `v`: the first sample seeds the mean;
    /// later samples move the mean a fraction `alpha` of the way toward `v`
    /// and update the variance by the exponentially weighted recursion
    /// `var' = (1 - alpha) * (var + alpha * d^2)`, all with
    /// round-toward-zero division.
    pub open spec fn spec_add(pre: Self, v: i64) -> Self {
        match pre.value {
            None => ExponentialMovingAverage {
                alpha_num: pre.alpha_num,
                alpha_den: pre.alpha_den,
                value: Some(v),
                var: pre.var,
                std_dev: pre.std_dev,
            },
            Some(x) => {
                let d = v - x;
                let newv = x + tdiv(pre.alpha_num * d, pre.alpha_den as int);
                let inner = pre.var + tdiv(pre.alpha_num * (d * d), pre.alpha_den as int);
                let newvar = tdiv((pre.alpha_den - pre.alpha_num) * inner, pre.alpha_den as int);
                ExponentialMovingAverage {
                    alpha_num: pre.alpha_num,
                    alpha_den: pre.alpha_den,
                    value: Some(newv as i64),
                    var: newvar as i128,
                    std_dev: sqrt_floor(newvar) as i64,
                }
            },
        }
    }

    /// A fresh average over a window of `n_num / n_den` samples, with weight
    /// `alpha = 2 / (n + 1) = 2 * n_den / (n_num + n_den)`.  The window is
    /// a rational so that a duration can be divided by a period exactly.
    pub fn new(n_num: i64, n_den: i64) -> (r: ExponentialMovingAverage)
        requires
            0 < n_den <= n_num,
            n_num + n_den <= 0x8000_0000,
        ensures
            r.wf(),
            r.alpha_num == 2 * n_den,
            r.alpha_den == n_num + n_den,
            r.value is None,
            r.var == 0,
            r.std_dev == 0,
    {
        ExponentialMovingAverage {
            alpha_num: 2 * n_den,
            alpha_den: n_num + n_den,
            value: None,
            var: 0,
            std_dev: 0,
        }
    }

    /// Feed one sample.  A sample fed to an empty average only seeds the
    /// mean (the variance stays zero); later samples update mean, variance
    /// and standard deviation.  The new mean always lies between the old
    /// mean and the sample, and the new variance never exceeds the larger
    /// of the old variance and the squared deviation of the sample.
    pub fn add(&mut self, v: i64)
        requires
            old(self).wf(),
            -EMA_MAX <= v <= EMA_MAX,
        ensures
            final(self).wf(),
            *final(self) == Self::spec_add(*old(self), v),
            final(self).value is Some,
            old(self).value is None ==> final(self).value == Some(v) && final(self).var == old(
                self,
            ).var && final(self).std_dev == old(self).std_dev,
            old(self).value matches Some(x) ==> {
                let y = final(self).value.unwrap();
                &&& (x <= v ==> x <= y <= v)
                &&& (v <= x ==> v <= y <= x)
                &&& final(self).var <= vstd::math::max(
                    old(self).var as int,
                    (v - x) * (v - x),
                )
            },
    {
        match self.value {
            Some(x) => {
                let ghost pre = *self;
                let d: i64 = v - x;
                let an: i128 = self.alpha_num as i128;
                let ad: i128 = self.alpha_den as i128;
                proof {
                    assert(-0x1_0000_0000_0000_0000_0000i128 <= an * (d as i128)
                        <= 0x1_0000_0000_0000_0000_0000i128) by (nonlinear_arith)
                        requires
                            0 < an <= 0x8000_0000i128,
                            -0x8000_0000_0000i128 <= d as i128 <= 0x8000_0000_0000i128,
                    ;
                }
                let scaled128: i128 = an * (d as i128) / ad;
                proof {
                    lemma_tdiv_fraction(d as int, an as int, ad as int);
                }
                let newv: i64 = x + (scaled128 as i64);
                proof {
                    assert((d as i128) * (d as i128) >= 0 && (d as i128) * (d as i128) <= (2
                        * EMA_MAX as i128) * (2 * EMA_MAX as i128)) by (nonlinear_arith)
                        requires
                            -2 * EMA_MAX as i128 <= d as i128 <= 2 * EMA_MAX as i128,
                    ;
                }
                let dd: i128 = (d as i128) * (d as i128);
                proof {
                    assert(0 <= an * dd <= 0x8000_0000i128 * ((2 * EMA_MAX as i128) * (2
                        * EMA_MAX as i128))) by (nonlinear_arith)
                        requires
                            0 < an <= 0x8000_0000i128,
                            0 <= dd <= (2 * EMA_MAX as i128) * (2 * EMA_MAX as i128),
                    ;
                }
                let frac: i128 = an * dd / ad;
                proof {
                    lemma_tdiv_fraction(dd as int, an as int, ad as int);
                }
                let inner: i128 = self.var + frac;
                proof {
                    assert(0 <= (ad - an) * inner <= 0x8000_0000i128 * (2 * ((2 * EMA_MAX as i128)
                        * (2 * EMA_MAX as i128)))) by (nonlinear_arith)
                        requires
                            0 <= ad - an <= 0x8000_0000i128,
                            0 <= inner <= 2 * ((2 * EMA_MAX as i128) * (2 * EMA_MAX as i128)),
                    ;
                }
                let newvar: i128 = (ad - an) * inner / ad;
                proof {
                    lemma_tdiv_fraction(inner as int, ad - an, ad as int);
                    crate::fixed::lemma_tdiv_mul(an as int * (dd as int), ad as int);
                    crate::fixed::lemma_tdiv_mul((ad - an) as int * (inner as int), ad as int);
                    let m = vstd::math::max(pre.var as int, dd as int);
                    assert(newvar <= m) by (nonlinear_arith)
                        requires
                            0 < an <= ad,
                            0 <= frac,
                            an as int * (dd as int) >= ad as int * (frac as int),
                            inner == pre.var + frac,
                            0 <= pre.var <= m,
                            0 <= dd <= m,
                            ad as int * (newvar as int) <= (ad - an) as int * (inner as int),
                            newvar >= 0,
                    ;
                }
                let sd: u128 = isqrt(newvar as u128);
                assert(sd < 0x1_0000_0000_0000u128) by (nonlinear_arith)
                    requires
                        is_sqrt_floor(sd as int, newvar as int),
                        newvar <= (2 * EMA_MAX as int) * (2 * EMA_MAX as int),
                        EMA_MAX == 0x4000_0000_0000i64,
                ;
                self.value = Some(newv);
                self.var = newvar;
                self.std_dev = sd as i64;
                proof {
                    let post = Self::spec_add(pre, v);
                    assert(d == v - x);
                    assert(an * (d as i128) == pre.alpha_num * ((v - x) as int));
                    assert(scaled128 == tdiv(pre.alpha_num * (v - x), pre.alpha_den as int));
                    assert(self.value == post.value);
                    assert(dd == ((v - x) as int) * ((v - x) as int));
                    assert(frac == tdiv(pre.alpha_num * (((v - x) as int) * ((v - x) as int)),
                        pre.alpha_den as int));
                    assert(self.var == post.var);
                    assert(is_sqrt_floor(sd as int, newvar as int));
                    assert(exists|r: int| is_sqrt_floor(r, newvar as int));
                    lemma_sqrt_floor_unique(sqrt_floor(newvar as int), sd as int, newvar as int);
                    assert(self.std_dev == post.std_dev);
                    assert(*self == post);
                }
            },
            None => {
                self.value = Some(v);
            },
        }
    }

    /// Forget all samples: the mean becomes absent and the variance and
    /// standard deviation return to zero.  The smoothing weight is kept.
    pub fn reset(&mut self)
        requires
            old(self).wf(),
        ensures
            final(self).wf(),
            final(self).value is None,
            final(self).var == 0,
            final(self).std_dev == 0,
            final(self).alpha_num == old(self).alpha_num,
            final(self).alpha_den == old(self).alpha_den,
    {
        self.value = None;
        self.var = 0;
        self.std_dev = 0;
    }
}

} // verus!
