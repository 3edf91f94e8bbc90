//! Exact decimal numbers: a signed mantissa and a count of fractional digits.

use vstd::prelude::*;
use crate::amount_lemmas::{
    lemma_magnitude_scaled, lemma_pow10_increases, lemma_pow10_positive, lemma_pow10_values,
};

verus! {

/// The largest number of fractional digits an [`Amount`] can carry.
pub const MAX_SCALE: u32 = 28;

/// The largest magnitude of a mantissa: `2^96 - 1`.
pub const MAX_MANTISSA: i128 = 79228162514264337593543950335;

/// Ten to the power `n`.
pub open spec fn pow10(n: nat) -> int
    decreases n,
{
    if n == 0 {
        1
    } else {
        10 * pow10((n - 1) as nat)
    }
}

/// The magnitude of an integer.
pub open spec fn magnitude(x: int) -> int {
    if x < 0 {
        -x
    } else {
        x
    }
}

/// The quotient of `x` by a positive `d`, rounded toward zero.
pub open spec fn quotient_toward_zero(x: int, d: int) -> int {
    if x >= 0 {
        x / d
    } else {
        -((-x) / d)
    }
}

/// The larger of two scales: the one at which both numbers can be written.
pub open spec fn finer_scale(a: Amount, b: Amount) -> nat {
    if a.scale >= b.scale {
        a.scale as nat
    } else {
        b.scale as nat
    }
}

/// The mantissa of `a + b` written at the finer of the two scales.
pub open spec fn sum_at_finer_scale(a: Amount, b: Amount) -> int {
    a.mantissa_at(finer_scale(a, b)) + b.mantissa_at(finer_scale(a, b))
}

/// The mantissa of `a - b` written at the finer of the two scales.
pub open spec fn difference_at_finer_scale(a: Amount, b: Amount) -> int {
    a.mantissa_at(finer_scale(a, b)) - b.mantissa_at(finer_scale(a, b))
}

/// Ten to the power `k`.
pub fn power_of_ten(k: u32) -> (r: i128)
    requires
        k <= MAX_SCALE,
    ensures
        r == pow10(k as nat),
        r >= 1,
{
    let mut r: i128 = 1;
    let mut i: u32 = 0;
    while i < k
        invariant
            i <= k <= MAX_SCALE,
            r == pow10(i as nat),
        decreases k - i,
    {
        proof {
            lemma_pow10_increases((i + 1) as nat, 28);
            lemma_pow10_values();
            lemma_pow10_positive(i as nat);
            assert(pow10((i + 1) as nat) == 10 * pow10(i as nat));
        }
        r = r * 10;
        i = i + 1;
    }
    proof {
        lemma_pow10_positive(k as nat);
    }
    r
}

/// A decimal number `mantissa / 10^scale`.
#[derive(Clone, Copy, Debug)]
pub struct Amount {
    pub mantissa: i128,
    pub scale: u32,
}

impl View for Amount {
    type V = int;

    /// The number in units of `10^-28`, the finest grain any amount can have.
    open spec fn view(&self) -> int {
        self.mantissa_at(MAX_SCALE as nat)
    }
}

impl Amount {
    /// A well-formed amount has at most 28 fractional digits and a mantissa
    /// of at most 96 bits.
    pub open spec fn wf(&self) -> bool {
        &&& self.scale <= MAX_SCALE
        &&& -MAX_MANTISSA <= self.mantissa <= MAX_MANTISSA
    }

    /// The mantissa this amount has when written with `scale` fractional
    /// digits, for a `scale` no smaller than its own.
    pub open spec fn mantissa_at(&self, scale: nat) -> int
        recommends
            self.scale <= scale,
    {
        self.mantissa * pow10((scale - self.scale) as nat)
    }

    /// The magnitude of the mantissa this amount has when written with
    /// `scale` fractional digits.
    pub open spec fn magnitude_at(&self, scale: nat) -> int
        recommends
            self.scale <= scale,
    {
        magnitude(self.mantissa_at(scale))
    }

    /// Whether this well-formed amount can be written with `scale`
    /// fractional digits, and then has a mantissa of magnitude at most
    /// `limit`.
    pub open spec fn within(&self, scale: nat, limit: int) -> bool {
        &&& self.wf()
        &&& self.scale <= scale <= MAX_SCALE
        &&& self.magnitude_at(scale) <= limit
    }

    /// The amount `mantissa / 10^scale`.
    pub fn new(mantissa: i128, scale: u32) -> (r: Amount)
        ensures
            r.mantissa == mantissa,
            r.scale == scale,
    {
        Amount { mantissa, scale }
    }

    /// Zero, with no fractional digits.
    pub fn zero() -> (r: Amount)
        ensures
            r.mantissa == 0,
            r.scale == 0,
            r.wf(),
            r@ == 0,
    {
        Amount { mantissa: 0, scale: 0 }
    }

    /// The whole number `n`.
    pub fn from_integer(n: i64) -> (r: Amount)
        ensures
            r.mantissa == n,
            r.scale == 0,
            r.wf(),
            r@ == n * pow10(28),
    {
        Amount { mantissa: n as i128, scale: 0 }
    }

    /// Tells whether the amount is well formed.
    pub fn is_wf(&self) -> (r: bool)
        ensures
            r == self.wf(),
    {
        self.scale <= MAX_SCALE && -MAX_MANTISSA <= self.mantissa && self.mantissa <= MAX_MANTISSA
    }

    /// Tells whether the amount is well formed, can be written with `scale`
    /// fractional digits, and then has a mantissa of magnitude at most
    /// `limit`.
    pub fn is_within(&self, scale: u32, limit: i128) -> (r: bool)
        ensures
            r == self.within(scale as nat, limit as int),
    {
        if !self.is_wf() || self.scale > scale || scale > MAX_SCALE || limit < 0 {
            return false;
        }
        let p: i128 = power_of_ten(scale - self.scale);
        let m: i128 = if self.mantissa < 0 {
            -self.mantissa
        } else {
            self.mantissa
        };
        let bound: i128 = limit / p;
        proof {
            lemma_magnitude_scaled(self.mantissa as int, p as int);
            let q = (limit as int) / (p as int);
            assert(q * p <= limit < q * p + p) by (nonlinear_arith)
                requires
                    p > 0,
                    q == (limit as int) / (p as int),
            ;
            assert(m <= q ==> m * p <= q * p) by (nonlinear_arith)
                requires
                    p > 0,
            ;
            assert(m >= q + 1 ==> m * p >= q * p + p) by (nonlinear_arith)
                requires
                    p > 0,
            ;
        }
        m <= bound
    }

    /// The mantissa that the amount has when written with `scale`
    /// fractional digits, where that fits 96 bits.
    pub fn mantissa_at_scale(&self, scale: u32) -> (r: i128)
        requires
            self.within(scale as nat, MAX_MANTISSA as int),
        ensures
            r == self.mantissa_at(scale as nat),
            -MAX_MANTISSA <= r <= MAX_MANTISSA,
    {
        let p: i128 = power_of_ten(scale - self.scale);
        let m: i128 = if self.mantissa < 0 {
            -self.mantissa
        } else {
            self.mantissa
        };
        proof {
            lemma_magnitude_scaled(self.mantissa as int, p as int);
            assert((-(self.mantissa as int)) * p == -(self.mantissa * p)) by (nonlinear_arith);
        }
        let shifted: i128 = m * p;
        if self.mantissa < 0 {
            -shifted
        } else {
            shifted
        }
    }
}

} // verus!
