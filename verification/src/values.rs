//! Real and complex numbers as the registers hold them.

use vstd::prelude::*;

verus! {

/// Bit pattern of the binary64 value `0.0`.
pub const ZERO_BITS: u64 = 0;

/// Bit pattern of the binary64 value `1.0`.
pub const ONE_BITS: u64 = 0x3FF0_0000_0000_0000;

/// A real number, held as the bit pattern of an IEEE 754 binary64 value.
#[derive(Clone, Copy, Debug, PartialEq, Eq, Structural)]
pub struct Real {
    pub bits: u64,
}

impl Real {
    /// The number lies in the unit interval: it is `0.0` or positive, and
    /// below `1.0`.
    ///
    /// Among binary64 patterns with a clear sign bit the order of the
    /// patterns is the order of the numbers, so these are the patterns below
    /// that of `1.0`. Negative zero, infinities and NaNs are not among them.
    pub open spec fn is_unit(self) -> bool {
        self.bits < ONE_BITS
    }

    pub fn zero() -> (r: Real)
        ensures
            r.bits == ZERO_BITS,
    {
        Real { bits: ZERO_BITS }
    }

    pub fn one() -> (r: Real)
        ensures
            r.bits == ONE_BITS,
    {
        Real { bits: ONE_BITS }
    }

    /// Tells whether the number lies in the unit interval.
    pub fn in_unit_interval(&self) -> (r: bool)
        ensures
            r == self.is_unit(),
    {
        self.bits < ONE_BITS
    }
}

impl DeepView for Real {
    type V = Real;

    open spec fn deep_view(&self) -> Real {
        *self
    }
}

/// A complex number: real and imaginary part.
#[derive(Clone, Copy, Debug, PartialEq, Eq, Structural)]
pub struct Complex {
    pub re: Real,
    pub im: Real,
}

impl Complex {
    pub open spec fn spec_zero() -> Complex {
        Complex { re: Real { bits: ZERO_BITS }, im: Real { bits: ZERO_BITS } }
    }

    pub open spec fn spec_one() -> Complex {
        Complex { re: Real { bits: ONE_BITS }, im: Real { bits: ZERO_BITS } }
    }

    /// The number is exactly zero or exactly one.
    pub open spec fn is_bit(self) -> bool {
        self == Complex::spec_zero() || self == Complex::spec_one()
    }

    /// The product of two numbers that are each zero or one.
    pub open spec fn bit_product(self, other: Complex) -> Complex {
        if self == Complex::spec_one() && other == Complex::spec_one() {
            Complex::spec_one()
        } else {
            Complex::spec_zero()
        }
    }

    pub fn new(re: Real, im: Real) -> (r: Complex)
        ensures
            r == (Complex { re, im }),
    {
        Complex { re, im }
    }

    #[verifier::when_used_as_spec(spec_zero)]
    pub fn zero() -> (r: Complex)
        ensures
            r == Complex::spec_zero(),
    {
        Complex { re: Real::zero(), im: Real::zero() }
    }

    #[verifier::when_used_as_spec(spec_one)]
    pub fn one() -> (r: Complex)
        ensures
            r == Complex::spec_one(),
    {
        Complex { re: Real::one(), im: Real::zero() }
    }

    /// Multiplies two numbers that are each zero or one.
    pub fn times_bit(&self, other: &Complex) -> (r: Complex)
        requires
            self.is_bit(),
            other.is_bit(),
        ensures
            r == self.bit_product(*other),
    {
        if self.re.bits == ONE_BITS && other.re.bits == ONE_BITS {
            Complex::one()
        } else {
            Complex::zero()
        }
    }
}

impl DeepView for Complex {
    type V = Complex;

    open spec fn deep_view(&self) -> Complex {
        *self
    }
}

} // verus!

verus! {

/// A vector with the same entries as `v`.
pub fn copy_vec<T: Copy>(v: &Vec<T>) -> (r: Vec<T>)
    ensures
        r@ == v@,
{
    let mut r: Vec<T> = Vec::new();
    let mut i: usize = 0;
    while i < v.len()
        invariant
            i <= v@.len(),
            r@ == v@.take(i as int),
        decreases v@.len() - i,
    {
        r.push(v[i]);
        assert(r@ =~= v@.take(i + 1));
        i += 1;
    }
    assert(v@.take(v@.len() as int) =~= v@);
    r
}

/// A vector of vectors with the same entries as `v`.
pub fn copy_rows<T: Copy>(v: &Vec<Vec<T>>) -> (r: Vec<Vec<T>>)
    ensures
        r@.len() == v@.len(),
        forall|i: int| 0 <= i < v@.len() ==> (#[trigger] r@[i])@ == v@[i]@,
{
    let mut r: Vec<Vec<T>> = Vec::new();
    let mut i: usize = 0;
    while i < v.len()
        invariant
            i <= v@.len(),
            r@.len() == i,
            forall|j: int| 0 <= j < i ==> (#[trigger] r@[j])@ == v@[j]@,
        decreases v@.len() - i,
    {
        r.push(copy_vec(&v[i]));
        i += 1;
    }
    r
}

} // verus!
