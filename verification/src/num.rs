//! The scalar interface every matrix or vector element must provide.
//!
//! Each operation comes in two parts: an uninterpreted-per-implementation
//! `spec` function that names the mathematical value of the operation, and an
//! executable method whose contract ties it to that name. The two algebraic
//! laws that the container operations rely on (adding the additive identity
//! and scaling by the multiplicative identity change nothing) are stated as
//! proof obligations that every implementation must discharge.
use vstd::prelude::*;

verus! {

pub trait Num: Sized + Copy {
    /// The additive identity.
    spec fn zero_spec() -> Self;

    /// The multiplicative identity.
    spec fn one_spec() -> Self;

    /// The additive inverse of the multiplicative identity.
    spec fn minus_one_spec() -> Self;

    /// The element standing for a count of `u`.
    spec fn from_usize_spec(u: usize) -> Self;

    /// The absolute value of `self`.
    spec fn abs_spec(self) -> Self;

    /// The sum of `self` and `o`.
    spec fn plus_spec(self, o: Self) -> Self;

    /// The difference of `self` and `o`.
    spec fn minus_spec(self, o: Self) -> Self;

    /// The product of `self` and `o`.
    spec fn times_spec(self, o: Self) -> Self;

    /// The quotient of `self` by `o`; meaningful only when `o` is not the
    /// additive identity.
    spec fn div_spec(self, o: Self) -> Self;

    /// The strict order used for pivot selection and range checks.
    spec fn lt_spec(self, o: Self) -> bool;

    fn zero() -> (r: Self)
        ensures
            r == Self::zero_spec(),
    ;

    fn one() -> (r: Self)
        ensures
            r == Self::one_spec(),
    ;

    fn minus_one() -> (r: Self)
        ensures
            r == Self::minus_one_spec(),
    ;

    fn from_usize(u: usize) -> (r: Self)
        ensures
            r == Self::from_usize_spec(u),
    ;

    fn absolute(&self) -> (r: Self)
        ensures
            r == self.abs_spec(),
    ;

    fn plus(self, o: Self) -> (r: Self)
        ensures
            r == self.plus_spec(o),
    ;

    fn minus(self, o: Self) -> (r: Self)
        ensures
            r == self.minus_spec(o),
    ;

    fn times(self, o: Self) -> (r: Self)
        ensures
            r == self.times_spec(o),
    ;

    fn divide(self, o: Self) -> (r: Self)
        requires
            o != Self::zero_spec(),
        ensures
            r == self.div_spec(o),
    ;

    fn lt(self, o: Self) -> (r: bool)
        ensures
            r == self.lt_spec(o),
    ;

    fn gt(self, o: Self) -> (r: bool)
        ensures
            r == o.lt_spec(self),
    ;

    fn eq_val(self, o: Self) -> (r: bool)
        ensures
            r == (self == o),
    ;

    /// A sample drawn uniformly from the half-open range `[low, high)`.
    /// Nothing relates two calls: every value of the range may come back.
    fn random_between(low: Self, high: Self) -> (r: Self)
        requires
            low.lt_spec(high),
        ensures
            !r.lt_spec(low),
            r.lt_spec(high),
    ;

    /// Adding the additive identity on either side changes nothing.
    proof fn lemma_plus_zero(a: Self)
        ensures
            a.plus_spec(Self::zero_spec()) == a,
            Self::zero_spec().plus_spec(a) == a,
    ;

    /// Scaling by the multiplicative identity on either side changes nothing.
    proof fn lemma_times_one(a: Self)
        ensures
            Self::one_spec().times_spec(a) == a,
            a.times_spec(Self::one_spec()) == a,
    ;
}

impl Num for i32 {
    open spec fn zero_spec() -> i32 {
        0i32
    }

    open spec fn one_spec() -> i32 {
        1i32
    }

    open spec fn minus_one_spec() -> i32 {
        -1i32
    }

    open spec fn from_usize_spec(u: usize) -> i32 {
        u as i32
    }

    open spec fn abs_spec(self) -> i32 {
        if self == i32::MIN {
            i32::MIN
        } else if self < 0 {
            (0 - self) as i32
        } else {
            self
        }
    }

    open spec fn plus_spec(self, o: i32) -> i32 {
        self.wrapping_add(o)
    }

    open spec fn minus_spec(self, o: i32) -> i32 {
        self.wrapping_sub(o)
    }

    open spec fn times_spec(self, o: i32) -> i32 {
        self.wrapping_mul(o)
    }

    open spec fn div_spec(self, o: i32) -> i32 {
        match self.checked_div(o) {
            Some(q) => q,
            None => i32::MIN,
        }
    }

    open spec fn lt_spec(self, o: i32) -> bool {
        self < o
    }

    fn zero() -> i32 {
        0
    }

    fn one() -> i32 {
        1
    }

    fn minus_one() -> i32 {
        -1
    }

    fn from_usize(u: usize) -> i32 {
        #[verifier::truncate] (u as i32)
    }

    fn absolute(&self) -> i32 {
        if *self == i32::MIN {
            i32::MIN
        } else if *self < 0 {
            -*self
        } else {
            *self
        }
    }

    fn plus(self, o: i32) -> i32 {
        self.wrapping_add(o)
    }

    fn minus(self, o: i32) -> i32 {
        self.wrapping_sub(o)
    }

    fn times(self, o: i32) -> i32 {
        self.wrapping_mul(o)
    }

    fn divide(self, o: i32) -> i32 {
        match self.checked_div(o) {
            Some(q) => q,
            None => i32::MIN,
        }
    }

    fn lt(self, o: i32) -> bool {
        self < o
    }

    fn gt(self, o: i32) -> bool {
        self > o
    }

    fn eq_val(self, o: i32) -> bool {
        self == o
    }

    fn random_between(low: i32, high: i32) -> i32 {
        random_i32_between(low, high)
    }

    proof fn lemma_plus_zero(a: i32) {
    }

    proof fn lemma_times_one(a: i32) {
        lemma_wrapping_mul_identity(a);
    }
}

/// Relies on `rand::Rng::gen_range` with `rand::thread_rng`: a sample of the
/// non-empty range `low..high` lies in `[low, high)`.
#[verifier::external_body]
fn random_i32_between(low: i32, high: i32) -> (r: i32)
    requires
        low < high,
    ensures
        low <= r < high,
{
    let mut rng: rand::rngs::ThreadRng = rand::thread_rng();
    rand::Rng::gen_range(&mut rng, low..high)
}

/// Multiplying an `i32` by one wraps to the value itself.
proof fn lemma_wrapping_mul_identity(a: i32)
    ensures
        vstd::wrapping::i32_specs::wrapping_mul(1i32, a) == a,
        vstd::wrapping::i32_specs::wrapping_mul(a, 1i32) == a,
{
    let r: int = 0x1_0000_0000;
    if a >= 0 {
        vstd::arithmetic::div_mod::lemma_small_mod(a as nat, r as nat);
    } else {
        vstd::arithmetic::div_mod::lemma_small_mod((a + r) as nat, r as nat);
        assert((a as int) % r == ((a + r) as int) % r) by {
            vstd::arithmetic::div_mod::lemma_mod_add_multiples_vanish(a as int, r);
        }
    }
}

} // verus!
