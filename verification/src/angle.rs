//! Angles in degrees and in radians, over any scalar type.
use std::ops::{Add, Div, Mul};
use vstd::prelude::*;
use vstd::std_specs::convert::FromSpec;
use vstd::std_specs::ops::{AddSpec, DivSpec, MulSpec};

verus! {

/// An angle in degrees.
#[derive(Debug, PartialEq, Clone)]
pub struct Deg<T>(pub T);

/// An angle in radians.
#[derive(Debug, PartialEq, Clone)]
pub struct Rad<T>(pub T);

impl<T> vstd::std_specs::convert::FromSpecImpl<T> for Deg<T> {
    open spec fn obeys_from_spec() -> bool {
        true
    }

    open spec fn from_spec(val: T) -> Deg<T> {
        Deg(val)
    }
}

impl<T> From<T> for Deg<T> {
    #[inline]
    fn from(val: T) -> Deg<T> {
        Deg(val)
    }
}

impl<T> vstd::std_specs::convert::FromSpecImpl<T> for Rad<T> {
    open spec fn obeys_from_spec() -> bool {
        true
    }

    open spec fn from_spec(val: T) -> Rad<T> {
        Rad(val)
    }
}

impl<T> From<T> for Rad<T> {
    #[inline]
    fn from(val: T) -> Rad<T> {
        Rad(val)
    }
}

impl<T: Add<T, Output = T>> vstd::std_specs::ops::AddSpecImpl<Deg<T>> for Deg<T> {
    open spec fn obeys_add_spec() -> bool {
        T::obeys_add_spec()
    }

    open spec fn add_req(self, other: Deg<T>) -> bool {
        self.0.add_req(other.0)
    }

    open spec fn add_spec(self, other: Deg<T>) -> Deg<T> {
        Deg(self.0.add_spec(other.0))
    }
}

impl<T: Add<T, Output = T>> Add<Deg<T>> for Deg<T> {
    type Output = Deg<T>;

    #[inline]
    fn add(self, other: Deg<T>) -> Deg<T> {
        Deg(self.0 + other.0)
    }
}

impl<T: Div<T, Output = T>> vstd::std_specs::ops::DivSpecImpl<T> for Deg<T> {
    open spec fn obeys_div_spec() -> bool {
        T::obeys_div_spec()
    }

    open spec fn div_req(self, other: T) -> bool {
        self.0.div_req(other)
    }

    open spec fn div_spec(self, other: T) -> Deg<T> {
        Deg(self.0.div_spec(other))
    }
}

impl<T: Div<T, Output = T>> Div<T> for Deg<T> {
    type Output = Deg<T>;

    #[inline]
    fn div(self, other: T) -> Deg<T> {
        Deg(self.0 / other)
    }
}

impl<T: Div<T, Output = T>> vstd::std_specs::ops::DivSpecImpl<T> for Rad<T> {
    open spec fn obeys_div_spec() -> bool {
        T::obeys_div_spec()
    }

    open spec fn div_req(self, other: T) -> bool {
        self.0.div_req(other)
    }

    open spec fn div_spec(self, other: T) -> Rad<T> {
        Rad(self.0.div_spec(other))
    }
}

impl<T: Div<T, Output = T>> Div<T> for Rad<T> {
    type Output = Rad<T>;

    #[inline]
    fn div(self, other: T) -> Rad<T> {
        Rad(self.0 / other)
    }
}

impl<T: Mul<T, Output = T>> vstd::std_specs::ops::MulSpecImpl<T> for Deg<T> {
    open spec fn obeys_mul_spec() -> bool {
        T::obeys_mul_spec()
    }

    open spec fn mul_req(self, other: T) -> bool {
        self.0.mul_req(other)
    }

    open spec fn mul_spec(self, other: T) -> Deg<T> {
        Deg(self.0.mul_spec(other))
    }
}

impl<T: Mul<T, Output = T>> Mul<T> for Deg<T> {
    type Output = Deg<T>;

    #[inline]
    fn mul(self, other: T) -> Deg<T> {
        Deg(self.0 * other)
    }
}

impl<T: Mul<T, Output = T>> vstd::std_specs::ops::MulSpecImpl<T> for Rad<T> {
    open spec fn obeys_mul_spec() -> bool {
        T::obeys_mul_spec()
    }

    open spec fn mul_req(self, other: T) -> bool {
        self.0.mul_req(other)
    }

    open spec fn mul_spec(self, other: T) -> Rad<T> {
        Rad(self.0.mul_spec(other))
    }
}

impl<T: Mul<T, Output = T>> Mul<T> for Rad<T> {
    type Output = Rad<T>;

    #[inline]
    fn mul(self, other: T) -> Rad<T> {
        Rad(self.0 * other)
    }
}

/// The scalar type can turn degrees into radians and back: it has the
/// number 180, and computes quotients and products as its operator
/// specifications say.
pub open spec fn obeys_conversion<T: From<u8> + Mul<Output = T> + Div<Output = T>>() -> bool {
    T::obeys_from_spec() && T::obeys_mul_spec() && T::obeys_div_spec()
}

impl<T: Copy + From<u8> + Mul<Output = T> + Div<Output = T>> Deg<T> {
    /// The same angle in radians: `deg / 180 * pi`.
    pub open spec fn spec_to_rad(self, pi: T) -> Rad<T> {
        Rad(self.0.div_spec(T::from_spec(180u8)).mul_spec(pi))
    }

    /// The angle in radians, given the number pi in the scalar type.
    pub fn to_rad(&self, pi: T) -> (r: Rad<T>)
        requires
            obeys_conversion::<T>(),
            self.0.div_req(T::from_spec(180u8)),
            self.0.div_spec(T::from_spec(180u8)).mul_req(pi),
        ensures
            r == self.spec_to_rad(pi),
    {
        Rad(self.0 / T::from(180u8) * pi)
    }
}

impl<T: Copy + From<u8> + Mul<Output = T> + Div<Output = T>> Rad<T> {
    /// The same angle in degrees: `rad / pi * 180`.
    pub open spec fn spec_to_deg(self, pi: T) -> Deg<T> {
        Deg(self.0.div_spec(pi).mul_spec(T::from_spec(180u8)))
    }

    /// The angle in degrees, given the number pi in the scalar type.
    pub fn to_deg(&self, pi: T) -> (d: Deg<T>)
        requires
            obeys_conversion::<T>(),
            self.0.div_req(pi),
            self.0.div_spec(pi).mul_req(T::from_spec(180u8)),
        ensures
            d == self.spec_to_deg(pi),
    {
        Deg(self.0 / pi * T::from(180u8))
    }
}

} // verus!
