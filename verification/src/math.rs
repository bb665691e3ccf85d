//! Vectors of two and three components over any scalar type, with the usual
//! component-wise arithmetic, the dot product and the cross product.
//!
//! Every operation is stated against the scalar's own operator specification:
//! for the machine integers these are the exact integer operations, and the
//! laws of vector algebra at the end of the file are proved over them.
use std::ops::{Add, Div, Mul, Neg, Sub};
use vstd::prelude::*;
use vstd::std_specs::cmp::{PartialEqSpec, PartialOrdIs, PartialOrdSpec};
use vstd::std_specs::convert::FromSpec;
use vstd::std_specs::ops::{AddSpec, DivSpec, MulSpec, NegSpec, SubSpec};

verus! {

/// A vector of three components.
#[derive(Debug, Copy, Clone)]
pub struct Vector3<T> {
    pub x: T,
    pub y: T,
    pub z: T,
}

/// A square matrix of size 3, stored row by row.
#[derive(Debug, Clone, Copy, PartialEq, Eq)]
pub struct Matrix3<T> where T: Copy + PartialEq {
    pub data: [[T; 3]; 3],
}

/// A vector of two components.
#[derive(Debug, Copy, Clone)]
pub struct Vector2<T> {
    pub x: T,
    pub y: T,
}

impl<T> Vector3<T> {
    #[inline]
    pub fn new(x: T, y: T, z: T) -> (v: Vector3<T>)
        ensures
            v == (Vector3 { x, y, z }),
    {
        Vector3 { x: x, y: y, z: z }
    }
}

impl<T: From<u8>> Vector3<T> {
    /// The vector whose three components are zero.
    pub fn zero() -> (v: Vector3<T>)
        ensures
            T::obeys_from_spec() ==> v == (Vector3 {
                x: T::from_spec(0u8),
                y: T::from_spec(0u8),
                z: T::from_spec(0u8),
            }),
    {
        Vector3 { x: T::from(0u8), y: T::from(0u8), z: T::from(0u8) }
    }
}

impl<T> Vector2<T> {
    #[inline]
    pub fn new(x: T, y: T) -> (v: Vector2<T>)
        ensures
            v == (Vector2 { x, y }),
    {
        Vector2 { x: x, y: y }
    }
}

// ---------------------------------------------------------------------------
// Equality
// ---------------------------------------------------------------------------

impl<T: PartialEq> vstd::std_specs::cmp::PartialEqSpecImpl for Vector3<T> {
    open spec fn obeys_eq_spec() -> bool {
        T::obeys_eq_spec()
    }

    open spec fn eq_spec(&self, other: &Vector3<T>) -> bool {
        self.x.eq_spec(&other.x) && self.y.eq_spec(&other.y) && self.z.eq_spec(&other.z)
    }
}

impl<T: PartialEq> PartialEq for Vector3<T> {
    fn eq(&self, other: &Vector3<T>) -> (r: bool) {
        (self.x == other.x) && (self.y == other.y) && (self.z == other.z)
    }
}

impl<T: PartialEq> vstd::std_specs::cmp::PartialEqSpecImpl for Vector2<T> {
    open spec fn obeys_eq_spec() -> bool {
        T::obeys_eq_spec()
    }

    open spec fn eq_spec(&self, other: &Vector2<T>) -> bool {
        self.x.eq_spec(&other.x) && self.y.eq_spec(&other.y)
    }
}

impl<T: PartialEq> PartialEq for Vector2<T> {
    fn eq(&self, other: &Vector2<T>) -> (r: bool) {
        (self.x == other.x) && (self.y == other.y)
    }
}

impl<T: Eq> Eq for Vector2<T> {

}

// ---------------------------------------------------------------------------
// Negation
// ---------------------------------------------------------------------------

impl<T: Neg<Output = T>> vstd::std_specs::ops::NegSpecImpl for Vector3<T> {
    open spec fn obeys_neg_spec() -> bool {
        T::obeys_neg_spec()
    }

    open spec fn neg_req(self) -> bool {
        self.x.neg_req() && self.y.neg_req() && self.z.neg_req()
    }

    open spec fn neg_spec(self) -> Vector3<T> {
        Vector3 { x: self.x.neg_spec(), y: self.y.neg_spec(), z: self.z.neg_spec() }
    }
}

impl<T: Neg<Output = T>> Neg for Vector3<T> {
    type Output = Vector3<T>;

    fn neg(self) -> Vector3<T> {
        Vector3 { x: self.x.neg(), y: self.y.neg(), z: self.z.neg() }
    }
}

// ---------------------------------------------------------------------------
// Addition and subtraction
// ---------------------------------------------------------------------------

impl<T: Add<Output = T>> vstd::std_specs::ops::AddSpecImpl<Vector3<T>> for Vector3<T> {
    open spec fn obeys_add_spec() -> bool {
        T::obeys_add_spec()
    }

    open spec fn add_req(self, other: Vector3<T>) -> bool {
        self.x.add_req(other.x) && self.y.add_req(other.y) && self.z.add_req(other.z)
    }

    open spec fn add_spec(self, other: Vector3<T>) -> Vector3<T> {
        Vector3 {
            x: self.x.add_spec(other.x),
            y: self.y.add_spec(other.y),
            z: self.z.add_spec(other.z),
        }
    }
}

impl<T: Add<Output = T>> Add<Vector3<T>> for Vector3<T> {
    type Output = Vector3<T>;

    fn add(self, other: Vector3<T>) -> Vector3<T> {
        Vector3 { x: self.x + other.x, y: self.y + other.y, z: self.z + other.z }
    }
}

impl<'a, T: Add<Output = T> + Copy> vstd::std_specs::ops::AddSpecImpl<&'a Vector3<T>> for &'a Vector3<T> {
    open spec fn obeys_add_spec() -> bool {
        T::obeys_add_spec()
    }

    open spec fn add_req(self, other: &'a Vector3<T>) -> bool {
        self.x.add_req(other.x) && self.y.add_req(other.y) && self.z.add_req(other.z)
    }

    open spec fn add_spec(self, other: &'a Vector3<T>) -> Vector3<T> {
        Vector3 { x: self.x.add_spec(other.x), y: self.y.add_spec(other.y), z: self.z.add_spec(other.z) }
    }
}

impl<'a, T: Add<Output = T> + Copy> Add<&'a Vector3<T>> for &'a Vector3<T> {
    type Output = Vector3<T>;

    fn add(self, other: &'a Vector3<T>) -> Vector3<T> {
        Vector3 { x: self.x + other.x, y: self.y + other.y, z: self.z + other.z }
    }
}

impl<T: Sub<Output = T>> vstd::std_specs::ops::SubSpecImpl<Vector3<T>> for Vector3<T> {
    open spec fn obeys_sub_spec() -> bool {
        T::obeys_sub_spec()
    }

    open spec fn sub_req(self, other: Vector3<T>) -> bool {
        self.x.sub_req(other.x) && self.y.sub_req(other.y) && self.z.sub_req(other.z)
    }

    open spec fn sub_spec(self, other: Vector3<T>) -> Vector3<T> {
        Vector3 {
            x: self.x.sub_spec(other.x),
            y: self.y.sub_spec(other.y),
            z: self.z.sub_spec(other.z),
        }
    }
}

impl<T: Sub<Output = T>> Sub<Vector3<T>> for Vector3<T> {
    type Output = Vector3<T>;

    fn sub(self, other: Vector3<T>) -> Vector3<T> {
        Vector3 { x: self.x - other.x, y: self.y - other.y, z: self.z - other.z }
    }
}

impl<'a, T: Sub<Output = T> + Copy> vstd::std_specs::ops::SubSpecImpl<&'a Vector3<T>> for &'a Vector3<T> {
    open spec fn obeys_sub_spec() -> bool {
        T::obeys_sub_spec()
    }

    open spec fn sub_req(self, other: &'a Vector3<T>) -> bool {
        self.x.sub_req(other.x) && self.y.sub_req(other.y) && self.z.sub_req(other.z)
    }

    open spec fn sub_spec(self, other: &'a Vector3<T>) -> Vector3<T> {
        Vector3 { x: self.x.sub_spec(other.x), y: self.y.sub_spec(other.y), z: self.z.sub_spec(other.z) }
    }
}

impl<'a, T: Sub<Output = T> + Copy> Sub<&'a Vector3<T>> for &'a Vector3<T> {
    type Output = Vector3<T>;

    fn sub(self, other: &'a Vector3<T>) -> Vector3<T> {
        Vector3 { x: self.x - other.x, y: self.y - other.y, z: self.z - other.z }
    }
}

impl<T: Add<Output = T>> vstd::std_specs::ops::AddSpecImpl<Vector2<T>> for Vector2<T> {
    open spec fn obeys_add_spec() -> bool {
        T::obeys_add_spec()
    }

    open spec fn add_req(self, other: Vector2<T>) -> bool {
        self.x.add_req(other.x) && self.y.add_req(other.y)
    }

    open spec fn add_spec(self, other: Vector2<T>) -> Vector2<T> {
        Vector2 { x: self.x.add_spec(other.x), y: self.y.add_spec(other.y) }
    }
}

impl<T: Add<Output = T>> Add<Vector2<T>> for Vector2<T> {
    type Output = Vector2<T>;

    fn add(self, other: Vector2<T>) -> Vector2<T> {
        Vector2 { x: self.x + other.x, y: self.y + other.y }
    }
}

impl<'a, T: Add<Output = T> + Copy> vstd::std_specs::ops::AddSpecImpl<&'a Vector2<T>> for &'a Vector2<T> {
    open spec fn obeys_add_spec() -> bool {
        T::obeys_add_spec()
    }

    open spec fn add_req(self, other: &'a Vector2<T>) -> bool {
        self.x.add_req(other.x) && self.y.add_req(other.y)
    }

    open spec fn add_spec(self, other: &'a Vector2<T>) -> Vector2<T> {
        Vector2 { x: self.x.add_spec(other.x), y: self.y.add_spec(other.y) }
    }
}

impl<'a, T: Add<Output = T> + Copy> Add<&'a Vector2<T>> for &'a Vector2<T> {
    type Output = Vector2<T>;

    fn add(self, other: &'a Vector2<T>) -> Vector2<T> {
        Vector2 { x: self.x + other.x, y: self.y + other.y }
    }
}

impl<T: Sub<Output = T>> vstd::std_specs::ops::SubSpecImpl<Vector2<T>> for Vector2<T> {
    open spec fn obeys_sub_spec() -> bool {
        T::obeys_sub_spec()
    }

    open spec fn sub_req(self, other: Vector2<T>) -> bool {
        self.x.sub_req(other.x) && self.y.sub_req(other.y)
    }

    open spec fn sub_spec(self, other: Vector2<T>) -> Vector2<T> {
        Vector2 { x: self.x.sub_spec(other.x), y: self.y.sub_spec(other.y) }
    }
}

impl<T: Sub<Output = T>> Sub<Vector2<T>> for Vector2<T> {
    type Output = Vector2<T>;

    fn sub(self, other: Vector2<T>) -> Vector2<T> {
        Vector2 { x: self.x - other.x, y: self.y - other.y }
    }
}

impl<'a, T: Sub<Output = T> + Copy> vstd::std_specs::ops::SubSpecImpl<&'a Vector2<T>> for &'a Vector2<T> {
    open spec fn obeys_sub_spec() -> bool {
        T::obeys_sub_spec()
    }

    open spec fn sub_req(self, other: &'a Vector2<T>) -> bool {
        self.x.sub_req(other.x) && self.y.sub_req(other.y)
    }

    open spec fn sub_spec(self, other: &'a Vector2<T>) -> Vector2<T> {
        Vector2 { x: self.x.sub_spec(other.x), y: self.y.sub_spec(other.y) }
    }
}

impl<'a, T: Sub<Output = T> + Copy> Sub<&'a Vector2<T>> for &'a Vector2<T> {
    type Output = Vector2<T>;

    fn sub(self, other: &'a Vector2<T>) -> Vector2<T> {
        Vector2 { x: self.x - other.x, y: self.y - other.y }
    }
}

// ---------------------------------------------------------------------------
// Product and quotient by a scalar. A scalar is any copyable type with a
// default value; the vectors themselves have none, which keeps these apart
// from the component-wise product below.
// ---------------------------------------------------------------------------

impl<T, K> vstd::std_specs::ops::MulSpecImpl<K> for Vector3<T> where T: Mul<K, Output = T>, K: Copy + Default {
    open spec fn obeys_mul_spec() -> bool {
        T::obeys_mul_spec()
    }

    open spec fn mul_req(self, k: K) -> bool {
        self.x.mul_req(k) && self.y.mul_req(k) && self.z.mul_req(k)
    }

    open spec fn mul_spec(self, k: K) -> Vector3<T> {
        Vector3 { x: self.x.mul_spec(k), y: self.y.mul_spec(k), z: self.z.mul_spec(k) }
    }
}

impl<T, K> Mul<K> for Vector3<T> where T: Mul<K, Output = T>, K: Copy + Default {
    type Output = Vector3<T>;

    fn mul(self, k: K) -> Vector3<T> {
        Vector3 { x: self.x * k, y: self.y * k, z: self.z * k }
    }
}

impl<'a, T, K> vstd::std_specs::ops::MulSpecImpl<K> for &'a Vector3<T> where T: Mul<K, Output = T> + Copy, K: Copy + Default {
    open spec fn obeys_mul_spec() -> bool {
        T::obeys_mul_spec()
    }

    open spec fn mul_req(self, k: K) -> bool {
        self.x.mul_req(k) && self.y.mul_req(k) && self.z.mul_req(k)
    }

    open spec fn mul_spec(self, k: K) -> Vector3<T> {
        Vector3 { x: self.x.mul_spec(k), y: self.y.mul_spec(k), z: self.z.mul_spec(k) }
    }
}

impl<'a, T, K> Mul<K> for &'a Vector3<T> where T: Mul<K, Output = T> + Copy, K: Copy + Default {
    type Output = Vector3<T>;

    fn mul(self, k: K) -> Vector3<T> {
        Vector3 { x: self.x * k, y: self.y * k, z: self.z * k }
    }
}

impl<T, K> vstd::std_specs::ops::DivSpecImpl<K> for Vector3<T> where T: Div<K, Output = T>, K: Copy + Default {
    open spec fn obeys_div_spec() -> bool {
        T::obeys_div_spec()
    }

    open spec fn div_req(self, k: K) -> bool {
        self.x.div_req(k) && self.y.div_req(k) && self.z.div_req(k)
    }

    open spec fn div_spec(self, k: K) -> Vector3<T> {
        Vector3 { x: self.x.div_spec(k), y: self.y.div_spec(k), z: self.z.div_spec(k) }
    }
}

impl<T, K> Div<K> for Vector3<T> where T: Div<K, Output = T>, K: Copy + Default {
    type Output = Vector3<T>;

    fn div(self, k: K) -> Vector3<T> {
        Vector3 { x: self.x / k, y: self.y / k, z: self.z / k }
    }
}

impl<'a, T, K> vstd::std_specs::ops::DivSpecImpl<K> for &'a Vector3<T> where T: Div<K, Output = T> + Copy, K: Copy + Default {
    open spec fn obeys_div_spec() -> bool {
        T::obeys_div_spec()
    }

    open spec fn div_req(self, k: K) -> bool {
        self.x.div_req(k) && self.y.div_req(k) && self.z.div_req(k)
    }

    open spec fn div_spec(self, k: K) -> Vector3<T> {
        Vector3 { x: self.x.div_spec(k), y: self.y.div_spec(k), z: self.z.div_spec(k) }
    }
}

impl<'a, T, K> Div<K> for &'a Vector3<T> where T: Div<K, Output = T> + Copy, K: Copy + Default {
    type Output = Vector3<T>;

    fn div(self, k: K) -> Vector3<T> {
        Vector3 { x: self.x / k, y: self.y / k, z: self.z / k }
    }
}

impl<T, K> vstd::std_specs::ops::MulSpecImpl<K> for Vector2<T> where T: Mul<K, Output = T>, K: Copy + Default {
    open spec fn obeys_mul_spec() -> bool {
        T::obeys_mul_spec()
    }

    open spec fn mul_req(self, k: K) -> bool {
        self.x.mul_req(k) && self.y.mul_req(k)
    }

    open spec fn mul_spec(self, k: K) -> Vector2<T> {
        Vector2 { x: self.x.mul_spec(k), y: self.y.mul_spec(k) }
    }
}

impl<T, K> Mul<K> for Vector2<T> where T: Mul<K, Output = T>, K: Copy + Default {
    type Output = Vector2<T>;

    fn mul(self, k: K) -> Vector2<T> {
        Vector2 { x: self.x * k, y: self.y * k }
    }
}

impl<'a, T, K> vstd::std_specs::ops::MulSpecImpl<K> for &'a Vector2<T> where T: Mul<K, Output = T> + Copy, K: Copy + Default {
    open spec fn obeys_mul_spec() -> bool {
        T::obeys_mul_spec()
    }

    open spec fn mul_req(self, k: K) -> bool {
        self.x.mul_req(k) && self.y.mul_req(k)
    }

    open spec fn mul_spec(self, k: K) -> Vector2<T> {
        Vector2 { x: self.x.mul_spec(k), y: self.y.mul_spec(k) }
    }
}

impl<'a, T, K> Mul<K> for &'a Vector2<T> where T: Mul<K, Output = T> + Copy, K: Copy + Default {
    type Output = Vector2<T>;

    fn mul(self, k: K) -> Vector2<T> {
        Vector2 { x: self.x * k, y: self.y * k }
    }
}

// ---------------------------------------------------------------------------
// Component-wise product
// ---------------------------------------------------------------------------

impl<T: Mul<T, Output = T>> vstd::std_specs::ops::MulSpecImpl<Vector3<T>> for Vector3<T> {
    open spec fn obeys_mul_spec() -> bool {
        T::obeys_mul_spec()
    }

    open spec fn mul_req(self, other: Vector3<T>) -> bool {
        self.x.mul_req(other.x) && self.y.mul_req(other.y) && self.z.mul_req(other.z)
    }

    open spec fn mul_spec(self, other: Vector3<T>) -> Vector3<T> {
        Vector3 {
            x: self.x.mul_spec(other.x),
            y: self.y.mul_spec(other.y),
            z: self.z.mul_spec(other.z),
        }
    }
}

impl<T: Mul<T, Output = T>> Mul<Vector3<T>> for Vector3<T> {
    type Output = Vector3<T>;

    fn mul(self, other: Vector3<T>) -> Vector3<T> {
        Vector3 { x: self.x * other.x, y: self.y * other.y, z: self.z * other.z }
    }
}

impl<'a, T: Mul<T, Output = T> + Copy> vstd::std_specs::ops::MulSpecImpl<&'a Vector3<T>> for &'a Vector3<T> {
    open spec fn obeys_mul_spec() -> bool {
        T::obeys_mul_spec()
    }

    open spec fn mul_req(self, other: &'a Vector3<T>) -> bool {
        self.x.mul_req(other.x) && self.y.mul_req(other.y) && self.z.mul_req(other.z)
    }

    open spec fn mul_spec(self, other: &'a Vector3<T>) -> Vector3<T> {
        Vector3 { x: self.x.mul_spec(other.x), y: self.y.mul_spec(other.y), z: self.z.mul_spec(other.z) }
    }
}

impl<'a, T: Mul<T, Output = T> + Copy> Mul<&'a Vector3<T>> for &'a Vector3<T> {
    type Output = Vector3<T>;

    fn mul(self, other: &'a Vector3<T>) -> Vector3<T> {
        Vector3 { x: self.x * other.x, y: self.y * other.y, z: self.z * other.z }
    }
}

// ---------------------------------------------------------------------------
// Dot product, cross product, squared norm
// ---------------------------------------------------------------------------

/// The products of two vectors of three components.
pub trait VectorialOperations<T>: Sized {
    /// What the scalar type must allow for the products of `self` and `other`
    /// to be computed: each multiplication, sum and difference is defined.
    spec fn product_req(self, other: &Vector3<T>) -> bool;

    /// The cross product, written with the scalar's own operations.
    spec fn cross_spec(self, other: &Vector3<T>) -> Vector3<T>;

    /// The dot product, written with the scalar's own operations.
    spec fn dot_spec(self, other: &Vector3<T>) -> T;

    /// What the scalar type must allow for the squared norm to be computed.
    spec fn norm_req(self) -> bool;

    /// The squared Euclidean norm, written with the scalar's own operations.
    spec fn norm_squared_spec(self) -> T;

    fn norm_squared(self) -> (r: T)
        requires
            self.norm_req(),
        ensures
            r == self.norm_squared_spec(),
    ;

    fn norm_squared_ref(&self) -> (r: T)
        requires
            self.norm_req(),
        ensures
            r == self.norm_squared_spec(),
    ;

    fn cross_product(self, other: &Vector3<T>) -> (r: Vector3<T>)
        requires
            self.product_req(other),
        ensures
            r == self.cross_spec(other),
    ;

    fn cross_product_ref(&self, other: &Vector3<T>) -> (r: Vector3<T>)
        requires
            self.product_req(other),
        ensures
            r == self.cross_spec(other),
    ;

    fn dot_product(self, other: &Vector3<T>) -> (r: T)
        requires
            self.product_req(other),
        ensures
            r == self.dot_spec(other),
    ;

    fn dot_product_ref(&self, other: &Vector3<T>) -> (r: T)
        requires
            self.product_req(other),
        ensures
            r == self.dot_spec(other),
    ;
}

/// The scalar type computes sums, differences and products as its operator
/// specifications say.
pub open spec fn obeys_arithmetic<T: Add<Output = T> + Sub<Output = T> + Mul<Output = T>>() -> bool {
    T::obeys_add_spec() && T::obeys_sub_spec() && T::obeys_mul_spec()
}

/// `a * b - c * d` is defined in the scalar type.
pub open spec fn difference_of_products_req<T: Sub<Output = T> + Mul<Output = T>>(
    a: T,
    b: T,
    c: T,
    d: T,
) -> bool {
    a.mul_req(b) && c.mul_req(d) && a.mul_spec(b).sub_req(c.mul_spec(d))
}

/// `a * b + c * d + e * f` is defined in the scalar type.
pub open spec fn sum_of_products_req<T: Add<Output = T> + Mul<Output = T>>(
    a: T,
    b: T,
    c: T,
    d: T,
    e: T,
    f: T,
) -> bool {
    a.mul_req(b) && c.mul_req(d) && e.mul_req(f) && a.mul_spec(b).add_req(c.mul_spec(d))
        && a.mul_spec(b).add_spec(c.mul_spec(d)).add_req(e.mul_spec(f))
}

impl<T> VectorialOperations<T> for Vector3<T> where
    T: Copy + Mul<Output = T> + Add<Output = T> + Sub<Output = T>,
 {
    open spec fn product_req(self, other: &Vector3<T>) -> bool {
        &&& obeys_arithmetic::<T>()
        &&& difference_of_products_req(self.y, other.z, self.z, other.y)
        &&& difference_of_products_req(self.z, other.x, self.x, other.z)
        &&& difference_of_products_req(self.x, other.y, self.y, other.x)
        &&& sum_of_products_req(self.x, other.x, self.y, other.y, self.z, other.z)
    }

    open spec fn cross_spec(self, other: &Vector3<T>) -> Vector3<T> {
        Vector3 {
            x: self.y.mul_spec(other.z).sub_spec(self.z.mul_spec(other.y)),
            y: self.z.mul_spec(other.x).sub_spec(self.x.mul_spec(other.z)),
            z: self.x.mul_spec(other.y).sub_spec(self.y.mul_spec(other.x)),
        }
    }

    open spec fn dot_spec(self, other: &Vector3<T>) -> T {
        self.x.mul_spec(other.x).add_spec(self.y.mul_spec(other.y)).add_spec(
            self.z.mul_spec(other.z),
        )
    }

    open spec fn norm_req(self) -> bool {
        &&& obeys_arithmetic::<T>()
        &&& sum_of_products_req(self.x, self.x, self.y, self.y, self.z, self.z)
    }

    open spec fn norm_squared_spec(self) -> T {
        self.x.mul_spec(self.x).add_spec(self.y.mul_spec(self.y)).add_spec(
            self.z.mul_spec(self.z),
        )
    }

    fn norm_squared(self) -> (r: T) {
        (self.x * self.x) + (self.y * self.y) + (self.z * self.z)
    }

    fn norm_squared_ref(&self) -> (r: T) {
        (self.x * self.x) + (self.y * self.y) + (self.z * self.z)
    }

    fn cross_product(self, other: &Vector3<T>) -> (r: Vector3<T>) {
        Vector3 {
            x: self.y * other.z - self.z * other.y,
            y: self.z * other.x - self.x * other.z,
            z: self.x * other.y - self.y * other.x,
        }
    }

    fn cross_product_ref(&self, other: &Vector3<T>) -> (r: Vector3<T>) {
        Vector3 {
            x: self.y * other.z - self.z * other.y,
            y: self.z * other.x - self.x * other.z,
            z: self.x * other.y - self.y * other.x,
        }
    }

    fn dot_product(self, other: &Vector3<T>) -> (r: T) {
        self.x * other.x + self.y * other.y + self.z * other.z
    }

    fn dot_product_ref(&self, other: &Vector3<T>) -> (r: T) {
        self.x * other.x + self.y * other.y + self.z * other.z
    }
}

// ---------------------------------------------------------------------------
// Equality up to a threshold
// ---------------------------------------------------------------------------

/// Equality of two values up to a threshold on each component.
pub trait AlmostEq<T>: Sized {
    /// What the scalar type must allow for the comparison to be computed.
    spec fn almost_req(&self, other: &Self, threshold: Option<T>) -> bool;

    /// No component of `self` is farther from that of `other` than the
    /// threshold; without one, than the smallest threshold of the scalar type.
    spec fn within(&self, other: &Self, threshold: Option<T>) -> bool;

    fn equal_with_threshold(&self, other: &Self, threshold: Option<T>) -> (r: bool)
        requires
            self.almost_req(other, threshold),
        ensures
            r == self.within(other, threshold),
    ;

    fn not_equal_with_threshold(&self, other: &Self, threshold: Option<T>) -> (r: bool)
        requires
            self.almost_req(other, threshold),
        ensures
            r == !self.within(other, threshold),
    ;

    /// "Almost not equal", with the smallest threshold.
    fn ane(&self, other: &Self) -> (r: bool)
        requires
            self.almost_req(other, None),
        ensures
            r == !self.within(other, None),
    ;

    /// "Almost equal", with the smallest threshold.
    fn aeq(&self, other: &Self) -> (r: bool)
        requires
            self.almost_req(other, None),
        ensures
            r == self.within(other, None),
    ;
}

/// The smallest threshold of a scalar type: one part in 2^23, the resolution
/// of a single-precision mantissa. In an integer type it is zero.
pub open spec fn smallest_threshold<T: From<u16> + Mul<Output = T> + Div<Output = T>>() -> T {
    T::from_spec(1u16).div_spec(T::from_spec(4096u16).mul_spec(T::from_spec(2048u16)))
}

/// The smallest threshold can be computed in the scalar type.
pub open spec fn smallest_threshold_req<T: From<u16> + Mul<Output = T> + Div<Output = T>>() -> bool {
    &&& T::obeys_from_spec()
    &&& T::obeys_mul_spec()
    &&& T::obeys_div_spec()
    &&& T::from_spec(4096u16).mul_req(T::from_spec(2048u16))
    &&& T::from_spec(1u16).div_req(T::from_spec(4096u16).mul_spec(T::from_spec(2048u16)))
}

/// `|a - b| <= t`, written without an absolute value.
pub open spec fn close<T: Sub<Output = T> + Neg<Output = T> + PartialOrd>(a: T, b: T, t: T) -> bool {
    a.sub_spec(b).is_le(&t) && a.sub_spec(b).neg_spec().is_le(&t)
}

/// `|a - b| <= t` can be computed in the scalar type.
pub open spec fn close_req<T: Sub<Output = T> + Neg<Output = T> + PartialOrd>(a: T, b: T) -> bool {
    a.sub_req(b) && a.sub_spec(b).neg_req()
}

fn is_close<T: Copy + Sub<Output = T> + Neg<Output = T> + PartialOrd>(a: T, b: T, t: T) -> (r: bool)
    requires
        T::obeys_sub_spec(),
        T::obeys_neg_spec(),
        T::obeys_partial_cmp_spec(),
        close_req(a, b),
    ensures
        r == close(a, b, t),
{
    let d = a - b;
    let e = d.neg();
    d.le(&t) && e.le(&t)
}

impl<T> AlmostEq<T> for Vector3<T> where
    T: Copy + Sub<Output = T> + Neg<Output = T> + PartialOrd + From<u16> + Mul<Output = T> + Div<
        Output = T,
    >,
 {
    open spec fn almost_req(&self, other: &Self, threshold: Option<T>) -> bool {
        &&& T::obeys_sub_spec()
        &&& T::obeys_neg_spec()
        &&& T::obeys_partial_cmp_spec()
        &&& threshold is None ==> smallest_threshold_req::<T>()
        &&& close_req(self.x, other.x)
        &&& close_req(self.y, other.y)
        &&& close_req(self.z, other.z)
    }

    open spec fn within(&self, other: &Self, threshold: Option<T>) -> bool {
        let t = match threshold {
            Some(t) => t,
            None => smallest_threshold::<T>(),
        };
        close(self.x, other.x, t) && close(self.y, other.y, t) && close(self.z, other.z, t)
    }

    fn equal_with_threshold(&self, other: &Self, threshold: Option<T>) -> (r: bool) {
        let new_threshold = match threshold {
            Some(thre) => thre,
            None => T::from(1u16) / (T::from(4096u16) * T::from(2048u16)),
        };
        is_close(self.x, other.x, new_threshold) && is_close(self.y, other.y, new_threshold)
            && is_close(self.z, other.z, new_threshold)
    }

    fn not_equal_with_threshold(&self, other: &Self, threshold: Option<T>) -> (r: bool) {
        !self.equal_with_threshold(other, threshold)
    }

    fn ane(&self, other: &Self) -> (r: bool) {
        self.not_equal_with_threshold(other, None)
    }

    fn aeq(&self, other: &Self) -> (r: bool) {
        self.equal_with_threshold(other, None)
    }
}

// ---------------------------------------------------------------------------
// Vectors over the mathematical integers: the model in which the exact
// geometry of this library is stated.
// ---------------------------------------------------------------------------

impl View for Vector3<i64> {
    type V = Vector3<int>;

    open spec fn view(&self) -> Vector3<int> {
        Vector3 { x: self.x as int, y: self.y as int, z: self.z as int }
    }
}

impl View for Vector3<i128> {
    type V = Vector3<int>;

    open spec fn view(&self) -> Vector3<int> {
        Vector3 { x: self.x as int, y: self.y as int, z: self.z as int }
    }
}

impl View for Vector2<i64> {
    type V = Vector2<int>;

    open spec fn view(&self) -> Vector2<int> {
        Vector2 { x: self.x as int, y: self.y as int }
    }
}

impl View for Vector2<i128> {
    type V = Vector2<int>;

    open spec fn view(&self) -> Vector2<int> {
        Vector2 { x: self.x as int, y: self.y as int }
    }
}

} // verus!
