//! The three-dimensional face of the vector kernel: construction, component
//! access, and the cross product.

use vstd::prelude::*;
use crate::vec::{Vector, V3, cross3, okv};

verus! {

/// A point or direction in space.
pub type Vec3 = Vector;

impl Vector {
    /// A vector from its three components.
    pub fn new(x: i128, y: i128, z: i128) -> (r: Vector)
        ensures
            r@ == (V3 { x: x as int, y: y as int, z: z as int }),
    {
        Vector { x, y, z }
    }

    /// First component.
    pub fn x(&self) -> (r: i128)
        ensures
            r as int == self@.x,
    {
        self.x
    }

    /// Second component.
    pub fn y(&self) -> (r: i128)
        ensures
            r as int == self@.y,
    {
        self.y
    }

    /// Third component.
    pub fn z(&self) -> (r: i128)
        ensures
            r as int == self@.z,
    {
        self.z
    }

    /// Cross product of two vectors.
    pub fn cross(&self, other: &Vector) -> (r: Vector)
        requires
            okv(self@, 0x1000000000000000),
            okv(other@, 0x1000000000000000),
        ensures
            r@ == cross3(self@, other@),
    {
        Vector {
            x: fx_mul_c(self.y, other.z) - fx_mul_c(self.z, other.y),
            y: fx_mul_c(self.z, other.x) - fx_mul_c(self.x, other.z),
            z: fx_mul_c(self.x, other.y) - fx_mul_c(self.y, other.x),
        }
    }
}

/// Fixed-point product under the component bound used by `cross`.
fn fx_mul_c(a: i128, b: i128) -> (r: i128)
    requires
        crate::fx::mag(a as int) <= 0x1000000000000000,
        crate::fx::mag(b as int) <= 0x1000000000000000,
    ensures
        r as int == crate::fx::fmul(a as int, b as int),
        crate::fx::mag(r as int) <= 0x10000000000000000000000,
{
    proof {
        crate::vec::lemma_prod_lt(
            crate::fx::mag(a as int),
            crate::fx::mag(b as int),
            0x1000000000000000,
            0x1000000000000000,
        );
        crate::fx::lemma_fmul_bound(a as int, b as int, 0x1000000000000000, 0x1000000000000000);
    }
    crate::fx::fx_mul(a, b)
}

} // verus!
