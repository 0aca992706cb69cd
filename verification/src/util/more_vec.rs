use vstd::prelude::*;
use std::ops::{Add, Mul};
use crate::util::int_vec::UVec3;

verus! {

/// Three `usize` coordinates, for indexing arrays.
#[derive(Copy, Clone, Debug)]
pub struct UsizeVec3 {
    pub x: usize,
    pub y: usize,
    pub z: usize,
}

impl UsizeVec3 {
    pub fn new(x: usize, y: usize, z: usize) -> (r: Self)
        ensures
            r == (UsizeVec3 { x, y, z }),
    {
        Self { x, y, z }
    }
}

impl Mul<usize> for UsizeVec3 {
    type Output = UsizeVec3;

    /// Each coordinate times `rhs`; the products must fit in `usize`.
    fn mul(self, rhs: usize) -> (r: Self::Output) {
        UsizeVec3::new(self.x * rhs, self.y * rhs, self.z * rhs)
    }
}

impl vstd::std_specs::ops::MulSpecImpl<usize> for UsizeVec3 {
    open spec fn obeys_mul_spec() -> bool {
        true
    }

    open spec fn mul_req(self, rhs: usize) -> bool {
        self.x * rhs <= usize::MAX && self.y * rhs <= usize::MAX && self.z * rhs <= usize::MAX
    }

    open spec fn mul_spec(self, rhs: usize) -> UsizeVec3 {
        UsizeVec3 {
            x: (self.x * rhs) as usize,
            y: (self.y * rhs) as usize,
            z: (self.z * rhs) as usize,
        }
    }
}

impl Add<UsizeVec3> for UsizeVec3 {
    type Output = Self;

    /// The coordinate-wise sum; the sums must fit in `usize`.
    fn add(self, rhs: UsizeVec3) -> (r: Self::Output) {
        Self::new(self.x + rhs.x, self.y + rhs.y, self.z + rhs.z)
    }
}

impl vstd::std_specs::ops::AddSpecImpl<UsizeVec3> for UsizeVec3 {
    open spec fn obeys_add_spec() -> bool {
        true
    }

    open spec fn add_req(self, rhs: UsizeVec3) -> bool {
        self.x + rhs.x <= usize::MAX && self.y + rhs.y <= usize::MAX && self.z + rhs.z <= usize::MAX
    }

    open spec fn add_spec(self, rhs: UsizeVec3) -> UsizeVec3 {
        UsizeVec3 {
            x: (self.x + rhs.x) as usize,
            y: (self.y + rhs.y) as usize,
            z: (self.z + rhs.z) as usize,
        }
    }
}

impl From<(usize, usize, usize)> for UsizeVec3 {
    fn from(value: (usize, usize, usize)) -> (r: Self) {
        Self::new(value.0, value.1, value.2)
    }
}

impl vstd::std_specs::convert::FromSpecImpl<(usize, usize, usize)> for UsizeVec3 {
    open spec fn obeys_from_spec() -> bool {
        true
    }

    open spec fn from_spec(v: (usize, usize, usize)) -> UsizeVec3 {
        UsizeVec3 { x: v.0, y: v.1, z: v.2 }
    }
}

impl From<UVec3> for UsizeVec3 {
    fn from(value: UVec3) -> (r: Self) {
        Self::new(value.x as usize, value.y as usize, value.z as usize)
    }
}

impl vstd::std_specs::convert::FromSpecImpl<UVec3> for UsizeVec3 {
    open spec fn obeys_from_spec() -> bool {
        true
    }

    open spec fn from_spec(v: UVec3) -> UsizeVec3 {
        UsizeVec3 { x: v.x as usize, y: v.y as usize, z: v.z as usize }
    }
}

/// Two `usize` coordinates, for indexing arrays.
#[derive(Copy, Clone, Debug)]
pub struct UsizeVec2 {
    pub x: usize,
    pub y: usize,
}

impl UsizeVec2 {
    pub fn new(x: usize, y: usize) -> (r: Self)
        ensures
            r == (UsizeVec2 { x, y }),
    {
        Self { x, y }
    }
}

impl Mul<usize> for UsizeVec2 {
    type Output = UsizeVec2;

    /// Each coordinate times `rhs`; the products must fit in `usize`.
    fn mul(self, rhs: usize) -> (r: Self::Output) {
        UsizeVec2::new(self.x * rhs, self.y * rhs)
    }
}

impl vstd::std_specs::ops::MulSpecImpl<usize> for UsizeVec2 {
    open spec fn obeys_mul_spec() -> bool {
        true
    }

    open spec fn mul_req(self, rhs: usize) -> bool {
        self.x * rhs <= usize::MAX && self.y * rhs <= usize::MAX
    }

    open spec fn mul_spec(self, rhs: usize) -> UsizeVec2 {
        UsizeVec2 { x: (self.x * rhs) as usize, y: (self.y * rhs) as usize }
    }
}

impl From<(usize, usize)> for UsizeVec2 {
    fn from(value: (usize, usize)) -> (r: Self) {
        Self::new(value.0, value.1)
    }
}

impl vstd::std_specs::convert::FromSpecImpl<(usize, usize)> for UsizeVec2 {
    open spec fn obeys_from_spec() -> bool {
        true
    }

    open spec fn from_spec(v: (usize, usize)) -> UsizeVec2 {
        UsizeVec2 { x: v.0, y: v.1 }
    }
}

} // verus!
