use vstd::prelude::*;
use crate::util::int_vec::{IVec2, IVec3, UVec2, UVec3};

verus! {

/// One of the three coordinate axes.
#[derive(Copy, Clone, Debug, PartialEq, Eq, PartialOrd, Ord, Structural)]
pub enum Axis {
    X,
    Y,
    Z,
}

/// The direction along an axis.
#[derive(Copy, Clone, Debug, PartialEq, Eq, PartialOrd, Structural)]
pub enum Sign {
    Positive,
    Negative,
}

/// A face of a unit cube: an axis and a direction along it.
#[derive(Copy, Clone, Debug, PartialEq, Eq, PartialOrd, Structural)]
pub struct Facing {
    pub axis: Axis,
    pub sign: Sign,
}

/// The face number of a facing: `+X -X +Y -Y +Z -Z` are `0..6`.
pub open spec fn facing_num(f: Facing) -> nat {
    let a: nat = match f.axis {
        Axis::X => 0,
        Axis::Y => 1,
        Axis::Z => 2,
    };
    let s: nat = match f.sign {
        Sign::Positive => 0,
        Sign::Negative => 1,
    };
    2 * a + s
}

/// The facing whose face number is `n` (for `n < 6`).
pub open spec fn facing_of_num(n: nat) -> Facing {
    Facing {
        axis: if n < 2 {
            Axis::X
        } else if n < 4 {
            Axis::Y
        } else {
            Axis::Z
        },
        sign: if n % 2 == 0 {
            Sign::Positive
        } else {
            Sign::Negative
        },
    }
}

pub open spec fn opposite_sign(s: Sign) -> Sign {
    match s {
        Sign::Positive => Sign::Negative,
        Sign::Negative => Sign::Positive,
    }
}

impl Facing {
    pub fn up() -> (r: Self)
        ensures
            r == (Facing { axis: Axis::Y, sign: Sign::Positive }),
    {
        Self { axis: Axis::Y, sign: Sign::Positive }
    }

    pub fn down() -> (r: Self)
        ensures
            r == (Facing { axis: Axis::Y, sign: Sign::Negative }),
    {
        Self { axis: Axis::Y, sign: Sign::Negative }
    }

    pub fn right() -> (r: Self)
        ensures
            r == (Facing { axis: Axis::X, sign: Sign::Positive }),
    {
        Self { axis: Axis::X, sign: Sign::Positive }
    }

    pub fn left() -> (r: Self)
        ensures
            r == (Facing { axis: Axis::X, sign: Sign::Negative }),
    {
        Self { axis: Axis::X, sign: Sign::Negative }
    }

    pub fn forward() -> (r: Self)
        ensures
            r == (Facing { axis: Axis::Z, sign: Sign::Positive }),
    {
        Self { axis: Axis::Z, sign: Sign::Positive }
    }

    pub fn back() -> (r: Self)
        ensures
            r == (Facing { axis: Axis::Z, sign: Sign::Negative }),
    {
        Self { axis: Axis::Z, sign: Sign::Negative }
    }

    pub fn new(axis: Axis, sign: Sign) -> (r: Self)
        ensures
            r == (Facing { axis, sign }),
    {
        Self { axis, sign }
    }

    /// The face number, `+X -X +Y -Y +Z -Z` in that order.
    pub fn to_num(&self) -> (r: usize)
        ensures
            r == facing_num(*self),
            r < 6,
    {
        match (self.sign, self.axis) {
            (Sign::Positive, Axis::X) => 0,
            (Sign::Negative, Axis::X) => 1,
            (Sign::Positive, Axis::Y) => 2,
            (Sign::Negative, Axis::Y) => 3,
            (Sign::Positive, Axis::Z) => 4,
            (Sign::Negative, Axis::Z) => 5,
        }
    }

    /// The facing with face number `num`.
    pub fn from_num(num: usize) -> (r: Self)
        requires
            num < 6,
        ensures
            r == facing_of_num(num as nat),
            facing_num(r) == num,
    {
        match num {
            0 => Self::new(Axis::X, Sign::Positive),
            1 => Self::new(Axis::X, Sign::Negative),
            2 => Self::new(Axis::Y, Sign::Positive),
            3 => Self::new(Axis::Y, Sign::Negative),
            4 => Self::new(Axis::Z, Sign::Positive),
            _ => Self::new(Axis::Z, Sign::Negative),
        }
    }

    /// The face on the other side of the cube.
    pub fn opposite(&self) -> (r: Self)
        ensures
            r == (Facing { axis: self.axis, sign: opposite_sign(self.sign) }),
    {
        Self {
            axis: self.axis,
            sign: match self.sign {
                Sign::Positive => Sign::Negative,
                Sign::Negative => Sign::Positive,
            },
        }
    }
}

/// A face number names exactly one facing: numbering and decoding are inverse.
pub proof fn lemma_facing_num_roundtrip(f: Facing, n: nat)
    requires
        n < 6,
    ensures
        facing_of_num(facing_num(f)) == f,
        facing_num(facing_of_num(n)) == n,
        facing_num(f) < 6,
{
}

/// Taking the opposite face twice gives the face back, and the opposite of a
/// face differs from it only in the lowest bit of its number.
pub proof fn lemma_opposite_involution(f: Facing)
    ensures
        (Facing { axis: f.axis, sign: opposite_sign(opposite_sign(f.sign)) }) == f,
        facing_num(Facing { axis: f.axis, sign: opposite_sign(f.sign) }) as int == (if facing_num(f)
            % 2 == 0 {
            facing_num(f) + 1int
        } else {
            facing_num(f) - 1
        }),
{
}

/// The `x` and `z` coordinates of a vector.
pub trait AdditionalSwizzles {
    type Out;

    fn xz(&self) -> Self::Out;
}

impl AdditionalSwizzles for IVec3 {
    type Out = IVec2;

    fn xz(&self) -> (r: Self::Out)
        ensures
            r == (IVec2 { x: self.x, y: self.z }),
    {
        IVec2::new(self.x, self.z)
    }
}

/// A vector of unsigned coordinates as signed ones, each reinterpreted as `i32`.
pub trait UVecToSigned {
    type IVec;

    fn signed(self) -> Self::IVec;
}

impl UVecToSigned for UVec3 {
    type IVec = IVec3;

    fn signed(self) -> (r: Self::IVec)
        ensures
            r == (IVec3 { x: self.x as i32, y: self.y as i32, z: self.z as i32 }),
    {
        IVec3::new(self.x as i32, self.y as i32, self.z as i32)
    }
}

impl UVecToSigned for UVec2 {
    type IVec = IVec2;

    fn signed(self) -> (r: Self::IVec)
        ensures
            r == (IVec2 { x: self.x as i32, y: self.y as i32 }),
    {
        IVec2::new(self.x as i32, self.y as i32)
    }
}

} // verus!
