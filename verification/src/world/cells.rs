use vstd::prelude::*;
use ndarray::Array3;

verus! {

/// Block ids in an `ndarray::Array3`, the three-dimensional array of the
/// `ndarray` crate; indexed `[x][y][z]`.
#[verifier::external_body]
pub struct BlockArray {
    inner: Array3<u32>,
}

/// The elements of the array in its logical order, where the last index varies fastest.
pub uninterp spec fn block_array_cells(a: BlockArray) -> Seq<u32>;

/// The lengths of the three axes of the array, as it was made.
pub uninterp spec fn block_array_shape(a: BlockArray) -> (usize, usize, usize);

/// The position in logical order of index `(x, y, z)` in an array of shape `s`.
pub open spec fn flat_index(s: (usize, usize, usize), x: int, y: int, z: int) -> int {
    (x * s.1 + y) * s.2 + z
}

impl BlockArray {
    /// `Array3::from_elem` from `ndarray`: an array of the given shape whose
    /// every element is `elem`. It panics when the product of the lengths
    /// overflows `isize`, which `requires` rules out.
    #[verifier::external_body]
    pub(crate) fn from_elem(shape: (usize, usize, usize), elem: u32) -> (a: BlockArray)
        requires
            shape.0 >= 1,
            shape.1 >= 1,
            shape.2 >= 1,
            shape.0 * shape.1 * shape.2 <= isize::MAX,
        ensures
            block_array_shape(a) == shape,
            block_array_cells(a) == Seq::new((shape.0 * shape.1 * shape.2) as nat, |i: int| elem),
    {
        BlockArray { inner: Array3::from_elem(shape, elem) }
    }

    /// `ArrayBase::get` from `ndarray`, copied out: the element at `(x, y, z)`, or
    /// `None` when an index is not below the length of its axis.
    #[verifier::external_body]
    pub(crate) fn get(&self, x: usize, y: usize, z: usize) -> (r: Option<u32>)
        ensures
            r == (if x < block_array_shape(*self).0 && y < block_array_shape(*self).1 && z
                < block_array_shape(*self).2 {
                Some(
                    block_array_cells(*self)[flat_index(
                        block_array_shape(*self),
                        x as int,
                        y as int,
                        z as int,
                    )],
                )
            } else {
                None
            }),
    {
        self.inner.get((x, y, z)).copied()
    }

    /// `ArrayBase::get_mut` from `ndarray`, written through: sets the element at
    /// `(x, y, z)` to `v` and returns `true`, or returns `false` and changes
    /// nothing when an index is not below the length of its axis.
    #[verifier::external_body]
    pub(crate) fn set(&mut self, x: usize, y: usize, z: usize, v: u32) -> (r: bool)
        ensures
            block_array_shape(*final(self)) == block_array_shape(*old(self)),
            r == (x < block_array_shape(*old(self)).0 && y < block_array_shape(*old(self)).1 && z
                < block_array_shape(*old(self)).2),
            block_array_cells(*final(self)) == (if r {
                block_array_cells(*old(self)).update(
                    flat_index(block_array_shape(*old(self)), x as int, y as int, z as int),
                    v,
                )
            } else {
                block_array_cells(*old(self))
            }),
    {
        match self.inner.get_mut((x, y, z)) {
            Some(cell) => {
                *cell = v;
                true
            },
            None => false,
        }
    }
}

} // verus!
