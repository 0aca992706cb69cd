use vstd::prelude::*;
use crate::util::more_vec::{UsizeVec2, UsizeVec3};

verus! {

/// An `N`x`N`x`N` array.
pub struct CubeArray<T, const N: usize> {
    /// Index using `[x][y][z]` or a `UsizeVec3`
    pub inner: [[[T; N]; N]; N],
}

impl<T: Copy> CubeArray<T, 0> {
    /// A cube whose every element is `item`.
    pub fn fill_copy<const N: usize>(item: T) -> (r: CubeArray<T, N>)
        ensures
            forall|x: int, y: int, z: int|
                0 <= x < N && 0 <= y < N && 0 <= z < N ==> #[trigger] r.inner[x][y][z] == item,
    {
        let row: [T; N] = [item; N];
        let plane: [[T; N]; N] = [row; N];
        CubeArray { inner: [plane; N] }
    }
}

impl<T, const N: usize> CubeArray<T, N> {
    /// The element at `index`, which must lie inside the cube.
    pub fn index(&self, index: UsizeVec3) -> (r: &T)
        requires
            index.x < N && index.y < N && index.z < N,
        ensures
            *r == self.inner[index.x as int][index.y as int][index.z as int],
    {
        &self.inner[index.x][index.y][index.z]
    }
}

impl<T, const N: usize> From<[[[T; N]; N]; N]> for CubeArray<T, N> {
    fn from(value: [[[T; N]; N]; N]) -> (r: Self) {
        Self { inner: value }
    }
}

impl<T, const N: usize> vstd::std_specs::convert::FromSpecImpl<[[[T; N]; N]; N]> for CubeArray<T, N> {
    open spec fn obeys_from_spec() -> bool {
        true
    }

    open spec fn from_spec(v: [[[T; N]; N]; N]) -> CubeArray<T, N> {
        CubeArray { inner: v }
    }
}

/// An `N`x`N` array.
pub struct SquareArray<T, const N: usize> {
    pub inner: [[T; N]; N],
}

impl<T: Copy> SquareArray<T, 0> {
    /// A square whose every element is `item`.
    pub fn fill_copy<const N: usize>(item: T) -> (r: SquareArray<T, N>)
        ensures
            forall|x: int, y: int| 0 <= x < N && 0 <= y < N ==> #[trigger] r.inner[x][y] == item,
    {
        let row: [T; N] = [item; N];
        SquareArray { inner: [row; N] }
    }
}

impl<T, const N: usize> SquareArray<T, N> {
    /// The element at `index`, which must lie inside the square.
    pub fn index(&self, index: UsizeVec2) -> (r: &T)
        requires
            index.x < N && index.y < N,
        ensures
            *r == self.inner[index.x as int][index.y as int],
    {
        &self.inner[index.x][index.y]
    }
}

impl<T, const N: usize> From<[[T; N]; N]> for SquareArray<T, N> {
    fn from(value: [[T; N]; N]) -> (r: Self) {
        Self { inner: value }
    }
}

impl<T, const N: usize> vstd::std_specs::convert::FromSpecImpl<[[T; N]; N]> for SquareArray<T, N> {
    open spec fn obeys_from_spec() -> bool {
        true
    }

    open spec fn from_spec(v: [[T; N]; N]) -> SquareArray<T, N> {
        SquareArray { inner: v }
    }
}

} // verus!
