use vstd::prelude::*;
use crate::util::int_vec::UVec3;

verus! {

/// Cells of a [`Bitmap2`] along `x`.
pub const BITMAP2_X: usize = 512;
/// Cells of a [`Bitmap2`] along `y`.
pub const BITMAP2_Y: usize = 16;
/// Bytes of a [`Bitmap2`] row along `z` (eight cells each).
pub const BITMAP2_Z: usize = 64;

/// Cells of a [`Bitmap4`] along `x`.
pub const BITMAP4_X: usize = 256;
/// Cells of a [`Bitmap4`] along `y`.
pub const BITMAP4_Y: usize = 8;
/// Bytes of a [`Bitmap4`] row along `z` (eight cells each).
pub const BITMAP4_Z: usize = 32;

/// Bit `j` of `byte`, counted from the lowest.
pub open spec fn byte_bit(byte: u8, j: int) -> bool {
    (byte >> (j as u8)) & 1u8 == 1u8
}

proof fn lemma_zero_byte(j: u8)
    requires
        j < 8,
    ensures
        !byte_bit(0u8, j as int),
{
    assert((0u8 >> j) & 1u8 == 0u8) by (bit_vector);
}

/// `byte` with bit `j` cleared, then set when `solid` holds.
fn write_bit(byte: u8, j: u32, solid: bool) -> (r: u8)
    requires
        j < 8,
    ensures
        forall|k: int| 0 <= k < 8 ==> #[trigger] byte_bit(r, k) == if k == j {
            solid
        } else {
            byte_bit(byte, k)
        },
{
    let bit: u8 = if solid { 1 } else { 0 };
    let jj = j as u8;
    let r = (byte & !(1u8 << jj)) | (bit << jj);
    assert forall|k: int| 0 <= k < 8 implies #[trigger] byte_bit(r, k) == if k == j {
        solid
    } else {
        byte_bit(byte, k)
    } by {
        let kk = k as u8;
        assert(((r >> kk) & 1u8) == if kk == jj {
            bit
        } else {
            (byte >> kk) & 1u8
        }) by (bit_vector)
            requires
                r == (byte & !(1u8 << jj)) | (bit << jj),
                jj < 8,
                kk < 8,
                bit < 2,
        ;
    }
    r
}

/// A map of which cells of the brick grid hold something.
pub trait Bitmap {
    /// Marks the cell holding the grid position `offset` as empty or not.
    fn set(&mut self, offset: UVec3, empty: bool)
        requires
            offset.x < 1024,
            offset.y < 32,
            offset.z < 1024,
    ;
}

/// One bit for each cell of two by two by two grid positions.
#[derive(Clone, Copy, Debug)]
pub struct Bitmap2 {
    pub size: [u32; 3],
    pub bit_size: u32,
    pub bits: [[[u8; BITMAP2_Z]; BITMAP2_Y]; BITMAP2_X],
}

impl Bitmap2 {
    /// Cell `(x, y, z)` is marked as holding something. Along `z` the cells
    /// of a byte run from its highest bit to its lowest.
    pub open spec fn solid(&self, x: int, y: int, z: int) -> bool {
        byte_bit(self.bits[x][y][z / 8], 7 - z % 8)
    }

    /// A map with every cell empty.
    pub fn new() -> (r: Self)
        ensures
            r.size == [512u32, 16u32, 512u32],
            r.bit_size == 2,
            forall|x: int, y: int, z: int|
                0 <= x < 512 && 0 <= y < 16 && 0 <= z < 512 ==> !#[trigger] r.solid(x, y, z),
    {
        let r = Self { size: [512, 16, 512], bit_size: 2, bits: [[[0u8; BITMAP2_Z]; BITMAP2_Y]; BITMAP2_X] };
        assert forall|x: int, y: int, z: int|
            0 <= x < 512 && 0 <= y < 16 && 0 <= z < 512 implies !#[trigger] r.solid(x, y, z) by {
            assert(r.bits[x][y][z / 8] == 0u8);
            lemma_zero_byte((7 - z % 8) as u8);
        }
        r
    }
}

impl Bitmap for Bitmap2 {
    fn set(&mut self, offset: UVec3, empty: bool)
        ensures
            final(self).size == old(self).size,
            final(self).bit_size == old(self).bit_size,
            forall|x: int, y: int, z: int|
                0 <= x < 512 && 0 <= y < 16 && 0 <= z < 512 ==> #[trigger] final(self).solid(x, y, z) == if x
                    == offset.x / 2 && y == offset.y / 2 && z == offset.z / 2 {
                    !empty
                } else {
                    old(self).solid(x, y, z)
                },
    {
        let ix = (offset.x / 2) as usize;
        let iy = (offset.y / 2) as usize;
        let iz = offset.z / 2;
        let zb = (iz / 8) as usize;
        let bit_idx = 7 - iz % 8;
        let mut plane = self.bits[ix];
        let mut row = plane[iy];
        row[zb] = write_bit(row[zb], bit_idx, !empty);
        plane[iy] = row;
        self.bits[ix] = plane;
        assert forall|x: int, y: int, z: int|
            0 <= x < 512 && 0 <= y < 16 && 0 <= z < 512 implies #[trigger] self.solid(x, y, z) == if x == ix
                && y == iy && z == iz {
                !empty
            } else {
                old(self).solid(x, y, z)
            } by {
            if x == ix && y == iy && z / 8 == zb {
                assert(byte_bit(row[zb as int], 7 - z % 8) == if 7 - z % 8 == bit_idx {
                    !empty
                } else {
                    byte_bit(old(self).bits[x][y][z / 8], 7 - z % 8)
                });
            }
        }
    }
}

/// One bit for each cell of four by four by four grid positions.
#[derive(Clone, Copy, Debug)]
pub struct Bitmap4 {
    pub size: [u32; 3],
    pub bit_size: u32,
    pub bits: [[[u8; BITMAP4_Z]; BITMAP4_Y]; BITMAP4_X],
}

impl Bitmap4 {
    /// Cell `(x, y, z)` is marked as holding something. Along `z` the cells
    /// of a byte run from its highest bit to its lowest.
    pub open spec fn solid(&self, x: int, y: int, z: int) -> bool {
        byte_bit(self.bits[x][y][z / 8], 7 - z % 8)
    }

    /// A map with every cell empty.
    pub fn new() -> (r: Self)
        ensures
            r.size == [256u32, 8u32, 256u32],
            r.bit_size == 4,
            forall|x: int, y: int, z: int|
                0 <= x < 256 && 0 <= y < 8 && 0 <= z < 256 ==> !#[trigger] r.solid(x, y, z),
    {
        let r = Self { size: [256, 8, 256], bit_size: 4, bits: [[[0u8; BITMAP4_Z]; BITMAP4_Y]; BITMAP4_X] };
        assert forall|x: int, y: int, z: int|
            0 <= x < 256 && 0 <= y < 8 && 0 <= z < 256 implies !#[trigger] r.solid(x, y, z) by {
            assert(r.bits[x][y][z / 8] == 0u8);
            lemma_zero_byte((7 - z % 8) as u8);
        }
        r
    }
}

impl Bitmap for Bitmap4 {
    fn set(&mut self, offset: UVec3, empty: bool)
        ensures
            final(self).size == old(self).size,
            final(self).bit_size == old(self).bit_size,
            forall|x: int, y: int, z: int|
                0 <= x < 256 && 0 <= y < 8 && 0 <= z < 256 ==> #[trigger] final(self).solid(x, y, z) == if x
                    == offset.x / 4 && y == offset.y / 4 && z == offset.z / 4 {
                    !empty
                } else {
                    old(self).solid(x, y, z)
                },
    {
        let ix = (offset.x / 4) as usize;
        let iy = (offset.y / 4) as usize;
        let iz = offset.z / 4;
        let zb = (iz / 8) as usize;
        let bit_idx = 7 - iz % 8;
        let mut plane = self.bits[ix];
        let mut row = plane[iy];
        row[zb] = write_bit(row[zb], bit_idx, !empty);
        plane[iy] = row;
        self.bits[ix] = plane;
        assert forall|x: int, y: int, z: int|
            0 <= x < 256 && 0 <= y < 8 && 0 <= z < 256 implies #[trigger] self.solid(x, y, z) == if x == ix
                && y == iy && z == iz {
                !empty
            } else {
                old(self).solid(x, y, z)
            } by {
            if x == ix && y == iy && z / 8 == zb {
                assert(byte_bit(row[zb as int], 7 - z % 8) == if 7 - z % 8 == bit_idx {
                    !empty
                } else {
                    byte_bit(old(self).bits[x][y][z / 8], 7 - z % 8)
                });
            }
        }
    }
}

} // verus!
