use vstd::prelude::*;
use crate::render::texture::TextureHandle;

verus! {

/// An 8x8x8 brick of solid flags with its texture offset, level-of-detail
/// colour and bounding box.
#[derive(Clone, Copy, Debug)]
pub struct Brickmap {
    pub solid_mask: [[u8; 8]; 8],
    pub textures_offset: u32,
    pub lod_color: [u8; 3],
    pub _pad: u8,
    pub bb_min: u16,
    pub bb_max: u16,
}

/// Four bits each of `x`, `y` and `z`, from the highest nibble down; the lowest nibble is zero.
pub open spec fn pack_u4_spec(x: u16, y: u16, z: u16) -> int {
    (x % 16) * 4096 + (y % 16) * 256 + (z % 16) * 16
}

/// Cell `(x, y, z)` is solid: bit `7 - z` of `mask[x][y]` is set.
pub open spec fn cell_solid(mask: [[u8; 8]; 8], x: int, y: int, z: int) -> bool {
    &&& 0 <= x < 8
    &&& 0 <= y < 8
    &&& 0 <= z < 8
    &&& (mask[x][y] >> ((7 - z) as u8)) & 1u8 == 1u8
}

/// Coordinate `axis` (0, 1 or 2) of `(x, y, z)`.
pub open spec fn coord(axis: int, x: int, y: int, z: int) -> int {
    if axis == 0 {
        x
    } else if axis == 1 {
        y
    } else {
        z
    }
}

/// `v` is the least `axis` coordinate of a solid cell, or 7 when no cell is solid.
pub open spec fn is_low_bound(mask: [[u8; 8]; 8], axis: int, v: int) -> bool {
    &&& forall|x: int, y: int, z: int| #[trigger] cell_solid(mask, x, y, z) ==> v <= coord(axis, x, y, z)
    &&& (v == 7 || exists|x: int, y: int, z: int| #[trigger]
        cell_solid(mask, x, y, z) && coord(axis, x, y, z) == v)
}

/// `v` is the greatest `axis` coordinate of a solid cell, or 0 when no cell is solid.
pub open spec fn is_high_bound(mask: [[u8; 8]; 8], axis: int, v: int) -> bool {
    &&& forall|x: int, y: int, z: int| #[trigger] cell_solid(mask, x, y, z) ==> coord(axis, x, y, z) <= v
    &&& (v == 0 || exists|x: int, y: int, z: int| #[trigger]
        cell_solid(mask, x, y, z) && coord(axis, x, y, z) == v)
}

/// Cell `(cx, cy, cz)` comes before `(x, y, z)` in `x`, then `y`, then `z` order.
pub open spec fn cell_before(cx: int, cy: int, cz: int, x: int, y: int, z: int) -> bool {
    cx < x || (cx == x && (cy < y || (cy == y && cz < z)))
}

proof fn lemma_pack(x: u16, y: u16, z: u16)
    ensures
        ((x & 0b1111) << 12u16) | ((y & 0b1111) << 8u16) | ((z & 0b1111) << 4u16) == pack_u4_spec(
            x,
            y,
            z,
        ),
{
    assert(((x & 0b1111) << 12u16) | ((y & 0b1111) << 8u16) | ((z & 0b1111) << 4u16) == (x % 16)
        * 4096 + (y % 16) * 256 + (z % 16) * 16) by (bit_vector);
}

/// Packs the low four bits of each coordinate into one `u16`.
pub fn pack_u4_vec3(x: u16, y: u16, z: u16) -> (r: u16)
    ensures
        r == pack_u4_spec(x, y, z),
{
    proof {
        lemma_pack(x, y, z);
    }
    ((x & 0b1111) << 12) | ((y & 0b1111) << 8) | ((z & 0b1111) << 4)
}

/// `l` is 7, or the `axis` coordinate of the solid cell `w` visited before `(x, y, z)`.
pub open spec fn low_witness(mask: [[u8; 8]; 8], x: int, y: int, z: int, axis: int, l: int, w: (int, int, int)) -> bool {
    l == 7 || (cell_solid(mask, w.0, w.1, w.2) && cell_before(w.0, w.1, w.2, x, y, z) && coord(axis, w.0, w.1, w.2) == l)
}

/// `h` is 0, or the `axis` coordinate of the solid cell `w` visited before `(x, y, z)`.
pub open spec fn high_witness(mask: [[u8; 8]; 8], x: int, y: int, z: int, axis: int, h: int, w: (int, int, int)) -> bool {
    h == 0 || (cell_solid(mask, w.0, w.1, w.2) && cell_before(w.0, w.1, w.2, x, y, z) && coord(axis, w.0, w.1, w.2) == h)
}

/// Running bounds over the cells visited before `(x, y, z)`, each with a solid cell that attains it.
pub open spec fn bounds_so_far(
    mask: [[u8; 8]; 8],
    x: int,
    y: int,
    z: int,
    lo: (int, int, int),
    hi: (int, int, int),
    wlo: Seq<(int, int, int)>,
    whi: Seq<(int, int, int)>,
) -> bool {
    &&& wlo.len() == 3
    &&& whi.len() == 3
    &&& forall|cx: int, cy: int, cz: int| #[trigger]
        cell_solid(mask, cx, cy, cz) && cell_before(cx, cy, cz, x, y, z) ==> {
            &&& lo.0 <= cx <= hi.0
            &&& lo.1 <= cy <= hi.1
            &&& lo.2 <= cz <= hi.2
        }
    &&& low_witness(mask, x, y, z, 0, lo.0, wlo[0])
    &&& low_witness(mask, x, y, z, 1, lo.1, wlo[1])
    &&& low_witness(mask, x, y, z, 2, lo.2, wlo[2])
    &&& high_witness(mask, x, y, z, 0, hi.0, whi[0])
    &&& high_witness(mask, x, y, z, 1, hi.1, whi[1])
    &&& high_witness(mask, x, y, z, 2, hi.2, whi[2])
    &&& 0 <= lo.0 <= 7
    &&& 0 <= lo.1 <= 7
    &&& 0 <= lo.2 <= 7
    &&& 0 <= hi.0 <= 7
    &&& 0 <= hi.1 <= 7
    &&& 0 <= hi.2 <= 7
}

/// Passing over a cell that is not solid keeps the bounds.
proof fn lemma_step_empty(mask: [[u8; 8]; 8], x: int, y: int, z: int, lo: (int, int, int), hi: (int, int, int), wlo: Seq<(int, int, int)>, whi: Seq<(int, int, int)>)
    requires
        0 <= z < 8,
        bounds_so_far(mask, x, y, z, lo, hi, wlo, whi),
        !cell_solid(mask, x, y, z),
    ensures
        bounds_so_far(mask, x, y, z + 1, lo, hi, wlo, whi),
{
    assert forall|cx: int, cy: int, cz: int| #[trigger]
        cell_solid(mask, cx, cy, cz) && cell_before(cx, cy, cz, x, y, z + 1) implies {
            &&& lo.0 <= cx <= hi.0
            &&& lo.1 <= cy <= hi.1
            &&& lo.2 <= cz <= hi.2
        } by {
        assert(cell_before(cx, cy, cz, x, y, z));
    }
}

/// Taking in a solid cell widens the bounds to it.
proof fn lemma_step_solid(mask: [[u8; 8]; 8], x: int, y: int, z: int, lo: (int, int, int), hi: (int, int, int), wlo: Seq<(int, int, int)>, whi: Seq<(int, int, int)>, lo2: (int, int, int), hi2: (int, int, int), wlo2: Seq<(int, int, int)>, whi2: Seq<(int, int, int)>)
    requires
        0 <= z < 8,
        bounds_so_far(mask, x, y, z, lo, hi, wlo, whi),
        cell_solid(mask, x, y, z),
        lo2.0 == (if x < lo.0 { x } else { lo.0 }),
        lo2.1 == (if y < lo.1 { y } else { lo.1 }),
        lo2.2 == (if z < lo.2 { z } else { lo.2 }),
        hi2.0 == (if x > hi.0 { x } else { hi.0 }),
        hi2.1 == (if y > hi.1 { y } else { hi.1 }),
        hi2.2 == (if z > hi.2 { z } else { hi.2 }),
        wlo2 == wlo.update(0, if x < lo.0 { (x, y, z) } else { wlo[0] }).update(1, if y < lo.1 { (x, y, z) } else { wlo[1] }).update(2, if z < lo.2 { (x, y, z) } else { wlo[2] }),
        whi2 == whi.update(0, if x > hi.0 { (x, y, z) } else { whi[0] }).update(1, if y > hi.1 { (x, y, z) } else { whi[1] }).update(2, if z > hi.2 { (x, y, z) } else { whi[2] }),
    ensures
        bounds_so_far(mask, x, y, z + 1, lo2, hi2, wlo2, whi2),
{
    assert forall|cx: int, cy: int, cz: int| #[trigger]
        cell_solid(mask, cx, cy, cz) && cell_before(cx, cy, cz, x, y, z + 1) implies {
            &&& lo2.0 <= cx <= hi2.0
            &&& lo2.1 <= cy <= hi2.1
            &&& lo2.2 <= cz <= hi2.2
        } by {
        if cell_before(cx, cy, cz, x, y, z) {
        }
    }
}

/// Crossing to the next column or plane keeps the bounds.
proof fn lemma_step_wrap(mask: [[u8; 8]; 8], x: int, y: int, lo: (int, int, int), hi: (int, int, int), wlo: Seq<(int, int, int)>, whi: Seq<(int, int, int)>)
    ensures
        bounds_so_far(mask, x, y, 8, lo, hi, wlo, whi) ==> bounds_so_far(mask, x, y + 1, 0, lo, hi, wlo, whi),
        bounds_so_far(mask, x, 8, 0, lo, hi, wlo, whi) ==> bounds_so_far(mask, x + 1, 0, 0, lo, hi, wlo, whi),
{
    if bounds_so_far(mask, x, y, 8, lo, hi, wlo, whi) {
        assert forall|cx: int, cy: int, cz: int| #[trigger]
            cell_solid(mask, cx, cy, cz) && cell_before(cx, cy, cz, x, y + 1, 0) implies {
                &&& lo.0 <= cx <= hi.0
                &&& lo.1 <= cy <= hi.1
                &&& lo.2 <= cz <= hi.2
            } by {
            assert(cell_before(cx, cy, cz, x, y, 8));
        }
    }
    if bounds_so_far(mask, x, 8, 0, lo, hi, wlo, whi) {
        assert forall|cx: int, cy: int, cz: int| #[trigger]
            cell_solid(mask, cx, cy, cz) && cell_before(cx, cy, cz, x + 1, 0, 0) implies {
                &&& lo.0 <= cx <= hi.0
                &&& lo.1 <= cy <= hi.1
                &&& lo.2 <= cz <= hi.2
            } by {
            assert(cell_before(cx, cy, cz, x, 8, 0));
        }
    }
}

impl Brickmap {
    /// No solid cell, and every other field zero.
    pub open spec fn is_blank(&self) -> bool {
        &&& forall|x: int, y: int| 0 <= x < 8 && 0 <= y < 8 ==> self.solid_mask[x][y] == 0
        &&& self.textures_offset == 0
        &&& self.lod_color@ == seq![0u8, 0u8, 0u8]
        &&& self._pad == 0
        &&& self.bb_min == 0
        &&& self.bb_max == 0
    }

    /// A brickmap with no solid cell and every other field zero.
    pub fn empty() -> (r: Self)
        ensures
            r.is_blank(),
    {
        let bb_min = pack_u4_vec3(0, 0, 0);
        let bb_max = pack_u4_vec3(0, 0, 0);
        let r = Self {
            solid_mask: [[0u8; 8]; 8],
            textures_offset: 0,
            lod_color: [0u8; 3],
            _pad: 0,
            bb_min,
            bb_max,
        };
        proof {
            assert(r.lod_color@ =~= seq![0u8, 0u8, 0u8]);
        }
        r
    }

    /// No cell of the mask is solid.
    pub fn is_empty(&self) -> (r: bool)
        ensures
            r == (forall|x: int, y: int| 0 <= x < 8 && 0 <= y < 8 ==> self.solid_mask[x][y] == 0),
    {
        let mut x: usize = 0;
        while x < 8
            invariant
                x <= 8,
                forall|cx: int, cy: int| 0 <= cx < x && 0 <= cy < 8 ==> self.solid_mask[cx][cy] == 0,
            decreases 8 - x,
        {
            let mut y: usize = 0;
            while y < 8
                invariant
                    x < 8,
                    y <= 8,
                    forall|cx: int, cy: int|
                        0 <= cx < x && 0 <= cy < 8 ==> self.solid_mask[cx][cy] == 0,
                    forall|cy: int| 0 <= cy < y ==> self.solid_mask[x as int][cy] == 0,
                decreases 8 - y,
            {
                if self.solid_mask[x][y] > 0 {
                    return false;
                }
                y = y + 1;
            }
            x = x + 1;
        }
        true
    }

    /// Sets the bounding box to the solid cells: `bb_min` packs the least
    /// coordinates and `bb_max` the greatest plus one.
    pub fn update_bounding_box(&mut self)
        ensures
            final(self).solid_mask == old(self).solid_mask,
            final(self).textures_offset == old(self).textures_offset,
            final(self).lod_color == old(self).lod_color,
            final(self)._pad == old(self)._pad,
            exists|lx: u16, ly: u16, lz: u16, hx: u16, hy: u16, hz: u16|
                {
                    &&& is_low_bound(old(self).solid_mask, 0, lx as int)
                    &&& is_low_bound(old(self).solid_mask, 1, ly as int)
                    &&& is_low_bound(old(self).solid_mask, 2, lz as int)
                    &&& is_high_bound(old(self).solid_mask, 0, hx as int)
                    &&& is_high_bound(old(self).solid_mask, 1, hy as int)
                    &&& is_high_bound(old(self).solid_mask, 2, hz as int)
                    &&& final(self).bb_min == pack_u4_spec(lx, ly, lz)
                    &&& final(self).bb_max == pack_u4_spec(
                        (hx + 1) as u16,
                        (hy + 1) as u16,
                        (hz + 1) as u16,
                    )
                },
    {
        let mask = self.solid_mask;
        let (mut x_min, mut y_min, mut z_min): (u16, u16, u16) = (7, 7, 7);
        let (mut x_max, mut y_max, mut z_max): (u16, u16, u16) = (0, 0, 0);
        let ghost mut wlo: Seq<(int, int, int)> = seq![(0, 0, 0), (0, 0, 0), (0, 0, 0)];
        let ghost mut whi: Seq<(int, int, int)> = seq![(0, 0, 0), (0, 0, 0), (0, 0, 0)];

        let mut x: u16 = 0;
        while x < 8
            invariant
                x <= 8,
                bounds_so_far(
                    mask,
                    x as int,
                    0,
                    0,
                    (x_min as int, y_min as int, z_min as int),
                    (x_max as int, y_max as int, z_max as int),
                    wlo,
                    whi,
                ),
            decreases 8 - x,
        {
            let mut y: u16 = 0;
            while y < 8
                invariant
                    x < 8,
                    y <= 8,
                    bounds_so_far(
                        mask,
                        x as int,
                        y as int,
                        0,
                        (x_min as int, y_min as int, z_min as int),
                        (x_max as int, y_max as int, z_max as int),
                        wlo,
                        whi,
                    ),
                decreases 8 - y,
            {
                let y_column = mask[x as usize][y as usize];
                let mut z: u16 = 0;
                while z < 8
                    invariant
                        x < 8,
                        y < 8,
                        z <= 8,
                        y_column == mask[x as int][y as int],
                        bounds_so_far(
                            mask,
                            x as int,
                            y as int,
                            z as int,
                            (x_min as int, y_min as int, z_min as int),
                            (x_max as int, y_max as int, z_max as int),
                            wlo,
                            whi,
                        ),
                    decreases 8 - z,
                {
                    let shift: u8 = 7 - z as u8;
                    if (y_column >> shift) & 1 > 0 {
                        let ghost lo = (x_min as int, y_min as int, z_min as int);
                        let ghost hi = (x_max as int, y_max as int, z_max as int);
                        let ghost wlo1 = wlo;
                        let ghost whi1 = whi;
                        proof {
                            assert((y_column >> shift) & 1u8 == 1u8) by (bit_vector)
                                requires
                                    (y_column >> shift) & 1u8 > 0,
                            ;
                            assert(cell_solid(mask, x as int, y as int, z as int));
                            let c = (x as int, y as int, z as int);
                            wlo = wlo.update(0, if x < x_min { c } else { wlo[0] }).update(1, if y < y_min { c } else { wlo[1] }).update(2, if z < z_min { c } else { wlo[2] });
                            whi = whi.update(0, if x > x_max { c } else { whi[0] }).update(1, if y > y_max { c } else { whi[1] }).update(2, if z > z_max { c } else { whi[2] });
                        }
                        if x < x_min {
                            x_min = x;
                        }
                        if y < y_min {
                            y_min = y;
                        }
                        if z < z_min {
                            z_min = z;
                        }
                        if x > x_max {
                            x_max = x;
                        }
                        if y > y_max {
                            y_max = y;
                        }
                        if z > z_max {
                            z_max = z;
                        }
                        proof {
                            lemma_step_solid(mask, x as int, y as int, z as int, lo, hi, wlo1, whi1, (x_min as int, y_min as int, z_min as int), (x_max as int, y_max as int, z_max as int), wlo, whi);
                        }
                    } else {
                        proof {
                            assert((y_column >> shift) & 1u8 != 1u8) by (bit_vector)
                                requires
                                    !((y_column >> shift) & 1u8 > 0),
                            ;
                            lemma_step_empty(mask, x as int, y as int, z as int, (x_min as int, y_min as int, z_min as int), (x_max as int, y_max as int, z_max as int), wlo, whi);
                        }
                    }
                    z = z + 1;
                }
                proof {
                    lemma_step_wrap(mask, x as int, y as int, (x_min as int, y_min as int, z_min as int), (x_max as int, y_max as int, z_max as int), wlo, whi);
                }
                y = y + 1;
            }
            proof {
                lemma_step_wrap(mask, x as int, 0, (x_min as int, y_min as int, z_min as int), (x_max as int, y_max as int, z_max as int), wlo, whi);
            }
            x = x + 1;
        }
        proof {
            assert forall|cx: int, cy: int, cz: int| #[trigger]
                cell_solid(mask, cx, cy, cz) implies cell_before(cx, cy, cz, 8, 0, 0) by {}
            lemma_bounds_final(mask, (x_min as int, y_min as int, z_min as int), (x_max as int, y_max as int, z_max as int), wlo, whi);
        }
        self.bb_min = pack_u4_vec3(x_min, y_min, z_min);
        self.bb_max = pack_u4_vec3(x_max + 1, y_max + 1, z_max + 1);
    }
}

proof fn lemma_bounds_final(
    mask: [[u8; 8]; 8],
    lo: (int, int, int),
    hi: (int, int, int),
    wlo: Seq<(int, int, int)>,
    whi: Seq<(int, int, int)>,
)
    requires
        bounds_so_far(mask, 8, 0, 0, lo, hi, wlo, whi),
    ensures
        is_low_bound(mask, 0, lo.0),
        is_low_bound(mask, 1, lo.1),
        is_low_bound(mask, 2, lo.2),
        is_high_bound(mask, 0, hi.0),
        is_high_bound(mask, 1, hi.1),
        is_high_bound(mask, 2, hi.2),
{
    assert forall|x: int, y: int, z: int| #[trigger] cell_solid(mask, x, y, z) implies cell_before(
        x,
        y,
        z,
        8,
        0,
        0,
    ) by {}
}

/// The raw form of a brick grid pointer, as the shaders read it.
#[derive(Clone, Copy, Debug)]
pub struct BrickmapPointerRaw {
    pub pointer: u32,
}

/// What a cell of the brick grid holds.
#[derive(Clone, Copy, Debug)]
pub enum BrickmapPointer {
    NotLoaded,
    Empty,
    Lod([u8; 3]),
    Brickmap(u32),
}

/// The raw pointer of a brick grid cell: flags in the two lowest bits
/// (`00` not loaded, `01` empty, `10` colour, `11` brickmap) and the payload above them.
pub open spec fn pointer_raw_spec(p: BrickmapPointer) -> int {
    match p {
        BrickmapPointer::NotLoaded => 0,
        BrickmapPointer::Empty => 1,
        BrickmapPointer::Lod(c) => c[0] * 1024 + c[1] * 262144 + (c[2] % 64) * 67108864 + 2,
        BrickmapPointer::Brickmap(idx) => idx * 4 + 3,
    }
}

impl BrickmapPointer {
    /// The brickmap index must fit in 30 bits.
    pub fn to_raw(self) -> (r: BrickmapPointerRaw)
        requires
            self matches BrickmapPointer::Brickmap(idx) ==> idx < 0x4000_0000,
        ensures
            r.pointer == pointer_raw_spec(self),
    {
        // Flags are in the least significant bits
        //
        //  00 => Not loaded in any capacity
        // 100 => Requested to be loaded
        //  01 => Loaded, empty
        //  10 => Semi-loaded, next bits are the LOD color
        //  11 => Loaded, 30 most significant bits are index into brickmap buffer
        let pointer = match self {
            BrickmapPointer::NotLoaded => 0,
            BrickmapPointer::Empty => 1,
            BrickmapPointer::Lod(c) => {
                // The colour bytes `[0, r, g, b]` read as one little-endian word.
                let r = c[0] as u32;
                let g = c[1] as u32;
                let b = c[2] as u32;
                let trans: u32 = (r << 8) | (g << 16) | (b << 24);
                proof {
                    assert(r < 256 && g < 256 && b < 256 ==> ((((r << 8u32) | (g << 16u32) | (b
                        << 24u32)) << 2u32) | 2u32) == r * 1024 + g * 262144 + (b % 64) * 67108864
                        + 2) by (bit_vector);
                }
                trans << 2 | 0b10
            },
            BrickmapPointer::Brickmap(idx) => {
                proof {
                    assert(idx < 0x4000_0000 ==> (idx << 2u32) | 3u32 == idx * 4 + 3) by (bit_vector);
                }
                (idx << 2) | 0b11
            },
        };

        BrickmapPointerRaw { pointer }
    }
}

/// The index of a texture, as the shaders read it.
#[derive(Clone, Copy, Debug)]
pub struct TexturePointer {
    pub index: u32,
}

impl From<TextureHandle> for TexturePointer {
    fn from(value: TextureHandle) -> (r: Self) {
        TexturePointer { index: value.index() }
    }
}

impl vstd::std_specs::convert::FromSpecImpl<TextureHandle> for TexturePointer {
    open spec fn obeys_from_spec() -> bool {
        true
    }

    open spec fn from_spec(v: TextureHandle) -> TexturePointer {
        TexturePointer { index: v.spec_index() }
    }
}

} // verus!
