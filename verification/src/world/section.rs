use vstd::prelude::*;
use crate::render::util::Reversed;
use crate::util::util::{Facing, facing_num};
use crate::util::int_vec::UVec3;
use crate::world::cells::{BlockArray, block_array_cells, block_array_shape};
use crate::world::block_data::{BlockHandle, StaticBlockData};
use crate::render::brick::brickmap::Brickmap;

verus! {

/// The length of a section along each axis, in blocks.
pub const SECTION_EDGE: u32 = 8;

/// An 8x8x8 cube of blocks with its brickmap.
pub struct Section {
    pub blocks: BlockArray,
    pub brickmap: Brickmap,
}

/// The index in logical order of block `(x, y, z)` of a section.
pub open spec fn section_index(x: int, y: int, z: int) -> int {
    x * 64 + y * 8 + z
}

proof fn lemma_or_bit_u8(bits: u8, i: u8, j: u8)
    requires
        i < 8,
        j < 8,
        bits < (1u8 << i) || i == 0 && bits == 0,
    ensures
        ((bits | (1u8 << i)) >> j) & 1u8 == (if j == i {
            1u8
        } else {
            (bits >> j) & 1u8
        }),
        i < 7 ==> (bits | (1u8 << i)) < (1u8 << ((i + 1) as u8)),
        (bits >> i) & 1u8 == 0,
{
    assert(((bits | (1u8 << i)) >> j) & 1u8 == (if j == i {
        1u8
    } else {
        (bits >> j) & 1u8
    })) by (bit_vector)
        requires
            i < 8,
            j < 8,
            bits < (1u8 << i) || i == 0 && bits == 0,
    ;
    assert(i < 7 ==> (bits | (1u8 << i)) < (1u8 << ((i + 1) as u8))) by (bit_vector)
        requires
            i < 8,
            bits < (1u8 << i) || i == 0 && bits == 0,
    ;
    assert((bits >> i) & 1u8 == 0) by (bit_vector)
        requires
            i < 8,
            bits < (1u8 << i) || i == 0 && bits == 0,
    ;
}

impl Section {
    /// The blocks form an 8x8x8 array.
    pub open spec fn wf(&self) -> bool {
        &&& block_array_shape(self.blocks) == (8usize, 8usize, 8usize)
        &&& block_array_cells(self.blocks).len() == 512
    }

    /// The block id at `(x, y, z)`.
    pub open spec fn cell(&self, x: int, y: int, z: int) -> u32 {
        block_array_cells(self.blocks)[section_index(x, y, z)]
    }

    /// A section of block id 0 with an empty brickmap.
    pub fn empty() -> (r: Self)
        ensures
            r.wf(),
            forall|i: int| 0 <= i < 512 ==> #[trigger] block_array_cells(r.blocks)[i] == 0,
            r.brickmap.is_blank(),
    {
        let handle = BlockHandle::default();
        Self { blocks: BlockArray::from_elem((8, 8, 8), handle.inner()), brickmap: Brickmap::empty() }
    }

    /// A section whose every block is `block`, with an empty brickmap.
    pub fn full(block: BlockHandle) -> (r: Self)
        ensures
            r.wf(),
            forall|i: int| 0 <= i < 512 ==> #[trigger] block_array_cells(r.blocks)[i] == block.id(),
            r.brickmap.is_blank(),
    {
        Self { blocks: BlockArray::from_elem((8, 8, 8), block.inner()), brickmap: Brickmap::empty() }
    }

    /// Every block is air (id 0).
    pub fn is_empty(&self) -> (r: bool)
        requires
            self.wf(),
        ensures
            r == (forall|i: int| 0 <= i < 512 ==> #[trigger] block_array_cells(self.blocks)[i] == 0),
    {
        let air = crate::world::block_data::Blocks::Air.handle().inner();
        let mut x: usize = 0;
        while x < 8
            invariant
                self.wf(),
                x <= 8,
                air == 0,
                forall|i: int| 0 <= i < x * 64 ==> #[trigger] block_array_cells(self.blocks)[i] == 0,
            decreases 8 - x,
        {
            let mut y: usize = 0;
            while y < 8
                invariant
                    self.wf(),
                    x < 8,
                    y <= 8,
                    air == 0,
                    forall|i: int| 0 <= i < x * 64 + y * 8 ==> #[trigger] block_array_cells(self.blocks)[i] == 0,
                decreases 8 - y,
            {
                let mut z: usize = 0;
                while z < 8
                    invariant
                        self.wf(),
                        x < 8,
                        y < 8,
                        z <= 8,
                        air == 0,
                        forall|i: int| 0 <= i < x * 64 + y * 8 + z ==> #[trigger] block_array_cells(self.blocks)[i] == 0,
                    decreases 8 - z,
                {
                    match self.blocks.get(x, y, z) {
                        Some(b) => {
                            if b != air {
                                return false;
                            }
                        },
                        None => {},
                    }
                    z = z + 1;
                }
                y = y + 1;
            }
            x = x + 1;
        }
        true
    }

    /// The block at `pos`, which must lie inside the section.
    pub fn get_block(&self, pos: UVec3) -> (r: BlockHandle)
        requires
            self.wf(),
            pos.x < 8 && pos.y < 8 && pos.z < 8,
        ensures
            r.id() == self.cell(pos.x as int, pos.y as int, pos.z as int),
    {
        match self.blocks.get(pos.x as usize, pos.y as usize, pos.z as usize) {
            Some(b) => BlockHandle::new(b),
            None => BlockHandle::new(0),
        }
    }

    /// Sets the block at `pos`, which must lie inside the section.
    pub fn set_block(&mut self, pos: UVec3, block: BlockHandle)
        requires
            old(self).wf(),
            pos.x < 8 && pos.y < 8 && pos.z < 8,
        ensures
            final(self).wf(),
            block_array_cells(final(self).blocks) == block_array_cells(old(self).blocks).update(
                section_index(pos.x as int, pos.y as int, pos.z as int),
                block.id(),
            ),
            final(self).brickmap == old(self).brickmap,
    {
        self.blocks.set(pos.x as usize, pos.y as usize, pos.z as usize, block.inner());
    }

    /// Bit `z` of `[x][y]` is set exactly when the block at `(x, y, z)` has a
    /// full cube model in the block data.
    pub fn solid_mask(&self, block_data: &StaticBlockData) -> (r: [[u8; 8]; 8])
        requires
            self.wf(),
            forall|i: int| 0 <= i < 512 ==> #[trigger] block_array_cells(self.blocks)[i] < block_data.spec_blocks().len(),
        ensures
            forall|x: int, y: int, z: int|
                0 <= x < 8 && 0 <= y < 8 && 0 <= z < 8 ==> (#[trigger] ((r[x][y] >> (z as u8)) & 1u8) == 1u8)
                    == (block_data.spec_blocks()[self.cell(x, y, z) as int].model is FullBlock),
    {
        let mut ret = [[0u8; 8]; 8];
        let mut x: usize = 0;
        while x < 8
            invariant
                self.wf(),
                x <= 8,
                forall|i: int| 0 <= i < 512 ==> #[trigger] block_array_cells(self.blocks)[i] < block_data.spec_blocks().len(),
                forall|cx: int, y: int, z: int|
                    0 <= cx < x && 0 <= y < 8 && 0 <= z < 8 ==> (#[trigger] ((ret[cx][y] >> (z as u8)) & 1u8) == 1u8)
                        == (block_data.spec_blocks()[self.cell(cx, y, z) as int].model is FullBlock),
                forall|cx: int, y: int| x <= cx < 8 && 0 <= y < 8 ==> #[trigger] ret[cx][y] == 0,
            decreases 8 - x,
        {
            let mut row = ret[x];
            let mut y: usize = 0;
            while y < 8
                invariant
                    self.wf(),
                    x < 8,
                    y <= 8,
                    forall|i: int| 0 <= i < 512 ==> #[trigger] block_array_cells(self.blocks)[i] < block_data.spec_blocks().len(),
                    forall|cy: int, z: int|
                        0 <= cy < y && 0 <= z < 8 ==> (#[trigger] ((row[cy] >> (z as u8)) & 1u8) == 1u8)
                            == (block_data.spec_blocks()[self.cell(x as int, cy, z) as int].model is FullBlock),
                    forall|cy: int| y <= cy < 8 ==> #[trigger] row[cy] == 0,
                decreases 8 - y,
            {
                let mut bits: u8 = 0;
                let mut z: u8 = 0;
                assert(forall|cz: u8| #[trigger] ((0u8 >> cz) & 1u8) == 0u8) by (bit_vector);
                while z < 8
                    invariant
                        self.wf(),
                        x < 8,
                        y < 8,
                        z <= 8,
                        forall|i: int| 0 <= i < 512 ==> #[trigger] block_array_cells(self.blocks)[i] < block_data.spec_blocks().len(),
                        z < 8 ==> bits < (1u8 << z) || z == 0 && bits == 0,
                        forall|cz: u8| cz < 8 ==> (#[trigger] ((bits >> cz) & 1u8) == 1u8) == (cz < z
                            && (block_data.spec_blocks()[self.cell(x as int, y as int, cz as int) as int].model is FullBlock)),
                    decreases 8 - z,
                {
                    let b = match self.blocks.get(x, y, z as usize) {
                        Some(b) => b,
                        None => 0,
                    };
                    proof {
                        assert(b == block_array_cells(self.blocks)[section_index(x as int, y as int, z as int)]);
                    }
                    if block_data.get(&BlockHandle::new(b)).model.is_full() {
                        proof {
                            assert forall|cz: u8| cz < 8 implies (#[trigger] (((bits | (1u8 << z)) >> cz) & 1u8) == 1u8) == (cz < z + 1
                                && (block_data.spec_blocks()[self.cell(x as int, y as int, cz as int) as int].model is FullBlock)) by {
                                lemma_or_bit_u8(bits, z, cz);
                            }
                            lemma_or_bit_u8(bits, z, 0);
                        }
                        bits |= 1 << z;
                    } else {
                        proof {
                            lemma_or_bit_u8(bits, z, 0);
                            assert forall|cz: u8| cz < 8 implies (#[trigger] ((bits >> cz) & 1u8) == 1u8) == (cz < z + 1
                                && (block_data.spec_blocks()[self.cell(x as int, y as int, cz as int) as int].model is FullBlock)) by {
                            }
                            assert(z + 1 < 8 ==> bits < (1u8 << ((z + 1) as u8))) by (bit_vector)
                                requires
                                    z < 8,
                                    bits < (1u8 << z) || z == 0 && bits == 0,
                            ;
                        }
                    }
                    z = z + 1;
                }
                row[y] = bits;
                y = y + 1;
            }
            ret[x] = row;
            x = x + 1;
        }
        ret
    }

    /// Sets the brickmap's solid mask from the blocks.
    pub fn update_brickmap(&mut self, block_data: &StaticBlockData)
        requires
            old(self).wf(),
            forall|i: int| 0 <= i < 512 ==> #[trigger] block_array_cells(old(self).blocks)[i] < block_data.spec_blocks().len(),
        ensures
            final(self).wf(),
            block_array_cells(final(self).blocks) == block_array_cells(old(self).blocks),
            forall|x: int, y: int, z: int|
                0 <= x < 8 && 0 <= y < 8 && 0 <= z < 8 ==> (#[trigger] ((final(self).brickmap.solid_mask[x][y] >> (z as u8)) & 1u8) == 1u8)
                    == (block_data.spec_blocks()[old(self).cell(x, y, z) as int].model is FullBlock),
            final(self).brickmap.textures_offset == old(self).brickmap.textures_offset,
            final(self).brickmap.bb_min == old(self).brickmap.bb_min,
            final(self).brickmap.bb_max == old(self).brickmap.bb_max,
    {
        let mask = self.solid_mask(block_data);
        self.brickmap.solid_mask = mask;
    }
}

/// Bit `5 - face` of `bits`: the flag of face number `face` when the last six
/// bits hold `+X -X +Y -Y +Z -Z` from the highest to the lowest.
pub open spec fn face_flag(bits: u8, face: int) -> bool {
    (bits >> ((5 - face) as u8)) & 1u8 == 1u8
}

/// What lies next to a block: the edge of the loaded world, or a block.
#[derive(Copy, Clone, Debug)]
pub enum Neighbor {
    Boundary,
    Block(BlockHandle),
}

impl From<Option<BlockHandle>> for Neighbor {
    fn from(value: Option<BlockHandle>) -> (r: Self) {
        match value {
            Some(b) => Self::Block(b),
            None => Self::Boundary,
        }
    }
}

impl vstd::std_specs::convert::FromSpecImpl<Option<BlockHandle>> for Neighbor {
    open spec fn obeys_from_spec() -> bool {
        true
    }

    open spec fn from_spec(value: Option<BlockHandle>) -> Neighbor {
        match value {
            Some(b) => Neighbor::Block(b),
            None => Neighbor::Boundary,
        }
    }
}

/// Which of the six faces of a block are hidden by a neighbour.
#[derive(Copy, Clone, Debug)]
pub struct BlockCull {
    inner: u8,
}

proof fn lemma_bit_set_one(bits: u8, i: u8, j: u8, b: u8)
    requires
        i < 6,
        j < 8,
        b < 2,
        bits < (1u8 << i),
    ensures
        ((bits | (b << i)) >> j) & 1u8 == if j == i {
            b
        } else {
            (bits >> j) & 1u8
        },
        (bits | (b << i)) < (1u8 << ((i + 1) as u8)),
{
    assert(((bits | (b << i)) >> j) & 1u8 == if j == i {
        b
    } else {
        (bits >> j) & 1u8
    }) by (bit_vector)
        requires
            i < 6,
            j < 8,
            b < 2,
            bits < (1u8 << i),
    ;
    assert((bits | (b << i)) < (1u8 << ((i + 1) as u8))) by (bit_vector)
        requires
            i < 6,
            b < 2,
            bits < (1u8 << i),
    ;
}

proof fn lemma_bit_replace(bits: u8, s: u8, j: u8, b: u8)
    requires
        s < 8,
        j < 8,
        b < 2,
    ensures
        (((bits & !(1u8 << s)) | (b << s)) >> j) & 1u8 == if j == s {
            b
        } else {
            (bits >> j) & 1u8
        },
{
    assert((((bits & !(1u8 << s)) | (b << s)) >> j) & 1u8 == if j == s {
        b
    } else {
        (bits >> j) & 1u8
    }) by (bit_vector)
        requires
            s < 8,
            j < 8,
            b < 2,
    ;
}

proof fn lemma_bit_test(bits: u8, s: u8)
    requires
        s < 8,
    ensures
        (bits & (1u8 << s) > 0) == ((bits >> s) & 1u8 == 1u8),
{
    assert((bits & (1u8 << s) > 0) == ((bits >> s) & 1u8 == 1u8)) by (bit_vector)
        requires
            s < 8,
    ;
}

impl BlockCull {
    /// The raw mask.
    pub closed spec fn bits(self) -> u8 {
        self.inner
    }

    /// Face number `face` is culled.
    pub open spec fn culled(self, face: int) -> bool {
        face_flag(self.bits(), face)
    }

    pub fn none() -> (r: Self)
        ensures
            r.bits() == 0,
            forall|f: int| 0 <= f < 6 ==> !#[trigger] r.culled(f),
    {
        proof {
            assert forall|s: u8| s < 8 implies (0u8 >> s) & 1u8 != 1u8 by {
                assert((0u8 >> s) & 1u8 != 1u8) by (bit_vector);
            }
        }
        Self { inner: 0 }
    }

    /// The last six bits represent `+X -X +Y -Y +Z -Z`
    pub fn from_bits(bits: u8) -> (r: Self)
        ensures
            r.bits() == bits,
    {
        Self { inner: bits }
    }

    /// The mask whose face `i` is culled exactly when `arr[i]` holds.
    pub fn from_array(arr: [bool; 6]) -> (r: Self)
        ensures
            forall|f: int| 0 <= f < 6 ==> #[trigger] r.culled(f) == arr[f],
            r.bits() < 64,
    {
        let rev = arr.reversed();
        let mut bits = 0u8;
        let mut i: u8 = 0;
        assert(0u8 < (1u8 << 0u8)) by (bit_vector);
        while i < 6
            invariant
                i <= 6,
                rev@ == arr@.reverse(),
                bits < (1u8 << i),
                forall|j: u8| j < i ==> ((#[trigger] (bits >> j)) & 1u8 == 1u8) == rev@[j as int],
            decreases 6 - i,
        {
            let b = Self::to_u8(&rev[i as usize]);
            proof {
                assert forall|j: u8| j < i + 1 implies ((#[trigger] ((bits | (b << i)) >> j)) & 1u8
                    == 1u8) == rev@[j as int] by {
                    lemma_bit_set_one(bits, i, j, b);
                }
                lemma_bit_set_one(bits, i, 0, b);
            }
            bits = bits | (b << i);
            i = i + 1;
        }
        proof {
            assert forall|f: int| 0 <= f < 6 implies face_flag(bits, f) == arr[f] by {
                assert(((bits >> ((5 - f) as u8)) & 1u8 == 1u8) == rev@[5 - f]);
            }
            assert((1u8 << 6u8) == 64) by (bit_vector);
        }
        Self::from_bits(bits)
    }

    pub fn is_culled(&self, dir: Facing) -> (r: bool)
        ensures
            r == self.culled(facing_num(dir) as int),
    {
        self.is_culled_num(dir.to_num())
    }

    pub fn is_culled_num(&self, num: usize) -> (r: bool)
        requires
            num < 6,
        ensures
            r == self.culled(num as int),
    {
        let s: u8 = 5 - num as u8;
        proof {
            lemma_bit_test(self.inner, s);
        }
        self.inner & (1 << s) > 0
    }

    /// Culls face number `face` when `b` holds and shows it otherwise; the other
    /// bits are left as they were.
    pub fn set_face(&mut self, face: usize, b: bool)
        requires
            face < 6,
        ensures
            final(self).culled(face as int) == b,
            forall|j: u8| j < 8 && j != 5 - face ==> (#[trigger] (final(self).bits() >> j)) & 1u8
                == (old(self).bits() >> j) & 1u8,
    {
        let s: u8 = 5 - face as u8;
        let mask: u8 = 1 << s;
        let bit = Self::to_u8(&b);
        proof {
            assert forall|j: u8| j < 8 implies (#[trigger] (((self.inner & !mask) | (bit << s))
                >> j)) & 1u8 == if j == s {
                bit
            } else {
                (self.inner >> j) & 1u8
            } by {
                lemma_bit_replace(self.inner, s, j, bit);
            }
        }
        self.inner = (self.inner & !mask) | (bit << s);
        proof {
            assert((self.inner >> s) & 1u8 == bit);
        }
    }

    /// The culled flag of each face, by face number.
    pub fn get_bools(&self) -> (r: [bool; 6])
        ensures
            forall|f: int| 0 <= f < 6 ==> r[f] == #[trigger] self.culled(f),
    {
        let mut r = [false;6];
        let mut face: usize = 0;
        while face < 6
            invariant
                face <= 6,
                forall|f: int| 0 <= f < face ==> r[f] == #[trigger] self.culled(f),
            decreases 6 - face,
        {
            r[face] = self.is_culled_num(face);
            face = face + 1;
        }
        r
    }

    /// The numbers of the faces that are not culled, in increasing order.
    pub fn get_unculled(&self) -> (r: Vec<usize>)
        ensures
            forall|i: int, j: int| 0 <= i < j < r@.len() ==> r@[i] < r@[j],
            forall|i: int| 0 <= i < r@.len() ==> r@[i] < 6 && !self.culled(#[trigger] r@[i] as int),
            forall|f: usize| f < 6 && !#[trigger] self.culled(f as int) ==> r@.contains(f),
            r@.len() == unculled_count(*self, 6),
    {
        let mut r: Vec<usize> = Vec::new();
        let mut f: usize = 0;
        while f < 6
            invariant
                f <= 6,
                forall|i: int, j: int| 0 <= i < j < r@.len() ==> r@[i] < r@[j],
                forall|i: int| 0 <= i < r@.len() ==> r@[i] < f && !self.culled(#[trigger] r@[i] as int),
                forall|g: usize| g < f && !#[trigger] self.culled(g as int) ==> r@.contains(g),
                r@.len() == unculled_count(*self, f as int),
            decreases 6 - f,
        {
            if !self.is_culled_num(f) {
                let ghost before = r@;
                r.push(f);
                proof {
                    assert(r@[r@.len() - 1] == f);
                    assert forall|g: usize| before.contains(g) implies r@.contains(g) by {
                        let k = choose|k: int| 0 <= k < before.len() && before[k] == g;
                        assert(r@[k] == g);
                    }
                }
            }
            f = f + 1;
        }
        r
    }

    pub fn to_u8(b: &bool) -> (r: u8)
        ensures
            r == (if *b { 1u8 } else { 0u8 }),
    {
        match b {
            true => 1,
            false => 0,
        }
    }
}

/// How many of the faces numbered below `n` are not culled.
pub open spec fn unculled_count(c: BlockCull, n: int) -> int
    decreases n,
{
    if n <= 0 {
        0
    } else {
        unculled_count(c, n - 1) + if c.culled(n - 1) {
            0int
        } else {
            1int
        }
    }
}

/// Reading a face back gives what `from_array` was given for it, and setting a
/// face leaves every other face as it was.
pub proof fn lemma_cull_set_get(before: BlockCull, after: BlockCull, face: int, b: bool, other: int)
    requires
        0 <= face < 6,
        0 <= other < 6,
        other != face,
        after.culled(face) == b,
        forall|j: u8| j < 8 && j != 5 - face ==> (#[trigger] (after.bits() >> j)) & 1u8 == (
        before.bits() >> j) & 1u8,
    ensures
        after.culled(face) == b,
        after.culled(other) == before.culled(other),
{
    assert((after.bits() >> ((5 - other) as u8)) & 1u8 == (before.bits() >> ((5 - other) as u8))
        & 1u8);
}

} // verus!
