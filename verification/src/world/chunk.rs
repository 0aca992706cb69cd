use vstd::prelude::*;
use crate::util::int_vec::IVec2;
use crate::world::cells::block_array_cells;
use crate::world::section::Section;
use crate::world::block_data::StaticBlockData;

verus! {

/// The number of sections stacked in a chunk.
pub const CHUNK_HEIGHT: u32 = 32;

/// A column of sections at a chunk position.
pub struct Chunk {
    pub pos: IVec2,
    pub sections: Vec<Section>,
}

impl Chunk {
    /// `CHUNK_HEIGHT` well-formed sections.
    pub open spec fn wf(&self) -> bool {
        &&& self.sections@.len() == CHUNK_HEIGHT
        &&& forall|i: int| 0 <= i < CHUNK_HEIGHT ==> (#[trigger] self.sections@[i]).wf()
    }

    /// A chunk of empty sections.
    pub fn empty(pos: IVec2) -> (r: Self)
        ensures
            r.wf(),
            r.pos == pos,
            forall|i: int, j: int| 0 <= i < CHUNK_HEIGHT && 0 <= j < 512 ==> #[trigger] block_array_cells(
                r.sections@[i].blocks,
            )[j] == 0,
    {
        let mut sections: Vec<Section> = Vec::new();
        let mut i: u32 = 0;
        while i < CHUNK_HEIGHT
            invariant
                i <= CHUNK_HEIGHT,
                sections@.len() == i,
                forall|k: int| 0 <= k < i ==> (#[trigger] sections@[k]).wf(),
                forall|k: int, j: int| 0 <= k < i && 0 <= j < 512 ==> #[trigger] block_array_cells(
                    sections@[k].blocks,
                )[j] == 0,
            decreases CHUNK_HEIGHT - i,
        {
            sections.push(Section::empty());
            i = i + 1;
        }
        Self { pos, sections }
    }

    /// Updates the brickmap of every section from its blocks.
    pub fn update_brickmap(&mut self, block_data: &StaticBlockData)
        requires
            old(self).wf(),
            forall|i: int, j: int| 0 <= i < CHUNK_HEIGHT && 0 <= j < 512 ==> #[trigger] block_array_cells(
                old(self).sections@[i].blocks,
            )[j] < block_data.spec_blocks().len(),
        ensures
            final(self).wf(),
            final(self).pos == old(self).pos,
            forall|i: int| 0 <= i < CHUNK_HEIGHT ==> block_array_cells(
                (#[trigger] final(self).sections@[i]).blocks,
            ) == block_array_cells(old(self).sections@[i].blocks),
            forall|i: int, x: int, y: int, z: int|
                0 <= i < CHUNK_HEIGHT && 0 <= x < 8 && 0 <= y < 8 && 0 <= z < 8 ==> (#[trigger] ((final(self).sections@[i].brickmap.solid_mask[x][y]
                    >> (z as u8)) & 1u8) == 1u8)
                    == (block_data.spec_blocks()[old(self).sections@[i].cell(x, y, z) as int].model is FullBlock),
    {
        let mut i: usize = 0;
        while i < self.sections.len()
            invariant
                self.sections@.len() == CHUNK_HEIGHT,
                i <= CHUNK_HEIGHT,
                self.pos == old(self).pos,
                forall|k: int| 0 <= k < CHUNK_HEIGHT ==> (#[trigger] self.sections@[k]).wf(),
                forall|k: int| 0 <= k < CHUNK_HEIGHT ==> block_array_cells(
                    (#[trigger] self.sections@[k]).blocks,
                ) == block_array_cells(old(self).sections@[k].blocks),
                forall|k: int, x: int, y: int, z: int|
                    0 <= k < i && 0 <= x < 8 && 0 <= y < 8 && 0 <= z < 8 ==> (#[trigger] ((
                    self.sections@[k].brickmap.solid_mask[x][y] >> (z as u8)) & 1u8) == 1u8)
                        == (block_data.spec_blocks()[old(self).sections@[k].cell(x, y, z) as int].model is FullBlock),
                forall|k: int, j: int| 0 <= k < CHUNK_HEIGHT && 0 <= j < 512 ==> #[trigger] block_array_cells(
                    old(self).sections@[k].blocks,
                )[j] < block_data.spec_blocks().len(),
            decreases CHUNK_HEIGHT - i,
        {
            proof {
                assert forall|j: int| 0 <= j < 512 implies #[trigger] block_array_cells(
                    self.sections@[i as int].blocks,
                )[j] < block_data.spec_blocks().len() by {
                    assert(block_array_cells(old(self).sections@[i as int].blocks)[j] < block_data.spec_blocks().len());
                }
            }
            self.sections[i].update_brickmap(block_data);
            i = i + 1;
        }
    }
}

} // verus!
