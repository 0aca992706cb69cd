use vstd::prelude::*;
use crate::render::brick::brickgrid::{Brickgrid, BrickgridBufferTask};
use crate::render::brick::brickmap::{Brickmap, BrickmapPointer, BrickmapPointerRaw, pointer_raw_spec};
use crate::render::buffer::allocator::{ChunkBufferAllocation, HeapBuffer};
use crate::render::buffer::swap_buffer::{SwapBuffer, SwapDirtyPhase, phase_after_write, update_spec};
use crate::render::buffer::task_buffer::{TaskBuffer, TaskTarget, task_update_spec};
use crate::util::int_vec::{IVec2, IVec3, UVec3};
use crate::world::block_data::{BlockHandle, StaticBlockData};
use crate::world::cells::block_array_cells;
use crate::world::chunk::{Chunk, CHUNK_HEIGHT};
use crate::world::section::{Section, section_index};

verus! {

/// The ids, in cell order, of the cells whose block is drawn as a cube.
pub open spec fn full_block_ids(cells: Seq<u32>, blocks: Seq<crate::world::block_data::InitBlockData>) -> Seq<u32>
    decreases cells.len(),
{
    if cells.len() == 0 {
        Seq::empty()
    } else {
        let rest = full_block_ids(cells.drop_last(), blocks);
        if blocks[cells.last() as int].model is FullBlock {
            rest.push(cells.last())
        } else {
            rest
        }
    }
}

/// The brick grid cell of a section position: each coordinate taken modulo
/// the grid's extent along its axis.
pub open spec fn grid_cell(pos: IVec3) -> UVec3 {
    UVec3 { x: (pos.x % 1024) as u32, y: (pos.y % 32) as u32, z: (pos.z % 1024) as u32 }
}

/// The position of section `i` of the chunk at `chunk_pos`.
pub open spec fn section_pos(chunk_pos: IVec2, i: int) -> IVec3 {
    IVec3 { x: chunk_pos.x, y: i as i32, z: chunk_pos.y }
}

/// The section's brickmap is empty: no cell of its solid mask is set.
pub open spec fn mask_empty(section: Section) -> bool {
    forall|x: int, y: int| 0 <= x < 8 && 0 <= y < 8 ==> section.brickmap.solid_mask[x][y] == 0
}

/// The grid pointer that marks a cell empty.
pub open spec fn empty_pointer() -> BrickmapPointerRaw {
    BrickmapPointerRaw { pointer: 1 }
}

/// The grid pointer of a section: empty, or the brickmap at the front of `bm`.
pub open spec fn section_pointer(section: Section, bm: ChunkBufferAllocation) -> BrickmapPointerRaw {
    if mask_empty(section) {
        empty_pointer()
    } else {
        BrickmapPointerRaw { pointer: (bm.front * 4 + 3) as u32 }
    }
}

/// The grid cell of a section position takes `x` modulo 1024, `y` modulo 32
/// and `z` modulo 1024, each coordinate along its own axis.
pub proof fn lemma_grid_cell_axes(p: IVec3)
    ensures
        grid_cell(p).x as int == (p.x as int) % 1024,
        grid_cell(p).y as int == (p.y as int) % 32,
        grid_cell(p).z as int == (p.z as int) % 1024,
{
}

/// An empty section's cell gets the pointer of `BrickmapPointer::Empty`,
/// which is 1, the one that dropping a section writes; any other section's
/// cell gets the pointer of `BrickmapPointer::Brickmap` at the front of its
/// brickmap range.
pub proof fn lemma_section_pointer(section: Section, bm: ChunkBufferAllocation)
    ensures
        mask_empty(section) ==> section_pointer(section, bm).pointer == 1u32,
        mask_empty(section) ==> section_pointer(section, bm).pointer == pointer_raw_spec(BrickmapPointer::Empty),
        !mask_empty(section) && bm.front < 0x4000_0000 ==> section_pointer(section, bm).pointer == pointer_raw_spec(
            BrickmapPointer::Brickmap(bm.front),
        ),
{
}

/// The grid writes of putting a section at `pos`: the cell marked empty first
/// when the section was there (`had`), then the cell pointed at `ptr`.
pub open spec fn section_grid_tasks(had: bool, pos: IVec3, ptr: BrickmapPointerRaw) -> Seq<BrickgridBufferTask> {
    let removal = if had {
        seq![BrickgridBufferTask::One { pos: grid_cell(pos), section: empty_pointer() }]
    } else {
        Seq::empty()
    };
    removal.push(BrickgridBufferTask::One { pos: grid_cell(pos), section: ptr })
}

/// The grid writes of putting the first `n` sections of `chunk`, bottom to
/// top, into buffers whose brickmap ranges were `before` and end as `after`.
pub open spec fn chunk_grid_tasks(
    before: Map<IVec3, ChunkBufferAllocation>,
    after: Map<IVec3, ChunkBufferAllocation>,
    chunk: Chunk,
    n: int,
) -> Seq<BrickgridBufferTask>
    decreases n,
{
    if n <= 0 {
        Seq::empty()
    } else {
        let pos = section_pos(chunk.pos, n - 1);
        chunk_grid_tasks(before, after, chunk, n - 1) + section_grid_tasks(
            before.contains_key(pos),
            pos,
            section_pointer(chunk.sections@[n - 1], after[pos]),
        )
    }
}

/// The brickmap writes of putting the first `n` sections of `chunk` into the
/// buffers, where `bms` and `tps` are their final brickmap and texture ranges:
/// one brickmap, pointing at its texture ids, for each non-empty section.
pub open spec fn chunk_brickmap_writes(
    bms: Map<IVec3, ChunkBufferAllocation>,
    tps: Map<IVec3, ChunkBufferAllocation>,
    chunk: Chunk,
    n: int,
) -> Seq<(int, Seq<Brickmap>)>
    decreases n,
{
    if n <= 0 {
        Seq::empty()
    } else {
        let pos = section_pos(chunk.pos, n - 1);
        let section = chunk.sections@[n - 1];
        let rest = chunk_brickmap_writes(bms, tps, chunk, n - 1);
        if mask_empty(section) {
            rest
        } else {
            rest.push((bms[pos].front as int, seq![Brickmap { textures_offset: tps[pos].front, ..section.brickmap }]))
        }
    }
}

/// The texture id writes of putting the first `n` sections of `chunk` into
/// the buffers, where `tps` are their final texture ranges: the ids of the
/// cube blocks of each non-empty section.
pub open spec fn chunk_texture_writes(
    tps: Map<IVec3, ChunkBufferAllocation>,
    chunk: Chunk,
    blocks: Seq<crate::world::block_data::InitBlockData>,
    n: int,
) -> Seq<(int, Seq<u32>)>
    decreases n,
{
    if n <= 0 {
        Seq::empty()
    } else {
        let pos = section_pos(chunk.pos, n - 1);
        let section = chunk.sections@[n - 1];
        let rest = chunk_texture_writes(tps, chunk, blocks, n - 1);
        if mask_empty(section) {
            rest
        } else {
            rest.push((tps[pos].front as int, full_block_ids(block_array_cells(section.blocks), blocks)))
        }
    }
}

/// The chunk's writes read the ranges only of its non-empty sections.
proof fn lemma_chunk_writes_frame(
    before: Map<IVec3, ChunkBufferAllocation>,
    bms1: Map<IVec3, ChunkBufferAllocation>,
    bms2: Map<IVec3, ChunkBufferAllocation>,
    tps1: Map<IVec3, ChunkBufferAllocation>,
    tps2: Map<IVec3, ChunkBufferAllocation>,
    chunk: Chunk,
    blocks: Seq<crate::world::block_data::InitBlockData>,
    n: int,
)
    requires
        forall|j: int|
            0 <= j < n && !mask_empty(#[trigger] chunk.sections@[j]) ==> bms1[section_pos(chunk.pos, j)]
                == bms2[section_pos(chunk.pos, j)] && tps1[section_pos(chunk.pos, j)] == tps2[section_pos(
                chunk.pos,
                j,
            )],
    ensures
        chunk_grid_tasks(before, bms1, chunk, n) == chunk_grid_tasks(before, bms2, chunk, n),
        chunk_brickmap_writes(bms1, tps1, chunk, n) == chunk_brickmap_writes(bms2, tps2, chunk, n),
        chunk_texture_writes(tps1, chunk, blocks, n) == chunk_texture_writes(tps2, chunk, blocks, n),
    decreases n,
{
    if n > 0 {
        lemma_chunk_writes_frame(before, bms1, bms2, tps1, tps2, chunk, blocks, n - 1);
        let s = chunk.sections@[n - 1];
        if !mask_empty(s) {
            assert(bms1[section_pos(chunk.pos, n - 1)] == bms2[section_pos(chunk.pos, n - 1)]);
        }
    }
}

/// The grid writes of dropping the sections of the chunk at `chunk_pos`, bottom
/// to top, that have a range in `allocs`: each marks its cell empty.
pub open spec fn chunk_removal_tasks(
    allocs: Map<IVec3, ChunkBufferAllocation>,
    chunk_pos: IVec2,
    n: int,
) -> Seq<BrickgridBufferTask>
    decreases n,
{
    if n <= 0 {
        Seq::empty()
    } else {
        let pos = section_pos(chunk_pos, n - 1);
        let rest = chunk_removal_tasks(allocs, chunk_pos, n - 1);
        if allocs.contains_key(pos) {
            rest.push(BrickgridBufferTask::One { pos: grid_cell(pos), section: empty_pointer() })
        } else {
            rest
        }
    }
}

fn grid_cell_of(pos: IVec3) -> (r: UVec3)
    ensures
        r == grid_cell(pos),
{
    let x = match pos.x.checked_rem_euclid(1024) {
        Some(v) => v as u32,
        None => 0,
    };
    let y = match pos.y.checked_rem_euclid(32) {
        Some(v) => v as u32,
        None => 0,
    };
    let z = match pos.z.checked_rem_euclid(1024) {
        Some(v) => v as u32,
        None => 0,
    };
    UVec3::new(x, y, z)
}

/// The ids of the section's cube blocks, in cell order.
fn full_block_textures(section: &Section, block_data: &StaticBlockData) -> (r: Vec<u32>)
    requires
        section.wf(),
        forall|i: int| 0 <= i < 512 ==> #[trigger] block_array_cells(section.blocks)[i] < block_data.spec_blocks().len(),
    ensures
        r@ == full_block_ids(block_array_cells(section.blocks), block_data.spec_blocks()),
        r@.len() <= 512,
{
    let ghost cells = block_array_cells(section.blocks);
    let mut r: Vec<u32> = Vec::new();
    let mut i: usize = 0;
    proof {
        assert(cells.take(0) =~= Seq::<u32>::empty());
    }
    while i < 512
        invariant
            section.wf(),
            cells == block_array_cells(section.blocks),
            forall|i: int| 0 <= i < 512 ==> #[trigger] block_array_cells(section.blocks)[i] < block_data.spec_blocks().len(),
            i <= 512,
            r@ == full_block_ids(cells.take(i as int), block_data.spec_blocks()),
            r@.len() <= i,
        decreases 512 - i,
    {
        let x = i / 64;
        let y = (i / 8) % 8;
        let z = i % 8;
        assert(section_index(x as int, y as int, z as int) == i);
        let b = match section.blocks.get(x, y, z) {
            Some(b) => b,
            None => 0,
        };
        proof {
            assert(cells.take(i + 1).drop_last() =~= cells.take(i as int));
            assert(cells.take(i + 1).last() == b);
        }
        if block_data.get(&BlockHandle::new(b)).model.is_full() {
            r.push(b);
        }
        i = i + 1;
    }
    proof {
        assert(cells.take(512) =~= cells);
    }
    r
}

/// The buffers the shaders read the world from: the brickmaps, the texture
/// ids of their cells, and the brick grid that points into the brickmaps.
pub struct ChunkVertexBuffer<B1, B2, B3> {
    pub brickmap_buffer: HeapBuffer<Brickmap, B1>,
    pub texture_pointer_buffer: HeapBuffer<u32, B2>,
    pub brickgrid_buffer: TaskBuffer<BrickgridBufferTask, B3>,
}

impl<B1, B2, B3> ChunkVertexBuffer<B1, B2, B3> {
    /// Both heaps are sound and hold ranges for the same sections; brickmap
    /// indices fit a grid pointer.
    pub open spec fn wf(&self) -> bool {
        &&& self.brickmap_buffer.wf()
        &&& self.texture_pointer_buffer.wf()
        &&& self.brickmap_buffer.spec_allocations().dom() == self.texture_pointer_buffer.spec_allocations().dom()
        &&& self.brickmap_buffer.spec_capacity() <= 0x4000_0000
        &&& self.texture_pointer_buffer.spec_capacity() <= u32::MAX
    }

    /// Empty heaps and an idle brick grid over the given buffers.
    pub fn new(
        brickmaps: SwapBuffer<B1>,
        brickmap_capacity: usize,
        texture_pointers: SwapBuffer<B2>,
        texture_pointer_capacity: usize,
        brickgrid: SwapBuffer<B3>,
    ) -> (r: Self)
        requires
            brickmaps.wf(),
            texture_pointers.wf(),
            brickmap_capacity <= 0x4000_0000,
            texture_pointer_capacity <= u32::MAX,
        ensures
            r.wf(),
            r.brickmap_buffer.spec_allocations() == Map::<IVec3, ChunkBufferAllocation>::empty(),
            r.brickmap_buffer.top() == 0,
            r.texture_pointer_buffer.top() == 0,
            r.brickmap_buffer.spec_capacity() == brickmap_capacity,
            r.texture_pointer_buffer.spec_capacity() == texture_pointer_capacity,
            r.brickgrid_buffer.queued() == Seq::<BrickgridBufferTask>::empty(),
            r.brickgrid_buffer.phase() == SwapDirtyPhase::Clean,
    {
        Self {
            brickmap_buffer: HeapBuffer::new(brickmaps, brickmap_capacity, 0),
            texture_pointer_buffer: HeapBuffer::new(texture_pointers, texture_pointer_capacity, 0),
            brickgrid_buffer: TaskBuffer::new(brickgrid),
        }
    }

    /// Does the pending work of the three buffers, each on its free buffer when
    /// the caller could lock it (`None` where it could not); returns for the
    /// brick grid, the texture ids and the brickmaps whether work was done.
    pub fn update(
        &mut self,
        brickgrid: &mut Brickgrid,
        texture_pointers: &mut [u32],
        brickmaps: &mut [Brickmap],
    ) -> (r: (bool, bool, bool))
        requires
            old(self).wf(),
            old(self).brickgrid_buffer.swap_buffer().wf(),
            old(texture_pointers)@.len() == old(self).texture_pointer_buffer.spec_capacity(),
            old(brickmaps)@.len() == old(self).brickmap_buffer.spec_capacity(),
        ensures
            final(self).wf(),
            final(self).brickgrid_buffer.swap_buffer().wf(),
            final(self).brickmap_buffer.spec_allocations() == old(self).brickmap_buffer.spec_allocations(),
            final(self).texture_pointer_buffer.spec_allocations() == old(self).texture_pointer_buffer.spec_allocations(),
            ({
                let (p, q, a, written, swapped, done) = task_update_spec(
                    old(self).brickgrid_buffer.phase(),
                    old(self).brickgrid_buffer.queued(),
                    old(self).brickgrid_buffer.after_free_tasks(),
                );
                &&& final(self).brickgrid_buffer.phase() == p
                &&& final(self).brickgrid_buffer.queued() == q
                &&& final(self).brickgrid_buffer.after_free_tasks() == a
                &&& final(brickgrid).contents() == Brickgrid::after_tasks(old(brickgrid).contents(), written)
                &&& r.0 == done
            }),
            ({
                let (p, q, a, f, swapped, done) = update_spec(
                    old(self).texture_pointer_buffer.slice().phase(),
                    old(self).texture_pointer_buffer.slice().queued(),
                    old(self).texture_pointer_buffer.slice().after_free_writes(),
                    old(texture_pointers)@,
                );
                &&& final(self).texture_pointer_buffer.slice().phase() == p
                &&& final(self).texture_pointer_buffer.slice().queued() == q
                &&& final(self).texture_pointer_buffer.slice().after_free_writes() == a
                &&& final(texture_pointers)@ == f
                &&& r.1 == swapped
            }),
            ({
                let (p, q, a, f, swapped, done) = update_spec(
                    old(self).brickmap_buffer.slice().phase(),
                    old(self).brickmap_buffer.slice().queued(),
                    old(self).brickmap_buffer.slice().after_free_writes(),
                    old(brickmaps)@,
                );
                &&& final(self).brickmap_buffer.slice().phase() == p
                &&& final(self).brickmap_buffer.slice().queued() == q
                &&& final(self).brickmap_buffer.slice().after_free_writes() == a
                &&& final(brickmaps)@ == f
                &&& r.2 == swapped
            }),
    {
        let bg = self.brickgrid_buffer.update(brickgrid);
        let tp = self.texture_pointer_buffer.update(texture_pointers);
        let bm = self.brickmap_buffer.update(brickmaps);
        (bg, tp, bm)
    }

    /// The section has a brickmap in the buffers.
    pub fn has_section(&self, section_pos: IVec3) -> (r: bool)
        ensures
            r == self.brickmap_buffer.spec_allocations().contains_key(section_pos),
    {
        self.brickmap_buffer.allocation(section_pos).is_some()
    }

    /// Drops the section's brickmap and texture ids and points its grid cell at
    /// an empty brick.
    pub fn remove_section(&mut self, section_pos: IVec3)
        requires
            old(self).wf(),
            old(self).brickmap_buffer.spec_allocations().contains_key(section_pos),
        ensures
            final(self).wf(),
            final(self).brickmap_buffer.spec_allocations() == old(self).brickmap_buffer.spec_allocations().remove(section_pos),
            final(self).texture_pointer_buffer.spec_allocations() == old(self).texture_pointer_buffer.spec_allocations().remove(section_pos),
            final(self).brickmap_buffer.top() == old(self).brickmap_buffer.top(),
            final(self).texture_pointer_buffer.top() == old(self).texture_pointer_buffer.top(),
            final(self).brickmap_buffer.spec_capacity() == old(self).brickmap_buffer.spec_capacity(),
            final(self).texture_pointer_buffer.spec_capacity() == old(self).texture_pointer_buffer.spec_capacity(),
            final(self).brickgrid_buffer.queued() == old(self).brickgrid_buffer.queued().push(
                BrickgridBufferTask::One { pos: grid_cell(section_pos), section: BrickmapPointerRaw { pointer: 1 } },
            ),
            final(self).brickgrid_buffer.phase() == phase_after_write(old(self).brickgrid_buffer.phase()),
            final(self).brickgrid_buffer.after_free_tasks() == old(self).brickgrid_buffer.after_free_tasks(),
            final(self).brickmap_buffer.slice() == old(self).brickmap_buffer.slice(),
            final(self).texture_pointer_buffer.slice() == old(self).texture_pointer_buffer.slice(),
    {
        self.brickmap_buffer.remove(section_pos);
        self.texture_pointer_buffer.remove(section_pos);
        proof {
            assert(self.brickmap_buffer.spec_allocations().dom() =~= self.texture_pointer_buffer.spec_allocations().dom());
        }
        let grid_pointer = BrickmapPointer::Empty.to_raw();
        let m_pos = grid_cell_of(section_pos);
        self.brickgrid_buffer.write(BrickgridBufferTask::One { pos: m_pos, section: grid_pointer });
    }

    /// Puts the section in the buffers, in place of what it had there: a
    /// section with an empty brickmap gets an empty grid cell; any other gets a
    /// range of texture ids (those of its cube blocks, in cell order), a
    /// brickmap pointing at them, and a grid cell pointing at the brickmap.
    pub fn insert_section(&mut self, section_pos: IVec3, section: &Section, block_data: &StaticBlockData)
        requires
            old(self).wf(),
            section.wf(),
            forall|i: int| 0 <= i < 512 ==> #[trigger] block_array_cells(section.blocks)[i] < block_data.spec_blocks().len(),
            old(self).brickmap_buffer.top() + 1 <= old(self).brickmap_buffer.spec_capacity(),
            old(self).texture_pointer_buffer.top() + 512 <= old(self).texture_pointer_buffer.spec_capacity(),
            !(forall|x: int, y: int| 0 <= x < 8 && 0 <= y < 8 ==> section.brickmap.solid_mask[x][y] == 0)
                ==> full_block_ids(block_array_cells(section.blocks), block_data.spec_blocks()).len() > 0,
        ensures
            final(self).wf(),
            final(self).brickmap_buffer.top() <= old(self).brickmap_buffer.top() + 1,
            final(self).texture_pointer_buffer.top() <= old(self).texture_pointer_buffer.top() + 512,
            final(self).brickmap_buffer.spec_capacity() == old(self).brickmap_buffer.spec_capacity(),
            final(self).texture_pointer_buffer.spec_capacity() == old(self).texture_pointer_buffer.spec_capacity(),
            final(self).brickgrid_buffer.queued() == old(self).brickgrid_buffer.queued() + section_grid_tasks(
                old(self).brickmap_buffer.spec_allocations().contains_key(section_pos),
                section_pos,
                section_pointer(*section, final(self).brickmap_buffer.spec_allocations()[section_pos]),
            ),
            final(self).brickgrid_buffer.phase() == phase_after_write(old(self).brickgrid_buffer.phase()),
            final(self).brickgrid_buffer.after_free_tasks() == old(self).brickgrid_buffer.after_free_tasks(),
            final(self).brickgrid_buffer.queued().last() == (BrickgridBufferTask::One {
                pos: UVec3 {
                    x: ((section_pos.x as int) % 1024) as u32,
                    y: ((section_pos.y as int) % 32) as u32,
                    z: ((section_pos.z as int) % 1024) as u32,
                },
                section: BrickmapPointerRaw {
                    pointer: if forall|x: int, y: int| 0 <= x < 8 && 0 <= y < 8 ==> section.brickmap.solid_mask[x][y] == 0 {
                        1u32
                    } else {
                        (final(self).brickmap_buffer.spec_allocations()[section_pos].front * 4 + 3) as u32
                    },
                },
            }),
            forall|q: IVec3| #[trigger]
                old(self).brickmap_buffer.spec_allocations().contains_key(q) && q != section_pos ==> {
                    &&& final(self).brickmap_buffer.spec_allocations().contains_key(q)
                    &&& final(self).brickmap_buffer.spec_allocations()[q] == old(self).brickmap_buffer.spec_allocations()[q]
                    &&& final(self).texture_pointer_buffer.spec_allocations()[q] == old(self).texture_pointer_buffer.spec_allocations()[q]
                },
            if forall|x: int, y: int| 0 <= x < 8 && 0 <= y < 8 ==> section.brickmap.solid_mask[x][y] == 0 {
                &&& final(self).brickmap_buffer.spec_allocations() == old(self).brickmap_buffer.spec_allocations().remove(section_pos)
                &&& final(self).brickmap_buffer.slice().queued() == old(self).brickmap_buffer.slice().queued()
                &&& final(self).texture_pointer_buffer.slice().queued() == old(self).texture_pointer_buffer.slice().queued()
            } else {
                let bm = final(self).brickmap_buffer.spec_allocations()[section_pos];
                let tp = final(self).texture_pointer_buffer.spec_allocations()[section_pos];
                let ids = full_block_ids(block_array_cells(section.blocks), block_data.spec_blocks());
                &&& final(self).brickmap_buffer.spec_allocations().dom() == old(self).brickmap_buffer.spec_allocations().dom().insert(section_pos)
                &&& bm.back == bm.front + 1
                &&& tp.back == tp.front + ids.len()
                &&& final(self).texture_pointer_buffer.slice().queued() == old(self).texture_pointer_buffer.slice().queued().push(
                    (tp.front as int, ids),
                )
                &&& final(self).brickmap_buffer.slice().queued() == old(self).brickmap_buffer.slice().queued().push(
                    (bm.front as int, seq![Brickmap { textures_offset: tp.front, ..section.brickmap }]),
                )
            },
    {
        if self.has_section(section_pos) {
            self.remove_section(section_pos);
        }
        let ghost mid_bm = self.brickmap_buffer.spec_allocations();
        let ghost mid_tp = self.texture_pointer_buffer.spec_allocations();
        let mut brickmap = section.brickmap;
        let ptr = if brickmap.is_empty() {
            BrickmapPointer::Empty
        } else {
            let block_textures = full_block_textures(section, block_data);
            let textures = self.texture_pointer_buffer.insert(section_pos, block_textures.as_slice());
            brickmap.textures_offset = textures.front;
            let one = [brickmap];
            let allocation = self.brickmap_buffer.insert(section_pos, one.as_slice());
            proof {
                assert(one@ =~= seq![brickmap]);
                assert(self.brickmap_buffer.spec_allocations().dom() =~= self.texture_pointer_buffer.spec_allocations().dom());
            }
            BrickmapPointer::Brickmap(allocation.front)
        };
        let grid_pointer = ptr.to_raw();
        let m_pos = grid_cell_of(section_pos);
        let ghost mid_queue = self.brickgrid_buffer.queued();
        self.brickgrid_buffer.write(BrickgridBufferTask::One { pos: m_pos, section: grid_pointer });
        proof {
            let had = old(self).brickmap_buffer.spec_allocations().contains_key(section_pos);
            let tasks = section_grid_tasks(
                had,
                section_pos,
                section_pointer(*section, self.brickmap_buffer.spec_allocations()[section_pos]),
            );
            if had {
                assert(mid_queue == old(self).brickgrid_buffer.queued().push(
                    BrickgridBufferTask::One { pos: grid_cell(section_pos), section: empty_pointer() },
                ));
            } else {
                assert(mid_queue == old(self).brickgrid_buffer.queued());
            }
            assert(self.brickgrid_buffer.queued() =~= old(self).brickgrid_buffer.queued() + tasks);
            lemma_grid_cell_axes(section_pos);
        }
    }

    /// Puts every section of the chunk in the buffers, bottom to top.
    pub fn insert_chunk(&mut self, chunk: &Chunk, block_data: &StaticBlockData)
        requires
            old(self).wf(),
            chunk.wf(),
            forall|k: int, i: int| 0 <= k < CHUNK_HEIGHT && 0 <= i < 512 ==> #[trigger] block_array_cells(chunk.sections@[k].blocks)[i]
                < block_data.spec_blocks().len(),
            old(self).brickmap_buffer.top() + CHUNK_HEIGHT <= old(self).brickmap_buffer.spec_capacity(),
            old(self).texture_pointer_buffer.top() + 512 * CHUNK_HEIGHT <= old(self).texture_pointer_buffer.spec_capacity(),
            forall|k: int| 0 <= k < CHUNK_HEIGHT ==> (!(forall|x: int, y: int| 0 <= x < 8 && 0 <= y < 8 ==> (#[trigger] chunk.sections@[k]).brickmap.solid_mask[x][y] == 0)
                ==> full_block_ids(block_array_cells(chunk.sections@[k].blocks), block_data.spec_blocks()).len() > 0),
        ensures
            final(self).wf(),
            forall|k: int| 0 <= k < CHUNK_HEIGHT ==> (final(self).brickmap_buffer.spec_allocations().contains_key(#[trigger] section_pos(chunk.pos, k))
                <==> !(forall|x: int, y: int| 0 <= x < 8 && 0 <= y < 8 ==> chunk.sections@[k].brickmap.solid_mask[x][y] == 0)),
            forall|q: IVec3| #[trigger] old(self).brickmap_buffer.spec_allocations().contains_key(q) && !(q.x == chunk.pos.x && q.z == chunk.pos.y && 0 <= q.y < CHUNK_HEIGHT)
                ==> final(self).brickmap_buffer.spec_allocations().contains_key(q) && final(self).brickmap_buffer.spec_allocations()[q] == old(self).brickmap_buffer.spec_allocations()[q],
            final(self).brickgrid_buffer.queued() == old(self).brickgrid_buffer.queued() + chunk_grid_tasks(
                old(self).brickmap_buffer.spec_allocations(),
                final(self).brickmap_buffer.spec_allocations(),
                *chunk,
                CHUNK_HEIGHT as int,
            ),
            final(self).brickgrid_buffer.phase() == phase_after_write(old(self).brickgrid_buffer.phase()),
            final(self).brickmap_buffer.slice().queued() == old(self).brickmap_buffer.slice().queued() + chunk_brickmap_writes(
                final(self).brickmap_buffer.spec_allocations(),
                final(self).texture_pointer_buffer.spec_allocations(),
                *chunk,
                CHUNK_HEIGHT as int,
            ),
            final(self).texture_pointer_buffer.slice().queued() == old(self).texture_pointer_buffer.slice().queued()
                + chunk_texture_writes(
                final(self).texture_pointer_buffer.spec_allocations(),
                *chunk,
                block_data.spec_blocks(),
                CHUNK_HEIGHT as int,
            ),
    {
        let mut i: usize = 0;
        while i < chunk.sections.len()
            invariant
                self.wf(),
                chunk.wf(),
                i <= CHUNK_HEIGHT,
                forall|k: int, i: int| 0 <= k < CHUNK_HEIGHT && 0 <= i < 512 ==> #[trigger] block_array_cells(chunk.sections@[k].blocks)[i]
                    < block_data.spec_blocks().len(),
                forall|k: int| 0 <= k < CHUNK_HEIGHT ==> (!(forall|x: int, y: int| 0 <= x < 8 && 0 <= y < 8 ==> (#[trigger] chunk.sections@[k]).brickmap.solid_mask[x][y] == 0)
                    ==> full_block_ids(block_array_cells(chunk.sections@[k].blocks), block_data.spec_blocks()).len() > 0),
                self.brickmap_buffer.top() + CHUNK_HEIGHT - i <= self.brickmap_buffer.spec_capacity(),
                self.texture_pointer_buffer.top() + 512 * (CHUNK_HEIGHT - i) <= self.texture_pointer_buffer.spec_capacity(),
                forall|k: int| 0 <= k < i ==> (self.brickmap_buffer.spec_allocations().contains_key(#[trigger] section_pos(chunk.pos, k))
                    <==> !(forall|x: int, y: int| 0 <= x < 8 && 0 <= y < 8 ==> chunk.sections@[k].brickmap.solid_mask[x][y] == 0)),
                forall|q: IVec3| #[trigger] old(self).brickmap_buffer.spec_allocations().contains_key(q) && !(q.x == chunk.pos.x && q.z == chunk.pos.y && 0 <= q.y < i)
                    ==> self.brickmap_buffer.spec_allocations().contains_key(q) && self.brickmap_buffer.spec_allocations()[q] == old(self).brickmap_buffer.spec_allocations()[q],
                forall|q: IVec3| #[trigger] self.brickmap_buffer.spec_allocations().contains_key(q) && !(q.x == chunk.pos.x && q.z == chunk.pos.y && 0 <= q.y < i)
                    ==> old(self).brickmap_buffer.spec_allocations().contains_key(q),
                self.brickgrid_buffer.queued() == old(self).brickgrid_buffer.queued() + chunk_grid_tasks(
                    old(self).brickmap_buffer.spec_allocations(),
                    self.brickmap_buffer.spec_allocations(),
                    *chunk,
                    i as int,
                ),
                i > 0 ==> self.brickgrid_buffer.phase() == phase_after_write(old(self).brickgrid_buffer.phase()),
                i == 0 ==> self.brickgrid_buffer.phase() == old(self).brickgrid_buffer.phase(),
                self.brickmap_buffer.slice().queued() == old(self).brickmap_buffer.slice().queued() + chunk_brickmap_writes(
                    self.brickmap_buffer.spec_allocations(),
                    self.texture_pointer_buffer.spec_allocations(),
                    *chunk,
                    i as int,
                ),
                self.texture_pointer_buffer.slice().queued() == old(self).texture_pointer_buffer.slice().queued()
                    + chunk_texture_writes(
                    self.texture_pointer_buffer.spec_allocations(),
                    *chunk,
                    block_data.spec_blocks(),
                    i as int,
                ),
            decreases CHUNK_HEIGHT - i,
        {
            let pos = IVec3::new(chunk.pos.x, i as i32, chunk.pos.y);
            let ghost prev_bms = self.brickmap_buffer.spec_allocations();
            let ghost prev_tps = self.texture_pointer_buffer.spec_allocations();
            let ghost prev_grid = self.brickgrid_buffer.queued();
            let ghost prev_bq = self.brickmap_buffer.slice().queued();
            let ghost prev_tq = self.texture_pointer_buffer.slice().queued();
            proof {
                assert(pos == section_pos(chunk.pos, i as int));
                assert(chunk.sections@[i as int] == chunk.sections[i as int]);
            }
            let ghost before = self.brickmap_buffer.spec_allocations();
            self.insert_section(pos, &chunk.sections[i], block_data);
            proof {
                let after = self.brickmap_buffer.spec_allocations();
                assert forall|k: int| 0 <= k < i + 1 implies (after.contains_key(#[trigger] section_pos(chunk.pos, k))
                    <==> !(forall|x: int, y: int| 0 <= x < 8 && 0 <= y < 8 ==> chunk.sections@[k].brickmap.solid_mask[x][y] == 0)) by {
                    if k < i {
                        assert(section_pos(chunk.pos, k) != pos);
                        assert(before.contains_key(section_pos(chunk.pos, k)) ==> after.contains_key(section_pos(chunk.pos, k)));
                        if after.contains_key(section_pos(chunk.pos, k)) {
                            if forall|x: int, y: int| 0 <= x < 8 && 0 <= y < 8 ==> chunk.sections@[i as int].brickmap.solid_mask[x][y] == 0 {
                                assert(after == before.remove(pos));
                            } else {
                                assert(after.dom() == before.dom().insert(pos));
                            }
                        }
                    }
                }
                let bms = self.brickmap_buffer.spec_allocations();
                let tps = self.texture_pointer_buffer.spec_allocations();
                assert forall|j: int|
                    0 <= j < i && !mask_empty(#[trigger] chunk.sections@[j]) implies bms[section_pos(chunk.pos, j)]
                        == prev_bms[section_pos(chunk.pos, j)] && tps[section_pos(chunk.pos, j)] == prev_tps[section_pos(
                        chunk.pos,
                        j,
                    )] by {
                    assert(section_pos(chunk.pos, j) != pos);
                    assert(prev_bms.contains_key(section_pos(chunk.pos, j)));
                }
                lemma_chunk_writes_frame(
                    old(self).brickmap_buffer.spec_allocations(),
                    bms,
                    prev_bms,
                    tps,
                    prev_tps,
                    *chunk,
                    block_data.spec_blocks(),
                    i as int,
                );
                let sec = chunk.sections@[i as int];
                assert(prev_bms.contains_key(pos) == old(self).brickmap_buffer.spec_allocations().contains_key(pos));
                assert(self.brickgrid_buffer.queued() =~= old(self).brickgrid_buffer.queued() + chunk_grid_tasks(
                    old(self).brickmap_buffer.spec_allocations(),
                    bms,
                    *chunk,
                    i + 1,
                ));
                if mask_empty(sec) {
                    assert(self.brickmap_buffer.slice().queued() == prev_bq);
                    assert(self.texture_pointer_buffer.slice().queued() == prev_tq);
                } else {
                    assert(self.brickmap_buffer.slice().queued() =~= old(self).brickmap_buffer.slice().queued()
                        + chunk_brickmap_writes(bms, tps, *chunk, i + 1));
                    assert(self.texture_pointer_buffer.slice().queued() =~= old(self).texture_pointer_buffer.slice().queued()
                        + chunk_texture_writes(tps, *chunk, block_data.spec_blocks(), i + 1));
                }
            }
            i = i + 1;
        }
    }

    /// Drops every section of the chunk at `chunk_pos` from the buffers.
    pub fn remove_chunk(&mut self, chunk_pos: IVec2)
        requires
            old(self).wf(),
        ensures
            final(self).wf(),
            forall|k: int| 0 <= k < CHUNK_HEIGHT ==> !final(self).brickmap_buffer.spec_allocations().contains_key(#[trigger] section_pos(chunk_pos, k)),
            forall|q: IVec3| #[trigger] old(self).brickmap_buffer.spec_allocations().contains_key(q) && !(q.x == chunk_pos.x && q.z == chunk_pos.y && 0 <= q.y < CHUNK_HEIGHT)
                ==> final(self).brickmap_buffer.spec_allocations().contains_key(q) && final(self).brickmap_buffer.spec_allocations()[q] == old(self).brickmap_buffer.spec_allocations()[q],
            forall|q: IVec3| #[trigger] final(self).brickmap_buffer.spec_allocations().contains_key(q) ==> old(self).brickmap_buffer.spec_allocations().contains_key(q),
            final(self).brickgrid_buffer.queued() == old(self).brickgrid_buffer.queued() + chunk_removal_tasks(
                old(self).brickmap_buffer.spec_allocations(),
                chunk_pos,
                CHUNK_HEIGHT as int,
            ),
            final(self).brickgrid_buffer.phase() == (if chunk_removal_tasks(
                old(self).brickmap_buffer.spec_allocations(),
                chunk_pos,
                CHUNK_HEIGHT as int,
            ).len() == 0 {
                old(self).brickgrid_buffer.phase()
            } else {
                phase_after_write(old(self).brickgrid_buffer.phase())
            }),
            final(self).brickmap_buffer.slice() == old(self).brickmap_buffer.slice(),
            final(self).texture_pointer_buffer.slice() == old(self).texture_pointer_buffer.slice(),
    {
        let mut i: u32 = 0;
        while i < CHUNK_HEIGHT
            invariant
                self.wf(),
                i <= CHUNK_HEIGHT,
                forall|k: int| 0 <= k < i ==> !self.brickmap_buffer.spec_allocations().contains_key(#[trigger] section_pos(chunk_pos, k)),
                forall|q: IVec3| #[trigger] old(self).brickmap_buffer.spec_allocations().contains_key(q) && !(q.x == chunk_pos.x && q.z == chunk_pos.y && 0 <= q.y < i)
                    ==> self.brickmap_buffer.spec_allocations().contains_key(q) && self.brickmap_buffer.spec_allocations()[q] == old(self).brickmap_buffer.spec_allocations()[q],
                forall|q: IVec3| #[trigger] self.brickmap_buffer.spec_allocations().contains_key(q) ==> old(self).brickmap_buffer.spec_allocations().contains_key(q),
                self.brickgrid_buffer.queued() == old(self).brickgrid_buffer.queued() + chunk_removal_tasks(
                    old(self).brickmap_buffer.spec_allocations(),
                    chunk_pos,
                    i as int,
                ),
                self.brickgrid_buffer.phase() == (if chunk_removal_tasks(
                    old(self).brickmap_buffer.spec_allocations(),
                    chunk_pos,
                    i as int,
                ).len() == 0 {
                    old(self).brickgrid_buffer.phase()
                } else {
                    phase_after_write(old(self).brickgrid_buffer.phase())
                }),
                self.brickmap_buffer.slice() == old(self).brickmap_buffer.slice(),
                self.texture_pointer_buffer.slice() == old(self).texture_pointer_buffer.slice(),
            decreases CHUNK_HEIGHT - i,
        {
            let pos = IVec3::new(chunk_pos.x, i as i32, chunk_pos.y);
            proof {
                assert(pos == section_pos(chunk_pos, i as int));
                assert(self.brickmap_buffer.spec_allocations().contains_key(pos)
                    == old(self).brickmap_buffer.spec_allocations().contains_key(pos));
            }
            let ghost prev = self.brickgrid_buffer.queued();
            if self.has_section(pos) {
                self.remove_section(pos);
            }
            proof {
                assert(self.brickgrid_buffer.queued() =~= old(self).brickgrid_buffer.queued() + chunk_removal_tasks(
                    old(self).brickmap_buffer.spec_allocations(),
                    chunk_pos,
                    i + 1,
                ));
            }
            i = i + 1;
        }
    }
}

} // verus!
