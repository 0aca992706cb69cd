use vstd::prelude::*;
use std::collections::VecDeque;
use crate::render::buffer::task_buffer::TaskTarget;
use crate::render::accumulation::grid::{SurfelGrid, SG_ARRAY_SIZE};
use crate::render::brick::brickgrid::{morton_encode, morton_index, lemma_morton_index_bound};
use crate::util::int_vec::{IVec3, UVec3};
use crate::world::section_map::SectionMap;
use crate::render::buffer::allocator::{ChunkBufferAllocation, ChunkBufferAllocator, is_free, lemma_ranges_after_move, ranges_disjoint, ranges_placed};

verus! {

/// The number of surfels the surfel buffer holds.
pub const MAX_SURFELS: usize = 262144;

/// Indices for the surfel container, contiguous for each section.
pub struct SurfelMap {
    pub pointers: [u32; MAX_SURFELS],
}

impl SurfelMap {
    pub fn new() -> (r: Self)
        ensures
            forall|i: int| 0 <= i < MAX_SURFELS ==> #[trigger] r.pointers[i] == 0,
    {
        Self { pointers: [0u32; MAX_SURFELS] }
    }
}

/// The surfel indices that the allocation's range of the surfel map holds.
pub open spec fn section_surfels(pointers: Seq<u32>, a: ChunkBufferAllocation) -> Seq<u32> {
    pointers.subrange(a.front as int, a.back as int)
}

/// Hands out slots of the surfel container: a freed slot first, else the
/// next one above the highest handed out.
pub struct SurfelBuffer {
    free: VecDeque<usize>,
    top: usize,
}

impl SurfelBuffer {
    /// Freed slots waiting to be handed out again.
    pub closed spec fn spec_free(&self) -> Seq<usize> {
        self.free@
    }

    /// The number of slots handed out from the top.
    pub closed spec fn spec_top(&self) -> usize {
        self.top
    }

    pub fn new() -> (r: Self)
        ensures
            r.spec_free() == Seq::<usize>::empty(),
            r.spec_top() == 0,
    {
        Self { free: VecDeque::new(), top: 0 }
    }

    /// Puts `surfel` in the next slot of the container `surfels`, whose write
    /// lock the caller holds, and returns the slot.
    pub fn insert<S>(&mut self, surfels: &mut [S], surfel: S) -> (r: u32)
        requires
            if old(self).spec_free().len() > 0 {
                old(self).spec_free()[0] < old(surfels)@.len()
            } else {
                old(self).spec_top() < old(surfels)@.len()
            },
        ensures
            ({
                let slot = if old(self).spec_free().len() > 0 {
                    old(self).spec_free()[0]
                } else {
                    old(self).spec_top()
                };
                &&& final(surfels)@ == old(surfels)@.update(slot as int, surfel)
                &&& r == slot as u32
                &&& if old(self).spec_free().len() > 0 {
                    &&& final(self).spec_free() == old(self).spec_free().drop_first()
                    &&& final(self).spec_top() == old(self).spec_top()
                } else {
                    &&& final(self).spec_free() == old(self).spec_free()
                    &&& final(self).spec_top() == old(self).spec_top() + 1
                }
            }),
    {
        let len = surfels.len();
        let idx = match self.free.pop_front() {
            Some(idx) => idx,
            None => {
                assert(self.top < len);
                self.top += 1;
                self.top - 1
            },
        };
        surfels[idx] = surfel;
        idx as u32
    }

    /// Clears slot `index` of the container `surfels`, whose write lock the
    /// caller holds, to `empty`; the slot is not handed out again.
    pub fn remove<S>(&mut self, surfels: &mut [S], index: u32, empty: S)
        requires
            index < old(surfels)@.len(),
        ensures
            final(surfels)@ == old(surfels)@.update(index as int, empty),
            final(self).spec_free() == old(self).spec_free(),
            final(self).spec_top() == old(self).spec_top(),
    {
        surfels[index as usize] = empty;
    }
}

/// Keeps, for each section, the indices of its surfels in one range of the
/// surfel map.
pub struct SurfelMapper {
    allocator: ChunkBufferAllocator,
    allocations: SectionMap<ChunkBufferAllocation>,
    highest: usize,
}

impl SurfelMapper {
    /// The range of each section that has surfels.
    pub closed spec fn spec_allocations(&self) -> Map<IVec3, ChunkBufferAllocation> {
        self.allocations@
    }

    /// The highest unit used, as recorded.
    pub closed spec fn spec_highest(&self) -> usize {
        self.highest
    }

    /// The range of the section at `pos`, if it has surfels.
    pub fn allocation(&self, pos: IVec3) -> (r: Option<ChunkBufferAllocation>)
        ensures
            r == (if self.spec_allocations().contains_key(pos) {
                Some(self.spec_allocations()[pos])
            } else {
                None
            }),
    {
        match self.allocations.get(pos) {
            Some(a) => Some(*a),
            None => None,
        }
    }

    /// The end of the ranges handed out so far.
    pub closed spec fn top(&self) -> u32 {
        self.allocator.top()
    }

    /// The allocator is sound, its ranges fit in the surfel map, and the ranges
    /// of the sections are non-empty, handed out, not free and apart.
    pub closed spec fn wf(&self) -> bool {
        &&& self.allocator.wf()
        &&& self.allocator.top() <= MAX_SURFELS
        &&& ranges_placed(self.allocations@, self.allocator.free(), self.allocator.top())
    }

    /// No section has surfels yet.
    pub fn new() -> (r: Self)
        ensures
            r.wf(),
            r.spec_allocations() == Map::<IVec3, ChunkBufferAllocation>::empty(),
            r.spec_highest() == 0,
    {
        Self { allocator: ChunkBufferAllocator::new(), allocations: SectionMap::new(), highest: 0 }
    }

    /// Adds surfel `surfel_index` to the section at `section_pos`: the
    /// section's range is given up and one longer range is taken, holding the
    /// old indices and then the new one. `map` is the surfel map, whose write
    /// lock the caller holds.
    pub fn add_surfel_to_section(&mut self, map: &mut SurfelMap, surfel_index: u32, section_pos: IVec3)
        requires
            old(self).wf(),
            old(self).top() + 1 + (if old(self).spec_allocations().contains_key(section_pos) {
                old(self).spec_allocations()[section_pos].back - old(self).spec_allocations()[section_pos].front
            } else {
                0
            }) <= MAX_SURFELS,
        ensures
            final(self).wf(),
            final(self).spec_highest() == old(self).spec_highest(),
            final(self).spec_allocations().dom() == old(self).spec_allocations().dom().insert(section_pos),
            section_surfels(final(map).pointers@, final(self).spec_allocations()[section_pos]) == (if old(self).spec_allocations().contains_key(section_pos) {
                section_surfels(old(map).pointers@, old(self).spec_allocations()[section_pos])
            } else {
                Seq::<u32>::empty()
            }).push(surfel_index),
            forall|q: IVec3| #[trigger]
                old(self).spec_allocations().contains_key(q) && q != section_pos ==> final(self).spec_allocations()[q] == old(self).spec_allocations()[q] && section_surfels(
                    final(map).pointers@,
                    old(self).spec_allocations()[q],
                ) == section_surfels(old(map).pointers@, old(self).spec_allocations()[q]),
    {
        let ghost old_allocs = self.allocations@;
        let ghost old_free = self.allocator.free();
        let ghost old_top = self.allocator.top();
        let ghost old_pointers = map.pointers@;
        let found = match self.allocations.get(section_pos) {
            Some(a) => Some(*a),
            None => None,
        };
        match found {
            Some(alloc) => {
                proof {
                    self.allocator.lemma_free_ranges();
                    assert forall|f: u32| #[trigger] old_free.contains_key(f) implies old_free[f]
                        <= alloc.front || alloc.back <= f by {
                        if !(old_free[f] <= alloc.front || alloc.back <= f) {
                            let q: int = if f < alloc.front { alloc.front as int } else { f as int };
                            assert(old_free.contains_key(f) && f <= q < old_free[f]);
                            assert(is_free(old_free, q));
                        }
                    }
                }
                self.allocator.deallocate(&alloc);
                let ghost mid_free = self.allocator.free();
                let len = alloc.back - alloc.front;
                let new_alloc = self.allocator.allocate(len + 1);
                self.allocations.insert(section_pos, new_alloc);
                let mut held: Vec<u32> = Vec::new();
                let mut i = alloc.front;
                while i < alloc.back
                    invariant
                        alloc.front <= i <= alloc.back,
                        alloc.back <= MAX_SURFELS,
                        map.pointers@ == old_pointers,
                        held@ == old_pointers.subrange(alloc.front as int, i as int),
                    decreases alloc.back - i,
                {
                    held.push(map.pointers[i as usize]);
                    proof {
                        assert(held@ =~= old_pointers.subrange(alloc.front as int, i + 1));
                    }
                    i = i + 1;
                }
                proof {
                    lemma_ranges_after_move(old_allocs, old_free, old_top, mid_free, self.allocator.free(),
                        self.allocator.top(), section_pos, new_alloc, (len + 1) as u32);
                }
                let mut j: usize = 0;
                while j < held.len()
                    invariant
                        j <= held@.len(),
                        held@.len() == len,
                        new_alloc.back == new_alloc.front + len + 1,
                        new_alloc.back <= MAX_SURFELS,
                        forall|k: int| 0 <= k < MAX_SURFELS ==> #[trigger] map.pointers@[k] == if new_alloc.front <= k < new_alloc.front + j {
                            held@[k - new_alloc.front]
                        } else {
                            old_pointers[k]
                        },
                    decreases held@.len() - j,
                {
                    map.pointers[new_alloc.front as usize + j] = held[j];
                    j = j + 1;
                }
                map.pointers[(new_alloc.back - 1) as usize] = surfel_index;
                proof {
                    assert(section_surfels(map.pointers@, new_alloc) =~= section_surfels(old_pointers, alloc).push(surfel_index));
                    assert forall|q: IVec3| #[trigger]
                        old_allocs.contains_key(q) && q != section_pos implies section_surfels(
                            map.pointers@,
                            old_allocs[q],
                        ) == section_surfels(old_pointers, old_allocs[q]) by {
                        assert(ranges_disjoint(old_allocs[q], new_alloc));
                        assert(section_surfels(map.pointers@, old_allocs[q]) =~= section_surfels(old_pointers, old_allocs[q]));
                    }
                }
            },
            None => {
                let new_alloc = self.allocator.allocate(1);
                self.allocations.insert(section_pos, new_alloc);
                proof {
                    lemma_ranges_after_move(old_allocs, old_free, old_top, old_free, self.allocator.free(),
                        self.allocator.top(), section_pos, new_alloc, 1);
                }
                map.pointers[new_alloc.front as usize] = surfel_index;
                proof {
                    assert(section_surfels(map.pointers@, new_alloc) =~= Seq::<u32>::empty().push(surfel_index));
                    assert forall|q: IVec3| #[trigger]
                        old_allocs.contains_key(q) && q != section_pos implies section_surfels(
                            map.pointers@,
                            old_allocs[q],
                        ) == section_surfels(old_pointers, old_allocs[q]) by {
                        assert(ranges_disjoint(old_allocs[q], new_alloc));
                        assert(section_surfels(map.pointers@, old_allocs[q]) =~= section_surfels(old_pointers, old_allocs[q]));
                    }
                }
            },
        }
    }
}

/// A write of one slice pointer to the surfel grid.
#[derive(Copy, Clone, Debug)]
pub struct SurfelGridBufferTask {
    pub pos: UVec3,
    pub ptr: u32,
}

/// The grid pointers after each task, in order, writes its pointer at the index of its position.
pub open spec fn apply_surfel_tasks(ptrs: Seq<u32>, tasks: Seq<SurfelGridBufferTask>) -> Seq<u32>
    decreases tasks.len(),
{
    if tasks.len() == 0 {
        ptrs
    } else {
        let t = tasks[0];
        apply_surfel_tasks(
            ptrs.update(morton_index(t.pos.x, t.pos.y, t.pos.z) as int, t.ptr),
            tasks.drop_first(),
        )
    }
}

/// Writing two lists of tasks one after the other is writing them joined.
proof fn lemma_surfel_tasks_concat(ptrs: Seq<u32>, a: Seq<SurfelGridBufferTask>, b: Seq<SurfelGridBufferTask>)
    ensures
        apply_surfel_tasks(apply_surfel_tasks(ptrs, a), b) == apply_surfel_tasks(ptrs, a + b),
    decreases a.len(),
{
    if a.len() == 0 {
        assert(a + b =~= b);
    } else {
        let t = a[0];
        assert((a + b).drop_first() =~= a.drop_first() + b);
        lemma_surfel_tasks_concat(
            ptrs.update(morton_index(t.pos.x, t.pos.y, t.pos.z) as int, t.ptr),
            a.drop_first(),
            b,
        );
    }
}

/// Writing the tasks keeps the number of pointers.
proof fn lemma_surfel_tasks_len(ptrs: Seq<u32>, tasks: Seq<SurfelGridBufferTask>)
    requires
        ptrs.len() == SG_ARRAY_SIZE,
    ensures
        apply_surfel_tasks(ptrs, tasks).len() == ptrs.len(),
    decreases tasks.len(),
{
    if tasks.len() > 0 {
        let t = tasks[0];
        lemma_morton_index_bound(t.pos.x, t.pos.y, t.pos.z);
        lemma_surfel_tasks_len(ptrs.update(morton_index(t.pos.x, t.pos.y, t.pos.z) as int, t.ptr), tasks.drop_first());
    }
}

/// Writing no task leaves the grid as it is; writing one more task at
/// position `(x, y, z)` puts its pointer at `morton_index(x, y, z)`, the
/// index that `morton_encode(x, y, z)` gives, and leaves every other pointer
/// as the earlier tasks left it.
pub proof fn lemma_surfel_task_lands_at_morton_index(ptrs: Seq<u32>, tasks: Seq<SurfelGridBufferTask>, t: SurfelGridBufferTask)
    requires
        ptrs.len() == SG_ARRAY_SIZE,
    ensures
        apply_surfel_tasks(ptrs, Seq::<SurfelGridBufferTask>::empty()) == ptrs,
        apply_surfel_tasks(ptrs, tasks.push(t)).len() == SG_ARRAY_SIZE,
        apply_surfel_tasks(ptrs, tasks.push(t))[morton_index(t.pos.x, t.pos.y, t.pos.z) as int] == t.ptr,
        forall|i: int|
            0 <= i < SG_ARRAY_SIZE && i != morton_index(t.pos.x, t.pos.y, t.pos.z) ==> #[trigger] apply_surfel_tasks(
                ptrs,
                tasks.push(t),
            )[i] == apply_surfel_tasks(ptrs, tasks)[i],
{
    reveal_with_fuel(apply_surfel_tasks, 2);
    assert(apply_surfel_tasks(ptrs, Seq::<SurfelGridBufferTask>::empty()) == ptrs);
    lemma_surfel_tasks_concat(ptrs, tasks, seq![t]);
    assert(tasks + seq![t] =~= tasks.push(t));
    lemma_surfel_tasks_len(ptrs, tasks);
    lemma_morton_index_bound(t.pos.x, t.pos.y, t.pos.z);
    let mid = apply_surfel_tasks(ptrs, tasks);
    assert(seq![t].drop_first() =~= Seq::<SurfelGridBufferTask>::empty());
    assert(apply_surfel_tasks(mid, seq![t]) == mid.update(morton_index(t.pos.x, t.pos.y, t.pos.z) as int, t.ptr));
}

impl TaskTarget<SurfelGridBufferTask> for SurfelGrid {
    type Cell = u32;

    open spec fn contents(&self) -> Seq<u32> {
        self.pointers@
    }

    open spec fn after_tasks(c: Seq<u32>, tasks: Seq<SurfelGridBufferTask>) -> Seq<u32> {
        apply_surfel_tasks(c, tasks)
    }

    proof fn lemma_after_tasks_concat(c: Seq<u32>, a: Seq<SurfelGridBufferTask>, b: Seq<SurfelGridBufferTask>) {
        lemma_surfel_tasks_concat(c, a, b);
    }

    proof fn lemma_after_no_tasks(c: Seq<u32>) {
    }

    fn write_queue(queue: &mut VecDeque<SurfelGridBufferTask>, target: &mut Self) {
        write_queue_buffer(queue, target);
    }
}

/// Writes a queue to a write lock and clears the queue.
pub fn write_queue_buffer(queue: &mut VecDeque<SurfelGridBufferTask>, write_lock: &mut SurfelGrid)
    ensures
        final(queue)@.len() == 0,
        final(write_lock).pointers@ == apply_surfel_tasks(old(write_lock).pointers@, old(queue)@),
        old(queue)@.len() > 0 ==> ({
            let last = old(queue)@.last();
            final(write_lock).pointers@[morton_index(last.pos.x, last.pos.y, last.pos.z) as int] == last.ptr
        }),
{
    proof {
        if queue@.len() > 0 {
            lemma_surfel_task_lands_at_morton_index(write_lock.pointers@, queue@.drop_last(), queue@.last());
            assert(queue@.drop_last().push(queue@.last()) =~= queue@);
        }
    }
    while queue.len() > 0
        invariant
            apply_surfel_tasks(write_lock.pointers@, queue@) == apply_surfel_tasks(
                old(write_lock).pointers@,
                old(queue)@,
            ),
            write_lock.pointers@.len() == SG_ARRAY_SIZE,
        decreases queue@.len(),
    {
        let ghost before = queue@;
        let task = queue.pop_front().unwrap();
        proof {
            assert(queue@ == before.drop_first());
        }
        let pos = task.pos;
        let idx = morton_encode(pos.x, pos.y, pos.z);
        write_lock.pointers[idx] = task.ptr;
    }
}

} // verus!
