use vstd::prelude::*;
use std::collections::HashMap;
use vstd::std_specs::iter::IteratorSpec;
use crate::util::int_vec::IVec3;
use crate::world::section_map::SectionMap;
use crate::render::buffer::swap_buffer::{SwapBuffer, SwapBufferSlice, SwapDirtyPhase, writes_fit, update_spec};

verus! {

broadcast use vstd::std_specs::hash::group_hash_axioms;

/// Describes an allocation in the chunk vertex buffer. Has no real spot in the memory backing it.
#[derive(Copy, Clone, Debug)]
pub struct ChunkBufferAllocation {
    pub front: u32,
    pub back: u32,
}

impl ChunkBufferAllocation {
    pub fn new(front: u32, back: u32) -> (r: Self)
        ensures
            r.front == front,
            r.back == back,
    {
        Self { front, back }
    }

    pub fn new_size(front: u32, size: u32) -> (r: Self)
        requires
            front + size <= u32::MAX,
        ensures
            r.front == front,
            r.back == front + size,
    {
        Self::new(front, front + size)
    }
}

/// `p` lies in one of the free ranges `[front, back)` of `free`.
pub open spec fn is_free(free: Map<u32, u32>, p: int) -> bool {
    exists|f: u32| #[trigger] free.contains_key(f) && f <= p < free[f]
}

/// Some free range of `free` holds at least `size` units.
pub open spec fn has_fit(free: Map<u32, u32>, size: u32) -> bool {
    exists|f: u32| #[trigger] free.contains_key(f) && free[f] - f >= size
}

/// `b` is the inverse of `m`: a pair `front -> back` in one is `back -> front` in the other.
pub open spec fn inverse_maps(m: Map<u32, u32>, b: Map<u32, u32>) -> bool {
    &&& forall|f: u32| #[trigger] m.contains_key(f) ==> b.contains_key(m[f]) && b[m[f]] == f
    &&& forall|k: u32| #[trigger] b.contains_key(k) ==> m.contains_key(b[k]) && m[b[k]] == k
}

/// A pair of maps kept inverse to each other: front to back and back to front.
pub struct DualHashMap {
    front_back: HashMap<u32, u32>,
    back_front: HashMap<u32, u32>,
}

impl DualHashMap {
    /// The pairs `front -> back`.
    pub closed spec fn view(&self) -> Map<u32, u32> {
        self.front_back@
    }

    pub closed spec fn wf(&self) -> bool {
        inverse_maps(self.front_back@, self.back_front@)
    }

    pub fn new() -> (r: Self)
        ensures
            r.wf(),
            r.view() == Map::<u32, u32>::empty(),
    {
        Self { front_back: HashMap::new(), back_front: HashMap::new() }
    }

    pub fn insert(&mut self, front: u32, back: u32)
        requires
            old(self).wf(),
            !old(self).view().contains_key(front),
            forall|f: u32| #[trigger] old(self).view().contains_key(f) ==> old(self).view()[f] != back,
        ensures
            final(self).wf(),
            final(self).view() == old(self).view().insert(front, back),
    {
        proof {
            assert(!self.back_front@.contains_key(back));
        }
        self.front_back.insert(front, back);
        self.back_front.insert(back, front);
        proof {
            let m = self.front_back@;
            let b = self.back_front@;
            assert forall|k: u32| #[trigger] b.contains_key(k) implies m.contains_key(b[k]) && m[b[k]]
                == k by {
                if k != back {
                    assert(old(self).back_front@.contains_key(k));
                }
            }
        }
    }

    pub fn _get_back(&self, front: &u32) -> (r: Option<&u32>)
        requires
            self.wf(),
        ensures
            r == (if self.view().contains_key(*front) {
                Some(&self.view()[*front])
            } else {
                None
            }),
    {
        self.front_back.get(front)
    }

    pub fn _get_front(&self, back: &u32) -> (r: Option<&u32>)
        requires
            self.wf(),
        ensures
            match r {
                Some(f) => self.view().contains_key(*f) && self.view()[*f] == *back,
                None => forall|f: u32| #[trigger]
                    self.view().contains_key(f) ==> self.view()[f] != *back,
            },
    {
        self.back_front.get(back)
    }

    /// Removes the pair with the specified front, returning the back if it existed.
    pub fn remove_front(&mut self, front: &u32) -> (r: Option<u32>)
        requires
            old(self).wf(),
        ensures
            final(self).wf(),
            final(self).view() == old(self).view().remove(*front),
            r == (if old(self).view().contains_key(*front) {
                Some(old(self).view()[*front])
            } else {
                None
            }),
    {
        match self.front_back.remove(front) {
            Some(back) => {
                self.back_front.remove(&back);
                proof {
                    let m = self.front_back@;
                    let b = self.back_front@;
                    assert forall|f: u32| #[trigger] m.contains_key(f) implies b.contains_key(m[f])
                        && b[m[f]] == f by {
                        assert(old(self).front_back@.contains_key(f));
                    }
                }
                return Some(back)
            },
            None => return None,
        }
    }

    /// Removes the pair with the specified back, returning the front if it existed.
    pub fn remove_back(&mut self, back: &u32) -> (r: Option<u32>)
        requires
            old(self).wf(),
        ensures
            final(self).wf(),
            match r {
                Some(f) => old(self).view().contains_key(f) && old(self).view()[f] == *back
                    && final(self).view() == old(self).view().remove(f),
                None => (forall|f: u32| #[trigger]
                    old(self).view().contains_key(f) ==> old(self).view()[f] != *back)
                    && final(self).view() == old(self).view(),
            },
    {
        match self.back_front.remove(back) {
            Some(front) => {
                self.front_back.remove(&front);
                proof {
                    let m = self.front_back@;
                    let b = self.back_front@;
                    assert forall|k: u32| #[trigger] b.contains_key(k) implies m.contains_key(b[k])
                        && m[b[k]] == k by {
                        assert(old(self).back_front@.contains_key(k));
                    }
                }
                return Some(front)
            },
            None => {
                proof {
                    assert forall|f: u32| #[trigger]
                        old(self).view().contains_key(f) implies old(self).view()[f] != *back by {
                        assert(old(self).back_front@.contains_key(old(self).front_back@[f]));
                    }
                }
                return None
            },
        }
    }
}


/// Free ranges are non-empty, lie below `top` and do not overlap.
pub open spec fn free_ranges_wf(free: Map<u32, u32>, top: u32) -> bool {
    &&& forall|f: u32| #[trigger] free.contains_key(f) ==> f < free[f] <= top
    &&& forall|f1: u32, f2: u32|
        #![trigger free.contains_key(f1), free.contains_key(f2)]
        free.contains_key(f1) && free.contains_key(f2) && f1 != f2 ==> free[f1] <= f2 || free[f2]
            <= f1
}

/// The free ranges after `[f, f + size)` is cut from the front of the free range at `f`.
pub open spec fn split_front(free: Map<u32, u32>, f: u32, size: u32) -> Map<u32, u32> {
    if free[f] == f + size {
        free.remove(f)
    } else {
        free.remove(f).insert((f + size) as u32, free[f])
    }
}

/// The free ranges after `[front, back)` is freed: joined into one range with
/// the free range that ends at `front` and the one that starts at `back`,
/// where there are such.
pub open spec fn join_free(free: Map<u32, u32>, front: u32, back: u32) -> Map<u32, u32> {
    let end = if free.contains_key(back) {
        free[back]
    } else {
        back
    };
    let start = if exists|f: u32| #[trigger] free.contains_key(f) && free[f] == front {
        choose|f: u32| #[trigger] free.contains_key(f) && free[f] == front
    } else {
        front
    };
    free.remove(back).remove(start).insert(start, end)
}

/// Hands out ranges of a buffer that only grows: freed ranges are reused, and
/// neighbouring free ranges are joined.
pub struct ChunkBufferAllocator {
    /// Represents all free sections
    dual_map: DualHashMap,
    top: u32,
}

impl ChunkBufferAllocator {
    /// The free ranges, `front -> back`.
    pub closed spec fn free(&self) -> Map<u32, u32> {
        self.dual_map.view()
    }

    /// The end of everything handed out so far.
    pub closed spec fn top(&self) -> u32 {
        self.top
    }

    pub closed spec fn wf(&self) -> bool {
        &&& self.dual_map.wf()
        &&& free_ranges_wf(self.dual_map.view(), self.top)
    }

    /// A sound allocator's free ranges are non-empty, below the top and apart.
    pub proof fn lemma_free_ranges(&self)
        requires
            self.wf(),
        ensures
            free_ranges_wf(self.free(), self.top()),
    {
    }

    pub fn new() -> (r: Self)
        ensures
            r.wf(),
            r.free() == Map::<u32, u32>::empty(),
            r.top() == 0,
    {
        Self { dual_map: DualHashMap::new(), top: 0 }
    }

    /// Takes `size` units from the front of a free range that holds them, or
    /// from the top of the buffer when none does.
    pub fn allocate(&mut self, size: u32) -> (r: ChunkBufferAllocation)
        requires
            old(self).wf(),
            has_fit(old(self).free(), size) || old(self).top() + size <= u32::MAX,
        ensures
            final(self).wf(),
            r.back == r.front + size,
            if has_fit(old(self).free(), size) {
                &&& old(self).free().contains_key(r.front)
                &&& old(self).free()[r.front] - r.front >= size
                &&& final(self).free() == split_front(old(self).free(), r.front, size)
                &&& final(self).top() == old(self).top()
            } else {
                &&& r.front == old(self).top()
                &&& final(self).top() == old(self).top() + size
                &&& final(self).free() == old(self).free()
            },
            forall|p: int| #[trigger]
                is_free(final(self).free(), p) == (is_free(old(self).free(), p) && !(r.front <= p
                    < r.back)),
            r.back <= final(self).top(),
    {
        let ghost old_free = self.free();
        if let Some((front, back, free_size)) = Self::find_free(&self.dual_map, size) {
            proof {
                assert(has_fit(old_free, size));
            }
            self.dual_map.remove_front(&front);
            if free_size != size {
                proof {
                    let m = self.dual_map.view();
                    assert forall|f: u32| #[trigger] m.contains_key(f) implies m[f] != back by {
                        assert(old_free.contains_key(f));
                    }
                    if m.contains_key((front + size) as u32) {
                        assert(old_free.contains_key((front + size) as u32));
                    }
                }
                self.dual_map.insert(front + size, back);
            }
            proof {
                lemma_split_front_wf(old_free, self.top, front, size);
                lemma_split_front_points(old_free, self.top, front, size);
            }
            ChunkBufferAllocation::new_size(front, size)
        } else {
            let old_top = self.top;
            self.top = self.top + size;
            proof {
                assert forall|p: int| #[trigger] is_free(self.free(), p) == (is_free(old_free, p)
                    && !(old_top <= p < old_top + size)) by {
                    if is_free(old_free, p) {
                        let f = choose|f: u32| #[trigger] old_free.contains_key(f) && f <= p
                            < old_free[f];
                        assert(old_free[f] <= old_top);
                    }
                }
            }
            ChunkBufferAllocation::new_size(old_top, size)
        }
    }

    /// Deallocates a section and marks it as free.
    /// The allocation must be one handed out by `allocate` and not freed since:
    /// a non-empty range below the top that overlaps no free range.
    pub fn deallocate(&mut self, alloc: &ChunkBufferAllocation)
        requires
            old(self).wf(),
            alloc.front < alloc.back <= old(self).top(),
            forall|f: u32| #[trigger]
                old(self).free().contains_key(f) ==> old(self).free()[f] <= alloc.front
                    || alloc.back <= f,
        ensures
            final(self).wf(),
            final(self).top() == old(self).top(),
            final(self).free() == join_free(old(self).free(), alloc.front, alloc.back),
            forall|p: int| #[trigger]
                is_free(final(self).free(), p) == (is_free(old(self).free(), p) || (alloc.front
                    <= p < alloc.back)),
    {
        let ghost old_free = self.free();
        let mut joined_alloc = alloc.clone();

        if let Some(back) = self.dual_map.remove_front(&alloc.back) {
            joined_alloc.back = back;
        }
        let ghost mid_free = self.free();

        if let Some(front) = self.dual_map.remove_back(&alloc.front) {
            joined_alloc.front = front;
        }
        let ghost end_free = self.free();
        proof {
            assert(old_free.contains_key(alloc.back) ==> mid_free == old_free.remove(alloc.back));
            assert forall|f: u32| #[trigger] end_free.contains_key(f) implies f != joined_alloc.front
                && end_free[f] != joined_alloc.back && (end_free[f] <= joined_alloc.front
                || joined_alloc.back <= f) by {
                assert(mid_free.contains_key(f));
                assert(old_free.contains_key(f));
                if old_free.contains_key(alloc.back) {
                    assert(f != alloc.back);
                }
            }
        }
        self.dual_map.insert(joined_alloc.front, joined_alloc.back);
        proof {
            let new_free = self.free();
            assert(!old_free.contains_key(alloc.front));
            if exists|f: u32| #[trigger] old_free.contains_key(f) && old_free[f] == alloc.front {
                let c = choose|f: u32| #[trigger] old_free.contains_key(f) && old_free[f] == alloc.front;
                assert(c != alloc.back);
                assert(mid_free.contains_key(c) && mid_free[c] == alloc.front);
                assert(joined_alloc.front == c) by {
                    if joined_alloc.front != c {
                        assert(old_free.contains_key(joined_alloc.front));
                    }
                }
            } else {
                assert(joined_alloc.front == alloc.front) by {
                    if joined_alloc.front != alloc.front {
                        assert(old_free.contains_key(joined_alloc.front));
                    }
                }
                assert(end_free =~= mid_free.remove(alloc.front));
            }
            if !old_free.contains_key(alloc.back) {
                assert(mid_free =~= old_free.remove(alloc.back));
            }
            assert(new_free =~= join_free(old_free, alloc.front, alloc.back));
            assert(free_ranges_wf(new_free, self.top)) by {
                assert forall|f: u32| #[trigger] new_free.contains_key(f) implies f < new_free[f]
                    <= self.top by {
                    if f != joined_alloc.front {
                        assert(old_free.contains_key(f));
                    } else {
                        if old_free.contains_key(alloc.back) {
                            assert(old_free[alloc.back] <= self.top);
                        }
                    }
                }
                assert forall|f1: u32, f2: u32|
                    #![trigger new_free.contains_key(f1), new_free.contains_key(f2)]
                    new_free.contains_key(f1) && new_free.contains_key(f2) && f1
                        != f2 implies new_free[f1] <= f2 || new_free[f2] <= f1 by {
                    if f1 != joined_alloc.front && f2 != joined_alloc.front {
                        assert(old_free.contains_key(f1));
                        assert(old_free.contains_key(f2));
                    } else if f1 == joined_alloc.front {
                        assert(end_free.contains_key(f2));
                    } else {
                        assert(end_free.contains_key(f1));
                    }
                }
            }
            assert forall|p: int| #[trigger] is_free(new_free, p) == (is_free(old_free, p) || (
            alloc.front <= p < alloc.back)) by {
                if is_free(old_free, p) {
                    let f = choose|f: u32| #[trigger] old_free.contains_key(f) && f <= p
                        < old_free[f];
                    if end_free.contains_key(f) {
                        assert(new_free.contains_key(f) && f <= p < new_free[f]);
                    } else {
                        assert(new_free.contains_key(joined_alloc.front));
                        assert(joined_alloc.front <= p < new_free[joined_alloc.front]);
                    }
                }
                if alloc.front <= p < alloc.back {
                    assert(new_free.contains_key(joined_alloc.front));
                }
                if is_free(new_free, p) {
                    let f = choose|f: u32| #[trigger] new_free.contains_key(f) && f <= p
                        < new_free[f];
                    if f != joined_alloc.front {
                        assert(old_free.contains_key(f));
                    } else if p < alloc.front {
                        assert(old_free.contains_key(joined_alloc.front));
                    } else if p >= alloc.back {
                        assert(old_free.contains_key(alloc.back));
                    }
                }
            }
        }
    }

    /// Looks for a free range of at least `needed_size` units; which one is found
    /// when several fit depends on the order in which the map is walked.
    pub fn find_free(map: &DualHashMap, needed_size: u32) -> (r: Option<(u32, u32, u32)>)
        requires
            map.wf(),
            forall|f: u32| #[trigger] map.view().contains_key(f) ==> f <= map.view()[f],
        ensures
            match r {
                Some((front, back, free_size)) => {
                    &&& map.view().contains_key(front)
                    &&& map.view()[front] == back
                    &&& free_size == back - front
                    &&& needed_size <= free_size
                },
                None => !has_fit(map.view(), needed_size),
            },
    {
        let ghost m = map.view();
        for entry in it: map.front_back.iter()
            invariant
                m == map.front_back@,
                forall|f: u32| #[trigger] m.contains_key(f) ==> f <= m[f],
                it.seq() == vstd::std_specs::hash::spec_hash_map_iter(&map.front_back).remaining(),
                forall|i: int|
                    0 <= i < it.index() ==> !(needed_size <= *it.seq()[i].1 - *it.seq()[i].0),
        {
            let (front, back) = entry;
            proof {
                assert(m.contains_key(*front) && m[*front] == *back);
            }
            let free_size = back - front;
            if needed_size <= free_size {
                return Some((*front, *back, free_size));
            }
        }
        proof {
            let v = vstd::std_specs::hash::spec_hash_map_iter(&map.front_back).remaining();
            assert forall|f: u32| #[trigger] m.contains_key(f) implies !(m[f] - f >= needed_size) by {
                assert(v.contains((&f, &m[f])));
                let i = choose|i: int| 0 <= i < v.len() && v[i] == (&f, &m[f]);
            }
        }
        None
    }
}

/// Cutting `[f, f + size)` from the front of the free range at `f` keeps the
/// free ranges well formed.
proof fn lemma_split_front_wf(free: Map<u32, u32>, top: u32, f: u32, size: u32)
    requires
        free_ranges_wf(free, top),
        free.contains_key(f),
        free[f] - f >= size,
    ensures
        free_ranges_wf(split_front(free, f, size), top),
{
    let n = split_front(free, f, size);
    assert forall|f1: u32, f2: u32|
        #![trigger n.contains_key(f1), n.contains_key(f2)]
        n.contains_key(f1) && n.contains_key(f2) && f1 != f2 implies n[f1] <= f2 || n[f2] <= f1 by {
        if f1 != (f + size) as u32 || free[f] == f + size {
            assert(free.contains_key(f1));
        }
        if f2 != (f + size) as u32 || free[f] == f + size {
            assert(free.contains_key(f2));
        }
    }
    assert forall|g: u32| #[trigger] n.contains_key(g) implies g < n[g] <= top by {
        if g != (f + size) as u32 || free[f] == f + size {
            assert(free.contains_key(g));
        }
    }
}

/// After the cut, a point is free exactly when it was free and lies outside the cut.
proof fn lemma_split_front_points(free: Map<u32, u32>, top: u32, f: u32, size: u32)
    requires
        free_ranges_wf(free, top),
        free.contains_key(f),
        free[f] - f >= size,
    ensures
        forall|p: int| #[trigger]
            is_free(split_front(free, f, size), p) == (is_free(free, p) && !(f <= p < f + size)),
{
    let n = split_front(free, f, size);
    assert forall|p: int| #[trigger] is_free(n, p) == (is_free(free, p) && !(f <= p < f + size)) by {
        if is_free(free, p) && !(f <= p < f + size) {
            let g = choose|g: u32| #[trigger] free.contains_key(g) && g <= p < free[g];
            if g != f {
                if free[f] != f + size {
                    assert(g != (f + size) as u32);
                }
                assert(n.contains_key(g) && g <= p < n[g]);
            } else {
                assert(n.contains_key((f + size) as u32));
                assert(n[(f + size) as u32] == free[f]);
            }
        }
        if is_free(n, p) {
            let g = choose|g: u32| #[trigger] n.contains_key(g) && g <= p < n[g];
            if g == (f + size) as u32 && free[f] != f + size {
                assert(free.contains_key(f) && f <= p < free[f]);
            } else {
                assert(free.contains_key(g));
                assert(g != f);
            }
        }
    }
}

/// The two ranges share no unit.
pub open spec fn ranges_disjoint(a: ChunkBufferAllocation, b: ChunkBufferAllocation) -> bool {
    a.back <= b.front || b.back <= a.front
}

/// The sections' ranges are non-empty, below `top`, free of free units and apart.
pub open spec fn ranges_placed(allocs: Map<IVec3, ChunkBufferAllocation>, free: Map<u32, u32>, top: u32) -> bool {
    &&& forall|p: IVec3| #[trigger] allocs.contains_key(p) ==> {
        let a = allocs[p];
        &&& a.front < a.back <= top
        &&& forall|q: int| a.front <= q < a.back ==> !#[trigger] is_free(free, q)
    }
    &&& forall|p1: IVec3, p2: IVec3|
        #![trigger allocs[p1], allocs[p2]]
        allocs.contains_key(p1) && allocs.contains_key(p2) && p1 != p2 ==> ranges_disjoint(allocs[p1], allocs[p2])
}

/// Giving up the range of `pos` (if it has one) and taking a new one for it
/// keeps the ranges placed.
pub(crate) proof fn lemma_ranges_after_move(
    allocs: Map<IVec3, ChunkBufferAllocation>,
    old_free: Map<u32, u32>,
    old_top: u32,
    mid_free: Map<u32, u32>,
    fin_free: Map<u32, u32>,
    fin_top: u32,
    pos: IVec3,
    new_alloc: ChunkBufferAllocation,
    size: u32,
)
    requires
        ranges_placed(allocs, old_free, old_top),
        allocs.contains_key(pos) ==> forall|q: int| #[trigger] is_free(mid_free, q) == (is_free(old_free, q)
            || allocs[pos].front <= q < allocs[pos].back),
        !allocs.contains_key(pos) ==> mid_free == old_free,
        size >= 1,
        new_alloc.back == new_alloc.front + size,
        if has_fit(mid_free, size) {
            &&& mid_free.contains_key(new_alloc.front)
            &&& mid_free[new_alloc.front] - new_alloc.front >= size
            &&& fin_top == old_top
        } else {
            &&& new_alloc.front == old_top
            &&& fin_top == old_top + size
        },
        forall|q: int| #[trigger] is_free(fin_free, q) == (is_free(mid_free, q) && !(new_alloc.front <= q < new_alloc.back)),
        new_alloc.back <= fin_top,
    ensures
        ranges_placed(allocs.insert(pos, new_alloc), fin_free, fin_top),
        forall|q: IVec3| #[trigger] allocs.contains_key(q) && q != pos ==> ranges_disjoint(allocs[q], new_alloc),
{
    let fin = allocs.insert(pos, new_alloc);
    assert forall|q: IVec3| #[trigger] allocs.contains_key(q) && q != pos implies ranges_disjoint(allocs[q], new_alloc) by {
        let a = allocs[q];
        if !ranges_disjoint(a, new_alloc) {
            let w: int = if a.front < new_alloc.front { new_alloc.front as int } else { a.front as int };
            assert(a.front <= w < a.back);
            assert(!is_free(old_free, w));
            if allocs.contains_key(pos) {
                assert(ranges_disjoint(allocs[q], allocs[pos]));
            }
            assert(!is_free(mid_free, w));
            if has_fit(mid_free, size) {
                assert(mid_free.contains_key(new_alloc.front) && new_alloc.front <= w < mid_free[new_alloc.front]);
            }
        }
    }
    assert forall|p: IVec3| #[trigger] fin.contains_key(p) implies {
        let a = fin[p];
        &&& a.front < a.back <= fin_top
        &&& forall|q: int| a.front <= q < a.back ==> !#[trigger] is_free(fin_free, q)
    } by {
        if p != pos {
            let a = allocs[p];
            assert forall|q: int| a.front <= q < a.back implies !#[trigger] is_free(fin_free, q) by {
                assert(!is_free(old_free, q));
                if allocs.contains_key(pos) {
                    assert(ranges_disjoint(allocs[p], allocs[pos]));
                }
            }
        }
    }
    assert forall|p1: IVec3, p2: IVec3|
        #![trigger fin[p1], fin[p2]]
        fin.contains_key(p1) && fin.contains_key(p2) && p1 != p2 implies ranges_disjoint(fin[p1], fin[p2]) by {
        if p1 != pos && p2 != pos {
            assert(ranges_disjoint(allocs[p1], allocs[p2]));
        }
    }
}

/// Giving back a range just taken from a free range leaves the same units
/// free as before both calls, and the top where it was; a range taken from
/// the top stays free once given back.
pub proof fn lemma_allocate_then_deallocate(
    before: Map<u32, u32>,
    between: Map<u32, u32>,
    after: Map<u32, u32>,
    top_before: u32,
    top_between: u32,
    top_after: u32,
    size: u32,
    r: ChunkBufferAllocation,
)
    requires
        free_ranges_wf(before, top_before),
        r.back == r.front + size,
        if has_fit(before, size) {
            &&& before.contains_key(r.front)
            &&& before[r.front] - r.front >= size
            &&& top_between == top_before
        } else {
            &&& r.front == top_before
            &&& top_between == top_before + size
        },
        forall|p: int| #[trigger] is_free(between, p) == (is_free(before, p) && !(r.front <= p < r.back)),
        top_after == top_between,
        forall|p: int| #[trigger] is_free(after, p) == (is_free(between, p) || (r.front <= p < r.back)),
    ensures
        top_after == top_between,
        has_fit(before, size) ==> forall|p: int| #[trigger] is_free(after, p) == is_free(before, p),
        !has_fit(before, size) ==> forall|p: int| #[trigger] is_free(after, p) == (is_free(before, p)
            || (top_before <= p < top_before + size)),
{
    if has_fit(before, size) {
        assert forall|p: int| #[trigger] is_free(after, p) == is_free(before, p) by {
            if r.front <= p < r.back {
                assert(before.contains_key(r.front) && r.front <= p < before[r.front]);
            }
        }
    }
}

/// The ranges in `live`, handed out and not yet given back, are non-empty,
/// below `top`, apart from each other and apart from every free range.
pub open spec fn live_apart(free: Map<u32, u32>, top: u32, live: Set<ChunkBufferAllocation>) -> bool {
    &&& forall|a: ChunkBufferAllocation| #[trigger] live.contains(a) ==> a.front < a.back <= top
    &&& forall|a: ChunkBufferAllocation, b: ChunkBufferAllocation|
        #[trigger] live.contains(a) && #[trigger] live.contains(b) && a != b ==> ranges_disjoint(a, b)
    &&& forall|a: ChunkBufferAllocation, f: u32|
        #[trigger] live.contains(a) && #[trigger] free.contains_key(f) ==> ranges_disjoint(
            a,
            ChunkBufferAllocation { front: f, back: free[f] },
        )
}

/// An allocation, as `ChunkBufferAllocator::allocate` makes it, keeps the
/// ranges handed out apart: the new range is apart from every range still
/// held and from every free range left, and the free ranges stay sound.
pub proof fn lemma_allocate_keeps_live_apart(
    free: Map<u32, u32>,
    top: u32,
    new_free: Map<u32, u32>,
    new_top: u32,
    live: Set<ChunkBufferAllocation>,
    size: u32,
    r: ChunkBufferAllocation,
)
    requires
        free_ranges_wf(free, top),
        live_apart(free, top, live),
        0 < size,
        r.back == r.front + size,
        if has_fit(free, size) {
            &&& free.contains_key(r.front)
            &&& free[r.front] - r.front >= size
            &&& new_free == split_front(free, r.front, size)
            &&& new_top == top
        } else {
            &&& r.front == top
            &&& new_top == top + size
            &&& new_free == free
        },
    ensures
        free_ranges_wf(new_free, new_top),
        !live.contains(r),
        live_apart(new_free, new_top, live.insert(r)),
{
    let nl = live.insert(r);
    if has_fit(free, size) {
        let f = r.front;
        lemma_split_front_wf(free, top, f, size);
        assert(!live.contains(r)) by {
            if live.contains(r) {
                assert(ranges_disjoint(r, ChunkBufferAllocation { front: f, back: free[f] }));
            }
        }
        assert forall|a: ChunkBufferAllocation, g: u32|
            #[trigger] nl.contains(a) && #[trigger] new_free.contains_key(g) implies ranges_disjoint(
            a,
            ChunkBufferAllocation { front: g, back: new_free[g] },
        ) by {
            if g == (f + size) as u32 && free[f] != f + size {
                if a != r {
                    assert(ranges_disjoint(a, ChunkBufferAllocation { front: f, back: free[f] }));
                }
            } else {
                assert(free.contains_key(g) && g != f && new_free[g] == free[g]);
                if a == r {
                    assert(free[g] <= f || free[f] <= g);
                } else {
                    assert(live.contains(a));
                }
            }
        }
        assert forall|a: ChunkBufferAllocation, b: ChunkBufferAllocation|
            #[trigger] nl.contains(a) && #[trigger] nl.contains(b) && a != b implies ranges_disjoint(a, b) by {
            if a == r {
                assert(ranges_disjoint(b, ChunkBufferAllocation { front: f, back: free[f] }));
            } else if b == r {
                assert(ranges_disjoint(a, ChunkBufferAllocation { front: f, back: free[f] }));
            }
        }
    } else {
        assert forall|a: ChunkBufferAllocation, g: u32|
            #[trigger] nl.contains(a) && #[trigger] new_free.contains_key(g) implies ranges_disjoint(
            a,
            ChunkBufferAllocation { front: g, back: new_free[g] },
        ) by {
            if a != r {
                assert(live.contains(a));
            }
        }
    }
}

/// Giving back a range that is held, as `ChunkBufferAllocator::deallocate`
/// does, meets what `deallocate` asks of it and keeps the other ranges held
/// apart from each other and from the joined free ranges, which stay sound.
pub proof fn lemma_deallocate_keeps_live_apart(
    free: Map<u32, u32>,
    top: u32,
    live: Set<ChunkBufferAllocation>,
    a: ChunkBufferAllocation,
)
    requires
        free_ranges_wf(free, top),
        live_apart(free, top, live),
        live.contains(a),
    ensures
        a.front < a.back <= top,
        forall|f: u32| #[trigger] free.contains_key(f) ==> free[f] <= a.front || a.back <= f,
        free_ranges_wf(join_free(free, a.front, a.back), top),
        live_apart(join_free(free, a.front, a.back), top, live.remove(a)),
{
    let j = join_free(free, a.front, a.back);
    let end = if free.contains_key(a.back) {
        free[a.back]
    } else {
        a.back
    };
    let ends_here = exists|f: u32| #[trigger] free.contains_key(f) && free[f] == a.front;
    let start = if ends_here {
        choose|f: u32| #[trigger] free.contains_key(f) && free[f] == a.front
    } else {
        a.front
    };
    assert forall|f: u32| #[trigger] free.contains_key(f) implies free[f] <= a.front || a.back <= f by {
        assert(ranges_disjoint(a, ChunkBufferAllocation { front: f, back: free[f] }));
    }
    assert(j.contains_key(start) && j[start] == end);
    // A range apart from `a` and from the free ranges beside it is apart from their union.
    assert forall|g: u32, e: u32|
        g < e && e <= top && ranges_disjoint(ChunkBufferAllocation { front: g, back: e }, a) && (ends_here
            ==> ranges_disjoint(ChunkBufferAllocation { front: g, back: e }, ChunkBufferAllocation { front: start, back: a.front }))
            && (free.contains_key(a.back) ==> ranges_disjoint(
            ChunkBufferAllocation { front: g, back: e },
            ChunkBufferAllocation { front: a.back, back: free[a.back] },
        )) implies #[trigger] ranges_disjoint(
        ChunkBufferAllocation { front: g, back: e },
        ChunkBufferAllocation { front: start, back: end },
    ) by {
        if ends_here {
            assert(free.contains_key(start) && free[start] == a.front);
        }
    }
    assert forall|g: u32| #[trigger] j.contains_key(g) && g != start implies free.contains_key(g) && g != a.back
        && j[g] == free[g] by {}
    if ends_here {
        assert(free.contains_key(start) && free[start] == a.front);
        assert(start < a.front);
    }
    if free.contains_key(a.back) {
        assert(a.back < free[a.back] <= top);
    }
    assert(free_ranges_wf(j, top)) by {
        assert forall|g: u32| #[trigger] j.contains_key(g) implies g < j[g] <= top by {
            if g != start {
                assert(free.contains_key(g));
            }
        }
        assert forall|g1: u32, g2: u32|
            #![trigger j.contains_key(g1), j.contains_key(g2)]
            j.contains_key(g1) && j.contains_key(g2) && g1 != g2 implies j[g1] <= g2 || j[g2] <= g1 by {
            if g1 != start && g2 != start {
                assert(free.contains_key(g1) && free.contains_key(g2));
            } else {
                let g = if g1 == start { g2 } else { g1 };
                assert(free.contains_key(g) && g != a.back && j[g] == free[g]);
                assert(ranges_disjoint(a, ChunkBufferAllocation { front: g, back: free[g] }));
                if ends_here {
                    assert(g != start);
                    assert(free[g] <= start || free[start] <= g);
                }
                if free.contains_key(a.back) {
                    assert(free[g] <= a.back || free[a.back] <= g);
                }
                assert(ranges_disjoint(
                    ChunkBufferAllocation { front: g, back: free[g] },
                    ChunkBufferAllocation { front: start, back: end },
                ));
            }
        }
    }
    let nl = live.remove(a);
    assert forall|b: ChunkBufferAllocation, g: u32|
        #[trigger] nl.contains(b) && #[trigger] j.contains_key(g) implies ranges_disjoint(
        b,
        ChunkBufferAllocation { front: g, back: j[g] },
    ) by {
        assert(live.contains(b) && b != a);
        if g == start {
            if ends_here {
                assert(ranges_disjoint(b, ChunkBufferAllocation { front: start, back: free[start] }));
            }
            if free.contains_key(a.back) {
                assert(ranges_disjoint(b, ChunkBufferAllocation { front: a.back, back: free[a.back] }));
            }
            assert(ranges_disjoint(
                ChunkBufferAllocation { front: b.front, back: b.back },
                ChunkBufferAllocation { front: start, back: end },
            ));
        } else {
            assert(free.contains_key(g));
        }
    }
}

/// A draw call's range as the shaders' indirect draw reads it.
#[derive(Copy, Clone, Debug, PartialEq, Eq, Structural)]
pub struct DrawIndirectCommand {
    pub vertex_count: u32,
    pub instance_count: u32,
    pub first_vertex: u32,
    pub first_instance: u32,
}

/// The indirect draw of an allocation whose units hold `multiplier` vertices each.
pub open spec fn indirect_command(a: ChunkBufferAllocation, multiplier: u32) -> DrawIndirectCommand {
    DrawIndirectCommand {
        vertex_count: ((a.back - a.front) * multiplier) as u32,
        instance_count: 1,
        first_vertex: (a.front * multiplier) as u32,
        first_instance: 0,
    }
}

/// A buffer shared by many sections: each section's data lies in a range that
/// the chunk buffer allocator handed out, and writes go through a swap buffer.
pub struct HeapBuffer<T, B> {
    buffer: SwapBufferSlice<T, B>,
    chunk_allocator: ChunkBufferAllocator,
    allocations: SectionMap<ChunkBufferAllocation>,
    vertex_count_multiplier: u32,
    highest: usize,
    capacity: usize,
}

impl<T: Copy, B> HeapBuffer<T, B> {
    /// The range of each section.
    pub closed spec fn spec_allocations(&self) -> Map<IVec3, ChunkBufferAllocation> {
        self.allocations@
    }

    /// The swap buffer the data goes through.
    pub closed spec fn slice(&self) -> SwapBufferSlice<T, B> {
        self.buffer
    }

    /// The end of the ranges handed out so far.
    pub closed spec fn top(&self) -> u32 {
        self.chunk_allocator.top()
    }

    /// The freed ranges below the top, `front -> back`, that later sections reuse.
    pub closed spec fn spec_free(&self) -> Map<u32, u32> {
        self.chunk_allocator.free()
    }

    /// The largest end of a range handed out, as recorded.
    pub closed spec fn spec_highest(&self) -> usize {
        self.highest
    }

    /// The number of elements each of the two buffers holds.
    pub closed spec fn spec_capacity(&self) -> usize {
        self.capacity
    }

    /// How many vertices one unit of a range stands for.
    pub closed spec fn spec_multiplier(&self) -> u32 {
        self.vertex_count_multiplier
    }

    /// The allocator is sound, the ranges of the sections are placed, and
    /// everything handed out or waiting to be written fits in the buffers.
    pub closed spec fn wf(&self) -> bool {
        &&& self.chunk_allocator.wf()
        &&& ranges_placed(self.allocations@, self.chunk_allocator.free(), self.chunk_allocator.top())
        &&& self.chunk_allocator.top() <= self.capacity
        &&& self.buffer.swap_buffer().wf()
        &&& writes_fit(self.buffer.queued(), self.capacity as int)
        &&& writes_fit(self.buffer.after_free_writes(), self.capacity as int)
    }

    /// An empty heap over the two buffers, each `capacity` elements long.
    pub fn new(buffer: SwapBuffer<B>, capacity: usize, vertex_count_multiplier: u32) -> (r: Self)
        requires
            buffer.wf(),
        ensures
            r.wf(),
            r.spec_allocations() == Map::<IVec3, ChunkBufferAllocation>::empty(),
            r.top() == 0,
            r.spec_highest() == 0,
            r.spec_capacity() == capacity,
            r.spec_multiplier() == vertex_count_multiplier,
            r.slice().swap_buffer() == buffer,
            r.slice().phase() == SwapDirtyPhase::Clean,
    {
        let r = HeapBuffer {
            buffer: SwapBufferSlice::new(buffer),
            chunk_allocator: ChunkBufferAllocator::new(),
            allocations: SectionMap::new(),
            vertex_count_multiplier,
            highest: 0,
            capacity,
        };
        proof {
            assert(r.chunk_allocator.free() =~= Map::<u32, u32>::empty());
        }
        r
    }

    /// The range of the section at `pos`, if it has one.
    pub fn allocation(&self, pos: IVec3) -> (r: Option<ChunkBufferAllocation>)
        ensures
            r == (if self.spec_allocations().contains_key(pos) {
                Some(self.spec_allocations()[pos])
            } else {
                None
            }),
    {
        match self.allocations.get(pos) {
            Some(a) => Some(*a),
            None => None,
        }
    }

    /// The largest end of a range handed out.
    pub fn highest(&self) -> (r: usize)
        ensures
            r == self.spec_highest(),
    {
        self.highest
    }

    /// Takes a range for `data`, records it as the section's range and queues
    /// the write of `data` there; a range the section had before is not given
    /// back. Returns the range.
    pub fn insert(&mut self, section_pos: IVec3, data: &[T]) -> (r: ChunkBufferAllocation)
        requires
            old(self).wf(),
            0 < data@.len() <= u32::MAX,
            has_fit(old(self).spec_free(), data@.len() as u32) || old(self).top() + data@.len() <= old(self).spec_capacity(),
            old(self).spec_capacity() <= u32::MAX,
        ensures
            final(self).wf(),
            r.back == r.front + data@.len(),
            if has_fit(old(self).spec_free(), data@.len() as u32) {
                &&& old(self).spec_free().contains_key(r.front)
                &&& final(self).top() == old(self).top()
            } else {
                &&& r.front == old(self).top()
                &&& final(self).top() == old(self).top() + data@.len()
            },
            final(self).spec_allocations() == old(self).spec_allocations().insert(section_pos, r),
            forall|q: IVec3| #[trigger]
                old(self).spec_allocations().contains_key(q) && q != section_pos ==> ranges_disjoint(
                    old(self).spec_allocations()[q],
                    r,
                ),
            final(self).slice().queued() == old(self).slice().queued().push((r.front as int, data@)),
            final(self).slice().after_free_writes() == old(self).slice().after_free_writes(),
            final(self).slice().phase() == crate::render::buffer::swap_buffer::phase_after_write(old(self).slice().phase()),
            final(self).slice().swap_buffer() == old(self).slice().swap_buffer(),
            final(self).spec_highest() == (if r.back > old(self).spec_highest() {
                r.back as usize
            } else {
                old(self).spec_highest()
            }),
            final(self).spec_capacity() == old(self).spec_capacity(),
            final(self).spec_multiplier() == old(self).spec_multiplier(),
            final(self).top() <= old(self).top() + data@.len(),
            r.back <= final(self).top() <= final(self).spec_capacity(),
    {
        let ghost old_allocs = self.allocations@;
        let ghost old_free = self.chunk_allocator.free();
        let ghost old_top = self.chunk_allocator.top();
        let size = data.len() as u32;
        let allocation = self.chunk_allocator.allocate(size);
        proof {
            lemma_ranges_after_move(
                old_allocs.remove(section_pos),
                old_free,
                old_top,
                old_free,
                self.chunk_allocator.free(),
                self.chunk_allocator.top(),
                section_pos,
                allocation,
                size,
            );
            assert(old_allocs.remove(section_pos).insert(section_pos, allocation) =~= old_allocs.insert(section_pos, allocation));
            assert forall|q: IVec3| #[trigger]
                old_allocs.contains_key(q) && q != section_pos implies ranges_disjoint(old_allocs[q], allocation) by {
                assert(old_allocs.remove(section_pos).contains_key(q));
            }
        }
        if allocation.back as usize > self.highest {
            self.highest = allocation.back as usize;
        }
        self.allocations.insert(section_pos, allocation);
        self.buffer.write(allocation.front as usize, data);
        proof {
            let q = self.buffer.queued();
            assert forall|i: int| 0 <= i < q.len() implies 0 <= (#[trigger] q[i]).0 && q[i].0 + q[i].1.len() <= self.capacity as int by {
                if i < q.len() - 1 {
                    assert(q[i] == old(self).buffer.queued()[i]);
                }
            }
        }
        allocation
    }

    /// Gives the section's range back to the allocator and forgets it.
    pub fn remove(&mut self, section_pos: IVec3)
        requires
            old(self).wf(),
            old(self).spec_allocations().contains_key(section_pos),
        ensures
            final(self).wf(),
            final(self).spec_allocations() == old(self).spec_allocations().remove(section_pos),
            final(self).top() == old(self).top(),
            final(self).slice() == old(self).slice(),
            final(self).spec_highest() == old(self).spec_highest(),
            final(self).spec_capacity() == old(self).spec_capacity(),
            final(self).spec_multiplier() == old(self).spec_multiplier(),
    {
        let ghost old_allocs = self.allocations@;
        let ghost old_free = self.chunk_allocator.free();
        match self.allocations.remove(section_pos) {
            Some(allocation) => {
                proof {
                    self.chunk_allocator.lemma_free_ranges();
                    assert forall|f: u32| #[trigger] old_free.contains_key(f) implies old_free[f]
                        <= allocation.front || allocation.back <= f by {
                        if !(old_free[f] <= allocation.front || allocation.back <= f) {
                            let q: int = if f < allocation.front { allocation.front as int } else { f as int };
                            assert(old_free.contains_key(f) && f <= q < old_free[f]);
                            assert(is_free(old_free, q));
                        }
                    }
                }
                self.chunk_allocator.deallocate(&allocation);
                proof {
                    let m = self.allocations@;
                    let free = self.chunk_allocator.free();
                    assert forall|p: IVec3| #[trigger] m.contains_key(p) implies {
                        let a = m[p];
                        &&& a.front < a.back <= self.chunk_allocator.top()
                        &&& forall|q: int| a.front <= q < a.back ==> !#[trigger] is_free(free, q)
                    } by {
                        assert(ranges_disjoint(old_allocs[p], old_allocs[section_pos]));
                        assert(old_allocs.contains_key(p));
                    }
                    assert forall|p1: IVec3, p2: IVec3|
                        #![trigger m[p1], m[p2]]
                        m.contains_key(p1) && m.contains_key(p2) && p1 != p2 implies ranges_disjoint(m[p1], m[p2]) by {
                        assert(old_allocs.contains_key(p1) && old_allocs.contains_key(p2));
                    }
                }
            },
            None => {},
        }
    }

    /// Gives the section's range back and takes a new one for `data`.
    pub fn reinsert(&mut self, section_pos: IVec3, data: &[T])
        requires
            old(self).wf(),
            old(self).spec_allocations().contains_key(section_pos),
            0 < data@.len(),
            old(self).top() + data@.len() <= old(self).spec_capacity(),
            old(self).spec_capacity() <= u32::MAX,
        ensures
            final(self).wf(),
            final(self).spec_allocations().dom() == old(self).spec_allocations().dom(),
            final(self).spec_allocations()[section_pos].back - final(self).spec_allocations()[section_pos].front == data@.len(),
            forall|q: IVec3| #[trigger]
                old(self).spec_allocations().contains_key(q) && q != section_pos ==> final(self).spec_allocations()[q] == old(self).spec_allocations()[q],
            final(self).slice().queued() == old(self).slice().queued().push(
                (final(self).spec_allocations()[section_pos].front as int, data@),
            ),
    {
        self.remove(section_pos);
        let r = self.insert(section_pos, data);
        proof {
            assert(self.allocations@.dom() =~= old(self).allocations@.dom());
        }
    }

    /// The buffer in use.
    pub fn get_buffer(&self) -> (r: &B)
        requires
            self.wf(),
        ensures
            r == (if self.slice().swap_buffer().first_current() {
                &self.slice().swap_buffer().buffer_1
            } else {
                &self.slice().swap_buffer().buffer_2
            }),
    {
        self.buffer.buffer.current_buffer()
    }

    /// Does the swap buffer's work of the current phase on the free buffer,
    /// whose write lock the caller holds as `free`; returns whether the
    /// buffers swapped, after which the indirect draws are to be rebuilt.
    pub fn update(&mut self, free: &mut [T]) -> (r: bool)
        requires
            old(self).wf(),
            old(free)@.len() == old(self).spec_capacity(),
        ensures
            final(self).wf(),
            final(self).spec_allocations() == old(self).spec_allocations(),
            final(self).top() == old(self).top(),
            final(self).spec_capacity() == old(self).spec_capacity(),
            final(self).spec_multiplier() == old(self).spec_multiplier(),
            ({
                let (p, q, a, f, swapped, done) = update_spec(
                    old(self).slice().phase(),
                    old(self).slice().queued(),
                    old(self).slice().after_free_writes(),
                    old(free)@,
                );
                &&& final(self).slice().phase() == p
                &&& final(self).slice().queued() == q
                &&& final(self).slice().after_free_writes() == a
                &&& final(free)@ == f
                &&& r == swapped
            }),
    {
        let phase = self.buffer.dirty;
        self.buffer.update(free);
        match phase {
            SwapDirtyPhase::Dirty => true,
            SwapDirtyPhase::SwappedImmediate => true,
            _ => false,
        }
    }

    /// The indirect draw of every section's range, in the order the sections
    /// are walked; units hold `multiplier` vertices each.
    pub fn get_ind_commands(&self, multiplier: u32) -> (r: Vec<DrawIndirectCommand>)
        requires
            forall|p: IVec3| #[trigger] self.spec_allocations().contains_key(p) ==> self.spec_allocations()[p].back * multiplier <= u32::MAX
                && self.spec_allocations()[p].front <= self.spec_allocations()[p].back,
        ensures
            exists|ps: Seq<IVec3>|
                {
                    &&& ps.no_duplicates()
                    &&& forall|p: IVec3| #[trigger] ps.contains(p) <==> self.spec_allocations().contains_key(p)
                    &&& r@.len() == ps.len()
                    &&& forall|i: int| 0 <= i < ps.len() ==> r@[i] == indirect_command(self.spec_allocations()[#[trigger] ps[i]], multiplier)
                },
    {
        let ps = self.allocations.positions();
        let mut r: Vec<DrawIndirectCommand> = Vec::new();
        let mut i: usize = 0;
        while i < ps.len()
            invariant
                i <= ps@.len(),
                forall|p: IVec3| #[trigger] ps@.contains(p) <==> self.spec_allocations().contains_key(p),
                forall|p: IVec3| #[trigger] self.spec_allocations().contains_key(p) ==> self.spec_allocations()[p].back * multiplier <= u32::MAX
                    && self.spec_allocations()[p].front <= self.spec_allocations()[p].back,
                r@.len() == i,
                forall|j: int| 0 <= j < i ==> r@[j] == indirect_command(self.spec_allocations()[#[trigger] ps@[j]], multiplier),
            decreases ps@.len() - i,
        {
            let p = ps[i];
            assert(ps@.contains(p));
            let a = match self.allocations.get(p) {
                Some(a) => *a,
                None => ChunkBufferAllocation::new(0, 0),
            };
            assert(a.front * multiplier <= a.back * multiplier && (a.back - a.front) * multiplier <= a.back * multiplier) by (nonlinear_arith)
                requires a.front <= a.back;
            r.push(DrawIndirectCommand {
                vertex_count: (a.back - a.front) * multiplier,
                instance_count: 1,
                first_vertex: a.front * multiplier,
                first_instance: 0,
            });
            i = i + 1;
        }
        r
    }
}

} // verus!
