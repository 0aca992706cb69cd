use vstd::prelude::*;
use std::collections::VecDeque;
use crate::render::brick::brickmap::BrickmapPointerRaw;
use crate::util::int_vec::UVec3;
use crate::render::buffer::task_buffer::TaskTarget;

verus! {

/// The extent of the brick grid in sections along `x`, `y` and `z`.
pub const BRICKGRID_SIZE: [u32; 3] = [1024, 32, 1024];

/// The number of cells of the brick grid.
pub const BG_ARRAY_SIZE: usize = 33554432;

/// Every section position of the world maps to one pointer, by `morton_encode`.
#[derive(Copy, Clone, Debug)]
pub struct Brickgrid {
    pub pointers: [BrickmapPointerRaw; BG_ARRAY_SIZE],
}

impl Brickgrid {
    /// A grid whose every pointer is zero (not loaded).
    pub fn new_empty() -> (r: Self)
        ensures
            forall|i: int| 0 <= i < BG_ARRAY_SIZE ==> #[trigger] r.pointers[i].pointer == 0,
    {
        Self { pointers: [BrickmapPointerRaw { pointer: 0 }; BG_ARRAY_SIZE] }
    }
}

/// A write to the brick grid.
#[derive(Copy, Clone, Debug)]
pub enum BrickgridBufferTask {
    One { pos: UVec3, section: BrickmapPointerRaw },
}

/// The grid pointers after each task, in order, writes its pointer at the
/// index of its position.
pub open spec fn apply_grid_tasks(
    ptrs: Seq<BrickmapPointerRaw>,
    tasks: Seq<BrickgridBufferTask>,
) -> Seq<BrickmapPointerRaw>
    decreases tasks.len(),
{
    if tasks.len() == 0 {
        ptrs
    } else {
        match tasks[0] {
            BrickgridBufferTask::One { pos, section } => apply_grid_tasks(
                ptrs.update(morton_index(pos.x, pos.y, pos.z) as int, section),
                tasks.drop_first(),
            ),
        }
    }
}

/// Writing two lists of tasks one after the other is writing them joined.
proof fn lemma_grid_tasks_concat(
    ptrs: Seq<BrickmapPointerRaw>,
    a: Seq<BrickgridBufferTask>,
    b: Seq<BrickgridBufferTask>,
)
    ensures
        apply_grid_tasks(apply_grid_tasks(ptrs, a), b) == apply_grid_tasks(ptrs, a + b),
    decreases a.len(),
{
    if a.len() == 0 {
        assert(a + b =~= b);
    } else {
        match a[0] {
            BrickgridBufferTask::One { pos, section } => {
                assert((a + b).drop_first() =~= a.drop_first() + b);
                lemma_grid_tasks_concat(
                    ptrs.update(morton_index(pos.x, pos.y, pos.z) as int, section),
                    a.drop_first(),
                    b,
                );
            },
        }
    }
}

/// Writing the tasks keeps the number of pointers.
proof fn lemma_grid_tasks_len(ptrs: Seq<BrickmapPointerRaw>, tasks: Seq<BrickgridBufferTask>)
    requires
        ptrs.len() == BG_ARRAY_SIZE,
    ensures
        apply_grid_tasks(ptrs, tasks).len() == ptrs.len(),
    decreases tasks.len(),
{
    if tasks.len() > 0 {
        match tasks[0] {
            BrickgridBufferTask::One { pos, section } => {
                lemma_morton_index_bound(pos.x, pos.y, pos.z);
                lemma_grid_tasks_len(ptrs.update(morton_index(pos.x, pos.y, pos.z) as int, section), tasks.drop_first());
            },
        }
    }
}

/// The Morton index of any position lies in the grid.
pub proof fn lemma_morton_index_bound(x: u32, y: u32, z: u32)
    ensures
        morton_index(x, y, z) < BG_ARRAY_SIZE,
{
    lemma_prefix_bound(x, y, z, 5);
    assert((1u32 << 25u32) == 33554432u32) by (bit_vector);
}

/// Writing no task leaves the grid as it is; writing one more task at
/// position `(x, y, z)` puts its pointer at `morton_index(x, y, z)`, the
/// index that `morton_encode(x, y, z)` gives, and leaves every other pointer
/// as the earlier tasks left it.
pub proof fn lemma_grid_task_lands_at_morton_index(
    ptrs: Seq<BrickmapPointerRaw>,
    tasks: Seq<BrickgridBufferTask>,
    pos: UVec3,
    section: BrickmapPointerRaw,
)
    requires
        ptrs.len() == BG_ARRAY_SIZE,
    ensures
        apply_grid_tasks(ptrs, Seq::<BrickgridBufferTask>::empty()) == ptrs,
        apply_grid_tasks(ptrs, tasks.push(BrickgridBufferTask::One { pos, section })).len() == BG_ARRAY_SIZE,
        apply_grid_tasks(ptrs, tasks.push(BrickgridBufferTask::One { pos, section }))[morton_index(pos.x, pos.y, pos.z) as int]
            == section,
        forall|i: int|
            0 <= i < BG_ARRAY_SIZE && i != morton_index(pos.x, pos.y, pos.z) ==> #[trigger] apply_grid_tasks(
                ptrs,
                tasks.push(BrickgridBufferTask::One { pos, section }),
            )[i] == apply_grid_tasks(ptrs, tasks)[i],
{
    let t = BrickgridBufferTask::One { pos, section };
    reveal_with_fuel(apply_grid_tasks, 2);
    assert(apply_grid_tasks(ptrs, Seq::<BrickgridBufferTask>::empty()) == ptrs);
    lemma_grid_tasks_concat(ptrs, tasks, seq![t]);
    assert(tasks + seq![t] =~= tasks.push(t));
    lemma_grid_tasks_len(ptrs, tasks);
    lemma_morton_index_bound(pos.x, pos.y, pos.z);
    let mid = apply_grid_tasks(ptrs, tasks);
    assert(seq![t].drop_first() =~= Seq::<BrickgridBufferTask>::empty());
    assert(apply_grid_tasks(mid, seq![t]) == mid.update(morton_index(pos.x, pos.y, pos.z) as int, section));
}

impl TaskTarget<BrickgridBufferTask> for Brickgrid {
    type Cell = BrickmapPointerRaw;

    open spec fn contents(&self) -> Seq<BrickmapPointerRaw> {
        self.pointers@
    }

    open spec fn after_tasks(c: Seq<BrickmapPointerRaw>, tasks: Seq<BrickgridBufferTask>) -> Seq<BrickmapPointerRaw> {
        apply_grid_tasks(c, tasks)
    }

    proof fn lemma_after_tasks_concat(c: Seq<BrickmapPointerRaw>, a: Seq<BrickgridBufferTask>, b: Seq<BrickgridBufferTask>) {
        lemma_grid_tasks_concat(c, a, b);
    }

    proof fn lemma_after_no_tasks(c: Seq<BrickmapPointerRaw>) {
    }

    fn write_queue(queue: &mut VecDeque<BrickgridBufferTask>, target: &mut Self) {
        write_queue_buffer(queue, target);
    }
}

/// Writes a queue to a write lock and clears the queue.
pub fn write_queue_buffer(queue: &mut VecDeque<BrickgridBufferTask>, write_lock: &mut Brickgrid)
    ensures
        final(queue)@.len() == 0,
        final(write_lock).pointers@ == apply_grid_tasks(old(write_lock).pointers@, old(queue)@),
        old(queue)@.len() > 0 ==> ({
            let last = old(queue)@.last();
            final(write_lock).pointers@[morton_index(last->pos.x, last->pos.y, last->pos.z) as int] == last->section
        }),
{
    proof {
        if queue@.len() > 0 {
            let last = queue@.last();
            lemma_grid_task_lands_at_morton_index(write_lock.pointers@, queue@.drop_last(), last->pos, last->section);
            assert(queue@.drop_last().push(BrickgridBufferTask::One { pos: last->pos, section: last->section }) =~= queue@);
        }
    }
    while queue.len() > 0
        invariant
            apply_grid_tasks(write_lock.pointers@, queue@) == apply_grid_tasks(
                old(write_lock).pointers@,
                old(queue)@,
            ),
            write_lock.pointers@.len() == BG_ARRAY_SIZE,
        decreases queue@.len(),
    {
        let ghost before = queue@;
        let task = queue.pop_front().unwrap();
        proof {
            assert(queue@ == before.drop_first());
        }
        match task {
            BrickgridBufferTask::One { pos, section } => {
                let idx = morton_encode(pos.x, pos.y, pos.z);
                write_lock.pointers[idx] = section;
            },
        }
    }
}

/// Bit `k` of `v`.
pub open spec fn bit(v: u32, k: u32) -> u32 {
    (v >> k) & 1u32
}

/// The five bits that block `b` of the code takes from the coordinates, lowest
/// first: `z` bit `2b`, `y` bit `b`, `x` bit `2b`, `z` bit `2b + 1`, `x` bit `2b + 1`.
pub open spec fn morton_chunk(x: u32, y: u32, z: u32, b: u32) -> u32 {
    bit(z, (2 * b) as u32) | (bit(y, b) << 1u32) | (bit(x, (2 * b) as u32) << 2u32) | (bit(
        z,
        (2 * b + 1) as u32,
    ) << 3u32) | (bit(x, (2 * b + 1) as u32) << 4u32)
}

/// The first `n` five-bit blocks of the code, block `b` at bits `5b..5b+5`.
pub open spec fn morton_prefix(x: u32, y: u32, z: u32, n: nat) -> u32
    decreases n,
{
    if n == 0 {
        0
    } else {
        morton_prefix(x, y, z, (n - 1) as nat) | (morton_chunk(x, y, z, (n - 1) as u32) << (5 * (
        n - 1)) as u32)
    }
}

/// The interleaved index of a position in the brick grid: five blocks of
/// `XZ XYZ` bits (from the top), ten bits of `x` and `z` and five of `y`.
pub open spec fn morton_index(x: u32, y: u32, z: u32) -> u32 {
    morton_prefix(x, y, z, 5)
}

proof fn lemma_mask_bit(v: u32, k: u32)
    requires
        k < 32,
    ensures
        (v & (1u32 << k)) >> k == bit(v, k),
{
    assert((v & (1u32 << k)) >> k == (v >> k) & 1u32) by (bit_vector)
        requires
            k < 32,
    ;
}

proof fn lemma_chunk_small(x: u32, y: u32, z: u32, b: u32)
    ensures
        morton_chunk(x, y, z, b) < 32,
{
    let (a0, a1, a2, a3, a4) = (
        bit(z, (2 * b) as u32),
        bit(y, b),
        bit(x, (2 * b) as u32),
        bit(z, (2 * b + 1) as u32),
        bit(x, (2 * b + 1) as u32),
    );
    assert(a0 < 2 && a1 < 2 && a2 < 2 && a3 < 2 && a4 < 2) by {
        assert(forall|v: u32, k: u32| #[trigger] ((v >> k) & 1u32) < 2) by (bit_vector);
    }
    assert(a0 < 2 && a1 < 2 && a2 < 2 && a3 < 2 && a4 < 2 ==> (a0 | (a1 << 1u32) | (a2 << 2u32) | (
    a3 << 3u32) | (a4 << 4u32)) < 32) by (bit_vector);
}

proof fn lemma_prefix_step(p: u32, c: u32, s: u32)
    requires
        s <= 20,
        p < (1u32 << s),
        c < 32,
    ensures
        (p | (c << s)) < (1u32 << ((s + 5) as u32)),
        ((p | (c << s)) >> s) & 31u32 == c,
        forall|t: u32| t < s ==> #[trigger] (((p | (c << s)) >> t) & 1u32) == (p >> t) & 1u32,
{
    assert((p | (c << s)) < (1u32 << ((s + 5) as u32))) by (bit_vector)
        requires
            s <= 20,
            p < (1u32 << s),
            c < 32,
    ;
    assert(((p | (c << s)) >> s) & 31u32 == c) by (bit_vector)
        requires
            s <= 20,
            p < (1u32 << s),
            c < 32,
    ;
    assert forall|t: u32| t < s implies #[trigger] (((p | (c << s)) >> t) & 1u32) == (p >> t)
        & 1u32 by {
        assert(t < s && s <= 20 ==> (((p | (c << s)) >> t) & 1u32) == (p >> t) & 1u32)
            by (bit_vector);
    }
}

/// The prefix of `n` blocks fits in `5n` bits.
proof fn lemma_prefix_bound(x: u32, y: u32, z: u32, n: nat)
    requires
        n <= 5,
    ensures
        morton_prefix(x, y, z, n) < (1u32 << ((5 * n) as u32)),
    decreases n,
{
    if n == 0 {
        assert(0u32 < (1u32 << 0u32)) by (bit_vector);
    } else {
        lemma_prefix_bound(x, y, z, (n - 1) as nat);
        lemma_chunk_small(x, y, z, (n - 1) as u32);
        lemma_prefix_step(
            morton_prefix(x, y, z, (n - 1) as nat),
            morton_chunk(x, y, z, (n - 1) as u32),
            (5 * (n - 1)) as u32,
        );
    }
}

/// Interleaves the bits of a brick grid position into its index; bits above
/// the tenth of `x` and `z` and the fifth of `y` are ignored.
// XZ XYZ XZ XYZ XZ XYZ XZ XYZ XZ XYZ
pub fn morton_encode(x: u32, y: u32, z: u32) -> (r: usize)
    ensures
        r == morton_index(x, y, z),
        r < BG_ARRAY_SIZE,
{
    let mut i: u32 = 0;
    let mut b: u32 = 0;
    while b < 5
        invariant
            b <= 5,
            i == morton_prefix(x, y, z, b as nat),
        decreases 5 - b,
    {
        let mask: u32 = 1 << b;

        let b2: u32 = b * 2;
        let mask2: u32 = 1 << b2;

        let b21: u32 = b2 + 1;
        let mask21: u32 = 1 << b21;

        let zb = (z & mask2) >> b2;
        let yb = (y & mask) >> b;
        let xb = (x & mask2) >> b2;
        let zb2 = (z & mask21) >> b21;
        let xb2 = (x & mask21) >> b21;
        proof {
            lemma_mask_bit(z, b2);
            lemma_mask_bit(y, b);
            lemma_mask_bit(x, b2);
            lemma_mask_bit(z, b21);
            lemma_mask_bit(x, b21);
        }

        let append = zb | (yb << 1) | (xb << 2) | (zb2 << 3) | (xb2 << 4);
        proof {
            assert(append == morton_chunk(x, y, z, b));
        }
        i |= append << (b * 5);
        b = b + 1;
    }
    proof {
        lemma_prefix_bound(x, y, z, 5);
        assert((1u32 << 25u32) == 33554432u32) by (bit_vector);
    }
    i as usize
}

/// Bits `5b` to `5b + 4` of the Morton index are, from the lowest, bit `2b`
/// of `z`, bit `b` of `y`, bit `2b` of `x`, bit `2b + 1` of `z` and bit
/// `2b + 1` of `x`.
pub proof fn lemma_morton_bits(x: u32, y: u32, z: u32, b: u32)
    requires
        b < 5,
    ensures
        (morton_index(x, y, z) >> (5 * b) as u32) & 1u32 == (z >> (2 * b) as u32) & 1u32,
        (morton_index(x, y, z) >> (5 * b + 1) as u32) & 1u32 == (y >> b) & 1u32,
        (morton_index(x, y, z) >> (5 * b + 2) as u32) & 1u32 == (x >> (2 * b) as u32) & 1u32,
        (morton_index(x, y, z) >> (5 * b + 3) as u32) & 1u32 == (z >> (2 * b + 1) as u32) & 1u32,
        (morton_index(x, y, z) >> (5 * b + 4) as u32) & 1u32 == (x >> (2 * b + 1) as u32) & 1u32,
{
    lemma_morton_blocks(x, y, z, b);
    let idx = morton_index(x, y, z);
    let s = (5 * b) as u32;
    let a0 = (z >> (2 * b) as u32) & 1u32;
    let a1 = (y >> b) & 1u32;
    let a2 = (x >> (2 * b) as u32) & 1u32;
    let a3 = (z >> (2 * b + 1) as u32) & 1u32;
    let a4 = (x >> (2 * b + 1) as u32) & 1u32;
    assert(a0 < 2 && a1 < 2 && a2 < 2 && a3 < 2 && a4 < 2) by {
        assert(forall|v: u32, k: u32| #[trigger] ((v >> k) & 1u32) < 2) by (bit_vector);
    }
    let c = a0 | (a1 << 1u32) | (a2 << 2u32) | (a3 << 3u32) | (a4 << 4u32);
    assert(c == morton_chunk(x, y, z, b));
    assert((idx >> s) & 31u32 == c);
    assert({
        &&& (idx >> s) & 1u32 == a0
        &&& (idx >> ((s + 1) as u32)) & 1u32 == a1
        &&& (idx >> ((s + 2) as u32)) & 1u32 == a2
        &&& (idx >> ((s + 3) as u32)) & 1u32 == a3
        &&& (idx >> ((s + 4) as u32)) & 1u32 == a4
    }) by (bit_vector)
        requires
            s <= 20,
            a0 < 2 && a1 < 2 && a2 < 2 && a3 < 2 && a4 < 2,
            (idx >> s) & 31u32 == (a0 | (a1 << 1u32) | (a2 << 2u32) | (a3 << 3u32) | (a4 << 4u32)),
    ;
}

/// Block `b` of the index holds the chunk of coordinate bits for `b`.
pub proof fn lemma_morton_blocks(x: u32, y: u32, z: u32, b: u32)
    requires
        b < 5,
    ensures
        (morton_index(x, y, z) >> (5 * b) as u32) & 31u32 == morton_chunk(x, y, z, b),
{
    lemma_morton_blocks_rec(x, y, z, b, 5);
}

proof fn lemma_morton_blocks_rec(x: u32, y: u32, z: u32, b: u32, n: nat)
    requires
        b < n <= 5,
    ensures
        (morton_prefix(x, y, z, n) >> (5 * b) as u32) & 31u32 == morton_chunk(x, y, z, b),
    decreases n,
{
    let p = morton_prefix(x, y, z, (n - 1) as nat);
    let c = morton_chunk(x, y, z, (n - 1) as u32);
    let s = (5 * (n - 1)) as u32;
    lemma_prefix_bound(x, y, z, (n - 1) as nat);
    lemma_chunk_small(x, y, z, (n - 1) as u32);
    lemma_prefix_step(p, c, s);
    if b + 1 < n {
        lemma_morton_blocks_rec(x, y, z, b, (n - 1) as nat);
        let t = (5 * b) as u32;
        let q = p | (c << s);
        assert((q >> t) & 31u32 == (p >> t) & 31u32) by (bit_vector)
            requires
                t + 5 <= s,
                s <= 20,
                p < (1u32 << s),
                c < 32,
                q == p | (c << s),
        ;
    }
}

proof fn lemma_chunk_bits(x: u32, y: u32, z: u32, x2: u32, y2: u32, z2: u32, b: u32)
    requires
        morton_chunk(x, y, z, b) == morton_chunk(x2, y2, z2, b),
    ensures
        bit(z, (2 * b) as u32) == bit(z2, (2 * b) as u32),
        bit(y, b) == bit(y2, b),
        bit(x, (2 * b) as u32) == bit(x2, (2 * b) as u32),
        bit(z, (2 * b + 1) as u32) == bit(z2, (2 * b + 1) as u32),
        bit(x, (2 * b + 1) as u32) == bit(x2, (2 * b + 1) as u32),
{
    let (a0, a1, a2, a3, a4) = (
        bit(z, (2 * b) as u32),
        bit(y, b),
        bit(x, (2 * b) as u32),
        bit(z, (2 * b + 1) as u32),
        bit(x, (2 * b + 1) as u32),
    );
    let (c0, c1, c2, c3, c4) = (
        bit(z2, (2 * b) as u32),
        bit(y2, b),
        bit(x2, (2 * b) as u32),
        bit(z2, (2 * b + 1) as u32),
        bit(x2, (2 * b + 1) as u32),
    );
    assert(forall|v: u32, k: u32| #[trigger] ((v >> k) & 1u32) < 2) by (bit_vector);
    assert(a0 < 2 && a1 < 2 && a2 < 2 && a3 < 2 && a4 < 2 && c0 < 2 && c1 < 2 && c2 < 2 && c3 < 2
        && c4 < 2 && (a0 | (a1 << 1u32) | (a2 << 2u32) | (a3 << 3u32) | (a4 << 4u32)) == (c0 | (c1
        << 1u32) | (c2 << 2u32) | (c3 << 3u32) | (c4 << 4u32)) ==> a0 == c0 && a1 == c1 && a2 == c2
        && a3 == c3 && a4 == c4) by (bit_vector);
}

proof fn lemma_bits_eq_10(v: u32, w: u32)
    requires
        v < 1024,
        w < 1024,
        forall|k: u32| k < 10 ==> #[trigger] bit(v, k) == bit(w, k),
    ensures
        v == w,
{
    assert(bit(v, 0) == bit(w, 0));
    assert(bit(v, 1) == bit(w, 1));
    assert(bit(v, 2) == bit(w, 2));
    assert(bit(v, 3) == bit(w, 3));
    assert(bit(v, 4) == bit(w, 4));
    assert(bit(v, 5) == bit(w, 5));
    assert(bit(v, 6) == bit(w, 6));
    assert(bit(v, 7) == bit(w, 7));
    assert(bit(v, 8) == bit(w, 8));
    assert(bit(v, 9) == bit(w, 9));
    assert(v < 1024 && w < 1024 && (v >> 0u32) & 1u32 == (w >> 0u32) & 1u32 && (v >> 1u32) & 1u32
        == (w >> 1u32) & 1u32 && (v >> 2u32) & 1u32 == (w >> 2u32) & 1u32 && (v >> 3u32) & 1u32 == (w
        >> 3u32) & 1u32 && (v >> 4u32) & 1u32 == (w >> 4u32) & 1u32 && (v >> 5u32) & 1u32 == (w
        >> 5u32) & 1u32 && (v >> 6u32) & 1u32 == (w >> 6u32) & 1u32 && (v >> 7u32) & 1u32 == (w
        >> 7u32) & 1u32 && (v >> 8u32) & 1u32 == (w >> 8u32) & 1u32 && (v >> 9u32) & 1u32 == (w
        >> 9u32) & 1u32 ==> v == w) by (bit_vector);
}

/// Distinct positions inside the brick grid get distinct indices: no two
/// sections share a cell of the grid.
pub proof fn lemma_morton_injective(x: u32, y: u32, z: u32, x2: u32, y2: u32, z2: u32)
    requires
        x < 1024,
        y < 32,
        z < 1024,
        x2 < 1024,
        y2 < 32,
        z2 < 1024,
        morton_index(x, y, z) == morton_index(x2, y2, z2),
    ensures
        x == x2 && y == y2 && z == z2,
{
    assert forall|b: u32| b < 5 implies morton_chunk(x, y, z, b) == morton_chunk(x2, y2, z2, b) by {
        lemma_morton_blocks(x, y, z, b);
        lemma_morton_blocks(x2, y2, z2, b);
    }
    assert forall|k: u32| k < 10 implies #[trigger] bit(x, k) == bit(x2, k) by {
        lemma_chunk_bits(x, y, z, x2, y2, z2, k / 2);
    }
    assert forall|k: u32| k < 10 implies #[trigger] bit(z, k) == bit(z2, k) by {
        lemma_chunk_bits(x, y, z, x2, y2, z2, k / 2);
    }
    assert forall|k: u32| k < 10 implies #[trigger] bit(y, k) == bit(y2, k) by {
        if k < 5 {
            lemma_chunk_bits(x, y, z, x2, y2, z2, k);
        } else {
            assert(y < 32 && k >= 5 && k < 10 ==> (y >> k) & 1u32 == 0) by (bit_vector);
            assert(y2 < 32 && k >= 5 && k < 10 ==> (y2 >> k) & 1u32 == 0) by (bit_vector);
        }
    }
    lemma_bits_eq_10(x, x2);
    lemma_bits_eq_10(y, y2);
    lemma_bits_eq_10(z, z2);
}

} // verus!
