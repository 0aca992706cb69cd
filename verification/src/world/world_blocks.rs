use vstd::prelude::*;
use crate::util::int_vec::IVec2;
use crate::world::chunk_map::ChunkMap;

verus! {

/// The direction of the next move of the spiral walk.
#[derive(Copy, Clone, Debug, PartialEq, Eq, Structural)]
pub enum SpiralStep {
    Up,
    Down,
    Left,
    Right,
}

/// The direction after a turn: right, up, left, down, right again.
pub open spec fn next_step(s: SpiralStep) -> SpiralStep {
    match s {
        SpiralStep::Right => SpiralStep::Up,
        SpiralStep::Up => SpiralStep::Left,
        SpiralStep::Left => SpiralStep::Down,
        SpiralStep::Down => SpiralStep::Right,
    }
}

impl SpiralStep {
    /// Turns to the next direction, counter-clockwise.
    pub fn next(&mut self)
        ensures
            *final(self) == next_step(*old(self)),
    {
        match self {
            Self::Right => *self = Self::Up,
            Self::Up => *self = Self::Left,
            Self::Left => *self = Self::Down,
            Self::Down => *self = Self::Right,
        }
    }
}

/// The walk's state: position, direction, moves left on this side, length of
/// the side, and whether the next turn lengthens the sides.
pub struct SpiralState {
    pub x: int,
    pub y: int,
    pub step: SpiralStep,
    pub steps_left: int,
    pub step_amount: int,
    pub up_step: bool,
}

pub open spec fn step_dx(s: SpiralStep) -> int {
    match s {
        SpiralStep::Right => 1,
        SpiralStep::Left => -1,
        _ => 0,
    }
}

pub open spec fn step_dy(s: SpiralStep) -> int {
    match s {
        SpiralStep::Up => 1,
        SpiralStep::Down => -1,
        _ => 0,
    }
}

/// How far `j` moves in direction `s` go along `x`.
pub open spec fn offset_x(s: SpiralStep, j: int) -> int {
    match s {
        SpiralStep::Right => j,
        SpiralStep::Left => -j,
        _ => 0,
    }
}

/// How far `j` moves in direction `s` go along `y`.
pub open spec fn offset_y(s: SpiralStep, j: int) -> int {
    match s {
        SpiralStep::Up => j,
        SpiralStep::Down => -j,
        _ => 0,
    }
}

/// One move of the walk, turning at the end of a side; every second turn the sides grow by one.
pub open spec fn spiral_advance(s: SpiralState) -> SpiralState {
    let left = s.steps_left - 1;
    if left == 0 {
        let amount = if s.up_step {
            s.step_amount + 1
        } else {
            s.step_amount
        };
        SpiralState {
            x: s.x + step_dx(s.step),
            y: s.y + step_dy(s.step),
            step: next_step(s.step),
            steps_left: amount,
            step_amount: amount,
            up_step: !s.up_step,
        }
    } else {
        SpiralState {
            x: s.x + step_dx(s.step),
            y: s.y + step_dy(s.step),
            step: s.step,
            steps_left: left,
            step_amount: s.step_amount,
            up_step: s.up_step,
        }
    }
}

/// The state after `n` moves from `s`.
pub open spec fn spiral_iter(s: SpiralState, n: nat) -> SpiralState
    decreases n,
{
    if n == 0 {
        s
    } else {
        spiral_advance(spiral_iter(s, (n - 1) as nat))
    }
}

/// The walk's state after `n` moves from `center`: sides of 1, 1, 2, 2, 3, 3, ...
/// going right, up, left and down in turn.
pub open spec fn spiral_state(center: IVec2, n: nat) -> SpiralState {
    spiral_iter(
        SpiralState {
            x: center.x as int,
            y: center.y as int,
            step: SpiralStep::Right,
            steps_left: 1,
            step_amount: 1,
            up_step: false,
        },
        n,
    )
}

/// The position the walk reaches after `n` moves from `center`.
pub open spec fn spiral_pos(center: IVec2, n: nat) -> (int, int) {
    (spiral_state(center, n).x, spiral_state(center, n).y)
}

/// The larger of the distances along `x` and along `y`.
pub open spec fn chebyshev(p: (int, int), c: IVec2) -> int {
    let dx = if p.0 >= c.x { p.0 - c.x } else { c.x - p.0 };
    let dy = if p.1 >= c.y { p.1 - c.y } else { c.y - p.1 };
    if dx >= dy {
        dx
    } else {
        dy
    }
}

pub open spec fn as_ivec(p: (int, int)) -> IVec2 {
    IVec2 { x: p.0 as i32, y: p.1 as i32 }
}

/// The positions among the first `n` of the walk that are not loaded, in walk order.
pub open spec fn unloaded_prefix(loaded: Set<IVec2>, center: IVec2, n: nat) -> Seq<IVec2>
    decreases n,
{
    if n == 0 {
        Seq::empty()
    } else {
        let p = as_ivec(spiral_pos(center, (n - 1) as nat));
        let rest = unloaded_prefix(loaded, center, (n - 1) as nat);
        if loaded.contains(p) {
            rest
        } else {
            rest.push(p)
        }
    }
}

proof fn lemma_iter_add(s: SpiralState, a: nat, b: nat)
    ensures
        spiral_iter(spiral_iter(s, a), b) == spiral_iter(s, a + b),
    decreases b,
{
    if b > 0 {
        lemma_iter_add(s, a, (b - 1) as nat);
    }
}

/// Inside a side, each move goes one further in the same direction.
proof fn lemma_side(s: SpiralState, j: nat)
    requires
        j < s.steps_left,
    ensures
        spiral_iter(s, j) == (SpiralState {
            x: s.x + offset_x(s.step, j as int),
            y: s.y + offset_y(s.step, j as int),
            step: s.step,
            steps_left: s.steps_left - j,
            step_amount: s.step_amount,
            up_step: s.up_step,
        }),
    decreases j,
{
    if j > 0 {
        lemma_side(s, (j - 1) as nat);
    }
}

/// At the end of a side the walk turns.
proof fn lemma_side_end(s: SpiralState)
    requires
        s.steps_left >= 1,
    ensures
        spiral_iter(s, s.steps_left as nat) == (SpiralState {
            x: s.x + offset_x(s.step, s.steps_left),
            y: s.y + offset_y(s.step, s.steps_left),
            step: next_step(s.step),
            steps_left: if s.up_step { s.step_amount + 1 } else { s.step_amount },
            step_amount: if s.up_step { s.step_amount + 1 } else { s.step_amount },
            up_step: !s.up_step,
        }),
{
    let l = s.steps_left;
    lemma_side(s, (l - 1) as nat);
    assert(spiral_iter(s, l as nat) == spiral_advance(spiral_iter(s, (l - 1) as nat)));
}

/// The start of ring `k`: after `2k(2k+1)` moves the walk stands at `(-k, -k)`
/// from the centre, about to go right for `2k + 1` moves.
proof fn lemma_ring(center: IVec2, k: nat)
    ensures
        spiral_state(center, 2 * k * (2 * k + 1)) == (SpiralState {
            x: center.x - k,
            y: center.y - k,
            step: SpiralStep::Right,
            steps_left: (2 * k + 1) as int,
            step_amount: (2 * k + 1) as int,
            up_step: false,
        }),
    decreases k,
{
    let s0 = spiral_state(center, 0);
    if k == 0 {
        assert(2 * k * (2 * k + 1) == 0) by (nonlinear_arith)
            requires
                k == 0,
        ;
    } else {
        let k1 = (k - 1) as nat;
        lemma_ring(center, k1);
        let n0: nat = 2 * k1 * (2 * k1 + 1);
        let r = spiral_state(center, n0);
        let a: int = (2 * k1 + 1) as int;
        lemma_side_end(r);
        let r1 = spiral_iter(r, a as nat);
        assert(r1 == (SpiralState { x: center.x - k1 + a, y: center.y - k1, step: SpiralStep::Up, steps_left: a, step_amount: a, up_step: true }));
        lemma_side_end(r1);
        let r2 = spiral_iter(r1, a as nat);
        assert(r2 == (SpiralState { x: center.x - k1 + a, y: center.y - k1 + a, step: SpiralStep::Left, steps_left: a + 1, step_amount: a + 1, up_step: false }));
        lemma_side_end(r2);
        let r3 = spiral_iter(r2, (a + 1) as nat);
        assert(r3 == (SpiralState { x: center.x - k1 - 1, y: center.y - k1 + a, step: SpiralStep::Down, steps_left: a + 1, step_amount: a + 1, up_step: true }));
        lemma_side_end(r3);
        let r4 = spiral_iter(r3, (a + 1) as nat);
        assert(r4 == (SpiralState { x: center.x - k, y: center.y - k, step: SpiralStep::Right, steps_left: (2 * k + 1) as int, step_amount: (2 * k + 1) as int, up_step: false }));
        lemma_iter_add(r, a as nat, a as nat);
        lemma_iter_add(r, (2 * a) as nat, (a + 1) as nat);
        lemma_iter_add(r, (3 * a + 1) as nat, (a + 1) as nat);
        assert(spiral_iter(r, (4 * a + 2) as nat) == r4);
        lemma_iter_add(s0, n0, (4 * a + 2) as nat);
        assert(n0 + 4 * a + 2 == 2 * k * (2 * k + 1)) by (nonlinear_arith)
            requires
                n0 == 2 * k1 * (2 * k1 + 1),
                a == 2 * k1 + 1,
                k == k1 + 1,
        ;
        assert(spiral_state(center, (n0 + 4 * a + 2) as nat) == r4);
    }
}

/// After `(2R + 1)^2` moves the walk stands `R + 1` away from the centre.
proof fn lemma_walk_leaves(center: IVec2, r: nat)
    ensures
        chebyshev(spiral_pos(center, ((2 * r + 1) * (2 * r + 1)) as nat), center) == r + 1,
{
    lemma_ring(center, r);
    let n0: nat = 2 * r * (2 * r + 1);
    let s = spiral_state(center, n0);
    lemma_side_end(s);
    lemma_iter_add(spiral_state(center, 0), n0, (2 * r + 1) as nat);
    assert(n0 + 2 * r + 1 == (2 * r + 1) * (2 * r + 1)) by (nonlinear_arith)
        requires
            n0 == 2 * r * (2 * r + 1),
    ;
}

/// Where move `(2k - 1)^2 + t` of the walk stands, relative to the centre,
/// for `t < 8k`: ring `k` is walked up its right side, then left along its
/// top, down its left side and right along its bottom.
pub open spec fn ring_offset(k: int, t: int) -> (int, int) {
    if t < 2 * k {
        (k, t - k + 1)
    } else if t < 4 * k {
        (3 * k - 1 - t, k)
    } else if t < 6 * k {
        (-k, 5 * k - 1 - t)
    } else {
        (t - 7 * k + 1, -k)
    }
}

/// The moves of ring `k` stand where `ring_offset` says.
proof fn lemma_ring_positions(center: IVec2, k: nat, t: nat)
    requires
        k >= 1,
        t < 8 * k,
    ensures
        spiral_pos(center, ((2 * k - 1) * (2 * k - 1) + t) as nat) == (
            center.x + ring_offset(k as int, t as int).0,
            center.y + ring_offset(k as int, t as int).1,
        ),
{
    let k1 = (k - 1) as nat;
    lemma_ring(center, k1);
    let n0: nat = 2 * k1 * (2 * k1 + 1);
    let s0 = spiral_state(center, 0);
    let s = spiral_state(center, n0);
    let a: nat = (2 * k - 1) as nat;
    assert(n0 + a == (2 * k - 1) * (2 * k - 1)) by (nonlinear_arith)
        requires
            n0 == 2 * k1 * (2 * k1 + 1),
            k1 + 1 == k,
            a == 2 * k - 1,
    ;
    lemma_side_end(s);
    let s1 = spiral_iter(s, a);
    assert(s1 == (SpiralState { x: center.x + k, y: center.y - k + 1, step: SpiralStep::Up, steps_left: a as int, step_amount: a as int, up_step: true }));
    lemma_side_end(s1);
    let s2 = spiral_iter(s1, a);
    assert(s2 == (SpiralState { x: center.x + k, y: center.y + k, step: SpiralStep::Left, steps_left: (2 * k) as int, step_amount: (2 * k) as int, up_step: false }));
    lemma_side_end(s2);
    let s3 = spiral_iter(s2, 2 * k);
    assert(s3 == (SpiralState { x: center.x - k, y: center.y + k, step: SpiralStep::Down, steps_left: (2 * k) as int, step_amount: (2 * k) as int, up_step: true }));
    lemma_side_end(s3);
    let s4 = spiral_iter(s3, 2 * k);
    assert(s4 == (SpiralState { x: center.x - k, y: center.y - k, step: SpiralStep::Right, steps_left: (2 * k + 1) as int, step_amount: (2 * k + 1) as int, up_step: false }));
    lemma_iter_add(s0, n0, a + t);
    lemma_iter_add(s, a, t);
    if t < a {
        lemma_side(s1, t);
    } else if t < 4 * k - 1 {
        let j = (t - a) as nat;
        lemma_iter_add(s1, a, j);
        assert(a + t == a + a + j);
        if j < 2 * k {
            lemma_side(s2, j);
        }
    } else if t < 6 * k - 1 {
        let j = (t - (4 * k - 1)) as nat;
        lemma_iter_add(s1, a, (2 * k + j) as nat);
        lemma_iter_add(s2, 2 * k, j);
        if j < 2 * k {
            lemma_side(s3, j);
        }
    } else {
        let j = (t - (6 * k - 1)) as nat;
        lemma_iter_add(s1, a, (4 * k + j) as nat);
        lemma_iter_add(s2, 2 * k, (2 * k + j) as nat);
        lemma_iter_add(s3, 2 * k, j);
        lemma_side(s4, j);
    }
}

/// Every move after the first lies in exactly one ring: `n = (2k - 1)^2 + t`
/// with `k >= 1` and `t < 8k`.
proof fn lemma_ring_of(n: nat) -> (r: (nat, nat))
    requires
        n >= 1,
    ensures
        r.0 >= 1,
        r.1 < 8 * r.0,
        n == (2 * r.0 - 1) * (2 * r.0 - 1) + r.1,
    decreases n,
{
    if n == 1 {
        assert((2 * 1 - 1) * (2 * 1 - 1) + 0 == 1) by (nonlinear_arith);
        (1, 0)
    } else {
        let (k, t) = lemma_ring_of((n - 1) as nat);
        if t + 1 < 8 * k {
            assert(n == (2 * k - 1) * (2 * k - 1) + (t + 1));
            (k, t + 1)
        } else {
            assert((2 * k - 1) * (2 * k - 1) + 8 * k == (2 * (k + 1) - 1) * (2 * (k + 1) - 1)) by (nonlinear_arith);
            (k + 1, 0)
        }
    }
}

/// The moves of ring `k` are `k` away from the centre.
proof fn lemma_ring_distance(center: IVec2, k: nat, t: nat)
    requires
        k >= 1,
        t < 8 * k,
    ensures
        chebyshev(spiral_pos(center, ((2 * k - 1) * (2 * k - 1) + t) as nat), center) == k,
{
    lemma_ring_positions(center, k, t);
}

/// Two moves of one ring stand at different places.
proof fn lemma_ring_distinct(k: int, t1: int, t2: int)
    requires
        k >= 1,
        0 <= t1 < 8 * k,
        0 <= t2 < 8 * k,
        t1 != t2,
    ensures
        ring_offset(k, t1) != ring_offset(k, t2),
{
}

/// Every place `k >= 1` away from the centre is a move of ring `k`.
proof fn lemma_ring_covers(k: int, dx: int, dy: int) -> (t: int)
    requires
        k >= 1,
        (dx == k || dx == -k) && -k <= dy <= k || (dy == k || dy == -k) && -k <= dx <= k,
    ensures
        0 <= t < 8 * k,
        ring_offset(k, t) == (dx, dy),
{
    if dx == k && dy >= -k + 1 {
        dy + k - 1
    } else if dy == k && dx <= k - 1 {
        3 * k - 1 - dx
    } else if dx == -k && dy <= k - 1 {
        5 * k - 1 - dy
    } else {
        dx + 7 * k - 1
    }
}

/// How far move `n` of the walk stands from the centre.
pub open spec fn move_ring(n: nat) -> int
    decreases n,
{
    if n == 0 {
        0
    } else {
        let r = move_ring((n - 1) as nat);
        if n == (2 * r + 1) * (2 * r + 1) {
            r + 1
        } else {
            r
        }
    }
}

/// Move `n` lies in ring `move_ring(n)`: it is that far from the centre, and
/// the ring's moves start at `(2k - 1)^2` and end before `(2k + 1)^2`.
proof fn lemma_move_ring(center: IVec2, n: nat)
    ensures
        chebyshev(spiral_pos(center, n), center) == move_ring(n),
        move_ring(n) >= 0,
        n == 0 <==> move_ring(n) == 0,
        move_ring(n) >= 1 ==> (2 * move_ring(n) - 1) * (2 * move_ring(n) - 1) <= n < (2 * move_ring(n) + 1) * (2 * move_ring(n) + 1),
    decreases n,
{
    if n == 0 {
        assert(spiral_pos(center, 0) == (center.x as int, center.y as int));
    } else {
        lemma_move_ring(center, (n - 1) as nat);
        let r = move_ring((n - 1) as nat);
        let k = move_ring(n);
        assert(k == if n == (2 * r + 1) * (2 * r + 1) { r + 1 } else { r });
        if r == 0 {
            assert(n == 1);
            assert((2 * r + 1) * (2 * r + 1) == 1) by (nonlinear_arith)
                requires r == 0;
            assert(k == 1);
            assert((2 * k - 1) * (2 * k - 1) == 1 && (2 * k + 1) * (2 * k + 1) == 9) by (nonlinear_arith)
                requires k == 1;
        } else if n == (2 * r + 1) * (2 * r + 1) {
            assert(k == r + 1);
            assert((2 * k - 1) * (2 * k - 1) == n && n < (2 * k + 1) * (2 * k + 1)) by (nonlinear_arith)
                requires k == r + 1, n == (2 * r + 1) * (2 * r + 1), r >= 1;
        } else {
            assert(k == r);
            assert(n - 1 < (2 * r + 1) * (2 * r + 1));
        }
        assert(k >= 1);
        let (kk, t) = lemma_ring_of(n);
        assert((2 * kk - 1) * (2 * kk - 1) + 8 * kk == (2 * kk + 1) * (2 * kk + 1)) by (nonlinear_arith);
        assert(kk == k) by {
            if kk < k {
                assert((2 * kk + 1) * (2 * kk + 1) <= (2 * k - 1) * (2 * k - 1)) by (nonlinear_arith)
                    requires 1 <= kk < k;
            } else if kk > k {
                assert((2 * k + 1) * (2 * k + 1) <= (2 * kk - 1) * (2 * kk - 1)) by (nonlinear_arith)
                    requires 1 <= k < kk;
            }
        }
        lemma_ring_distance(center, kk, t);
    }
}

/// Rings only grow along the walk.
proof fn lemma_move_ring_monotone(n1: nat, n2: nat)
    requires
        n1 <= n2,
    ensures
        move_ring(n1) <= move_ring(n2),
    decreases n2,
{
    if n1 < n2 {
        lemma_move_ring_monotone(n1, (n2 - 1) as nat);
    }
}

/// The walk never stands twice at one place.
pub proof fn lemma_spiral_distinct(center: IVec2, n1: nat, n2: nat)
    requires
        n1 != n2,
    ensures
        spiral_pos(center, n1) != spiral_pos(center, n2),
{
    lemma_move_ring(center, n1);
    lemma_move_ring(center, n2);
    if move_ring(n1) == move_ring(n2) && n1 != 0 && n2 != 0 {
        let (k1, t1) = lemma_ring_of(n1);
        let (k2, t2) = lemma_ring_of(n2);
        lemma_ring_distance(center, k1, t1);
        lemma_ring_distance(center, k2, t2);
        lemma_ring_positions(center, k1, t1);
        lemma_ring_positions(center, k2, t2);
        lemma_ring_distinct(k1 as int, t1 as int, t2 as int);
    }
}

/// Every place within `R` of the centre is one of the first `(2R + 1)^2` moves.
pub proof fn lemma_spiral_covers(center: IVec2, r: nat, x: int, y: int) -> (n: nat)
    requires
        chebyshev((x, y), center) <= r,
    ensures
        n < (2 * r + 1) * (2 * r + 1),
        spiral_pos(center, n) == (x, y),
{
    let k = chebyshev((x, y), center);
    if k == 0 {
        assert(spiral_pos(center, 0) == (center.x as int, center.y as int));
        assert(0 < (2 * r + 1) * (2 * r + 1)) by (nonlinear_arith);
        0
    } else {
        let t = lemma_ring_covers(k, x - center.x, y - center.y);
        lemma_ring_positions(center, k as nat, t as nat);
        assert((2 * k - 1) * (2 * k - 1) + t < (2 * r + 1) * (2 * r + 1)) by (nonlinear_arith)
            requires 1 <= k <= r, 0 <= t < 8 * k;
        ((2 * k - 1) * (2 * k - 1) + t) as nat
    }
}

/// The moves among the first `n` whose position is not loaded, in walk order.
spec fn unloaded_moves(loaded: Set<IVec2>, center: IVec2, n: nat) -> Seq<nat>
    decreases n,
{
    if n == 0 {
        Seq::empty()
    } else {
        let rest = unloaded_moves(loaded, center, (n - 1) as nat);
        if loaded.contains(as_ivec(spiral_pos(center, (n - 1) as nat))) {
            rest
        } else {
            rest.push((n - 1) as nat)
        }
    }
}

proof fn lemma_unloaded_moves(loaded: Set<IVec2>, center: IVec2, n: nat)
    ensures
        unloaded_prefix(loaded, center, n).len() == unloaded_moves(loaded, center, n).len(),
        forall|i: int| 0 <= i < unloaded_moves(loaded, center, n).len() ==> {
            &&& unloaded_prefix(loaded, center, n)[i] == as_ivec(spiral_pos(center, #[trigger] unloaded_moves(loaded, center, n)[i]))
            &&& unloaded_moves(loaded, center, n)[i] < n
            &&& !loaded.contains(as_ivec(spiral_pos(center, unloaded_moves(loaded, center, n)[i])))
        },
        forall|i1: int, i2: int| 0 <= i1 < i2 < unloaded_moves(loaded, center, n).len() ==> #[trigger] unloaded_moves(loaded, center, n)[i1]
            < #[trigger] unloaded_moves(loaded, center, n)[i2],
        forall|j: nat| j < n && !loaded.contains(as_ivec(#[trigger] spiral_pos(center, j))) ==> unloaded_moves(loaded, center, n).contains(j),
    decreases n,
{
    if n > 0 {
        let m = (n - 1) as nat;
        lemma_unloaded_moves(loaded, center, m);
        let moves = unloaded_moves(loaded, center, n);
        let prev = unloaded_moves(loaded, center, m);
        assert forall|j: nat| j < n && !loaded.contains(as_ivec(#[trigger] spiral_pos(center, j))) implies moves.contains(j) by {
            if j < m {
                let i = choose|i: int| 0 <= i < prev.len() && prev[i] == j;
                assert(moves[i] == j);
            } else {
                assert(moves[moves.len() - 1] == j);
            }
        }
    }
}

/// Where the walk stays within `rd` of a centre at least `rd + 1` inside the
/// range of `i32`, its positions are the chunk positions of the same coordinates.
proof fn lemma_in_range_position(center: IVec2, rd: nat, j: nat)
    requires
        rd < 0x4000_0000,
        i32::MIN + rd + 1 <= center.x <= i32::MAX - rd - 1,
        i32::MIN + rd + 1 <= center.y <= i32::MAX - rd - 1,
        chebyshev(spiral_pos(center, j), center) <= rd,
    ensures
        as_ivec(spiral_pos(center, j)).x == spiral_pos(center, j).0,
        as_ivec(spiral_pos(center, j)).y == spiral_pos(center, j).1,
        chebyshev((as_ivec(spiral_pos(center, j)).x as int, as_ivec(spiral_pos(center, j)).y as int), center) == chebyshev(spiral_pos(center, j), center),
{
}

/// What the closest unloaded chunks are: each once, none loaded, all within
/// the render distance, nearer rings before farther ones, and, when fewer
/// than asked for were found, every unloaded position within the render
/// distance among them.
pub proof fn lemma_closest_unloaded(loaded: Set<IVec2>, center: IVec2, num: nat, rd: nat, n: nat)
    requires
        rd < 0x4000_0000,
        i32::MIN + rd + 1 <= center.x <= i32::MAX - rd - 1,
        i32::MIN + rd + 1 <= center.y <= i32::MAX - rd - 1,
        forall|j: nat| #![trigger spiral_pos(center, j)]
            j < n ==> chebyshev(spiral_pos(center, j), center) <= rd
                && unloaded_prefix(loaded, center, j).len() < num,
        unloaded_prefix(loaded, center, n).len() >= num || chebyshev(spiral_pos(center, n), center) > rd,
    ensures
        unloaded_prefix(loaded, center, n).no_duplicates(),
        forall|i: int| 0 <= i < unloaded_prefix(loaded, center, n).len() ==> {
            let p = #[trigger] unloaded_prefix(loaded, center, n)[i];
            !loaded.contains(p) && chebyshev((p.x as int, p.y as int), center) <= rd
        },
        forall|i1: int, i2: int| 0 <= i1 <= i2 < unloaded_prefix(loaded, center, n).len() ==> chebyshev(
            (#[trigger] unloaded_prefix(loaded, center, n)[i1].x as int, unloaded_prefix(loaded, center, n)[i1].y as int),
            center,
        ) <= chebyshev((#[trigger] unloaded_prefix(loaded, center, n)[i2].x as int, unloaded_prefix(loaded, center, n)[i2].y as int), center),
        unloaded_prefix(loaded, center, n).len() < num ==> forall|p: IVec2|
            !loaded.contains(p) && chebyshev((p.x as int, p.y as int), center) <= rd ==> #[trigger] unloaded_prefix(loaded, center, n).contains(p),
{
    let r = unloaded_prefix(loaded, center, n);
    let moves = unloaded_moves(loaded, center, n);
    lemma_unloaded_moves(loaded, center, n);
    assert forall|i: int| 0 <= i < r.len() implies {
        let p = #[trigger] r[i];
        !loaded.contains(p) && chebyshev((p.x as int, p.y as int), center) <= rd
    } by {
        let j = moves[i];
        assert(chebyshev(spiral_pos(center, j), center) <= rd);
        lemma_in_range_position(center, rd, j);
    }
    assert forall|i1: int, i2: int| 0 <= i1 < i2 < r.len() implies r[i1] != r[i2] by {
        let j1 = moves[i1];
        let j2 = moves[i2];
        assert(chebyshev(spiral_pos(center, j1), center) <= rd);
        assert(chebyshev(spiral_pos(center, j2), center) <= rd);
        lemma_in_range_position(center, rd, j1);
        lemma_in_range_position(center, rd, j2);
        lemma_spiral_distinct(center, j1, j2);
    }
    assert forall|i1: int, i2: int| 0 <= i1 <= i2 < r.len() implies chebyshev(
        (#[trigger] r[i1].x as int, r[i1].y as int),
        center,
    ) <= chebyshev((#[trigger] r[i2].x as int, r[i2].y as int), center) by {
        let j1 = moves[i1];
        let j2 = moves[i2];
        assert(chebyshev(spiral_pos(center, j1), center) <= rd);
        assert(chebyshev(spiral_pos(center, j2), center) <= rd);
        lemma_in_range_position(center, rd, j1);
        lemma_in_range_position(center, rd, j2);
        lemma_move_ring(center, j1);
        lemma_move_ring(center, j2);
        lemma_move_ring_monotone(j1, j2);
    }
    if r.len() < num {
        assert forall|p: IVec2| !loaded.contains(p) && chebyshev((p.x as int, p.y as int), center) <= rd implies #[trigger] r.contains(p) by {
            let j = lemma_spiral_covers(center, rd, p.x as int, p.y as int);
            if j >= n {
                lemma_move_ring(center, n);
                lemma_move_ring(center, j);
                lemma_move_ring_monotone(n, j);
            }
            assert(as_ivec(spiral_pos(center, j)) == p);
            assert(moves.contains(j));
            let i = choose|i: int| 0 <= i < moves.len() && moves[i] == j;
            assert(r[i] == p);
        }
    }
}

/// Sides are at most as long as the number of moves made plus one.
proof fn lemma_state_bounds(center: IVec2, n: nat)
    ensures
        1 <= spiral_state(center, n).steps_left <= spiral_state(center, n).step_amount <= n + 1,
    decreases n,
{
    if n > 0 {
        lemma_state_bounds(center, (n - 1) as nat);
    }
}

proof fn lemma_walk_step(loaded: Set<IVec2>, center: IVec2, n: nat)
    ensures
        spiral_state(center, n + 1) == spiral_advance(spiral_state(center, n)),
        unloaded_prefix(loaded, center, n + 1) == if loaded.contains(as_ivec(spiral_pos(center, n))) {
            unloaded_prefix(loaded, center, n)
        } else {
            unloaded_prefix(loaded, center, n).push(as_ivec(spiral_pos(center, n)))
        },
{
}

proof fn lemma_examined_step(loaded: Set<IVec2>, center: IVec2, n: nat, num: nat, rd: nat)
    requires
        forall|j: nat| #![trigger spiral_pos(center, j)]
            j < n ==> chebyshev(spiral_pos(center, j), center) <= rd
                && unloaded_prefix(loaded, center, j).len() < num,
        chebyshev(spiral_pos(center, n), center) <= rd,
        unloaded_prefix(loaded, center, n).len() < num,
    ensures
        forall|j: nat| #![trigger spiral_pos(center, j)]
            j < n + 1 ==> chebyshev(spiral_pos(center, j), center) <= rd
                && unloaded_prefix(loaded, center, j).len() < num,
{
}

/// Moves one position in direction `step`.
fn walk_move(check: &mut IVec2, step: SpiralStep)
    requires
        i32::MIN < old(check).x < i32::MAX,
        i32::MIN < old(check).y < i32::MAX,
    ensures
        final(check).x == old(check).x + step_dx(step),
        final(check).y == old(check).y + step_dy(step),
{
    match step {
        SpiralStep::Right => check.x += 1,
        SpiralStep::Up => check.y += 1,
        SpiralStep::Left => check.x -= 1,
        SpiralStep::Down => check.y -= 1,
    }
}

/// Counts the move against the side, turning at its end.
fn walk_turn(step: &mut SpiralStep, steps_left: &mut i64, step_amount: &mut i64, up_step: &mut bool)
    requires
        1 <= *old(steps_left) <= *old(step_amount) < i64::MAX,
    ensures
        ({
            let s = SpiralState {
                x: 0,
                y: 0,
                step: *old(step),
                steps_left: *old(steps_left) as int,
                step_amount: *old(step_amount) as int,
                up_step: *old(up_step),
            };
            let t = spiral_advance(s);
            &&& *final(step) == t.step
            &&& *final(steps_left) == t.steps_left
            &&& *final(step_amount) == t.step_amount
            &&& *final(up_step) == t.up_step
        }),
{
    *steps_left -= 1;
    if *steps_left == 0 {
        if *up_step {
            *step_amount += 1;
        }
        *up_step = !*up_step;
        *steps_left = *step_amount;
        step.next();
    }
}

/// Walks outwards from `center` in a square spiral and collects positions that
/// are not loaded, until `num` are found or the walk leaves the square of
/// radius `render_distance`.
#[verifier::rlimit(40)]
pub fn closest_unloaded_chunks<V>(
    loaded: &ChunkMap<V>,
    center: IVec2,
    num: usize,
    render_distance: u32,
) -> (r: Vec<IVec2>)
    requires
        render_distance < 0x4000_0000,
        i32::MIN + render_distance + 1 <= center.x <= i32::MAX - render_distance - 1,
        i32::MIN + render_distance + 1 <= center.y <= i32::MAX - render_distance - 1,
    ensures
        r@.len() <= num,
        exists|n: nat|
            {
                &&& r@ == unloaded_prefix(loaded@.dom(), center, n)
                &&& forall|j: nat| #![trigger spiral_pos(center, j)]
                    j < n ==> chebyshev(spiral_pos(center, j), center) <= render_distance
                        && unloaded_prefix(loaded@.dom(), center, j).len() < num
                &&& (r@.len() >= num || chebyshev(spiral_pos(center, n), center)
                    > render_distance)
            },
        r@.no_duplicates(),
        forall|i: int| 0 <= i < r@.len() ==> !loaded@.contains_key(#[trigger] r@[i]) && chebyshev(
            (r@[i].x as int, r@[i].y as int),
            center,
        ) <= render_distance,
        forall|i1: int, i2: int| 0 <= i1 <= i2 < r@.len() ==> chebyshev(
            (#[trigger] r@[i1].x as int, r@[i1].y as int),
            center,
        ) <= chebyshev((#[trigger] r@[i2].x as int, r@[i2].y as int), center),
        r@.len() < num ==> forall|p: IVec2|
            !loaded@.contains_key(p) && chebyshev((p.x as int, p.y as int), center) <= render_distance
                ==> #[trigger] r@.contains(p),
{
    let ghost rd = render_distance as nat;
    let ghost bound: nat = ((2 * rd + 1) * (2 * rd + 1)) as nat;
    proof {
        lemma_walk_leaves(center, rd);
        assert(bound <= 0x4000_0000_0000_0000) by (nonlinear_arith)
            requires
                bound == (2 * rd + 1) * (2 * rd + 1),
                rd < 0x4000_0000,
        ;
    }
    let mut check = center;
    let mut step = SpiralStep::Right;
    let mut steps_left: i64 = 1;
    let mut step_amount: i64 = 1;
    let mut up_step = false;

    let mut ret: Vec<IVec2> = Vec::new();
    let ghost mut n: nat = 0;

    while ret.len() < num
        invariant_except_break
            chebyshev(spiral_pos(center, n), center) <= render_distance,
            spiral_state(center, n) == (SpiralState {
                x: check.x as int,
                y: check.y as int,
                step,
                steps_left: steps_left as int,
                step_amount: step_amount as int,
                up_step,
            }),
        invariant
            render_distance < 0x4000_0000,
            i32::MIN + render_distance + 1 <= center.x <= i32::MAX - render_distance - 1,
            i32::MIN + render_distance + 1 <= center.y <= i32::MAX - render_distance - 1,
            bound == (2 * rd + 1) * (2 * rd + 1),
            bound <= 0x4000_0000_0000_0000,
            rd == render_distance,
            chebyshev(spiral_pos(center, bound), center) == rd + 1,
            n <= bound,
            ret@ == unloaded_prefix(loaded@.dom(), center, n),
            forall|j: nat| #![trigger spiral_pos(center, j)]
                j < n ==> chebyshev(spiral_pos(center, j), center) <= render_distance
                    && unloaded_prefix(loaded@.dom(), center, j).len() < num,
        ensures
            ret@ == unloaded_prefix(loaded@.dom(), center, n),
            forall|j: nat| #![trigger spiral_pos(center, j)]
                j < n ==> chebyshev(spiral_pos(center, j), center) <= render_distance
                    && unloaded_prefix(loaded@.dom(), center, j).len() < num,
            ret@.len() >= num || chebyshev(spiral_pos(center, n), center) > render_distance,
        decreases bound - n,
    {
        proof {
            lemma_state_bounds(center, n);
            lemma_walk_step(loaded@.dom(), center, n);
            lemma_examined_step(loaded@.dom(), center, n, num as nat, rd);
            assert(as_ivec(spiral_pos(center, n)) == check);
        }
        if !loaded.contains(check) {
            ret.push(check);
        }
        let ghost before_n = n;
        proof {
            n = n + 1;
        }
        walk_move(&mut check, step);
        let dx: i32 = if check.x >= center.x { check.x - center.x } else { center.x - check.x };
        let dy: i32 = if check.y >= center.y { check.y - center.y } else { center.y - check.y };
        let component_max: i32 = if dx >= dy { dx } else { dy };

        if component_max as u32 > render_distance {
            proof {
                assert(spiral_pos(center, n) == (check.x as int, check.y as int));
            }
            break;
        }
        walk_turn(&mut step, &mut steps_left, &mut step_amount, &mut up_step);
        proof {
            assert(n != bound);
        }
    }
    proof {
        assert(ret@.len() <= num) by {
            if ret@.len() > num {
                if n > 0 {
                    let j = (n - 1) as nat;
                    assert(unloaded_prefix(loaded@.dom(), center, j).len() < num);
                }
            }
        }
        lemma_closest_unloaded(loaded@.dom(), center, num as nat, rd, n);
    }
    ret
}

/// The loaded positions farther than `render_distance + 1` from `center`, each once.
pub fn chunks_to_unload<V>(loaded: &ChunkMap<V>, center: IVec2, render_distance: u32) -> (r: Vec<
    IVec2,
>)
    requires
        render_distance < u32::MAX,
        forall|p: IVec2| #[trigger]
            loaded@.contains_key(p) ==> i32::MIN < p.x - center.x <= i32::MAX && i32::MIN < p.y
                - center.y <= i32::MAX,
    ensures
        r@.no_duplicates(),
        forall|p: IVec2| #[trigger]
            r@.contains(p) <==> loaded@.contains_key(p) && chebyshev(
                (p.x as int, p.y as int),
                center,
            ) > render_distance + 1,
{
    let positions = loaded.positions();
    let mut ret: Vec<IVec2> = Vec::new();
    let mut i: usize = 0;
    while i < positions.len()
        invariant
            i <= positions@.len(),
            render_distance < u32::MAX,
            positions@.no_duplicates(),
            forall|p: IVec2| #[trigger] positions@.contains(p) <==> loaded@.contains_key(p),
            forall|p: IVec2| #[trigger]
                loaded@.contains_key(p) ==> i32::MIN < p.x - center.x <= i32::MAX && i32::MIN < p.y
                    - center.y <= i32::MAX,
            ret@.no_duplicates(),
            forall|p: IVec2| #[trigger]
                ret@.contains(p) <==> (exists|j: int| 0 <= j < i && positions@[j] == p) && chebyshev(
                    (p.x as int, p.y as int),
                    center,
                ) > render_distance + 1,
        decreases positions@.len() - i,
    {
        let pos = positions[i];
        proof {
            assert(positions@.contains(pos));
        }
        let d = IVec2 { x: pos.x - center.x, y: pos.y - center.y };
        let ax: i32 = if d.x >= 0 { d.x } else { -d.x };
        let ay: i32 = if d.y >= 0 { d.y } else { -d.y };
        let component_max: i32 = if ax >= ay { ax } else { ay };
        if component_max as u32 > render_distance + 1 {
            proof {
                assert(!ret@.contains(pos)) by {
                    if ret@.contains(pos) {
                        let j = choose|j: int| 0 <= j < i && positions@[j] == pos;
                        assert(positions@[i as int] == pos);
                    }
                }
            }
            let ghost before = ret@;
            ret.push(pos);
            proof {
                assert(ret@[before.len() as int] == pos);
                assert forall|p: IVec2| #[trigger] ret@.contains(p) <==> before.contains(p) || p
                    == pos by {
                    if before.contains(p) {
                        let k = choose|k: int| 0 <= k < before.len() && before[k] == p;
                        assert(ret@[k] == p);
                    }
                    if ret@.contains(p) {
                        let k = choose|k: int| 0 <= k < ret@.len() && ret@[k] == p;
                        if k < before.len() {
                            assert(before[k] == p);
                        }
                    }
                }
            }
        }
        proof {
            assert forall|p: IVec2| #[trigger] ret@.contains(p) <==> (exists|j: int|
                0 <= j < i + 1 && positions@[j] == p) && chebyshev((p.x as int, p.y as int), center)
                > render_distance + 1 by {
                if exists|j: int| 0 <= j < i + 1 && positions@[j] == p {
                    let j = choose|j: int| 0 <= j < i + 1 && positions@[j] == p;
                    if j < i {
                    }
                }
            }
        }
        i = i + 1;
    }
    proof {
        assert forall|p: IVec2| #[trigger] ret@.contains(p) <==> loaded@.contains_key(p) && chebyshev(
            (p.x as int, p.y as int),
            center,
        ) > render_distance + 1 by {
            if loaded@.contains_key(p) {
                assert(positions@.contains(p));
                let j = choose|j: int| 0 <= j < positions@.len() && positions@[j] == p;
            }
            if exists|j: int| 0 <= j < positions@.len() && positions@[j] == p {
                let j = choose|j: int| 0 <= j < positions@.len() && positions@[j] == p;
                assert(positions@.contains(p));
            }
        }
    }
    ret
}

} // verus!
