use vstd::prelude::*;
use crate::util::int_vec::{IVec2, UVec2};

verus! {

/// The multiples of `s` in `lo..=hi`, in increasing order.
pub open spec fn multiples_in(lo: int, hi: int, s: int) -> Seq<int>
    decreases hi - lo + 1,
{
    if hi < lo {
        Seq::empty()
    } else {
        let rest = multiples_in(lo, hi - 1, s);
        if hi % s == 0 {
            rest.push(hi)
        } else {
            rest
        }
    }
}

/// Every `x` of `xs` with every `y` of `ys`, `x` first, each divided by the spacing.
pub open spec fn grid_cells(xs: Seq<int>, ys: Seq<int>, sx: int, sy: int) -> Seq<IVec2>
    decreases xs.len(),
{
    if xs.len() == 0 {
        Seq::empty()
    } else {
        grid_cells(xs.drop_last(), ys, sx, sy) + ys.map_values(
            |y: int| IVec2 { x: (xs.last() / sx) as i32, y: (y / sy) as i32 },
        )
    }
}

/// `multiples_in(lo, hi, s)` holds, in increasing order, exactly the multiples
/// of `s` between `lo` and `hi`.
pub proof fn lemma_multiples_in(lo: int, hi: int, s: int)
    requires
        s >= 1,
    ensures
        forall|i: int|
            0 <= i < multiples_in(lo, hi, s).len() ==> lo <= #[trigger] multiples_in(lo, hi, s)[i] <= hi
                && multiples_in(lo, hi, s)[i] % s == 0,
        forall|i: int, j: int|
            0 <= i < j < multiples_in(lo, hi, s).len() ==> #[trigger] multiples_in(lo, hi, s)[i]
                < #[trigger] multiples_in(lo, hi, s)[j],
        forall|v: int| lo <= v <= hi && v % s == 0 ==> #[trigger] multiples_in(lo, hi, s).contains(v),
    decreases hi - lo + 1,
{
    if hi >= lo {
        lemma_multiples_in(lo, hi - 1, s);
        let rest = multiples_in(lo, hi - 1, s);
        let m = multiples_in(lo, hi, s);
        if hi % s == 0 {
            assert forall|v: int| lo <= v <= hi && v % s == 0 implies #[trigger] m.contains(v) by {
                if v == hi {
                    assert(m[rest.len() as int] == hi);
                } else {
                    assert(rest.contains(v));
                    let k = choose|k: int| 0 <= k < rest.len() && rest[k] == v;
                    assert(m[k] == v);
                }
            }
        }
    }
}

/// `grid_cells(xs, ys, sx, sy)` holds every pair, `x` major: the cell of
/// `xs[i]` and `ys[j]` stands at `i * ys.len() + j`.
pub proof fn lemma_grid_cells(xs: Seq<int>, ys: Seq<int>, sx: int, sy: int)
    ensures
        grid_cells(xs, ys, sx, sy).len() == xs.len() * ys.len(),
        forall|i: int, j: int|
            0 <= i < xs.len() && 0 <= j < ys.len() ==> #[trigger] grid_cells(xs, ys, sx, sy)[i * ys.len() + j]
                == (IVec2 { x: (xs[i] / sx) as i32, y: (ys[j] / sy) as i32 }),
    decreases xs.len(),
{
    if xs.len() > 0 {
        let rest = xs.drop_last();
        lemma_grid_cells(rest, ys, sx, sy);
        let n = xs.len();
        let m = ys.len();
        let g = grid_cells(xs, ys, sx, sy);
        let g0 = grid_cells(rest, ys, sx, sy);
        assert(n * m == (n - 1) * m + m) by (nonlinear_arith);
        assert forall|i: int, j: int| 0 <= i < n && 0 <= j < m implies #[trigger] g[i * m + j] == (IVec2 {
            x: (xs[i] / sx) as i32,
            y: (ys[j] / sy) as i32,
        }) by {
            if i < n - 1 {
                assert(i * m + j < (n - 1) * m) by (nonlinear_arith)
                    requires
                        0 <= i < n - 1,
                        0 <= j < m,
                ;
                assert(0 <= i * m) by (nonlinear_arith)
                    requires
                        0 <= i,
                        0 <= m,
                ;
                assert(g[i * m + j] == g0[i * m + j]);
                assert(rest[i] == xs[i]);
            } else {
                assert(i * m + j == (n - 1) * m + j);
                assert(g[i * m + j] == ys.map_values(
                    |y: int| IVec2 { x: (xs.last() / sx) as i32, y: (y / sy) as i32 },
                )[j]);
            }
        }
    }
}

proof fn lemma_neg_divisible(a: int, d: int)
    requires
        d >= 1,
    ensures
        (a % d == 0) == ((-a) % d == 0),
        a % d == 0 ==> (-a) / d * -1 == a / d,
{
    vstd::arithmetic::div_mod::lemma_fundamental_div_mod(a, d);
    vstd::arithmetic::div_mod::lemma_fundamental_div_mod(-a, d);
    if a % d == 0 {
        let q = a / d;
        assert(-a == d * (-q)) by (nonlinear_arith)
            requires
                a == d * q,
        ;
        vstd::arithmetic::div_mod::lemma_div_multiples_vanish(-q, d);
        vstd::arithmetic::div_mod::lemma_mod_multiples_vanish(-q, 0, d);
        assert((d * (-q)) % d == 0) by {
            vstd::arithmetic::div_mod::lemma_mod_multiples_basic(-q, d);
        }
    }
    if (-a) % d == 0 {
        let q = (-a) / d;
        assert(a == d * (-q)) by (nonlinear_arith)
            requires
                -a == d * q,
        ;
        vstd::arithmetic::div_mod::lemma_mod_multiples_basic(-q, d);
    }
}

/// Whether `b` divides `a`, by Rust's remainder.
fn divides(a: i32, b: i32) -> (r: bool)
    requires
        b >= 1,
    ensures
        r == ((a as int) % (b as int) == 0),
{
    proof {
        lemma_neg_divisible(a as int, b as int);
        assert((a as int) * -1 == -(a as int)) by (nonlinear_arith);
    }
    let r = a.checked_rem(b);
    proof {
        let x = a as int;
        let d = b as int;
        if x < 0 {
            assert((x * -1) % d == (-x) % d);
            assert(0 <= (-x) % d < d);
            assert(r == Some((((x * -1) % d) * -1) as i32));
        } else if x > 0 {
            assert(0 <= x % d < d);
            assert(r == Some((x % d) as i32));
        } else {
            assert(r == Some(0i32));
            vstd::arithmetic::div_mod::lemma_small_mod(0, d as nat);
            assert(x % d == 0);
        }
    }
    match r {
        Some(v) => v == 0,
        None => false,
    }
}

/// `a / b` by Rust's division, where `b` divides `a`.
fn exact_div(a: i32, b: i32) -> (r: i32)
    requires
        b >= 1,
        (a as int) % (b as int) == 0,
    ensures
        r == (a as int) / (b as int),
{
    proof {
        lemma_neg_divisible(a as int, b as int);
        vstd::arithmetic::div_mod::lemma_div_is_ordered_by_denominator(if a >= 0 { a as int } else { -a }, 1, b as int);
    }
    match a.checked_div(b) {
        Some(v) => v,
        None => 0,
    }
}

/// Where a transformer's data is placed: cells of `size` chunks, one every
/// `spacing` chunks.
#[derive(Copy, Clone, Debug)]
pub struct TransformerLayout {
    pub size: UVec2,
    pub spacing: UVec2,
}

impl TransformerLayout {
    /// Size and spacing must be larger than 0.
    pub fn new(size: UVec2, spacing: UVec2) -> (r: Self)
        requires
            size.x > 0 && size.y > 0,
            spacing.x > 0 && spacing.y > 0,
        ensures
            r.size == size,
            r.spacing == spacing,
    {
        Self { size, spacing }
    }

    /// The placements, in placement coordinates, whose cell reaches `chunk_pos`:
    /// the multiples of the spacing in the `size - 1` chunks up to and
    /// including `chunk_pos`, divided by the spacing.
    pub fn locations(&self, chunk_pos: IVec2) -> (r: Vec<IVec2>)
        requires
            1 <= self.size.x <= i32::MAX,
            1 <= self.size.y <= i32::MAX,
            1 <= self.spacing.x <= i32::MAX,
            1 <= self.spacing.y <= i32::MAX,
            chunk_pos.x - (self.size.x - 1) >= i32::MIN,
            chunk_pos.y - (self.size.y - 1) >= i32::MIN,
        ensures
            r@ == grid_cells(
                multiples_in(
                    chunk_pos.x - (self.size.x - 1),
                    chunk_pos.x as int,
                    self.spacing.x as int,
                ),
                multiples_in(
                    chunk_pos.y - (self.size.y - 1),
                    chunk_pos.y as int,
                    self.spacing.y as int,
                ),
                self.spacing.x as int,
                self.spacing.y as int,
            ),
    {
        let min = IVec2 {
            x: chunk_pos.x - (self.size.x - 1) as i32,
            y: chunk_pos.y - (self.size.y - 1) as i32,
        };
        let i_spacing = IVec2 { x: self.spacing.x as i32, y: self.spacing.y as i32 };
        let ghost sx = i_spacing.x as int;
        let ghost sy = i_spacing.y as int;
        let ghost ys = multiples_in(min.y as int, chunk_pos.y as int, sy);
        let mut ret: Vec<IVec2> = Vec::new();
        let mut x = min.x;
        loop
            invariant_except_break
                ret@ == grid_cells(multiples_in(min.x as int, x - 1, sx), ys, sx, sy),
            invariant
                min.x <= x <= chunk_pos.x,
                min.y <= chunk_pos.y,
                sx == i_spacing.x,
                sy == i_spacing.y,
                sx >= 1,
                sy >= 1,
                ys == multiples_in(min.y as int, chunk_pos.y as int, sy),
            ensures
                ret@ == grid_cells(multiples_in(min.x as int, chunk_pos.x as int, sx), ys, sx, sy),
            decreases chunk_pos.x - x,
        {
            let ghost xs_before = multiples_in(min.x as int, x - 1, sx);
            if divides(x, i_spacing.x) {
                let ghost before = ret@;
                let mut y = min.y;
                loop
                    invariant_except_break
                        ret@ == before + multiples_in(min.y as int, y - 1, sy).map_values(
                            |yy: int| IVec2 { x: ((x as int) / sx) as i32, y: (yy / sy) as i32 },
                        ),
                    invariant
                        min.y <= y <= chunk_pos.y,
                        (x as int) % sx == 0,
                        sx == i_spacing.x,
                        sy == i_spacing.y,
                        sx >= 1,
                        sy >= 1,
                    ensures
                        ret@ == before + multiples_in(min.y as int, chunk_pos.y as int, sy).map_values(
                            |yy: int| IVec2 { x: ((x as int) / sx) as i32, y: (yy / sy) as i32 },
                        ),
                    decreases chunk_pos.y - y,
                {
                    let ghost m = multiples_in(min.y as int, y - 1, sy);
                    let ghost f = |yy: int| IVec2 { x: ((x as int) / sx) as i32, y: (yy / sy) as i32 };
                    proof {
                        assert(multiples_in(min.y as int, y as int, sy) == if (y as int) % sy == 0 {
                            m.push(y as int)
                        } else {
                            m
                        });
                    }
                    if divides(y, i_spacing.y) {
                        ret.push(IVec2 { x: exact_div(x, i_spacing.x), y: exact_div(y, i_spacing.y) });
                        proof {
                            assert(m.push(y as int).map_values(f) =~= m.map_values(f).push(f(y as int)));
                        }
                    }
                    if y == chunk_pos.y {
                        break;
                    }
                    y = y + 1;
                }
            }
            proof {
                let xs = multiples_in(min.x as int, x as int, sx);
                if (x as int) % sx == 0 {
                    assert(xs.drop_last() == xs_before);
                    assert(xs.last() == x);
                } else {
                    assert(xs == xs_before);
                }
            }
            if x == chunk_pos.x {
                break;
            }
            x = x + 1;
        }
        ret
    }
}

} // verus!
