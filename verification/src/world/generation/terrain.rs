use vstd::prelude::*;
use crate::util::int_vec::IVec2;
use crate::world::block_data::BlockHandle;
use crate::world::cells::block_array_cells;
use crate::world::chunk::{Chunk, CHUNK_HEIGHT};
use crate::world::section::{Section, section_index};

verus! {

/// The block at height `y` of a section whose bottom is at `offset`, in a
/// column whose surface is at height `h`: nothing is written when the surface
/// is below the section; stone when it is more than twelve blocks above the
/// bottom; otherwise stone up to three blocks under the surface, dirt up to
/// it, grass at it (at most the top block of the section) and air above.
/// `cache` holds air, grass, dirt and stone.
pub open spec fn column_block(h: u32, offset: u32, y: int, cache: [BlockHandle; 4]) -> u32 {
    if h < offset {
        0
    } else if h > offset + 12 {
        cache[3].id()
    } else {
        let rel = h - offset;
        let top = if rel < 7 { rel } else { 7 };
        let stone_end = if rel < 3 { 0 } else if rel - 3 < 7 { rel - 3 } else { 7 };
        if y == top {
            cache[1].id()
        } else if y < stone_end {
            cache[3].id()
        } else if y < top {
            cache[2].id()
        } else {
            cache[0].id()
        }
    }
}

/// The column of block ids written for a column with surface `h`.
fn column_ids(h: u32, height_offset: u32, cache: &[BlockHandle; 4]) -> (r: [u32; 8])
    requires
        h >= height_offset,
        height_offset <= u32::MAX - 12,
    ensures
        forall|y: int| 0 <= y < 8 ==> r[y] == column_block(h, height_offset, y, *cache),
{
    if h > height_offset + 8 + 4 {
        return [cache[3].inner(); 8];
    }
    let relative_height = h - height_offset;
    let stone_end: usize = if relative_height < 3 {
        0
    } else if relative_height - 3 < 7 {
        (relative_height - 3) as usize
    } else {
        7
    };
    let dirt_end: usize = if relative_height < 7 { relative_height as usize } else { 7 };
    let mut c = [cache[0].inner(); 8];
    let mut i: usize = 0;
    while i < stone_end
        invariant
            stone_end <= 7,
            i <= stone_end,
            forall|y: int| 0 <= y < i ==> c[y] == cache[3].id(),
            forall|y: int| i <= y < 8 ==> c[y] == cache[0].id(),
        decreases stone_end - i,
    {
        c[i] = cache[3].inner();
        i = i + 1;
    }
    while i < dirt_end
        invariant
            stone_end <= dirt_end <= 7,
            stone_end <= i <= dirt_end || i == stone_end,
            i >= stone_end,
            forall|y: int| 0 <= y < stone_end ==> c[y] == cache[3].id(),
            forall|y: int| stone_end <= y < i ==> c[y] == cache[2].id(),
            forall|y: int| i <= y < 8 && y >= stone_end ==> c[y] == cache[0].id(),
        decreases dirt_end - i,
    {
        c[i] = cache[2].inner();
        i = i + 1;
    }
    c[dirt_end] = cache[1].inner();
    c
}

proof fn lemma_section_index_unique(x: int, y: int, z: int, a: int, b: int, c: int)
    requires
        0 <= x < 8 && 0 <= y < 8 && 0 <= z < 8,
        0 <= a < 8 && 0 <= b < 8 && 0 <= c < 8,
    ensures
        (section_index(x, y, z) == section_index(a, b, c)) == (x == a && y == b && z == c),
        0 <= section_index(x, y, z) < 512,
{
}

/// The section at `section_num` of a chunk whose column surfaces are
/// `heights`, column `(x, z)` at `heights[x * 8 + z]`.
pub fn section_from_height(heights: &[u32], section_num: u32, cache: &[BlockHandle; 4]) -> (r: Section)
    requires
        heights@.len() == 64,
        section_num < CHUNK_HEIGHT,
    ensures
        r.wf(),
        r.brickmap.is_blank(),
        forall|x: int, y: int, z: int|
            0 <= x < 8 && 0 <= y < 8 && 0 <= z < 8 ==> #[trigger] r.cell(x, y, z) == column_block(
                heights@[x * 8 + z],
                (section_num * 8) as u32,
                y,
                *cache,
            ),
{
    let height_offset = section_num * 8;
    let mut ret = Section::empty();
    let mut i: usize = 0;
    while i < 64
        invariant
            i <= 64,
            heights@.len() == 64,
            height_offset == section_num * 8,
            section_num < CHUNK_HEIGHT,
            ret.wf(),
            ret.brickmap.is_blank(),
            forall|x: int, y: int, z: int|
                0 <= x < 8 && 0 <= y < 8 && 0 <= z < 8 ==> #[trigger] ret.cell(x, y, z) == if x * 8 + z
                    < i {
                    column_block(heights@[x * 8 + z], height_offset, y, *cache)
                } else {
                    0
                },
        decreases 64 - i,
    {
        let x = i / 8;
        let z = i % 8;
        proof {
            assert(x * 8 + z == i);
        }
        let height = heights[x * 8 + z];
        if height >= height_offset {
            let column = column_ids(height, height_offset, cache);
            let mut y: usize = 0;
            while y < 8
                invariant
                    i < 64,
                    x == i / 8,
                    z == i % 8,
                    y <= 8,
                    heights@.len() == 64,
                    height == heights@[i as int],
                    height >= height_offset,
                    ret.wf(),
                    ret.brickmap.is_blank(),
                    forall|y: int| 0 <= y < 8 ==> column[y] == column_block(height, height_offset, y, *cache),
                    forall|cx: int, cy: int, cz: int|
                        0 <= cx < 8 && 0 <= cy < 8 && 0 <= cz < 8 ==> #[trigger] ret.cell(cx, cy, cz) == if cx * 8
                            + cz < i || (cx * 8 + cz == i && cy < y) {
                            column_block(heights@[cx * 8 + cz], height_offset, cy, *cache)
                        } else {
                            0
                        },
                decreases 8 - y,
            {
                let ghost before = ret;
                ret.blocks.set(x, y, z, column[y]);
                proof {
                    assert forall|cx: int, cy: int, cz: int|
                        0 <= cx < 8 && 0 <= cy < 8 && 0 <= cz < 8 implies #[trigger] ret.cell(cx, cy, cz)
                            == if cx * 8 + cz < i || (cx * 8 + cz == i && cy < y + 1) {
                            column_block(heights@[cx * 8 + cz], height_offset, cy, *cache)
                        } else {
                            0
                        } by {
                        lemma_section_index_unique(cx, cy, cz, x as int, y as int, z as int);
                        assert(before.cell(cx, cy, cz) == block_array_cells(before.blocks)[section_index(cx, cy, cz)]);
                    }
                }
                y = y + 1;
            }
        }
        i = i + 1;
    }
    ret
}

/// The least of `h - 4` (at least 0) over `hs`, and 999 when that is larger.
pub open spec fn lowest_generated(hs: Seq<u32>) -> int
    decreases hs.len(),
{
    if hs.len() == 0 {
        999
    } else {
        let rest = lowest_generated(hs.drop_last());
        let low = if hs.last() < 4 { 0 } else { hs.last() - 4 };
        if low < rest {
            low
        } else {
            rest
        }
    }
}

/// The greatest of `hs`, and 0 when `hs` is empty.
pub open spec fn highest(hs: Seq<u32>) -> int
    decreases hs.len(),
{
    if hs.len() == 0 {
        0
    } else {
        let rest = highest(hs.drop_last());
        if hs.last() > rest {
            hs.last() as int
        } else {
            rest
        }
    }
}

/// `highest(hs)` is the greatest of `hs`: no element is above it, and when
/// `hs` is not empty it is one of them.
pub proof fn lemma_highest_is_max(hs: Seq<u32>)
    ensures
        forall|k: int| 0 <= k < hs.len() ==> #[trigger] hs[k] <= highest(hs),
        hs.len() > 0 ==> exists|k: int| 0 <= k < hs.len() && #[trigger] hs[k] == highest(hs),
        hs.len() == 0 ==> highest(hs) == 0,
    decreases hs.len(),
{
    if hs.len() > 0 {
        let rest = hs.drop_last();
        lemma_highest_is_max(rest);
        assert forall|k: int| 0 <= k < hs.len() implies #[trigger] hs[k] <= highest(hs) by {
            if k < hs.len() - 1 {
                assert(hs[k] == rest[k]);
            }
        }
        if hs.last() > highest(rest) {
            assert(hs[hs.len() - 1] == highest(hs));
        } else if rest.len() > 0 {
            let k = choose|k: int| 0 <= k < rest.len() && #[trigger] rest[k] == highest(rest);
            assert(hs[k] == highest(hs));
        } else {
            assert(hs[0] == highest(hs));
        }
    }
}

/// `lowest_generated(hs)` is at most four below every element of `hs`
/// (counting from 0), and at most 999.
pub proof fn lemma_lowest_generated_is_min(hs: Seq<u32>)
    ensures
        forall|k: int| 0 <= k < hs.len() ==> lowest_generated(hs) <= if #[trigger] hs[k] < 4 {
            0
        } else {
            hs[k] - 4
        },
        lowest_generated(hs) <= 999,
        lowest_generated(hs) >= 0,
    decreases hs.len(),
{
    if hs.len() > 0 {
        let rest = hs.drop_last();
        lemma_lowest_generated_is_min(rest);
        assert forall|k: int| 0 <= k < hs.len() implies lowest_generated(hs) <= if #[trigger] hs[k] < 4 {
            0
        } else {
            hs[k] - 4
        } by {
            if k < hs.len() - 1 {
                assert(hs[k] == rest[k]);
            }
        }
    }
}

/// Every column's surface block is grass: in the chunk made from `heights`,
/// the column `(x, z)` with surface `h` inside the chunk has `cache[1]` at
/// height `h % 8` of section `h / 8`.
pub proof fn lemma_surface_is_grass(heights: Seq<u32>, cache: [BlockHandle; 4], x: int, z: int)
    requires
        heights.len() == 64,
        0 <= x < 8,
        0 <= z < 8,
        heights[x * 8 + z] < 8 * CHUNK_HEIGHT,
    ensures
        chunk_cell(heights, cache, (heights[x * 8 + z] / 8) as int, x, (heights[x * 8 + z] % 8) as int, z) == cache[1].id(),
{
    let h = heights[x * 8 + z];
    lemma_highest_is_max(heights);
    lemma_lowest_generated_is_min(heights);
    assert(heights[x * 8 + z] <= highest(heights));
    let low = if h < 4 { 0int } else { h - 4 };
    assert(lowest_generated(heights) <= low);
    assert(lowest_generated(heights) / 8 <= h / 8);
    assert(h / 8 <= highest(heights) / 8);
    assert(((h / 8) * 8) as u32 <= h);
}

/// The block id of section `i`, block `(x, y, z)` of the chunk made from `heights`:
/// sections wholly below the lowest generated height are stone, sections above
/// the highest surface are air, and the others follow the columns.
pub open spec fn chunk_cell(heights: Seq<u32>, cache: [BlockHandle; 4], i: int, x: int, y: int, z: int) -> u32 {
    if i < lowest_generated(heights) / 8 {
        cache[3].id()
    } else if i <= highest(heights) / 8 {
        column_block(heights[x * 8 + z], (i * 8) as u32, y, cache)
    } else {
        cache[0].id()
    }
}

/// The chunk at `chunk_pos` whose column surfaces are `heights`, column
/// `(x, z)` at `heights[x * 8 + z]`.
pub fn chunk_from_heights(heights: &[u32], chunk_pos: IVec2, cache: &[BlockHandle; 4]) -> (r: Chunk)
    requires
        heights@.len() == 64,
    ensures
        r.wf(),
        r.pos == chunk_pos,
        forall|i: int, x: int, y: int, z: int|
            0 <= i < CHUNK_HEIGHT && 0 <= x < 8 && 0 <= y < 8 && 0 <= z < 8 ==> #[trigger] r.sections@[i].cell(
                x,
                y,
                z,
            ) == chunk_cell(heights@, *cache, i, x, y, z),
        forall|x: int, z: int|
            0 <= x < 8 && 0 <= z < 8 && heights@[x * 8 + z] < 8 * CHUNK_HEIGHT ==> #[trigger] r.sections@[(
            heights@[x * 8 + z] / 8) as int].cell(x, (heights@[x * 8 + z] % 8) as int, z) == cache[1].id(),
{
    let mut lowest: u32 = 999;
    let mut highest_h: u32 = 0;
    let mut k: usize = 0;
    while k < heights.len()
        invariant
            k <= heights@.len(),
            lowest == lowest_generated(heights@.subrange(0, k as int)),
            highest_h == highest(heights@.subrange(0, k as int)),
        decreases heights@.len() - k,
    {
        let height = heights[k];
        let low_gen = height.saturating_sub(4);
        proof {
            let s = heights@.subrange(0, k + 1);
            assert(s.drop_last() =~= heights@.subrange(0, k as int));
            assert(s.last() == height);
        }
        if low_gen < lowest {
            lowest = low_gen;
        }
        if height > highest_h {
            highest_h = height;
        }
        k = k + 1;
    }
    proof {
        assert(heights@.subrange(0, heights@.len() as int) =~= heights@);
    }
    let section_low = lowest / 8;
    let section_high = highest_h / 8;

    let mut sections: Vec<Section> = Vec::new();
    let mut i: u32 = 0;
    while i < CHUNK_HEIGHT
        invariant
            i <= CHUNK_HEIGHT,
            heights@.len() == 64,
            section_low == lowest_generated(heights@) / 8,
            section_high == highest(heights@) / 8,
            sections@.len() == i,
            forall|k: int| 0 <= k < i ==> (#[trigger] sections@[k]).wf(),
            forall|k: int, x: int, y: int, z: int|
                0 <= k < i && 0 <= x < 8 && 0 <= y < 8 && 0 <= z < 8 ==> #[trigger] sections@[k].cell(
                    x,
                    y,
                    z,
                ) == chunk_cell(heights@, *cache, k, x, y, z),
        decreases CHUNK_HEIGHT - i,
    {
        let section = if i < section_low {
            Section::full(cache[3])
        } else if i <= section_high {
            section_from_height(heights, i, cache)
        } else {
            Section::full(cache[0])
        };
        proof {
            assert forall|x: int, y: int, z: int|
                0 <= x < 8 && 0 <= y < 8 && 0 <= z < 8 implies #[trigger] section.cell(x, y, z)
                    == chunk_cell(heights@, *cache, i as int, x, y, z) by {
                assert(0 <= section_index(x, y, z) < 512);
            }
        }
        sections.push(section);
        i = i + 1;
    }
    let r = Chunk { pos: chunk_pos, sections };
    proof {
        assert forall|x: int, z: int|
            0 <= x < 8 && 0 <= z < 8 && heights@[x * 8 + z] < 8 * CHUNK_HEIGHT implies #[trigger] r.sections@[(
            heights@[x * 8 + z] / 8) as int].cell(x, (heights@[x * 8 + z] % 8) as int, z) == cache[1].id() by {
            lemma_surface_is_grass(heights@, *cache, x, z);
            let h = heights@[x * 8 + z];
            assert(r.sections@[(h / 8) as int].cell(x, (h % 8) as int, z) == chunk_cell(
                heights@,
                *cache,
                (h / 8) as int,
                x,
                (h % 8) as int,
                z,
            ));
        }
    }
    r
}

/// The mixing constants.
pub open spec fn mix_constant(i: int) -> i64 {
    if i == 0 {
        5867861265816020633
    } else if i == 1 {
        1641017301357189737
    } else if i == 2 {
        1879853796394333093
    } else if i == 3 {
        7725969554000944399
    } else if i == 4 {
        1876115753880194887
    } else if i == 5 {
        5606298548251443349
    } else if i == 6 {
        7362445722264101809
    } else if i == 7 {
        1474238158419017591
    } else if i == 8 {
        7014872933172552589
    } else if i == 9 {
        7064322766213455167
    } else {
        6453273212358484117
    }
}

fn mix_number(i: usize) -> (r: i64)
    requires
        i < 11,
    ensures
        r == mix_constant(i as int),
{
    // very large RSA numbers
    match i {
        0 => 5867861265816020633,
        1 => 1641017301357189737,
        2 => 1879853796394333093,
        3 => 7725969554000944399,
        4 => 1876115753880194887,
        5 => 5606298548251443349,
        6 => 7362445722264101809,
        7 => 1474238158419017591,
        8 => 7014872933172552589,
        9 => 7064322766213455167,
        _ => 6453273212358484117,
    }
}

/// Folds the values of `n` into `acc`, each multiplied by constant `idx` and
/// offset by the next constant, two constants further on each time; all in
/// wrapping arithmetic.
pub open spec fn mix_fold(acc: i64, idx: int, n: Seq<i64>) -> i64
    decreases n.len(),
{
    if n.len() == 0 {
        acc
    } else {
        mix_fold(
            vstd::wrapping::i64_specs::wrapping_mul(
                acc,
                vstd::wrapping::i64_specs::wrapping_add(
                    vstd::wrapping::i64_specs::wrapping_mul(n[0], mix_constant(idx)),
                    mix_constant((idx + 1) % 11),
                ),
            ),
            (idx + 2) % 11,
            n.drop_first(),
        )
    }
}

/// The seed mixed with the values of `n`.
pub open spec fn basic_mix_spec(seed: u32, n: Seq<i64>) -> i64 {
    let idx = seed % 11;
    mix_fold(
        vstd::wrapping::i64_specs::wrapping_add(
            vstd::wrapping::i64_specs::wrapping_mul(seed as i64, mix_constant(idx as int)),
            mix_constant((idx + 1) % 11),
        ),
        (idx + 2) % 11,
        n,
    )
}

/// One mixing step: `acc * (v * c[idx] + c[idx + 1])`, wrapping.
fn mix_step(acc: i64, v: i64, idx: usize) -> (r: i64)
    requires
        idx < 11,
    ensures
        r == vstd::wrapping::i64_specs::wrapping_mul(
            acc,
            vstd::wrapping::i64_specs::wrapping_add(
                vstd::wrapping::i64_specs::wrapping_mul(v, mix_constant(idx as int)),
                mix_constant((idx + 1) % 11),
            ),
        ),
{
    acc.wrapping_mul(v.wrapping_mul(mix_number(idx)).wrapping_add(mix_number((idx + 1) % 11)))
}

/// Mixes a seed with a list of numbers into one number.
pub fn basic_mix(seed: u32, n: &[i64]) -> (r: i64)
    ensures
        r == basic_mix_spec(seed, n@),
{
    let len: usize = 11;
    let mut nums_idx = seed as usize % len;
    let mut ret = (seed as i64).wrapping_mul(mix_number(nums_idx)).wrapping_add(
        mix_number((nums_idx + 1) % len),
    );
    nums_idx = (nums_idx + 2) % len;

    let mut k: usize = 0;
    proof {
        assert(n@.subrange(0, n@.len() as int) =~= n@);
    }
    while k < n.len()
        invariant
            k <= n@.len(),
            nums_idx < 11,
            len == 11,
            mix_fold(ret, nums_idx as int, n@.subrange(k as int, n@.len() as int)) == basic_mix_spec(
                seed,
                n@,
            ),
        decreases n@.len() - k,
    {
        proof {
            let rest = n@.subrange(k as int, n@.len() as int);
            assert(rest[0] == n@[k as int]);
            assert(rest.drop_first() =~= n@.subrange(k + 1, n@.len() as int));
        }
        ret = mix_step(ret, n[k], nums_idx);
        nums_idx = (nums_idx + 2) % len;
        k = k + 1;
    }
    proof {
        assert(n@.subrange(k as int, n@.len() as int) =~= Seq::<i64>::empty());
    }
    ret
}

} // verus!
