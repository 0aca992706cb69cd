use voxel::util::int_vec::{IVec2, UVec2};
use voxel::world::generation::transformer::TransformerLayout;

fn expect(layout: TransformerLayout, expected: Vec<IVec2>, chunk_pos: IVec2) {
    let mut actual = layout.locations(chunk_pos);
    for e in expected {
        let i = actual
            .iter()
            .position(|a| *a == e)
            .expect(&format!("Actual did not contain {:?},\nActual: {:?}", e, actual));
        actual.swap_remove(i);
    }

    if !actual.is_empty() {
        panic!("Actual contained extraneous elements: {:?}", actual);
    }
}

#[test]
fn transformer() {
    expect(
        TransformerLayout::new(UVec2::new(2, 2), UVec2::new(1, 1)),
        vec![
            IVec2::new(-1, -1),
            IVec2::new(0, -1),
            IVec2::new(-1, 0),
            IVec2::new(0, 0),
        ],
        IVec2::new(0, 0),
    );

    expect(
        TransformerLayout::new(UVec2::new(3, 3), UVec2::new(1, 1)),
        vec![
            IVec2::new(-2, -2), IVec2::new(-2, -1), IVec2::new(-2, 0),
            IVec2::new(-1, -2), IVec2::new(-1, -1), IVec2::new(-1, 0),
            IVec2::new(0, -2), IVec2::new(0, -1), IVec2::new(0, 0),
        ],
        IVec2::new(0, 0),
    );

    expect(
        TransformerLayout::new(UVec2::new(3, 3), UVec2::new(2, 2)),
        vec![
            IVec2::new(-1, -1), IVec2::new(-1, 0),
            IVec2::new(0, -1), IVec2::new(0, 0),
        ],
        IVec2::new(0, 0),
    );
}

use voxel::util::int_vec::UVec3;
use voxel::world::block_data::BlockHandle;
use voxel::world::generation::terrain::{basic_mix, chunk_from_heights, section_from_height};

/// Air, grass, dirt and stone, as the terrain cache holds them.
fn cache() -> [BlockHandle; 4] {
    [
        BlockHandle::new_unchecked(0),
        BlockHandle::new_unchecked(3),
        BlockHandle::new_unchecked(2),
        BlockHandle::new_unchecked(1),
    ]
}

fn column(s: &voxel::world::section::Section, x: u32, z: u32) -> Vec<u32> {
    (0..8).map(|y| s.get_block(UVec3::new(x, y, z)).inner()).collect()
}

#[test]
fn section_from_height_layers_a_column() {
    let heights = [5u32; 64];
    let s = section_from_height(&heights, 0, &cache());
    // Stone to three under the surface, dirt, grass at the surface, air above.
    assert_eq!(column(&s, 0, 0), vec![1, 1, 2, 2, 2, 3, 0, 0]);
    assert_eq!(column(&s, 7, 7), vec![1, 1, 2, 2, 2, 3, 0, 0]);
}

#[test]
fn section_from_height_above_and_below_the_surface() {
    let mut heights = [5u32; 64];
    heights[9] = 30; // column (1, 1)
    heights[2] = 1; // column (0, 2)
    let s = section_from_height(&heights, 0, &cache());
    assert_eq!(column(&s, 1, 1), vec![1; 8]);
    assert_eq!(column(&s, 0, 2), vec![2, 3, 0, 0, 0, 0, 0, 0]);
    // A section above every surface stays air.
    let above = section_from_height(&heights, 1, &cache());
    assert_eq!(column(&above, 0, 0), vec![0; 8]);
    // The surface in the section above: grass caps the section's top block.
    let high = [12u32; 64];
    let s = section_from_height(&high, 0, &cache());
    assert_eq!(column(&s, 3, 4), vec![1, 1, 1, 1, 1, 1, 1, 3]);
}

#[test]
fn chunk_from_heights_fills_below_and_above() {
    let heights = [20u32; 64];
    let c = chunk_from_heights(&heights, IVec2::new(1, 2), &cache());
    assert_eq!(c.pos, IVec2::new(1, 2));
    assert_eq!(c.sections.len(), 32);
    // Sections wholly below the lowest generated height are stone.
    assert_eq!(column(&c.sections[0], 0, 0), vec![1; 8]);
    assert_eq!(column(&c.sections[1], 4, 4), vec![1; 8]);
    // The surface section: height 20 is block 4 of section 2.
    assert_eq!(column(&c.sections[2], 2, 6), vec![1, 2, 2, 2, 3, 0, 0, 0]);
    // Sections above the highest surface are air.
    assert_eq!(column(&c.sections[3], 0, 0), vec![0; 8]);
    assert_eq!(column(&c.sections[31], 7, 7), vec![0; 8]);
}

#[test]
fn basic_mix_values() {
    assert_eq!(basic_mix(0, &[]), 1641017301357189737);
    assert_eq!(basic_mix(1, &[]), 3520871097751522830);
    assert_eq!(basic_mix(7, &[3, -4]), -8430921139608698900);
    assert_eq!(basic_mix(12345, &[0, 0]), -722987917455330778);
    assert_eq!(basic_mix(u32::MAX, &[-1, 1, 2]), 1876159881881973120);
}

#[test]
fn transformer_locations_with_spacing() {
    let layout = TransformerLayout::new(UVec2::new(20, 20), UVec2::new(7, 7));
    let mut locs = layout.locations(IVec2::new(0, 0));
    locs.sort_by_key(|p| (p.x, p.y));
    // Multiples of 7 in [-19, 0] are -14, -7 and 0.
    let mut expected = Vec::new();
    for x in [-2, -1, 0] {
        for y in [-2, -1, 0] {
            expected.push(IVec2::new(x, y));
        }
    }
    assert_eq!(locs, expected);
}
