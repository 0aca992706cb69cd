use voxel::util::int_vec::{IVec2, UVec3};
use voxel::util::util::Facing;
use voxel::world::block_data::{BlockHandle, BlockType, Blocks, InitBlockData, ModelType, StaticBlockData};
use voxel::world::chunk::{Chunk, CHUNK_HEIGHT};
use voxel::world::chunk_map::ChunkMap;
use voxel::world::section::{BlockCull, Neighbor, Section, SECTION_EDGE};
use voxel::world::world_blocks::{chunks_to_unload, closest_unloaded_chunks, SpiralStep};
use voxel::render::mesh::cube::UnitCube;
use voxel::render::texture::TextureHandle;

fn cube_data(id: &str) -> InitBlockData {
    InitBlockData::new_block(id, UnitCube::new(vec![TextureHandle::new(0)]), BlockType::Full)
}

/// Air, stone (a cube) and leaves (not a cube), ids 0, 1 and 2.
fn small_block_data() -> StaticBlockData {
    let mut data = StaticBlockData::empty();
    data.add(InitBlockData::air());
    data.add(cube_data("stone"));
    data.add(InitBlockData::new_block("leaves", None, BlockType::Transparent));
    data
}

#[test]
fn block_handles_of_standard_blocks() {
    assert_eq!(Blocks::Air.handle().inner(), 0);
    assert_eq!(Blocks::Stone.handle().inner(), 1);
    assert_eq!(Blocks::Log.handle().inner(), 5);
    assert_eq!(BlockHandle::new_unchecked(77).inner(), 77);
    assert_eq!(BlockHandle::default().inner(), 0);
}

#[test]
fn static_block_data_add_and_get() {
    let mut data = StaticBlockData::empty();
    let air = data.add(InitBlockData::air());
    let stone = data.add(cube_data("stone"));
    assert_eq!(air.inner(), 0);
    assert_eq!(stone.inner(), 1);
    assert_eq!(data.get(&stone).id, "stone");
    assert_eq!(data.get(&air).block_type, BlockType::Nothing);
    assert!(data.get(&stone).model.is_full());
    assert!(!data.get(&air).model.is_full());
}

#[test]
fn static_block_data_get_handle_prefers_the_later() {
    let mut data = StaticBlockData::empty();
    data.add(cube_data("stone"));
    data.add(cube_data("dirt"));
    data.add(cube_data("stone"));
    assert_eq!(data.get_handle("stone").map(|h| h.inner()), Some(2));
    assert_eq!(data.get_handle("dirt").map(|h| h.inner()), Some(1));
    assert!(data.get_handle("glass").is_none());
}

#[test]
fn model_type_from_option() {
    assert!(matches!(ModelType::from(None), ModelType::Nothing));
    let cube = UnitCube::new(vec![TextureHandle::new(3)]).unwrap();
    assert!(matches!(ModelType::from(Some(cube)), ModelType::FullBlock(_)));
}

#[test]
fn section_empty_and_full() {
    let empty = Section::empty();
    assert!(empty.is_empty());
    assert!(empty.brickmap.is_empty());
    let full = Section::full(BlockHandle::new_unchecked(4));
    assert!(!full.is_empty());
    assert_eq!(full.get_block(UVec3::new(7, 0, 3)).inner(), 4);
    assert_eq!(SECTION_EDGE, 8);
}

#[test]
fn section_set_then_get() {
    let mut s = Section::empty();
    s.set_block(UVec3::new(1, 2, 3), BlockHandle::new_unchecked(9));
    assert_eq!(s.get_block(UVec3::new(1, 2, 3)).inner(), 9);
    assert_eq!(s.get_block(UVec3::new(3, 2, 1)).inner(), 0);
    assert!(!s.is_empty());
}

#[test]
fn solid_mask_marks_cube_blocks() {
    let data = small_block_data();
    let mut s = Section::empty();
    s.set_block(UVec3::new(2, 3, 5), BlockHandle::new_unchecked(1));
    s.set_block(UVec3::new(4, 4, 4), BlockHandle::new_unchecked(2));
    let mask = s.solid_mask(&data);
    let mut expected = [[0u8; 8]; 8];
    expected[2][3] = 1 << 5;
    assert_eq!(mask, expected);
    s.update_brickmap(&data);
    assert_eq!(s.brickmap.solid_mask, expected);
}

#[test]
fn chunk_update_brickmap_covers_every_section() {
    let data = small_block_data();
    let mut c = Chunk::empty(IVec2::new(3, -4));
    assert_eq!(c.sections.len(), CHUNK_HEIGHT as usize);
    c.sections[5].set_block(UVec3::new(0, 0, 0), BlockHandle::new_unchecked(1));
    c.update_brickmap(&data);
    assert_eq!(c.sections[5].brickmap.solid_mask[0][0], 1);
    assert!(c.sections[4].brickmap.is_empty());
    assert_eq!(c.pos, IVec2::new(3, -4));
}

#[test]
fn block_cull_from_array_reads_back() {
    let arr = [true, false, false, true, true, false];
    let c = BlockCull::from_array(arr);
    assert_eq!(c.get_bools(), arr);
    assert_eq!(c.get_unculled(), vec![1, 2, 5]);
    assert!(c.is_culled(Facing::right()));
    assert!(!c.is_culled(Facing::left()));
}

#[test]
fn block_cull_bits_follow_face_order() {
    // The last six bits hold +X -X +Y -Y +Z -Z from the highest down.
    let c = BlockCull::from_bits(0b10_0000);
    assert_eq!(c.get_bools(), [true, false, false, false, false, false]);
    let c = BlockCull::from_bits(0b00_0001);
    assert_eq!(c.get_bools(), [false, false, false, false, false, true]);
    assert_eq!(BlockCull::none().get_unculled(), vec![0, 1, 2, 3, 4, 5]);
}

#[test]
fn block_cull_set_face_changes_one_face() {
    let mut c = BlockCull::none();
    c.set_face(2, true);
    assert_eq!(c.get_bools(), [false, false, true, false, false, false]);
    c.set_face(4, true);
    c.set_face(2, false);
    assert_eq!(c.get_bools(), [false, false, false, false, true, false]);
    assert_eq!(BlockCull::to_u8(&true), 1);
    assert_eq!(BlockCull::to_u8(&false), 0);
}

#[test]
fn chunk_map_insert_get_remove() {
    let mut m: ChunkMap<u32> = ChunkMap::new();
    m.insert(IVec2::new(-1, 2), 5);
    m.insert(IVec2::new(2, -1), 6);
    assert!(m.contains(IVec2::new(-1, 2)));
    assert_eq!(m.get(IVec2::new(2, -1)), Some(&6));
    assert_eq!(m.get(IVec2::new(2, 2)), None);
    m.insert(IVec2::new(-1, 2), 7);
    assert_eq!(m.get(IVec2::new(-1, 2)), Some(&7));
    assert_eq!(m.remove(IVec2::new(-1, 2)), Some(7));
    assert_eq!(m.remove(IVec2::new(-1, 2)), None);
    assert_eq!(m.positions(), vec![IVec2::new(2, -1)]);
}

#[test]
fn chunk_map_keeps_extreme_positions_apart() {
    let mut m: ChunkMap<u8> = ChunkMap::new();
    m.insert(IVec2::new(i32::MIN, i32::MAX), 1);
    m.insert(IVec2::new(i32::MAX, i32::MIN), 2);
    m.insert(IVec2::new(0, 0), 3);
    assert_eq!(m.get(IVec2::new(i32::MIN, i32::MAX)), Some(&1));
    assert_eq!(m.get(IVec2::new(i32::MAX, i32::MIN)), Some(&2));
    assert_eq!(m.positions().len(), 3);
}

#[test]
fn spiral_step_turns_counter_clockwise() {
    let mut s = SpiralStep::Right;
    s.next();
    assert_eq!(s, SpiralStep::Up);
    s.next();
    assert_eq!(s, SpiralStep::Left);
    s.next();
    assert_eq!(s, SpiralStep::Down);
    s.next();
    assert_eq!(s, SpiralStep::Right);
}

#[test]
fn closest_unloaded_chunks_walks_a_spiral() {
    let loaded: ChunkMap<()> = ChunkMap::new();
    let r = closest_unloaded_chunks(&loaded, IVec2::new(0, 0), 10, 24);
    assert_eq!(
        r,
        vec![
            IVec2::new(0, 0),
            IVec2::new(1, 0),
            IVec2::new(1, 1),
            IVec2::new(0, 1),
            IVec2::new(-1, 1),
            IVec2::new(-1, 0),
            IVec2::new(-1, -1),
            IVec2::new(0, -1),
            IVec2::new(1, -1),
            IVec2::new(2, -1),
        ]
    );
}

#[test]
fn closest_unloaded_chunks_skips_loaded() {
    let mut loaded: ChunkMap<()> = ChunkMap::new();
    loaded.insert(IVec2::new(5, 5), ());
    loaded.insert(IVec2::new(6, 5), ());
    let r = closest_unloaded_chunks(&loaded, IVec2::new(5, 5), 2, 24);
    assert_eq!(r, vec![IVec2::new(6, 6), IVec2::new(5, 6)]);
}

#[test]
fn closest_unloaded_chunks_stops_at_the_render_distance() {
    let loaded: ChunkMap<()> = ChunkMap::new();
    // A radius of one holds the centre and its eight neighbours.
    let r = closest_unloaded_chunks(&loaded, IVec2::new(0, 0), 100, 1);
    assert_eq!(r.len(), 9);
    let r = closest_unloaded_chunks(&loaded, IVec2::new(0, 0), 0, 1);
    assert!(r.is_empty());
}

#[test]
fn chunks_to_unload_picks_far_chunks() {
    let mut loaded: ChunkMap<()> = ChunkMap::new();
    loaded.insert(IVec2::new(0, 0), ());
    loaded.insert(IVec2::new(3, 0), ());
    loaded.insert(IVec2::new(4, -4), ());
    loaded.insert(IVec2::new(-2, 1), ());
    let mut r = chunks_to_unload(&loaded, IVec2::new(0, 0), 2);
    r.sort_by_key(|p| (p.x, p.y));
    assert_eq!(r, vec![IVec2::new(4, -4)]);
    let r = chunks_to_unload(&loaded, IVec2::new(10, 10), 2);
    assert_eq!(r.len(), 4);
}

#[test]
fn neighbour_from_option() {
    assert!(matches!(Neighbor::from(None), Neighbor::Boundary));
    match Neighbor::from(Some(BlockHandle::new_unchecked(6))) {
        Neighbor::Block(b) => assert_eq!(b.inner(), 6),
        Neighbor::Boundary => panic!("a block was given"),
    }
}
