use voxel::render::brick::brickgrid::{morton_encode, BG_ARRAY_SIZE, BRICKGRID_SIZE};
use voxel::render::brick::brickmap::{pack_u4_vec3, Brickmap, BrickmapPointer, TexturePointer};
use voxel::render::brick::feedback::Feedback;
use voxel::render::brick::bitmap::{Bitmap, Bitmap2, Bitmap4};
use voxel::util::int_vec::UVec3;
use voxel::render::texture::TextureHandle;

#[test]
fn morton_encode_interleaves_bits() {
    assert_eq!(morton_encode(0, 0, 0), 0);
    assert_eq!(morton_encode(0, 0, 1), 1);
    assert_eq!(morton_encode(0, 1, 0), 2);
    assert_eq!(morton_encode(1, 0, 0), 4);
    assert_eq!(morton_encode(0, 0, 2), 8);
    assert_eq!(morton_encode(2, 0, 0), 16);
    assert_eq!(morton_encode(5, 3, 9), 455);
    assert_eq!(morton_encode(100, 7, 200), 444866);
}

#[test]
fn morton_encode_stays_in_the_grid() {
    assert_eq!(morton_encode(1023, 31, 1023), BG_ARRAY_SIZE - 1);
    // Bits above the grid size are ignored.
    assert_eq!(morton_encode(1024, 32, 1024), 0);
    assert_eq!(BRICKGRID_SIZE, [1024, 32, 1024]);
}

#[test]
fn morton_encode_distinct_cells_get_distinct_indices() {
    let mut seen = std::collections::HashSet::new();
    for x in 0..8 {
        for y in 0..4 {
            for z in 0..8 {
                assert!(seen.insert(morton_encode(x, y, z)));
            }
        }
    }
}

#[test]
fn pack_u4_vec3_packs_nibbles() {
    assert_eq!(pack_u4_vec3(0, 0, 0), 0);
    assert_eq!(pack_u4_vec3(1, 2, 3), 0x1230);
    assert_eq!(pack_u4_vec3(15, 15, 15), 0xfff0);
    assert_eq!(pack_u4_vec3(0x1f, 0x12, 0x10), 0xf200);
}

#[test]
fn brickmap_empty_is_empty() {
    let b = Brickmap::empty();
    assert!(b.is_empty());
    assert_eq!(b.solid_mask, [[0u8; 8]; 8]);
    assert_eq!(b.textures_offset, 0);
    assert_eq!(b.lod_color, [0, 0, 0]);
    assert_eq!(b.bb_min, 0);
    assert_eq!(b.bb_max, 0);
}

#[test]
fn brickmap_with_a_solid_cell_is_not_empty() {
    let mut b = Brickmap::empty();
    b.solid_mask[3][4] = 0b0001_0000;
    assert!(!b.is_empty());
}

#[test]
fn update_bounding_box_of_one_cell() {
    let mut b = Brickmap::empty();
    // Bit 7 - z is cell z: bit 4 is z = 3.
    b.solid_mask[2][5] = 0b0001_0000;
    b.update_bounding_box();
    assert_eq!(b.bb_min, pack_u4_vec3(2, 5, 3));
    assert_eq!(b.bb_max, pack_u4_vec3(3, 6, 4));
}

#[test]
fn update_bounding_box_of_several_cells() {
    let mut b = Brickmap::empty();
    b.solid_mask[1][6] = 0b1000_0000; // (1, 6, 0)
    b.solid_mask[6][2] = 0b0000_0001; // (6, 2, 7)
    b.textures_offset = 9;
    b.update_bounding_box();
    assert_eq!(b.bb_min, pack_u4_vec3(1, 2, 0));
    assert_eq!(b.bb_max, pack_u4_vec3(7, 7, 8));
    assert_eq!(b.textures_offset, 9);
}

#[test]
fn update_bounding_box_of_no_cell() {
    let mut b = Brickmap::empty();
    b.update_bounding_box();
    assert_eq!(b.bb_min, pack_u4_vec3(7, 7, 7));
    assert_eq!(b.bb_max, pack_u4_vec3(1, 1, 1));
}

#[test]
fn brickmap_pointer_raw_flags() {
    assert_eq!(BrickmapPointer::NotLoaded.to_raw().pointer, 0);
    assert_eq!(BrickmapPointer::Empty.to_raw().pointer, 1);
    assert_eq!(BrickmapPointer::Brickmap(0).to_raw().pointer, 3);
    assert_eq!(BrickmapPointer::Brickmap(5).to_raw().pointer, 23);
    assert_eq!(BrickmapPointer::Brickmap(0x3fff_ffff).to_raw().pointer, u32::MAX);
}

#[test]
fn brickmap_pointer_raw_lod_colour() {
    assert_eq!(BrickmapPointer::Lod([1, 0, 0]).to_raw().pointer, 1024 + 2);
    assert_eq!(BrickmapPointer::Lod([0, 1, 0]).to_raw().pointer, 262144 + 2);
    assert_eq!(BrickmapPointer::Lod([0, 0, 1]).to_raw().pointer, 67108864 + 2);
    // The top two bits of the blue byte are shifted out.
    assert_eq!(BrickmapPointer::Lod([0, 0, 0xff]).to_raw().pointer, 63 * 67108864 + 2);
}

#[test]
fn texture_pointer_from_handle() {
    let p = TexturePointer::from(TextureHandle::new(42));
    assert_eq!(p.index, 42);
}

#[test]
fn feedback_empty() {
    let f = Feedback::empty();
    assert_eq!(f.top, 0);
    assert!(f.map_positions.iter().all(|p| *p == [0, 0, 0]));
}

#[test]
fn bitmap4_set_marks_one_bit_per_cell() {
    let mut b = Bitmap4::new();
    assert_eq!(b.size, [256, 8, 256]);
    assert_eq!(b.bit_size, 4);
    b.set(UVec3::new(5, 9, 1023), false);
    assert_eq!(b.bits[1][2][31], 1);
    b.set(UVec3::new(4, 8, 1000), false);
    assert_eq!(b.bits[1][2][31], 33);
    b.set(UVec3::new(7, 11, 1020), true);
    assert_eq!(b.bits[1][2][31], 32);
    assert_eq!(b.bits[0][2][31], 0);
}

#[test]
fn bitmap2_set_uses_two_wide_cells() {
    let mut b = Box::new(Bitmap2::new());
    assert_eq!(b.size, [512, 16, 512]);
    b.set(UVec3::new(0, 0, 0), false);
    assert_eq!(b.bits[0][0][0], 128);
    b.set(UVec3::new(1, 1, 3), false);
    assert_eq!(b.bits[0][0][0], 128 + 64);
    b.set(UVec3::new(1, 1, 1), true);
    assert_eq!(b.bits[0][0][0], 64);
}
