use voxel::render::mesh::cube::UnitCube;
use voxel::render::mesh::quad::TexelTexture;
use voxel::render::texture::{AtlasRect, ImageData, PixelLayout, TextureAtlas, TextureHandle};
use voxel::render::util::BoxToUV;
use voxel::util::int_vec::UVec2;
use voxel::world::block_data::{BlockType, ModelType, StaticBlockData};

fn solid_image(w: u32, h: u32, value: u8) -> ImageData {
    ImageData::new(vec![value; (w * h * 4) as usize], UVec2::new(w, h))
}

#[test]
fn from_decoded_widens_to_rgba() {
    let g = ImageData::from_decoded(vec![10, 20], UVec2::new(2, 1), PixelLayout::Grayscale);
    assert_eq!(g.data, vec![10, 10, 10, 255, 20, 20, 20, 255]);
    assert_eq!(g.dimensions, UVec2::new(2, 1));
    let ga = ImageData::from_decoded(vec![10, 99], UVec2::new(1, 1), PixelLayout::GrayscaleAlpha);
    assert_eq!(ga.data, vec![10, 10, 10, 99]);
    let rgb = ImageData::from_decoded(vec![1, 2, 3, 4, 5, 6], UVec2::new(2, 1), PixelLayout::Rgb);
    assert_eq!(rgb.data, vec![1, 2, 3, 255, 4, 5, 6, 255]);
    let idx = ImageData::from_decoded(vec![7, 8, 9], UVec2::new(1, 1), PixelLayout::Indexed);
    assert_eq!(idx.data, vec![7, 8, 9, 255]);
    let rgba = ImageData::from_decoded(vec![1, 2, 3, 4], UVec2::new(1, 1), PixelLayout::Rgba);
    assert_eq!(rgba.data, vec![1, 2, 3, 4]);
}

#[test]
fn to_quad_uv_gives_corner_and_size() {
    let r = AtlasRect { min_x: 3, min_y: 5, max_x: 7, max_y: 6 };
    let uv: TexelTexture = r.to_quad_uv();
    assert_eq!(uv.offset, [3, 5]);
    assert_eq!(uv.size, [4, 1]);
    let t = TexelTexture::new([1, 2], [3, 4]);
    assert_eq!((t.offset, t.size), ([1, 2], [3, 4]));
}

#[test]
fn from_allocations_places_each_image() {
    let images = vec![solid_image(2, 1, 7), solid_image(1, 2, 9)];
    let rects = vec![
        AtlasRect { min_x: 0, min_y: 0, max_x: 2, max_y: 1 },
        AtlasRect { min_x: 2, min_y: 1, max_x: 3, max_y: 3 },
    ];
    let atlas = TextureAtlas::from_allocations(vec!["a".to_string(), "b".to_string()], images, 3, rects);
    assert_eq!(atlas.data.dimensions, UVec2::new(3, 3));
    let texel = |x: usize, y: usize| atlas.data.data[(y * 3 + x) * 4];
    assert_eq!(texel(0, 0), 7);
    assert_eq!(texel(1, 0), 7);
    assert_eq!(texel(2, 0), 0);
    assert_eq!(texel(2, 1), 9);
    assert_eq!(texel(2, 2), 9);
    assert_eq!(texel(0, 2), 0);
    assert_eq!(atlas.uvs[1].offset, [2, 1]);
    assert_eq!(atlas.uvs[1].size, [1, 2]);
}

#[test]
fn from_images_packs_every_texture_intact() {
    let names = vec!["stone".to_string(), "dirt".to_string(), "grass".to_string()];
    let mut images = vec![solid_image(4, 4, 1), solid_image(2, 4, 2)];
    // An image whose texels differ.
    let data: Vec<u8> = (0..(3 * 2 * 4)).map(|v| v as u8 + 100).collect();
    images.push(ImageData::new(data.clone(), UVec2::new(3, 2)));
    let atlas = TextureAtlas::from_images(names, images, 16).expect("room for three small images");
    assert_eq!(atlas.allocations.len(), 3);
    let side = 16usize;
    let a = atlas.allocations[2];
    assert_eq!((a.max_x - a.min_x, a.max_y - a.min_y), (3, 2));
    for y in 0..2usize {
        for x in 0..3usize {
            for c in 0..4usize {
                let ax = a.min_x as usize + x;
                let ay = a.min_y as usize + y;
                assert_eq!(atlas.data.data[(ay * side + ax) * 4 + c], data[(y * 3 + x) * 4 + c]);
            }
        }
    }
    assert_eq!(atlas.data.data.len(), side * side * 4);
    assert_eq!(atlas.get_uv(TextureHandle::new(2)).size, [3, 2]);
}

#[test]
fn from_images_without_room() {
    let atlas = TextureAtlas::from_images(vec!["big".to_string()], vec![solid_image(5, 5, 1)], 4);
    assert!(atlas.is_none());
    let empty = TextureAtlas::from_images(Vec::new(), Vec::new(), 4).unwrap();
    assert_eq!(empty.data.data, vec![0u8; 64]);
}

#[test]
fn get_handle_finds_the_last_of_a_name() {
    let images = vec![solid_image(1, 1, 1), solid_image(1, 1, 2), solid_image(1, 1, 3)];
    let names = vec!["a".to_string(), "b".to_string(), "a".to_string()];
    let atlas = TextureAtlas::from_images(names, images, 8).unwrap();
    assert_eq!(atlas.get_handle("a").map(|h| h.index()), Some(2));
    assert_eq!(atlas.get_handle("b").map(|h| h.index()), Some(1));
    assert!(atlas.get_handle("c").is_none());
}

#[test]
fn unit_cube_expands_textures() {
    let t = |i| TextureHandle::new(i);
    let one = UnitCube::new(vec![t(4)]).unwrap();
    assert!(one.textures.iter().all(|h| h.index() == 4));
    let three = UnitCube::new(vec![t(1), t(2), t(3)]).unwrap();
    let idx: Vec<u32> = three.textures.iter().map(|h| h.index()).collect();
    assert_eq!(idx, vec![2, 2, 1, 3, 2, 2]);
    let six = UnitCube::expand_textures(vec![t(0), t(1), t(2), t(3), t(4), t(5)]).unwrap();
    let idx: Vec<u32> = six.iter().map(|h| h.index()).collect();
    assert_eq!(idx, vec![0, 1, 2, 3, 4, 5]);
}

#[test]
fn static_block_data_init_from_atlas() {
    let names: Vec<String> = [
        "stone", "dirt", "grass_block_top", "grass_block_side", "leaves", "log_top", "log_side", "grass",
    ]
    .iter()
    .map(|s| s.to_string())
    .collect();
    let images = (0..8).map(|i| solid_image(2, 2, i)).collect();
    let atlas = TextureAtlas::from_images(names, images, 16).unwrap();
    let mut data = StaticBlockData::empty();
    data.init(&atlas);
    let ids: Vec<String> = (0..7u32)
        .map(|i| data.get(&voxel::world::block_data::BlockHandle::new_unchecked(i)).id.clone())
        .collect();
    assert_eq!(ids, vec!["air", "stone", "dirt", "grass_block", "leaves", "log", "grass"]);
    assert_eq!(data.get_handle("grass_block").map(|h| h.inner()), Some(3));
    let grass_block = data.get(&data.get_handle("grass_block").unwrap());
    match &grass_block.model {
        ModelType::FullBlock(cube) => {
            let idx: Vec<u32> = cube.textures.iter().map(|h| h.index()).collect();
            assert_eq!(idx, vec![3, 3, 2, 1, 3, 3]);
        }
        _ => panic!("grass block is a cube"),
    }
    let leaves = data.get(&data.get_handle("leaves").unwrap());
    assert_eq!(leaves.block_type, BlockType::Transparent);
    let grass = data.get(&data.get_handle("grass").unwrap());
    match &grass.model {
        ModelType::Plant(uv) => assert_eq!(uv.size, [2, 2]),
        _ => panic!("grass is a plant"),
    }
}

fn encode_png(width: u32, height: u32, color: png::ColorType, data: &[u8]) -> Vec<u8> {
    let mut out = Vec::new();
    {
        let mut encoder = png::Encoder::new(&mut out, width, height);
        encoder.set_color(color);
        encoder.set_depth(png::BitDepth::Eight);
        let mut writer = encoder.write_header().unwrap();
        writer.write_image_data(data).unwrap();
    }
    out
}

#[test]
fn from_png_widens_rgb_to_rgba() {
    let bytes = encode_png(2, 1, png::ColorType::Rgb, &[1, 2, 3, 4, 5, 6]);
    let image = ImageData::from_png(&bytes).unwrap();
    assert_eq!((image.dimensions.x, image.dimensions.y), (2, 1));
    assert_eq!(image.data, vec![1, 2, 3, 255, 4, 5, 6, 255]);
}

#[test]
fn from_png_widens_gray_alpha() {
    let bytes = encode_png(1, 2, png::ColorType::GrayscaleAlpha, &[7, 8, 9, 10]);
    let image = ImageData::from_png(&bytes).unwrap();
    assert_eq!((image.dimensions.x, image.dimensions.y), (1, 2));
    assert_eq!(image.data, vec![7, 7, 7, 8, 9, 9, 9, 10]);
}

#[test]
fn from_png_refuses_other_bytes() {
    assert!(ImageData::from_png(&[1, 2, 3, 4]).is_none());
    assert!(ImageData::from_png(&[]).is_none());
}

#[test]
fn from_images_gives_same_sized_images_separate_places() {
    let images = vec![solid_image(4, 4, 1), solid_image(4, 4, 2), solid_image(4, 4, 3)];
    let names = vec!["a".to_string(), "b".to_string(), "c".to_string()];
    let atlas = TextureAtlas::from_images(names, images, 8).unwrap();
    for i in 0..3 {
        for j in (i + 1)..3 {
            let a = atlas.allocations[i];
            let b = atlas.allocations[j];
            assert!(a.max_x <= b.min_x || b.max_x <= a.min_x || a.max_y <= b.min_y || b.max_y <= a.min_y);
        }
    }
}

#[test]
fn from_images_without_room_is_none() {
    let images = vec![solid_image(4, 4, 1), solid_image(4, 4, 2)];
    let names = vec!["a".to_string(), "b".to_string()];
    assert!(TextureAtlas::from_images(names, images, 5).is_none());
}
