use voxel::render::accumulation::buffers::{SurfelBuffer, SurfelMap, SurfelMapper};
use voxel::render::brick::brickgrid::BrickgridBufferTask;
use voxel::render::brick::brickmap::Brickmap;
use voxel::render::buffer::allocator::{DrawIndirectCommand, HeapBuffer};
use voxel::render::buffer::swap_buffer::{SwapBuffer, SwapDirtyPhase};
use voxel::render::buffer::task_buffer::TaskBuffer;
use voxel::render::buffer::vertex_buffer::ChunkVertexBuffer;
use voxel::render::mesh::cube::UnitCube;
use voxel::render::texture::TextureHandle;
use voxel::util::int_vec::{IVec2, IVec3, UVec3};
use voxel::world::block_data::{BlockHandle, BlockType, InitBlockData, StaticBlockData};
use voxel::world::chunk::Chunk;
use voxel::world::section::Section;

fn heap(capacity: usize) -> HeapBuffer<u32, usize> {
    HeapBuffer::new(SwapBuffer::from_buffers(0, 1), capacity, 3)
}

#[test]
fn heap_insert_takes_ranges_one_after_another() {
    let mut h = heap(16);
    let a = h.insert(IVec3::new(0, 0, 0), &[1, 2, 3]);
    let b = h.insert(IVec3::new(0, 1, 0), &[4, 5]);
    assert_eq!((a.front, a.back), (0, 3));
    assert_eq!((b.front, b.back), (3, 5));
    assert_eq!(h.highest(), 5);
    let got = h.allocation(IVec3::new(0, 1, 0)).unwrap();
    assert_eq!((got.front, got.back), (3, 5));
    assert!(h.allocation(IVec3::new(9, 9, 9)).is_none());
}

#[test]
fn heap_remove_frees_the_range_for_reuse() {
    let mut h = heap(16);
    h.insert(IVec3::new(0, 0, 0), &[1, 2, 3]);
    h.insert(IVec3::new(1, 0, 0), &[4]);
    h.remove(IVec3::new(0, 0, 0));
    assert!(h.allocation(IVec3::new(0, 0, 0)).is_none());
    let c = h.insert(IVec3::new(2, 0, 0), &[7, 8]);
    assert_eq!((c.front, c.back), (0, 2));
}

#[test]
fn heap_writes_reach_both_buffers() {
    let mut h = heap(6);
    let mut bufs = [vec![0u32; 6], vec![0u32; 6]];
    h.insert(IVec3::new(0, 0, 0), &[5, 6]);
    h.reinsert(IVec3::new(0, 0, 0), &[7, 8, 9]);
    let free = *h.get_buffer() ^ 1;
    assert!(h.update(&mut bufs[free]));
    let free = *h.get_buffer() ^ 1;
    assert!(!h.update(&mut bufs[free]));
    assert_eq!(bufs[0], bufs[1]);
    let a = h.allocation(IVec3::new(0, 0, 0)).unwrap();
    assert_eq!(&bufs[0][a.front as usize..a.back as usize], &[7, 8, 9]);
}

#[test]
fn heap_indirect_commands() {
    let mut h = heap(16);
    h.insert(IVec3::new(0, 0, 0), &[1, 2]);
    h.insert(IVec3::new(0, 0, 1), &[3, 4, 5]);
    let mut cmds = h.get_ind_commands(3);
    cmds.sort_by_key(|c| c.first_vertex);
    assert_eq!(
        cmds,
        vec![
            DrawIndirectCommand { vertex_count: 6, instance_count: 1, first_vertex: 0, first_instance: 0 },
            DrawIndirectCommand { vertex_count: 9, instance_count: 1, first_vertex: 6, first_instance: 0 },
        ]
    );
}

#[test]
fn task_buffer_write_marks_dirty() {
    let mut t: TaskBuffer<BrickgridBufferTask, usize> = TaskBuffer::new(SwapBuffer::from_buffers(0, 1));
    assert_eq!(t.dirty, SwapDirtyPhase::Clean);
    assert_eq!(*t.get_buffer(), 0);
    let task = BrickgridBufferTask::One {
        pos: UVec3::new(1, 2, 3),
        section: voxel::render::brick::brickmap::BrickmapPointer::Empty.to_raw(),
    };
    t.write(task);
    assert_eq!(t.dirty, SwapDirtyPhase::Dirty);
    t.write(task);
    assert_eq!(t.dirty, SwapDirtyPhase::Dirty);
}

#[test]
fn surfel_mapper_appends_to_a_section() {
    let mut m = SurfelMapper::new();
    let mut map = SurfelMap::new();
    let a = IVec3::new(0, 0, 0);
    let b = IVec3::new(1, 0, 0);
    m.add_surfel_to_section(&mut map, 10, a);
    m.add_surfel_to_section(&mut map, 20, b);
    m.add_surfel_to_section(&mut map, 11, a);
    m.add_surfel_to_section(&mut map, 12, a);
    let list = |m: &SurfelMapper, map: &SurfelMap, p: IVec3| {
        let r = m.allocation(p).unwrap();
        map.pointers[r.front as usize..r.back as usize].to_vec()
    };
    assert_eq!(list(&m, &map, a), vec![10, 11, 12]);
    assert_eq!(list(&m, &map, b), vec![20]);
    assert!(m.allocation(IVec3::new(5, 5, 5)).is_none());
}

fn block_data() -> StaticBlockData {
    let mut data = StaticBlockData::empty();
    data.add(InitBlockData::air());
    data.add(InitBlockData::new_block("stone", UnitCube::new(vec![TextureHandle::new(0)]), BlockType::Full));
    data
}

fn vertex_buffer() -> ChunkVertexBuffer<usize, usize, usize> {
    ChunkVertexBuffer::new(
        SwapBuffer::from_buffers(0, 1),
        64,
        SwapBuffer::from_buffers(0, 1),
        20000,
        SwapBuffer::from_buffers(0, 1),
    )
}

#[test]
fn insert_section_with_blocks() {
    let data = block_data();
    let mut vb = vertex_buffer();
    let mut s = Section::empty();
    s.set_block(UVec3::new(0, 0, 1), BlockHandle::new_unchecked(1));
    s.set_block(UVec3::new(2, 0, 0), BlockHandle::new_unchecked(1));
    s.update_brickmap(&data);
    let pos = IVec3::new(3, 1, -2);
    vb.insert_section(pos, &s, &data);
    assert!(vb.has_section(pos));
    assert_eq!(vb.brickgrid_buffer.dirty, SwapDirtyPhase::Dirty);
    let tp = vb.texture_pointer_buffer.allocation(pos).unwrap();
    assert_eq!(tp.back - tp.front, 2);
    let mut ids = vec![0u32; 20000];
    vb.texture_pointer_buffer.update(&mut ids);
    assert_eq!(&ids[tp.front as usize..tp.back as usize], &[1, 1]);
    let mut maps = vec![Brickmap::empty(); 64];
    vb.brickmap_buffer.update(&mut maps);
    let bm = vb.brickmap_buffer.allocation(pos).unwrap();
    assert_eq!(maps[bm.front as usize].textures_offset, tp.front);
    assert_eq!(maps[bm.front as usize].solid_mask, s.brickmap.solid_mask);
}

#[test]
fn insert_section_without_blocks() {
    let data = block_data();
    let mut vb = vertex_buffer();
    let s = Section::empty();
    let pos = IVec3::new(0, 0, 0);
    vb.insert_section(pos, &s, &data);
    assert!(!vb.has_section(pos));
    assert_eq!(vb.brickgrid_buffer.dirty, SwapDirtyPhase::Dirty);
}

#[test]
fn insert_and_remove_chunk() {
    let data = block_data();
    let mut vb = vertex_buffer();
    let mut c = Chunk::empty(IVec2::new(4, 5));
    c.sections[2].set_block(UVec3::new(1, 1, 1), BlockHandle::new_unchecked(1));
    c.update_brickmap(&data);
    vb.insert_chunk(&c, &data);
    assert!(vb.has_section(IVec3::new(4, 2, 5)));
    assert!(!vb.has_section(IVec3::new(4, 3, 5)));
    vb.remove_chunk(IVec2::new(4, 5));
    assert!(!vb.has_section(IVec3::new(4, 2, 5)));
    let _ = BrickgridBufferTask::One { pos: UVec3::new(0, 0, 0), section: voxel::render::brick::brickmap::BrickmapPointer::Empty.to_raw() };
}

#[test]
fn surfel_buffer_hands_out_slots_from_the_top() {
    let mut b = SurfelBuffer::new();
    let mut slots = vec!['-'; 4];
    assert_eq!(b.insert(&mut slots, 'a'), 0);
    assert_eq!(b.insert(&mut slots, 'b'), 1);
    b.remove(&mut slots, 0, '-');
    // A removed slot is cleared but not handed out again.
    assert_eq!(b.insert(&mut slots, 'c'), 2);
    assert_eq!(slots, vec!['-', 'b', 'c', '-']);
}
