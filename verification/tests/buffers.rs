use voxel::render::buffer::allocator::{ChunkBufferAllocation, ChunkBufferAllocator, DualHashMap};
use voxel::render::buffer::swap_buffer::{SwapBuffer, SwapBufferQueueTask, SwapBufferSlice, SwapDirtyPhase};

#[test]
fn allocation_constructors() {
    let a = ChunkBufferAllocation::new(3, 9);
    assert_eq!((a.front, a.back), (3, 9));
    let b = ChunkBufferAllocation::new_size(3, 6);
    assert_eq!((b.front, b.back), (3, 9));
}

#[test]
fn dual_map_lookups_both_ways() {
    let mut m = DualHashMap::new();
    m.insert(2, 7);
    m.insert(10, 12);
    assert_eq!(m._get_back(&2), Some(&7));
    assert_eq!(m._get_front(&12), Some(&10));
    assert_eq!(m._get_back(&7), None);
    assert_eq!(m.remove_front(&2), Some(7));
    assert_eq!(m._get_front(&7), None);
    assert_eq!(m.remove_back(&12), Some(10));
    assert_eq!(m._get_back(&10), None);
    assert_eq!(m.remove_front(&99), None);
    assert_eq!(m.remove_back(&99), None);
}

#[test]
fn allocator_grows_from_the_top() {
    let mut a = ChunkBufferAllocator::new();
    let x = a.allocate(10);
    let y = a.allocate(5);
    assert_eq!((x.front, x.back), (0, 10));
    assert_eq!((y.front, y.back), (10, 15));
}

#[test]
fn allocator_reuses_freed_range() {
    let mut a = ChunkBufferAllocator::new();
    let x = a.allocate(10);
    let _y = a.allocate(5);
    a.deallocate(&x);
    let z = a.allocate(4);
    assert_eq!((z.front, z.back), (0, 4));
    let w = a.allocate(6);
    assert_eq!((w.front, w.back), (4, 10));
    let v = a.allocate(1);
    assert_eq!((v.front, v.back), (15, 16));
}

#[test]
fn allocator_joins_neighbouring_free_ranges() {
    let mut a = ChunkBufferAllocator::new();
    let x = a.allocate(4);
    let y = a.allocate(4);
    let z = a.allocate(4);
    let _top = a.allocate(1);
    a.deallocate(&x);
    a.deallocate(&z);
    a.deallocate(&y);
    // One free range [0, 12) now holds twelve units.
    let big = a.allocate(12);
    assert_eq!((big.front, big.back), (0, 12));
}

#[test]
fn allocate_then_deallocate_restores_free_space() {
    let mut a = ChunkBufferAllocator::new();
    let x = a.allocate(8);
    let _keep = a.allocate(2);
    a.deallocate(&x);
    let y = a.allocate(3);
    a.deallocate(&y);
    // The whole of [0, 8) is free again.
    let z = a.allocate(8);
    assert_eq!((z.front, z.back), (0, 8));
}

#[test]
fn find_free_reports_a_fitting_range() {
    let mut m = DualHashMap::new();
    m.insert(0, 3);
    m.insert(10, 20);
    assert_eq!(ChunkBufferAllocator::find_free(&m, 5), Some((10, 20, 10)));
    assert_eq!(ChunkBufferAllocator::find_free(&m, 11), None);
}

#[test]
fn swap_buffer_swaps() {
    let mut b = SwapBuffer::from_buffers('a', 'b');
    assert_eq!(*b.current_buffer(), 'a');
    assert_eq!(*b.free_buffer(), 'b');
    b.swap();
    assert_eq!(*b.current_buffer(), 'b');
    assert_eq!(*b.free_buffer(), 'a');
    b.swap();
    assert_eq!(*b.current_buffer(), 'a');
}

#[test]
fn queue_task_holds_its_data() {
    let t = SwapBufferQueueTask::new(4, vec![1u32, 2]);
    assert_eq!(t.start_idx, 4);
    assert_eq!(t.data, vec![1, 2]);
}

#[test]
fn swap_buffer_slice_phases() {
    let mut s: SwapBufferSlice<u32, usize> = SwapBufferSlice::new(SwapBuffer::from_buffers(0, 1));
    let mut bufs = [vec![0u32; 6], vec![0u32; 6]];
    assert_eq!(s.dirty, SwapDirtyPhase::Clean);

    // Nothing to do while clean.
    let free = *s.buffer.free_buffer();
    assert!(!s.update(&mut bufs[free]));

    s.write(1, &[7, 8]);
    assert_eq!(s.dirty, SwapDirtyPhase::Dirty);

    // The write goes to the free buffer, which then comes into use.
    let free = *s.buffer.free_buffer();
    assert!(s.update(&mut bufs[free]));
    assert_eq!(s.dirty, SwapDirtyPhase::SwappedWaiting);
    assert_eq!(*s.buffer.current_buffer(), free);
    assert_eq!(bufs[1], vec![0, 7, 8, 0, 0, 0]);

    // The buffer that was in use catches up.
    let free = *s.buffer.free_buffer();
    assert!(s.update(&mut bufs[free]));
    assert_eq!(s.dirty, SwapDirtyPhase::Clean);
    assert_eq!(bufs[0], bufs[1]);
}

#[test]
fn swap_buffer_slice_write_while_waiting() {
    let mut s: SwapBufferSlice<u32, usize> = SwapBufferSlice::new(SwapBuffer::from_buffers(0, 1));
    let mut bufs = [vec![0u32; 4], vec![0u32; 4]];
    s.write(0, &[1]);
    let free = *s.buffer.free_buffer();
    s.update(&mut bufs[free]);
    s.write(3, &[9]);
    assert_eq!(s.dirty, SwapDirtyPhase::SwappedImmediate);

    // Catch up with the first write, add the second and swap at once.
    let free = *s.buffer.free_buffer();
    assert!(s.update(&mut bufs[free]));
    assert_eq!(s.dirty, SwapDirtyPhase::SwappedWaiting);
    assert_eq!(bufs[0], vec![1, 0, 0, 9]);

    let free = *s.buffer.free_buffer();
    assert!(s.update(&mut bufs[free]));
    assert_eq!(s.dirty, SwapDirtyPhase::Clean);
    assert_eq!(bufs[1], vec![1, 0, 0, 9]);
}

#[test]
fn allocator_keeps_held_ranges_apart() {
    let mut a = ChunkBufferAllocator::new();
    let mut live = vec![a.allocate(5), a.allocate(3), a.allocate(7), a.allocate(2)];
    let freed = live.remove(1);
    a.deallocate(&freed);
    let freed = live.remove(1);
    a.deallocate(&freed);
    live.push(a.allocate(4));
    live.push(a.allocate(6));
    live.push(a.allocate(9));
    for i in 0..live.len() {
        assert!(live[i].front < live[i].back);
        for j in (i + 1)..live.len() {
            assert!(live[i].back <= live[j].front || live[j].back <= live[i].front);
        }
    }
}
