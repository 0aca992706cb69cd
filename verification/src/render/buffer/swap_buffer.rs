use vstd::prelude::*;

verus! {

/// A pending write of `data` starting at element `start_idx`.
#[derive(Clone, Debug)]
pub struct SwapBufferQueueTask<T> {
    pub start_idx: usize,
    pub data: Vec<T>,
}

impl<T> SwapBufferQueueTask<T> {
    pub fn new(start_idx: usize, data: Vec<T>) -> (r: Self)
        ensures
            r.start_idx == start_idx,
            r.data@ == data@,
    {
        Self { start_idx, data }
    }

    /// The write as a start index and the elements it writes.
    pub open spec fn spec_write(&self) -> (int, Seq<T>) {
        (self.start_idx as int, self.data@)
    }
}

/// The writes of a queue of tasks, in order.
pub open spec fn task_writes<T>(q: Seq<SwapBufferQueueTask<T>>) -> Seq<(int, Seq<T>)> {
    q.map_values(|t: SwapBufferQueueTask<T>| t.spec_write())
}

/// `buf` with `data` written from index `start` on.
pub open spec fn write_at<T>(buf: Seq<T>, start: int, data: Seq<T>) -> Seq<T> {
    Seq::new(
        buf.len(),
        |i: int|
            if start <= i < start + data.len() {
                data[i - start]
            } else {
                buf[i]
            },
    )
}

/// `buf` after each write, in order.
pub open spec fn apply_writes<T>(buf: Seq<T>, writes: Seq<(int, Seq<T>)>) -> Seq<T>
    decreases writes.len(),
{
    if writes.len() == 0 {
        buf
    } else {
        apply_writes(write_at(buf, writes[0].0, writes[0].1), writes.drop_first())
    }
}

/// Every write lies inside a buffer of `len` elements.
pub open spec fn writes_fit<T>(writes: Seq<(int, Seq<T>)>, len: int) -> bool {
    forall|i: int| 0 <= i < writes.len() ==> 0 <= (#[trigger] writes[i]).0 && writes[i].0
        + writes[i].1.len() <= len
}

/// Applying two lists of writes is applying their concatenation.
pub proof fn lemma_apply_concat<T>(buf: Seq<T>, a: Seq<(int, Seq<T>)>, b: Seq<(int, Seq<T>)>)
    ensures
        apply_writes(apply_writes(buf, a), b) == apply_writes(buf, a + b),
    decreases a.len(),
{
    if a.len() == 0 {
        assert(a + b == b);
    } else {
        assert((a + b).drop_first() == a.drop_first() + b);
        assert((a + b)[0] == a[0]);
        lemma_apply_concat(write_at(buf, a[0].0, a[0].1), a.drop_first(), b);
    }
}

proof fn lemma_apply_len<T>(buf: Seq<T>, w: Seq<(int, Seq<T>)>)
    ensures
        apply_writes(buf, w).len() == buf.len(),
    decreases w.len(),
{
    if w.len() > 0 {
        lemma_apply_len(write_at(buf, w[0].0, w[0].1), w.drop_first());
    }
}

/// Where a swap buffer stands between writes and swaps.
#[derive(Copy, Clone, Debug, PartialEq, Eq, Structural)]
pub enum SwapDirtyPhase {
    /// Swap ASAP
    Dirty,
    /// Swapped, no new data yet; Write after free but don't swap again.
    SwappedWaiting,
    /// Swapped, new data in queue; Write after free and swap again immediately.
    SwappedImmediate,
    /// All good!
    Clean,
}

/// The phase after a write is queued.
pub open spec fn phase_after_write(p: SwapDirtyPhase) -> SwapDirtyPhase {
    match p {
        SwapDirtyPhase::SwappedWaiting => SwapDirtyPhase::SwappedImmediate,
        SwapDirtyPhase::Clean => SwapDirtyPhase::Dirty,
        other => other,
    }
}

/// Two buffers of which one is in use and the other free to be written.
pub struct SwapBuffer<B> {
    /// `1` when `buffer_1` is in use, `2` when `buffer_2` is.
    pub current: u8,
    pub buffer_1: B,
    pub buffer_2: B,
}

impl<B> SwapBuffer<B> {
    /// The buffer in use is `buffer_1`.
    pub open spec fn first_current(&self) -> bool {
        self.current == 1
    }

    pub open spec fn wf(&self) -> bool {
        self.current == 1 || self.current == 2
    }

    /// Two buffers, the first in use.
    pub fn from_buffers(buffer_1: B, buffer_2: B) -> (r: Self)
        ensures
            r.wf(),
            r.first_current(),
            r.buffer_1 == buffer_1,
            r.buffer_2 == buffer_2,
    {
        Self { current: 1, buffer_1, buffer_2 }
    }

    /// The free buffer becomes the one in use, and the other way round.
    pub fn swap(&mut self)
        requires
            old(self).wf(),
        ensures
            final(self).wf(),
            final(self).first_current() == !old(self).first_current(),
            final(self).buffer_1 == old(self).buffer_1,
            final(self).buffer_2 == old(self).buffer_2,
    {
        self.current = 3 - self.current;
    }

    pub fn current_buffer(&self) -> (r: &B)
        requires
            self.wf(),
        ensures
            *r == if self.first_current() {
                self.buffer_1
            } else {
                self.buffer_2
            },
    {
        if self.current == 1 {
            &self.buffer_1
        } else {
            &self.buffer_2
        }
    }

    pub fn free_buffer(&self) -> (r: &B)
        requires
            self.wf(),
        ensures
            *r == if self.first_current() {
                self.buffer_2
            } else {
                self.buffer_1
            },
    {
        if self.current == 2 {
            &self.buffer_1
        } else {
            &self.buffer_2
        }
    }
}

/// What one `update` with the free buffer's contents `free` does: the phase,
/// queue and after-free writes that follow, the free buffer's new contents,
/// whether the buffers swap, and whether anything was done.
pub open spec fn update_spec<T>(
    phase: SwapDirtyPhase,
    queue: Seq<(int, Seq<T>)>,
    after: Seq<(int, Seq<T>)>,
    free: Seq<T>,
) -> (SwapDirtyPhase, Seq<(int, Seq<T>)>, Seq<(int, Seq<T>)>, Seq<T>, bool, bool) {
    match phase {
        SwapDirtyPhase::Dirty => (
            SwapDirtyPhase::SwappedWaiting,
            Seq::empty(),
            queue,
            apply_writes(free, queue),
            true,
            true,
        ),
        SwapDirtyPhase::SwappedWaiting => (
            SwapDirtyPhase::Clean,
            queue,
            Seq::empty(),
            apply_writes(free, after),
            false,
            true,
        ),
        SwapDirtyPhase::SwappedImmediate => (
            SwapDirtyPhase::SwappedWaiting,
            Seq::empty(),
            queue,
            apply_writes(apply_writes(free, after), queue),
            true,
            true,
        ),
        SwapDirtyPhase::Clean => (SwapDirtyPhase::Clean, queue, after, free, false, false),
    }
}

/// A buffer of `T` held twice, so that one copy can be written while the other is in use.
pub struct SwapBufferSlice<T, B> {
    pub queue: Vec<SwapBufferQueueTask<T>>,
    pub after_free: Vec<SwapBufferQueueTask<T>>,
    pub buffer: SwapBuffer<B>,
    pub dirty: SwapDirtyPhase,
}

impl<T: Copy, B> SwapBufferSlice<T, B> {
    /// The phase.
    pub open spec fn phase(&self) -> SwapDirtyPhase {
        self.dirty
    }

    /// The two buffers.
    pub open spec fn swap_buffer(&self) -> SwapBuffer<B> {
        self.buffer
    }

    /// Writes waiting for the free buffer.
    pub open spec fn queued(&self) -> Seq<(int, Seq<T>)> {
        task_writes(self.queue@)
    }

    /// Writes already in the buffer in use that the free buffer still lacks.
    pub open spec fn after_free_writes(&self) -> Seq<(int, Seq<T>)> {
        task_writes(self.after_free@)
    }

    pub fn new(buffer: SwapBuffer<B>) -> (r: Self)
        ensures
            r.queued() == Seq::<(int, Seq<T>)>::empty(),
            r.after_free_writes() == Seq::<(int, Seq<T>)>::empty(),
            r.phase() == SwapDirtyPhase::Clean,
            r.swap_buffer() == buffer,
    {
        let r = Self { queue: Vec::new(), after_free: Vec::new(), buffer, dirty: SwapDirtyPhase::Clean };
        proof {
            assert(r.queued() =~= Seq::<(int, Seq<T>)>::empty());
            assert(r.after_free_writes() =~= Seq::<(int, Seq<T>)>::empty());
        }
        r
    }

    /// Queues a write of `data` from `start_idx` on.
    pub fn write(&mut self, start_idx: usize, data: &[T])
        ensures
            final(self).queued() == old(self).queued().push((start_idx as int, data@)),
            final(self).after_free_writes() == old(self).after_free_writes(),
            final(self).phase() == phase_after_write(old(self).phase()),
            final(self).swap_buffer() == old(self).swap_buffer(),
    {
        let mut owned: Vec<T> = Vec::new();
        let mut i: usize = 0;
        while i < data.len()
            invariant
                i <= data@.len(),
                owned@ == data@.subrange(0, i as int),
            decreases data@.len() - i,
        {
            owned.push(data[i]);
            i = i + 1;
        }
        proof {
            assert(owned@ == data@);
        }
        self.queue.push(SwapBufferQueueTask::new(start_idx, owned));
        proof {
            assert(self.queued() =~= old(self).queued().push((start_idx as int, data@)));
        }
        match self.dirty {
            SwapDirtyPhase::SwappedWaiting => self.dirty = SwapDirtyPhase::SwappedImmediate,
            SwapDirtyPhase::Clean => self.dirty = SwapDirtyPhase::Dirty,
            _ => (),
        }
    }

    /// Does the work of the current phase on the free buffer, whose write lock
    /// the caller holds as `free`; returns whether anything was done.
    pub fn update(&mut self, free: &mut [T]) -> (r: bool)
        requires
            old(self).swap_buffer().wf(),
            writes_fit(old(self).queued(), old(free)@.len() as int),
            writes_fit(old(self).after_free_writes(), old(free)@.len() as int),
        ensures
            final(self).swap_buffer().wf(),
            final(self).swap_buffer().buffer_1 == old(self).swap_buffer().buffer_1,
            final(self).swap_buffer().buffer_2 == old(self).swap_buffer().buffer_2,
            ({
                let (p, q, a, f, swapped, done) = update_spec(
                    old(self).phase(),
                    old(self).queued(),
                    old(self).after_free_writes(),
                    old(free)@,
                );
                &&& final(self).phase() == p
                &&& final(self).queued() == q
                &&& final(self).after_free_writes() == a
                &&& final(free)@ == f
                &&& final(self).swap_buffer().first_current() == (old(self).swap_buffer().first_current() != swapped)
                &&& r == done
            }),
    {
        match self.dirty {
            SwapDirtyPhase::Dirty => {
                // (there may be a better way to transfer the data instead of copying it)
                self.after_free = Self::copy_tasks(&self.queue);
                Self::write_queue_buffer(&mut self.queue, free);
                self.buffer.swap();
                self.dirty = SwapDirtyPhase::SwappedWaiting;
                proof {
                    assert(self.queued() =~= Seq::<(int, Seq<T>)>::empty());
                }
                true
            },
            SwapDirtyPhase::SwappedWaiting => {
                // Write the new data that was written to the in-use buffer
                Self::write_queue_buffer(&mut self.after_free, free);
                self.dirty = SwapDirtyPhase::Clean;
                proof {
                    assert(self.after_free_writes() =~= Seq::<(int, Seq<T>)>::empty());
                }
                true
            },
            SwapDirtyPhase::SwappedImmediate => {
                // Write the new data that was written to the in-use buffer
                Self::write_queue_buffer(&mut self.after_free, free);
                proof {
                    lemma_apply_len(old(free)@, old(self).after_free_writes());
                }
                self.after_free = Self::copy_tasks(&self.queue);

                // Write the new data to the now-free buffer and swap immediately
                Self::write_queue_buffer(&mut self.queue, free);
                self.buffer.swap();
                self.dirty = SwapDirtyPhase::SwappedWaiting;
                proof {
                    assert(self.queued() =~= Seq::<(int, Seq<T>)>::empty());
                }
                true
            },
            SwapDirtyPhase::Clean => false,
        }
    }

    /// A copy of each task.
    fn copy_tasks(queue: &Vec<SwapBufferQueueTask<T>>) -> (r: Vec<SwapBufferQueueTask<T>>)
        ensures
            task_writes(r@) == task_writes(queue@),
    {
        let mut r: Vec<SwapBufferQueueTask<T>> = Vec::new();
        let mut i: usize = 0;
        while i < queue.len()
            invariant
                i <= queue@.len(),
                r@.len() == i,
                forall|j: int| 0 <= j < i ==> (#[trigger] r@[j]).spec_write() == queue@[j].spec_write(),
            decreases queue@.len() - i,
        {
            let task = &queue[i];
            let mut data: Vec<T> = Vec::new();
            let mut j: usize = 0;
            while j < task.data.len()
                invariant
                    j <= task.data@.len(),
                    data@ == task.data@.subrange(0, j as int),
                decreases task.data@.len() - j,
            {
                data.push(task.data[j]);
                j = j + 1;
            }
            proof {
                assert(data@ == task.data@);
            }
            r.push(SwapBufferQueueTask::new(task.start_idx, data));
            i = i + 1;
        }
        proof {
            assert(task_writes(r@) =~= task_writes(queue@));
        }
        r
    }

    /// Writes a queue to a write lock and clears the queue.
    fn write_queue_buffer(queue: &mut Vec<SwapBufferQueueTask<T>>, write_lock: &mut [T])
        requires
            writes_fit(task_writes(old(queue)@), old(write_lock)@.len() as int),
        ensures
            final(queue)@.len() == 0,
            final(write_lock)@ == apply_writes(old(write_lock)@, task_writes(old(queue)@)),
    {
        let ghost ws = task_writes(queue@);
        let mut k: usize = 0;
        proof {
            assert(ws.subrange(0, ws.len() as int) =~= ws);
        }
        while k < queue.len()
            invariant
                k <= queue@.len(),
                ws == task_writes(queue@),
                ws.len() == queue@.len(),
                write_lock@.len() == old(write_lock)@.len(),
                writes_fit(ws, write_lock@.len() as int),
                apply_writes(write_lock@, ws.subrange(k as int, ws.len() as int)) == apply_writes(
                    old(write_lock)@,
                    ws,
                ),
            decreases queue@.len() - k,
        {
            let task = &queue[k];
            let buffer_len = write_lock.len();
            let ghost before = write_lock@;
            proof {
                assert(ws[k as int] == (task.start_idx as int, task.data@));
                assert(0 <= ws[k as int].0 && ws[k as int].0 + ws[k as int].1.len() <= write_lock@.len());
            }
            let end = task.start_idx + task.data.len();
            let mut j: usize = 0;
            while j < task.data.len()
                invariant
                    j <= task.data@.len(),
                    end == task.start_idx + task.data@.len(),
                    end <= before.len(),
                    write_lock@.len() == before.len(),
                    forall|i: int|
                        0 <= i < before.len() ==> #[trigger] write_lock@[i] == if task.start_idx <= i
                            < task.start_idx + j {
                            task.data@[i - task.start_idx]
                        } else {
                            before[i]
                        },
                decreases task.data@.len() - j,
            {
                write_lock[task.start_idx + j] = task.data[j];
                j = j + 1;
            }
            proof {
                assert(write_lock@ =~= write_at(before, task.start_idx as int, task.data@));
                let rest = ws.subrange(k as int, ws.len() as int);
                assert(rest[0] == ws[k as int]);
                assert(rest.drop_first() =~= ws.subrange(k + 1, ws.len() as int));
            }
            k = k + 1;
        }
        proof {
            assert(ws.subrange(k as int, ws.len() as int) =~= Seq::<(int, Seq<T>)>::empty());
        }
        queue.clear();
    }
}

/// How the two buffers stand to each other in each phase: the buffer in use
/// holds every write, the free buffer lacks the after-free writes, and the
/// queue holds writes neither buffer has yet.
pub open spec fn buffers_consistent<T>(
    phase: SwapDirtyPhase,
    queue: Seq<(int, Seq<T>)>,
    after: Seq<(int, Seq<T>)>,
    current: Seq<T>,
    free: Seq<T>,
) -> bool {
    &&& current.len() == free.len()
    &&& writes_fit(queue, free.len() as int)
    &&& writes_fit(after, free.len() as int)
    &&& match phase {
        SwapDirtyPhase::Clean => queue.len() == 0 && after.len() == 0 && current == free,
        SwapDirtyPhase::Dirty => after.len() == 0 && current == free,
        SwapDirtyPhase::SwappedWaiting => queue.len() == 0 && current == apply_writes(free, after),
        SwapDirtyPhase::SwappedImmediate => current == apply_writes(free, after),
    }
}

/// Queuing a write keeps the buffers consistent.
pub proof fn lemma_write_keeps_consistent<T>(
    phase: SwapDirtyPhase,
    queue: Seq<(int, Seq<T>)>,
    after: Seq<(int, Seq<T>)>,
    current: Seq<T>,
    free: Seq<T>,
    w: (int, Seq<T>),
)
    requires
        buffers_consistent(phase, queue, after, current, free),
        0 <= w.0 && w.0 + w.1.len() <= free.len(),
    ensures
        buffers_consistent(phase_after_write(phase), queue.push(w), after, current, free),
        apply_writes(current, queue.push(w)) == apply_writes(
            apply_writes(current, queue),
            seq![w],
        ),
{
    assert forall|i: int| 0 <= i < queue.push(w).len() implies 0 <= (#[trigger] queue.push(
        w,
    )[i]).0 && queue.push(w)[i].0 + queue.push(w)[i].1.len() <= free.len() by {
        if i < queue.len() {
            assert(queue.push(w)[i] == queue[i]);
        }
    }
    assert(queue + seq![w] == queue.push(w));
    lemma_apply_concat(current, queue, seq![w]);
}

/// An update keeps the buffers consistent, and what a reader will see once
/// the queue is written, the buffer in use with the queue applied, stays the same.
pub proof fn lemma_update_keeps_consistent<T>(
    phase: SwapDirtyPhase,
    queue: Seq<(int, Seq<T>)>,
    after: Seq<(int, Seq<T>)>,
    current: Seq<T>,
    free: Seq<T>,
)
    requires
        buffers_consistent(phase, queue, after, current, free),
    ensures
        ({
            let (p, q, a, f, swapped, done) = update_spec(phase, queue, after, free);
            let (new_current, new_free) = if swapped {
                (f, current)
            } else {
                (current, f)
            };
            &&& buffers_consistent(p, q, a, new_current, new_free)
            &&& apply_writes(new_current, q) == apply_writes(current, queue)
        }),
{
    lemma_apply_len(free, queue);
    lemma_apply_len(free, after);
    lemma_apply_len(apply_writes(free, after), queue);
    match phase {
        SwapDirtyPhase::Dirty => {
        },
        SwapDirtyPhase::SwappedWaiting => {
            assert(queue =~= Seq::<(int, Seq<T>)>::empty());
        },
        SwapDirtyPhase::SwappedImmediate => {
        },
        SwapDirtyPhase::Clean => {
        },
    }
}

/// Once clean, both buffers hold the same elements, with nothing waiting.
pub proof fn lemma_clean_buffers_agree<T>(
    queue: Seq<(int, Seq<T>)>,
    after: Seq<(int, Seq<T>)>,
    current: Seq<T>,
    free: Seq<T>,
)
    requires
        buffers_consistent(SwapDirtyPhase::Clean, queue, after, current, free),
    ensures
        current == free,
        apply_writes(current, queue) == current,
{
}

/// From any phase, at most two updates without new writes reach the clean phase.
pub proof fn lemma_updates_reach_clean<T>(
    phase: SwapDirtyPhase,
    queue: Seq<(int, Seq<T>)>,
    after: Seq<(int, Seq<T>)>,
    free1: Seq<T>,
    free2: Seq<T>,
)
    requires
        phase == SwapDirtyPhase::SwappedWaiting ==> queue.len() == 0,
    ensures
        ({
            let (p1, q1, a1, f1, s1, d1) = update_spec(phase, queue, after, free1);
            let (p2, q2, a2, f2, s2, d2) = update_spec(p1, q1, a1, free2);
            p1 == SwapDirtyPhase::Clean || p2 == SwapDirtyPhase::Clean
        }),
{
}

} // verus!
