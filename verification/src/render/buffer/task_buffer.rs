use vstd::prelude::*;
use std::collections::VecDeque;
use crate::render::buffer::swap_buffer::{SwapBuffer, SwapDirtyPhase, phase_after_write};

verus! {

/// The contents of a buffer that queued tasks of type `T` write to.
pub trait TaskTarget<T>: Sized {
    /// What one cell of the buffer holds.
    type Cell;

    /// The cells of the buffer.
    spec fn contents(&self) -> Seq<Self::Cell>;

    /// The cells after `tasks`, in order, are written to `c`.
    spec fn after_tasks(c: Seq<Self::Cell>, tasks: Seq<T>) -> Seq<Self::Cell>;

    /// Writing two lists one after the other is writing them joined.
    proof fn lemma_after_tasks_concat(c: Seq<Self::Cell>, a: Seq<T>, b: Seq<T>)
        ensures
            Self::after_tasks(Self::after_tasks(c, a), b) == Self::after_tasks(c, a + b),
    ;

    /// Writing no task leaves the contents as they are.
    proof fn lemma_after_no_tasks(c: Seq<Self::Cell>)
        ensures
            Self::after_tasks(c, Seq::empty()) == c,
    ;

    /// Writes the queued tasks to `target` and empties the queue.
    fn write_queue(queue: &mut VecDeque<T>, target: &mut Self)
        ensures
            final(queue)@.len() == 0,
            final(target).contents() == Self::after_tasks(old(target).contents(), old(queue)@),
    ;
}

/// What `TaskBuffer::update` does in each phase, given the queued tasks and
/// those the free buffer still lacks: the next phase, the queue and the
/// lacking tasks afterwards, the tasks written to the free buffer, whether the
/// buffers swap, and whether anything was done.
pub open spec fn task_update_spec<T>(phase: SwapDirtyPhase, queued: Seq<T>, after_free: Seq<T>) -> (
    SwapDirtyPhase,
    Seq<T>,
    Seq<T>,
    Seq<T>,
    bool,
    bool,
) {
    match phase {
        SwapDirtyPhase::Dirty => (SwapDirtyPhase::SwappedWaiting, Seq::empty(), queued, queued, true, true),
        SwapDirtyPhase::SwappedWaiting => (SwapDirtyPhase::Clean, queued, Seq::empty(), after_free, false, true),
        SwapDirtyPhase::SwappedImmediate => (
            SwapDirtyPhase::SwappedWaiting,
            Seq::empty(),
            queued,
            after_free + queued,
            true,
            true,
        ),
        SwapDirtyPhase::Clean => (SwapDirtyPhase::Clean, queued, after_free, Seq::empty(), false, false),
    }
}

/// A swapped pair of buffers written by queued tasks: tasks go to the free
/// buffer, which is then swapped in, and the same tasks are written to the
/// other buffer once it is free.
pub struct TaskBuffer<T, B> {
    queue: VecDeque<T>,
    after_free: VecDeque<T>,
    pub inner: SwapBuffer<B>,
    pub dirty: SwapDirtyPhase,
}

impl<T: Copy, B> TaskBuffer<T, B> {
    /// The phase.
    pub closed spec fn phase(&self) -> SwapDirtyPhase {
        self.dirty
    }

    /// The two buffers.
    pub closed spec fn swap_buffer(&self) -> SwapBuffer<B> {
        self.inner
    }

    /// Tasks waiting for the free buffer.
    pub closed spec fn queued(&self) -> Seq<T> {
        self.queue@
    }

    /// Tasks already in the buffer in use that the free buffer still lacks.
    pub closed spec fn after_free_tasks(&self) -> Seq<T> {
        self.after_free@
    }

    /// An idle task buffer over the two buffers.
    pub fn new(inner: SwapBuffer<B>) -> (r: Self)
        ensures
            r.queued() == Seq::<T>::empty(),
            r.after_free_tasks() == Seq::<T>::empty(),
            r.phase() == SwapDirtyPhase::Clean,
            r.swap_buffer() == inner,
    {
        Self { queue: VecDeque::new(), after_free: VecDeque::new(), inner, dirty: SwapDirtyPhase::Clean }
    }

    /// Queues a task.
    pub fn write(&mut self, task: T)
        ensures
            final(self).queued() == old(self).queued().push(task),
            final(self).after_free_tasks() == old(self).after_free_tasks(),
            final(self).phase() == phase_after_write(old(self).phase()),
            final(self).swap_buffer() == old(self).swap_buffer(),
    {
        self.queue.push_back(task);
        match self.dirty {
            SwapDirtyPhase::SwappedWaiting => self.dirty = SwapDirtyPhase::SwappedImmediate,
            SwapDirtyPhase::Clean => self.dirty = SwapDirtyPhase::Dirty,
            _ => (),
        }
    }

    /// The buffer in use.
    pub fn get_buffer(&self) -> (r: &B)
        requires
            self.swap_buffer().wf(),
        ensures
            r == (if self.swap_buffer().first_current() {
                &self.swap_buffer().buffer_1
            } else {
                &self.swap_buffer().buffer_2
            }),
    {
        self.inner.current_buffer()
    }

    /// A copy of the queue.
    fn copy_queue(queue: &VecDeque<T>) -> (r: VecDeque<T>)
        ensures
            r@ == queue@,
    {
        let mut r: VecDeque<T> = VecDeque::new();
        let mut i: usize = 0;
        while i < queue.len()
            invariant
                i <= queue@.len(),
                r@ == queue@.subrange(0, i as int),
            decreases queue@.len() - i,
        {
            r.push_back(queue[i]);
            proof {
                assert(r@ =~= queue@.subrange(0, i + 1));
            }
            i = i + 1;
        }
        proof {
            assert(r@ =~= queue@);
        }
        r
    }

    /// Does the work of the current phase on the free buffer, whose write lock
    /// the caller holds as `free`; returns whether anything was done.
    pub fn update<U: TaskTarget<T>>(&mut self, free: &mut U) -> (r: bool)
        requires
            old(self).swap_buffer().wf(),
        ensures
            final(self).swap_buffer().wf(),
            final(self).swap_buffer().buffer_1 == old(self).swap_buffer().buffer_1,
            final(self).swap_buffer().buffer_2 == old(self).swap_buffer().buffer_2,
            ({
                let (p, q, a, written, swapped, done) = task_update_spec(
                    old(self).phase(),
                    old(self).queued(),
                    old(self).after_free_tasks(),
                );
                &&& final(self).phase() == p
                &&& final(self).queued() == q
                &&& final(self).after_free_tasks() == a
                &&& final(free).contents() == U::after_tasks(old(free).contents(), written)
                &&& final(self).swap_buffer().first_current() == (old(self).swap_buffer().first_current() != swapped)
                &&& r == done
            }),
    {
        match self.dirty {
            SwapDirtyPhase::Dirty => {
                // (there may be a better way to transfer the data instead of copying it)
                self.after_free = Self::copy_queue(&self.queue);
                U::write_queue(&mut self.queue, free);
                self.inner.swap();
                self.dirty = SwapDirtyPhase::SwappedWaiting;
                proof {
                    assert(self.queue@ =~= Seq::<T>::empty());
                }
                true
            },
            SwapDirtyPhase::SwappedWaiting => {
                // Write the new data that was written to the in-use buffer
                U::write_queue(&mut self.after_free, free);
                self.dirty = SwapDirtyPhase::Clean;
                proof {
                    assert(self.after_free@ =~= Seq::<T>::empty());
                }
                true
            },
            SwapDirtyPhase::SwappedImmediate => {
                let ghost c0 = free.contents();
                let ghost lacking = self.after_free@;
                let ghost queued = self.queue@;
                // Write the new data that was written to the in-use buffer
                U::write_queue(&mut self.after_free, free);
                self.after_free = Self::copy_queue(&self.queue);
                // Write the new data to the now-free buffer and swap immediately
                U::write_queue(&mut self.queue, free);
                self.inner.swap();
                self.dirty = SwapDirtyPhase::SwappedWaiting;
                proof {
                    U::lemma_after_tasks_concat(c0, lacking, queued);
                    assert(self.queue@ =~= Seq::<T>::empty());
                }
                true
            },
            SwapDirtyPhase::Clean => {
                proof {
                    U::lemma_after_no_tasks(free.contents());
                }
                false
            },
        }
    }
}

/// How the two buffers stand to each other in each phase: the buffer in use
/// holds every task but the queued ones, the free buffer lacks the after-free
/// tasks as well.
pub open spec fn task_buffers_consistent<T, U: TaskTarget<T>>(
    phase: SwapDirtyPhase,
    queue: Seq<T>,
    after: Seq<T>,
    current: Seq<U::Cell>,
    free: Seq<U::Cell>,
) -> bool {
    match phase {
        SwapDirtyPhase::Clean => queue.len() == 0 && after.len() == 0 && current == free,
        SwapDirtyPhase::Dirty => after.len() == 0 && current == free,
        SwapDirtyPhase::SwappedWaiting => queue.len() == 0 && current == U::after_tasks(free, after),
        SwapDirtyPhase::SwappedImmediate => current == U::after_tasks(free, after),
    }
}

/// Queuing a task keeps the buffers consistent, and what the buffer in use
/// will show once the queue is written gains that task.
pub proof fn lemma_task_write_keeps_consistent<T, U: TaskTarget<T>>(
    phase: SwapDirtyPhase,
    queue: Seq<T>,
    after: Seq<T>,
    current: Seq<U::Cell>,
    free: Seq<U::Cell>,
    task: T,
)
    requires
        task_buffers_consistent::<T, U>(phase, queue, after, current, free),
    ensures
        task_buffers_consistent::<T, U>(phase_after_write(phase), queue.push(task), after, current, free),
        U::after_tasks(current, queue.push(task)) == U::after_tasks(U::after_tasks(current, queue), seq![task]),
{
    assert(queue + seq![task] =~= queue.push(task));
    U::lemma_after_tasks_concat(current, queue, seq![task]);
}

/// An update keeps the buffers consistent, and what the buffer in use will
/// show once the queue is written stays the same.
pub proof fn lemma_task_update_keeps_consistent<T, U: TaskTarget<T>>(
    phase: SwapDirtyPhase,
    queue: Seq<T>,
    after: Seq<T>,
    current: Seq<U::Cell>,
    free: Seq<U::Cell>,
)
    requires
        task_buffers_consistent::<T, U>(phase, queue, after, current, free),
    ensures
        ({
            let (p, q, a, written, swapped, done) = task_update_spec(phase, queue, after);
            let f = U::after_tasks(free, written);
            let (new_current, new_free) = if swapped {
                (f, current)
            } else {
                (current, f)
            };
            &&& task_buffers_consistent::<T, U>(p, q, a, new_current, new_free)
            &&& U::after_tasks(new_current, q) == U::after_tasks(current, queue)
        }),
{
    match phase {
        SwapDirtyPhase::Dirty => {
            U::lemma_after_no_tasks(U::after_tasks(free, queue));
        },
        SwapDirtyPhase::SwappedWaiting => {
            assert(queue =~= Seq::<T>::empty());
        },
        SwapDirtyPhase::SwappedImmediate => {
            U::lemma_after_tasks_concat(free, after, queue);
            U::lemma_after_no_tasks(U::after_tasks(free, after + queue));
        },
        SwapDirtyPhase::Clean => {
            U::lemma_after_no_tasks(free);
        },
    }
}

/// Once clean, both buffers hold the same cells, with no task waiting.
pub proof fn lemma_task_clean_buffers_agree<T, U: TaskTarget<T>>(
    queue: Seq<T>,
    after: Seq<T>,
    current: Seq<U::Cell>,
    free: Seq<U::Cell>,
)
    requires
        task_buffers_consistent::<T, U>(SwapDirtyPhase::Clean, queue, after, current, free),
    ensures
        current == free,
        U::after_tasks(current, queue) == current,
{
    assert(queue =~= Seq::<T>::empty());
    U::lemma_after_no_tasks(current);
}

/// From any phase, at most two updates without new tasks reach the clean phase.
pub proof fn lemma_task_updates_reach_clean<T>(phase: SwapDirtyPhase, queue: Seq<T>, after: Seq<T>)
    requires
        phase == SwapDirtyPhase::SwappedWaiting ==> queue.len() == 0,
    ensures
        ({
            let (p1, q1, a1, w1, s1, d1) = task_update_spec(phase, queue, after);
            let (p2, q2, a2, w2, s2, d2) = task_update_spec(p1, q1, a1);
            p1 == SwapDirtyPhase::Clean || p2 == SwapDirtyPhase::Clean
        }),
{
}

} // verus!
