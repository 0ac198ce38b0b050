//! Tasks, their identifiers, and the handles through which a suspended task
//! asks to be resumed.
use crate::queue::{TaskPriority, TaskQueue, buffer_of, push_model};
use vstd::prelude::*;

verus! {

/// The identifier of a task, unique among the tasks that one counter issued.
#[derive(Clone, Copy, Debug, PartialEq, Eq, Structural)]
pub struct TaskId {
    value: u64,
}

impl TaskId {
    pub closed spec fn spec_value(&self) -> u64 {
        self.value
    }

    /// The identifier that carries `value`; for identifiers taken back out of
    /// a ready queue.
    pub(crate) fn from_raw(value: u64) -> (r: TaskId)
        ensures
            r.spec_value() == value,
    {
        TaskId { value }
    }

    /// The integer form of this identifier.
    pub fn as_u64(&self) -> (r: u64)
        ensures
            r == self.spec_value(),
    {
        self.value
    }
}

/// A monotonically increasing source of task identifiers.
pub struct TaskIdCounter {
    next: u64,
}

impl TaskIdCounter {
    /// The integer that the next identifier will carry.
    pub closed spec fn spec_next(&self) -> u64 {
        self.next
    }

    /// A counter whose first identifier is zero.
    pub fn new() -> (r: TaskIdCounter)
        ensures
            r.spec_next() == 0,
    {
        TaskIdCounter { next: 0 }
    }

    /// Issues the next identifier, or `None` once every `u64` has been
    /// issued. Identifiers issued by one counter strictly increase.
    pub fn next_id(&mut self) -> (r: Option<TaskId>)
        ensures
            old(self).spec_next() < u64::MAX ==> (r matches Some(id) && id.spec_value() == old(
                self,
            ).spec_next() && final(self).spec_next() == old(self).spec_next() + 1),
            old(self).spec_next() == u64::MAX ==> (r == None::<TaskId> && final(self).spec_next()
                == old(self).spec_next()),
    {
        if self.next == u64::MAX {
            None
        } else {
            let id = TaskId { value: self.next };
            self.next = self.next + 1;
            Some(id)
        }
    }
}

/// The handle that re-enqueues one task when its awaited event has happened.
#[derive(Clone, Copy, Debug, PartialEq, Eq, Structural)]
pub struct TaskWaker {
    task_id: TaskId,
}

impl TaskWaker {
    pub closed spec fn spec_task_id(&self) -> TaskId {
        self.task_id
    }

    /// A waker bound to `task_id`.
    pub fn new(task_id: TaskId) -> (r: TaskWaker)
        ensures
            r.spec_task_id() == task_id,
    {
        TaskWaker { task_id }
    }

    /// The task this waker resumes.
    pub fn task_id(&self) -> (r: TaskId)
        ensures
            r == self.spec_task_id(),
    {
        self.task_id
    }

    /// Pushes the bound identifier at `High` priority, whatever priority the
    /// task was spawned with. A wake is never dropped, so the `High` buffer
    /// must have room.
    pub fn wake_task(&self, queue: &mut TaskQueue)
        requires
            old(queue).wf(),
            buffer_of(old(queue).model(), TaskPriority::High).len() < old(queue).model().capacity,
        ensures
            final(queue).wf(),
            push_model(old(queue).model(), self.spec_task_id().spec_value(), TaskPriority::High)
                == Some(final(queue).model()),
    {
        let _ = queue.push(self.task_id.value, TaskPriority::High);
    }
}

/// Whether one resumption finished the task's computation.
#[derive(Clone, Copy, Debug, PartialEq, Eq, Structural)]
pub enum PollState {
    Ready,
    Pending,
}

/// What a task sees while it is resumed: its waker, to hand to an event
/// source, and a count of the wakes it asked for during this resumption;
/// each of them queues the task once more when the resumption returns.
pub struct TaskContext {
    waker: TaskWaker,
    wakes: u64,
}

impl TaskContext {
    pub closed spec fn spec_waker(&self) -> TaskWaker {
        self.waker
    }

    pub closed spec fn spec_wakes(&self) -> u64 {
        self.wakes
    }

    /// A context for one resumption with `waker`, with no wake asked for.
    pub fn new(waker: TaskWaker) -> (r: TaskContext)
        ensures
            r.spec_waker() == waker,
            r.spec_wakes() == 0,
    {
        TaskContext { waker, wakes: 0 }
    }

    /// A copy of the waker of the task being resumed.
    pub fn waker(&self) -> (r: TaskWaker)
        ensures
            r == self.spec_waker(),
    {
        self.waker
    }

    /// Asks that the task be queued once more at `High` priority when this
    /// resumption returns. The count stops at `u64::MAX`, far beyond what a
    /// buffer can hold.
    pub fn wake_by_ref(&mut self)
        ensures
            final(self).spec_waker() == old(self).spec_waker(),
            old(self).spec_wakes() < u64::MAX ==> final(self).spec_wakes() == old(self).spec_wakes() + 1,
            old(self).spec_wakes() == u64::MAX ==> final(self).spec_wakes() == u64::MAX,
    {
        if self.wakes < u64::MAX {
            self.wakes = self.wakes + 1;
        }
    }

    /// How many wakes the task asked for during this resumption.
    pub fn wake_count(&self) -> (r: u64)
        ensures
            r == self.spec_wakes(),
    {
        self.wakes
    }
}

/// A suspendable computation with no result, resumed by the executor until
/// it reports `Ready`.
pub trait Resumable {
    /// Runs the computation up to its next suspension point.
    fn poll(&mut self, cx: &mut TaskContext) -> PollState;
}

/// A computation together with the identifier it is scheduled under.
pub struct Task<F> {
    id: TaskId,
    computation: F,
}

impl<F: Resumable> Task<F> {
    pub closed spec fn spec_id(&self) -> TaskId {
        self.id
    }

    pub closed spec fn spec_computation(&self) -> F {
        self.computation
    }

    /// Wraps `computation` as a task under the next identifier of `ids`, so
    /// that the tasks made from one counter never share an identifier.
    /// `None`, with the counter unchanged, once every identifier is issued.
    pub fn new(computation: F, ids: &mut TaskIdCounter) -> (r: Option<Task<F>>)
        ensures
            old(ids).spec_next() < u64::MAX ==> (r matches Some(t) && t.spec_id().spec_value()
                == old(ids).spec_next() && t.spec_computation() == computation
                && final(ids).spec_next() == old(ids).spec_next() + 1),
            old(ids).spec_next() == u64::MAX ==> (r is None
                && final(ids).spec_next() == old(ids).spec_next()),
    {
        match ids.next_id() {
            Some(id) => Some(Task { id, computation }),
            None => None,
        }
    }

    /// Returns the identifier the task is filed under.
    pub fn id(&self) -> (r: TaskId)
        ensures
            r == self.spec_id(),
    {
        self.id
    }

    /// Resumes the computation once; the identifier is kept.
    pub fn poll(&mut self, cx: &mut TaskContext) -> (r: PollState)
        ensures
            final(self).spec_id() == old(self).spec_id(),
    {
        self.computation.poll(cx)
    }
}

} // verus!
