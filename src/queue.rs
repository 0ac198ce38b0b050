//! The ready queue: two bounded FIFO buffers of task identifiers, one per
//! priority class, with strict priority of `High` over `Low` on removal.
use crossbeam_queue::ArrayQueue;
use vstd::prelude::*;

verus! {

#[verifier::external_type_specification]
#[verifier::external_body]
#[verifier::reject_recursive_types(T)]
pub struct ExArrayQueue<T>(ArrayQueue<T>);

/// The items held by a bounded queue of identifiers, oldest first.
pub uninterp spec fn ring_items(q: ArrayQueue<u64>) -> Seq<u64>;

/// The capacity a bounded queue of identifiers was created with.
pub uninterp spec fn ring_capacity(q: ArrayQueue<u64>) -> nat;

/// Relies on `ArrayQueue::new`: an empty queue of the given capacity.
/// It panics on a zero capacity and on one whose next power of two above
/// overflows, which the `requires` leaves out.
#[verifier::external_body]
fn ring_new(cap: usize) -> (r: ArrayQueue<u64>)
    requires
        0 < cap <= usize::MAX / 2,
    ensures
        ring_items(r) == Seq::<u64>::empty(),
        ring_capacity(r) == cap as nat,
{
    ArrayQueue::new(cap)
}

/// Relies on `ArrayQueue::push`: on a full queue the value comes back as the
/// error and the queue is unchanged; otherwise it is appended at the back.
/// The exclusive borrow rules out a concurrent pop in between.
#[verifier::external_body]
fn ring_push(q: &mut ArrayQueue<u64>, value: u64) -> (r: Result<(), u64>)
    ensures
        ring_capacity(*final(q)) == ring_capacity(*old(q)),
        ring_items(*old(q)).len() >= ring_capacity(*old(q)) ==> (r == Err::<(), u64>(value)
            && ring_items(*final(q)) == ring_items(*old(q))),
        ring_items(*old(q)).len() < ring_capacity(*old(q)) ==> (r == Ok::<(), u64>(())
            && ring_items(*final(q)) == ring_items(*old(q)).push(value)),
{
    q.push(value)
}

/// Relies on `ArrayQueue::pop`: the oldest item, removed from the front, or
/// `None` on an empty queue.
#[verifier::external_body]
fn ring_pop(q: &mut ArrayQueue<u64>) -> (r: Option<u64>)
    ensures
        ring_capacity(*final(q)) == ring_capacity(*old(q)),
        ring_items(*old(q)).len() == 0 ==> (r == None::<u64> && ring_items(*final(q))
            == ring_items(*old(q))),
        ring_items(*old(q)).len() > 0 ==> (r == Some(ring_items(*old(q))[0]) && ring_items(
            *final(q),
        ) == ring_items(*old(q)).drop_first()),
{
    q.pop()
}

/// Relies on `ArrayQueue::is_empty`: whether the queue holds no item.
#[verifier::external_body]
fn ring_is_empty(q: &ArrayQueue<u64>) -> (r: bool)
    ensures
        r == (ring_items(*q).len() == 0),
{
    q.is_empty()
}

/// Relies on `ArrayQueue::is_full`: whether the queue holds as many items
/// as its capacity.
#[verifier::external_body]
fn ring_is_full(q: &ArrayQueue<u64>) -> (r: bool)
    ensures
        r == (ring_items(*q).len() == ring_capacity(*q)),
{
    q.is_full()
}

/// The capacity of each priority buffer of a default ready queue.
pub const DEFAULT_CAPACITY: usize = 100;

/// The priority class of a ready task identifier.
#[derive(Clone, Copy, Debug, PartialEq, Eq, Structural)]
pub enum TaskPriority {
    High,
    Low,
}

/// The error of a push into a priority buffer that is at capacity.
#[derive(Clone, Copy, Debug, PartialEq, Eq, Structural)]
pub struct QueueFull;

/// The abstract state of a ready queue: the contents of each buffer, oldest
/// first, and the capacity each buffer was created with.
pub struct QueueModel {
    pub high: Seq<u64>,
    pub low: Seq<u64>,
    pub capacity: nat,
}

/// What a push of `id` at `priority` does to a queue in state `m`: `None`
/// when the chosen buffer is full, else the state with `id` at its back.
pub open spec fn push_model(m: QueueModel, id: u64, priority: TaskPriority) -> Option<QueueModel> {
    match priority {
        TaskPriority::High => if m.high.len() >= m.capacity {
            None
        } else {
            Some(QueueModel { high: m.high.push(id), ..m })
        },
        TaskPriority::Low => if m.low.len() >= m.capacity {
            None
        } else {
            Some(QueueModel { low: m.low.push(id), ..m })
        },
    }
}

/// The identifier a pop takes from a non-empty queue: the front of `High`
/// if there is one, else the front of `Low`.
pub open spec fn next_ready(m: QueueModel) -> u64
    recommends
        m.high.len() + m.low.len() > 0,
{
    if m.high.len() > 0 {
        m.high[0]
    } else {
        m.low[0]
    }
}

/// The state of a non-empty queue after a pop.
pub open spec fn pop_model(m: QueueModel) -> QueueModel {
    if m.high.len() > 0 {
        QueueModel { high: m.high.drop_first(), ..m }
    } else {
        QueueModel { low: m.low.drop_first(), ..m }
    }
}

/// The buffer of `priority` in queue state `m`.
pub open spec fn buffer_of(m: QueueModel, priority: TaskPriority) -> Seq<u64> {
    match priority {
        TaskPriority::High => m.high,
        TaskPriority::Low => m.low,
    }
}

/// The state after pushing `ids` in order at `priority` with no pop in
/// between; `None` when one of the pushes is refused.
pub open spec fn push_each(m: QueueModel, ids: Seq<u64>, priority: TaskPriority) -> Option<
    QueueModel,
>
    decreases ids.len(),
{
    if ids.len() == 0 {
        Some(m)
    } else {
        match push_each(m, ids.drop_last(), priority) {
            None => None,
            Some(m1) => push_model(m1, ids.last(), priority),
        }
    }
}

proof fn lemma_fill(m: QueueModel, ids: Seq<u64>, priority: TaskPriority, n: int)
    requires
        buffer_of(m, priority).len() == 0,
        0 <= n <= m.capacity,
        n <= ids.len(),
    ensures
        push_each(m, ids.take(n), priority) matches Some(m1) && buffer_of(m1, priority) == ids.take(n)
            && m1.capacity == m.capacity,
    decreases n,
{
    if n > 0 {
        lemma_fill(m, ids, priority, n - 1);
        assert(ids.take(n).drop_last() =~= ids.take(n - 1));
        let m1 = push_each(m, ids.take(n - 1), priority)->Some_0;
        assert(ids.take(n - 1).push(ids[n - 1]) =~= ids.take(n));
    } else {
        assert(ids.take(0) =~= Seq::<u64>::empty());
    }
}

/// A buffer is a hard ceiling: into an empty buffer of capacity `c`, the
/// first `c` of any `c + 1` consecutive pushes succeed and the last one is
/// refused.
pub proof fn lemma_capacity_ceiling(m: QueueModel, ids: Seq<u64>, priority: TaskPriority)
    requires
        buffer_of(m, priority).len() == 0,
        ids.len() == m.capacity + 1,
    ensures
        push_each(m, ids.take(m.capacity as int), priority) matches Some(m1) && buffer_of(
            m1,
            priority,
        ).len() == m.capacity,
        push_each(m, ids, priority) == None::<QueueModel>,
{
    let c = m.capacity as int;
    lemma_fill(m, ids, priority, c);
    assert(ids.drop_last() =~= ids.take(c));
}

/// The ready queue of an executor.
pub struct TaskQueue {
    high: ArrayQueue<u64>,
    low: ArrayQueue<u64>,
}

impl TaskQueue {
    pub closed spec fn model(&self) -> QueueModel {
        QueueModel {
            high: ring_items(self.high),
            low: ring_items(self.low),
            capacity: ring_capacity(self.high),
        }
    }

    /// Both buffers share one capacity and neither exceeds it.
    pub closed spec fn wf(&self) -> bool {
        &&& ring_capacity(self.low) == ring_capacity(self.high)
        &&& ring_items(self.high).len() <= ring_capacity(self.high)
        &&& ring_items(self.low).len() <= ring_capacity(self.low)
        &&& 0 < ring_capacity(self.high) <= usize::MAX / 2
    }

    /// A well-formed queue has a positive capacity that bounds both buffers.
    pub proof fn lemma_bounds(&self)
        requires
            self.wf(),
        ensures
            0 < self.model().capacity <= usize::MAX / 2,
            self.model().high.len() <= self.model().capacity,
            self.model().low.len() <= self.model().capacity,
    {
    }

    /// An empty queue whose buffers each hold up to `capacity` identifiers.
    pub fn new(capacity: usize) -> (r: TaskQueue)
        requires
            0 < capacity <= usize::MAX / 2,
        ensures
            r.wf(),
            r.model().high == Seq::<u64>::empty(),
            r.model().low == Seq::<u64>::empty(),
            r.model().capacity == capacity as nat,
    {
        TaskQueue { high: ring_new(capacity), low: ring_new(capacity) }
    }

    /// Appends `id` to the buffer of `priority`; fails, changing nothing,
    /// when that buffer is full.
    pub fn push(&mut self, id: u64, priority: TaskPriority) -> (r: Result<(), QueueFull>)
        requires
            old(self).wf(),
        ensures
            final(self).wf(),
            match push_model(old(self).model(), id, priority) {
                Some(m) => r == Ok::<(), QueueFull>(()) && final(self).model() == m,
                None => r == Err::<(), QueueFull>(QueueFull) && final(self).model() == old(
                    self,
                ).model(),
            },
    {
        let pushed = match priority {
            TaskPriority::High => ring_push(&mut self.high, id),
            TaskPriority::Low => ring_push(&mut self.low, id),
        };
        match pushed {
            Ok(()) => Ok(()),
            Err(_) => Err(QueueFull),
        }
    }

    /// Removes the oldest `High` identifier, or when there is none the oldest
    /// `Low` one; `None` on an empty queue.
    pub fn pop(&mut self) -> (r: Option<u64>)
        requires
            old(self).wf(),
        ensures
            final(self).wf(),
            old(self).model().high.len() + old(self).model().low.len() == 0 ==> (r == None::<u64>
                && final(self).model() == old(self).model()),
            old(self).model().high.len() + old(self).model().low.len() > 0 ==> (r == Some(
                next_ready(old(self).model()),
            ) && final(self).model() == pop_model(old(self).model())),
    {
        match ring_pop(&mut self.high) {
            Some(id) => Some(id),
            None => ring_pop(&mut self.low),
        }
    }

    /// Whether both buffers are empty.
    pub fn is_empty(&self) -> (r: bool)
        requires
            self.wf(),
        ensures
            r == (self.model().high.len() == 0 && self.model().low.len() == 0),
    {
        ring_is_empty(&self.high) && ring_is_empty(&self.low)
    }

    /// Whether the buffer of `priority` can take one more identifier.
    pub fn has_room(&self, priority: TaskPriority) -> (r: bool)
        requires
            self.wf(),
        ensures
            r == (buffer_of(self.model(), priority).len() < self.model().capacity),
    {
        match priority {
            TaskPriority::High => !ring_is_full(&self.high),
            TaskPriority::Low => !ring_is_full(&self.low),
        }
    }
}

} // verus!
