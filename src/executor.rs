//! The executor: the task table, the ready queue and the waker cache, and
//! the rules by which ready tasks are resumed and the core is idled.
use crate::queue::{
    DEFAULT_CAPACITY, QueueModel, TaskPriority, TaskQueue, buffer_of, next_ready, pop_model,
    push_model,
};
use crate::task::{PollState, Resumable, Task, TaskContext, TaskId, TaskWaker};
use std::collections::BTreeMap;
use vstd::prelude::*;

verus! {

/// What happened to one identifier taken from the ready queue.
#[derive(Clone, Copy, Debug, PartialEq, Eq, Structural)]
pub enum StepOutcome {
    /// No live task had the identifier; the entry was dropped.
    Stale,
    /// The task was resumed and is waiting for an outside event.
    Pending,
    /// The task was resumed, is not done, and asked for this many wakes
    /// (at least one); it was queued at `High` priority once per wake.
    Woken(u64),
    /// The task was resumed and finished; it left the table and the cache.
    Done,
    /// The task was resumed, is not done, and asked for more wakes than the
    /// `High` buffer had room for: the buffer was filled with its identifier
    /// and the remaining wakes could not be queued. This stops the system.
    WakeOverflow,
}

/// One identifier taken from the ready queue and what became of it.
#[derive(Clone, Copy, Debug, PartialEq, Eq, Structural)]
pub struct DrainStep {
    pub id: TaskId,
    pub outcome: StepOutcome,
}

/// What the core does once a drain has emptied the queue and interrupts are
/// disabled.
#[derive(Clone, Copy, Debug, PartialEq, Eq, Structural)]
pub enum IdleAction {
    /// Enable interrupts and halt in one uninterruptible step.
    EnableAndHalt,
    /// Work arrived meanwhile: enable interrupts and drain again.
    Enable,
}

/// The outcome of the last step of `steps` that took identifier `k`; `None`
/// when no step took it.
pub open spec fn last_outcome(steps: Seq<DrainStep>, k: u64) -> Option<StepOutcome>
    decreases steps.len(),
{
    if steps.len() == 0 {
        None
    } else if steps.last().id.spec_value() == k {
        Some(steps.last().outcome)
    } else {
        last_outcome(steps.drop_last(), k)
    }
}

/// Whether some step of `steps` finished the task `k`.
pub open spec fn completed_in(steps: Seq<DrainStep>, k: u64) -> bool
    decreases steps.len(),
{
    if steps.len() == 0 {
        false
    } else {
        (steps.last().id.spec_value() == k && steps.last().outcome == StepOutcome::Done)
            || completed_in(steps.drop_last(), k)
    }
}

/// Whether each step of `steps`, taken in a pass that began with the live
/// identifiers `live`, is `Stale` exactly when its task was not live then:
/// never live, or finished by an earlier step of the pass.
pub open spec fn stale_exactly_when_dead(live: Set<u64>, steps: Seq<DrainStep>) -> bool {
    forall|i: int|
        0 <= i < steps.len() ==> (#[trigger] steps[i].outcome == StepOutcome::Stale <==> (
        !live.contains(steps[i].id.spec_value()) || completed_in(
            steps.take(i),
            steps[i].id.spec_value(),
        )))
}

/// The identifiers still live after a pass that began with `live` and took
/// `steps`: those that no step finished.
pub open spec fn still_live(live: Set<u64>, steps: Seq<DrainStep>) -> Set<u64> {
    Set::new(|k: u64| live.contains(k) && !completed_in(steps, k))
}

/// Queue state `m` with `n` more copies of `k` at the back of `High`.
pub open spec fn requeue(m: QueueModel, k: u64, n: nat) -> QueueModel
    decreases n,
{
    if n == 0 {
        m
    } else {
        let p = requeue(m, k, (n - 1) as nat);
        QueueModel { high: p.high.push(k), ..p }
    }
}

/// How many times a step with outcome `o` queues its identifier again, on
/// queue state `p` taken just after the pop.
pub open spec fn pushes_of(p: QueueModel, o: StepOutcome) -> nat {
    match o {
        StepOutcome::Woken(n) => n as nat,
        StepOutcome::WakeOverflow => (p.capacity - p.high.len()) as nat,
        _ => 0,
    }
}

/// Whether outcome `o` can follow on queue state `p` taken just after the
/// pop: `Woken(n)` when `n` wakes fit in `High`, `WakeOverflow` when they
/// do not, so only the room there was is filled.
pub open spec fn step_fits(p: QueueModel, o: StepOutcome) -> bool {
    match o {
        StepOutcome::Woken(n) => 0 < n && p.high.len() + n <= p.capacity,
        StepOutcome::WakeOverflow => p.high.len() < p.capacity,
        _ => true,
    }
}

/// The queue after a step on `k` with outcome `o`, from state `p` taken just
/// after the pop; `None` when `o` cannot happen there.
pub open spec fn after_step(p: QueueModel, k: u64, o: StepOutcome) -> Option<QueueModel> {
    if step_fits(p, o) {
        Some(requeue(p, k, pushes_of(p, o)))
    } else {
        None
    }
}

/// Whether the last of `steps` overflowed the `High` buffer.
pub open spec fn ends_in_overflow(steps: Seq<DrainStep>) -> bool {
    steps.len() > 0 && steps.last().outcome == StepOutcome::WakeOverflow
}

/// Replays `steps` on queue state `q`: each step must take the identifier a
/// pop would take, and queues it again once per wake it records. The state
/// reached, or `None` when `steps` is not what the queue would yield.
pub open spec fn replay(q: QueueModel, steps: Seq<DrainStep>) -> Option<QueueModel>
    decreases steps.len(),
{
    if steps.len() == 0 {
        Some(q)
    } else {
        match replay(q, steps.drop_last()) {
            None => None,
            Some(q1) => {
                let k = steps.last().id.spec_value();
                if q1.high.len() + q1.low.len() == 0 || k != next_ready(q1) {
                    None
                } else {
                    after_step(pop_model(q1), k, steps.last().outcome)
                }
            },
        }
    }
}

proof fn lemma_requeue(m: QueueModel, k: u64, n: nat)
    ensures
        requeue(m, k, n).high.len() == m.high.len() + n,
        requeue(m, k, n).low == m.low,
        requeue(m, k, n).capacity == m.capacity,
        forall|t: int| 0 <= t < m.high.len() ==> #[trigger] requeue(m, k, n).high[t] == m.high[t],
        forall|t: int|
            m.high.len() <= t < m.high.len() + n ==> #[trigger] requeue(m, k, n).high[t] == k,
    decreases n,
{
    if n > 0 {
        lemma_requeue(m, k, (n - 1) as nat);
    }
}

proof fn lemma_push_step(steps: Seq<DrainStep>, x: DrainStep)
    ensures
        forall|k: u64| #[trigger]
            last_outcome(steps.push(x), k) == if x.id.spec_value() == k {
                Some(x.outcome)
            } else {
                last_outcome(steps, k)
            },
        forall|k: u64| #[trigger]
            completed_in(steps.push(x), k) == (completed_in(steps, k) || (x.id.spec_value() == k
                && x.outcome == StepOutcome::Done)),
        forall|i: int| 0 <= i <= steps.len() ==> #[trigger] steps.push(x).take(i) == steps.take(i),
{
    assert(steps.push(x).drop_last() =~= steps);
    assert forall|i: int| 0 <= i <= steps.len() implies #[trigger] steps.push(x).take(i)
        == steps.take(i) by {
        assert(steps.push(x).take(i) =~= steps.take(i));
    }
}

proof fn lemma_completed_serviced(steps: Seq<DrainStep>, k: u64)
    ensures
        completed_in(steps, k) ==> last_outcome(steps, k) is Some,
    decreases steps.len(),
{
    if steps.len() > 0 {
        lemma_completed_serviced(steps.drop_last(), k);
    }
}

proof fn lemma_contains_after_pop(q: Seq<u64>, y: u64)
    requires
        q.contains(y),
        q[0] != y,
    ensures
        q.drop_first().contains(y),
{
    let i = choose|i: int| 0 <= i < q.len() && q[i] == y;
    assert(q.drop_first()[i - 1] == y);
}

proof fn lemma_queue_step(q0: QueueModel, q1: QueueModel, k: u64, n: nat)
    requires
        q0.high.len() + q0.low.len() > 0,
        k == next_ready(q0),
        q1 == requeue(pop_model(q0), k, n),
    ensures
        n > 0 ==> q1.high.contains(k),
        q0.high.len() > 0 ==> q1.high.len() >= q0.high.len() - 1,
        q0.high.len() > 0 ==> forall|t: int|
            0 <= t < q0.high.len() - 1 ==> #[trigger] q1.high[t] == q0.high[t + 1],
{
    let p = pop_model(q0);
    lemma_requeue(p, k, n);
    if n > 0 {
        assert(q1.high[p.high.len() as int] == k);
    }
}

proof fn lemma_queue_kept(q0: QueueModel, q1: QueueModel, k: u64, y: u64, n: nat)
    requires
        q0.high.len() + q0.low.len() > 0,
        k == next_ready(q0),
        q1 == requeue(pop_model(q0), k, n),
        y != k,
    ensures
        q0.high.contains(y) ==> q1.high.contains(y),
        q0.low.contains(y) ==> q1.low.contains(y),
{
    let p = pop_model(q0);
    lemma_requeue(p, k, n);
    if q0.high.contains(y) {
        lemma_contains_after_pop(q0.high, y);
        let i = choose|i: int| 0 <= i < p.high.len() && p.high[i] == y;
        assert(q1.high[i] == y);
    }
    if q0.low.contains(y) && q0.high.len() == 0 {
        lemma_contains_after_pop(q0.low, y);
    }
}

proof fn lemma_completed_by_step(steps: Seq<DrainStep>, i: int)
    requires
        0 <= i < steps.len(),
        steps[i].outcome == StepOutcome::Done,
    ensures
        completed_in(steps, steps[i].id.spec_value()),
    decreases steps.len(),
{
    if i < steps.len() - 1 {
        lemma_completed_by_step(steps.drop_last(), i);
    }
}

/// Finishing is final: once a step of a pass finishes a task, every later
/// step that takes its identifier in that pass is `Stale`, and the task is
/// not live after the pass.
pub proof fn lemma_finished_task_stays_finished(
    live: Set<u64>,
    steps: Seq<DrainStep>,
    i: int,
    j: int,
)
    requires
        stale_exactly_when_dead(live, steps),
        0 <= i < j < steps.len(),
        steps[i].id == steps[j].id,
        steps[i].outcome == StepOutcome::Done,
    ensures
        steps[j].outcome == StepOutcome::Stale,
        !still_live(live, steps).contains(steps[i].id.spec_value()),
{
    lemma_completed_by_step(steps.take(j), i);
    lemma_completed_by_step(steps, i);
    assert(steps[j].outcome == StepOutcome::Stale);
}

/// A wake of a task that is not live is dropped: the step of a pass that
/// takes the queued identifier is `Stale`, and the task does not come back
/// into the table.
pub proof fn lemma_stale_wake_dropped(live: Set<u64>, steps: Seq<DrainStep>, i: int)
    requires
        stale_exactly_when_dead(live, steps),
        0 <= i < steps.len(),
        !live.contains(steps[i].id.spec_value()),
    ensures
        steps[i].outcome == StepOutcome::Stale,
        !still_live(live, steps).contains(steps[i].id.spec_value()),
{
    assert(steps[i].outcome == StepOutcome::Stale);
}

/// Owns the live tasks by identifier, the ready queue, and one waker per task
/// that has been resumed and is not done.
pub struct Executor<F> {
    tasks: BTreeMap<u64, Task<F>>,
    task_queue: TaskQueue,
    waker_cache: BTreeMap<u64, TaskWaker>,
}

impl<F: Resumable> Executor<F> {
    /// The live tasks, by identifier.
    pub closed spec fn tasks(&self) -> Map<u64, Task<F>> {
        self.tasks@
    }

    /// The ready queue.
    pub closed spec fn queue(&self) -> QueueModel {
        self.task_queue.model()
    }

    /// The cached wakers, by identifier.
    pub closed spec fn wakers(&self) -> Map<u64, TaskWaker> {
        self.waker_cache@
    }

    /// Each task is filed under its own identifier, each cached waker is
    /// bound to the identifier it is filed under, and only live tasks have a
    /// cached waker.
    pub closed spec fn wf(&self) -> bool {
        &&& self.task_queue.wf()
        &&& forall|k: u64| #[trigger]
            self.tasks@.contains_key(k) ==> self.tasks@[k].spec_id().spec_value() == k
        &&& forall|k: u64| #[trigger]
            self.waker_cache@.contains_key(k) ==> self.tasks@.contains_key(k)
                && self.waker_cache@[k].spec_task_id().spec_value() == k
    }

    /// An executor with no task, an empty queue of the default capacity per
    /// priority, and no cached waker.
    pub fn new() -> (r: Executor<F>)
        ensures
            r.wf(),
            r.tasks() == Map::<u64, Task<F>>::empty(),
            r.wakers() == Map::<u64, TaskWaker>::empty(),
            r.queue().high == Seq::<u64>::empty(),
            r.queue().low == Seq::<u64>::empty(),
            r.queue().capacity == DEFAULT_CAPACITY as nat,
    {
        Executor {
            tasks: BTreeMap::new(),
            task_queue: TaskQueue::new(DEFAULT_CAPACITY),
            waker_cache: BTreeMap::new(),
        }
    }

    /// Takes one identifier from the ready queue and services it: a stale one
    /// is dropped; a live task is resumed with its cached waker, created on
    /// its first resumption. A finished task leaves the table and the cache;
    /// one that is not done goes back, and is queued again at `High` priority
    /// once for each wake it asked for during the resumption, as far as the
    /// buffer has room (`WakeOverflow` past that). `None` when the queue is
    /// empty.
    pub fn run_next(&mut self) -> (r: Option<DrainStep>)
        requires
            old(self).wf(),
        ensures
            final(self).wf(),
            ({
                let q = old(self).queue();
                let live = old(self).tasks();
                let cache = old(self).wakers();
                match r {
                    None => q.high.len() + q.low.len() == 0 && final(self).queue() == q
                        && final(self).tasks() == live && final(self).wakers() == cache,
                    Some(step) => {
                        let k = step.id.spec_value();
                        &&& q.high.len() + q.low.len() > 0
                        &&& k == next_ready(q)
                        &&& (step.outcome == StepOutcome::Stale <==> !live.contains_key(k))
                        &&& after_step(pop_model(q), k, step.outcome) == Some(final(self).queue())
                        &&& (step.outcome == StepOutcome::Stale ==> final(self).tasks() == live
                            && final(self).wakers() == cache)
                        &&& (step.outcome == StepOutcome::Done ==> final(self).tasks()
                            == live.remove(k) && final(self).wakers() == cache.remove(k))
                        &&& ((step.outcome != StepOutcome::Stale && step.outcome
                            != StepOutcome::Done) ==> {
                            &&& final(self).tasks().dom() == live.dom()
                            &&& forall|j: u64| #[trigger]
                                live.contains_key(j) && j != k ==> final(self).tasks()[j]
                                    == live[j]
                            &&& final(self).wakers().dom() == cache.dom().insert(k)
                            &&& forall|j: u64| #[trigger]
                                cache.contains_key(j) ==> final(self).wakers()[j] == cache[j]
                        })
                    },
                }
            }),
    {
        proof {
            self.task_queue.lemma_bounds();
        }
        let popped = self.task_queue.pop();
        let raw = match popped {
            None => {
                return None;
            },
            Some(raw) => raw,
        };
        let id = TaskId::from_raw(raw);
        let removed = self.tasks.remove(&raw);
        let mut task = match removed {
            None => {
                assert(self.tasks@ =~= old(self).tasks@);
                return Some(DrainStep { id, outcome: StepOutcome::Stale });
            },
            Some(task) => task,
        };
        let mut cx = self.context_for(id);
        let state = task.poll(&mut cx);
        let wakes = cx.wake_count();
        let outcome = self.finish_step(id, task, state, wakes);
        Some(DrainStep { id, outcome })
    }

    /// The context for resuming the live task `id`, which has just been taken
    /// out of the table: it carries the cached waker of `id`, created and
    /// cached now if this is the task's first resumption, and counts no wake.
    fn context_for(&mut self, id: TaskId) -> (cx: TaskContext)
        requires
            old(self).task_queue.wf(),
            forall|j: u64| #[trigger]
                old(self).waker_cache@.contains_key(j) ==> old(self).waker_cache@[j].spec_task_id().spec_value() == j,
        ensures
            final(self).task_queue == old(self).task_queue,
            final(self).tasks@ == old(self).tasks@,
            final(self).waker_cache@.dom() == old(self).waker_cache@.dom().insert(id.spec_value()),
            forall|j: u64| #[trigger]
                old(self).waker_cache@.contains_key(j) ==> final(self).waker_cache@[j] == old(self).waker_cache@[j],
            forall|j: u64| #[trigger]
                final(self).waker_cache@.contains_key(j) ==> final(self).waker_cache@[j].spec_task_id().spec_value() == j,
            cx.spec_waker() == final(self).waker_cache@[id.spec_value()],
            cx.spec_wakes() == 0,
    {
        let raw = id.as_u64();
        let waker = match self.waker_cache.get(&raw) {
            Some(w) => *w,
            None => {
                let w = TaskWaker::new(id);
                self.waker_cache.insert(raw, w);
                w
            },
        };
        assert(self.waker_cache@.dom() =~= old(self).waker_cache@.dom().insert(raw));
        TaskContext::new(waker)
    }

    /// Files away the task `id` after one resumption that returned `state`,
    /// during which the task asked for `wakes` wakes: `Ready` removes its
    /// cached waker and leaves it out of the table (`Done`); `Pending` puts it
    /// back and queues its identifier at `High` once per wake: `Pending` for
    /// none, `Woken(wakes)` when all fit, else `WakeOverflow` once the buffer
    /// is full.
    fn finish_step(&mut self, id: TaskId, task: Task<F>, state: PollState, wakes: u64) -> (r: StepOutcome)
        requires
            old(self).task_queue.wf(),
            task.spec_id().spec_value() == id.spec_value(),
            buffer_of(old(self).task_queue.model(), TaskPriority::High).len() < old(self).task_queue.model().capacity,
        ensures
            final(self).task_queue.wf(),
            after_step(old(self).task_queue.model(), id.spec_value(), r) == Some(final(self).task_queue.model()),
            state == PollState::Ready ==> r == StepOutcome::Done
                && final(self).tasks@ == old(self).tasks@
                && final(self).waker_cache@ == old(self).waker_cache@.remove(id.spec_value()),
            state == PollState::Pending ==> final(self).tasks@ == old(self).tasks@.insert(id.spec_value(), task)
                && final(self).waker_cache@ == old(self).waker_cache@,
            state == PollState::Pending && wakes == 0 ==> r == StepOutcome::Pending,
            state == PollState::Pending && wakes > 0 && old(self).task_queue.model().high.len() + wakes
                <= old(self).task_queue.model().capacity ==> r == StepOutcome::Woken(wakes),
            state == PollState::Pending && old(self).task_queue.model().high.len() + wakes
                > old(self).task_queue.model().capacity ==> r == StepOutcome::WakeOverflow,
    {
        let raw = id.as_u64();
        let ghost q0 = self.task_queue.model();
        match state {
            PollState::Ready => {
                self.waker_cache.remove(&raw);
                StepOutcome::Done
            },
            PollState::Pending => {
                let ghost task_g = task;
                self.tasks.insert(raw, task);
                let ghost t1 = self.tasks@;
                let ghost w1 = self.waker_cache@;
                let mut i: u64 = 0;
                while i < wakes
                    invariant
                        self.task_queue.wf(),
                        i <= wakes,
                        q0.high.len() + i <= q0.capacity,
                        q0.high.len() < q0.capacity,
                        state == PollState::Pending,
                        raw == id.spec_value(),
                        self.task_queue.model() == requeue(q0, raw, i as nat),
                        self.tasks@ == t1,
                        self.waker_cache@ == w1,
                        q0 == old(self).task_queue.model(),
                        t1 == old(self).tasks@.insert(raw, task_g),
                        task_g == task,
                        w1 == old(self).waker_cache@,
                    decreases wakes - i,
                {
                    proof {
                        lemma_requeue(q0, raw, i as nat);
                    }
                    if !self.task_queue.has_room(TaskPriority::High) {
                        return StepOutcome::WakeOverflow;
                    }
                    let _ = self.task_queue.push(raw, TaskPriority::High);
                    i = i + 1;
                }
                proof {
                    lemma_requeue(q0, raw, i as nat);
                }
                if wakes == 0 {
                    StepOutcome::Pending
                } else {
                    StepOutcome::Woken(wakes)
                }
            },
        }
    }

    /// Drains the ready queue: services identifiers one at a time, as
    /// `run_next` does, until the queue is empty, `max_steps` have been
    /// taken, or a step ends in `WakeOverflow` (which must stop the system),
    /// and returns the steps in order. Every identifier queued at
    /// `High` when the pass starts is serviced before anything else; a task
    /// that finished is never resumed again, and its later entries are
    /// dropped; when the queue runs empty within the budget, every task that
    /// kept asking to be woken was resumed until it was done.
    pub fn run_ready_tasks(&mut self, max_steps: usize) -> (r: Vec<DrainStep>)
        requires
            old(self).wf(),
        ensures
            final(self).wf(),
            ({
                let oh = old(self).queue().high;
                let ol = old(self).queue().low;
                let live = old(self).tasks();
                let cache = old(self).wakers();
                let steps = r@;
                &&& steps.len() <= max_steps
                &&& replay(old(self).queue(), steps) == Some(final(self).queue())
                &&& forall|i: int|
                    0 <= i < steps.len() && i < oh.len() ==> #[trigger] steps[i].id.spec_value()
                        == oh[i]
                &&& stale_exactly_when_dead(live.dom(), steps)
                &&& final(self).tasks().dom() == still_live(live.dom(), steps)
                &&& forall|k: u64|
                    live.contains_key(k) && #[trigger] last_outcome(steps, k) is None
                        ==> final(self).tasks()[k] == live[k]
                &&& forall|k: u64| #[trigger]
                    final(self).wakers().contains_key(k) <==> final(self).tasks().contains_key(k)
                        && (cache.contains_key(k) || last_outcome(steps, k) is Some)
                &&& forall|k: u64|
                    cache.contains_key(k) && #[trigger] final(self).wakers().contains_key(k)
                        ==> final(self).wakers()[k] == cache[k]
                &&& forall|i: int|
                    0 <= i < steps.len() - 1 ==> #[trigger] steps[i].outcome
                        != StepOutcome::WakeOverflow
                &&& (steps.len() < max_steps && !ends_in_overflow(steps)) ==> {
                    &&& final(self).queue().high.len() == 0
                    &&& final(self).queue().low.len() == 0
                    &&& forall|t: int| 0 <= t < oh.len() ==> #[trigger] last_outcome(steps, oh[t]) is Some
                    &&& forall|t: int| 0 <= t < ol.len() ==> #[trigger] last_outcome(steps, ol[t]) is Some
                    &&& forall|k: u64|
                        final(self).tasks().contains_key(k) && #[trigger] last_outcome(steps, k) is Some
                            ==> last_outcome(steps, k) == Some(StepOutcome::Pending)
                }
            }),
    {
        let ghost q_start = self.queue();
        let ghost oh = self.queue().high;
        let ghost ol = self.queue().low;
        let ghost live = self.tasks();
        let ghost cache = self.wakers();
        let mut out: Vec<DrainStep> = Vec::new();
        let mut drained = false;
        let mut overflowed = false;
        while out.len() < max_steps && !drained && !overflowed
            invariant
                self.wf(),
                out.len() <= max_steps,
                overflowed == ends_in_overflow(out@),
                drained ==> !overflowed,
                forall|i: int|
                    0 <= i < out@.len() - 1 ==> #[trigger] out@[i].outcome
                        != StepOutcome::WakeOverflow,
                replay(q_start, out@) == Some(self.queue()),
                drained ==> self.queue().high.len() == 0 && self.queue().low.len() == 0,
                forall|i: int|
                    0 <= i < out@.len() && i < oh.len() ==> #[trigger] out@[i].id.spec_value()
                        == oh[i],
                out@.len() < oh.len() ==> self.queue().high.len() >= oh.len() - out@.len(),
                out@.len() < oh.len() ==> forall|t: int|
                    0 <= t < oh.len() - out@.len() ==> #[trigger] self.queue().high[t] == oh[out@.len() + t],
                forall|i: int|
                    0 <= i < out@.len() ==> (#[trigger] out@[i].outcome == StepOutcome::Stale
                        <==> (!live.contains_key(out@[i].id.spec_value()) || completed_in(
                        out@.take(i),
                        out@[i].id.spec_value(),
                    ))),
                forall|k: u64| #[trigger]
                    self.tasks().contains_key(k) <==> live.contains_key(k) && !completed_in(out@, k),
                forall|k: u64|
                    live.contains_key(k) && #[trigger] last_outcome(out@, k) is None
                        ==> self.tasks()[k] == live[k],
                forall|k: u64| #[trigger]
                    self.wakers().contains_key(k) <==> self.tasks().contains_key(k) && (
                    cache.contains_key(k) || last_outcome(out@, k) is Some),
                forall|k: u64|
                    cache.contains_key(k) && #[trigger] self.wakers().contains_key(k)
                        ==> self.wakers()[k] == cache[k],
                forall|t: int|
                    0 <= t < oh.len() ==> #[trigger] last_outcome(out@, oh[t]) is Some
                        || self.queue().high.contains(oh[t]) || self.queue().low.contains(oh[t]),
                forall|t: int|
                    0 <= t < ol.len() ==> #[trigger] last_outcome(out@, ol[t]) is Some
                        || self.queue().high.contains(ol[t]) || self.queue().low.contains(ol[t]),
                forall|k: u64|
                    #[trigger] last_outcome(out@, k) matches Some(o) && (o is Woken || o
                        == StepOutcome::WakeOverflow) ==> self.queue().high.contains(k),
                forall|k: u64|
                    (#[trigger] last_outcome(out@, k) == Some(StepOutcome::Stale) || last_outcome(out@, k)
                        == Some(StepOutcome::Done)) ==> !self.tasks().contains_key(k),
            decreases max_steps - out.len(), if drained { 0int } else { 1int },
        {
            let ghost s0 = out@;
            let ghost q0 = self.queue();
            let ghost t0 = self.tasks();
            let ghost w0 = self.wakers();
            match self.run_next() {
                None => {
                    drained = true;
                },
                Some(step) => {
                    overflowed = step.outcome == StepOutcome::WakeOverflow;
                    out.push(step);
                    proof {
                        let k = step.id.spec_value();
                        let q1 = self.queue();
                        let n = pushes_of(pop_model(q0), step.outcome);
                        lemma_push_step(s0, step);
                        assert(out@ == s0.push(step));
                        lemma_queue_step(q0, q1, k, n);
                        assert forall|y: u64| y != k implies (q0.high.contains(y) ==> q1.high.contains(y))
                            && (q0.low.contains(y) ==> q1.low.contains(y)) by {
                            lemma_queue_kept(q0, q1, k, y, n);
                        }
                        assert forall|i: int|
                            0 <= i < out@.len() - 1 implies #[trigger] out@[i].outcome
                                != StepOutcome::WakeOverflow by {
                            assert(out@[i] == s0[i]);
                        }
                        assert(out@.take(s0.len() as int) == s0);
                        assert forall|j: u64|
                            live.contains_key(j) && #[trigger] last_outcome(out@, j) is None
                                implies self.tasks()[j] == live[j] by {
                            lemma_completed_serviced(s0, j);
                            assert(t0.contains_key(j));
                            assert(self.tasks()[j] == t0[j]);
                        }
                        assert forall|j: u64|
                            cache.contains_key(j) && #[trigger] self.wakers().contains_key(j)
                                implies self.wakers()[j] == cache[j] by {
                            if j == k {
                                assert(t0.contains_key(k));
                            }
                            assert(w0.contains_key(j));
                            assert(self.wakers()[j] == w0[j]);
                        }
                    }
                },
            }
        }
        assert(self.tasks().dom() =~= still_live(live.dom(), out@));
        out
    }

    /// Files `task` under its identifier and queues that identifier at
    /// `priority`. A duplicate identifier or a full buffer would have to stop
    /// the system, so neither is admitted: callers check `contains_task` and
    /// `has_room` first.
    pub fn spawn(&mut self, task: Task<F>, priority: TaskPriority)
        requires
            old(self).wf(),
            !old(self).tasks().contains_key(task.spec_id().spec_value()),
            buffer_of(old(self).queue(), priority).len() < old(self).queue().capacity,
        ensures
            final(self).wf(),
            push_model(old(self).queue(), task.spec_id().spec_value(), priority) == Some(
                final(self).queue(),
            ),
            final(self).tasks() == old(self).tasks().insert(task.spec_id().spec_value(), task),
            final(self).wakers() == old(self).wakers(),
    {
        let raw = task.id().as_u64();
        let _ = self.task_queue.push(raw, priority);
        self.tasks.insert(raw, task);
    }

    /// Delivers a wake of `waker`: its identifier is queued at `High`
    /// priority, whether or not its task is still live. A wake is never
    /// dropped, so the `High` buffer must have room. The table and the cache
    /// are untouched.
    pub fn wake(&mut self, waker: &TaskWaker)
        requires
            old(self).wf(),
            buffer_of(old(self).queue(), TaskPriority::High).len() < old(self).queue().capacity,
        ensures
            final(self).wf(),
            final(self).tasks() == old(self).tasks(),
            final(self).wakers() == old(self).wakers(),
            push_model(old(self).queue(), waker.spec_task_id().spec_value(), TaskPriority::High)
                == Some(final(self).queue()),
    {
        waker.wake_task(&mut self.task_queue)
    }

    /// Whether the buffer of `priority` can take one more identifier.
    pub fn has_room(&self, priority: TaskPriority) -> (r: bool)
        requires
            self.wf(),
        ensures
            r == (buffer_of(self.queue(), priority).len() < self.queue().capacity),
    {
        self.task_queue.has_room(priority)
    }

    /// The decision taken with interrupts disabled after a drain: halt only
    /// if the queue is still empty, so that a wake that arrived in between is
    /// never slept through.
    pub fn idle_action(&self) -> (r: IdleAction)
        requires
            self.wf(),
        ensures
            r == IdleAction::EnableAndHalt <==> (self.queue().high.len() == 0
                && self.queue().low.len() == 0),
    {
        if self.task_queue.is_empty() {
            IdleAction::EnableAndHalt
        } else {
            IdleAction::Enable
        }
    }

    /// Whether a task with identifier `id` is live.
    pub fn contains_task(&self, id: TaskId) -> (r: bool)
        requires
            self.wf(),
        ensures
            r == self.tasks().contains_key(id.spec_value()),
    {
        self.tasks.contains_key(&id.as_u64())
    }

    /// The cached waker of task `id`, if it has one.
    pub fn cached_waker(&self, id: TaskId) -> (r: Option<TaskWaker>)
        requires
            self.wf(),
        ensures
            match r {
                Some(w) => self.wakers().contains_key(id.spec_value()) && w == self.wakers()[id.spec_value()]
                    && w.spec_task_id().spec_value() == id.spec_value(),
                None => !self.wakers().contains_key(id.spec_value()),
            },
    {
        match self.waker_cache.get(&id.as_u64()) {
            Some(w) => Some(*w),
            None => None,
        }
    }

    /// Whether both priority buffers are empty.
    pub fn queue_is_empty(&self) -> (r: bool)
        requires
            self.wf(),
        ensures
            r == (self.queue().high.len() == 0 && self.queue().low.len() == 0),
    {
        self.task_queue.is_empty()
    }
}

} // verus!
