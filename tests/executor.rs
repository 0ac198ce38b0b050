use kernel_tasks::executor::{DrainStep, Executor, IdleAction, StepOutcome};
use kernel_tasks::queue::{QueueFull, TaskPriority, TaskQueue, DEFAULT_CAPACITY};
use kernel_tasks::task::{PollState, Resumable, Task, TaskContext, TaskId, TaskIdCounter, TaskWaker};
use std::cell::RefCell;
use std::rc::Rc;

/// A computation that needs `polls_needed` resumptions, logs each one, and
/// when not done either asks to be woken at once or hands its waker out.
struct Script {
    name: u64,
    polls_needed: u32,
    self_wake: bool,
    wakes_per_poll: u32,
    log: Rc<RefCell<Vec<u64>>>,
    handed_out: Rc<RefCell<Vec<TaskWaker>>>,
}

impl Resumable for Script {
    fn poll(&mut self, cx: &mut TaskContext) -> PollState {
        self.log.borrow_mut().push(self.name);
        self.polls_needed -= 1;
        if self.polls_needed == 0 {
            return PollState::Ready;
        }
        if self.self_wake {
            for _ in 0..self.wakes_per_poll {
                cx.wake_by_ref();
            }
        } else {
            self.handed_out.borrow_mut().push(cx.waker());
        }
        PollState::Pending
    }
}

struct Rig {
    exec: Executor<Script>,
    ids: TaskIdCounter,
    issued: u64,
    log: Rc<RefCell<Vec<u64>>>,
    handed_out: Rc<RefCell<Vec<TaskWaker>>>,
}

impl Rig {
    fn new() -> Rig {
        Rig {
            exec: Executor::new(),
            ids: TaskIdCounter::new(),
            issued: 0,
            log: Rc::new(RefCell::new(Vec::new())),
            handed_out: Rc::new(RefCell::new(Vec::new())),
        }
    }

    fn task(&mut self, polls_needed: u32, self_wake: bool) -> Task<Script> {
        self.task_waking(polls_needed, if self_wake { 1 } else { 0 })
    }

    fn task_waking(&mut self, polls_needed: u32, wakes_per_poll: u32) -> Task<Script> {
        let self_wake = wakes_per_poll > 0;
        let name = self.issued;
        self.issued += 1;
        let task = Task::new(
            Script {
                name,
                polls_needed,
                self_wake,
                wakes_per_poll,
                log: self.log.clone(),
                handed_out: self.handed_out.clone(),
            },
            &mut self.ids,
        )
        .unwrap();
        assert_eq!(task.id().as_u64(), name);
        task
    }

    fn spawn(&mut self, polls_needed: u32, self_wake: bool, priority: TaskPriority) -> TaskId {
        self.spawn_waking(polls_needed, if self_wake { 1 } else { 0 }, priority)
    }

    fn spawn_waking(&mut self, polls_needed: u32, wakes_per_poll: u32, priority: TaskPriority) -> TaskId {
        let task = self.task_waking(polls_needed, wakes_per_poll);
        let id = task.id();
        assert!(!self.exec.contains_task(id));
        assert!(self.exec.has_room(priority));
        self.exec.spawn(task, priority);
        id
    }

    fn logged(&self) -> Vec<u64> {
        self.log.borrow().clone()
    }
}

fn ids_of(steps: &[DrainStep]) -> Vec<u64> {
    steps.iter().map(|s| s.id.as_u64()).collect()
}

fn outcomes_of(steps: &[DrainStep]) -> Vec<StepOutcome> {
    steps.iter().map(|s| s.outcome).collect()
}

#[test]
fn trivial_assertion() {
    assert_eq!(1, 1);
}

#[test]
fn high_then_low_drain_order() {
    let mut rig = Rig::new();
    let a = rig.spawn(1, false, TaskPriority::High);
    let b = rig.spawn(1, false, TaskPriority::Low);
    let steps = rig.exec.run_ready_tasks(usize::MAX);
    assert_eq!(ids_of(&steps), vec![a.as_u64(), b.as_u64()]);
    assert_eq!(outcomes_of(&steps), vec![StepOutcome::Done, StepOutcome::Done]);
    assert_eq!(rig.logged(), vec![a.as_u64(), b.as_u64()]);
    assert!(!rig.exec.contains_task(a));
    assert!(!rig.exec.contains_task(b));
}

#[test]
fn woken_high_task_runs_again_before_low() {
    let mut rig = Rig::new();
    let a = rig.spawn(2, true, TaskPriority::High);
    let b = rig.spawn(1, false, TaskPriority::Low);
    let steps = rig.exec.run_ready_tasks(usize::MAX);
    assert_eq!(ids_of(&steps), vec![a.as_u64(), a.as_u64(), b.as_u64()]);
    assert_eq!(
        outcomes_of(&steps),
        vec![StepOutcome::Woken(1), StepOutcome::Done, StepOutcome::Done]
    );
    assert_eq!(rig.logged(), vec![a.as_u64(), a.as_u64(), b.as_u64()]);
}

#[test]
fn low_task_woken_is_promoted_to_high() {
    let mut rig = Rig::new();
    let b = rig.spawn(2, true, TaskPriority::Low);
    let c = rig.spawn(1, false, TaskPriority::Low);
    let steps = rig.exec.run_ready_tasks(usize::MAX);
    assert_eq!(ids_of(&steps), vec![b.as_u64(), b.as_u64(), c.as_u64()]);
}

#[test]
fn all_queued_high_ids_precede_low_ids() {
    let mut rig = Rig::new();
    let l1 = rig.spawn(1, false, TaskPriority::Low);
    let h1 = rig.spawn(2, true, TaskPriority::High);
    let l2 = rig.spawn(1, false, TaskPriority::Low);
    let h2 = rig.spawn(1, false, TaskPriority::High);
    let steps = rig.exec.run_ready_tasks(usize::MAX);
    assert_eq!(
        ids_of(&steps),
        vec![h1.as_u64(), h2.as_u64(), h1.as_u64(), l1.as_u64(), l2.as_u64()]
    );
}

#[test]
fn self_waking_tasks_all_complete_in_one_pass() {
    let mut rig = Rig::new();
    let mut ids = Vec::new();
    for i in 0..5u32 {
        let priority = if i % 2 == 0 { TaskPriority::High } else { TaskPriority::Low };
        ids.push(rig.spawn(i + 1, true, priority));
    }
    let steps = rig.exec.run_ready_tasks(usize::MAX);
    assert_eq!(steps.len(), 1 + 2 + 3 + 4 + 5);
    for id in &ids {
        assert!(!rig.exec.contains_task(*id));
        assert!(rig.exec.cached_waker(*id).is_none());
    }
    assert!(rig.exec.queue_is_empty());
}

#[test]
fn pending_task_stays_until_woken_and_keeps_one_waker() {
    let mut rig = Rig::new();
    let a = rig.spawn(3, false, TaskPriority::Low);
    assert!(rig.exec.cached_waker(a).is_none());
    let steps = rig.exec.run_ready_tasks(usize::MAX);
    assert_eq!(outcomes_of(&steps), vec![StepOutcome::Pending]);
    assert!(rig.exec.contains_task(a));
    let first = rig.exec.cached_waker(a).unwrap();
    assert_eq!(first.task_id(), a);
    assert_eq!(rig.exec.run_ready_tasks(usize::MAX).len(), 0);
    assert_eq!(rig.exec.idle_action(), IdleAction::EnableAndHalt);

    let handed = rig.handed_out.borrow()[0];
    assert_eq!(handed, first);
    rig.exec.wake(&handed);
    assert_eq!(rig.exec.idle_action(), IdleAction::Enable);
    let steps = rig.exec.run_ready_tasks(usize::MAX);
    assert_eq!(outcomes_of(&steps), vec![StepOutcome::Pending]);
    assert_eq!(rig.exec.cached_waker(a), Some(first));

    rig.exec.wake(&handed);
    let steps = rig.exec.run_ready_tasks(usize::MAX);
    assert_eq!(outcomes_of(&steps), vec![StepOutcome::Done]);
    assert!(!rig.exec.contains_task(a));
    assert!(rig.exec.cached_waker(a).is_none());
    assert_eq!(rig.logged(), vec![a.as_u64(), a.as_u64(), a.as_u64()]);
}

#[test]
fn wake_of_finished_task_is_dropped() {
    let mut rig = Rig::new();
    let a = rig.spawn(2, false, TaskPriority::High);
    rig.exec.run_ready_tasks(usize::MAX);
    let handed = rig.handed_out.borrow()[0];
    rig.exec.wake(&handed);
    rig.exec.run_ready_tasks(usize::MAX);
    assert!(!rig.exec.contains_task(a));

    rig.exec.wake(&handed);
    rig.exec.wake(&handed);
    let steps = rig.exec.run_ready_tasks(usize::MAX);
    assert_eq!(ids_of(&steps), vec![a.as_u64(), a.as_u64()]);
    assert_eq!(outcomes_of(&steps), vec![StepOutcome::Stale, StepOutcome::Stale]);
    assert!(!rig.exec.contains_task(a));
    assert!(rig.exec.cached_waker(a).is_none());
    assert_eq!(rig.logged(), vec![a.as_u64(), a.as_u64()]);
}

#[test]
fn duplicate_entries_after_completion_are_stale() {
    let mut rig = Rig::new();
    let a = rig.spawn(1, false, TaskPriority::High);
    rig.exec.wake(&TaskWaker::new(a));
    let steps = rig.exec.run_ready_tasks(usize::MAX);
    assert_eq!(outcomes_of(&steps), vec![StepOutcome::Done, StepOutcome::Stale]);
    assert_eq!(rig.logged(), vec![a.as_u64()]);
}

#[test]
fn tasks_from_one_counter_never_share_an_id() {
    let mut rig = Rig::new();
    let first = rig.task(1, false);
    let second = rig.task(1, false);
    assert_ne!(first.id(), second.id());
    assert!(first.id().as_u64() < second.id().as_u64());
    let id = first.id();
    rig.exec.spawn(first, TaskPriority::High);
    assert!(rig.exec.contains_task(id));
    assert!(!rig.exec.contains_task(second.id()));
}

#[test]
fn full_buffer_has_no_room() {
    let mut rig = Rig::new();
    for _ in 0..DEFAULT_CAPACITY {
        rig.spawn(1, false, TaskPriority::Low);
    }
    assert!(!rig.exec.has_room(TaskPriority::Low));
    assert!(rig.exec.has_room(TaskPriority::High));
    rig.spawn(1, false, TaskPriority::High);
    assert_eq!(rig.exec.run_ready_tasks(usize::MAX).len(), DEFAULT_CAPACITY + 1);
    assert!(rig.exec.has_room(TaskPriority::Low));
}

#[test]
fn full_high_buffer_has_no_room_for_a_wake() {
    let mut rig = Rig::new();
    for _ in 0..DEFAULT_CAPACITY {
        rig.spawn(1, false, TaskPriority::High);
    }
    assert!(!rig.exec.has_room(TaskPriority::High));
}

#[test]
fn each_outside_wake_queues_the_id_again() {
    let mut rig = Rig::new();
    let a = rig.spawn(1, false, TaskPriority::High);
    let waker = TaskWaker::new(a);
    rig.exec.wake(&waker);
    rig.exec.wake(&waker);
    let steps = rig.exec.run_ready_tasks(usize::MAX);
    assert_eq!(
        outcomes_of(&steps),
        vec![StepOutcome::Done, StepOutcome::Stale, StepOutcome::Stale]
    );
}

#[test]
fn step_budget_limits_a_pass() {
    let mut rig = Rig::new();
    let a = rig.spawn(1, false, TaskPriority::High);
    let b = rig.spawn(1, false, TaskPriority::High);
    assert_eq!(rig.exec.run_ready_tasks(0).len(), 0);
    let steps = rig.exec.run_ready_tasks(1);
    assert_eq!(ids_of(&steps), vec![a.as_u64()]);
    assert!(rig.exec.contains_task(b));
    assert_eq!(rig.exec.idle_action(), IdleAction::Enable);
    let steps = rig.exec.run_ready_tasks(usize::MAX);
    assert_eq!(ids_of(&steps), vec![b.as_u64()]);
}

#[test]
fn run_next_on_empty_queue() {
    let mut rig = Rig::new();
    assert!(rig.exec.run_next().is_none());
    let a = rig.spawn(1, false, TaskPriority::Low);
    let step = rig.exec.run_next().unwrap();
    assert_eq!(step.id, a);
    assert_eq!(step.outcome, StepOutcome::Done);
    assert!(rig.exec.run_next().is_none());
}

#[test]
fn idle_with_empty_queue_halts() {
    let rig = Rig::new();
    assert!(rig.exec.queue_is_empty());
    assert_eq!(rig.exec.idle_action(), IdleAction::EnableAndHalt);
}

#[test]
fn queue_refuses_push_past_capacity() {
    for priority in [TaskPriority::High, TaskPriority::Low] {
        let mut q = TaskQueue::new(DEFAULT_CAPACITY);
        for id in 0..DEFAULT_CAPACITY as u64 {
            assert_eq!(q.push(id, priority), Ok(()));
        }
        assert_eq!(q.push(DEFAULT_CAPACITY as u64, priority), Err(QueueFull));
    }
}

#[test]
fn queue_pops_high_first_in_fifo_order() {
    let mut q = TaskQueue::new(4);
    assert!(q.is_empty());
    q.push(7, TaskPriority::Low).unwrap();
    q.push(3, TaskPriority::High).unwrap();
    q.push(8, TaskPriority::Low).unwrap();
    q.push(4, TaskPriority::High).unwrap();
    assert!(!q.is_empty());
    assert_eq!(q.pop(), Some(3));
    assert_eq!(q.pop(), Some(4));
    assert_eq!(q.pop(), Some(7));
    assert_eq!(q.pop(), Some(8));
    assert_eq!(q.pop(), None);
    assert!(q.is_empty());
}

#[test]
fn queue_full_buffer_leaves_other_buffer_usable() {
    let mut q = TaskQueue::new(1);
    q.push(1, TaskPriority::High).unwrap();
    assert_eq!(q.push(2, TaskPriority::High), Err(QueueFull));
    assert_eq!(q.push(3, TaskPriority::Low), Ok(()));
    assert_eq!(q.pop(), Some(1));
    assert_eq!(q.pop(), Some(3));
}

#[test]
fn waker_pushes_at_high_priority() {
    let mut ids = TaskIdCounter::new();
    let low = ids.next_id().unwrap();
    let woken = ids.next_id().unwrap();
    let mut q = TaskQueue::new(2);
    q.push(low.as_u64(), TaskPriority::Low).unwrap();
    TaskWaker::new(woken).wake_task(&mut q);
    assert_eq!(q.pop(), Some(woken.as_u64()));
    assert_eq!(q.pop(), Some(low.as_u64()));
}

#[test]
fn counter_issues_increasing_ids() {
    let mut ids = TaskIdCounter::new();
    let a = ids.next_id().unwrap();
    let b = ids.next_id().unwrap();
    let c = ids.next_id().unwrap();
    assert_eq!(a.as_u64(), 0);
    assert_eq!(b.as_u64(), 1);
    assert_eq!(c.as_u64(), 2);
    assert_ne!(a, b);
}

#[test]
fn each_wake_in_a_resumption_queues_the_task_again() {
    let mut rig = Rig::new();
    let a = rig.spawn_waking(3, 2, TaskPriority::High);
    let b = rig.spawn(1, false, TaskPriority::Low);
    let steps = rig.exec.run_ready_tasks(usize::MAX);
    assert_eq!(
        ids_of(&steps),
        vec![a.as_u64(), a.as_u64(), a.as_u64(), a.as_u64(), a.as_u64(), b.as_u64()]
    );
    assert_eq!(
        outcomes_of(&steps),
        vec![
            StepOutcome::Woken(2),
            StepOutcome::Woken(2),
            StepOutcome::Done,
            StepOutcome::Stale,
            StepOutcome::Stale,
            StepOutcome::Done,
        ]
    );
    assert_eq!(rig.logged(), vec![a.as_u64(), a.as_u64(), a.as_u64(), b.as_u64()]);
}

#[test]
fn wakes_beyond_high_room_overflow_and_stop_the_pass() {
    let mut rig = Rig::new();
    let a = rig.spawn_waking(2, DEFAULT_CAPACITY as u32 + 1, TaskPriority::High);
    let b = rig.spawn(1, false, TaskPriority::Low);
    let steps = rig.exec.run_ready_tasks(usize::MAX);
    assert_eq!(ids_of(&steps), vec![a.as_u64()]);
    assert_eq!(outcomes_of(&steps), vec![StepOutcome::WakeOverflow]);
    assert!(rig.exec.contains_task(a));
    assert!(rig.exec.contains_task(b));
    assert!(!rig.exec.has_room(TaskPriority::High));
}

#[test]
fn cached_waker_is_bound_to_its_task() {
    let mut rig = Rig::new();
    let a = rig.spawn(2, false, TaskPriority::Low);
    rig.exec.run_ready_tasks(usize::MAX);
    assert_eq!(rig.exec.cached_waker(a).unwrap().task_id(), a);
}
