use boggers_ts::task::{Executor, PollOutcome, RunReport, Task, TaskFuture, TaskId, TaskIdCounter};
use boggers_ts::ts::{current_node_id, init, TsContext};
use boggers_ts::uptime::{tick, Uptime};
use std::cell::RefCell;
use std::rc::Rc;

/// Records every poll; finishes after `polls_left` polls.
struct Recorder {
    log: Rc<RefCell<Vec<(u64, String, u32)>>>,
    polls_left: u32,
    polls: u64,
    last: (TaskId, u32),
}

fn recorder(log: &Rc<RefCell<Vec<(u64, String, u32)>>>, polls_left: u32) -> Recorder {
    Recorder { log: log.clone(), polls_left, polls: 0, last: (TaskId(u64::MAX), 0) }
}

impl TaskFuture for Recorder {
    fn is_done(&self) -> bool {
        self.polls_left == 0
    }

    fn polls(&self) -> u64 {
        self.polls
    }

    fn polled_as(&self) -> (TaskId, u32) {
        self.last
    }

    fn poll_task(&mut self, ctx: &mut TsContext, id: TaskId, node_id: &str, weight: u32) -> bool {
        assert_eq!(current_node_id(ctx).as_deref(), Some(node_id));
        self.log.borrow_mut().push((id.0, String::from(node_id), weight));
        self.polls_left -= 1;
        self.polls = self.polls.wrapping_add(1);
        self.last = (id, weight);
        self.polls_left == 0
    }
}

fn setup() -> TsContext {
    let mut ctx = TsContext::new();
    init(&mut ctx);
    ctx.registry.register_node("task_executor", 850, Some("kernel"), vec![]);
    ctx.registry.register_node("user_tasks", 500, Some("kernel"), vec![]);
    ctx.registry.register_node("shell", 600, Some("kernel"), vec![]);
    ctx.registry.register_node("gui_driver", 600, Some("kernel"), vec![]);
    ctx
}

#[test]
fn task_ids_count_up() {
    let mut c = TaskIdCounter::new();
    assert_eq!(TaskId::new(&mut c), TaskId(0));
    assert_eq!(TaskId::new(&mut c), TaskId(1));
    let t = Task::new((), &mut c);
    assert_eq!(t.id, TaskId(2));
    assert_eq!(t.node_id, "user_tasks");
    let t = Task::new_with_node((), "shell", &mut c);
    assert_eq!(t.id, TaskId(3));
    assert_eq!(t.node_id, "shell");
    let mut last = TaskIdCounter { next: u64::MAX };
    assert_eq!(TaskId::new(&mut last), TaskId(u64::MAX));
    assert_eq!(last.next, 0);
}

#[test]
fn schedule_heaviest_first_ties_in_wake_order() {
    let ctx = setup();
    let log = Rc::new(RefCell::new(Vec::new()));
    let mut c = TaskIdCounter::new();
    let mut ex = Executor::new();
    for node in ["user_tasks", "gui_driver", "task_executor", "shell", "unknown_node"] {
        ex.spawn(Task::new_with_node(recorder(&log, 1), node, &mut c));
    }
    let ready = vec![TaskId(0), TaskId(1), TaskId(2), TaskId(3), TaskId(4), TaskId(99)];
    let order = ex.schedule(&ctx.registry, &ready);
    assert_eq!(
        order,
        vec![(TaskId(2), 850), (TaskId(1), 600), (TaskId(3), 600), (TaskId(0), 500), (TaskId(4), 0)]
    );
}

#[test]
fn run_polls_in_weight_order_and_drops_finished() {
    let mut ctx = setup();
    let mut up = Uptime::new();
    let log = Rc::new(RefCell::new(Vec::new()));
    let mut c = TaskIdCounter::new();
    let mut ex = Executor::new();
    ex.spawn(Task::new(recorder(&log, 1), &mut c));
    ex.spawn(Task::new_with_node(recorder(&log, 2), "task_executor", &mut c));
    assert_eq!(ex.queue_len(), 2);
    let report = ex.run_ready_tasks(&mut ctx, &mut up);
    assert_eq!(ex.queue_len(), 0);
    match report {
        RunReport::Polled { schedule, outcomes, .. } => {
            assert_eq!(schedule, vec![(TaskId(1), 850), (TaskId(0), 500)]);
            assert!(matches!(outcomes[0], PollOutcome::Pending));
            assert!(matches!(outcomes[1], PollOutcome::Finished));
        }
        _ => panic!("expected a polling round"),
    }
    assert_eq!(
        *log.borrow(),
        vec![(1, String::from("task_executor"), 850), (0, String::from("user_tasks"), 500)]
    );
    assert_eq!(current_node_id(&ctx), None);
    // the unfinished task is still there; the finished one is gone
    assert_eq!(ex.wake(TaskId(0)), Ok(()));
    assert_eq!(ex.wake(TaskId(1)), Ok(()));
    let report = ex.run_ready_tasks(&mut ctx, &mut up);
    match report {
        RunReport::Polled { schedule, outcomes, .. } => {
            assert_eq!(schedule, vec![(TaskId(1), 850)]);
            assert!(matches!(outcomes[0], PollOutcome::Finished));
        }
        _ => panic!("expected a polling round"),
    }
    assert_eq!(ex.wake(TaskId(1)), Ok(()));
    assert!(matches!(ex.run_ready_tasks(&mut ctx, &mut up), RunReport::Polled { .. }));
    assert_eq!(log.borrow().len(), 3);
}

#[test]
fn duplicate_wake_of_finished_task_is_skipped() {
    let mut ctx = setup();
    let mut up = Uptime::new();
    let log = Rc::new(RefCell::new(Vec::new()));
    let mut c = TaskIdCounter::new();
    let mut ex = Executor::new();
    ex.spawn(Task::new(recorder(&log, 1), &mut c));
    assert_eq!(ex.wake(TaskId(0)), Ok(()));
    match ex.run_ready_tasks(&mut ctx, &mut up) {
        RunReport::Polled { schedule, outcomes, .. } => {
            assert_eq!(schedule.len(), 2);
            assert!(matches!(outcomes[0], PollOutcome::Finished));
            assert!(matches!(outcomes[1], PollOutcome::Skipped));
        }
        _ => panic!("expected a polling round"),
    }
    assert_eq!(log.borrow().len(), 1);
}

#[test]
fn idle_and_preempted_rounds_poll_nothing() {
    let mut ctx = setup();
    let mut up = Uptime::new();
    let log = Rc::new(RefCell::new(Vec::new()));
    let mut c = TaskIdCounter::new();
    let mut ex = Executor::new();
    for _ in 0..21 {
        tick(&mut up);
    }
    assert!(up.preempt_requested);
    // nothing ready: the request stays pending
    assert!(matches!(ex.run_ready_tasks(&mut ctx, &mut up), RunReport::Idle));
    assert!(up.preempt_requested);
    ex.spawn(Task::new(recorder(&log, 1), &mut c));
    ex.spawn(Task::new_with_node(recorder(&log, 1), "shell", &mut c));
    match ex.run_ready_tasks(&mut ctx, &mut up) {
        RunReport::Preempted { requeue } => assert_eq!(requeue, vec![TaskId(1), TaskId(0)]),
        _ => panic!("expected preemption"),
    }
    assert!(!up.preempt_requested);
    assert!(log.borrow().is_empty());
    // the scheduled ids went back on the queue, heaviest first
    assert_eq!(ex.queue_len(), 2);
    assert!(matches!(ex.run_ready_tasks(&mut ctx, &mut up), RunReport::Polled { .. }));
    assert_eq!(log.borrow().len(), 2);
}

#[test]
fn successive_task_ids_strictly_increase() {
    let mut c = TaskIdCounter::new();
    let ids: Vec<TaskId> = (0..50).map(|i| Task::new_with_node((), if i % 2 == 0 { "shell" } else { "user_tasks" }, &mut c).id).collect();
    for w in ids.windows(2) {
        assert!(w[0] < w[1]);
    }
    assert_eq!(ids[49], TaskId(49));
}

#[test]
fn a_task_is_polled_in_its_own_node_and_finished_work_is_reported() {
    let mut ctx = setup();
    let mut up = Uptime::new();
    let log = Rc::new(RefCell::new(Vec::new()));
    let mut c = TaskIdCounter::new();
    let mut ex = Executor::new();
    ex.spawn(Task::new_with_node(recorder(&log, 1), "shell", &mut c));
    match ex.run_ready_tasks(&mut ctx, &mut up) {
        RunReport::Polled { outcomes, .. } => assert!(matches!(outcomes[0], PollOutcome::Finished)),
        _ => panic!("expected a polled round"),
    }
    assert_eq!(*log.borrow(), vec![(0, String::from("shell"), 600)]);
    assert_eq!(current_node_id(&ctx), None);
    assert!(!ex.has_task(TaskId(0)));
}

#[test]
fn each_ready_entry_is_polled_once_and_the_queue_holds_a_hundred() {
    let mut ctx = setup();
    let mut up = Uptime::new();
    let log = Rc::new(RefCell::new(Vec::new()));
    let mut c = TaskIdCounter::new();
    let mut ex = Executor::new();
    ex.spawn(Task::new_with_node(recorder(&log, 5), "shell", &mut c));
    ex.spawn(Task::new_with_node(recorder(&log, 5), "task_executor", &mut c));
    assert_eq!(ex.wake(TaskId(0)), Ok(()));
    match ex.run_ready_tasks(&mut ctx, &mut up) {
        RunReport::Polled { schedule, outcomes, .. } => {
            assert_eq!(schedule, vec![(TaskId(1), 850), (TaskId(0), 600), (TaskId(0), 600)]);
            assert!(outcomes.iter().all(|o| matches!(o, PollOutcome::Pending)));
        }
        _ => panic!("expected a polling round"),
    }
    assert_eq!(
        *log.borrow(),
        vec![(1, String::from("task_executor"), 850), (0, String::from("shell"), 600), (0, String::from("shell"), 600)]
    );
    for _ in 0..100 {
        assert_eq!(ex.wake(TaskId(0)), Ok(()));
    }
    assert_eq!(ex.wake(TaskId(0)), Err(()));
    assert_eq!(ex.queue_len(), 100);
}

#[test]
fn each_poll_is_given_its_own_task_id_and_weight() {
    let mut ctx = setup();
    let mut up = Uptime::new();
    let log = Rc::new(RefCell::new(Vec::new()));
    let mut c = TaskIdCounter::new();
    let mut ex = Executor::new();
    for _ in 0..3 {
        let _ = TaskId::new(&mut c);
    }
    ex.spawn(Task::new_with_node(recorder(&log, 2), "gui_driver", &mut c));
    ex.spawn(Task::new_with_node(recorder(&log, 2), "unknown_node", &mut c));
    assert!(matches!(ex.run_ready_tasks(&mut ctx, &mut up), RunReport::Polled { .. }));
    assert_eq!(
        *log.borrow(),
        vec![(3, String::from("gui_driver"), 600), (4, String::from("unknown_node"), 0)]
    );
}
