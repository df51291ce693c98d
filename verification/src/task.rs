//! Tasks and the weight-ordered executor: ready tasks are polled in
//! descending order of their node's weight, equal weights in wake order.
use vstd::prelude::*;
use std::collections::BTreeMap;
use crate::ts::{TsContext, TsRegistry, TsNode, weight_or_zero, set_current_task_node, opt_string_view};
use crate::sort::{sort_by_weight_desc, stable_sort_by_weight_desc};
use crate::uptime::{Uptime, take_preempt_requested};

verus! {

broadcast use {vstd::std_specs::btree::group_btree_axioms, vstd::laws_cmp::group_laws_cmp};

/// Node of tasks that are not given one.
pub const DEFAULT_TASK_NODE_ID: &'static str = "user_tasks";

/// Identity of a task.
#[derive(Debug, Clone, Copy, PartialEq, Eq, PartialOrd, Ord, Structural)]
pub struct TaskId(pub u64);

/// The count after one id is handed out: one more, wrapping to 0 past the
/// largest.
pub open spec fn next_count(n: u64) -> u64 {
    if n == u64::MAX {
        0
    } else {
        (n + 1) as u64
    }
}

/// The ids that `k` successive constructions hand out from a counter at `n`.
pub open spec fn ids_from(n: u64, k: nat) -> Seq<u64>
    decreases k,
{
    if k == 0 {
        Seq::empty()
    } else {
        seq![n] + ids_from(next_count(n), (k - 1) as nat)
    }
}

/// Ids strictly increase: `k` successive constructions from one counter at
/// `n` hand out `n`, `n + 1`, ..., `n + k - 1`, as long as the counter does
/// not pass the largest id, so no two of them share an id.
pub proof fn lemma_ids_increase(n: u64, k: nat)
    requires
        n + k <= u64::MAX + 1,
    ensures
        ids_from(n, k).len() == k,
        forall|i: int| 0 <= i < k ==> #[trigger] ids_from(n, k)[i] == n + i,
        forall|i: int, j: int| 0 <= i < j < k ==> #[trigger] ids_from(n, k)[i] < #[trigger] ids_from(n, k)[j],
    decreases k,
{
    if k > 0 {
        if k > 1 {
            lemma_ids_increase(next_count(n), (k - 1) as nat);
            assert forall|i: int| 0 <= i < k implies #[trigger] ids_from(n, k)[i] == n + i by {
                if i > 0 {
                    assert(ids_from(n, k)[i] == ids_from(next_count(n), (k - 1) as nat)[i - 1]);
                }
            }
        } else {
            assert(ids_from(n, k) =~= seq![n]);
        }
    }
}

/// Source of fresh task ids: each id once, counting up from 0 (wrapping).
pub struct TaskIdCounter {
    pub next: u64,
}

impl TaskIdCounter {
    pub fn new() -> (r: Self)
        ensures
            r.next == 0,
    {
        TaskIdCounter { next: 0 }
    }
}

impl TaskId {
    /// The next id of `counter`.
    pub fn new(counter: &mut TaskIdCounter) -> (id: TaskId)
        ensures
            id.0 == old(counter).next,
            final(counter).next == next_count(old(counter).next),
    {
        let id = TaskId(counter.next);
        counter.next = counter.next.wrapping_add(1);
        id
    }
}

/// A task: an id, the node it runs for, and the work to poll.
pub struct Task<F> {
    pub id: TaskId,
    /// The node of the task; its weight decides when the task is polled.
    pub node_id: String,
    pub future: F,
}

impl<F> Task<F> {
    /// A task of the default node `"user_tasks"`.
    pub fn new(future: F, counter: &mut TaskIdCounter) -> (t: Task<F>)
        ensures
            t.id.0 == old(counter).next,
            t.node_id@ == DEFAULT_TASK_NODE_ID@,
            final(counter).next == next_count(old(counter).next),
    {
        Task::new_with_node(future, DEFAULT_TASK_NODE_ID, counter)
    }

    /// A task of node `node_id`.
    pub fn new_with_node(future: F, node_id: &str, counter: &mut TaskIdCounter) -> (t: Task<F>)
        ensures
            t.id.0 == old(counter).next,
            t.node_id@ == node_id@,
            final(counter).next == next_count(old(counter).next),
    {
        Task { id: TaskId::new(counter), node_id: node_id.to_owned(), future }
    }
}

/// Work that the executor polls, as the tasks of the kernel's users supply
/// it. A poll runs with the trust context set to the task's own node, and
/// gets the task's id, node and the node's weight read when the round was
/// scheduled; it answers whether the work has now finished.
pub trait TaskFuture {
    /// Whether the work has run to completion.
    spec fn is_done(&self) -> bool;

    /// How many times the work has been polled, counting on from 0 after
    /// the largest count.
    spec fn polls(&self) -> u64;

    /// The task id and weight that the last poll was given.
    spec fn polled_as(&self) -> (TaskId, u32);

    fn poll_task(&mut self, ctx: &mut TsContext, id: TaskId, node_id: &str, weight: u32) -> (done: bool)
        requires
            opt_string_view(old(ctx).current) == Some(node_id@),
        ensures
            done == final(self).is_done(),
            final(self).polls() == next_count(old(self).polls()),
            final(self).polled_as() == (id, weight),
    ;
}

/// A poll count after `n` more polls, counting on from 0 after the largest.
pub open spec fn polls_after(a: u64, n: nat) -> u64
    decreases n,
{
    if n == 0 {
        a
    } else {
        next_count(polls_after(a, (n - 1) as nat))
    }
}

/// Short of the largest count, `n` more polls add `n` to the count.
pub proof fn lemma_polls_after(a: u64, n: nat)
    requires
        a + n <= u64::MAX,
    ensures
        polls_after(a, n) == a + n,
    decreases n,
{
    if n > 0 {
        lemma_polls_after(a, (n - 1) as nat);
    }
}

/// How many of the entries of `s` that have an outcome polled task `k`.
pub open spec fn times_polled(s: Seq<(TaskId, u32)>, outcomes: Seq<PollOutcome>, k: u64) -> nat
    decreases outcomes.len(),
{
    if outcomes.len() == 0 {
        0
    } else {
        times_polled(s, outcomes.drop_last(), k) + (if s[outcomes.len() - 1].0.0 == k && !(outcomes.last() is Skipped) {
            1nat
        } else {
            0nat
        })
    }
}

/// What became of one scheduled entry.
pub enum PollOutcome {
    /// The task had already finished at an earlier entry.
    Skipped,
    /// Polled; not finished.
    Pending,
    /// Polled; finished and removed.
    Finished,
}

/// What one round of the executor did.
pub enum RunReport<F> {
    /// Nothing was ready.
    Idle,
    /// A preemption was pending: nothing was polled, and these ids go back
    /// onto the ready queue, heaviest first.
    Preempted { requeue: Vec<TaskId> },
    /// The scheduled entries, heaviest first, and what became of each; the
    /// finished work, by task id, as its last poll left it.
    Polled { schedule: Vec<(TaskId, u32)>, outcomes: Vec<PollOutcome>, finished: Ghost<Map<u64, F>> },
}

/// Ready ids of live tasks, each with its node's weight (0 for an unknown
/// node), in wake order.
pub open spec fn ready_entries<F>(tasks: Map<u64, Task<F>>, nodes: Map<Seq<char>, TsNode>, ready: Seq<TaskId>) -> Seq<(TaskId, u32)> {
    ready.filter(|t: TaskId| tasks.contains_key(t.0)).map_values(
        |t: TaskId| (t, weight_or_zero(nodes, tasks[t.0].node_id@)),
    )
}

/// The order in which ready tasks are polled: heaviest node first, equal
/// weights in wake order.
pub open spec fn schedule_order<F>(tasks: Map<u64, Task<F>>, nodes: Map<Seq<char>, TsNode>, ready: Seq<TaskId>) -> Seq<(TaskId, u32)> {
    sort_by_weight_desc(ready_entries(tasks, nodes, ready))
}

/// Entry `i` of a round is skipped when its task finished at an earlier entry.
pub open spec fn skipped_at(schedule: Seq<(TaskId, u32)>, outcomes: Seq<PollOutcome>, i: int) -> bool {
    exists|j: int| 0 <= j < i && schedule[j].0 == schedule[i].0 && #[trigger] outcomes[j] is Finished
}

/// Ids of the tasks that finished in a round (over the entries that have
/// an outcome).
pub open spec fn finished_ids(schedule: Seq<(TaskId, u32)>, outcomes: Seq<PollOutcome>) -> Set<u64> {
    Set::new(|k: u64| exists|i: int| 0 <= i < outcomes.len() && i < schedule.len() && schedule[i].0.0 == k && #[trigger] outcomes[i] is Finished)
}

/// Ids that were scheduled in a round.
pub open spec fn scheduled_ids(schedule: Seq<(TaskId, u32)>) -> Set<u64> {
    Set::new(|k: u64| exists|i: int| 0 <= i < schedule.len() && #[trigger] schedule[i].0.0 == k)
}

/// The ids of the scheduled entries, in order.
pub open spec fn schedule_ids(schedule: Seq<(TaskId, u32)>) -> Seq<TaskId> {
    schedule.map_values(|e: (TaskId, u32)| e.0)
}

proof fn lemma_scheduled_entry<F>(tasks: Map<u64, Task<F>>, nodes: Map<Seq<char>, TsNode>, ready: Seq<TaskId>, j: int)
    requires
        0 <= j < schedule_order(tasks, nodes, ready).len(),
    ensures
        tasks.contains_key(schedule_order(tasks, nodes, ready)[j].0.0),
        ready.contains(schedule_order(tasks, nodes, ready)[j].0),
{
    let e = ready_entries(tasks, nodes, ready);
    let pred = |t: TaskId| tasks.contains_key(t.0);
    crate::sort::lemma_sorted_element(e, j);
    let k = choose|k: int| 0 <= k < e.len() && e[k] == schedule_order(tasks, nodes, ready)[j];
    let fr = ready.filter(pred);
    assert(e.len() == fr.len());
    ready.lemma_filter_pred(pred, k);
    assert(fr.contains(fr[k]));
    ready.lemma_filter_contains_rev(pred, fr[k]);
}

/// Every scheduled entry is a ready id of a live task.
pub proof fn lemma_schedule_live<F>(tasks: Map<u64, Task<F>>, nodes: Map<Seq<char>, TsNode>, ready: Seq<TaskId>)
    ensures
        forall|j: int| 0 <= j < schedule_order(tasks, nodes, ready).len() ==> {
            &&& tasks.contains_key(#[trigger] schedule_order(tasks, nodes, ready)[j].0.0)
            &&& ready.contains(schedule_order(tasks, nodes, ready)[j].0)
        },
{
    assert forall|j: int| 0 <= j < schedule_order(tasks, nodes, ready).len() implies {
        &&& tasks.contains_key(#[trigger] schedule_order(tasks, nodes, ready)[j].0.0)
        &&& ready.contains(schedule_order(tasks, nodes, ready)[j].0)
    } by {
        lemma_scheduled_entry(tasks, nodes, ready, j);
    }
}

/// Most ids the ready queue holds.
pub const TASK_QUEUE_CAP: usize = 100;

/// The executor: live tasks by id, and the ids of ready tasks in the order
/// they became ready.
pub struct Executor<F> {
    tasks: BTreeMap<u64, Task<F>>,
    queue: Vec<TaskId>,
}

impl<F> Executor<F> {
    /// Live tasks by id.
    pub closed spec fn tasks(&self) -> Map<u64, Task<F>> {
        self.tasks@
    }

    /// Ids of ready tasks, oldest first.
    pub closed spec fn queue(&self) -> Seq<TaskId> {
        self.queue@
    }

    #[verifier::type_invariant]
    pub closed spec fn inv(&self) -> bool {
        &&& forall|k: u64| #[trigger] self.tasks@.contains_key(k) ==> self.tasks@[k].id.0 == k
        &&& self.queue@.len() <= TASK_QUEUE_CAP
    }

    /// Every live task is held under its own id.
    pub proof fn lemma_ids(&self)
        requires
            self.inv(),
        ensures
            forall|k: u64| #[trigger] self.tasks().contains_key(k) ==> self.tasks()[k].id.0 == k,
            self.queue().len() <= TASK_QUEUE_CAP,
    {
    }

    pub fn new() -> (r: Self)
        ensures
            r.tasks() == Map::<u64, Task<F>>::empty(),
            r.queue() == Seq::<TaskId>::empty(),
    {
        Executor { tasks: BTreeMap::new(), queue: Vec::new() }
    }

    /// Number of ready ids queued.
    pub fn queue_len(&self) -> (n: usize)
        ensures
            n == self.queue().len(),
    {
        self.queue.len()
    }

    /// Marks task `id` ready: its id joins the back of the queue, unless the
    /// queue is full, which is answered with `Err(())`.
    pub fn wake(&mut self, id: TaskId) -> (r: Result<(), ()>)
        ensures
            r is Ok <==> old(self).queue().len() < TASK_QUEUE_CAP,
            r is Ok ==> final(self).queue() == old(self).queue().push(id),
            r is Err ==> final(self).queue() == old(self).queue(),
            final(self).tasks() == old(self).tasks(),
    {
        proof {
            use_type_invariant(&*self);
        }
        if self.queue.len() >= TASK_QUEUE_CAP {
            return Err(());
        }
        let mut q: Vec<TaskId> = Vec::new();
        std::mem::swap(&mut q, &mut self.queue);
        q.push(id);
        self.queue = q;
        Ok(())
    }

    /// Whether a live task has id `id`.
    pub fn has_task(&self, id: TaskId) -> (r: bool)
        ensures
            r == self.tasks().contains_key(id.0),
    {
        self.tasks.contains_key(&id.0)
    }

    /// Adds `task` and marks it ready. Its id must be new and the queue must
    /// have room.
    pub fn spawn(&mut self, task: Task<F>)
        requires
            !old(self).tasks().contains_key(task.id.0),
            old(self).queue().len() < TASK_QUEUE_CAP,
        ensures
            final(self).tasks() == old(self).tasks().insert(task.id.0, task),
            final(self).queue() == old(self).queue().push(task.id),
    {
        proof {
            use_type_invariant(&*self);
        }
        let id = task.id;
        let mut tasks = BTreeMap::new();
        std::mem::swap(&mut tasks, &mut self.tasks);
        let key = task.id.0;
        tasks.insert(key, task);
        self.tasks = tasks;
        let mut q: Vec<TaskId> = Vec::new();
        std::mem::swap(&mut q, &mut self.queue);
        q.push(id);
        self.queue = q;
    }

    /// Ready ids of live tasks with their nodes' weights, heaviest first;
    /// equal weights keep their wake order.
    pub fn schedule(&self, registry: &TsRegistry, ready: &Vec<TaskId>) -> (r: Vec<(TaskId, u32)>)
        ensures
            r@ == schedule_order(self.tasks(), registry@, ready@),
    {
        let ghost pred = |t: TaskId| self.tasks@.contains_key(t.0);
        let ghost f = |t: TaskId| (t, weight_or_zero(registry@, self.tasks@[t.0].node_id@));
        let mut entries: Vec<(TaskId, u32)> = Vec::new();
        let mut i: usize = 0;
        while i < ready.len()
            invariant
                0 <= i <= ready@.len(),
                pred == (|t: TaskId| self.tasks@.contains_key(t.0)),
                f == (|t: TaskId| (t, weight_or_zero(registry@, self.tasks@[t.0].node_id@))),
                entries@ == ready@.take(i as int).filter(pred).map_values(f),
            decreases ready@.len() - i,
        {
            let t = ready[i];
            proof {
                assert(ready@.take(i + 1) =~= ready@.take(i as int).push(t));
                ready@.take(i as int).lemma_filter_push(t, pred);
            }
            match self.tasks.get(&t.0) {
                Some(task) => {
                    let w = match registry.get_weight(task.node_id.as_str()) {
                        Some(w) => w,
                        None => 0,
                    };
                    let ghost eb = entries@;
                    entries.push((t, w));
                    proof {
                        assert(entries@ =~= ready@.take(i + 1).filter(pred).map_values(f));
                    }
                },
                None => {},
            }
            i = i + 1;
        }
        proof {
            assert(ready@.take(ready@.len() as int) =~= ready@);
        }
        stable_sort_by_weight_desc(entries)
    }
}

impl<F: TaskFuture> Executor<F> {
    /// One round of the executor over the ready queue, which it empties.
    /// With nothing ready it does nothing. Otherwise, if a preemption is
    /// pending, it clears the request and puts the scheduled ids back on the
    /// queue, heaviest first, polling nothing; else it polls each scheduled
    /// entry once, in order (heaviest node first, equal weights in wake
    /// order), with the running context set to the task's node, drops the
    /// tasks that finish, skips the entries of a task that finished earlier
    /// in the round, and returns to kernel context. The weights are read
    /// before the first poll; a polled task may itself use the context.
    pub fn run_ready_tasks(&mut self, ctx: &mut TsContext, uptime: &mut Uptime) -> (r: RunReport<F>)
        ensures
            ({
                let ready = old(self).queue();
                let s = schedule_order(old(self).tasks(), old(ctx).registry@, ready);
                &&& ready.len() == 0 ==> {
                    &&& r is Idle
                    &&& *final(self) == *old(self)
                    &&& *final(ctx) == *old(ctx)
                    &&& *final(uptime) == *old(uptime)
                }
                &&& ready.len() > 0 ==> !final(uptime).preempt_requested && final(uptime).ticks == old(uptime).ticks
                &&& ready.len() > 0 && old(uptime).preempt_requested ==> {
                    &&& r matches RunReport::Preempted { requeue } && requeue@ == schedule_ids(s)
                    &&& final(self).queue() == schedule_ids(s)
                    &&& final(self).tasks() == old(self).tasks()
                    &&& *final(ctx) == *old(ctx)
                }
                &&& ready.len() > 0 && !old(uptime).preempt_requested ==> {
                    &&& r matches RunReport::Polled { schedule, outcomes, finished } && {
                        &&& schedule@ == s
                        &&& outcomes@.len() == s.len()
                        &&& forall|i: int| 0 <= i < s.len() ==> (#[trigger] outcomes@[i] is Skipped <==> skipped_at(s, outcomes@, i))
                        &&& final(self).tasks().dom() == old(self).tasks().dom().difference(finished_ids(s, outcomes@))
                        &&& forall|k: u64| #[trigger] finished_ids(s, outcomes@).contains(k) ==> {
                            &&& finished@.contains_key(k)
                            &&& finished@[k].is_done()
                            &&& finished@[k].polls() == polls_after(old(self).tasks()[k].future.polls(), times_polled(s, outcomes@, k))
                            &&& finished@[k].polled_as() == (old(self).tasks()[k].id, weight_or_zero(old(ctx).registry@, old(self).tasks()[k].node_id@))
                        }
                        &&& forall|k: u64| #[trigger] final(self).tasks().contains_key(k) ==>
                            final(self).tasks()[k].future.polls() == polls_after(old(self).tasks()[k].future.polls(), times_polled(s, outcomes@, k))
                    }
                    &&& final(self).queue().len() == 0
                    &&& forall|k: u64| #[trigger] final(self).tasks().contains_key(k) ==> {
                        &&& final(self).tasks()[k].id == old(self).tasks()[k].id
                        &&& final(self).tasks()[k].node_id == old(self).tasks()[k].node_id
                        &&& !scheduled_ids(s).contains(k) ==> final(self).tasks()[k] == old(self).tasks()[k]
                        &&& scheduled_ids(s).contains(k) ==> !final(self).tasks()[k].future.is_done()
                        &&& scheduled_ids(s).contains(k) ==> final(self).tasks()[k].future.polled_as() == (
                            old(self).tasks()[k].id,
                            weight_or_zero(old(ctx).registry@, old(self).tasks()[k].node_id@),
                        )
                    }
                    &&& s.len() > 0 ==> final(ctx).current is None
                    &&& s.len() == 0 ==> *final(ctx) == *old(ctx)
                }
            }),
    {
        proof {
            use_type_invariant(&*self);
        }
        if self.queue.len() == 0 {
            return RunReport::Idle;
        }
        let mut ready: Vec<TaskId> = Vec::new();
        std::mem::swap(&mut ready, &mut self.queue);
        let sched = self.schedule(&ctx.registry, &ready);
        proof {
            crate::sort::lemma_sort_by_weight_desc(ready_entries(self.tasks@, ctx.registry@, ready@));
            ready@.filter_lemma(|t: TaskId| self.tasks@.contains_key(t.0));
            assert(sched@.len() <= ready@.len());
        }
        if take_preempt_requested(uptime) {
            let mut requeue: Vec<TaskId> = Vec::new();
            let mut back: Vec<TaskId> = Vec::new();
            let mut i: usize = 0;
            while i < sched.len()
                invariant
                    0 <= i <= sched@.len(),
                    requeue@ == schedule_ids(sched@.take(i as int)),
                    back@ == requeue@,
                    sched@.len() <= TASK_QUEUE_CAP,
                decreases sched@.len() - i,
            {
                requeue.push(sched[i].0);
                back.push(sched[i].0);
                proof {
                    assert(schedule_ids(sched@.take(i + 1)) =~= schedule_ids(sched@.take(i as int)).push(sched@[i as int].0));
                }
                i = i + 1;
            }
            proof {
                assert(sched@.take(sched@.len() as int) =~= sched@);
            }
            self.queue = back;
            return RunReport::Preempted { requeue };
        }
        let ghost s = sched@;
        let ghost old_tasks = self.tasks@;
        let ghost reg0 = ctx.registry@;
        proof {
            lemma_schedule_live(old_tasks, ctx.registry@, ready@);
            lemma_schedule_by_weight(old_tasks, ctx.registry@, ready@);
        }
        let mut tasks = BTreeMap::new();
        std::mem::swap(&mut tasks, &mut self.tasks);
        let mut outcomes: Vec<PollOutcome> = Vec::new();
        let ghost mut fin: Map<u64, F> = Map::empty();
        let n = sched.len();
        let mut i: usize = 0;
        while i < n
            invariant
                0 <= i <= n,
                n == s.len(),
                sched@ == s,
                outcomes@.len() == i,
                self.queue@.len() == 0,
                forall|j: int| 0 <= j < s.len() ==> old_tasks.contains_key(#[trigger] s[j].0.0),
                forall|j: int| 0 <= j < s.len() ==> #[trigger] s[j].1 == weight_or_zero(reg0, old_tasks[s[j].0.0].node_id@),
                forall|j: int| 0 <= j < i ==> (#[trigger] outcomes@[j] is Skipped <==> skipped_at(s, outcomes@, j)),
                tasks@.dom() == old_tasks.dom().difference(finished_ids(s, outcomes@)),
                forall|k: u64| #[trigger] tasks@.contains_key(k) ==> {
                    &&& tasks@[k].id == old_tasks[k].id
                    &&& tasks@[k].id.0 == k
                    &&& tasks@[k].node_id == old_tasks[k].node_id
                    &&& !scheduled_ids(s.take(i as int)).contains(k) ==> tasks@[k] == old_tasks[k]
                    &&& scheduled_ids(s.take(i as int)).contains(k) ==> !tasks@[k].future.is_done()
                    &&& scheduled_ids(s.take(i as int)).contains(k) ==> tasks@[k].future.polled_as() == (old_tasks[k].id, weight_or_zero(reg0, old_tasks[k].node_id@))
                    &&& tasks@[k].future.polls() == polls_after(old_tasks[k].future.polls(), times_polled(s, outcomes@, k))
                },
                forall|k: u64| #[trigger] finished_ids(s, outcomes@).contains(k) ==> {
                    &&& fin.contains_key(k)
                    &&& fin[k].is_done()
                    &&& fin[k].polls() == polls_after(old_tasks[k].future.polls(), times_polled(s, outcomes@, k))
                    &&& fin[k].polled_as() == (old_tasks[k].id, weight_or_zero(reg0, old_tasks[k].node_id@))
                },
                forall|k: u64| #[trigger] old_tasks.contains_key(k) ==> old_tasks[k].id.0 == k,
                i > 0 ==> ctx.current is None,
                i == 0 ==> *ctx == *old(ctx),
            decreases n - i,
        {
            let tid = sched[i].0;
            let w = sched[i].1;
            let ghost ob = outcomes@;
            let ghost tb = tasks@;
            let ghost fb = fin;
            match tasks.remove(&tid.0) {
                None => {
                    outcomes.push(PollOutcome::Skipped);
                    proof {
                        lemma_outcome_pushed(s, ob, PollOutcome::Skipped);
                        assert(outcomes@ == ob.push(PollOutcome::Skipped));
                    }
                },
                Some(mut task) => {
                    proof {
                        lemma_outcome_pushed(s, ob, PollOutcome::Pending);
                        lemma_outcome_pushed(s, ob, PollOutcome::Finished);
                    }
                    set_current_task_node(ctx, Some(task.node_id.as_str()));
                    let done = task.future.poll_task(ctx, task.id, task.node_id.as_str(), w);
                    if done {
                        outcomes.push(PollOutcome::Finished);
                        proof {
                            fin = fin.insert(tid.0, task.future);
                            assert(outcomes@ == ob.push(PollOutcome::Finished));
                        }
                    } else {
                        tasks.insert(tid.0, task);
                        outcomes.push(PollOutcome::Pending);
                        proof {
                            assert(outcomes@ == ob.push(PollOutcome::Pending));
                        }
                    }
                    set_current_task_node(ctx, None);
                },
            }
            proof {
                lemma_scheduled_step(s, i as int);
            }
            i = i + 1;
        }
        self.tasks = tasks;
        proof {
            assert(s.take(n as int) =~= s);
            assert(outcomes@.len() == s.len());
        }
        RunReport::Polled { schedule: sched, outcomes, finished: Ghost(fin) }
    }
}

/// A new outcome at the end of the round so far: earlier entries keep
/// whether they were skipped, the entry is skipped exactly when its task
/// finished earlier, a `Finished` outcome adds its task to the finished
/// ones, and a polled entry counts one poll of its task.
proof fn lemma_outcome_pushed(s: Seq<(TaskId, u32)>, ob: Seq<PollOutcome>, o: PollOutcome)
    requires
        ob.len() < s.len(),
    ensures
        forall|j: int| 0 <= j < ob.len() ==> (skipped_at(s, ob.push(o), j) <==> #[trigger] skipped_at(s, ob, j)),
        skipped_at(s, ob.push(o), ob.len() as int) <==> finished_ids(s, ob).contains(s[ob.len() as int].0.0),
        finished_ids(s, ob.push(o)) == (if o is Finished {
            finished_ids(s, ob).insert(s[ob.len() as int].0.0)
        } else {
            finished_ids(s, ob)
        }),
        forall|k: u64| #[trigger] times_polled(s, ob.push(o), k) == times_polled(s, ob, k) + (if s[ob.len() as int].0.0 == k && !(o is Skipped) {
            1nat
        } else {
            0nat
        }),
{
    let os = ob.push(o);
    let i = ob.len() as int;
    assert(os.drop_last() =~= ob);
    assert forall|j: int| 0 <= j < ob.len() implies (skipped_at(s, os, j) <==> #[trigger] skipped_at(s, ob, j)) by {
        if skipped_at(s, os, j) {
            let m = choose|m: int| 0 <= m < j && s[m].0 == s[j].0 && #[trigger] os[m] is Finished;
            assert(ob[m] is Finished);
        }
        if skipped_at(s, ob, j) {
            let m = choose|m: int| 0 <= m < j && s[m].0 == s[j].0 && #[trigger] ob[m] is Finished;
            assert(os[m] is Finished);
        }
    }
    if skipped_at(s, os, i) {
        let m = choose|m: int| 0 <= m < i && s[m].0 == s[i].0 && #[trigger] os[m] is Finished;
        assert(ob[m] is Finished);
    }
    if finished_ids(s, ob).contains(s[i].0.0) {
        let m = choose|m: int| 0 <= m < ob.len() && m < s.len() && s[m].0.0 == s[i].0.0 && #[trigger] ob[m] is Finished;
        assert(os[m] is Finished);
        assert(s[m].0 == s[i].0);
    }
    let want = if o is Finished { finished_ids(s, ob).insert(s[i].0.0) } else { finished_ids(s, ob) };
    assert(finished_ids(s, os) =~= want) by {
        assert forall|k: u64| finished_ids(s, os).contains(k) implies want.contains(k) by {
            let m = choose|m: int| 0 <= m < os.len() && m < s.len() && s[m].0.0 == k && #[trigger] os[m] is Finished;
            if m < i {
                assert(ob[m] is Finished);
            }
        }
        assert forall|k: u64| want.contains(k) implies finished_ids(s, os).contains(k) by {
            if o is Finished && k == s[i].0.0 {
                assert(os[i] is Finished);
            } else {
                let m = choose|m: int| 0 <= m < ob.len() && m < s.len() && s[m].0.0 == k && #[trigger] ob[m] is Finished;
                assert(os[m] is Finished);
            }
        }
    }
}

/// The ids scheduled up to entry `i + 1` are those up to `i` and the id of
/// entry `i`.
proof fn lemma_scheduled_step(s: Seq<(TaskId, u32)>, i: int)
    requires
        0 <= i < s.len(),
    ensures
        forall|k: u64| #[trigger] scheduled_ids(s.take(i + 1)).contains(k) <==> (scheduled_ids(s.take(i)).contains(k) || k == s[i].0.0),
{
    assert forall|k: u64| #[trigger] scheduled_ids(s.take(i + 1)).contains(k) <==> (scheduled_ids(s.take(i)).contains(k) || k == s[i].0.0) by {
        if scheduled_ids(s.take(i)).contains(k) {
            let m = choose|m: int| 0 <= m < s.take(i).len() && #[trigger] s.take(i)[m].0.0 == k;
            assert(s.take(i + 1)[m] == s.take(i)[m]);
        }
        if k == s[i].0.0 {
            assert(s.take(i + 1)[i].0.0 == k);
        }
        if scheduled_ids(s.take(i + 1)).contains(k) && k != s[i].0.0 {
            let m = choose|m: int| 0 <= m < s.take(i + 1).len() && #[trigger] s.take(i + 1)[m].0.0 == k;
            assert(m != i);
            assert(s.take(i)[m] == s.take(i + 1)[m]);
        }
    }
}

} // verus!

verus! {

/// Scheduling prioritizes weight: the polling order never puts a lighter
/// node's task before a heavier one's, each entry carries its task's node
/// weight, and tasks of equal weight keep the order in which they woke.
pub proof fn lemma_schedule_by_weight<F>(tasks: Map<u64, Task<F>>, nodes: Map<Seq<char>, TsNode>, ready: Seq<TaskId>)
    ensures
        crate::sort::weights_descending(schedule_order(tasks, nodes, ready)),
        forall|w: u32| #[trigger] crate::sort::of_weight(schedule_order(tasks, nodes, ready), w)
            == crate::sort::of_weight(ready_entries(tasks, nodes, ready), w),
        forall|j: int| 0 <= j < schedule_order(tasks, nodes, ready).len() ==> #[trigger] schedule_order(tasks, nodes, ready)[j].1
            == weight_or_zero(nodes, tasks[schedule_order(tasks, nodes, ready)[j].0.0].node_id@),
{
    let e = ready_entries(tasks, nodes, ready);
    crate::sort::lemma_sort_by_weight_desc(e);
    assert forall|j: int| 0 <= j < schedule_order(tasks, nodes, ready).len() implies #[trigger] schedule_order(tasks, nodes, ready)[j].1
        == weight_or_zero(nodes, tasks[schedule_order(tasks, nodes, ready)[j].0.0].node_id@) by {
        crate::sort::lemma_sorted_element(e, j);
    }
}

} // verus!
