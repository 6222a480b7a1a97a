//! The scheduler of the tasks.

use crate::fault::Fault;
use crate::task::{Computation, Step, System, TaskId, TaskState};
use std::collections::VecDeque;
use vstd::prelude::*;

verus! {

/// A task as the scheduler sees it.
pub struct TaskEntry {
    pub id: TaskId,
    pub state: TaskState,
}

/// The scheduler as plain values: the tasks that live, in the order in
/// which they were spawned, the identities that wait for a step, first
/// to last, and the number of the next identity.
pub struct ExecutorState {
    pub tasks: Seq<TaskEntry>,
    pub ready: Seq<TaskId>,
    pub next: u64,
}

impl ExecutorState {
    /// Whether a task `id` lives.
    pub open spec fn alive(self, id: TaskId) -> bool {
        exists|i: int| 0 <= i < self.tasks.len() && (#[trigger] self.tasks[i]).id == id
    }

    /// The place of the task `id` among the tasks.
    pub open spec fn position(self, id: TaskId) -> int {
        choose|i: int| 0 <= i < self.tasks.len() && (#[trigger] self.tasks[i]).id == id
    }

    /// Where the task `id` stands, if it lives.
    pub open spec fn state_of(self, id: TaskId) -> Option<TaskState> {
        if self.alive(id) {
            Some(self.tasks[self.position(id)].state)
        } else {
            None
        }
    }

    /// No two tasks share an identity, none has come to its end, and the
    /// ready queue holds, once each, the tasks that are ready.
    pub open spec fn wf(self) -> bool {
        &&& forall|i: int, j: int|
            0 <= i < j < self.tasks.len() ==> (#[trigger] self.tasks[i]).id != (
            #[trigger] self.tasks[j]).id
        &&& forall|i: int|
            0 <= i < self.tasks.len() ==> (#[trigger] self.tasks[i]).state != TaskState::Completed
                && self.tasks[i].id.0 < self.next
        &&& forall|i: int|
            0 <= i < self.tasks.len() ==> ((#[trigger] self.tasks[i]).state == TaskState::Ready
                <==> self.ready.contains(self.tasks[i].id))
        &&& forall|k: int| 0 <= k < self.ready.len() ==> self.alive(#[trigger] self.ready[k])
        &&& forall|k: int, l: int|
            0 <= k < l < self.ready.len() ==> #[trigger] self.ready[k] != #[trigger] self.ready[l]
    }

    /// The scheduler after a task was spawned: it has the next identity
    /// and is the last of the ready queue.
    pub open spec fn spawn(self) -> ExecutorState {
        ExecutorState {
            tasks: self.tasks.push(TaskEntry { id: TaskId(self.next), state: TaskState::Ready }),
            ready: self.ready.push(TaskId(self.next)),
            next: (self.next + 1) as u64,
        }
    }

    /// The scheduler after the task `id` was woken: a suspended task is
    /// ready again, as the last of the queue; nothing else changes.
    pub open spec fn wake(self, id: TaskId) -> ExecutorState {
        if self.state_of(id) == Some(TaskState::Suspended) {
            ExecutorState {
                tasks: self.tasks.update(
                    self.position(id),
                    TaskEntry { id, state: TaskState::Ready },
                ),
                ready: self.ready.push(id),
                ..self
            }
        } else {
            self
        }
    }

    /// The scheduler after the first task of the ready queue took a step
    /// that ended in `outcome`: a task that suspended stays, out of the
    /// queue; one that is done, or failed, is gone.
    pub open spec fn resume(self, outcome: Result<Step, Fault>) -> ExecutorState
        recommends
            self.ready.len() > 0,
    {
        let id = self.ready[0];
        let at = self.position(id);
        ExecutorState {
            tasks: if outcome == Ok::<Step, Fault>(Step::Suspended) {
                self.tasks.update(at, TaskEntry { id, state: TaskState::Suspended })
            } else {
                self.tasks.remove(at)
            },
            ready: self.ready.skip(1),
            ..self
        }
    }

    /// The scheduler after as many steps as there are `outcomes`, each of
    /// the task that was first in the ready queue at its time.
    pub open spec fn resume_all(self, outcomes: Seq<Result<Step, Fault>>) -> ExecutorState
        decreases outcomes.len(),
    {
        if outcomes.len() == 0 {
            self
        } else {
            self.resume_all(outcomes.drop_last()).resume(outcomes.last())
        }
    }

    /// Whether a run of the ready tasks leads to `after` and ends in
    /// `done`, where `outcomes` are the outcomes of its steps: every step
    /// is one of the task that is first in the ready queue; the run goes
    /// on until no task is ready, or ends with the step that failed.
    pub open spec fn runs_to(
        self,
        outcomes: Seq<Result<Step, Fault>>,
        after: ExecutorState,
        done: Result<(), Fault>,
    ) -> bool {
        &&& outcomes.len() <= self.ready.len()
        &&& self.resume_all(outcomes) == after
        &&& forall|k: int| 0 <= k < outcomes.len() - 1 ==> outcomes[k] is Ok
        &&& match done {
            Ok(()) => after.ready.len() == 0 && outcomes.len() == self.ready.len() && forall|k: int|
                0 <= k < outcomes.len() ==> outcomes[k] is Ok,
            Err(fault) => outcomes.len() > 0 && outcomes.last() == Err::<Step, Fault>(fault),
        }
    }

    /// The scheduler after `count` times the task `id`, first in the
    /// queue, took a step that suspended it and was woken again.
    pub open spec fn cycles(self, id: TaskId, count: nat) -> ExecutorState
        decreases count,
    {
        if count == 0 {
            self
        } else {
            self.cycles(id, (count - 1) as nat).resume(Ok(Step::Suspended)).wake(id)
        }
    }
}

/// Spawning keeps the scheduler in order.
pub proof fn lemma_spawn_wf(s: ExecutorState)
    requires
        s.wf(),
        s.next < u64::MAX,
    ensures
        s.spawn().wf(),
        s.spawn().state_of(TaskId(s.next)) == Some(TaskState::Ready),
        !s.alive(TaskId(s.next)),
{
    let t = s.spawn();
    let id = TaskId(s.next);
    let last = s.tasks.len() as int;
    assert(t.tasks[last].id == id);
    assert(!s.ready.contains(id)) by {
        if s.ready.contains(id) {
            let k = choose|k: int| 0 <= k < s.ready.len() && s.ready[k] == id;
            assert(s.alive(s.ready[k]));
        }
    }
    assert forall|i: int| 0 <= i < t.tasks.len() implies ((#[trigger] t.tasks[i]).state
        == TaskState::Ready <==> t.ready.contains(t.tasks[i].id)) by {
        if i < last {
            assert(t.tasks[i] == s.tasks[i]);
            if s.ready.contains(s.tasks[i].id) {
                let k = choose|k: int| 0 <= k < s.ready.len() && s.ready[k] == s.tasks[i].id;
                assert(t.ready[k] == s.tasks[i].id);
            }
            if t.ready.contains(t.tasks[i].id) {
                let k = choose|k: int| 0 <= k < t.ready.len() && t.ready[k] == t.tasks[i].id;
                assert(k < s.ready.len());
                assert(s.ready[k] == s.tasks[i].id);
            }
        } else {
            assert(t.ready[s.ready.len() as int] == id);
        }
    }
    assert forall|k: int| 0 <= k < t.ready.len() implies t.alive(#[trigger] t.ready[k]) by {
        if k < s.ready.len() {
            assert(s.alive(s.ready[k]));
            let i = s.position(s.ready[k]);
            assert(t.tasks[i].id == t.ready[k]);
        } else {
            assert(t.tasks[last].id == t.ready[k]);
        }
    }
    assert forall|k: int, l: int| 0 <= k < l < t.ready.len() implies #[trigger] t.ready[k]
        != #[trigger] t.ready[l] by {
        if l == s.ready.len() {
            assert(s.ready[k] == t.ready[k]);
            assert(s.ready.contains(s.ready[k]));
        }
    }
    let at = t.position(id);
    assert(t.tasks[at].id == id);
    assert(at == last);
}

/// Waking keeps the scheduler in order.
pub proof fn lemma_wake_wf(s: ExecutorState, id: TaskId)
    requires
        s.wf(),
    ensures
        s.wake(id).wf(),
{
    if s.state_of(id) == Some(TaskState::Suspended) {
        let t = s.wake(id);
        let at = s.position(id);
        assert(s.tasks[at].id == id);
        assert(!s.ready.contains(id));
        assert forall|i: int| 0 <= i < t.tasks.len() implies ((#[trigger] t.tasks[i]).state
            == TaskState::Ready <==> t.ready.contains(t.tasks[i].id)) by {
            if i != at {
                assert(t.tasks[i] == s.tasks[i]);
                if s.ready.contains(s.tasks[i].id) {
                    let k = choose|k: int| 0 <= k < s.ready.len() && s.ready[k] == s.tasks[i].id;
                    assert(t.ready[k] == s.tasks[i].id);
                }
                if t.ready.contains(t.tasks[i].id) {
                    let k = choose|k: int| 0 <= k < t.ready.len() && t.ready[k] == t.tasks[i].id;
                    assert(k < s.ready.len());
                    assert(s.ready[k] == s.tasks[i].id);
                }
            } else {
                assert(t.ready[s.ready.len() as int] == id);
            }
        }
        assert forall|k: int| 0 <= k < t.ready.len() implies t.alive(#[trigger] t.ready[k]) by {
            if k < s.ready.len() {
                assert(s.alive(s.ready[k]));
                let i = s.position(s.ready[k]);
                assert(t.tasks[i].id == t.ready[k]);
            } else {
                assert(t.tasks[at].id == t.ready[k]);
            }
        }
        assert forall|k: int, l: int| 0 <= k < l < t.ready.len() implies #[trigger] t.ready[k]
            != #[trigger] t.ready[l] by {
            if l == s.ready.len() {
                assert(s.ready[k] == t.ready[k]);
                assert(s.ready.contains(s.ready[k]));
            }
        }
    }
}

/// A step of the first ready task keeps the scheduler in order.
pub proof fn lemma_resume_wf(s: ExecutorState, outcome: Result<Step, Fault>)
    requires
        s.wf(),
        s.ready.len() > 0,
    ensures
        s.resume(outcome).wf(),
        s.resume(outcome).state_of(s.ready[0]) == if outcome == Ok::<Step, Fault>(
            Step::Suspended,
        ) {
            Some(TaskState::Suspended)
        } else {
            None
        },
        outcome == Ok::<Step, Fault>(Step::Suspended) ==> s.resume(outcome).position(s.ready[0])
            == s.position(s.ready[0]),
{
    let t = s.resume(outcome);
    let id = s.ready[0];
    assert(s.alive(id));
    let at = s.position(id);
    assert(s.tasks[at].id == id);
    assert forall|k: int| 0 <= k < t.ready.len() implies t.ready[k] == s.ready[k + 1] && t.ready[k]
        != id by {}
    assert(!t.ready.contains(id));
    if outcome == Ok::<Step, Fault>(Step::Suspended) {
        assert forall|i: int| 0 <= i < t.tasks.len() implies ((#[trigger] t.tasks[i]).state
            == TaskState::Ready <==> t.ready.contains(t.tasks[i].id)) by {
            if i != at {
                assert(t.tasks[i] == s.tasks[i]);
                if s.ready.contains(s.tasks[i].id) {
                    let k = choose|k: int| 0 <= k < s.ready.len() && s.ready[k] == s.tasks[i].id;
                    assert(k > 0);
                    assert(t.ready[k - 1] == s.tasks[i].id);
                }
                if t.ready.contains(t.tasks[i].id) {
                    let k = choose|k: int| 0 <= k < t.ready.len() && t.ready[k] == t.tasks[i].id;
                    assert(s.ready[k + 1] == s.tasks[i].id);
                }
            }
        }
        assert forall|k: int| 0 <= k < t.ready.len() implies t.alive(#[trigger] t.ready[k]) by {
            assert(s.alive(s.ready[k + 1]));
            let i = s.position(s.ready[k + 1]);
            assert(t.tasks[i].id == t.ready[k]);
        }
        assert(t.tasks[at].id == id);
        let again = t.position(id);
        assert(t.tasks[again].id == id);
        assert(again == at);
    } else {
        assert forall|i: int| 0 <= i < t.tasks.len() implies (#[trigger] t.tasks[i]) == s.tasks[if i
            < at {
            i
        } else {
            i + 1
        }] by {}
        assert forall|i: int| 0 <= i < t.tasks.len() implies ((#[trigger] t.tasks[i]).state
            == TaskState::Ready <==> t.ready.contains(t.tasks[i].id)) by {
            let j = if i < at {
                i
            } else {
                i + 1
            };
            assert(t.tasks[i] == s.tasks[j]);
            if s.ready.contains(s.tasks[j].id) {
                let k = choose|k: int| 0 <= k < s.ready.len() && s.ready[k] == s.tasks[j].id;
                assert(k > 0);
                assert(t.ready[k - 1] == s.tasks[j].id);
            }
            if t.ready.contains(t.tasks[i].id) {
                let k = choose|k: int| 0 <= k < t.ready.len() && t.ready[k] == t.tasks[i].id;
                assert(s.ready[k + 1] == s.tasks[j].id);
            }
        }
        assert forall|k: int| 0 <= k < t.ready.len() implies t.alive(#[trigger] t.ready[k]) by {
            assert(s.alive(s.ready[k + 1]));
            let i = s.position(s.ready[k + 1]);
            assert(i != at);
            let j = if i < at {
                i
            } else {
                i - 1
            };
            assert(t.tasks[j].id == t.ready[k]);
        }
        assert(!t.alive(id)) by {
            if t.alive(id) {
                let i = t.position(id);
                let j = if i < at {
                    i
                } else {
                    i + 1
                };
                assert(t.tasks[i] == s.tasks[j]);
            }
        }
        assert forall|i: int, j: int| 0 <= i < j < t.tasks.len() implies (#[trigger] t.tasks[i]).id
            != (#[trigger] t.tasks[j]).id by {
            let ii = if i < at {
                i
            } else {
                i + 1
            };
            let jj = if j < at {
                j
            } else {
                j + 1
            };
            assert(t.tasks[i] == s.tasks[ii] && t.tasks[j] == s.tasks[jj]);
        }
    }
}

/// A task is done after one step more than it suspends: a task that is
/// spawned into an empty ready queue is ready for each of its steps; a
/// step that suspends it takes it out of the queue until it is woken;
/// and after `suspensions` such steps, each followed by a wake, the step
/// that completes it leaves no task of its identity behind.
pub proof fn law_task_completes_after_its_suspensions(s: ExecutorState, suspensions: nat)
    requires
        s.wf(),
        s.ready.len() == 0,
        s.next < u64::MAX,
    ensures
        ({
            let id = TaskId(s.next);
            let spawned = s.spawn();
            &&& forall|k: nat|
                k <= suspensions ==> (#[trigger] spawned.cycles(id, k)).state_of(id) == Some(
                    TaskState::Ready,
                ) && spawned.cycles(id, k).ready == seq![id]
            &&& forall|k: nat|
                k < suspensions ==> {
                    let suspended = (#[trigger] spawned.cycles(id, k)).resume(Ok(Step::Suspended));
                    suspended.state_of(id) == Some(TaskState::Suspended) && suspended.ready.len()
                        == 0
                }
            &&& spawned.cycles(id, suspensions).resume(Ok(Step::Complete)).state_of(id) is None
        }),
{
    let id = TaskId(s.next);
    let spawned = s.spawn();
    lemma_spawn_wf(s);
    assert(spawned.ready =~= seq![id]);
    assert forall|k: nat| (#[trigger] spawned.cycles(id, k)) == spawned by {
        lemma_cycle_returns(spawned, id, k);
    }
    lemma_resume_wf(spawned, Ok(Step::Suspended));
    lemma_resume_wf(spawned, Ok(Step::Complete));
    assert(spawned.resume(Ok(Step::Suspended)).ready =~= Seq::<TaskId>::empty());
}

/// A step that suspends the only ready task and the wake that follows
/// lead back to where the scheduler was.
proof fn lemma_cycle_returns(s: ExecutorState, id: TaskId, count: nat)
    requires
        s.wf(),
        s.ready == seq![id],
    ensures
        s.cycles(id, count) == s,
    decreases count,
{
    if count > 0 {
        lemma_cycle_returns(s, id, (count - 1) as nat);
        lemma_resume_wf(s, Ok(Step::Suspended));
        let suspended = s.resume(Ok(Step::Suspended));
        assert(s.alive(s.ready[0]));
        let at = s.position(id);
        assert(s.tasks[at].id == id);
        assert(s.ready.contains(id));
        assert(s.tasks[at].state == TaskState::Ready);
        let again = suspended.position(id);
        assert(suspended.tasks[at].id == id);
        assert(suspended.tasks[again].id == id);
        assert(again == at);
        let woken = suspended.wake(id);
        assert(woken.tasks =~= s.tasks);
        assert(woken.ready =~= s.ready);
    }
}

/// A computation with its identity and its place in the schedule.
pub struct Task<C> {
    id: TaskId,
    state: TaskState,
    computation: C,
}

impl<C> Task<C> {
    pub closed spec fn entry(&self) -> TaskEntry {
        TaskEntry { id: self.id, state: self.state }
    }

    /// The computation of the task.
    pub closed spec fn computation(&self) -> C {
        self.computation
    }

    /// A task that is ready for its first step.
    pub fn new(id: TaskId, computation: C) -> (task: Self)
        ensures
            task.entry() == (TaskEntry { id, state: TaskState::Ready }),
            task.computation() == computation,
    {
        Task { id, state: TaskState::Ready, computation }
    }

    pub fn id(&self) -> (id: TaskId)
        ensures
            id == self.entry().id,
    {
        self.id
    }

    pub fn state(&self) -> (state: TaskState)
        ensures
            state == self.entry().state,
    {
        self.state
    }
}

/// The scheduler: it steps the tasks that are ready, one after the
/// other, each up to its next suspension.
pub struct Executor<C> {
    tasks: Vec<Task<C>>,
    ready: VecDeque<TaskId>,
    next: u64,
}

impl<C> View for Executor<C> {
    type V = ExecutorState;

    closed spec fn view(&self) -> ExecutorState {
        ExecutorState {
            tasks: Seq::new(self.tasks@.len(), |i: int| self.tasks@[i].entry()),
            ready: self.ready@,
            next: self.next,
        }
    }
}

impl<C: Computation> Executor<C> {
    /// The computation of the task `id`, where it lives.
    pub closed spec fn computation(&self, id: TaskId) -> C {
        self.tasks@[self@.position(id)].computation
    }

    /// Whether every task of this scheduler, but the task `except`, has
    /// in `after` the computation that it has here.
    pub open spec fn keeps_computations(&self, after: &Self, except: Option<TaskId>) -> bool {
        forall|id: TaskId|
            #![trigger after.computation(id)]
            self@.alive(id) && Some(id) != except ==> after.computation(id) == self.computation(id)
    }

    /// Whether giving the first ready task one step leads from this
    /// scheduler and `system` to `after` and `system_after`, where
    /// `stepped` names the task and the outcome of its step. Without a
    /// ready task nothing changes. Otherwise the step is one of the
    /// computation of the first ready task, on `system`; the task is kept
    /// with the computation as the step left it where it suspended, and
    /// gone where it is done or failed; every other task is as it was.
    pub open spec fn steps_to(
        &self,
        system: &System,
        after: &Self,
        system_after: &System,
        stepped: Option<(TaskId, Result<Step, Fault>)>,
    ) -> bool {
        match stepped {
            None => {
                &&& self@.ready.len() == 0
                &&& *after == *self
                &&& *system_after == *system
            },
            Some((id, outcome)) => {
                &&& self@.ready.len() > 0
                &&& id == self@.ready[0]
                &&& after@ == self@.resume(outcome)
                &&& self.keeps_computations(after, Some(id))
                &&& if outcome == Ok::<Step, Fault>(Step::Suspended) {
                    self.computation(id).step_spec(
                        id,
                        system,
                        &after.computation(id),
                        system_after,
                        outcome,
                    )
                } else {
                    exists|left: C| #[trigger]
                        self.computation(id).step_spec(id, system, &left, system_after, outcome)
                }
            },
        }
    }

    /// Whether a run of the ready tasks leads from this scheduler and
    /// `system` to `after` and `system_after` and ends in `done`, where
    /// `trace` holds the scheduler and the system before and after each
    /// step and `outcomes` the outcomes of the steps: each step is one of
    /// the first ready task; the run goes on until no task is ready, or
    /// ends with the step that failed.
    pub open spec fn runs_to(
        &self,
        system: &System,
        trace: Seq<(Self, System)>,
        outcomes: Seq<Result<Step, Fault>>,
        after: &Self,
        system_after: &System,
        done: Result<(), Fault>,
    ) -> bool {
        &&& trace.len() == outcomes.len() + 1
        &&& trace[0] == (*self, *system)
        &&& trace.last() == (*after, *system_after)
        &&& forall|k: int|
            0 <= k < outcomes.len() ==> (#[trigger] trace[k]).0.steps_to(
                &trace[k].1,
                &trace[k + 1].0,
                &trace[k + 1].1,
                Some((trace[k].0@.ready[0], outcomes[k])),
            )
        &&& self@.runs_to(outcomes, after@, done)
    }

    /// A scheduler without tasks.
    pub fn new() -> (executor: Self)
        ensures
            executor@.wf(),
            executor@.tasks.len() == 0,
            executor@.ready.len() == 0,
            executor@.next == 0,
    {
        Executor { tasks: Vec::new(), ready: VecDeque::new(), next: 0 }
    }

    /// Whether no task waits for a step.
    pub fn is_idle(&self) -> (idle: bool)
        ensures
            idle == (self@.ready.len() == 0),
    {
        self.ready.len() == 0
    }

    /// Where the task `id` stands, if it lives.
    pub fn state_of(&self, id: TaskId) -> (state: Option<TaskState>)
        requires
            self@.wf(),
        ensures
            state == self@.state_of(id),
    {
        match self.find(id) {
            Some(i) => Some(self.tasks[i].state()),
            None => None,
        }
    }

    /// Takes a computation in as a new task, ready for its first step.
    pub fn spawn(&mut self, computation: C) -> (id: TaskId)
        requires
            old(self)@.wf(),
            old(self)@.next < u64::MAX,
        ensures
            final(self)@ == old(self)@.spawn(),
            final(self)@.wf(),
            id == TaskId(old(self)@.next),
            final(self).computation(id) == computation,
            old(self).keeps_computations(final(self), None),
    {
        let id = TaskId(self.next);
        self.next = self.next + 1;
        self.tasks.push(Task::new(id, computation));
        // A place in the queue for every task: waking never has to make room.
        self.ready.reserve(self.tasks.len());
        self.ready.push_back(id);
        proof {
            lemma_spawn_wf(old(self)@);
            assert(self@.tasks =~= old(self)@.spawn().tasks);
            let last = old(self).tasks@.len() as int;
            assert(self@.tasks[last].id == id);
            assert(self@.tasks[self@.position(id)].id == id);
            assert forall|other: TaskId| old(self)@.alive(other) implies #[trigger] self.computation(
                other,
            ) == old(self).computation(other) by {
                let p = old(self)@.position(other);
                assert(old(self)@.tasks[p].id == other);
                assert(self@.tasks[p].id == other);
                assert(self@.tasks[self@.position(other)].id == other);
            }
        }
        id
    }

    /// Makes a suspended task ready again. Any other identity is let be.
    pub fn wake(&mut self, id: TaskId)
        requires
            old(self)@.wf(),
        ensures
            final(self)@ == old(self)@.wake(id),
            final(self)@.wf(),
            old(self).keeps_computations(final(self), None),
    {
        proof {
            lemma_wake_wf(self@, id);
        }
        let at = match self.find(id) {
            Some(at) => at,
            None => {
                return ;
            },
        };
        match self.tasks[at].state() {
            TaskState::Suspended => {},
            _ => {
                return ;
            },
        }
        let mut task = self.tasks.remove(at);
        task.state = TaskState::Ready;
        self.tasks.insert(at, task);
        self.ready.push_back(id);
        proof {
            assert(self@.tasks =~= old(self)@.wake(id).tasks);
            assert forall|other: TaskId| old(self)@.alive(other) implies #[trigger] self.computation(
                other,
            ) == old(self).computation(other) by {
                let p = old(self)@.position(other);
                assert(old(self)@.tasks[p].id == other);
                assert(self@.tasks[p].id == other);
                assert(self@.tasks[self@.position(other)].id == other);
                assert(self.tasks@[p].computation == old(self).tasks@[p].computation);
            }
        }
    }

    /// Gives the first task of the ready queue one step. `None` where no
    /// task is ready.
    pub fn run_next(&mut self, system: &mut System) -> (stepped: Option<
        (TaskId, Result<Step, Fault>),
    >)
        requires
            old(self)@.wf(),
            old(system).wf(),
        ensures
            final(self)@.wf(),
            final(system).wf(),
            match stepped {
                None => old(self)@.ready.len() == 0 && final(self)@ == old(self)@,
                Some((id, outcome)) => old(self)@.ready.len() > 0 && id == old(self)@.ready[0]
                    && final(self)@ == old(self)@.resume(outcome),
            },
            old(self).steps_to(old(system), final(self), final(system), stepped),
    {
        if self.ready.len() == 0 {
            return None;
        }
        let id = match self.ready.pop_front() {
            Some(id) => id,
            None => {
                return None;
            },
        };
        proof {
            assert(old(self)@.alive(old(self)@.ready[0]));
        }
        let at = match self.find(id) {
            Some(at) => at,
            None => {
                return None;
            },
        };
        let mut task = self.tasks.remove(at);
        let ghost before = task.computation;
        let outcome = task.computation.step(id, system);
        let ghost left = task.computation;
        match outcome {
            Ok(Step::Suspended) => {
                task.state = TaskState::Suspended;
                self.tasks.insert(at, task);
            },
            _ => {},
        }
        proof {
            lemma_resume_wf(old(self)@, outcome);
            assert(self@.tasks =~= old(self)@.resume(outcome).tasks);
            assert(old(self)@.position(id) == at);
            assert(old(self).computation(id) == before);
            if outcome == Ok::<Step, Fault>(Step::Suspended) {
                assert(self@.position(id) == at);
                assert(self.computation(id) == left);
            }
            assert forall|other: TaskId|
                old(self)@.alive(other) && other != id implies #[trigger] self.computation(other)
                == old(self).computation(other) by {
                let p = old(self)@.position(other);
                assert(old(self)@.tasks[p].id == other);
                assert(p != at);
                let q = if outcome == Ok::<Step, Fault>(Step::Suspended) || p < at {
                    p
                } else {
                    p - 1
                };
                assert(self@.tasks[q].id == other);
                assert(self@.tasks[self@.position(other)].id == other);
                assert(self@.position(other) == q);
                assert(self.tasks@[q].computation == old(self).tasks@[p].computation);
            }
            assert(before.step_spec(id, old(system), &left, system, outcome));
            assert(old(self).keeps_computations(self, Some(id)));
            assert(old(self).steps_to(old(system), self, system, Some((id, outcome))));
        }
        Some((id, outcome))
    }

    /// The place of the task `id` among the tasks.
    fn find(&self, id: TaskId) -> (at: Option<usize>)
        requires
            forall|i: int, j: int|
                0 <= i < j < self@.tasks.len() ==> (#[trigger] self@.tasks[i]).id != (
                #[trigger] self@.tasks[j]).id,
        ensures
            match at {
                Some(i) => self@.alive(id) && self@.position(id) == i && i < self.tasks@.len(),
                None => !self@.alive(id),
            },
    {
        let mut i: usize = 0;
        while i < self.tasks.len()
            invariant
                forall|i: int, j: int|
                    0 <= i < j < self@.tasks.len() ==> (#[trigger] self@.tasks[i]).id != (
                    #[trigger] self@.tasks[j]).id,
                i <= self.tasks@.len(),
                forall|k: int| 0 <= k < i ==> (#[trigger] self@.tasks[k]).id != id,
            decreases self.tasks@.len() - i,
        {
            if self.tasks[i].id().0 == id.0 {
                proof {
                    assert(self@.tasks[i as int].id == id);
                    let at = self@.position(id);
                    assert(self@.tasks[at].id == id);
                    assert(at == i);
                }
                return Some(i);
            }
            i += 1;
        }
        None
    }

    /// Steps the ready tasks, each up to its next suspension, until none
    /// is ready or one fails. Every step is one of the task that is first
    /// in the ready queue; a failure is the outcome of the last step.
    pub fn run_ready_tasks(&mut self, system: &mut System) -> (done: Result<(), Fault>)
        requires
            old(self)@.wf(),
            old(system).wf(),
        ensures
            final(self)@.wf(),
            final(system).wf(),
            exists|trace: Seq<(Self, System)>, outcomes: Seq<Result<Step, Fault>>| #[trigger]
                old(self).runs_to(
                    old(system),
                    trace,
                    outcomes,
                    final(self),
                    final(system),
                    done,
                ),
    {
        let ghost mut outcomes: Seq<Result<Step, Fault>> = Seq::empty();
        let ghost mut trace: Seq<(Self, System)> = seq![(*self, *system)];
        loop
            invariant
                self@.wf(),
                system.wf(),
                old(self)@.resume_all(outcomes) == self@,
                outcomes.len() + self@.ready.len() == old(self)@.ready.len(),
                forall|k: int| 0 <= k < outcomes.len() ==> outcomes[k] is Ok,
                trace.len() == outcomes.len() + 1,
                trace[0] == (*old(self), *old(system)),
                trace.last() == (*self, *system),
                forall|k: int|
                    0 <= k < outcomes.len() ==> (#[trigger] trace[k]).0.steps_to(
                        &trace[k].1,
                        &trace[k + 1].0,
                        &trace[k + 1].1,
                        Some((trace[k].0@.ready[0], outcomes[k])),
                    ),
            ensures
                self@.wf(),
                system.wf(),
                self@.ready.len() == 0,
                old(self)@.resume_all(outcomes) == self@,
                outcomes.len() == old(self)@.ready.len(),
                forall|k: int| 0 <= k < outcomes.len() ==> outcomes[k] is Ok,
                trace.len() == outcomes.len() + 1,
                trace[0] == (*old(self), *old(system)),
                trace.last() == (*self, *system),
                forall|k: int|
                    0 <= k < outcomes.len() ==> (#[trigger] trace[k]).0.steps_to(
                        &trace[k].1,
                        &trace[k + 1].0,
                        &trace[k + 1].1,
                        Some((trace[k].0@.ready[0], outcomes[k])),
                    ),
            decreases self@.ready.len(),
        {
            let ghost before = self@;
            let ghost earlier = trace;
            let ghost known = outcomes;
            match self.run_next(system) {
                None => {
                    break ;
                },
                Some((id, outcome)) => {
                    proof {
                        let longer = outcomes.push(outcome);
                        assert(longer.drop_last() =~= outcomes);
                        assert(old(self)@.resume_all(longer) == before.resume(outcome));
                        outcomes = longer;
                        trace = trace.push((*self, *system));
                        assert forall|k: int| 0 <= k < outcomes.len() implies (
                        #[trigger] trace[k]).0.steps_to(
                            &trace[k].1,
                            &trace[k + 1].0,
                            &trace[k + 1].1,
                            Some((trace[k].0@.ready[0], outcomes[k])),
                        ) by {
                            if k < known.len() {
                                assert(trace[k] == earlier[k]);
                                assert(trace[k + 1] == earlier[k + 1]);
                                assert(outcomes[k] == known[k]);
                            } else {
                                assert(trace[k] == earlier.last());
                            }
                        }
                    }
                    match outcome {
                        Err(fault) => {
                            assert(old(self)@.runs_to(outcomes, self@, Err(fault)));
                            assert(old(self).runs_to(
                                old(system),
                                trace,
                                outcomes,
                                self,
                                system,
                                Err(fault),
                            ));
                            return Err(fault);
                        },
                        Ok(_) => {},
                    }
                },
            }
        }
        assert(old(self)@.runs_to(outcomes, self@, Ok(())));
        assert(old(self).runs_to(old(system), trace, outcomes, self, system, Ok(())));
        Ok(())
    }
}

} // verus!
