use platinium_os::fault::Fault;
use platinium_os::task::executor::Executor;
use platinium_os::task::{Computation, Step, System, TaskId, TaskState};

/// Suspends as often as it is told, then completes.
struct Countdown {
    suspensions: u32,
    steps: u32,
}

impl Countdown {
    fn new(suspensions: u32) -> Countdown {
        Countdown { suspensions, steps: 0 }
    }
}

impl Computation for Countdown {
    fn step_spec(
        &self,
        id: TaskId,
        _system: &System,
        after: &Self,
        _system_after: &System,
        step: Result<Step, Fault>,
    ) -> bool {
        let _ = id;
        after.steps == self.steps + 1
            && if self.suspensions == 0 {
                step == Ok(Step::Complete) && after.suspensions == 0
            } else {
                step == Ok(Step::Suspended) && after.suspensions == self.suspensions - 1
            }
    }

    fn step(&mut self, id: TaskId, system: &mut System) -> Result<Step, Fault> {
        self.steps += 1;
        if self.suspensions == 0 {
            Ok(Step::Complete)
        } else {
            self.suspensions -= 1;
            system.channel.register(id);
            Ok(Step::Suspended)
        }
    }
}

struct Failing;

impl Computation for Failing {
    fn step_spec(
        &self,
        _id: TaskId,
        _system: &System,
        _after: &Self,
        _system_after: &System,
        step: Result<Step, Fault>,
    ) -> bool {
        step == Err(Fault::DivisionByZero)
    }

    fn step(&mut self, _id: TaskId, _system: &mut System) -> Result<Step, Fault> {
        Err(Fault::DivisionByZero)
    }
}

#[test]
fn new_executor_is_idle() {
    let executor: Executor<Countdown> = Executor::new();
    assert!(executor.is_idle());
    assert_eq!(executor.state_of(TaskId(0)), None);
}

#[test]
fn spawn_makes_a_ready_task_with_the_next_identity() {
    let mut executor = Executor::new();
    let a = executor.spawn(Countdown::new(0));
    let b = executor.spawn(Countdown::new(0));
    assert_eq!(a, TaskId(0));
    assert_eq!(b, TaskId(1));
    assert!(!executor.is_idle());
    assert_eq!(executor.state_of(a), Some(TaskState::Ready));
    assert_eq!(executor.state_of(b), Some(TaskState::Ready));
}

#[test]
fn task_that_never_suspends_completes_in_one_step() {
    let mut system = System::new();
    let mut executor = Executor::new();
    let id = executor.spawn(Countdown::new(0));
    assert_eq!(executor.run_next(&mut system), Some((id, Ok(Step::Complete))));
    assert_eq!(executor.state_of(id), None);
    assert!(executor.is_idle());
    assert_eq!(executor.run_next(&mut system), None);
}

#[test]
fn task_completes_after_exactly_its_suspensions() {
    for n in 0..6u32 {
        let mut system = System::new();
        let mut executor = Executor::new();
        let id = executor.spawn(Countdown::new(n));
        for _ in 0..n {
            assert_eq!(executor.state_of(id), Some(TaskState::Ready));
            assert_eq!(executor.run_next(&mut system), Some((id, Ok(Step::Suspended))));
            assert_eq!(executor.state_of(id), Some(TaskState::Suspended));
            // a suspended task is not stepped
            assert_eq!(executor.run_next(&mut system), None);
            executor.wake(id);
        }
        assert_eq!(executor.state_of(id), Some(TaskState::Ready));
        assert_eq!(executor.run_next(&mut system), Some((id, Ok(Step::Complete))));
        assert_eq!(executor.state_of(id), None);
        assert_eq!(executor.run_next(&mut system), None);
    }
}

#[test]
fn waking_a_ready_task_changes_nothing() {
    let mut system = System::new();
    let mut executor = Executor::new();
    let id = executor.spawn(Countdown::new(1));
    executor.wake(id);
    executor.wake(id);
    assert_eq!(executor.run_next(&mut system), Some((id, Ok(Step::Suspended))));
    // the task was in the queue once only
    assert_eq!(executor.run_next(&mut system), None);
}

#[test]
fn waking_an_unknown_task_changes_nothing() {
    let mut system = System::new();
    let mut executor: Executor<Countdown> = Executor::new();
    executor.wake(TaskId(7));
    assert!(executor.is_idle());
    assert_eq!(executor.run_next(&mut system), None);
}

#[test]
fn ready_tasks_are_stepped_in_the_order_they_became_ready() {
    let mut system = System::new();
    let mut executor = Executor::new();
    let a = executor.spawn(Countdown::new(1));
    let b = executor.spawn(Countdown::new(1));
    assert_eq!(executor.run_next(&mut system), Some((a, Ok(Step::Suspended))));
    assert_eq!(executor.run_next(&mut system), Some((b, Ok(Step::Suspended))));
    executor.wake(b);
    executor.wake(a);
    assert_eq!(executor.run_next(&mut system), Some((b, Ok(Step::Complete))));
    assert_eq!(executor.run_next(&mut system), Some((a, Ok(Step::Complete))));
}

#[test]
fn run_ready_tasks_runs_to_quiescence() {
    let mut system = System::new();
    let mut executor = Executor::new();
    let a = executor.spawn(Countdown::new(2));
    let b = executor.spawn(Countdown::new(0));
    assert_eq!(executor.run_ready_tasks(&mut system), Ok(()));
    assert!(executor.is_idle());
    assert_eq!(executor.state_of(a), Some(TaskState::Suspended));
    assert_eq!(executor.state_of(b), None);
}

#[test]
fn failing_task_stops_the_run_and_is_gone() {
    let mut system = System::new();
    let mut executor = Executor::new();
    let id = executor.spawn(Failing);
    assert_eq!(executor.run_ready_tasks(&mut system), Err(Fault::DivisionByZero));
    assert_eq!(executor.state_of(id), None);
}

#[test]
fn steps_of_the_test_computation_are_in_its_relation() {
    let mut system = System::new();
    let mut task = Countdown::new(2);
    for _ in 0..3 {
        let before = Countdown { suspensions: task.suspensions, steps: task.steps };
        let step = task.step(TaskId(0), &mut system);
        assert!(before.step_spec(TaskId(0), &system, &task, &system, step));
    }
    assert_eq!(task.steps, 3);
}

#[test]
fn spawned_computation_is_the_one_that_is_stepped() {
    let mut system = System::new();
    let mut executor = Executor::new();
    let slow = executor.spawn(Countdown::new(1));
    let quick = executor.spawn(Countdown::new(0));
    assert_eq!(executor.run_next(&mut system), Some((slow, Ok(Step::Suspended))));
    assert_eq!(executor.run_next(&mut system), Some((quick, Ok(Step::Complete))));
    executor.wake(slow);
    assert_eq!(executor.run_next(&mut system), Some((slow, Ok(Step::Complete))));
}
