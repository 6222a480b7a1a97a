//! Tasks: computations that run in steps and wait for events in between.

use crate::fault::Fault;
use crate::shell::Terminal;
use crate::task::keyboard::EventChannel;
use vstd::prelude::*;

pub mod decoder;
pub mod executor;
pub mod keyboard;

verus! {

/// The identity of a task: the same for as long as the task lives.
#[derive(Clone, Copy, Debug, PartialEq, Eq, Structural)]
pub struct TaskId(pub u64);

/// What a consumer gets when it asks for the next item.
#[derive(Debug, PartialEq, Eq)]
pub enum Poll<T> {
    /// The item is there.
    Ready(T),
    /// Nothing is there yet: the consumer is suspended until it is woken.
    Pending,
}

/// Where a task stands.
#[derive(Clone, Copy, Debug, PartialEq, Eq, Structural)]
pub enum TaskState {
    /// The task waits in the ready queue for its next step.
    Ready,
    /// The task waits to be woken.
    Suspended,
    /// The task has come to its end.
    Completed,
}

/// How one step of a computation ended.
#[derive(Clone, Copy, Debug, PartialEq, Eq, Structural)]
pub enum Step {
    /// The computation has come to its end.
    Complete,
    /// The computation waits for an event.
    Suspended,
}

/// What the tasks of the kernel work on: the terminal and the channel on
/// which the scancodes come.
pub struct System {
    pub terminal: Terminal,
    pub channel: EventChannel,
}

impl System {
    pub open spec fn wf(&self) -> bool {
        self.terminal.wf()
    }

    /// A system with a wiped terminal and a channel without a queue.
    pub fn new() -> (system: System)
        ensures
            system.wf(),
            system.channel@.queue is None,
            system.channel@.waker is None,
            !system.terminal@.awaits_input,
            system.terminal@.history.len() == 0,
    {
        System { terminal: Terminal::new(), channel: EventChannel::uninit() }
    }
}

/// A computation that runs in steps, each up to the point at which it
/// has to wait or is done.
pub trait Computation: Sized {
    /// Whether one step of this computation, run as the task `id`, leads
    /// from `system` to `system_after`, leaves the computation as `after`,
    /// and ends in `step`.
    spec fn step_spec(
        &self,
        id: TaskId,
        system: &System,
        after: &Self,
        system_after: &System,
        step: Result<Step, Fault>,
    ) -> bool;

    /// Runs the computation of the task `id` up to its next suspension.
    fn step(&mut self, id: TaskId, system: &mut System) -> (step: Result<Step, Fault>)
        requires
            old(system).wf(),
        ensures
            final(system).wf(),
            old(self).step_spec(id, old(system), final(self), final(system), step),
    ;
}

} // verus!
