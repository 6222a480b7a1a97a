//! The way of a key: from the interrupt into a bounded queue, and from
//! there to the task that lets the terminal act on it.

use crate::fault::Fault;
use crate::console::{try_print, try_print_both, try_print_spec};
use crate::shell::{Terminal, TerminalState};
use crate::task::decoder::{key_text, Decoder};
use crate::task::{Computation, Poll, Step, System, TaskId};
use crate::vga_buffer::Screen;
use crossbeam_queue::ArrayQueue;
use vstd::prelude::*;
use vstd::string::StringSliceAdditionalSpecFns;
use vstd::utf8::encode_utf8;

verus! {

#[verifier::external_type_specification]
#[verifier::external_body]
#[verifier::reject_recursive_types(T)]
pub struct ExArrayQueue<T>(ArrayQueue<T>);

/// The bytes that a queue holds, oldest first.
pub uninterp spec fn queue_items(queue: ArrayQueue<u8>) -> Seq<u8>;

/// The number of bytes that a queue was made for.
pub uninterp spec fn queue_capacity(queue: ArrayQueue<u8>) -> nat;

/// The size in bytes of a slot of the queue: a counter and a byte, at the
/// alignment of the counter.
pub const SLOT_SIZE: usize = 16;

/// Whether a queue can be made for `capacity` bytes: for one at least, and
/// for no more than have their slots in a buffer of `isize::MAX` bytes.
pub open spec fn capacity_in_reach(capacity: usize) -> bool {
    0 < capacity && capacity * SLOT_SIZE <= isize::MAX
}

/// `ArrayQueue::new`, which panics on a capacity of zero and where its
/// buffer would pass `isize::MAX` bytes: an empty queue for `capacity`
/// bytes.
#[verifier::external_body]
fn queue_new(capacity: usize) -> (queue: ArrayQueue<u8>)
    requires
        capacity_in_reach(capacity),
    ensures
        queue_items(queue) == Seq::<u8>::empty(),
        queue_capacity(queue) == capacity,
{
    ArrayQueue::new(capacity)
}

/// `ArrayQueue::push`: a queue with room takes the byte as its newest; a
/// full one stays as it is and refuses the byte.
#[verifier::external_body]
fn queue_push(queue: &mut ArrayQueue<u8>, byte: u8) -> (pushed: bool)
    ensures
        queue_capacity(*final(queue)) == queue_capacity(*old(queue)),
        pushed == (queue_items(*old(queue)).len() < queue_capacity(*old(queue))),
        pushed ==> queue_items(*final(queue)) == queue_items(*old(queue)).push(byte),
        !pushed ==> queue_items(*final(queue)) == queue_items(*old(queue)),
{
    queue.push(byte).is_ok()
}

/// `ArrayQueue::pop`: the oldest byte leaves a queue that holds one; an
/// empty queue stays as it is.
#[verifier::external_body]
fn queue_pop(queue: &mut ArrayQueue<u8>) -> (byte: Option<u8>)
    ensures
        queue_capacity(*final(queue)) == queue_capacity(*old(queue)),
        queue_items(*old(queue)).len() == 0 ==> byte is None && queue_items(*final(queue))
            == queue_items(*old(queue)),
        queue_items(*old(queue)).len() > 0 ==> byte == Some(queue_items(*old(queue))[0])
            && queue_items(*final(queue)) == queue_items(*old(queue)).skip(1),
{
    queue.pop().ok()
}

/// The capacity of the scancode queue.
pub const SCANCODE_QUEUE_CAPACITY: usize = 100;

/// What a channel is, as plain values.
pub struct ChannelState {
    /// The waiting events, oldest first; `None` before the queue is made.
    pub queue: Option<Seq<u8>>,
    /// The number of events that the queue has room for.
    pub capacity: nat,
    /// The suspended consumer that the next event wakes.
    pub waker: Option<TaskId>,
}

/// How a push ended.
#[derive(Clone, Copy, Debug, PartialEq, Eq, Structural)]
pub enum PushOutcome {
    /// The event is in the queue, and `woken` was waiting for it.
    Queued { woken: Option<TaskId> },
    /// The queue was full: the event is lost.
    Full,
    /// There is no queue yet: the event is lost.
    Uninitialized,
}

/// The channel after `event` was pushed, and how the push ended. An event
/// that finds room becomes the newest, and the registered consumer is
/// woken and forgotten; otherwise nothing changes.
pub open spec fn push_spec(channel: ChannelState, event: u8) -> (ChannelState, PushOutcome) {
    match channel.queue {
        None => (channel, PushOutcome::Uninitialized),
        Some(items) => if items.len() < channel.capacity {
            (
                ChannelState { queue: Some(items.push(event)), capacity: channel.capacity, waker: None },
                PushOutcome::Queued { woken: channel.waker },
            )
        } else {
            (channel, PushOutcome::Full)
        },
    }
}

/// The channel after `consumer` asked for the next event, and the answer.
/// The oldest event leaves the queue; from an empty queue nothing comes,
/// and `consumer` is registered in place of whoever was.
pub open spec fn poll_spec(channel: ChannelState, consumer: TaskId) -> (
    ChannelState,
    Poll<Option<u8>>,
)
    recommends
        channel.queue is Some,
{
    let items = channel.queue.unwrap();
    if items.len() > 0 {
        (
            ChannelState { queue: Some(items.skip(1)), capacity: channel.capacity, waker: channel.waker },
            Poll::Ready(Some(items[0])),
        )
    } else {
        (
            ChannelState { queue: channel.queue, capacity: channel.capacity, waker: Some(consumer) },
            Poll::Pending,
        )
    }
}

/// The channel after the `events` were pushed one after the other.
pub open spec fn push_all_spec(channel: ChannelState, events: Seq<u8>) -> ChannelState
    decreases events.len(),
{
    if events.len() == 0 {
        channel
    } else {
        push_all_spec(push_spec(channel, events[0]).0, events.skip(1))
    }
}

/// The answers to `count` polls of `consumer`, one after the other.
pub open spec fn poll_all_spec(channel: ChannelState, consumer: TaskId, count: nat) -> Seq<
    Poll<Option<u8>>,
>
    decreases count,
{
    if count == 0 {
        Seq::empty()
    } else {
        let (next, answer) = poll_spec(channel, consumer);
        seq![answer].add(poll_all_spec(next, consumer, (count - 1) as nat))
    }
}

proof fn lemma_push_all(channel: ChannelState, events: Seq<u8>)
    requires
        channel.queue is Some,
        channel.queue.unwrap().len() + events.len() <= channel.capacity,
    ensures
        push_all_spec(channel, events).queue == Some(channel.queue.unwrap().add(events)),
        push_all_spec(channel, events).capacity == channel.capacity,
    decreases events.len(),
{
    if events.len() > 0 {
        let next = push_spec(channel, events[0]).0;
        lemma_push_all(next, events.skip(1));
        assert(next.queue.unwrap().add(events.skip(1)) =~= channel.queue.unwrap().add(events));
    } else {
        assert(channel.queue.unwrap().add(events) =~= channel.queue.unwrap());
    }
}

proof fn lemma_poll_all(channel: ChannelState, consumer: TaskId, count: nat)
    requires
        channel.queue is Some,
        count <= channel.queue.unwrap().len(),
    ensures
        poll_all_spec(channel, consumer, count) == Seq::new(
            count,
            |i: int| Poll::Ready(Some(channel.queue.unwrap()[i])),
        ),
    decreases count,
{
    if count > 0 {
        let next = poll_spec(channel, consumer).0;
        lemma_poll_all(next, consumer, (count - 1) as nat);
        assert(poll_all_spec(channel, consumer, count) =~= Seq::new(
            count,
            |i: int| Poll::Ready(Some(channel.queue.unwrap()[i])),
        ));
    } else {
        assert(poll_all_spec(channel, consumer, count) =~= Seq::new(
            count,
            |i: int| Poll::Ready(Some(channel.queue.unwrap()[i])),
        ));
    }
}

/// First in, first out: events that are pushed into an empty channel
/// with room for them are handed out by as many polls, each ready, in the
/// order in which they were pushed.
pub proof fn law_first_in_first_out(channel: ChannelState, events: Seq<u8>, consumer: TaskId)
    requires
        channel.queue == Some(Seq::<u8>::empty()),
        events.len() <= channel.capacity,
    ensures
        poll_all_spec(push_all_spec(channel, events), consumer, events.len()) == Seq::new(
            events.len(),
            |i: int| Poll::Ready(Some(events[i])),
        ),
{
    lemma_push_all(channel, events);
    let filled = push_all_spec(channel, events);
    assert(filled.queue.unwrap() =~= events);
    lemma_poll_all(filled, consumer, events.len());
}

/// No wakeup is missed: a poll of an empty channel is pending and leaves
/// the consumer registered; the push that follows wakes that consumer;
/// and the consumer's next poll is ready with the pushed event, after
/// which the queue is empty again.
pub proof fn law_no_missed_wakeup(channel: ChannelState, consumer: TaskId, event: u8)
    requires
        channel.queue == Some(Seq::<u8>::empty()),
        channel.capacity > 0,
    ensures
        ({
            let (suspended, first) = poll_spec(channel, consumer);
            let (pushed, outcome) = push_spec(suspended, event);
            let (drained, second) = poll_spec(pushed, consumer);
            &&& first == Poll::<Option<u8>>::Pending
            &&& suspended.waker == Some(consumer)
            &&& outcome == (PushOutcome::Queued { woken: Some(consumer) })
            &&& second == Poll::Ready(Some(event))
            &&& drained.queue == Some(Seq::<u8>::empty())
        }),
{
    let (suspended, first) = poll_spec(channel, consumer);
    let (pushed, outcome) = push_spec(suspended, event);
    let (drained, second) = poll_spec(pushed, consumer);
    assert(drained.queue.unwrap() =~= Seq::<u8>::empty());
}

/// The bridge from the keyboard interrupt to the task that reads keys: a
/// bounded queue of scancodes and the consumer that waits for the next.
pub struct EventChannel {
    queue: Option<ArrayQueue<u8>>,
    waker: Option<TaskId>,
}

impl View for EventChannel {
    type V = ChannelState;

    closed spec fn view(&self) -> ChannelState {
        ChannelState {
            queue: match self.queue {
                Some(q) => Some(queue_items(q)),
                None => None,
            },
            capacity: match self.queue {
                Some(q) => queue_capacity(q),
                None => 0,
            },
            waker: self.waker,
        }
    }
}

impl EventChannel {
    /// A channel without a queue.
    pub fn uninit() -> (channel: Self)
        ensures
            channel@ == (ChannelState { queue: None, capacity: 0, waker: None }),
    {
        EventChannel { queue: None, waker: None }
    }

    /// Makes the queue, once: a second call changes nothing and fails.
    pub fn try_init_once(&mut self, capacity: usize) -> (made: Result<(), Fault>)
        requires
            capacity_in_reach(capacity),
        ensures
            old(self)@.queue is None ==> made is Ok && final(self)@ == (ChannelState {
                queue: Some(Seq::empty()),
                capacity: capacity as nat,
                waker: old(self)@.waker,
            }),
            old(self)@.queue is Some ==> made == Err::<(), Fault>(Fault::QueueAlreadyInitialized)
                && final(self)@ == old(self)@,
    {
        if self.queue.is_some() {
            return Err(Fault::QueueAlreadyInitialized);
        }
        self.queue = Some(queue_new(capacity));
        Ok(())
    }

    /// Whether the queue was made.
    pub fn is_initialized(&self) -> (made: bool)
        ensures
            made == (self@.queue is Some),
    {
        self.queue.is_some()
    }

    /// Registers `consumer` as the one to wake, in place of whoever was.
    pub fn register(&mut self, consumer: TaskId)
        ensures
            final(self)@ == (ChannelState { waker: Some(consumer), ..old(self)@ }),
    {
        self.waker = Some(consumer);
    }

    /// Forgets the registered consumer and hands it out.
    pub fn take_waker(&mut self) -> (consumer: Option<TaskId>)
        ensures
            consumer == old(self)@.waker,
            final(self)@ == (ChannelState { waker: None, ..old(self)@ }),
    {
        self.waker.take()
    }

    /// The oldest waiting event, which leaves the queue.
    pub fn pop(&mut self) -> (event: Option<u8>)
        requires
            old(self)@.queue is Some,
        ensures
            old(self)@.queue.unwrap().len() == 0 ==> event is None && final(self)@ == old(self)@,
            old(self)@.queue.unwrap().len() > 0 ==> event == Some(old(self)@.queue.unwrap()[0])
                && final(self)@ == (ChannelState {
                queue: Some(old(self)@.queue.unwrap().skip(1)),
                ..old(self)@
            }),
    {
        match &mut self.queue {
            Some(queue) => queue_pop(queue),
            None => None,
        }
    }
}

/// Pushes a scancode into the channel and wakes the consumer that waits
/// for it. Never blocks: where there is no room or no queue, the scancode
/// is dropped.
pub fn add_scancode(channel: &mut EventChannel, scancode: u8) -> (outcome: PushOutcome)
    ensures
        (final(channel)@, outcome) == push_spec(old(channel)@, scancode),
{
    match &mut channel.queue {
        Some(queue) => {
            if queue_push(queue, scancode) {
                let woken = channel.waker.take();
                PushOutcome::Queued { woken }
            } else {
                PushOutcome::Full
            }
        },
        None => PushOutcome::Uninitialized,
    }
}

/// The consumer's end of the channel.
pub struct ScancodeStream {
    _private: (),
}

impl ScancodeStream {
    pub fn new() -> (stream: Self) {
        ScancodeStream { _private: () }
    }

    /// The next scancode, or `Pending` with `consumer` registered to be
    /// woken by the next push. The queue is looked at once more after the
    /// registration, so that a scancode that came in between is not missed.
    pub fn poll_next(&mut self, channel: &mut EventChannel, consumer: TaskId) -> (next: Poll<
        Option<u8>,
    >)
        requires
            old(channel)@.queue is Some,
        ensures
            (final(channel)@, next) == poll_spec(old(channel)@, consumer),
    {
        if let Some(scancode) = channel.pop() {
            return Poll::Ready(Some(scancode));
        }
        channel.register(consumer);
        match channel.pop() {
            Some(scancode) => {
                channel.take_waker();
                Poll::Ready(Some(scancode))
            },
            None => Poll::Pending,
        }
    }
}

/// Whether the task that reads the keyboard goes on after a key.
#[derive(Clone, Copy, Debug, PartialEq, Eq, Structural)]
pub enum Flow {
    /// The task waits for the next key.
    Continue,
    /// The task is done.
    Return,
}

/// The terminal with the entry `index` of the history in place of the
/// row of the cursor, behind a prompt.
pub open spec fn show_entry_spec(terminal: TerminalState, index: u64) -> (
    Result<Flow, Fault>,
    TerminalState,
) {
    let moved = TerminalState { index, ..terminal };
    if index >= terminal.history.len() {
        (Err(Fault::HistoryOutOfBounds), moved)
    } else {
        let wiped = Screen { col: 0, ..terminal.screen.clear_row(terminal.screen.row) };
        match try_print_spec(wiped, "> ".spec_bytes().add(encode_utf8(terminal.history[index as int]))) {
            Ok(screen) => (
                Ok(Flow::Continue),
                TerminalState { screen, column_position_start: 2, ..moved },
            ),
            Err(fault) => (Err(fault), TerminalState { screen: wiped, ..moved }),
        }
    }
}

/// The terminal after a key: what `text` stands for was decoded from
/// the scancode. The arrows to the left and right move the cursor. The
/// arrows up and down show the entry before and after the one that the
/// history points at; at its first and last entry they end the task.
/// While a line is awaited, backspace wipes the cell before the cursor,
/// any other key is written, and enter runs the line.
pub open spec fn handle_key_spec(terminal: TerminalState, scancode: u8, text: Seq<u8>) -> (
    Result<Flow, Fault>,
    TerminalState,
) {
    if scancode == 0x4b {
        (Ok(Flow::Continue), TerminalState { screen: terminal.screen.move_left(), ..terminal })
    } else if scancode == 0x4d {
        if terminal.screen.can_move_right() {
            (Ok(Flow::Continue), TerminalState { screen: terminal.screen.move_right(), ..terminal })
        } else {
            (Err(Fault::ColumnOutOfBounds), terminal)
        }
    } else if scancode == 0x48 {
        if terminal.history.len() > 0 {
            if terminal.index == 0 {
                (Ok(Flow::Return), terminal)
            } else {
                show_entry_spec(terminal, (terminal.index - 1) as u64)
            }
        } else {
            (Ok(Flow::Continue), terminal)
        }
    } else if scancode == 0x50 {
        if terminal.history.len() > 0 {
            if terminal.history.len() - 1 == terminal.index {
                (Ok(Flow::Return), terminal)
            } else if terminal.index == u64::MAX {
                (Err(Fault::HistoryOutOfBounds), terminal)
            } else {
                show_entry_spec(terminal, (terminal.index + 1) as u64)
            }
        } else {
            (Ok(Flow::Continue), terminal)
        }
    } else if scancode == 0x0e && terminal.awaits_input {
        (Ok(Flow::Continue), TerminalState { screen: terminal.screen.backspace(), ..terminal })
    } else if terminal.awaits_input {
        match try_print_spec(terminal.screen, text) {
            Err(fault) => (Err(fault), terminal),
            Ok(screen) => {
                let written = TerminalState { screen, ..terminal };
                if scancode == 0x1c {
                    match crate::shell::run_spec(TerminalState { awaits_input: false, ..written }) {
                        (Ok(()), after) => (Ok(Flow::Continue), after),
                        (Err(fault), after) => (Err(fault), after),
                    }
                } else {
                    (Ok(Flow::Continue), written)
                }
            },
        }
    } else {
        (Ok(Flow::Continue), terminal)
    }
}

/// Shows the entry `index` of the history in the row of the cursor.
fn show_entry(terminal: &mut Terminal, index: u64) -> (flow: Result<Flow, Fault>)
    requires
        old(terminal).wf(),
    ensures
        final(terminal).wf(),
        (flow, final(terminal)@) == show_entry_spec(old(terminal)@, index),
{
    terminal.history.index = index;
    if index >= terminal.history.history.len() as u64 {
        return Err(Fault::HistoryOutOfBounds);
    }
    let entry = terminal.history.history[index as usize].clone();
    let row = terminal.writer.row_position();
    terminal.writer.clear_row(row);
    terminal.writer.set_column_position(0);
    try_print_both(&mut terminal.writer, "> ", entry.as_str())?;
    terminal.reader.column_position_start = 2;
    Ok(Flow::Continue)
}

/// Acts on a key that was decoded from `scancode` and is written as
/// `text`.
pub fn handle_key(terminal: &mut Terminal, scancode: u8, text: &str) -> (flow: Result<Flow, Fault>)
    requires
        old(terminal).wf(),
    ensures
        final(terminal).wf(),
        (flow, final(terminal)@) == handle_key_spec(old(terminal)@, scancode, text.spec_bytes()),
{
    if scancode == 0x4B {
        // Handle arrow left
        terminal.writer.move_left();
    } else if scancode == 0x4D {
        // Handle arrow right
        if !terminal.writer.can_move_right() {
            return Err(Fault::ColumnOutOfBounds);
        }
        terminal.writer.move_right();
    } else if scancode == 0x48 {
        // Handle arrow up
        if terminal.history.history.len() > 0 {
            let mut index = terminal.history.index;
            if index == 0 {
                return Ok(Flow::Return);
            }
            index -= 1;
            return show_entry(terminal, index);
        }
    } else if scancode == 0x50 {
        // Handle arrow down
        if terminal.history.history.len() > 0 {
            let mut index = terminal.history.index;
            if terminal.history.history.len() as u64 - 1 == index {
                return Ok(Flow::Return);
            }
            if index == u64::MAX {
                return Err(Fault::HistoryOutOfBounds);
            }
            index += 1;
            return show_entry(terminal, index);
        }
    } else if scancode == 0x0E && terminal.reader.awaits_input {
        // Handle backspace
        terminal.writer.backspace();
    } else {
        if terminal.reader.awaits_input {
            try_print(&mut terminal.writer, text)?;
            if scancode == 0x1C {
                // Handle Enter
                terminal.reader.awaits_input = false;
                crate::shell::run(terminal)?;
            }
        }
    }
    Ok(Flow::Continue)
}

/// The terminal after some scancodes, each with the text of the key that
/// was decoded from it, or none where it gave no key. The keys are acted
/// on one after the other; the first that ends the task, or fails, is the
/// last.
pub open spec fn handle_keys_spec(
    terminal: TerminalState,
    scancodes: Seq<u8>,
    texts: Seq<Option<Seq<u8>>>,
) -> (Result<Flow, Fault>, TerminalState)
    decreases scancodes.len(),
{
    if scancodes.len() == 0 {
        (Ok(Flow::Continue), terminal)
    } else {
        let (flow, before) = handle_keys_spec(terminal, scancodes.drop_last(), texts.drop_last());
        if flow != Ok::<Flow, Fault>(Flow::Continue) {
            (flow, before)
        } else {
            match texts.last() {
                None => (Ok(Flow::Continue), before),
                Some(text) => handle_key_spec(before, scancodes.last(), text),
            }
        }
    }
}

/// One more scancode is acted on after those before it, if they let the
/// task go on.
proof fn lemma_handle_keys_next(
    terminal: TerminalState,
    scancodes: Seq<u8>,
    texts: Seq<Option<Seq<u8>>>,
    scancode: u8,
    text: Option<Seq<u8>>,
)
    requires
        handle_keys_spec(terminal, scancodes, texts).0 == Ok::<Flow, Fault>(Flow::Continue),
    ensures
        handle_keys_spec(terminal, scancodes.push(scancode), texts.push(text)) == match text {
            None => (Ok::<Flow, Fault>(Flow::Continue), handle_keys_spec(terminal, scancodes, texts).1),
            Some(t) => handle_key_spec(handle_keys_spec(terminal, scancodes, texts).1, scancode, t),
        },
{
    assert(scancodes.push(scancode).drop_last() =~= scancodes);
    assert(texts.push(text).drop_last() =~= texts);
}

/// Whether a step of the task `id` that reads the keyboard leads from a
/// terminal and a channel with a queue to others, where `texts` holds
/// what the keyboard made of the scancodes that the step took: the
/// oldest scancodes have left the queue and were handed to the keyboard,
/// behind those that it was given before, the terminal has acted on
/// their keys, and the step ends as the last of them says, or suspended
/// with the task registered when all are taken.
pub open spec fn keyboard_step_spec(
    terminal: TerminalState,
    channel: ChannelState,
    fed: Seq<u8>,
    id: TaskId,
    texts: Seq<Option<Seq<u8>>>,
    after: TerminalState,
    channel_after: ChannelState,
    fed_after: Seq<u8>,
    step: Result<Step, Fault>,
) -> bool {
    let waiting = channel.queue.unwrap();
    let (flow, acted) = handle_keys_spec(terminal, waiting.take(texts.len() as int), texts);
    &&& texts.len() <= waiting.len()
    &&& fed_after == fed.add(waiting.take(texts.len() as int))
    &&& after == acted
    &&& channel_after.queue == Some(waiting.skip(texts.len() as int))
    &&& channel_after.capacity == channel.capacity
    &&& match step {
        Ok(Step::Suspended) => flow == Ok::<Flow, Fault>(Flow::Continue) && texts.len()
            == waiting.len() && channel_after.waker == Some(id),
        Ok(Step::Complete) => flow == Ok::<Flow, Fault>(Flow::Return),
        Err(fault) => flow == Err::<Flow, Fault>(fault),
    }
}

/// The task that reads the keyboard: it decodes the scancodes of the
/// channel and lets the terminal act on the keys.
pub struct KeyboardTask {
    scancodes: ScancodeStream,
    keyboard: Decoder,
    fed: Ghost<Seq<u8>>,
}

impl KeyboardTask {
    /// The scancodes that the task has handed to its keyboard, oldest
    /// first. What the keyboard makes of the next depends on them: on the
    /// prefix of a longer scancode, and on the shift and lock keys that
    /// went down.
    pub closed spec fn fed(&self) -> Seq<u8> {
        self.fed@
    }
}

/// The task that reads the keyboard, before its first step: its keyboard
/// is new and was given no scancode yet.
pub fn input_handler() -> (task: KeyboardTask)
    ensures
        task.fed() == Seq::<u8>::empty(),
{
    KeyboardTask {
        scancodes: ScancodeStream::new(),
        keyboard: Decoder::new(),
        fed: Ghost(Seq::empty()),
    }
}

impl Computation for KeyboardTask {
    /// A step takes the scancodes that wait, oldest first, and lets the
    /// terminal act on the key of each, whatever the keyboard makes of
    /// it. The task is suspended when no scancode is left, with itself
    /// registered to be woken by the next; it is done when a key ends it;
    /// it fails where there is no queue, and where a key fails.
    open spec fn step_spec(
        &self,
        id: TaskId,
        system: &System,
        after: &Self,
        system_after: &System,
        step: Result<Step, Fault>,
    ) -> bool {
        if system.channel@.queue is None {
            &&& step == Err::<Step, Fault>(Fault::QueueUninitialized)
            &&& system_after.channel@ == system.channel@
            &&& system_after.terminal@ == system.terminal@
            &&& after.fed() == self.fed()
        } else {
            exists|texts: Seq<Option<Seq<u8>>>| #[trigger]
                keyboard_step_spec(
                    system.terminal@,
                    system.channel@,
                    self.fed(),
                    id,
                    texts,
                    system_after.terminal@,
                    system_after.channel@,
                    after.fed(),
                    step,
                )
        }
    }

    fn step(&mut self, id: TaskId, system: &mut System) -> (step: Result<Step, Fault>)
    {
        if !system.channel.is_initialized() {
            return Err(Fault::QueueUninitialized);
        }
        let ghost waiting = system.channel@.queue.unwrap();
        let ghost mut texts: Seq<Option<Seq<u8>>> = Seq::empty();
        proof {
            assert(waiting.skip(0) =~= waiting);
            assert(self.fed() =~= old(self).fed().add(waiting.take(0)));
        }
        loop
            invariant
                system.wf(),
                old(system).channel@.queue == Some(waiting),
                texts.len() <= waiting.len(),
                system.channel@.queue == Some(waiting.skip(texts.len() as int)),
                system.channel@.capacity == old(system).channel@.capacity,
                self.fed() == old(self).fed().add(waiting.take(texts.len() as int)),
                handle_keys_spec(old(system).terminal@, waiting.take(texts.len() as int), texts)
                    == (Ok::<Flow, Fault>(Flow::Continue), system.terminal@),
            decreases waiting.len() - texts.len(),
        {
            let ghost taken = waiting.take(texts.len() as int);
            let scancode = match self.scancodes.poll_next(&mut system.channel, id) {
                Poll::Pending => {
                    proof {
                        assert(waiting.skip(texts.len() as int).len() == 0);
                        assert(system.channel@.queue.unwrap() =~= waiting.skip(
                            texts.len() as int,
                        ));
                        assert(keyboard_step_spec(
                            old(system).terminal@,
                            old(system).channel@,
                            old(self).fed(),
                            id,
                            texts,
                            system.terminal@,
                            system.channel@,
                            self.fed(),
                            Ok(Step::Suspended),
                        ));
                    }
                    return Ok(Step::Suspended);
                },
                Poll::Ready(None) => {
                    // the stream has come to its end
                    return match try_print(&mut system.terminal.writer, "!") {
                        Ok(()) => Ok(Step::Complete),
                        Err(fault) => Err(fault),
                    };
                },
                Poll::Ready(Some(scancode)) => scancode,
            };
            let ghost mut text: Option<Seq<u8>> = None;
            let ghost before = system.terminal@;
            proof {
                assert(scancode == waiting[texts.len() as int]);
                assert(waiting.skip(texts.len() as int).skip(1) =~= waiting.skip(
                    texts.len() as int + 1,
                ));
                assert(waiting.take(texts.len() as int + 1) =~= taken.push(scancode));
            }
            let mut flow = Ok(Flow::Continue);
            if let Ok(Some(key_event)) = self.keyboard.add_byte(scancode) {
                if let Some(key) = self.keyboard.process_keyevent(key_event) {
                    let shown = key_text(key);
                    proof {
                        text = Some(encode_utf8(shown@));
                    }
                    flow = handle_key(&mut system.terminal, scancode, shown.as_str());
                }
            }
            self.fed = Ghost(self.fed@.push(scancode));
            proof {
                lemma_handle_keys_next(old(system).terminal@, taken, texts, scancode, text);
                texts = texts.push(text);
                assert(self.fed() =~= old(self).fed().add(waiting.take(texts.len() as int)));
                assert(handle_keys_spec(
                    old(system).terminal@,
                    waiting.take(texts.len() as int),
                    texts,
                ) == (flow, system.terminal@));
            }
            match flow {
                Ok(Flow::Continue) => {},
                Ok(Flow::Return) => {
                    proof {
                        assert(keyboard_step_spec(
                            old(system).terminal@,
                            old(system).channel@,
                            old(self).fed(),
                            id,
                            texts,
                            system.terminal@,
                            system.channel@,
                            self.fed(),
                            Ok(Step::Complete),
                        ));
                    }
                    return Ok(Step::Complete);
                },
                Err(fault) => {
                    proof {
                        assert(keyboard_step_spec(
                            old(system).terminal@,
                            old(system).channel@,
                            old(self).fed(),
                            id,
                            texts,
                            system.terminal@,
                            system.channel@,
                            self.fed(),
                            Err(fault),
                        ));
                    }
                    return Err(fault);
                },
            }
        }
    }
}

} // verus!
