//! The kernel as one value, and what it does on a trap.

use crate::console::{bytes_of, try_println_all, try_println_all_spec, try_warning, try_warning_spec};
use crate::fault::Fault;
use crate::interrupts::{ControllerState, InterruptController, InterruptIndex};
use crate::shell::TerminalState;
use crate::task::executor::{Executor, ExecutorState};
use crate::task::keyboard::{add_scancode, push_spec, ChannelState, PushOutcome};
use crate::task::{Computation, Step, System};
use crate::text::{decimal_digits, u64_to_string};
use crate::vga_buffer::{Color, ColorCode, Screen};
use vstd::prelude::*;
use vstd::string::StringExecFns;
use vstd::string::StringSliceAdditionalSpecFns;

verus! {

/// What the processor reports: an exception of its own, or a line of the
/// interrupt controller. The frames and codes of the processor come as
/// the text in which they are shown.
pub enum Trap {
    Breakpoint { stack_frame: String },
    PageFault { accessed_address: String, error_code: String, stack_frame: String },
    DoubleFault { code: u64, stack_frame: String },
    Timer,
    Keyboard { scancode: u8 },
}

/// What is to be done after a trap was handled.
pub enum Response {
    /// The interrupted code goes on.
    Resume,
    /// The interrupt controller is told that the line of this vector was
    /// served; then the interrupted code goes on.
    Acknowledge(u8),
    /// The processor halts for good.
    Halt,
    /// The kernel panics with this report.
    Panic(String),
}

/// A response as plain values.
pub enum ResponseView {
    Resume,
    Acknowledge(u8),
    Halt,
    Panic(Seq<char>),
}

impl View for Response {
    type V = ResponseView;

    open spec fn view(&self) -> ResponseView {
        match self {
            Response::Resume => ResponseView::Resume,
            Response::Acknowledge(vector) => ResponseView::Acknowledge(*vector),
            Response::Halt => ResponseView::Halt,
            Response::Panic(report) => ResponseView::Panic(report@),
        }
    }
}

/// The kernel: its system, the tasks that work on it, and its
/// interrupts.
pub struct Kernel<C> {
    pub system: System,
    pub executor: Executor<C>,
    pub interrupts: InterruptController,
}

/// The kernel as plain values.
pub struct KernelState {
    pub terminal: TerminalState,
    pub channel: ChannelState,
    pub executor: ExecutorState,
    pub interrupts: ControllerState,
}

impl<C> View for Kernel<C> {
    type V = KernelState;

    open spec fn view(&self) -> KernelState {
        KernelState {
            terminal: self.system.terminal@,
            channel: self.system.channel@,
            executor: self.executor@,
            interrupts: self.interrupts@,
        }
    }
}

impl KernelState {
    /// The kernel with another screen.
    pub open spec fn show(self, screen: Screen) -> KernelState {
        KernelState { terminal: TerminalState { screen, ..self.terminal }, ..self }
    }
}

/// The bytes of each of some lines.
pub open spec fn encoded(lines: Seq<Seq<char>>) -> Seq<Seq<u8>> {
    Seq::new(lines.len(), |i: int| vstd::utf8::encode_utf8(lines[i]))
}

/// The lines that a breakpoint is shown in.
pub open spec fn breakpoint_lines(stack_frame: Seq<char>) -> Seq<Seq<char>> {
    seq!["EXCEPTION: BREAKPOINT"@, stack_frame]
}

/// The lines that a page fault is shown in.
pub open spec fn page_fault_lines(
    accessed_address: Seq<char>,
    error_code: Seq<char>,
    stack_frame: Seq<char>,
) -> Seq<Seq<char>> {
    seq![
        "EXCEPTION: PAGE FAULT"@,
        "ACCESED ADDRESS: "@.add(accessed_address),
        "ERRROR CODE: "@.add(error_code),
        stack_frame,
    ]
}

/// The words with which a double fault ends the kernel.
pub open spec fn double_fault_report(code: u64, stack_frame: Seq<char>) -> Seq<char> {
    "EXCEPTION: DOUBLE FAULT\nCODE:"@.add(decimal_digits(code as nat)).add("\n"@).add(stack_frame)
}

/// The warning for a scancode that was dropped, if it was.
pub open spec fn push_warning(outcome: PushOutcome) -> Option<Seq<u8>> {
    match outcome {
        PushOutcome::Queued { .. } => None,
        PushOutcome::Full => Some(
            "WARNING: Scancode queue full. Dropping keyboard input.".spec_bytes(),
        ),
        PushOutcome::Uninitialized => Some("WARNING: Scancode queue uninitialized.".spec_bytes()),
    }
}

/// A breakpoint is shown in light red, line by line; then the kernel
/// goes on, in white. Where a line finds no room, the kernel panics.
pub open spec fn breakpoint_spec(kernel: KernelState, stack_frame: Seq<char>) -> (
    KernelState,
    ResponseView,
) {
    let red = Screen { color: ColorCode(0x0c), ..kernel.terminal.screen };
    match try_println_all_spec(red, encoded(breakpoint_lines(stack_frame))) {
        (Ok(()), screen) => (
            kernel.show(Screen { color: ColorCode(0x0f), ..screen }),
            ResponseView::Resume,
        ),
        (Err(fault), screen) => (kernel.show(screen), ResponseView::Panic(fault.message_spec())),
    }
}

/// A page fault is shown in light red, line by line; then the kernel
/// halts. Where a line finds no room, the kernel panics.
pub open spec fn page_fault_spec(
    kernel: KernelState,
    accessed_address: Seq<char>,
    error_code: Seq<char>,
    stack_frame: Seq<char>,
) -> (KernelState, ResponseView) {
    let red = Screen { color: ColorCode(0x0c), ..kernel.terminal.screen };
    match try_println_all_spec(
        red,
        encoded(page_fault_lines(accessed_address, error_code, stack_frame)),
    ) {
        (Ok(()), screen) => (kernel.show(screen), ResponseView::Halt),
        (Err(fault), screen) => (kernel.show(screen), ResponseView::Panic(fault.message_spec())),
    }
}

/// A scancode goes into the channel, and the task that waited for it is
/// ready again. A scancode that was dropped is warned about; where the
/// warning finds no room, the kernel panics. Then the keyboard is
/// acknowledged.
pub open spec fn keyboard_spec(kernel: KernelState, scancode: u8) -> (KernelState, ResponseView) {
    let (channel, outcome) = push_spec(kernel.channel, scancode);
    let executor = match outcome {
        PushOutcome::Queued { woken: Some(id) } => kernel.executor.wake(id),
        _ => kernel.executor,
    };
    let pushed = KernelState { channel, executor, ..kernel };
    let acknowledged = ResponseView::Acknowledge(InterruptIndex::Keyboard.as_u8());
    match push_warning(outcome) {
        None => (pushed, acknowledged),
        Some(warning) => match try_warning_spec(kernel.terminal.screen, warning) {
            Ok(screen) => (pushed.show(screen), acknowledged),
            Err(fault) => (pushed, ResponseView::Panic(fault.message_spec())),
        },
    }
}

/// The kernel after a trap, and what is to be done then. A breakpoint
/// is shown and left behind; a page fault is shown and ends in a halt; a
/// double fault is a panic; the timer is acknowledged; the scancode of
/// the keyboard goes into the channel before the keyboard is
/// acknowledged.
pub open spec fn handle_spec(kernel: KernelState, trap: Trap) -> (KernelState, ResponseView) {
    match trap {
        Trap::Breakpoint { stack_frame } => breakpoint_spec(kernel, stack_frame@),
        Trap::PageFault { accessed_address, error_code, stack_frame } => page_fault_spec(
            kernel,
            accessed_address@,
            error_code@,
            stack_frame@,
        ),
        Trap::DoubleFault { code, stack_frame } => (
            kernel,
            ResponseView::Panic(double_fault_report(code, stack_frame@)),
        ),
        Trap::Timer => (kernel, ResponseView::Acknowledge(InterruptIndex::Timer.as_u8())),
        Trap::Keyboard { scancode } => keyboard_spec(kernel, scancode),
    }
}

impl<C: Computation> Kernel<C> {
    pub open spec fn wf(&self) -> bool {
        self.system.wf() && self.executor@.wf() && self.interrupts@.wf()
    }

    /// A kernel with a wiped terminal, no queue, no tasks and nothing set
    /// up.
    pub fn new() -> (kernel: Self)
        ensures
            kernel.wf(),
            kernel@.executor.tasks.len() == 0,
            kernel@.executor.ready.len() == 0,
            kernel@.channel.queue is None,
            !kernel@.interrupts.loaded,
            !kernel@.terminal.awaits_input,
    {
        Kernel {
            system: System::new(),
            executor: Executor::new(),
            interrupts: InterruptController::new(),
        }
    }

    /// Steps the ready tasks on the system of the kernel until none is
    /// ready or one fails.
    pub fn run_ready_tasks(&mut self) -> (done: Result<(), Fault>)
        requires
            old(self).wf(),
        ensures
            final(self).wf(),
            final(self)@.interrupts == old(self)@.interrupts,
            exists|trace: Seq<(Executor<C>, System)>, outcomes: Seq<Result<Step, Fault>>| #[trigger]
                old(self).executor.runs_to(
                    &old(self).system,
                    trace,
                    outcomes,
                    &final(self).executor,
                    &final(self).system,
                    done,
                ),
    {
        self.executor.run_ready_tasks(&mut self.system)
    }

    /// Shows a breakpoint.
    fn breakpoint(&mut self, stack_frame: String) -> (response: Response)
        requires
            old(self).wf(),
        ensures
            final(self).wf(),
            (final(self)@, response@) == breakpoint_spec(old(self)@, stack_frame@),
    {
        self.system.terminal.writer.change_color_code(
            ColorCode::new(Color::LightRed, Color::Black),
        );
        let mut lines: Vec<String> = Vec::new();
        lines.push(String::from_str("EXCEPTION: BREAKPOINT"));
        lines.push(stack_frame);
        assert(bytes_of(lines@) =~= encoded(breakpoint_lines(stack_frame@)));
        match try_println_all(&mut self.system.terminal.writer, &lines) {
            Ok(()) => {},
            Err(fault) => {
                return Response::Panic(fault.message());
            },
        }
        self.system.terminal.writer.change_color_code(ColorCode::new(Color::White, Color::Black));
        Response::Resume
    }

    /// Shows a page fault.
    fn page_fault(
        &mut self,
        accessed_address: String,
        error_code: String,
        stack_frame: String,
    ) -> (response: Response)
        requires
            old(self).wf(),
        ensures
            final(self).wf(),
            (final(self)@, response@) == page_fault_spec(
                old(self)@,
                accessed_address@,
                error_code@,
                stack_frame@,
            ),
    {
        self.system.terminal.writer.change_color_code(
            ColorCode::new(Color::LightRed, Color::Black),
        );
        let mut lines: Vec<String> = Vec::new();
        lines.push(String::from_str("EXCEPTION: PAGE FAULT"));
        lines.push(String::from_str("ACCESED ADDRESS: ").concat(accessed_address.as_str()));
        lines.push(String::from_str("ERRROR CODE: ").concat(error_code.as_str()));
        lines.push(stack_frame);
        assert(bytes_of(lines@) =~= encoded(
            page_fault_lines(accessed_address@, error_code@, stack_frame@),
        ));
        match try_println_all(&mut self.system.terminal.writer, &lines) {
            Ok(()) => Response::Halt,
            Err(fault) => Response::Panic(fault.message()),
        }
    }

    /// Takes a scancode from the keyboard.
    fn keyboard(&mut self, scancode: u8) -> (response: Response)
        requires
            old(self).wf(),
        ensures
            final(self).wf(),
            (final(self)@, response@) == keyboard_spec(old(self)@, scancode),
    {
        let warned = match add_scancode(&mut self.system.channel, scancode) {
            PushOutcome::Queued { woken } => {
                match woken {
                    Some(id) => self.executor.wake(id),
                    None => {},
                }
                Ok(())
            },
            PushOutcome::Full => try_warning(
                &mut self.system.terminal.writer,
                "WARNING: Scancode queue full. Dropping keyboard input.",
            ),
            PushOutcome::Uninitialized => try_warning(
                &mut self.system.terminal.writer,
                "WARNING: Scancode queue uninitialized.",
            ),
        };
        match warned {
            Ok(()) => Response::Acknowledge(InterruptIndex::Keyboard.as_u8()),
            Err(fault) => Response::Panic(fault.message()),
        }
    }

    /// Handles a trap, and says what is to be done after it.
    pub fn handle(&mut self, trap: Trap) -> (response: Response)
        requires
            old(self).wf(),
        ensures
            final(self).wf(),
            (final(self)@, response@) == handle_spec(old(self)@, trap),
    {
        match trap {
            Trap::Breakpoint { stack_frame } => self.breakpoint(stack_frame),
            Trap::PageFault { accessed_address, error_code, stack_frame } => self.page_fault(
                accessed_address,
                error_code,
                stack_frame,
            ),
            Trap::DoubleFault { code, stack_frame } => {
                let report = String::from_str("EXCEPTION: DOUBLE FAULT\nCODE:").concat(
                    u64_to_string(code).as_str(),
                ).concat("\n").concat(stack_frame.as_str());
                Response::Panic(report)
            },
            Trap::Timer => Response::Acknowledge(InterruptIndex::Timer.as_u8()),
            Trap::Keyboard { scancode } => self.keyboard(scancode),
        }
    }
}

} // verus!
