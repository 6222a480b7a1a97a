//! The table of interrupt vectors and the order in which the interrupts
//! are set up.

use crate::fault::Fault;
use vstd::prelude::*;

verus! {

/// The vector of the first line of the first interrupt controller: the
/// first behind the 32 vectors of the processor's own exceptions.
pub const PIC_1_OFFSET: u8 = 32;

/// The vector of the first line of the second interrupt controller.
pub const PIC_2_OFFSET: u8 = PIC_1_OFFSET + 8;

/// The number of lines of the two controllers together.
pub const PIC_LINES: u8 = 16;

/// The number of vectors of the table.
pub const VECTORS: usize = 256;

/// The vectors of the exceptions that the kernel handles.
pub const BREAKPOINT_VECTOR: usize = 3;

pub const DOUBLE_FAULT_VECTOR: usize = 8;

pub const PAGE_FAULT_VECTOR: usize = 14;

/// The stack, of those that are kept aside, on which a double fault is
/// handled.
pub const DOUBLE_FAULT_IST_INDEX: u16 = 0;

/// The hardware interrupts that the kernel handles, each with the vector
/// that its line is delivered on.
#[derive(Debug, Clone, Copy, PartialEq, Eq, Structural)]
pub enum InterruptIndex {
    Timer,
    Keyboard,
}

impl InterruptIndex {
    pub open spec fn spec_as_u8(self) -> u8 {
        match self {
            InterruptIndex::Timer => PIC_1_OFFSET,
            InterruptIndex::Keyboard => (PIC_1_OFFSET + 1) as u8,
        }
    }

    /// The vector of the interrupt.
    #[verifier::when_used_as_spec(spec_as_u8)]
    pub fn as_u8(self) -> (vector: u8)
        ensures
            vector == self.spec_as_u8(),
            PIC_1_OFFSET <= vector < PIC_1_OFFSET + PIC_LINES,
    {
        match self {
            InterruptIndex::Timer => PIC_1_OFFSET,
            InterruptIndex::Keyboard => PIC_1_OFFSET + 1,
        }
    }

    pub fn as_usize(self) -> (vector: usize)
        ensures
            vector == self.spec_as_u8(),
    {
        self.as_u8() as usize
    }
}

/// What a vector of the table leads to.
#[derive(Debug, Clone, Copy, PartialEq, Eq, Structural)]
pub enum Handler {
    Breakpoint,
    PageFault,
    /// Handled on a stack of its own, so that a broken stack cannot keep
    /// the fault from being reported.
    DoubleFault { stack_index: u16 },
    Timer,
    Keyboard,
}

/// The handler that the kernel sets for a vector.
pub open spec fn handler_of(vector: int) -> Option<Handler> {
    if vector == BREAKPOINT_VECTOR {
        Some(Handler::Breakpoint)
    } else if vector == PAGE_FAULT_VECTOR {
        Some(Handler::PageFault)
    } else if vector == DOUBLE_FAULT_VECTOR {
        Some(Handler::DoubleFault { stack_index: DOUBLE_FAULT_IST_INDEX })
    } else if vector == InterruptIndex::Timer.as_u8() {
        Some(Handler::Timer)
    } else if vector == InterruptIndex::Keyboard.as_u8() {
        Some(Handler::Keyboard)
    } else {
        None
    }
}

/// The table of the kernel: its five handlers, each at its vector.
pub open spec fn kernel_table() -> Seq<Option<Handler>> {
    Seq::new(VECTORS as nat, |vector: int| handler_of(vector))
}

/// How far the interrupts are set up.
pub struct ControllerState {
    /// The handler of each vector.
    pub table: Seq<Option<Handler>>,
    /// Whether the table was loaded into the processor.
    pub loaded: bool,
    /// Whether the lines of the interrupt controller were moved behind
    /// the vectors of the exceptions.
    pub remapped: bool,
    /// Whether interrupts are enabled.
    pub enabled: bool,
}

impl ControllerState {
    /// The table has its 256 vectors; it is empty until it is loaded and
    /// holds the handlers of the kernel from then on; the controller is
    /// remapped only after that, and interrupts are enabled only after
    /// both.
    pub open spec fn wf(self) -> bool {
        &&& self.table.len() == VECTORS
        &&& !self.loaded ==> forall|vector: int|
            0 <= vector < VECTORS ==> self.table[vector] is None
        &&& self.loaded ==> self.table == kernel_table()
        &&& self.remapped ==> self.loaded
        &&& self.enabled ==> self.loaded && self.remapped
    }
}

/// The table of interrupt vectors and the state of the interrupt
/// controller.
pub struct InterruptController {
    table: Vec<Option<Handler>>,
    loaded: bool,
    remapped: bool,
    enabled: bool,
}

impl View for InterruptController {
    type V = ControllerState;

    closed spec fn view(&self) -> ControllerState {
        ControllerState {
            table: self.table@,
            loaded: self.loaded,
            remapped: self.remapped,
            enabled: self.enabled,
        }
    }
}

impl InterruptController {
    /// A table without handlers, not loaded; nothing is set up.
    pub fn new() -> (controller: Self)
        ensures
            controller@.wf(),
            !controller@.loaded,
            !controller@.remapped,
            !controller@.enabled,
            forall|vector: int| 0 <= vector < VECTORS ==> controller@.table[vector] is None,
    {
        let mut table: Vec<Option<Handler>> = Vec::new();
        let mut vector: usize = 0;
        while vector < VECTORS
            invariant
                vector <= VECTORS,
                table@.len() == vector,
                forall|v: int| 0 <= v < vector ==> table@[v] is None,
            decreases VECTORS - vector,
        {
            table.push(None);
            vector += 1;
        }
        InterruptController { table, loaded: false, remapped: false, enabled: false }
    }

    /// The handler of a vector.
    pub fn handler(&self, vector: u8) -> (handler: Option<Handler>)
        requires
            self@.wf(),
        ensures
            handler == self@.table[vector as int],
    {
        self.table[vector as usize]
    }

    pub fn is_loaded(&self) -> (loaded: bool)
        ensures
            loaded == self@.loaded,
    {
        self.loaded
    }

    pub fn is_remapped(&self) -> (remapped: bool)
        ensures
            remapped == self@.remapped,
    {
        self.remapped
    }

    pub fn is_enabled(&self) -> (enabled: bool)
        ensures
            enabled == self@.enabled,
    {
        self.enabled
    }

    /// Moves the lines of the interrupt controller behind the vectors of
    /// the exceptions, and says where the lines of its two halves begin.
    /// Refused before the table is loaded, and once interrupts are
    /// enabled.
    pub fn remap(&mut self) -> (offsets: Result<(u8, u8), Fault>)
        requires
            old(self)@.wf(),
        ensures
            final(self)@.wf(),
            old(self)@.loaded && !old(self)@.enabled ==> offsets == Ok::<(u8, u8), Fault>(
                (PIC_1_OFFSET, PIC_2_OFFSET),
            ) && final(self)@ == (ControllerState { remapped: true, ..old(self)@ }),
            !(old(self)@.loaded && !old(self)@.enabled) ==> offsets == Err::<(u8, u8), Fault>(
                Fault::InterruptOrder,
            ) && final(self)@ == old(self)@,
    {
        if !self.loaded || self.enabled {
            return Err(Fault::InterruptOrder);
        }
        self.remapped = true;
        Ok((PIC_1_OFFSET, PIC_2_OFFSET))
    }

    /// Enables interrupts. Refused unless the table is loaded and the
    /// controller is remapped.
    pub fn enable(&mut self) -> (done: Result<(), Fault>)
        requires
            old(self)@.wf(),
        ensures
            final(self)@.wf(),
            old(self)@.loaded && old(self)@.remapped ==> done is Ok && final(self)@ == (
            ControllerState { enabled: true, ..old(self)@ }),
            !(old(self)@.loaded && old(self)@.remapped) ==> done == Err::<(), Fault>(
                Fault::InterruptOrder,
            ) && final(self)@ == old(self)@,
    {
        if !self.loaded || !self.remapped {
            return Err(Fault::InterruptOrder);
        }
        self.enabled = true;
        Ok(())
    }

    /// Sets the handler of a vector.
    fn set_handler(&mut self, vector: usize, handler: Handler)
        requires
            old(self)@.table.len() == VECTORS,
            vector < VECTORS,
        ensures
            final(self)@ == (ControllerState {
                table: old(self)@.table.update(vector as int, Some(handler)),
                ..old(self)@
            }),
    {
        self.table.set(vector, Some(handler));
    }
}

/// Sets the handlers of the kernel and loads the table. Refused when the
/// table is loaded already: it is loaded once.
pub fn init(controller: &mut InterruptController) -> (done: Result<(), Fault>)
    requires
        old(controller)@.wf(),
    ensures
        final(controller)@.wf(),
        !old(controller)@.loaded ==> done is Ok && final(controller)@ == (ControllerState {
            table: kernel_table(),
            loaded: true,
            ..old(controller)@
        }),
        old(controller)@.loaded ==> {
            &&& done == Err::<(), Fault>(Fault::InterruptOrder)
            &&& final(controller)@ == old(controller)@
        },
{
    if controller.is_loaded() {
        return Err(Fault::InterruptOrder);
    }
    controller.set_handler(BREAKPOINT_VECTOR, Handler::Breakpoint);
    controller.set_handler(PAGE_FAULT_VECTOR, Handler::PageFault);
    controller.set_handler(
        DOUBLE_FAULT_VECTOR,
        Handler::DoubleFault { stack_index: DOUBLE_FAULT_IST_INDEX },
    );
    controller.set_handler(InterruptIndex::Timer.as_usize(), Handler::Timer);
    controller.set_handler(InterruptIndex::Keyboard.as_usize(), Handler::Keyboard);
    assert(controller@.table =~= kernel_table());
    controller.load();
    Ok(())
}

impl InterruptController {
    /// Marks the table as loaded.
    fn load(&mut self)
        requires
            !old(self)@.loaded,
        ensures
            final(self)@ == (ControllerState { loaded: true, ..old(self)@ }),
    {
        self.loaded = true;
    }
}

/// Once interrupts are enabled, the table is loaded with the handlers of
/// the kernel, and the lines of the interrupt controller are delivered on
/// vectors of their own, behind those of the exceptions.
pub proof fn law_enabled_after_setup(controller: ControllerState, line: int)
    requires
        controller.wf(),
        controller.enabled,
        0 <= line < PIC_LINES,
    ensures
        controller.loaded,
        controller.remapped,
        controller.table == kernel_table(),
        PIC_1_OFFSET + line >= 32,
        PIC_1_OFFSET + line < VECTORS,
{
}

} // verus!
