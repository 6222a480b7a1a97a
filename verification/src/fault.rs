//! The reasons for which the kernel halts.

use vstd::prelude::*;
use vstd::string::StringExecFns;

verus! {

/// Why the kernel cannot go on. Each of these ends in a halt.
#[derive(Debug, Clone, Copy, PartialEq, Eq, Structural)]
pub enum Fault {
    /// The calculator was given a number that is no `i64`.
    InvalidNumber,
    /// A result of the calculator does not fit `i64`.
    ArithmeticOverflow,
    /// The calculator was asked to divide by zero.
    DivisionByZero,
    /// Text would have been written past the last cell of a row.
    ColumnOutOfBounds,
    /// The row above the first was asked for.
    RowOutOfBounds,
    /// The row of the input is shorter than the prompt.
    PromptMissing,
    /// The history was asked for an entry behind its last.
    HistoryOutOfBounds,
    /// The scancode queue was polled before it was made.
    QueueUninitialized,
    /// The scancode queue was made a second time.
    QueueAlreadyInitialized,
    /// The interrupts were set up in the wrong order: the table is loaded
    /// once, the controller is remapped after that, and only then are
    /// interrupts enabled.
    InterruptOrder,
}

impl Fault {
    /// The fault in words.
    pub open spec fn message_spec(self) -> Seq<char> {
        match self {
            Fault::InvalidNumber => "called `parse` on a text that is no number"@,
            Fault::ArithmeticOverflow => "attempt to calculate with overflow"@,
            Fault::DivisionByZero => "attempt to divide by zero"@,
            Fault::ColumnOutOfBounds => "column out of bounds"@,
            Fault::RowOutOfBounds => "row out of bounds"@,
            Fault::PromptMissing => "cannot remove a char from the end of a string"@,
            Fault::HistoryOutOfBounds => "history index out of bounds"@,
            Fault::QueueUninitialized => "Not initialized"@,
            Fault::QueueAlreadyInitialized => "Scancode Queue should be initialized only once."@,
            Fault::InterruptOrder => "interrupts set up out of order"@,
        }
    }

    /// The fault in words.
    pub fn message(&self) -> (text: String)
        ensures
            text@ == self.message_spec(),
    {
        match self {
            Fault::InvalidNumber => String::from_str("called `parse` on a text that is no number"),
            Fault::ArithmeticOverflow => String::from_str("attempt to calculate with overflow"),
            Fault::DivisionByZero => String::from_str("attempt to divide by zero"),
            Fault::ColumnOutOfBounds => String::from_str("column out of bounds"),
            Fault::RowOutOfBounds => String::from_str("row out of bounds"),
            Fault::PromptMissing => String::from_str("cannot remove a char from the end of a string"),
            Fault::HistoryOutOfBounds => String::from_str("history index out of bounds"),
            Fault::QueueUninitialized => String::from_str("Not initialized"),
            Fault::QueueAlreadyInitialized => String::from_str(
                "Scancode Queue should be initialized only once.",
            ),
            Fault::InterruptOrder => String::from_str("interrupts set up out of order"),
        }
    }
}

} // verus!
