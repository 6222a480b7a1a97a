//! The state of the line that the shell reads.

use vstd::prelude::*;

verus! {

/// Whether the shell is waiting for a line, and where that line starts.
pub struct Reader {
    pub awaits_input: bool,
    pub column_position_start: usize,
}

impl Reader {
    /// A reader that waits for nothing yet.
    pub fn new() -> (reader: Self)
        ensures
            !reader.awaits_input,
            reader.column_position_start == 0,
    {
        Reader { awaits_input: false, column_position_start: 0 }
    }
}

} // verus!
