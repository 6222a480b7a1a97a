//! Core of a small single-address-space kernel: the heap allocator, the
//! interrupt layer and the cooperative task runtime, as verified logic on
//! plain values.

pub mod allocator;
pub mod console;
pub mod fault;
pub mod heap;
pub mod interrupts;
pub mod kernel;
pub mod reading;
pub mod shell;
pub mod task;
pub mod text;
pub mod vga_buffer;
