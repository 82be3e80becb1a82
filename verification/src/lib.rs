//! A miniature multitasking kernel core for a single-core microcontroller:
//! an intrusive-style process list, a height-balanced process table, a
//! round-robin scheduler, an interrupt manager with deferred dispatch, and a
//! fixed-pool message-passing facility.
//!
//! Hardware access (memory-mapped registers, the context-switch primitive,
//! serial output) is kept outside this crate; the kernel core works on plain
//! values and is verified.

pub mod allocator;
pub mod arch;
pub mod avl_tree;
pub mod binary_tree;
pub mod interrupt_manager;
pub mod kernel;
pub mod linked_list;
pub mod log;
pub mod message_manager;
pub mod process;
pub mod process_list;
pub mod process_manager;
pub mod rb_tree;
pub mod scheduler;
pub mod serial;
pub mod sync;

pub use linked_list::LinkedList;
pub use linked_list::ListItem;
