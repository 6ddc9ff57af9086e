//! Core of a priority-based, cooperatively scheduled real-time kernel.
//!
//! The kernel keeps every task control block in an arena owned by the
//! scheduler; the intrusive ready lists link tasks through indices into that
//! arena, so the whole ready-queue discipline is verified: list
//! well-formedness, FIFO order within a priority, strict priority selection,
//! and the cached top-ready-priority.  The machine-interrupt enable bit is
//! modelled as explicit state, so critical-section nesting is verified too.
//! What only the hardware can do (the register save/restore of a context
//! switch, CSR writes) stays outside this crate.

pub mod arch;
pub mod config;
pub mod list;
pub mod scheduler;
pub mod task;
pub mod types;
