//! Compile-time configuration constants.

use vstd::prelude::*;

verus! {

/// Maximum number of priority levels.
pub const MAX_PRIORITIES: usize = 32;

/// Idle task priority (always 0).
pub const IDLE_PRIORITY: usize = 0;

/// Default task stack size (in words).
pub const DEFAULT_STACK_SIZE: usize = 1024;

/// Minimum task stack size (in words).
pub const MIN_STACK_SIZE: usize = 256;

/// System tick frequency in Hz (1 ms tick).
pub const TICK_RATE_HZ: u64 = 1000;

/// Enable/disable preemption (reserved).
pub const USE_PREEMPTION: bool = true;

/// Enable/disable time slicing (reserved).
pub const USE_TIME_SLICING: bool = true;

/// Stack fill pattern for stack-watermark debugging.
pub const STACK_FILL_BYTE: u8 = 0xa5;

} // verus!
