//! Core scalar types of the kernel: priorities, ticks, task states, errors.

use vstd::prelude::*;

verus! {

/// Priority type - higher number = higher priority.
/// Range: 0 (idle) to MAX_PRIORITIES-1 (highest).
pub type Priority = usize;

/// Stack size, counted in machine words.
pub type StackSize = usize;

/// Tick counter type - wraps around on overflow.
#[derive(Copy, Clone, Debug, PartialEq, Eq, PartialOrd, Ord, Structural)]
pub struct TickType(pub u64);

impl TickType {
    pub fn new(value: u64) -> (r: Self)
        ensures
            r.0 == value,
    {
        TickType(value)
    }

    pub fn zero() -> (r: Self)
        ensures
            r.0 == 0,
    {
        TickType(0)
    }

    pub fn max() -> (r: Self)
        ensures
            r.0 == u64::MAX,
    {
        TickType(u64::MAX)
    }

    pub fn wrapping_add(self, other: TickType) -> (r: TickType)
        ensures
            r.0 == if self.0 + other.0 <= u64::MAX {
                self.0 + other.0
            } else {
                self.0 + other.0 - 0x1_0000_0000_0000_0000
            },
    {
        TickType(self.0.wrapping_add(other.0))
    }

    /// Wrap-safe elapsed time: `self - earlier` modulo 2^64.
    pub fn elapsed_since(self, earlier: TickType) -> (r: TickType)
        ensures
            r.0 == if self.0 >= earlier.0 {
                self.0 - earlier.0
            } else {
                self.0 - earlier.0 + 0x1_0000_0000_0000_0000
            },
    {
        TickType(self.0.wrapping_sub(earlier.0))
    }

    /// Convert from milliseconds (assuming 1ms tick).
    pub fn from_ms(ms: u64) -> (r: Self)
        ensures
            r.0 == ms,
    {
        TickType(ms)
    }

    /// Convert to milliseconds (assuming 1ms tick).
    pub fn to_ms(self) -> (r: u64)
        ensures
            r == self.0,
    {
        self.0
    }
}

/// Task states.
#[derive(Copy, Clone, Debug, PartialEq, Eq, Structural)]
pub enum TaskState {
    Ready,
    Running,
    Blocked,
    Suspended,
    Deleted,
}

/// Error types for kernel operations.
///
/// The core itself currently returns none of these; they are the contract for
/// future operations (blocking, timed waits, resource acquisition).
#[derive(Copy, Clone, Debug, PartialEq, Eq, Structural)]
pub enum RtosError {
    OutOfMemory,
    InvalidPriority,
    TaskNotFound,
    InvalidParameter,
    Timeout,
    ResourceBusy,
}

} // verus!
