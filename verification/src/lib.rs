//! Cycle-level simulator core for a Cortex-M0-class (ARM Thumb) processor.
//!
//! The crate models the out-of-order execution engine: reservation stations
//! holding in-flight instructions with operand snapshots, a scoreboard that
//! records which station will produce the next value of each register, a
//! broadcast step that forwards completed results to architectural state and
//! to waiting stations, and the per-cycle pipeline orchestration across
//! fetch, decode, issue, execute and writeback.

pub mod cpu_state;
pub mod disasm;
pub mod instructions;
pub mod memory;
pub mod registers;
pub mod simulators;

use vstd::prelude::*;

verus! {

} // verus!
