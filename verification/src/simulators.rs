//! The three simulator variants: scalar, pipelined scalar, and superscalar
//! out-of-order. All three drive the same per-stage contracts; they differ
//! only in how many reservation stations they use and how much of the
//! pipeline they overlap.

pub mod non_pipelined;
pub mod out_of_order;
pub mod pipelined;

use crate::cpu_state::UpdateResult;
use crate::disasm::Decoder;
use crate::instructions::Fault;
use crate::memory::Memory;
use vstd::prelude::*;

verus! {

/// Aggregate statistics of one simulation run, together with what the
/// program produced: its console output and its exit, or the fault that
/// stopped it.
pub struct SimulationStats {
    pub instructions_executed: u64,
    pub instructions_skipped: u64,
    pub total_cycles: u64,
    pub branches_not_taken: u64,
    pub branches_taken: u64,
    /// Bytes the program wrote to the console.
    pub output: Vec<u8>,
    /// The exit code of the terminal exception, if the program exited.
    pub exit_code: Option<u32>,
    /// The fault that halted the simulation, if one did.
    pub fault: Option<Fault>,
    /// How many instructions were issued into a reservation station.
    pub issued: Ghost<nat>,
    /// How many instructions were retired from a reservation station.
    pub retired: Ghost<nat>,
    /// How many instructions were still occupying a station when the run
    /// stopped (an exception or fault halts the machine mid-flight).
    pub in_flight: Ghost<nat>,
}

/// `a + b`, stopping at the largest counter value instead of wrapping.
fn saturating_count(a: u64, b: u64) -> (r: u64)
    ensures
        r == if a + b <= u64::MAX {
            a + b
        } else {
            u64::MAX as int
        },
{
    if a <= u64::MAX - b {
        a + b
    } else {
        u64::MAX
    }
}

impl SimulationStats {
    /// All counters zero, no output, still running.
    pub fn new() -> (r: SimulationStats)
        ensures
            r.instructions_executed == 0,
            r.instructions_skipped == 0,
            r.total_cycles == 0,
            r.branches_not_taken == 0,
            r.branches_taken == 0,
            r.output@.len() == 0,
            r.exit_code is None,
            r.fault is None,
            r.issued@ == 0,
            r.retired@ == 0,
            r.in_flight@ == 0,
    {
        SimulationStats {
            instructions_executed: 0,
            instructions_skipped: 0,
            total_cycles: 0,
            branches_not_taken: 0,
            branches_taken: 0,
            output: Vec::new(),
            exit_code: None,
            fault: None,
            issued: Ghost(0),
            retired: Ghost(0),
            in_flight: Ghost(0),
        }
    }

    /// Fold one cycle's counters into the running totals.
    pub fn update(&mut self, from: &UpdateResult)
        ensures
            final(self).instructions_executed == if old(self).instructions_executed
                + from.instructions_executed <= u64::MAX {
                old(self).instructions_executed + from.instructions_executed
            } else {
                u64::MAX as int
            },
            final(self).instructions_skipped == if old(self).instructions_skipped
                + from.instructions_skipped <= u64::MAX {
                old(self).instructions_skipped + from.instructions_skipped
            } else {
                u64::MAX as int
            },
            final(self).branches_taken == if old(self).branches_taken + from.branches_taken
                <= u64::MAX {
                old(self).branches_taken + from.branches_taken
            } else {
                u64::MAX as int
            },
            final(self).branches_not_taken == if old(self).branches_not_taken
                + from.branches_not_taken <= u64::MAX {
                old(self).branches_not_taken + from.branches_not_taken
            } else {
                u64::MAX as int
            },
            final(self).total_cycles == old(self).total_cycles,
            final(self).output == old(self).output,
            final(self).exit_code == old(self).exit_code,
            final(self).fault == old(self).fault,
            final(self).issued == old(self).issued,
            final(self).retired == old(self).retired,
            final(self).in_flight == old(self).in_flight,
    {
        self.instructions_executed = saturating_count(
            self.instructions_executed,
            from.instructions_executed as u64,
        );
        self.instructions_skipped = saturating_count(
            self.instructions_skipped,
            from.instructions_skipped as u64,
        );
        self.branches_taken = saturating_count(self.branches_taken, from.branches_taken as u64);
        self.branches_not_taken = saturating_count(
            self.branches_not_taken,
            from.branches_not_taken as u64,
        );
    }
}

/// A simulator variant: drives the per-cycle stages against a program
/// image until the program exits, faults, or the cycle ceiling is reached.
pub trait Simulator {
    /// Run the program whose image is in `memory`, starting at `entry`
    /// (Thumb bit set), for at most `max_cycles` cycles.
    ///
    /// Conservation of issue, surfaced at termination: every instruction
    /// issued into a station was retired from one, except those still in
    /// flight when the run stopped.
    fn run(&self, memory: Memory, entry: u32, decoder: &Decoder, max_cycles: u64) -> (r:
        SimulationStats)
        requires
            memory.wf(),
            entry & 1 == 1,
        ensures
            r.total_cycles <= max_cycles,
            r.issued@ == r.retired@ + r.in_flight@,
            r.retired@ <= r.issued@,
    ;

    /// A human-readable name for the variant.
    fn name(&self) -> String;
}

} // verus!
