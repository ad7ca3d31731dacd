//! The pipelined scalar variant: one reservation station, but fetch,
//! decode and execute overlap across cycles, with a flush whenever a
//! branch commits.
//!
//! Without branch prediction the fetch stream follows the sequential
//! path, so an untaken branch costs one cycle while a taken branch also
//! pays for the flushed fetch and decode work.

use crate::cpu_state::CpuState;
use crate::disasm::Decoder;
use crate::memory::Memory;
use crate::simulators::out_of_order::saturating_cycles;
use crate::simulators::out_of_order::step_cycle;
use crate::simulators::SimulationStats;
use crate::simulators::Simulator;
use vstd::prelude::*;
use vstd::string::StringExecFns;

verus! {

pub struct PipelinedSimulator {}

impl Simulator for PipelinedSimulator {
    fn run(&self, memory: Memory, entry: u32, decoder: &Decoder, max_cycles: u64) -> (r:
        SimulationStats) {
        let mut state = CpuState::new(entry, 1);
        let mut memory = memory;
        let mut output: Vec<u8> = Vec::new();
        let mut stats = SimulationStats::new();
        let mut cycles: u64 = 0;
        let mut done = false;
        while cycles < max_cycles && !done
            invariant
                state.wf(),
                memory.wf(),
                state.next_instr_addr & 1 == 1,
                done == state.should_terminate,
                cycles <= max_cycles,
                stats.total_cycles == cycles,
            decreases max_cycles - cycles,
        {
            cycles = cycles + 1;
            step_cycle(&mut state, &mut memory, &mut output, decoder, &mut stats);
            stats.total_cycles = saturating_cycles(stats.total_cycles);
            if state.should_terminate {
                done = true;
            }
        }
        stats.output = output;
        stats.exit_code = state.exit_code;
        stats.fault = state.fault;
        stats.issued = Ghost(state.issued@);
        stats.retired = Ghost(state.retired@);
        stats.in_flight = Ghost(state.occupied_count(state.reservation_stations@.len() as int));
        stats
    }

    fn name(&self) -> String {
        String::from_str("3 stage pipelined scalar simulator")
    }
}

} // verus!
