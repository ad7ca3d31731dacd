//! The scalar variant: one reservation station and no overlap — each
//! instruction is fetched, decoded and executed to completion before the
//! next fetch begins.

use crate::cpu_state::execute::StationResults;
use crate::cpu_state::CpuState;
use crate::disasm::Decoder;
use crate::memory::Memory;
use crate::simulators::out_of_order::saturating_cycles;
use crate::simulators::SimulationStats;
use crate::simulators::Simulator;
use vstd::prelude::*;
use vstd::string::StringExecFns;

verus! {

pub struct NonPipelinedSimulator {}

impl Simulator for NonPipelinedSimulator {
    fn run(&self, memory: Memory, entry: u32, decoder: &Decoder, max_cycles: u64) -> (r:
        SimulationStats) {
        let mut state = CpuState::new(entry, 1);
        let mut memory = memory;
        let mut output: Vec<u8> = Vec::new();
        let mut stats = SimulationStats::new();
        let mut cycles: u64 = 0;
        let mut done = false;
        while cycles < max_cycles && !done
            invariant
                state.wf(),
                memory.wf(),
                state.next_instr_addr & 1 == 1,
                done == state.should_terminate,
                cycles <= max_cycles,
                stats.total_cycles == cycles,
                state.reservation_stations@.len() == 1,
            decreases max_cycles - cycles,
        {
            let ghost cycles_at_entry = cycles;
            // One cycle to fetch.
            cycles = cycles + 1;
            let fetch = if state.fetched_instruction.is_none() {
                state.fetch(&memory)
            } else {
                None
            };
            let mut no_results: Vec<Option<StationResults>> = Vec::new();
            no_results.push(None);
            let result = state.apply_stages(fetch, None, no_results);
            stats.update(&result);
            stats.total_cycles = saturating_cycles(stats.total_cycles);
            if state.should_terminate {
                done = true;
            }

            // One cycle to decode.
            if cycles < max_cycles && !done {
                cycles = cycles + 1;
                let decode = state.decode(decoder);
                let mut no_results: Vec<Option<StationResults>> = Vec::new();
                no_results.push(None);
                let result = state.apply_stages(None, decode, no_results);
                stats.update(&result);
                stats.total_cycles = saturating_cycles(stats.total_cycles);
                if state.should_terminate {
                    done = true;
                }
            }

            // Execute the issued instruction to completion.
            while cycles < max_cycles && !done
                && state.reservation_stations[0].instruction.is_some()
                invariant
                    state.wf(),
                    memory.wf(),
                    state.next_instr_addr & 1 == 1,
                    done == state.should_terminate,
                    cycles <= max_cycles,
                    cycles > cycles_at_entry,
                    stats.total_cycles == cycles,
                    state.reservation_stations@.len() == 1,
                decreases max_cycles - cycles,
            {
                cycles = cycles + 1;
                let execute = state.execute_station(&mut memory, &mut output, 0);
                let mut results: Vec<Option<StationResults>> = Vec::new();
                results.push(execute);
                let result = state.apply_stages(None, None, results);
                stats.update(&result);
                stats.total_cycles = saturating_cycles(stats.total_cycles);
                if state.should_terminate {
                    done = true;
                }
            }
        }
        stats.output = output;
        stats.exit_code = state.exit_code;
        stats.fault = state.fault;
        stats.issued = Ghost(state.issued@);
        stats.retired = Ghost(state.retired@);
        stats.in_flight = Ghost(state.occupied_count(state.reservation_stations@.len() as int));
        stats
    }

    fn name(&self) -> String {
        String::from_str("Non pipelined scalar simulator")
    }
}

} // verus!
