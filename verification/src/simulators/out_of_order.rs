//! The superscalar out-of-order variant: N reservation stations, full
//! overlap of fetch, decode and execution, dynamic scheduling through the
//! scoreboard, and a pipeline flush whenever a branch commits.

use crate::cpu_state::execute::station_result_ok;
use crate::cpu_state::execute::StationResults;
use crate::cpu_state::CpuState;
use crate::disasm::Decoder;
use crate::memory::Memory;
use crate::simulators::SimulationStats;
use crate::simulators::Simulator;
use vstd::prelude::*;
use vstd::string::StringExecFns;

verus! {

pub struct OutOfOrderSimulator {
    /// How many reservation stations / execution units the variant uses.
    pub stations: usize,
}

impl OutOfOrderSimulator {
    /// A simulator with the given number of reservation stations.
    pub fn new(stations: usize) -> (r: OutOfOrderSimulator)
        requires
            1 <= stations <= 255,
        ensures
            r.stations == stations,
    {
        OutOfOrderSimulator { stations }
    }
}

/// Run one full cycle against `state`: fetch, decode and poll every
/// station against the pre-cycle snapshot, then apply the results as one
/// transaction, flushing the not-yet-issued work when a branch committed.
pub(crate) fn step_cycle(
    state: &mut CpuState,
    memory: &mut Memory,
    output: &mut Vec<u8>,
    decoder: &Decoder,
    stats: &mut SimulationStats,
)
    requires
        old(state).wf(),
        !old(state).should_terminate,
        old(state).next_instr_addr & 1 == 1,
        old(memory).wf(),
    ensures
        final(state).wf(),
        final(state).next_instr_addr & 1 == 1,
        final(memory).wf(),
        final(state).reservation_stations@.len() == old(state).reservation_stations@.len(),
        final(stats).total_cycles == old(stats).total_cycles,
{
    let fetch = state.fetch(memory);
    let decode = state.decode(decoder);
    let n = state.reservation_stations.len();
    let mut executes: Vec<Option<StationResults>> = Vec::new();
    let mut i: usize = 0;
    while i < n
        invariant
            state.wf(),
            memory.wf(),
            !state.should_terminate,
            n == state.reservation_stations@.len(),
            i <= n,
            executes@.len() == i,
            forall|j: int|
                0 <= j < i ==> ((#[trigger] executes@[j]) matches Some(res)
                    ==> station_result_ok(*state, j, res)),
        decreases n - i,
    {
        let r = state.execute_station(memory, output, i);
        executes.push(r);
        i = i + 1;
    }
    proof {
        if fetch is Some && state.fetched_instruction is Some {
            assert(state.decoded_instructions@.len()
                < crate::cpu_state::DECODED_QUEUE_CAPACITY);
            assert(decode is Some);
        }
    }
    let result = state.apply_stages(fetch, decode, executes);
    stats.update(&result);
    if result.pc_changed {
        state.flush_pipeline();
    }
}

impl Simulator for OutOfOrderSimulator {
    fn run(&self, memory: Memory, entry: u32, decoder: &Decoder, max_cycles: u64) -> (r:
        SimulationStats) {
        let stations = if 1 <= self.stations && self.stations <= 255 {
            self.stations
        } else {
            1
        };
        let mut state = CpuState::new(entry, stations);
        let mut memory = memory;
        let mut output: Vec<u8> = Vec::new();
        let mut stats = SimulationStats::new();
        let mut cycles: u64 = 0;
        let mut done = false;
        while cycles < max_cycles && !done
            invariant
                state.wf(),
                memory.wf(),
                state.next_instr_addr & 1 == 1,
                done == state.should_terminate,
                cycles <= max_cycles,
                stats.total_cycles == cycles,
            decreases max_cycles - cycles,
        {
            cycles = cycles + 1;
            step_cycle(&mut state, &mut memory, &mut output, decoder, &mut stats);
            stats.total_cycles = saturating_cycles(stats.total_cycles);
            if state.should_terminate {
                done = true;
            }
        }
        stats.output = output;
        stats.exit_code = state.exit_code;
        stats.fault = state.fault;
        stats.issued = Ghost(state.issued@);
        stats.retired = Ghost(state.retired@);
        stats.in_flight = Ghost(state.occupied_count(state.reservation_stations@.len() as int));
        stats
    }

    fn name(&self) -> String {
        String::from_str("Pipelined out-of-order superscalar simulator")
    }
}

/// One more cycle, stopping at the largest counter value.
pub(crate) fn saturating_cycles(c: u64) -> (r: u64)
    ensures
        r == if c + 1 <= u64::MAX {
            c + 1
        } else {
            u64::MAX as int
        },
{
    if c < u64::MAX {
        c + 1
    } else {
        u64::MAX
    }
}

} // verus!
