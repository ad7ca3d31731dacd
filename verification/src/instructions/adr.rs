//! ADR: a program-counter-relative address computation.

use crate::cpu_state::station::ReservationStation;
use crate::instructions::add_wrap;
use crate::instructions::wrap_to_u32;
use crate::instructions::PollResult;
use crate::registers::NUM_REGISTERS;
use crate::registers::PC;
use vstd::prelude::*;

verus! {

#[derive(Clone, Copy, Debug, PartialEq, Eq, Structural)]
pub struct ADR {
    pub dest: u8,
    pub pc_rel: i32,
}

impl ADR {
    pub fn new(dest: u8, pc_rel: i32) -> (r: ADR)
        ensures
            r == (ADR { dest, pc_rel }),
    {
        ADR { dest, pc_rel }
    }

    /// The program counter is read implicitly; the scheduler snapshots it
    /// for every instruction.
    pub open spec fn sources(self) -> Set<u8> {
        Set::empty()
    }

    pub open spec fn dests(self) -> Set<u8> {
        set![self.dest]
    }

    pub open spec fn wf(self) -> bool {
        self.dest < NUM_REGISTERS as u8
    }

    /// The computed address: the program counter reads as the instruction
    /// address plus 4, word-aligned, and the relative offset is added.
    pub open spec fn spec_result(self, station: ReservationStation) -> u32 {
        let aligned = add_wrap(station.value_at(PC), 4) & 0xFFFF_FFFCu32;
        wrap_to_u32(aligned + self.pc_rel)
    }

    /// The exact register changes one poll produces.
    pub open spec fn spec_changes(self, station: ReservationStation) -> Seq<(u8, u32)> {
        seq![(self.dest, self.spec_result(station))]
    }

    /// Compute the relative address; always completes in one cycle.
    pub fn poll(&self, station: &ReservationStation) -> (r: PollResult)
        requires
            self.wf(),
            station.wf(),
            station.is_ready_at(PC),
        ensures
            r matches PollResult::Complete(changes) && changes@ == self.spec_changes(*station),
    {
        let pc = station.read_by_id(PC);
        let bumped = if pc >= 0xFFFF_FFFC {
            pc - 0xFFFF_FFFC
        } else {
            pc + 4
        };
        let aligned = bumped & 0xFFFF_FFFC;
        let relative: i64 = aligned as i64 + self.pc_rel as i64;
        let result: u32 = if relative < 0 {
            (relative + 0x1_0000_0000) as u32
        } else if relative > 0xFFFF_FFFF {
            (relative - 0x1_0000_0000) as u32
        } else {
            relative as u32
        };
        let mut changes: Vec<(u8, u32)> = Vec::new();
        changes.push((self.dest, result));
        proof {
            assert(changes@ =~= self.spec_changes(*station));
        }
        PollResult::Complete(changes)
    }
}

} // verus!
