//! AND, ORR, EOR and BIC: bitwise operations that also set N and Z.

use crate::cpu_state::station::ReservationStation;
use crate::instructions::spec_nz;
use crate::instructions::PollResult;
use crate::registers::ConditionFlag;
use crate::registers::CPSR;
use crate::registers::NUM_REGISTERS;
use vstd::prelude::*;

verus! {

#[derive(Clone, Copy, Debug, PartialEq, Eq, Structural)]
pub enum Mode {
    AND,
    ORR,
    EOR,
    BIC,
}

#[derive(Clone, Copy, Debug, PartialEq, Eq, Structural)]
pub struct LOGICAL {
    pub dest: u8,
    pub second: u8,
    pub mode: Mode,
}

impl LOGICAL {
    pub fn new(dest: u8, second: u8, mode: Mode) -> (r: LOGICAL)
        ensures
            r == (LOGICAL { dest, second, mode }),
    {
        LOGICAL { dest, second, mode }
    }

    pub open spec fn sources(self) -> Set<u8> {
        set![self.dest, self.second, CPSR]
    }

    pub open spec fn dests(self) -> Set<u8> {
        set![self.dest, CPSR]
    }

    pub open spec fn wf(self) -> bool {
        self.dest < NUM_REGISTERS as u8 && self.second < NUM_REGISTERS as u8
    }

    /// The bitwise result of the operation on the two register values.
    pub open spec fn spec_result(mode: Mode, a: u32, b: u32) -> u32 {
        match mode {
            Mode::AND => a & b,
            Mode::ORR => a | b,
            Mode::EOR => a ^ b,
            Mode::BIC => a & !b,
        }
    }

    /// The exact register changes one poll produces: the destination and
    /// CPSR with N and Z rebuilt from the result.
    pub open spec fn spec_changes(self, station: ReservationStation) -> Seq<(u8, u32)> {
        let a = station.value_at(self.dest);
        let b = station.value_at(self.second);
        let cpsr = station.value_at(CPSR);
        let result = Self::spec_result(self.mode, a, b);
        seq![(self.dest, result), (CPSR, spec_nz(cpsr, result))]
    }

    /// Combine the destination and second register; always completes in
    /// one cycle.
    pub fn poll(&self, station: &ReservationStation) -> (r: PollResult)
        requires
            self.wf(),
            station.wf(),
            station.is_ready_at(self.dest),
            station.is_ready_at(self.second),
            station.is_ready_at(CPSR),
        ensures
            r matches PollResult::Complete(changes) && changes@ == self.spec_changes(*station),
    {
        let first_val = station.read_by_id(self.dest);
        let sec_val = station.read_by_id(self.second);
        let result = match self.mode {
            Mode::AND => first_val & sec_val,
            Mode::ORR => first_val | sec_val,
            Mode::EOR => first_val ^ sec_val,
            Mode::BIC => first_val & (!sec_val),
        };
        let mut cpsr = station.read_by_id(CPSR);
        ConditionFlag::N.write_flag(&mut cpsr, result >= 0x8000_0000);
        ConditionFlag::Z.write_flag(&mut cpsr, result == 0);
        let mut changes: Vec<(u8, u32)> = Vec::new();
        changes.push((self.dest, result));
        changes.push((CPSR, cpsr));
        proof {
            assert(changes@ =~= self.spec_changes(*station));
        }
        PollResult::Complete(changes)
    }
}

} // verus!
