//! MOV and MVN: move a value or its complement, optionally setting N and Z.

use crate::cpu_state::station::ReservationStation;
use crate::instructions::spec_nz;
use crate::instructions::Operand;
use crate::instructions::PollResult;
use crate::registers::ConditionFlag;
use crate::registers::CPSR;
use crate::registers::NUM_REGISTERS;
use crate::registers::PC;
use vstd::prelude::*;

verus! {

#[derive(Clone, Copy, Debug, PartialEq, Eq, Structural)]
pub enum Mode {
    MOV,
    MVN,
}

#[derive(Clone, Copy, Debug, PartialEq, Eq, Structural)]
pub struct MOV {
    pub update_flags: bool,
    pub mode: Mode,
    pub dest: u8,
    pub src: Operand,
}

impl MOV {
    pub fn new(dest: u8, src: Operand, mode: Mode, update_flags: bool) -> (r: MOV)
        ensures
            r == (MOV { update_flags, mode, dest, src }),
    {
        MOV { update_flags, mode, dest, src }
    }

    pub open spec fn sources(self) -> Set<u8> {
        if self.update_flags {
            self.src.regs().insert(CPSR)
        } else {
            self.src.regs()
        }
    }

    pub open spec fn dests(self) -> Set<u8> {
        if self.update_flags {
            set![self.dest, CPSR]
        } else {
            set![self.dest]
        }
    }

    pub open spec fn wf(self) -> bool {
        self.dest < NUM_REGISTERS as u8 && self.src.wf()
    }

    /// The moved value: the operand, with the Thumb bit forced when the
    /// destination is the program counter, then complemented for MVN.
    pub open spec fn spec_value(self, station: ReservationStation) -> u32 {
        let v0 = station.spec_operand_value(self.src);
        let v1 = if self.dest == PC {
            v0 | 1
        } else {
            v0
        };
        if self.mode is MVN {
            !v1
        } else {
            v1
        }
    }

    /// The exact register changes one poll produces.
    pub open spec fn spec_changes(self, station: ReservationStation) -> Seq<(u8, u32)> {
        let val = self.spec_value(station);
        if self.update_flags {
            seq![(self.dest, val), (CPSR, spec_nz(station.value_at(CPSR), val))]
        } else {
            seq![(self.dest, val)]
        }
    }

    /// Move the operand value; always completes in one cycle.
    pub fn poll(&self, station: &ReservationStation) -> (r: PollResult)
        requires
            self.wf(),
            station.wf(),
            self.src matches Operand::Reg(reg) ==> station.is_ready_at(reg),
            self.update_flags ==> station.is_ready_at(CPSR),
        ensures
            r matches PollResult::Complete(changes) && changes@ == self.spec_changes(*station),
    {
        let mut val = station.value_of_flexible_second_operand(&self.src);
        if self.dest == PC {
            val = val | 1;
        }
        if let Mode::MVN = self.mode {
            val = !val;
        }
        let mut changes: Vec<(u8, u32)> = Vec::new();
        changes.push((self.dest, val));
        if self.update_flags {
            let mut cpsr = station.read_by_id(CPSR);
            ConditionFlag::N.write_flag(&mut cpsr, val >= 0x8000_0000);
            ConditionFlag::Z.write_flag(&mut cpsr, val == 0);
            changes.push((CPSR, cpsr));
        }
        proof {
            assert(changes@ =~= self.spec_changes(*station));
        }
        PollResult::Complete(changes)
    }
}

} // verus!
