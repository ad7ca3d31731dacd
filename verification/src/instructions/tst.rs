//! TST: bitwise test, writing only N and Z.

use crate::cpu_state::station::ReservationStation;
use crate::instructions::spec_nz;
use crate::instructions::Operand;
use crate::instructions::PollResult;
use crate::registers::ConditionFlag;
use crate::registers::CPSR;
use crate::registers::NUM_REGISTERS;
use vstd::prelude::*;

verus! {

#[derive(Clone, Copy, Debug, PartialEq, Eq, Structural)]
pub struct TST {
    pub first: u8,
    pub second: Operand,
}

impl TST {
    pub fn new(first: u8, second: Operand) -> (r: TST)
        ensures
            r == (TST { first, second }),
    {
        TST { first, second }
    }

    pub open spec fn sources(self) -> Set<u8> {
        set![self.first, CPSR].union(self.second.regs())
    }

    pub open spec fn dests(self) -> Set<u8> {
        set![CPSR]
    }

    pub open spec fn wf(self) -> bool {
        self.first < NUM_REGISTERS as u8 && self.second.wf()
    }

    /// The exact register changes one poll produces: CPSR with N and Z
    /// rebuilt from the bitwise AND of the operands, which is discarded.
    pub open spec fn spec_changes(self, station: ReservationStation) -> Seq<(u8, u32)> {
        let result = station.value_at(self.first) & station.spec_operand_value(self.second);
        seq![(CPSR, spec_nz(station.value_at(CPSR), result))]
    }

    /// Test the operands; always completes in one cycle.
    pub fn poll(&self, station: &ReservationStation) -> (r: PollResult)
        requires
            self.wf(),
            station.wf(),
            station.is_ready_at(self.first),
            station.is_ready_at(CPSR),
            self.second matches Operand::Reg(reg) ==> station.is_ready_at(reg),
        ensures
            r matches PollResult::Complete(changes) && changes@ == self.spec_changes(*station),
    {
        let first_val = station.read_by_id(self.first);
        let sec_val = station.value_of_flexible_second_operand(&self.second);
        let result = first_val & sec_val;
        let mut cpsr = station.read_by_id(CPSR);
        ConditionFlag::N.write_flag(&mut cpsr, result >= 0x8000_0000);
        ConditionFlag::Z.write_flag(&mut cpsr, result == 0);
        let mut changes: Vec<(u8, u32)> = Vec::new();
        changes.push((CPSR, cpsr));
        proof {
            assert(changes@ =~= self.spec_changes(*station));
        }
        PollResult::Complete(changes)
    }
}

} // verus!
