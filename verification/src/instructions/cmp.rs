//! CMP and CMN: compare by subtraction or addition, writing only the flags.

use crate::cpu_state::station::ReservationStation;
use crate::instructions::add::Mode as AluMode;
use crate::instructions::ADD;
use crate::instructions::spec_nzcv;
use crate::instructions::Operand;
use crate::instructions::PollResult;
use crate::registers::ConditionFlag;
use crate::registers::CPSR;
use crate::registers::NUM_REGISTERS;
use vstd::prelude::*;

verus! {

#[derive(Clone, Copy, Debug, PartialEq, Eq, Structural)]
pub enum Mode {
    CMP,
    CMN,
}

#[derive(Clone, Copy, Debug, PartialEq, Eq, Structural)]
pub struct CMP {
    pub mode: Mode,
    pub first: u8,
    pub second: Operand,
}

impl CMP {
    pub fn new(first: u8, second: Operand, mode: Mode) -> (r: CMP)
        ensures
            r == (CMP { mode, first, second }),
    {
        CMP { mode, first, second }
    }

    pub open spec fn sources(self) -> Set<u8> {
        set![self.first, CPSR].union(self.second.regs())
    }

    pub open spec fn dests(self) -> Set<u8> {
        set![CPSR]
    }

    pub open spec fn wf(self) -> bool {
        self.first < NUM_REGISTERS as u8 && self.second.wf()
    }

    /// The exact register changes one poll produces: CPSR with all four
    /// flags rebuilt from the comparison. CMP compares by subtraction,
    /// CMN by addition; the result value itself is discarded.
    pub open spec fn spec_changes(self, station: ReservationStation) -> Seq<(u8, u32)> {
        let a = station.value_at(self.first);
        let b = station.spec_operand_value(self.second);
        let cpsr = station.value_at(CPSR);
        let alu = ADD::spec_alu(
            if self.mode is CMN {
                AluMode::ADD
            } else {
                AluMode::SUB
            },
            a,
            b,
            false,
        );
        seq![(CPSR, spec_nzcv(cpsr, alu.0, alu.1, alu.2))]
    }

    /// Compare the operands and rebuild the flags; always completes in one
    /// cycle.
    pub fn poll(&self, station: &ReservationStation) -> (r: PollResult)
        requires
            self.wf(),
            station.wf(),
            station.is_ready_at(self.first),
            station.is_ready_at(CPSR),
            self.second matches Operand::Reg(reg) ==> station.is_ready_at(reg),
        ensures
            r matches PollResult::Complete(changes) && changes@ == self.spec_changes(*station),
    {
        let first_val = station.read_by_id(self.first);
        let sec_val = station.value_of_flexible_second_operand(&self.second);
        let mut cpsr = station.read_by_id(CPSR);

        let (result, carry, overflow): (u32, bool, bool) = match self.mode {
            Mode::CMN => {
                let sum = first_val as u64 + sec_val as u64;
                let result = if sum > 0xFFFF_FFFF {
                    (sum - 0x1_0000_0000) as u32
                } else {
                    sum as u32
                };
                let ss = crate::instructions::signed_of(first_val)
                    + crate::instructions::signed_of(sec_val);
                (result, sum > 0xFFFF_FFFF, ss > i32::MAX as i64 || ss < i32::MIN as i64)
            },
            Mode::CMP => {
                let result = if first_val >= sec_val {
                    first_val - sec_val
                } else {
                    ((first_val as u64 + 0x1_0000_0000) - sec_val as u64) as u32
                };
                let ss = crate::instructions::signed_of(first_val)
                    - crate::instructions::signed_of(sec_val);
                (
                    result,
                    first_val >= sec_val,
                    ss > i32::MAX as i64 || ss < i32::MIN as i64,
                )
            },
        };

        ConditionFlag::N.write_flag(&mut cpsr, result >= 0x8000_0000);
        ConditionFlag::Z.write_flag(&mut cpsr, result == 0);
        ConditionFlag::C.write_flag(&mut cpsr, carry);
        ConditionFlag::V.write_flag(&mut cpsr, overflow);
        let mut changes: Vec<(u8, u32)> = Vec::new();
        changes.push((CPSR, cpsr));
        proof {
            assert(changes@ =~= self.spec_changes(*station));
        }
        PollResult::Complete(changes)
    }
}

} // verus!
