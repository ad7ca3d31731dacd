//! Addition and subtraction with optional flag update: ADD, ADC, SUB, SBC
//! and RSB.

use crate::cpu_state::station::ReservationStation;
use crate::instructions::add_wrap;
use crate::instructions::as_signed;
use crate::instructions::signed_of;
use crate::instructions::signed_overflow;
use crate::instructions::spec_nzcv;
use crate::instructions::sub_wrap;
use crate::instructions::wrap_to_i32;
use crate::instructions::wrap_to_u32;
use crate::instructions::Operand;
use crate::instructions::PollResult;
use crate::registers::spec_read_flag;
use crate::registers::ConditionFlag;
use crate::registers::CPSR;
use crate::registers::NUM_REGISTERS;
use vstd::prelude::*;

verus! {

/// Which arithmetic operation the instruction performs.
#[derive(Clone, Copy, Debug, PartialEq, Eq, Structural)]
pub enum Mode {
    ADC,
    ADD,
    RSB,
    SBC,
    SUB,
}

#[derive(Clone, Copy, Debug, PartialEq, Eq, Structural)]
pub struct ADD {
    pub update_flags: bool,
    pub mode: Mode,
    pub dest: u8,
    pub first: u8,
    pub second: Operand,
}

impl ADD {
    pub fn new(dest: u8, first: u8, second: Operand, update_flags: bool, mode: Mode) -> (r: ADD)
        ensures
            r == (ADD { update_flags, mode, dest, first, second }),
    {
        ADD { update_flags, mode, dest, first, second }
    }

    /// The carry flag always feeds in: ADC and SBC read it, and every mode
    /// rebuilds CPSR from it when flags are updated.
    pub open spec fn sources(self) -> Set<u8> {
        set![self.first, CPSR].union(self.second.regs())
    }

    pub open spec fn dests(self) -> Set<u8> {
        if self.update_flags {
            set![self.dest, CPSR]
        } else {
            set![self.dest]
        }
    }

    pub open spec fn wf(self) -> bool {
        self.dest < NUM_REGISTERS as u8 && self.first < NUM_REGISTERS as u8 && self.second.wf()
    }

    /// The result, carry and overflow of the arithmetic, from the two
    /// operand values and the incoming carry flag. ARM represents a borrow
    /// as an inverted carry.
    pub open spec fn spec_alu(mode: Mode, a: u32, b: u32, carry_in: bool) -> (u32, bool, bool) {
        match mode {
            Mode::ADD => (
                add_wrap(a, b),
                a + b > u32::MAX,
                signed_overflow(as_signed(a) + as_signed(b)),
            ),
            Mode::ADC => {
                let c: int = if carry_in {
                    1
                } else {
                    0
                };
                (
                    wrap_to_u32(a + b + c),
                    a + b + c > u32::MAX,
                    signed_overflow(as_signed(a) + as_signed(b)) || signed_overflow(
                        wrap_to_i32(as_signed(a) + as_signed(b)) + c,
                    ),
                )
            },
            Mode::SUB => (sub_wrap(a, b), a >= b, signed_overflow(as_signed(a) - as_signed(b))),
            Mode::RSB => (sub_wrap(b, a), b >= a, signed_overflow(as_signed(b) - as_signed(a))),
            Mode::SBC => {
                let borrow: int = if carry_in {
                    0
                } else {
                    1
                };
                (
                    wrap_to_u32(a - b - borrow),
                    a >= b + borrow,
                    signed_overflow(as_signed(a) - as_signed(b)) || signed_overflow(
                        wrap_to_i32(as_signed(a) - as_signed(b)) - borrow,
                    ),
                )
            },
        }
    }

    /// The exact register changes one poll produces.
    pub open spec fn spec_changes(self, station: ReservationStation) -> Seq<(u8, u32)> {
        let a = station.value_at(self.first);
        let b = station.spec_operand_value(self.second);
        let cpsr = station.value_at(CPSR);
        let (result, carry, overflow) = Self::spec_alu(
            self.mode,
            a,
            b,
            spec_read_flag(ConditionFlag::C, cpsr),
        );
        if self.update_flags {
            seq![(self.dest, result), (CPSR, spec_nzcv(cpsr, result, carry, overflow))]
        } else {
            seq![(self.dest, result)]
        }
    }

    /// Compute the arithmetic against the operand snapshot; always
    /// completes in one cycle.
    pub fn poll(&self, station: &ReservationStation) -> (r: PollResult)
        requires
            self.wf(),
            station.wf(),
            station.is_ready_at(self.first),
            station.is_ready_at(CPSR),
            self.second matches Operand::Reg(reg) ==> station.is_ready_at(reg),
        ensures
            r matches PollResult::Complete(changes) && changes@ == self.spec_changes(*station),
    {
        let first_val = station.read_by_id(self.first);
        let sec_val = station.value_of_flexible_second_operand(&self.second);
        let mut cpsr = station.read_by_id(CPSR);
        let carry_in = ConditionFlag::C.read_flag(cpsr);

        let a64 = first_val as u64;
        let b64 = sec_val as u64;
        let a_s = signed_of(first_val);
        let b_s = signed_of(sec_val);

        let (result, carry, overflow): (u32, bool, bool) = match self.mode {
            Mode::ADD => {
                let sum = a64 + b64;
                let result = if sum > 0xFFFF_FFFF {
                    (sum - 0x1_0000_0000) as u32
                } else {
                    sum as u32
                };
                let ss = a_s + b_s;
                (result, sum > 0xFFFF_FFFF, ss > i32::MAX as i64 || ss < i32::MIN as i64)
            },
            Mode::ADC => {
                let c: u64 = if carry_in {
                    1
                } else {
                    0
                };
                let sum = a64 + b64 + c;
                let result = if sum > 0xFFFF_FFFF {
                    (sum - 0x1_0000_0000) as u32
                } else {
                    sum as u32
                };
                let ss = a_s + b_s;
                let ov1 = ss > i32::MAX as i64 || ss < i32::MIN as i64;
                let rs = if ss > i32::MAX as i64 {
                    ss - 0x1_0000_0000
                } else if ss < i32::MIN as i64 {
                    ss + 0x1_0000_0000
                } else {
                    ss
                };
                let ss2 = rs + c as i64;
                let ov2 = ss2 > i32::MAX as i64 || ss2 < i32::MIN as i64;
                (result, sum > 0xFFFF_FFFF, ov1 || ov2)
            },
            Mode::SUB => {
                let result = if first_val >= sec_val {
                    first_val - sec_val
                } else {
                    ((a64 + 0x1_0000_0000) - b64) as u32
                };
                let ss = a_s - b_s;
                (
                    result,
                    first_val >= sec_val,
                    ss > i32::MAX as i64 || ss < i32::MIN as i64,
                )
            },
            Mode::RSB => {
                let result = if sec_val >= first_val {
                    sec_val - first_val
                } else {
                    ((b64 + 0x1_0000_0000) - a64) as u32
                };
                let ss = b_s - a_s;
                (
                    result,
                    sec_val >= first_val,
                    ss > i32::MAX as i64 || ss < i32::MIN as i64,
                )
            },
            Mode::SBC => {
                let borrow: u64 = if carry_in {
                    0
                } else {
                    1
                };
                let result = if a64 >= b64 + borrow {
                    (a64 - b64 - borrow) as u32
                } else {
                    ((a64 + 0x1_0000_0000) - b64 - borrow) as u32
                };
                let ss = a_s - b_s;
                let ov1 = ss > i32::MAX as i64 || ss < i32::MIN as i64;
                let rs = if ss > i32::MAX as i64 {
                    ss - 0x1_0000_0000
                } else if ss < i32::MIN as i64 {
                    ss + 0x1_0000_0000
                } else {
                    ss
                };
                let ss2 = rs - borrow as i64;
                let ov2 = ss2 > i32::MAX as i64 || ss2 < i32::MIN as i64;
                (result, a64 >= b64 + borrow, ov1 || ov2)
            },
        };

        let mut reg_changes: Vec<(u8, u32)> = Vec::new();
        reg_changes.push((self.dest, result));
        if self.update_flags {
            ConditionFlag::N.write_flag(&mut cpsr, result >= 0x8000_0000);
            ConditionFlag::Z.write_flag(&mut cpsr, result == 0);
            ConditionFlag::C.write_flag(&mut cpsr, carry);
            ConditionFlag::V.write_flag(&mut cpsr, overflow);
            reg_changes.push((CPSR, cpsr));
        }
        proof {
            assert(reg_changes@ =~= self.spec_changes(*station));
        }
        PollResult::Complete(reg_changes)
    }
}

} // verus!
