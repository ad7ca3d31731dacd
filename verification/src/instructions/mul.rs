//! MUL: multiply, with a fixed extra latency before the result appears.

use crate::cpu_state::station::ReservationStation;
use crate::instructions::as_signed;
use crate::instructions::signed_overflow;
use crate::instructions::spec_nzcv;
use crate::instructions::Instruction;
use crate::instructions::PollResult;
use crate::registers::ConditionFlag;
use crate::registers::CPSR;
use crate::registers::NUM_REGISTERS;
use vstd::prelude::*;

verus! {

/// How many extra cycles a multiply takes before completing.
pub const EXTRA_CYCLES: u8 = 4;

#[derive(Clone, Copy, Debug, PartialEq, Eq, Structural)]
pub struct MUL {
    pub dest: u8,
    pub val: u8,
    /// How many latency cycles have elapsed so far.
    pub cycles: u8,
}

impl MUL {
    pub fn new(dest: u8, val: u8) -> (r: MUL)
        ensures
            r == (MUL { dest, val, cycles: 0u8 }),
    {
        MUL { dest, val, cycles: 0 }
    }

    pub open spec fn sources(self) -> Set<u8> {
        set![self.val, self.dest, CPSR]
    }

    pub open spec fn dests(self) -> Set<u8> {
        set![self.dest, CPSR]
    }

    pub open spec fn wf(self) -> bool {
        self.dest < NUM_REGISTERS as u8 && self.val < NUM_REGISTERS as u8
    }

    /// The exact register changes of the completing poll: the truncated
    /// product, and CPSR rebuilt with carry marking unsigned overflow and
    /// the overflow flag marking signed overflow.
    pub open spec fn spec_changes(self, station: ReservationStation) -> Seq<(u8, u32)> {
        let a = station.value_at(self.dest);
        let b = station.value_at(self.val);
        let cpsr = station.value_at(CPSR);
        let result = ((a * b) % 0x1_0000_0000) as u32;
        let unsigned_overflow = a * b > u32::MAX;
        let overflow = signed_overflow(as_signed(a) * as_signed(b));
        seq![
            (self.dest, result),
            (CPSR, spec_nzcv(cpsr, result, unsigned_overflow, overflow)),
        ]
    }

    /// Wait out the multiplier latency, then complete with the product.
    pub fn poll(&self, station: &ReservationStation) -> (r: PollResult)
        requires
            self.wf(),
            station.wf(),
            station.is_ready_at(self.dest),
            station.is_ready_at(self.val),
            station.is_ready_at(CPSR),
        ensures
            self.cycles < EXTRA_CYCLES ==> (r matches PollResult::Again(n) && n == Instruction::Mul(
                MUL { cycles: (self.cycles + 1) as u8, ..*self },
            )),
            self.cycles >= EXTRA_CYCLES ==> (r matches PollResult::Complete(changes) && changes@
                == self.spec_changes(*station)),
    {
        if self.cycles < EXTRA_CYCLES {
            return PollResult::Again(
                Instruction::Mul(MUL { dest: self.dest, val: self.val, cycles: self.cycles + 1 }),
            );
        }
        let dest_val = station.read_by_id(self.dest);
        let sec_val = station.read_by_id(self.val);
        proof {
            assert(dest_val as u64 * sec_val as u64 <= 0xFFFF_FFFFu64 * 0xFFFF_FFFFu64)
                by (nonlinear_arith)
                requires
                    dest_val as u64 <= 0xFFFF_FFFFu64 && sec_val as u64 <= 0xFFFF_FFFFu64,
            ;
            assert(-0x8000_0000i64 * 0x8000_0000i64 <= as_signed(dest_val) * as_signed(sec_val)
                <= 0x8000_0000i64 * 0x8000_0000i64) by (nonlinear_arith)
                requires
                    -0x8000_0000 <= as_signed(dest_val) <= 0x7FFF_FFFF,
                    -0x8000_0000 <= as_signed(sec_val) <= 0x7FFF_FFFF,
            ;
        }
        let prod: u64 = dest_val as u64 * sec_val as u64;
        let result: u32 = (prod % 0x1_0000_0000) as u32;
        let unsigned_overflow = prod > 0xFFFF_FFFF;
        let a_s = crate::instructions::signed_of(dest_val);
        let b_s = crate::instructions::signed_of(sec_val);
        let sprod: i64 = a_s * b_s;
        let overflow = sprod > i32::MAX as i64 || sprod < i32::MIN as i64;
        let mut cpsr = station.read_by_id(CPSR);
        ConditionFlag::N.write_flag(&mut cpsr, result >= 0x8000_0000);
        ConditionFlag::Z.write_flag(&mut cpsr, result == 0);
        ConditionFlag::C.write_flag(&mut cpsr, unsigned_overflow);
        ConditionFlag::V.write_flag(&mut cpsr, overflow);
        let mut changes: Vec<(u8, u32)> = Vec::new();
        changes.push((self.dest, result));
        changes.push((CPSR, cpsr));
        proof {
            assert(changes@ =~= self.spec_changes(*station));
        }
        PollResult::Complete(changes)
    }
}

} // verus!
