//! STR and its sized variants: store a word, halfword or byte, with an
//! extra cycle of memory latency. Always a hazard: the store is a side
//! effect that must not be reordered around.

use crate::cpu_state::station::ReservationStation;
use crate::instructions::le_byte;
use crate::instructions::Fault;
use crate::instructions::Instruction;
use crate::instructions::MemOperand;
use crate::instructions::PollResult;
use crate::memory::Memory;
use crate::memory::MemoryAccessError;
use crate::registers::NUM_REGISTERS;
use crate::registers::PC;
use vstd::prelude::*;

verus! {

#[derive(Clone, Copy, Debug, PartialEq, Eq, Structural)]
pub enum Mode {
    Word,
    HalfWord,
    Byte,
}

#[derive(Clone, Copy, Debug, PartialEq, Eq, Structural)]
pub struct STR {
    pub reg: u8,
    pub mem: MemOperand,
    pub mode: Mode,
    /// Whether the extra latency cycle has elapsed.
    pub waited: bool,
}

impl STR {
    pub fn new(reg: u8, mem: MemOperand, mode: Mode) -> (r: STR)
        ensures
            r == (STR { reg, mem, mode, waited: false }),
    {
        STR { reg, mem, mode, waited: false }
    }

    pub open spec fn sources(self) -> Set<u8> {
        self.mem.regs().insert(self.reg)
    }

    pub open spec fn dests(self) -> Set<u8> {
        Set::empty()
    }

    pub open spec fn wf(self) -> bool {
        &&& self.reg < NUM_REGISTERS as u8
        &&& self.mem.wf()
        &&& (self.mem.scale == 1 || self.mem.scale == -1)
    }

    /// How many bytes the store writes.
    pub open spec fn spec_size(self) -> u32 {
        match self.mode {
            Mode::Word => 4,
            Mode::HalfWord => 2,
            Mode::Byte => 1,
        }
    }

    /// Wait one latency cycle, then store the register's low bytes,
    /// little-endian, at the computed address: complete with no register
    /// changes when the whole access is writable, fault otherwise.
    pub fn poll(&self, station: &ReservationStation, memory: &mut Memory) -> (r: PollResult)
        requires
            self.wf(),
            station.wf(),
            old(memory).wf(),
            station.is_ready_at(self.reg),
            station.is_ready_at(self.mem.base),
            self.mem.base == PC ==> station.is_ready_at(PC),
            self.mem.index matches Some(i) ==> station.is_ready_at(i),
        ensures
            final(memory).wf(),
            forall|a: u32| #[trigger] final(memory).mapped(a) == old(memory).mapped(a),
            forall|a: u32| #[trigger] final(memory).writable(a) == old(memory).writable(a),
            !self.waited ==> (r matches PollResult::Again(n) && n == Instruction::Str(
                STR { waited: true, ..*self },
            ) && *final(memory) == *old(memory)),
            self.waited ==> {
                let addr = station.spec_mem_address(self.mem);
                let value = station.value_at(self.reg);
                &&& old(memory).range_writable(addr, self.spec_size()) ==> {
                    &&& r matches PollResult::Complete(changes) && changes@.len() == 0
                    &&& forall|i: int|
                        0 <= i < self.spec_size() ==> final(memory).byte_at((addr + i) as u32)
                            == le_byte(value, i)
                    &&& forall|a: u32|
                        old(memory).mapped(a) && !(addr <= a < addr + self.spec_size())
                            ==> #[trigger] final(memory).byte_at(a) == old(memory).byte_at(a)
                }
                &&& !old(memory).range_writable(addr, self.spec_size()) ==> (r
                    matches PollResult::Fault(Fault::MemoryAccess(_)))
            },
    {
        if !self.waited {
            return PollResult::Again(
                Instruction::Str(STR { reg: self.reg, mem: self.mem, mode: self.mode, waited: true }),
            );
        }
        let mem_addr = station.eval_ldr_str_op_mem(&self.mem);
        let reg_val = station.read_by_id(self.reg);
        let mut bytes: Vec<u8> = Vec::new();
        bytes.push((reg_val % 256) as u8);
        match self.mode {
            Mode::Byte => {},
            Mode::HalfWord => {
                bytes.push(((reg_val / 0x100) % 256) as u8);
            },
            Mode::Word => {
                bytes.push(((reg_val / 0x100) % 256) as u8);
                bytes.push(((reg_val / 0x10000) % 256) as u8);
                bytes.push(((reg_val / 0x1000000) % 256) as u8);
            },
        }
        proof {
            assert(forall|i: int|
                0 <= i < bytes@.len() ==> bytes@[i] == le_byte(reg_val, i));
        }
        if mem_addr as u64 + bytes.len() as u64 > 0x1_0000_0000u64 {
            return PollResult::Fault(
                Fault::MemoryAccess(MemoryAccessError::BadAddress(mem_addr)),
            );
        }
        match memory.write_bytes(mem_addr, bytes.as_slice()) {
            Ok(()) => {},
            Err(e) => {
                return PollResult::Fault(Fault::MemoryAccess(e));
            },
        }
        PollResult::Complete(Vec::new())
    }
}

} // verus!
