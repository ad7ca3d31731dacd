//! LDR and its sized variants: load a word, halfword or byte, with an
//! extra cycle of memory latency.

use crate::cpu_state::station::ReservationStation;
use crate::instructions::Fault;
use crate::instructions::Instruction;
use crate::instructions::MemOperand;
use crate::instructions::PollResult;
use crate::memory::Memory;
use crate::memory::MemoryAccessError;
use crate::registers::NUM_REGISTERS;
use crate::registers::PC;
use vstd::prelude::*;

verus! {

/// How much is loaded and how it is extended to 32 bits.
#[derive(Clone, Copy, Debug, PartialEq, Eq, Structural)]
pub enum Mode {
    Word,
    HalfWord,
    Byte,
    SignedHalfWord,
    SignedByte,
}

#[derive(Clone, Copy, Debug, PartialEq, Eq, Structural)]
pub struct LDR {
    pub reg: u8,
    pub mem: MemOperand,
    pub mode: Mode,
    /// Whether the extra latency cycle has elapsed.
    pub waited: bool,
}

impl LDR {
    pub fn new(reg: u8, mem: MemOperand, mode: Mode) -> (r: LDR)
        ensures
            r == (LDR { reg, mem, mode, waited: false }),
    {
        LDR { reg, mem, mode, waited: false }
    }

    pub open spec fn sources(self) -> Set<u8> {
        self.mem.regs()
    }

    pub open spec fn dests(self) -> Set<u8> {
        set![self.reg]
    }

    pub open spec fn wf(self) -> bool {
        &&& self.reg < NUM_REGISTERS as u8
        &&& self.mem.wf()
        &&& (self.mem.scale == 1 || self.mem.scale == -1)
    }

    /// How many bytes the load reads.
    pub open spec fn spec_size(self) -> u32 {
        match self.mode {
            Mode::Word => 4,
            Mode::HalfWord => 2,
            Mode::Byte => 1,
            Mode::SignedHalfWord => 2,
            Mode::SignedByte => 1,
        }
    }

    /// The loaded value, extended to 32 bits according to the mode.
    pub open spec fn spec_loaded(self, memory: Memory, addr: u32) -> u32 {
        match self.mode {
            Mode::Word => memory.word_at(addr),
            Mode::HalfWord => memory.halfword_at(addr) as u32,
            Mode::Byte => memory.byte_at(addr) as u32,
            Mode::SignedHalfWord => {
                let h = memory.halfword_at(addr);
                if h >= 0x8000 {
                    (h + 0xFFFF_0000) as u32
                } else {
                    h as u32
                }
            },
            Mode::SignedByte => {
                let b = memory.byte_at(addr);
                if b >= 0x80 {
                    (b + 0xFFFF_FF00) as u32
                } else {
                    b as u32
                }
            },
        }
    }

    /// Wait one latency cycle, then load from the computed address:
    /// complete with the loaded value when the whole access is mapped,
    /// fault otherwise.
    pub fn poll(&self, station: &ReservationStation, memory: &Memory) -> (r: PollResult)
        requires
            self.wf(),
            station.wf(),
            memory.wf(),
            station.is_ready_at(self.mem.base),
            self.mem.base == PC ==> station.is_ready_at(PC),
            self.mem.index matches Some(i) ==> station.is_ready_at(i),
        ensures
            !self.waited ==> (r matches PollResult::Again(n) && n == Instruction::Ldr(
                LDR { waited: true, ..*self },
            )),
            self.waited ==> {
                let addr = station.spec_mem_address(self.mem);
                &&& memory.range_mapped(addr, self.spec_size()) ==> (r
                    matches PollResult::Complete(changes) && changes@ == seq![
                    (self.reg, self.spec_loaded(*memory, addr)),
                ])
                &&& !memory.range_mapped(addr, self.spec_size()) ==> (r matches PollResult::Fault(
                    Fault::MemoryAccess(MemoryAccessError::BadAddress(_)),
                ))
            },
    {
        if !self.waited {
            return PollResult::Again(
                Instruction::Ldr(LDR { reg: self.reg, mem: self.mem, mode: self.mode, waited: true }),
            );
        }
        let mem_addr = station.eval_ldr_str_op_mem(&self.mem);
        let size: u32 = match self.mode {
            Mode::Word => 4,
            Mode::HalfWord => 2,
            Mode::Byte => 1,
            Mode::SignedHalfWord => 2,
            Mode::SignedByte => 1,
        };
        if mem_addr as u64 + size as u64 > 0x1_0000_0000u64 {
            return PollResult::Fault(
                Fault::MemoryAccess(MemoryAccessError::BadAddress(mem_addr)),
            );
        }
        let val_at_addr: u32 = match self.mode {
            Mode::Word => {
                match memory.read_u32(mem_addr) {
                    Ok(v) => v,
                    Err(e) => {
                        return PollResult::Fault(Fault::MemoryAccess(e));
                    },
                }
            },
            Mode::HalfWord => {
                match memory.read_u16(mem_addr) {
                    Ok(v) => v as u32,
                    Err(e) => {
                        return PollResult::Fault(Fault::MemoryAccess(e));
                    },
                }
            },
            Mode::Byte => {
                match memory.read_byte(mem_addr) {
                    Ok(v) => v as u32,
                    Err(e) => {
                        return PollResult::Fault(Fault::MemoryAccess(e));
                    },
                }
            },
            Mode::SignedHalfWord => {
                match memory.read_u16(mem_addr) {
                    Ok(v) => if v >= 0x8000 {
                        v as u32 + 0xFFFF_0000
                    } else {
                        v as u32
                    },
                    Err(e) => {
                        return PollResult::Fault(Fault::MemoryAccess(e));
                    },
                }
            },
            Mode::SignedByte => {
                match memory.read_byte(mem_addr) {
                    Ok(v) => if v >= 0x80 {
                        v as u32 + 0xFFFF_FF00
                    } else {
                        v as u32
                    },
                    Err(e) => {
                        return PollResult::Fault(Fault::MemoryAccess(e));
                    },
                }
            },
        };
        let mut changes: Vec<(u8, u32)> = Vec::new();
        changes.push((self.reg, val_at_addr));
        proof {
            assert(changes@ =~= seq![
                (self.reg, self.spec_loaded(*memory, station.spec_mem_address(self.mem))),
            ]);
        }
        PollResult::Complete(changes)
    }
}

} // verus!
