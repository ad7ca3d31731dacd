//! The fetch stage: read the next instruction's bytes from memory,
//! classifying the Thumb encoding as 16- or 32-bit.

use crate::cpu_state::CpuState;
use crate::instructions::add_wrap;
use crate::memory::Memory;
use vstd::prelude::*;

verus! {

/// An instruction fetched but not yet decoded.
#[derive(Clone, Debug)]
pub struct FetchedInstruction {
    /// The address it was fetched from, with the Thumb bit set.
    pub address: u32,
    /// Its 2 or 4 bytes.
    pub bytes: Vec<u8>,
}

impl FetchedInstruction {
    pub open spec fn wf(self) -> bool {
        self.bytes@.len() == 2 || self.bytes@.len() == 4
    }
}

/// What the fetch stage hands to the apply step.
pub struct FetchResults {
    /// Where the following instruction starts.
    pub next_addr: u32,
    /// The fetched bytes and their address.
    pub instruction: FetchedInstruction,
}

/// The Thumb instruction stream is a sequence of halfword-aligned
/// halfwords. If bits [15:11] of a halfword are 0b11101, 0b11110 or
/// 0b11111, it is the first half of a 32-bit instruction; otherwise it is
/// a complete 16-bit instruction. `b1` is the halfword's high byte.
pub open spec fn spec_thumb_length(b1: u8) -> u32 {
    if b1 >> 3 == 0x1D || b1 >> 3 == 0x1E || b1 >> 3 == 0x1F {
        4
    } else {
        2
    }
}

/// The byte length of the Thumb instruction whose first halfword has low
/// byte `b0` and high byte `b1`.
pub fn thumb_instruction_length(b0: u8, b1: u8) -> (r: u32)
    ensures
        r == spec_thumb_length(b1),
        r == 2 || r == 4,
{
    let bits_15_11 = b1 >> 3;
    if bits_15_11 == 0x1D || bits_15_11 == 0x1E || bits_15_11 == 0x1F {
        4
    } else {
        2
    }
}

impl CpuState {
    /// Read the next instruction from memory. Produces nothing when there
    /// is no room downstream, or when the (possibly speculative) read does
    /// not hit four mapped bytes.
    pub fn fetch(&self, memory: &Memory) -> (r: Option<FetchResults>)
        requires
            self.wf(),
            memory.wf(),
            self.next_instr_addr & 1 == 1,
        ensures
            ({
                let aligned = self.next_instr_addr & 0xFFFF_FFFEu32;
                let no_room = self.fetched_instruction is Some && self.decoded_instructions@.len()
                    >= crate::cpu_state::DECODED_QUEUE_CAPACITY;
                &&& (no_room || !memory.range_mapped(aligned, 4)) ==> r is None
                &&& (!no_room && memory.range_mapped(aligned, 4)) ==> {
                    let len = spec_thumb_length(memory.byte_at((aligned + 1) as u32));
                    &&& r matches Some(fr)
                    &&& fr.next_addr == add_wrap(self.next_instr_addr, len)
                    &&& fr.next_addr & 1 == 1
                    &&& fr.instruction.address == self.next_instr_addr
                    &&& fr.instruction.bytes@.len() == len
                    &&& forall|i: int|
                        0 <= i < len ==> fr.instruction.bytes@[i] == memory.byte_at(
                            (aligned + i) as u32,
                        )
                    &&& fr.instruction.wf()
                }
            }),
    {
        if self.fetched_instruction.is_some() && !self.decoded_space() {
            return None;
        }
        let nia = self.next_instr_addr;
        let addr = nia & 0xFFFF_FFFE;
        proof {
            assert(addr <= nia && nia <= addr + 1) by (bit_vector)
                requires
                    addr == nia & 0xFFFF_FFFEu32,
            ;
        }
        if addr >= 0xFFFF_FFFD {
            // the four bytes would run past the end of the address space,
            // so some of them are necessarily unmapped
            proof {
                assert(!memory.range_mapped(addr, 4));
            }
            return None;
        }
        let code = match memory.read_bytes(addr, 4) {
            Ok(code) => code,
            Err(_) => {
                // The read may fail while speculating past an unresolved
                // branch; fetch simply produces nothing this cycle.
                return None;
            },
        };
        let instr_len = thumb_instruction_length(code[0], code[1]);
        let mut bytes: Vec<u8> = Vec::new();
        bytes.push(code[0]);
        bytes.push(code[1]);
        if instr_len == 4 {
            bytes.push(code[2]);
            bytes.push(code[3]);
        }
        let next_addr = if self.next_instr_addr >= 0xFFFF_FFFC && instr_len == 4 {
            self.next_instr_addr - 0xFFFF_FFFC
        } else if self.next_instr_addr >= 0xFFFF_FFFE && instr_len == 2 {
            self.next_instr_addr - 0xFFFF_FFFE
        } else {
            self.next_instr_addr + instr_len
        };
        proof {
            assert(next_addr & 1 == 1) by (bit_vector)
                requires
                    nia & 1 == 1,
                    instr_len == 2 || instr_len == 4,
                    next_addr == (if nia >= 0xFFFF_FFFCu32 && instr_len == 4 {
                        (nia - 0xFFFF_FFFCu32) as u32
                    } else if nia >= 0xFFFF_FFFEu32 && instr_len == 2 {
                        (nia - 0xFFFF_FFFEu32) as u32
                    } else {
                        (nia + instr_len) as u32
                    }),
            ;
        }
        Some(
            FetchResults {
                next_addr,
                instruction: FetchedInstruction { address: self.next_instr_addr, bytes },
            },
        )
    }
}

} // verus!
