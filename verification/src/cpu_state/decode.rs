//! The decode stage: turns fetched bytes into a `DecodedInstruction` by way
//! of the external disassembler, falling back to an inert placeholder when
//! speculative bytes do not decode.

use crate::cpu_state::CpuState;
use crate::cpu_state::DECODED_QUEUE_CAPACITY;
use crate::disasm::disasm_of;
use crate::disasm::Decoder;
use crate::instructions::decode_instruction;
use crate::instructions::spec_decode_post;
use crate::instructions::Instruction;
use crate::instructions::InvalidKind;
use crate::registers::spec_condition_of;
use crate::registers::ConditionCode;
use vstd::prelude::*;
use vstd::string::StringExecFns;

verus! {

/// A decoded instruction: the operation itself, its condition, its printed
/// disassembly, and where it came from. Owned by the decode queue and then
/// by exactly one reservation station until retired. `imp` is replaced by
/// the continuation a multi-cycle `poll` hands back; everything else never
/// changes after decode.
#[derive(Clone, Debug)]
pub struct DecodedInstruction {
    pub imp: Instruction,
    pub cc: ConditionCode,
    pub string: String,
    /// The instruction's size in bytes: 2 or 4.
    pub length: u32,
    /// The address the instruction was fetched from (Thumb bit set).
    pub address: u32,
}

impl DecodedInstruction {
    pub open spec fn wf(self) -> bool {
        &&& self.imp.wf()
        &&& 2 <= self.length <= 4
    }
}

/// What the decode stage hands to the apply step.
pub struct DecodeResults {
    pub instr: DecodedInstruction,
}

impl CpuState {
    /// Decode the fetched instruction, if there is one and the decoded
    /// queue has room for the result. Bytes that the disassembler cannot
    /// decode (possible under speculative fetch) become an inert
    /// placeholder that is fatal only if it actually executes; a decodable
    /// mnemonic outside the implemented subset becomes a placeholder
    /// carrying the typed decode error.
    pub fn decode(&self, decoder: &Decoder) -> (r: Option<DecodeResults>)
        requires
            self.wf(),
        ensures
            (self.decoded_instructions@.len() >= DECODED_QUEUE_CAPACITY
                || self.fetched_instruction is None) <==> r is None,
            self.fetched_instruction is Some && self.decoded_instructions@.len()
                < DECODED_QUEUE_CAPACITY ==> (r matches Some(dr) && {
                let f = self.fetched_instruction.unwrap();
                let d = dr.instr;
                &&& d.wf()
                &&& d.address == f.address
                &&& d.length == f.bytes@.len()
                &&& match disasm_of(f.bytes@) {
                    None => d.imp matches Instruction::Invalid(InvalidKind::BadData) && d.cc
                        == ConditionCode::Invalid && d.string@ == "Invalid"@,
                    Some(raw) => {
                        &&& d.cc == spec_condition_of(raw.cc)
                        &&& d.string@ == raw.text@
                        &&& (spec_decode_post(raw, Ok(d.imp)) || (d.imp matches
                        Instruction::Invalid(InvalidKind::FailedDecode(e)) && spec_decode_post(
                            raw,
                            Err(e),
                        )))
                    },
                }
            }),
    {
        if !self.decoded_space() {
            return None;
        }
        let fetched = match &self.fetched_instruction {
            Some(f) => f,
            None => {
                return None;
            },
        };
        let instr = match decoder.disasm_first(&fetched.bytes) {
            None => DecodedInstruction {
                imp: Instruction::Invalid(InvalidKind::BadData),
                cc: ConditionCode::Invalid,
                string: String::from_str("Invalid"),
                length: fetched.bytes.len() as u32,
                address: fetched.address,
            },
            Some(raw) => {
                let imp = match decode_instruction(&raw) {
                    Ok(decoded) => decoded,
                    Err(e) => Instruction::Invalid(InvalidKind::FailedDecode(e)),
                };
                DecodedInstruction {
                    imp,
                    cc: ConditionCode::from_raw(raw.cc),
                    string: raw.text,
                    length: fetched.bytes.len() as u32,
                    address: fetched.address,
                }
            },
        };
        Some(DecodeResults { instr })
    }
}

} // verus!
