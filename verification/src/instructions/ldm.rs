//! LDM: load multiple registers from ascending addresses, one per cycle,
//! with optional base-register writeback.

use crate::cpu_state::station::ReservationStation;
use crate::instructions::add_wrap;
use crate::instructions::changes_wf;
use crate::instructions::copy_changes;
use crate::instructions::copy_reg_list;
use crate::instructions::Fault;
use crate::instructions::Instruction;
use crate::instructions::PollResult;
use crate::memory::Memory;
use crate::memory::MemoryAccessError;
use crate::registers::NUM_REGISTERS;
use crate::registers::PC;
use vstd::prelude::*;

verus! {

#[derive(Clone, Debug)]
pub struct LDM {
    pub base_register: u8,
    /// Registers still to load, in list order.
    pub reg_list: Vec<u8>,
    /// Whether the final address is written back into the base register.
    pub writeback: bool,
    /// The running address; `None` until the first cycle reads the base.
    pub address: Option<u32>,
    /// Register changes accumulated so far.
    pub changes: Vec<(u8, u32)>,
}

impl LDM {
    pub fn new(base_register: u8, reg_list: Vec<u8>, writeback: bool) -> (r: LDM)
        ensures
            r.base_register == base_register,
            r.reg_list == reg_list,
            r.writeback == writeback,
            r.address is None,
            r.changes@ == Seq::<(u8, u32)>::empty(),
    {
        LDM { base_register, reg_list, writeback, address: None, changes: Vec::new() }
    }

    pub open spec fn sources(self) -> Set<u8> {
        set![self.base_register]
    }

    pub open spec fn dests(self) -> Set<u8> {
        if self.writeback {
            self.reg_list@.to_set().insert(self.base_register)
        } else {
            self.reg_list@.to_set()
        }
    }

    /// The Thumb encoding of LDM cannot name the program counter, neither
    /// as base nor in the list: a pending program-counter write therefore
    /// never hides in this instruction's accumulated changes.
    pub open spec fn wf(self) -> bool {
        &&& self.base_register < NUM_REGISTERS as u8
        &&& self.base_register != PC
        &&& forall|i: int|
            0 <= i < self.reg_list@.len() ==> self.reg_list@[i] < NUM_REGISTERS as u8
        &&& forall|i: int| 0 <= i < self.reg_list@.len() ==> self.reg_list@[i] != PC
        &&& changes_wf(self.changes@)
        &&& forall|i: int| 0 <= i < self.changes@.len() ==> (#[trigger] self.changes@[i]).0 != PC
    }

    /// The address this poll starts from: the running address, or the base
    /// register's snapshot on the first cycle.
    pub open spec fn spec_address(self, station: ReservationStation) -> u32 {
        match self.address {
            Some(v) => v,
            None => station.value_at(self.base_register),
        }
    }

    /// Load the next register of the list from the running address, one
    /// per cycle; then write the final address back if asked to; then
    /// complete with the accumulated changes.
    pub fn poll(&self, station: &ReservationStation, memory: &Memory) -> (r: PollResult)
        requires
            self.wf(),
            station.wf(),
            memory.wf(),
            station.is_ready_at(self.base_register),
        ensures
            ({
                let a0 = self.spec_address(*station);
                &&& self.reg_list@.len() > 0 ==> {
                    &&& memory.range_mapped(a0, 4) ==> (r matches PollResult::Again(n) && n
                        matches Instruction::Ldm(l2) && l2.base_register == self.base_register
                        && l2.reg_list@ == self.reg_list@.drop_first() && l2.writeback
                        == self.writeback && l2.address == Some(add_wrap(a0, 4)) && l2.changes@
                        == self.changes@.push((self.reg_list@[0], memory.word_at(a0))))
                    &&& !memory.range_mapped(a0, 4) ==> (r matches PollResult::Fault(
                        Fault::MemoryAccess(MemoryAccessError::BadAddress(_)),
                    ))
                }
                &&& self.reg_list@.len() == 0 && self.writeback ==> (r
                    matches PollResult::Again(n) && n matches Instruction::Ldm(l2)
                    && l2.base_register == self.base_register && l2.reg_list@.len() == 0
                    && !l2.writeback && l2.address == Some(a0) && l2.changes@
                    == self.changes@.push((self.base_register, a0)))
                &&& self.reg_list@.len() == 0 && !self.writeback ==> (r
                    matches PollResult::Complete(changes) && changes@ == self.changes@)
            }),
    {
        let a0: u32 = match self.address {
            Some(v) => v,
            None => station.read_by_id(self.base_register),
        };
        let mut changes = copy_changes(&self.changes);
        if self.reg_list.len() > 0 {
            if a0 as u64 + 4u64 > 0x1_0000_0000u64 {
                return PollResult::Fault(Fault::MemoryAccess(MemoryAccessError::BadAddress(a0)));
            }
            let val = match memory.read_u32(a0) {
                Ok(v) => v,
                Err(e) => {
                    return PollResult::Fault(Fault::MemoryAccess(e));
                },
            };
            let r0 = self.reg_list[0];
            changes.push((r0, val));
            let a1 = if a0 >= 0xFFFF_FFFC {
                a0 - 0xFFFF_FFFC
            } else {
                a0 + 4
            };
            let mut rest = copy_reg_list(&self.reg_list);
            let first = rest.remove(0);
            proof {
                assert(rest@ =~= self.reg_list@.drop_first());
            }
            return PollResult::Again(
                Instruction::Ldm(
                    LDM {
                        base_register: self.base_register,
                        reg_list: rest,
                        writeback: self.writeback,
                        address: Some(a1),
                        changes,
                    },
                ),
            );
        }
        if self.writeback {
            changes.push((self.base_register, a0));
            return PollResult::Again(
                Instruction::Ldm(
                    LDM {
                        base_register: self.base_register,
                        reg_list: Vec::new(),
                        writeback: false,
                        address: Some(a0),
                        changes,
                    },
                ),
            );
        }
        PollResult::Complete(changes)
    }
}

} // verus!
