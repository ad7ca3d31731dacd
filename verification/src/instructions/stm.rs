//! STM: store multiple registers to ascending addresses, one per cycle,
//! with optional base-register writeback.

use crate::cpu_state::station::ReservationStation;
use crate::instructions::add_wrap;
use crate::instructions::changes_wf;
use crate::instructions::copy_changes;
use crate::instructions::copy_reg_list;
use crate::instructions::le_byte;
use crate::instructions::Fault;
use crate::instructions::Instruction;
use crate::instructions::PollResult;
use crate::memory::Memory;
use crate::memory::MemoryAccessError;
use crate::registers::NUM_REGISTERS;
use crate::registers::PC;
use vstd::prelude::*;

verus! {

#[derive(Clone, Debug)]
pub struct STM {
    pub base_register: u8,
    /// Registers still to store, in list order.
    pub reg_list: Vec<u8>,
    /// Whether the final address is written back into the base register.
    pub writeback: bool,
    /// The running address; `None` until the first cycle reads the base.
    pub address: Option<u32>,
    /// Register changes accumulated so far (only the writeback).
    pub changes: Vec<(u8, u32)>,
}

impl STM {
    pub fn new(base_register: u8, reg_list: Vec<u8>, writeback: bool) -> (r: STM)
        ensures
            r.base_register == base_register,
            r.reg_list == reg_list,
            r.writeback == writeback,
            r.address is None,
            r.changes@ == Seq::<(u8, u32)>::empty(),
    {
        STM { base_register, reg_list, writeback, address: None, changes: Vec::new() }
    }

    pub open spec fn sources(self) -> Set<u8> {
        self.reg_list@.to_set().insert(self.base_register)
    }

    pub open spec fn dests(self) -> Set<u8> {
        if self.writeback {
            set![self.base_register]
        } else {
            Set::empty()
        }
    }

    /// The Thumb encoding of STM cannot name the program counter, neither
    /// as base nor in the list.
    pub open spec fn wf(self) -> bool {
        &&& self.base_register < NUM_REGISTERS as u8
        &&& self.base_register != PC
        &&& forall|i: int|
            0 <= i < self.reg_list@.len() ==> self.reg_list@[i] < NUM_REGISTERS as u8
        &&& changes_wf(self.changes@)
        &&& forall|i: int| 0 <= i < self.changes@.len() ==> (#[trigger] self.changes@[i]).0 != PC
    }

    /// The address this poll starts from.
    pub open spec fn spec_address(self, station: ReservationStation) -> u32 {
        match self.address {
            Some(v) => v,
            None => station.value_at(self.base_register),
        }
    }

    /// Store the next register of the list at the running address, one per
    /// cycle; then write the final address back if asked to; then complete.
    pub fn poll(&self, station: &ReservationStation, memory: &mut Memory) -> (r: PollResult)
        requires
            self.wf(),
            station.wf(),
            old(memory).wf(),
            station.is_ready_at(self.base_register),
            forall|i: int|
                0 <= i < self.reg_list@.len() ==> station.is_ready_at(#[trigger] self.reg_list@[i]),
        ensures
            final(memory).wf(),
            forall|a: u32| #[trigger] final(memory).mapped(a) == old(memory).mapped(a),
            forall|a: u32| #[trigger] final(memory).writable(a) == old(memory).writable(a),
            ({
                let a0 = self.spec_address(*station);
                &&& self.reg_list@.len() > 0 ==> {
                    let value = station.value_at(self.reg_list@[0]);
                    &&& old(memory).range_writable(a0, 4) ==> {
                        &&& r matches PollResult::Again(n) && n matches Instruction::Stm(s2)
                            && s2.base_register == self.base_register && s2.reg_list@
                            == self.reg_list@.drop_first() && s2.writeback == self.writeback
                            && s2.address == Some(add_wrap(a0, 4)) && s2.changes@ == self.changes@
                        &&& forall|i: int|
                            0 <= i < 4 ==> final(memory).byte_at((a0 + i) as u32) == le_byte(
                                value,
                                i,
                            )
                        &&& forall|a: u32|
                            old(memory).mapped(a) && !(a0 <= a < a0 + 4)
                                ==> #[trigger] final(memory).byte_at(a) == old(memory).byte_at(a)
                    }
                    &&& !old(memory).range_writable(a0, 4) ==> (r matches PollResult::Fault(
                        Fault::MemoryAccess(_),
                    ))
                }
                &&& self.reg_list@.len() == 0 && self.writeback ==> (r
                    matches PollResult::Again(n) && n matches Instruction::Stm(s2)
                    && s2.base_register == self.base_register && s2.reg_list@.len() == 0
                    && !s2.writeback && s2.address == Some(a0) && s2.changes@
                    == self.changes@.push((self.base_register, a0))
                    && *final(memory) == *old(memory))
                &&& self.reg_list@.len() == 0 && !self.writeback ==> (r
                    matches PollResult::Complete(changes) && changes@ == self.changes@
                    && *final(memory) == *old(memory))
            }),
    {
        let a0: u32 = match self.address {
            Some(v) => v,
            None => station.read_by_id(self.base_register),
        };
        let mut changes = copy_changes(&self.changes);
        if self.reg_list.len() > 0 {
            let r0 = self.reg_list[0];
            let reg_val = station.read_by_id(r0);
            let mut bytes: Vec<u8> = Vec::new();
            bytes.push((reg_val % 256) as u8);
            bytes.push(((reg_val / 0x100) % 256) as u8);
            bytes.push(((reg_val / 0x10000) % 256) as u8);
            bytes.push(((reg_val / 0x1000000) % 256) as u8);
            proof {
                assert(forall|i: int|
                    0 <= i < bytes@.len() ==> bytes@[i] == le_byte(reg_val, i));
            }
            if a0 as u64 + 4u64 > 0x1_0000_0000u64 {
                return PollResult::Fault(Fault::MemoryAccess(MemoryAccessError::BadAddress(a0)));
            }
            match memory.write_bytes(a0, bytes.as_slice()) {
                Ok(()) => {},
                Err(e) => {
                    return PollResult::Fault(Fault::MemoryAccess(e));
                },
            }
            let a1 = if a0 >= 0xFFFF_FFFC {
                a0 - 0xFFFF_FFFC
            } else {
                a0 + 4
            };
            let mut rest = copy_reg_list(&self.reg_list);
            let first = rest.remove(0);
            proof {
                assert(rest@ =~= self.reg_list@.drop_first());
            }
            return PollResult::Again(
                Instruction::Stm(
                    STM {
                        base_register: self.base_register,
                        reg_list: rest,
                        writeback: self.writeback,
                        address: Some(a1),
                        changes,
                    },
                ),
            );
        }
        if self.writeback {
            changes.push((self.base_register, a0));
            return PollResult::Again(
                Instruction::Stm(
                    STM {
                        base_register: self.base_register,
                        reg_list: Vec::new(),
                        writeback: false,
                        address: Some(a0),
                        changes,
                    },
                ),
            );
        }
        PollResult::Complete(changes)
    }
}

} // verus!
