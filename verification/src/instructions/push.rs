//! PUSH: store a register list below the stack pointer, one register per
//! cycle, highest address first.

use crate::cpu_state::station::ReservationStation;
use crate::instructions::copy_reg_list;
use crate::instructions::le_byte;
use crate::instructions::sub_wrap;
use crate::instructions::Fault;
use crate::instructions::Instruction;
use crate::instructions::PollResult;
use crate::memory::Memory;
use crate::memory::MemoryAccessError;
use crate::registers::NUM_REGISTERS;
use crate::registers::SP;
use vstd::prelude::*;

verus! {

#[derive(Clone, Debug)]
pub struct PUSH {
    /// Registers still to store, highest architectural number first.
    pub reg_list: Vec<u8>,
    /// The running stack pointer; `None` until the first cycle reads SP.
    pub sp: Option<u32>,
}

impl PUSH {
    pub fn new(reg_list: Vec<u8>) -> (r: PUSH)
        ensures
            r.reg_list == reg_list,
            r.sp is None,
    {
        PUSH { reg_list, sp: None }
    }

    pub open spec fn sources(self) -> Set<u8> {
        self.reg_list@.to_set().insert(SP)
    }

    pub open spec fn dests(self) -> Set<u8> {
        set![SP]
    }

    pub open spec fn wf(self) -> bool {
        forall|i: int| 0 <= i < self.reg_list@.len() ==> self.reg_list@[i] < NUM_REGISTERS as u8
    }

    /// The stack pointer this poll starts from: the running value, or the
    /// snapshot's SP on the first cycle.
    pub open spec fn spec_sp(self, station: ReservationStation) -> u32 {
        match self.sp {
            Some(v) => v,
            None => station.value_at(SP),
        }
    }

    /// Store the next register of the list four bytes below the running
    /// stack pointer; complete with the final stack pointer once the list
    /// is empty.
    pub fn poll(&self, station: &ReservationStation, memory: &mut Memory) -> (r: PollResult)
        requires
            self.wf(),
            station.wf(),
            old(memory).wf(),
            station.is_ready_at(SP),
            forall|i: int|
                0 <= i < self.reg_list@.len() ==> station.is_ready_at(#[trigger] self.reg_list@[i]),
        ensures
            final(memory).wf(),
            forall|a: u32| #[trigger] final(memory).mapped(a) == old(memory).mapped(a),
            forall|a: u32| #[trigger] final(memory).writable(a) == old(memory).writable(a),
            self.reg_list@.len() == 0 ==> (r matches PollResult::Complete(changes) && changes@
                == seq![(SP, self.spec_sp(*station))] && *final(memory) == *old(memory)),
            self.reg_list@.len() > 0 ==> {
                let sp1 = sub_wrap(self.spec_sp(*station), 4);
                let value = station.value_at(self.reg_list@[0]);
                &&& old(memory).range_writable(sp1, 4) ==> {
                    &&& forall|i: int|
                        0 <= i < 4 ==> final(memory).byte_at((sp1 + i) as u32) == le_byte(value, i)
                    &&& forall|a: u32|
                        old(memory).mapped(a) && !(sp1 <= a < sp1 + 4)
                            ==> #[trigger] final(memory).byte_at(a) == old(memory).byte_at(a)
                    &&& self.reg_list@.len() == 1 ==> (r matches PollResult::Complete(changes)
                        && changes@ == seq![(SP, sp1)])
                    &&& self.reg_list@.len() > 1 ==> (r matches PollResult::Again(n) && n
                        matches Instruction::Push(p2) && p2.reg_list@
                        == self.reg_list@.drop_first() && p2.sp == Some(sp1))
                }
                &&& !old(memory).range_writable(sp1, 4) ==> (r matches PollResult::Fault(
                    Fault::MemoryAccess(_),
                ))
            },
    {
        let sp0: u32 = match self.sp {
            Some(v) => v,
            None => station.read_by_id(SP),
        };
        if self.reg_list.len() == 0 {
            let mut changes: Vec<(u8, u32)> = Vec::new();
            changes.push((SP, sp0));
            proof {
                assert(changes@ =~= seq![(SP, self.spec_sp(*station))]);
            }
            return PollResult::Complete(changes);
        }
        let r0 = self.reg_list[0];
        let sp1 = if sp0 >= 4 {
            sp0 - 4
        } else {
            sp0 + 0xFFFF_FFFC
        };
        let register_value = station.read_by_id(r0);
        let mut bytes: Vec<u8> = Vec::new();
        bytes.push((register_value % 256) as u8);
        bytes.push(((register_value / 0x100) % 256) as u8);
        bytes.push(((register_value / 0x10000) % 256) as u8);
        bytes.push(((register_value / 0x1000000) % 256) as u8);
        proof {
            assert(forall|i: int|
                0 <= i < bytes@.len() ==> bytes@[i] == le_byte(register_value, i));
        }
        if sp1 as u64 + 4u64 > 0x1_0000_0000u64 {
            return PollResult::Fault(Fault::MemoryAccess(MemoryAccessError::BadAddress(sp1)));
        }
        match memory.write_bytes(sp1, bytes.as_slice()) {
            Ok(()) => {},
            Err(e) => {
                return PollResult::Fault(Fault::MemoryAccess(e));
            },
        }
        if self.reg_list.len() == 1 {
            let mut changes: Vec<(u8, u32)> = Vec::new();
            changes.push((SP, sp1));
            proof {
                assert(changes@ =~= seq![(SP, sub_wrap(self.spec_sp(*station), 4))]);
            }
            PollResult::Complete(changes)
        } else {
            let mut rest = copy_reg_list(&self.reg_list);
            let first = rest.remove(0);
            proof {
                assert(rest@ =~= self.reg_list@.drop_first());
            }
            PollResult::Again(Instruction::Push(PUSH { reg_list: rest, sp: Some(sp1) }))
        }
    }
}

} // verus!
