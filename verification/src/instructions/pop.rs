//! POP: load a register list from the stack, one register per cycle,
//! lowest address first.

use crate::cpu_state::station::ReservationStation;
use crate::instructions::add_wrap;
use crate::instructions::change_regs;
use crate::instructions::changes_wf;
use crate::instructions::copy_changes;
use crate::instructions::copy_reg_list;
use crate::instructions::Fault;
use crate::instructions::Instruction;
use crate::instructions::PollResult;
use crate::memory::Memory;
use crate::memory::MemoryAccessError;
use crate::registers::NUM_REGISTERS;
use crate::registers::PC;
use crate::registers::SP;
use vstd::prelude::*;

verus! {

#[derive(Clone, Debug)]
pub struct POP {
    /// Registers still to load, lowest architectural number first.
    pub reg_list: Vec<u8>,
    /// The running stack pointer; `None` until the first cycle reads SP.
    pub sp: Option<u32>,
    /// Register changes accumulated so far.
    pub changes: Vec<(u8, u32)>,
}

impl POP {
    pub fn new(reg_list: Vec<u8>) -> (r: POP)
        ensures
            r.reg_list == reg_list,
            r.sp is None,
            r.changes@ == Seq::<(u8, u32)>::empty(),
    {
        POP { reg_list, sp: None, changes: Vec::new() }
    }

    pub open spec fn sources(self) -> Set<u8> {
        set![SP]
    }

    pub open spec fn dests(self) -> Set<u8> {
        self.reg_list@.to_set().insert(SP)
    }

    /// The program counter stands only at the tail of the list (it is the
    /// highest register a POP can name, and the list is kept in ascending
    /// order), and it enters the accumulated changes only while the list
    /// still holds it: while the station is occupied, a pending
    /// program-counter write always shows in the declared destinations,
    /// which is what the hazard scan reads.
    pub open spec fn wf(self) -> bool {
        &&& forall|i: int|
            0 <= i < self.reg_list@.len() ==> self.reg_list@[i] < NUM_REGISTERS as u8
        &&& changes_wf(self.changes@)
        &&& forall|i: int, j: int|
            0 <= i <= j < self.reg_list@.len() && (#[trigger] self.reg_list@[i]) == PC
                ==> #[trigger] self.reg_list@[j] == PC
        &&& (change_regs(self.changes@).contains(PC) ==> self.reg_list@.to_set().contains(PC))
    }

    /// The stack pointer this poll starts from.
    pub open spec fn spec_sp(self, station: ReservationStation) -> u32 {
        match self.sp {
            Some(v) => v,
            None => station.value_at(SP),
        }
    }

    /// Load the next register of the list from the running stack pointer;
    /// complete with the accumulated loads and the final stack pointer
    /// once the list is empty.
    pub fn poll(&self, station: &ReservationStation, memory: &Memory) -> (r: PollResult)
        requires
            self.wf(),
            station.wf(),
            memory.wf(),
            station.is_ready_at(SP),
        ensures
            self.reg_list@.len() == 0 ==> (r matches PollResult::Complete(changes) && changes@
                == self.changes@.push((SP, self.spec_sp(*station)))),
            self.reg_list@.len() > 0 ==> {
                let sp0 = self.spec_sp(*station);
                &&& memory.range_mapped(sp0, 4) ==> {
                    let loaded = (self.reg_list@[0], memory.word_at(sp0));
                    &&& self.reg_list@.len() == 1 ==> (r matches PollResult::Complete(changes)
                        && changes@ == self.changes@.push(loaded).push(
                        (SP, add_wrap(sp0, 4)),
                    ))
                    &&& self.reg_list@.len() > 1 ==> (r matches PollResult::Again(n) && n
                        matches Instruction::Pop(p2) && p2.reg_list@
                        == self.reg_list@.drop_first() && p2.sp == Some(add_wrap(sp0, 4))
                        && p2.changes@ == self.changes@.push(loaded))
                }
                &&& !memory.range_mapped(sp0, 4) ==> (r matches PollResult::Fault(
                    Fault::MemoryAccess(MemoryAccessError::BadAddress(_)),
                ))
            },
    {
        let sp0: u32 = match self.sp {
            Some(v) => v,
            None => station.read_by_id(SP),
        };
        let mut changes = copy_changes(&self.changes);
        if self.reg_list.len() == 0 {
            changes.push((SP, sp0));
            return PollResult::Complete(changes);
        }
        if sp0 as u64 + 4u64 > 0x1_0000_0000u64 {
            return PollResult::Fault(Fault::MemoryAccess(MemoryAccessError::BadAddress(sp0)));
        }
        let read_from_stack = match memory.read_u32(sp0) {
            Ok(v) => v,
            Err(e) => {
                return PollResult::Fault(Fault::MemoryAccess(e));
            },
        };
        let r0 = self.reg_list[0];
        changes.push((r0, read_from_stack));
        let sp1 = if sp0 >= 0xFFFF_FFFC {
            sp0 - 0xFFFF_FFFC
        } else {
            sp0 + 4
        };
        if self.reg_list.len() == 1 {
            changes.push((SP, sp1));
            PollResult::Complete(changes)
        } else {
            let mut rest = copy_reg_list(&self.reg_list);
            let first = rest.remove(0);
            proof {
                assert(rest@ =~= self.reg_list@.drop_first());
            }
            PollResult::Again(
                Instruction::Pop(POP { reg_list: rest, sp: Some(sp1), changes }),
            )
        }
    }
}

} // verus!
