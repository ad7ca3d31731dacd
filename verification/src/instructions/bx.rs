//! BX and BLX: a branch to a register value, optionally with link.

use crate::cpu_state::station::ReservationStation;
use crate::instructions::add_wrap;
use crate::instructions::changes_wf;
use crate::instructions::copy_changes;
use crate::instructions::Instruction;
use crate::instructions::PollResult;
use crate::registers::LR;
use crate::registers::NUM_REGISTERS;
use crate::registers::PC;
use vstd::prelude::*;

verus! {

#[derive(Clone, Debug)]
pub struct BX {
    pub register: u8,
    pub with_link: bool,
    /// Register changes accumulated over the cycles of a linked branch.
    pub changes: Vec<(u8, u32)>,
}

impl BX {
    pub fn new(register: u8, with_link: bool) -> (r: BX)
        ensures
            r.register == register,
            r.with_link == with_link,
            r.changes@ == Seq::<(u8, u32)>::empty(),
    {
        BX { register, with_link, changes: Vec::new() }
    }

    pub open spec fn sources(self) -> Set<u8> {
        set![self.register]
    }

    pub open spec fn dests(self) -> Set<u8> {
        if self.with_link {
            set![PC, LR]
        } else {
            set![PC]
        }
    }

    pub open spec fn wf(self) -> bool {
        self.register < NUM_REGISTERS as u8 && changes_wf(self.changes@)
    }

    /// A linked branch first banks the return address into LR and asks to
    /// be polled again; the final poll completes with the accumulated
    /// changes plus the program counter set to the register's value.
    pub fn poll(&self, station: &ReservationStation) -> (r: PollResult)
        requires
            self.wf(),
            station.wf(),
            station.instruction is Some,
            station.is_ready_at(self.register),
        ensures
            self.with_link ==> (r matches PollResult::Again(n) && n matches Instruction::Bx(b2)
                && b2.register == self.register && !b2.with_link && b2.changes@
                == self.changes@.push(
                (
                    LR,
                    add_wrap(
                        station.instruction.unwrap().address,
                        station.instruction.unwrap().length,
                    ),
                ),
            )),
            !self.with_link ==> (r matches PollResult::Complete(changes) && changes@
                == self.changes@.push((PC, station.value_at(self.register)))),
    {
        let mut changes = copy_changes(&self.changes);
        if self.with_link {
            let cur_address = station.instruction.as_ref().unwrap().address;
            let cur_length = station.instruction.as_ref().unwrap().length;
            let ret = if cur_address >= 0xFFFF_FFFF - cur_length + 1 {
                ((cur_address as u64 + cur_length as u64) - 0x1_0000_0000) as u32
            } else {
                cur_address + cur_length
            };
            changes.push((LR, ret));
            return PollResult::Again(
                Instruction::Bx(BX { register: self.register, with_link: false, changes }),
            );
        }
        let new_addr = station.read_by_id(self.register);
        changes.push((PC, new_addr));
        PollResult::Complete(changes)
    }
}

} // verus!
