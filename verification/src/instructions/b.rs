//! B and BL: a program-counter-relative branch, optionally with link.

use crate::cpu_state::station::ReservationStation;
use crate::instructions::add_wrap;
use crate::instructions::changes_wf;
use crate::instructions::copy_changes;
use crate::instructions::wrap_to_u32;
use crate::instructions::Instruction;
use crate::instructions::PollResult;
use crate::registers::LR;
use crate::registers::PC;
use vstd::prelude::*;

verus! {

#[derive(Clone, Debug)]
pub struct B {
    pub jump: i32,
    pub with_link: bool,
    /// Register changes accumulated over the cycles of a linked branch.
    pub changes: Vec<(u8, u32)>,
}

impl B {
    pub fn new(jump: i32, with_link: bool) -> (r: B)
        ensures
            r.jump == jump,
            r.with_link == with_link,
            r.changes@ == Seq::<(u8, u32)>::empty(),
    {
        B { jump, with_link, changes: Vec::new() }
    }

    pub open spec fn sources(self) -> Set<u8> {
        Set::empty()
    }

    pub open spec fn dests(self) -> Set<u8> {
        if self.with_link {
            set![PC, LR]
        } else {
            set![PC]
        }
    }

    pub open spec fn wf(self) -> bool {
        changes_wf(self.changes@)
    }

    /// A linked branch first banks the return address (the following
    /// instruction, Thumb bit preserved) into LR and asks to be polled
    /// again; the final poll completes with the accumulated changes plus
    /// the program-counter change, relative to the instruction's own
    /// address.
    pub fn poll(&self, station: &ReservationStation) -> (r: PollResult)
        requires
            self.wf(),
            station.wf(),
            station.instruction is Some,
        ensures
            self.with_link ==> (r matches PollResult::Again(n) && n matches Instruction::B(b2)
                && b2.jump == self.jump && !b2.with_link && b2.changes@ == self.changes@.push(
                (
                    LR,
                    add_wrap(
                        station.instruction.unwrap().address,
                        station.instruction.unwrap().length,
                    ),
                ),
            )),
            !self.with_link ==> (r matches PollResult::Complete(changes) && changes@
                == self.changes@.push(
                (PC, wrap_to_u32(station.instruction.unwrap().address + self.jump)),
            )),
    {
        let cur_address = station.instruction.as_ref().unwrap().address;
        let cur_length = station.instruction.as_ref().unwrap().length;
        let mut changes = copy_changes(&self.changes);
        if self.with_link {
            let ret = if cur_address >= 0xFFFF_FFFF - cur_length + 1 {
                ((cur_address as u64 + cur_length as u64) - 0x1_0000_0000) as u32
            } else {
                cur_address + cur_length
            };
            changes.push((LR, ret));
            return PollResult::Again(
                Instruction::B(B { jump: self.jump, with_link: false, changes }),
            );
        }
        let target: i64 = cur_address as i64 + self.jump as i64;
        let pc_val: u32 = if target < 0 {
            (target + 0x1_0000_0000) as u32
        } else if target > 0xFFFF_FFFF {
            (target - 0x1_0000_0000) as u32
        } else {
            target as u32
        };
        changes.push((PC, pc_val));
        PollResult::Complete(changes)
    }
}

} // verus!
