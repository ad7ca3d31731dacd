//! NOP: completes immediately with no effects.

use crate::cpu_state::station::ReservationStation;
use crate::instructions::PollResult;
use vstd::prelude::*;

verus! {

#[derive(Clone, Copy, Debug, PartialEq, Eq, Structural)]
pub struct NOP {}

impl NOP {
    pub fn new() -> (r: NOP)
        ensures
            r == (NOP {  }),
    {
        NOP {  }
    }

    pub open spec fn sources(self) -> Set<u8> {
        Set::empty()
    }

    pub open spec fn dests(self) -> Set<u8> {
        Set::empty()
    }

    /// Completes immediately with no register changes.
    pub fn poll(&self, station: &ReservationStation) -> (r: PollResult)
        ensures
            r matches PollResult::Complete(changes) && changes@ == Seq::<(u8, u32)>::empty(),
    {
        PollResult::Complete(Vec::new())
    }
}

} // verus!
