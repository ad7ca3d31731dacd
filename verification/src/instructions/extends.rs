//! SXTB, UXTB, SXTH and UXTH: sign- or zero-extend a byte or halfword.

use crate::cpu_state::station::ReservationStation;
use crate::instructions::PollResult;
use crate::registers::NUM_REGISTERS;
use vstd::prelude::*;

verus! {

#[derive(Clone, Copy, Debug, PartialEq, Eq, Structural)]
pub enum Mode {
    SXTB,
    UXTB,
    SXTH,
    UXTH,
}

#[derive(Clone, Copy, Debug, PartialEq, Eq, Structural)]
pub struct EXTENDS {
    pub dest: u8,
    pub src: u8,
    pub mode: Mode,
}

impl EXTENDS {
    pub fn new(dest: u8, src: u8, mode: Mode) -> (r: EXTENDS)
        ensures
            r == (EXTENDS { dest, src, mode }),
    {
        EXTENDS { dest, src, mode }
    }

    pub open spec fn sources(self) -> Set<u8> {
        set![self.src]
    }

    pub open spec fn dests(self) -> Set<u8> {
        set![self.dest]
    }

    pub open spec fn wf(self) -> bool {
        self.dest < NUM_REGISTERS as u8 && self.src < NUM_REGISTERS as u8
    }

    /// The extended value: the low byte or halfword of `value`, zero- or
    /// sign-extended to 32 bits.
    pub open spec fn spec_result(mode: Mode, value: u32) -> u32 {
        match mode {
            Mode::SXTB => {
                let b = value % 256;
                if b >= 0x80 {
                    (b + 0xFFFF_FF00) as u32
                } else {
                    b as u32
                }
            },
            Mode::UXTB => (value % 256) as u32,
            Mode::SXTH => {
                let h = value % 0x10000;
                if h >= 0x8000 {
                    (h + 0xFFFF_0000) as u32
                } else {
                    h as u32
                }
            },
            Mode::UXTH => (value % 0x10000) as u32,
        }
    }

    /// The exact register changes one poll produces.
    pub open spec fn spec_changes(self, station: ReservationStation) -> Seq<(u8, u32)> {
        seq![(self.dest, Self::spec_result(self.mode, station.value_at(self.src)))]
    }

    /// Extend the source register's low bits; always completes in one
    /// cycle.
    pub fn poll(&self, station: &ReservationStation) -> (r: PollResult)
        requires
            self.wf(),
            station.wf(),
            station.is_ready_at(self.src),
        ensures
            r matches PollResult::Complete(changes) && changes@ == self.spec_changes(*station),
    {
        let value = station.read_by_id(self.src);
        let result: u32 = match self.mode {
            Mode::SXTB => {
                let b = value % 256;
                if b >= 0x80 {
                    b + 0xFFFF_FF00
                } else {
                    b
                }
            },
            Mode::UXTB => value % 256,
            Mode::SXTH => {
                let h = value % 0x10000;
                if h >= 0x8000 {
                    h + 0xFFFF_0000
                } else {
                    h
                }
            },
            Mode::UXTH => value % 0x10000,
        };
        let mut changes: Vec<(u8, u32)> = Vec::new();
        changes.push((self.dest, result));
        proof {
            assert(changes@ =~= self.spec_changes(*station));
        }
        PollResult::Complete(changes)
    }
}

} // verus!
