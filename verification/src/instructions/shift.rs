//! ASR, LSL, LSR and ROR: shifts and rotates that also update the carry,
//! negative and zero flags.

use crate::cpu_state::station::ReservationStation;
use crate::instructions::spec_nz;
use crate::instructions::Operand;
use crate::instructions::PollResult;
use crate::registers::spec_write_flag;
use crate::registers::ConditionFlag;
use crate::registers::CPSR;
use crate::registers::NUM_REGISTERS;
use vstd::prelude::*;

verus! {

#[derive(Clone, Copy, Debug, PartialEq, Eq, Structural)]
pub enum Mode {
    ASR,
    LSL,
    LSR,
    ROR,
}

#[derive(Clone, Copy, Debug, PartialEq, Eq, Structural)]
pub struct SHIFT {
    pub mode: Mode,
    pub dest: u8,
    pub first: u8,
    pub second: Operand,
}

impl SHIFT {
    pub fn new(dest: u8, first: u8, second: Operand, mode: Mode) -> (r: SHIFT)
        ensures
            r == (SHIFT { mode, dest, first, second }),
    {
        SHIFT { mode, dest, first, second }
    }

    pub open spec fn sources(self) -> Set<u8> {
        set![self.first, CPSR].union(self.second.regs())
    }

    pub open spec fn dests(self) -> Set<u8> {
        set![self.dest, CPSR]
    }

    pub open spec fn wf(self) -> bool {
        self.dest < NUM_REGISTERS as u8 && self.first < NUM_REGISTERS as u8 && self.second.wf()
    }

    /// The shifted value and CPSR with the carry updated to the last bit
    /// shifted out. A shift amount of zero changes neither the value nor
    /// the carry; out-of-range amounts follow the architectural rules for
    /// register-specified shifts.
    pub open spec fn spec_shift(mode: Mode, value: u32, n: u32, cpsr: u32) -> (u32, u32) {
        match mode {
            Mode::LSL => (
                if n == 0 {
                    value
                } else if n <= 31 {
                    value << n
                } else {
                    0
                },
                if n == 0 {
                    cpsr
                } else if n <= 32 {
                    spec_write_flag(ConditionFlag::C, cpsr, spec_bit_at(value, (32 - n) as u32))
                } else {
                    spec_write_flag(ConditionFlag::C, cpsr, false)
                },
            ),
            Mode::LSR => (
                if n == 0 {
                    value
                } else if n <= 31 {
                    value >> n
                } else {
                    0
                },
                if n == 0 {
                    cpsr
                } else if n <= 32 {
                    spec_write_flag(ConditionFlag::C, cpsr, spec_bit_at(value, (n - 1) as u32))
                } else {
                    spec_write_flag(ConditionFlag::C, cpsr, false)
                },
            ),
            Mode::ASR => (
                if n == 0 {
                    value
                } else if n <= 31 {
                    (value >> n) | (if value >= 0x8000_0000 {
                        0xFFFF_FFFFu32 << ((32 - n) as u32)
                    } else {
                        0
                    })
                } else if value >= 0x8000_0000 {
                    0xFFFF_FFFFu32
                } else {
                    0
                },
                if n == 0 {
                    cpsr
                } else if n <= 32 {
                    spec_write_flag(ConditionFlag::C, cpsr, spec_bit_at(value, (n - 1) as u32))
                } else {
                    spec_write_flag(ConditionFlag::C, cpsr, spec_bit_at(value, 31))
                },
            ),
            Mode::ROR => {
                let m = n % 32;
                if n == 0 {
                    (value, cpsr)
                } else if m == 0 {
                    (value, spec_write_flag(ConditionFlag::C, cpsr, spec_bit_at(value, 31)))
                } else {
                    (
                        (value >> m) | (value << ((32 - m) as u32)),
                        spec_write_flag(ConditionFlag::C, cpsr, spec_bit_at(value, (m - 1) as u32)),
                    )
                }
            },
        }
    }

    /// The exact register changes one poll produces: the shifted value and
    /// CPSR with carry from the shift and N and Z from the result. Only the
    /// low byte of a register-specified amount counts.
    pub open spec fn spec_changes(self, station: ReservationStation) -> Seq<(u8, u32)> {
        let value = station.value_at(self.first);
        let n = station.spec_operand_value(self.second) % 256;
        let cpsr = station.value_at(CPSR);
        let sr = Self::spec_shift(self.mode, value, n, cpsr);
        seq![(self.dest, sr.0), (CPSR, spec_nz(sr.1, sr.0))]
    }

    /// Shift the first operand by the second; always completes in one
    /// cycle.
    pub fn poll(&self, station: &ReservationStation) -> (r: PollResult)
        requires
            self.wf(),
            station.wf(),
            station.is_ready_at(self.first),
            station.is_ready_at(CPSR),
            self.second matches Operand::Reg(reg) ==> station.is_ready_at(reg),
        ensures
            r matches PollResult::Complete(changes) && changes@ == self.spec_changes(*station),
    {
        let value = station.read_by_id(self.first);
        let n: u32 = station.value_of_flexible_second_operand(&self.second) % 256;
        let mut cpsr = station.read_by_id(CPSR);

        let result: u32 = match self.mode {
            Mode::LSL => {
                if n > 0 {
                    if n >= 33 {
                        ConditionFlag::C.write_flag(&mut cpsr, false);
                    } else {
                        ConditionFlag::C.write_flag(&mut cpsr, get_bit_at(value, (32 - n) as u8));
                    }
                }
                if n == 0 {
                    value
                } else if n <= 31 {
                    value << n
                } else {
                    0
                }
            },
            Mode::LSR => {
                if n > 0 {
                    if n >= 33 {
                        ConditionFlag::C.write_flag(&mut cpsr, false);
                    } else {
                        ConditionFlag::C.write_flag(&mut cpsr, get_bit_at(value, (n - 1) as u8));
                    }
                }
                if n == 0 {
                    value
                } else if n <= 31 {
                    value >> n
                } else {
                    0
                }
            },
            Mode::ASR => {
                if n > 0 {
                    if n >= 33 {
                        ConditionFlag::C.write_flag(&mut cpsr, get_bit_at(value, 31));
                    } else {
                        ConditionFlag::C.write_flag(&mut cpsr, get_bit_at(value, (n - 1) as u8));
                    }
                }
                if n == 0 {
                    value
                } else if n <= 31 {
                    (value >> n) | (if value >= 0x8000_0000 {
                        0xFFFF_FFFFu32 << (32 - n)
                    } else {
                        0
                    })
                } else if value >= 0x8000_0000 {
                    0xFFFF_FFFFu32
                } else {
                    0
                }
            },
            Mode::ROR => {
                let m = n % 32;
                if n == 0 {
                    value
                } else if m == 0 {
                    ConditionFlag::C.write_flag(&mut cpsr, get_bit_at(value, 31));
                    value
                } else {
                    ConditionFlag::C.write_flag(&mut cpsr, get_bit_at(value, (m - 1) as u8));
                    (value >> m) | (value << (32 - m))
                }
            },
        };
        ConditionFlag::N.write_flag(&mut cpsr, result >= 0x8000_0000);
        ConditionFlag::Z.write_flag(&mut cpsr, result == 0);
        let mut changes: Vec<(u8, u32)> = Vec::new();
        changes.push((self.dest, result));
        changes.push((CPSR, cpsr));
        proof {
            assert(changes@ =~= self.spec_changes(*station));
        }
        PollResult::Complete(changes)
    }
}

/// Whether bit `n` of `input` is set; bits count from 0 at the least
/// significant end.
pub open spec fn spec_bit_at(input: u32, n: u32) -> bool {
    input & (1u32 << n) != 0
}

/// Whether bit `n` of `input` is set.
pub fn get_bit_at(input: u32, n: u8) -> (r: bool)
    requires
        n <= 31,
    ensures
        r == spec_bit_at(input, n as u32),
{
    input & (1u32 << (n as u32)) != 0
}

} // verus!
