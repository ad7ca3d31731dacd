//! Architectural register state: the numbered 32-bit register bank, the
//! condition flags held in CPSR, and the condition codes evaluated against
//! them.
//!
//! Registers are named by small indices in architectural order, so that the
//! ascending order used by multi-register transfers is the numeric order of
//! the indices.

use vstd::prelude::*;

verus! {

/// General-purpose registers in architectural order.
pub const R0: u8 = 0;

pub const R1: u8 = 1;

pub const R2: u8 = 2;

pub const R3: u8 = 3;

pub const R4: u8 = 4;

pub const R5: u8 = 5;

pub const R6: u8 = 6;

pub const R7: u8 = 7;

pub const R8: u8 = 8;

/// R9, the static base register.
pub const SB: u8 = 9;

/// R10, the stack limit register.
pub const SL: u8 = 10;

/// R11, the frame pointer.
pub const FP: u8 = 11;

/// R12, the intra-procedure scratch register.
pub const IP: u8 = 12;

/// The stack pointer.
pub const SP: u8 = 13;

/// The link register.
pub const LR: u8 = 14;

/// The program counter.
pub const PC: u8 = 15;

/// The status register holding the N/Z/C/V condition flags.
pub const CPSR: u8 = 16;

/// How many registers the bank holds.
pub const NUM_REGISTERS: usize = 17;

/// The initial stack pointer, the top of the stack region that the linker
/// script of the simulated programs places below `0x80000`.
pub const STACK_TOP: u32 = 0x80000;

/// One of the four condition flags stored in the top bits of CPSR.
#[derive(Clone, Copy, Debug, PartialEq, Eq, Structural)]
pub enum ConditionFlag {
    N,
    Z,
    C,
    V,
}

/// The bit position of a condition flag inside CPSR.
pub open spec fn spec_flag_pos(flag: ConditionFlag) -> u32 {
    match flag {
        ConditionFlag::N => 31,
        ConditionFlag::Z => 30,
        ConditionFlag::C => 29,
        ConditionFlag::V => 28,
    }
}

/// Whether `flag` is set in the given CPSR value.
pub open spec fn spec_read_flag(flag: ConditionFlag, cpsr: u32) -> bool {
    cpsr & (1u32 << spec_flag_pos(flag)) != 0
}

/// The CPSR value after writing `value` into `flag`.
pub open spec fn spec_write_flag(flag: ConditionFlag, cpsr: u32, value: bool) -> u32 {
    if value {
        cpsr | (1u32 << spec_flag_pos(flag))
    } else {
        cpsr & !(1u32 << spec_flag_pos(flag))
    }
}

impl ConditionFlag {
    fn pos(&self) -> (r: u32)
        ensures
            r == spec_flag_pos(*self),
    {
        match self {
            ConditionFlag::N => 31,
            ConditionFlag::Z => 30,
            ConditionFlag::C => 29,
            ConditionFlag::V => 28,
        }
    }

    /// Set or clear this flag inside `cpsr`.
    pub fn write_flag(&self, cpsr: &mut u32, value: bool)
        ensures
            *final(cpsr) == spec_write_flag(*self, *old(cpsr), value),
    {
        if value {
            let mask = 1u32 << self.pos();
            *cpsr = *cpsr | mask;
        } else {
            let mask = !(1u32 << self.pos());
            *cpsr = *cpsr & mask;
        }
    }

    /// Whether this flag is set inside `cpsr`.
    pub fn read_flag(&self, cpsr: u32) -> (r: bool)
        ensures
            r == spec_read_flag(*self, cpsr),
    {
        cpsr & (1u32 << self.pos()) > 0
    }
}

/// Writing one flag leaves every other flag unchanged, and reading back the
/// written flag yields the written value.
pub proof fn lemma_write_flag_effect(flag: ConditionFlag, cpsr: u32, value: bool)
    ensures
        spec_read_flag(flag, spec_write_flag(flag, cpsr, value)) == value,
        forall|other: ConditionFlag|
            other != flag ==> #[trigger] spec_read_flag(other, spec_write_flag(flag, cpsr, value))
                == spec_read_flag(other, cpsr),
{
    assert forall|f: ConditionFlag, o: ConditionFlag, c: u32, v: bool|
        #[trigger] spec_read_flag(o, spec_write_flag(f, c, v)) == (if o == f {
            v
        } else {
            spec_read_flag(o, c)
        }) by {
        let fp = spec_flag_pos(f);
        let op = spec_flag_pos(o);
        assert(28 <= fp <= 31 && 28 <= op <= 31);
        if f == o {
            assert(fp == op);
            assert((if v {
                c | (1u32 << fp)
            } else {
                c & !(1u32 << fp)
            }) & (1u32 << fp) != 0 <==> v) by (bit_vector)
                requires
                    fp <= 31,
            ;
        } else {
            assert(fp != op);
            assert((if v {
                c | (1u32 << fp)
            } else {
                c & !(1u32 << fp)
            }) & (1u32 << op) != 0 <==> c & (1u32 << op) != 0) by (bit_vector)
                requires
                    fp <= 31 && op <= 31 && fp != op,
            ;
        }
    }
}

/// A per-instruction predicate over the condition flags: the instruction
/// executes only when its condition holds of the flags at execute time.
#[derive(Clone, Copy, Debug, PartialEq, Eq, Structural)]
pub enum ConditionCode {
    EQ,
    NE,
    HS,
    LO,
    MI,
    PL,
    VS,
    VC,
    HI,
    LS,
    GE,
    LT,
    GT,
    LE,
    /// Always: the instruction is architecturally unconditional.
    AL,
    /// No meaningful condition: only placeholder instructions carry it, and
    /// they must never execute.
    Invalid,
}

/// Whether a condition code holds of the given CPSR value.
///
/// `Invalid` holds of no state: an instruction carrying it must never be
/// allowed to execute.
pub open spec fn spec_condition_holds(cc: ConditionCode, cpsr: u32) -> bool {
    let n = spec_read_flag(ConditionFlag::N, cpsr);
    let z = spec_read_flag(ConditionFlag::Z, cpsr);
    let c = spec_read_flag(ConditionFlag::C, cpsr);
    let v = spec_read_flag(ConditionFlag::V, cpsr);
    match cc {
        ConditionCode::EQ => z,
        ConditionCode::NE => !z,
        ConditionCode::HS => c,
        ConditionCode::LO => !c,
        ConditionCode::MI => n,
        ConditionCode::PL => !n,
        ConditionCode::VS => v,
        ConditionCode::VC => !v,
        ConditionCode::HI => c && !z,
        ConditionCode::LS => !c || z,
        ConditionCode::GE => n == v,
        ConditionCode::LT => n != v,
        ConditionCode::GT => !z && n == v,
        ConditionCode::LE => z || n != v,
        ConditionCode::AL => true,
        ConditionCode::Invalid => false,
    }
}

/// The condition code that a raw disassembly condition number denotes.
pub open spec fn spec_condition_of(raw: u32) -> ConditionCode {
    if raw == 1 {
        ConditionCode::EQ
    } else if raw == 2 {
        ConditionCode::NE
    } else if raw == 3 {
        ConditionCode::HS
    } else if raw == 4 {
        ConditionCode::LO
    } else if raw == 5 {
        ConditionCode::MI
    } else if raw == 6 {
        ConditionCode::PL
    } else if raw == 7 {
        ConditionCode::VS
    } else if raw == 8 {
        ConditionCode::VC
    } else if raw == 9 {
        ConditionCode::HI
    } else if raw == 10 {
        ConditionCode::LS
    } else if raw == 11 {
        ConditionCode::GE
    } else if raw == 12 {
        ConditionCode::LT
    } else if raw == 13 {
        ConditionCode::GT
    } else if raw == 14 {
        ConditionCode::LE
    } else if raw == 15 {
        ConditionCode::AL
    } else {
        ConditionCode::Invalid
    }
}

impl ConditionCode {
    /// Decode the condition number that the disassembler reports.
    pub fn from_raw(raw: u32) -> (r: ConditionCode)
        ensures
            r == spec_condition_of(raw),
    {
        match raw {
            1 => ConditionCode::EQ,
            2 => ConditionCode::NE,
            3 => ConditionCode::HS,
            4 => ConditionCode::LO,
            5 => ConditionCode::MI,
            6 => ConditionCode::PL,
            7 => ConditionCode::VS,
            8 => ConditionCode::VC,
            9 => ConditionCode::HI,
            10 => ConditionCode::LS,
            11 => ConditionCode::GE,
            12 => ConditionCode::LT,
            13 => ConditionCode::GT,
            14 => ConditionCode::LE,
            15 => ConditionCode::AL,
            _ => ConditionCode::Invalid,
        }
    }
}

/// The architectural register bank: one 32-bit value per register.
pub struct RegisterFile {
    vals: Vec<u32>,
}

impl RegisterFile {
    /// The bank holds exactly the registers named by the id constants.
    pub closed spec fn wf(self) -> bool {
        self.vals@.len() == NUM_REGISTERS
    }

    /// The value of the register with the given id.
    pub closed spec fn reg(self, id: u8) -> u32
        recommends
            id < NUM_REGISTERS,
    {
        self.vals@[id as int]
    }

    /// A fresh register file: SP starts at the top of the stack, every other
    /// register at zero.
    pub fn new() -> (r: RegisterFile)
        ensures
            r.wf(),
            r.reg(SP) == STACK_TOP,
            forall|id: u8| id < NUM_REGISTERS && id != SP ==> #[trigger] r.reg(id) == 0,
    {
        let mut vals: Vec<u32> = Vec::new();
        let mut i: usize = 0;
        while i < NUM_REGISTERS
            invariant
                i <= NUM_REGISTERS,
                vals@.len() == i,
                forall|j: int| 0 <= j < i ==> vals@[j] == 0,
            decreases NUM_REGISTERS - i,
        {
            vals.push(0);
            i = i + 1;
        }
        let mut r = RegisterFile { vals };
        r.vals[SP as usize] = STACK_TOP;
        r
    }

    /// Read a register by id.
    pub fn read_by_id(&self, id: u8) -> (r: u32)
        requires
            self.wf(),
            id < NUM_REGISTERS,
        ensures
            r == self.reg(id),
    {
        self.vals[id as usize]
    }

    /// Write a register by id, leaving every other register unchanged.
    pub fn write_by_id(&mut self, id: u8, value: u32)
        requires
            old(self).wf(),
            id < NUM_REGISTERS,
        ensures
            final(self).wf(),
            final(self).reg(id) == value,
            forall|other: u8|
                other < NUM_REGISTERS && other != id ==> #[trigger] final(self).reg(other) == old(
                    self,
                ).reg(other),
    {
        self.vals[id as usize] = value;
    }

    /// Sort a register list into architectural ascending order, the order in
    /// which multi-register transfers touch memory.
    pub fn push_pop_register_asc(reg_list: &mut Vec<u8>)
        ensures
            final(reg_list)@.len() == old(reg_list)@.len(),
            forall|i: int, j: int|
                0 <= i <= j < final(reg_list)@.len() ==> final(reg_list)@[i] <= final(reg_list)@[j],
            final(reg_list)@.to_multiset() == old(reg_list)@.to_multiset(),
    {
        let mut out: Vec<u8> = Vec::new();
        proof {
            out@.to_multiset_ensures();
            assert(out@.to_multiset() =~= vstd::multiset::Multiset::<u8>::empty());
            assert(out@.to_multiset().add(reg_list@.to_multiset()) =~= reg_list@.to_multiset());
        }
        while reg_list.len() > 0
            invariant
                out@.len() + reg_list@.len() == old(reg_list)@.len(),
                forall|i: int, j: int| 0 <= i <= j < out@.len() ==> out@[i] <= out@[j],
                forall|i: int, j: int|
                    0 <= i < out@.len() && 0 <= j < reg_list@.len() ==> #[trigger] out@[i]
                        <= #[trigger] reg_list@[j],
                out@.to_multiset().add(reg_list@.to_multiset()) == old(reg_list)@.to_multiset(),
            decreases reg_list@.len(),
        {
            let mut min_index: usize = 0;
            let mut k: usize = 1;
            while k < reg_list.len()
                invariant
                    min_index < k <= reg_list@.len(),
                    forall|j: int| 0 <= j < k ==> reg_list@[min_index as int] <= reg_list@[j],
                decreases reg_list@.len() - k,
            {
                if reg_list[k] < reg_list[min_index] {
                    min_index = k;
                }
                k = k + 1;
            }
            let ghost prev_out = out@;
            let ghost prev_rest = reg_list@;
            let x = reg_list.remove(min_index);
            out.push(x);
            proof {
                prev_out.to_multiset_ensures();
                prev_rest.to_multiset_ensures();
                assert(x == prev_rest[min_index as int]);
                assert(prev_rest.to_multiset().count(x) > 0);
                assert(out@ == prev_out.push(x));
                assert(prev_out.push(x).to_multiset() =~= prev_out.to_multiset().insert(x));
                assert(reg_list@ == prev_rest.remove(min_index as int));
                assert(prev_rest.remove(min_index as int).to_multiset() =~= prev_rest.to_multiset()
                    .remove(x));
                assert(out@.to_multiset().add(reg_list@.to_multiset()) =~= prev_out.to_multiset()
                    .add(prev_rest.to_multiset()));
                assert forall|j: int| 0 <= j < reg_list@.len() implies x
                    <= #[trigger] reg_list@[j] by {
                    if j < min_index {
                        assert(reg_list@[j] == prev_rest[j]);
                    } else {
                        assert(reg_list@[j] == prev_rest[j + 1]);
                    }
                }
            }
        }
        proof {
            reg_list@.to_multiset_ensures();
            assert(reg_list@.to_multiset() =~= vstd::multiset::Multiset::<u8>::empty());
            assert(out@.to_multiset().add(reg_list@.to_multiset()) =~= out@.to_multiset());
        }
        *reg_list = out;
    }

    /// The conventional name of a register, as the disassembly prints it.
    pub fn reg_name(reg_id: u8) -> (r: String)
        requires
            reg_id < NUM_REGISTERS,
        ensures
            r@ == spec_reg_name(reg_id),
    {
        let name: &str = match reg_id {
            0 => "R0",
            1 => "R1",
            2 => "R2",
            3 => "R3",
            4 => "R4",
            5 => "R5",
            6 => "R6",
            7 => "R7",
            8 => "R8",
            9 => "SB",
            10 => "SL",
            11 => "FP",
            12 => "IP",
            13 => "SP",
            14 => "LR",
            15 => "PC",
            _ => "CPSR",
        };
        String::from_str(name)
    }
}

/// The conventional name of each register id.
pub open spec fn spec_reg_name(reg_id: u8) -> Seq<char> {
    if reg_id == 0 {
        "R0"@
    } else if reg_id == 1 {
        "R1"@
    } else if reg_id == 2 {
        "R2"@
    } else if reg_id == 3 {
        "R3"@
    } else if reg_id == 4 {
        "R4"@
    } else if reg_id == 5 {
        "R5"@
    } else if reg_id == 6 {
        "R6"@
    } else if reg_id == 7 {
        "R7"@
    } else if reg_id == 8 {
        "R8"@
    } else if reg_id == 9 {
        "SB"@
    } else if reg_id == 10 {
        "SL"@
    } else if reg_id == 11 {
        "FP"@
    } else if reg_id == 12 {
        "IP"@
    } else if reg_id == 13 {
        "SP"@
    } else if reg_id == 14 {
        "LR"@
    } else if reg_id == 15 {
        "PC"@
    } else {
        "CPSR"@
    }
}

} // verus!
