//! The closed set of instruction kinds that the simulator executes.
//!
//! Each decoded instruction is one variant of [`Instruction`]. The scheduler
//! consumes instructions through a narrow contract: the registers they read
//! (`source_registers`), the registers they write (`dest_registers`),
//! whether they must be treated as a control hazard (`hazardous`), and a
//! per-cycle `poll` that either completes with a list of register changes,
//! asks to be polled again (multi-cycle operations), raises the terminal
//! exception of the exit syscall, or faults.

pub mod add;
pub mod adr;
pub mod b;
pub mod bx;
pub mod cmp;
pub mod extends;
pub mod ldm;
pub mod ldr;
pub mod logical;
pub mod mov;
pub mod mul;
pub mod nop;
pub mod pop;
pub mod push;
pub mod shift;
pub mod stm;
pub mod str;
pub mod svc;
pub mod tst;

pub use add::ADD;
pub use adr::ADR;
pub use b::B;
pub use bx::BX;
pub use cmp::CMP;
pub use extends::EXTENDS;
pub use ldm::LDM;
pub use ldr::LDR;
pub use logical::LOGICAL;
pub use mov::MOV;
pub use mul::MUL;
pub use nop::NOP;
pub use pop::POP;
pub use push::PUSH;
pub use shift::SHIFT;
pub use stm::STM;
pub use str::STR;
pub use svc::SVC;
pub use tst::TST;

use crate::cpu_state::station::ReservationStation;
use crate::disasm::RawInstruction;
use crate::disasm::RawOperand;
use crate::disasm::RawOperandKind;
use crate::disasm::RawShift;
use crate::memory::Memory;
use crate::memory::MemoryAccessError;
use crate::registers::spec_write_flag;
use crate::registers::ConditionFlag;
use crate::registers::CPSR;
use crate::registers::NUM_REGISTERS;
use crate::registers::PC;
use vstd::prelude::*;

verus! {

/// A flexible second operand: either a register or an immediate.
#[derive(Clone, Copy, Debug, PartialEq, Eq, Structural)]
pub enum Operand {
    Reg(u8),
    Imm(i32),
}

impl Operand {
    /// The registers this operand reads.
    pub open spec fn regs(self) -> Set<u8> {
        match self {
            Operand::Reg(r) => set![r],
            Operand::Imm(_) => Set::empty(),
        }
    }

    /// Register numbers name actual registers.
    pub open spec fn wf(self) -> bool {
        match self {
            Operand::Reg(r) => r < NUM_REGISTERS as u8,
            Operand::Imm(_) => true,
        }
    }
}

/// A memory-address operand: base register plus either an immediate
/// displacement or a scaled index register.
#[derive(Clone, Copy, Debug, PartialEq, Eq, Structural)]
pub struct MemOperand {
    pub base: u8,
    /// The index register; `None` when the displacement is immediate.
    pub index: Option<u8>,
    /// Multiplies the index register's value; 1 or -1.
    pub scale: i32,
    /// The immediate displacement, used when there is no index register.
    pub disp: i32,
}

impl MemOperand {
    /// The registers this operand reads.
    pub open spec fn regs(self) -> Set<u8> {
        match self.index {
            Some(i) => set![self.base, i],
            None => set![self.base],
        }
    }

    pub open spec fn wf(self) -> bool {
        &&& self.base < NUM_REGISTERS as u8
        &&& match self.index {
            Some(i) => i < NUM_REGISTERS as u8,
            None => true,
        }
    }
}

/// A decode-time failure, surfaced as a typed error: the mnemonic exists but
/// is not implemented, or the Cortex-M0 subset excludes the form.
#[derive(Clone, Debug, PartialEq, Eq)]
pub enum DecodeError {
    Unimplemented(String),
    UnsupportedInCortexM0(String),
}

/// A fatal condition raised by an instruction that actually executed:
/// executing a placeholder for undecodable speculative bytes, a memory
/// access that faults on a definitely-executing instruction, an unknown
/// syscall number, or a committed program-counter value without the Thumb
/// bit.
#[derive(Clone, Debug, PartialEq, Eq)]
pub enum Fault {
    InvalidInstruction,
    FailedDecode(DecodeError),
    MemoryAccess(MemoryAccessError),
    UnknownSyscall(i32),
    UnalignedPc(u32),
}

/// What one `poll` of an instruction produced.
pub enum PollResult {
    /// The instruction finished: its final list of register changes.
    Complete(Vec<(u8, u32)>),
    /// The instruction needs more cycles: the continuation to poll next.
    Again(Instruction),
    /// The terminal trap of the exit syscall, carrying the exit code.
    Exception(u32),
    /// A fatal condition; the simulation halts and reports it.
    Fault(Fault),
}

/// A decoded operation, as one variant of a closed enum.
#[derive(Clone, Debug)]
pub enum Instruction {
    Add(ADD),
    Adr(ADR),
    B(B),
    Bx(BX),
    Cmp(CMP),
    Extends(EXTENDS),
    Ldm(LDM),
    Ldr(LDR),
    Logical(LOGICAL),
    Mov(MOV),
    Mul(MUL),
    Nop(NOP),
    Pop(POP),
    Push(PUSH),
    Shift(SHIFT),
    Stm(STM),
    Str(STR),
    Svc(SVC),
    Tst(TST),
    /// A placeholder for speculatively fetched bytes that do not decode;
    /// fatal only if it actually executes.
    Invalid(InvalidKind),
}

/// Why a placeholder instruction stands in a slot: the bytes decode to
/// nothing, or to a mnemonic the decoder rejects.
#[derive(Clone, Debug, PartialEq, Eq)]
pub enum InvalidKind {
    BadData,
    FailedDecode(DecodeError),
}

/// The registers of a change list.
pub open spec fn change_regs(changes: Seq<(u8, u32)>) -> Set<u8> {
    Set::new(|r: u8| exists|i: int| 0 <= i < changes.len() && changes[i].0 == r)
}

/// All entries of a change list name actual registers.
pub open spec fn changes_wf(changes: Seq<(u8, u32)>) -> bool {
    forall|i: int| 0 <= i < changes.len() ==> (#[trigger] changes[i]).0 < NUM_REGISTERS as u8
}

impl Instruction {
    /// The registers the instruction reads. The scheduler snapshots each of
    /// them (plus the program counter and, for conditional instructions,
    /// the flags) when the instruction is issued.
    pub open spec fn sources(self) -> Set<u8> {
        match self {
            Instruction::Add(i) => i.sources(),
            Instruction::Adr(i) => i.sources(),
            Instruction::B(i) => i.sources(),
            Instruction::Bx(i) => i.sources(),
            Instruction::Cmp(i) => i.sources(),
            Instruction::Extends(i) => i.sources(),
            Instruction::Ldm(i) => i.sources(),
            Instruction::Ldr(i) => i.sources(),
            Instruction::Logical(i) => i.sources(),
            Instruction::Mov(i) => i.sources(),
            Instruction::Mul(i) => i.sources(),
            Instruction::Nop(i) => i.sources(),
            Instruction::Pop(i) => i.sources(),
            Instruction::Push(i) => i.sources(),
            Instruction::Shift(i) => i.sources(),
            Instruction::Stm(i) => i.sources(),
            Instruction::Str(i) => i.sources(),
            Instruction::Svc(i) => i.sources(),
            Instruction::Tst(i) => i.sources(),
            Instruction::Invalid(_) => Set::empty(),
        }
    }

    /// The registers the instruction declares it may write. The scheduler
    /// records each of them in the scoreboard at issue.
    pub open spec fn dests(self) -> Set<u8> {
        match self {
            Instruction::Add(i) => i.dests(),
            Instruction::Adr(i) => i.dests(),
            Instruction::B(i) => i.dests(),
            Instruction::Bx(i) => i.dests(),
            Instruction::Cmp(i) => i.dests(),
            Instruction::Extends(i) => i.dests(),
            Instruction::Ldm(i) => i.dests(),
            Instruction::Ldr(i) => i.dests(),
            Instruction::Logical(i) => i.dests(),
            Instruction::Mov(i) => i.dests(),
            Instruction::Mul(i) => i.dests(),
            Instruction::Nop(i) => i.dests(),
            Instruction::Pop(i) => i.dests(),
            Instruction::Push(i) => i.dests(),
            Instruction::Shift(i) => i.dests(),
            Instruction::Stm(i) => i.dests(),
            Instruction::Str(i) => i.dests(),
            Instruction::Svc(i) => i.dests(),
            Instruction::Tst(i) => i.dests(),
            Instruction::Invalid(_) => Set::empty(),
        }
    }

    /// The register changes a multi-cycle instruction has accumulated but
    /// not yet broadcast.
    pub open spec fn pending_changes(self) -> Set<u8> {
        match self {
            Instruction::B(i) => change_regs(i.changes@),
            Instruction::Bx(i) => change_regs(i.changes@),
            Instruction::Pop(i) => change_regs(i.changes@),
            Instruction::Ldm(i) => change_regs(i.changes@),
            Instruction::Stm(i) => change_regs(i.changes@),
            _ => Set::empty(),
        }
    }

    /// Everything the instruction has promised to the scoreboard: the
    /// registers it still declares as destinations plus the changes it has
    /// accumulated. Continuations of a multi-cycle instruction keep this
    /// set from shrinking, so a completed broadcast always covers every
    /// scoreboard claim recorded at issue.
    pub open spec fn promised(self) -> Set<u8> {
        self.dests().union(self.pending_changes())
    }

    /// Whether the instruction performs a memory side effect or has
    /// variable completion timing, which makes it unsafe to reorder around
    /// regardless of its destination registers: every load, store,
    /// multi-register transfer and trap counts.
    pub open spec fn has_side_effects(self) -> bool {
        match self {
            Instruction::Ldm(_) => true,
            Instruction::Ldr(_) => true,
            Instruction::Pop(_) => true,
            Instruction::Push(_) => true,
            Instruction::Stm(_) => true,
            Instruction::Str(_) => true,
            Instruction::Svc(_) => true,
            _ => false,
        }
    }

    /// Whether the instruction must be treated as a control hazard: it may
    /// write the program counter, or it performs a memory side effect.
    pub open spec fn spec_hazardous(self) -> bool {
        self.dests().contains(PC) || self.has_side_effects()
    }

    /// Register fields stay inside the register bank and bookkeeping lists
    /// stay bounded.
    pub open spec fn wf(self) -> bool {
        match self {
            Instruction::Add(i) => i.wf(),
            Instruction::Adr(i) => i.wf(),
            Instruction::B(i) => i.wf(),
            Instruction::Bx(i) => i.wf(),
            Instruction::Cmp(i) => i.wf(),
            Instruction::Extends(i) => i.wf(),
            Instruction::Ldm(i) => i.wf(),
            Instruction::Ldr(i) => i.wf(),
            Instruction::Logical(i) => i.wf(),
            Instruction::Mov(i) => i.wf(),
            Instruction::Mul(i) => i.wf(),
            Instruction::Nop(i) => true,
            Instruction::Pop(i) => i.wf(),
            Instruction::Push(i) => i.wf(),
            Instruction::Shift(i) => i.wf(),
            Instruction::Stm(i) => i.wf(),
            Instruction::Str(i) => i.wf(),
            Instruction::Svc(i) => true,
            Instruction::Tst(i) => i.wf(),
            Instruction::Invalid(_) => true,
        }
    }
}

impl Instruction {
    /// The registers the instruction reads, as a list; its members are
    /// exactly `sources()`.
    pub fn source_registers(&self) -> (v: Vec<u8>)
        requires
            self.wf(),
        ensures
            v@.to_set() == self.sources(),
            forall|i: int| 0 <= i < v@.len() ==> v@[i] < NUM_REGISTERS as u8,
    {
        let mut v: Vec<u8> = Vec::new();
        match self {
            Instruction::Add(i) => {
                v.push(i.first);
                v.push(CPSR);
                if let Operand::Reg(r) = i.second {
                    v.push(r);
                    proof {
                        assert(v@ =~= seq![i.first, CPSR, r]);
                        lemma_set_of_seq3(i.first, CPSR, r);
                        assert(v@.to_set() =~= self.sources());
                    }
                } else {
                    proof {
                        assert(v@ =~= seq![i.first, CPSR]);
                        lemma_set_of_seq2(i.first, CPSR);
                        assert(v@.to_set() =~= self.sources());
                    }
                }
            },
            Instruction::Adr(_) => {
                proof {
                    assert(v@ =~= Seq::<u8>::empty());
                    lemma_set_of_seq0();
                    assert(v@.to_set() =~= self.sources());
                }
            },
            Instruction::B(_) => {
                proof {
                    assert(v@ =~= Seq::<u8>::empty());
                    lemma_set_of_seq0();
                    assert(v@.to_set() =~= self.sources());
                }
            },
            Instruction::Bx(i) => {
                v.push(i.register);
                proof {
                    assert(v@ =~= seq![i.register]);
                    lemma_set_of_seq1(i.register);
                    assert(v@.to_set() =~= self.sources());
                }
            },
            Instruction::Cmp(i) => {
                v.push(i.first);
                v.push(CPSR);
                if let Operand::Reg(r) = i.second {
                    v.push(r);
                    proof {
                        assert(v@ =~= seq![i.first, CPSR, r]);
                        lemma_set_of_seq3(i.first, CPSR, r);
                        assert(v@.to_set() =~= self.sources());
                    }
                } else {
                    proof {
                        assert(v@ =~= seq![i.first, CPSR]);
                        lemma_set_of_seq2(i.first, CPSR);
                        assert(v@.to_set() =~= self.sources());
                    }
                }
            },
            Instruction::Extends(i) => {
                v.push(i.src);
                proof {
                    assert(v@ =~= seq![i.src]);
                    lemma_set_of_seq1(i.src);
                    assert(v@.to_set() =~= self.sources());
                }
            },
            Instruction::Ldm(i) => {
                v.push(i.base_register);
                proof {
                    assert(v@ =~= seq![i.base_register]);
                    lemma_set_of_seq1(i.base_register);
                    assert(v@.to_set() =~= self.sources());
                }
            },
            Instruction::Ldr(i) => {
                v.push(i.mem.base);
                if let Some(idx) = i.mem.index {
                    v.push(idx);
                    proof {
                        assert(v@ =~= seq![i.mem.base, idx]);
                        lemma_set_of_seq2(i.mem.base, idx);
                        assert(v@.to_set() =~= self.sources());
                    }
                } else {
                    proof {
                        assert(v@ =~= seq![i.mem.base]);
                        lemma_set_of_seq1(i.mem.base);
                        assert(v@.to_set() =~= self.sources());
                    }
                }
            },
            Instruction::Logical(i) => {
                v.push(i.dest);
                v.push(i.second);
                v.push(CPSR);
                proof {
                    assert(v@ =~= seq![i.dest, i.second, CPSR]);
                    lemma_set_of_seq3(i.dest, i.second, CPSR);
                    assert(v@.to_set() =~= self.sources());
                }
            },
            Instruction::Mov(i) => {
                if let Operand::Reg(r) = i.src {
                    v.push(r);
                }
                if i.update_flags {
                    v.push(CPSR);
                }
                proof {
                    match i.src {
                        Operand::Reg(r) => {
                            if i.update_flags {
                                assert(v@ =~= seq![r, CPSR]);
                                lemma_set_of_seq2(r, CPSR);
                            } else {
                                assert(v@ =~= seq![r]);
                                lemma_set_of_seq1(r);
                            }
                        },
                        Operand::Imm(_) => {
                            if i.update_flags {
                                assert(v@ =~= seq![CPSR]);
                                lemma_set_of_seq1(CPSR);
                            } else {
                                assert(v@ =~= Seq::<u8>::empty());
                                lemma_set_of_seq0();
                            }
                        },
                    }
                    assert(v@.to_set() =~= self.sources());
                }
            },
            Instruction::Mul(i) => {
                v.push(i.val);
                v.push(i.dest);
                v.push(CPSR);
                proof {
                    assert(v@ =~= seq![i.val, i.dest, CPSR]);
                    lemma_set_of_seq3(i.val, i.dest, CPSR);
                    assert(v@.to_set() =~= self.sources());
                }
            },
            Instruction::Nop(_) => {
                proof {
                    assert(v@ =~= Seq::<u8>::empty());
                    lemma_set_of_seq0();
                    assert(v@.to_set() =~= self.sources());
                }
            },
            Instruction::Pop(_) => {
                v.push(crate::registers::SP);
                proof {
                    assert(v@ =~= seq![crate::registers::SP]);
                    lemma_set_of_seq1(crate::registers::SP);
                    assert(v@.to_set() =~= self.sources());
                }
            },
            Instruction::Push(i) => {
                v = copy_reg_list(&i.reg_list);
                v.push(crate::registers::SP);
                proof {
                    assert(v@ =~= i.reg_list@.push(crate::registers::SP));
                    lemma_to_set_push(i.reg_list@, crate::registers::SP);
                    assert(v@.to_set() =~= self.sources());
                }
            },
            Instruction::Shift(i) => {
                v.push(i.first);
                v.push(CPSR);
                if let Operand::Reg(r) = i.second {
                    v.push(r);
                    proof {
                        assert(v@ =~= seq![i.first, CPSR, r]);
                        lemma_set_of_seq3(i.first, CPSR, r);
                        assert(v@.to_set() =~= self.sources());
                    }
                } else {
                    proof {
                        assert(v@ =~= seq![i.first, CPSR]);
                        lemma_set_of_seq2(i.first, CPSR);
                        assert(v@.to_set() =~= self.sources());
                    }
                }
            },
            Instruction::Stm(i) => {
                v = copy_reg_list(&i.reg_list);
                v.push(i.base_register);
                proof {
                    assert(v@ =~= i.reg_list@.push(i.base_register));
                    lemma_to_set_push(i.reg_list@, i.base_register);
                    assert(v@.to_set() =~= self.sources());
                }
            },
            Instruction::Str(i) => {
                v.push(i.mem.base);
                if let Some(idx) = i.mem.index {
                    v.push(idx);
                    v.push(i.reg);
                    proof {
                        assert(v@ =~= seq![i.mem.base, idx, i.reg]);
                        lemma_set_of_seq3(i.mem.base, idx, i.reg);
                        assert(v@.to_set() =~= self.sources());
                    }
                } else {
                    v.push(i.reg);
                    proof {
                        assert(v@ =~= seq![i.mem.base, i.reg]);
                        lemma_set_of_seq2(i.mem.base, i.reg);
                        assert(v@.to_set() =~= self.sources());
                    }
                }
            },
            Instruction::Svc(_) => {
                v.push(crate::registers::R0);
                v.push(crate::registers::R1);
                proof {
                    assert(v@ =~= seq![crate::registers::R0, crate::registers::R1]);
                    lemma_set_of_seq2(crate::registers::R0, crate::registers::R1);
                    assert(v@.to_set() =~= self.sources());
                }
            },
            Instruction::Tst(i) => {
                v.push(i.first);
                v.push(CPSR);
                if let Operand::Reg(r) = i.second {
                    v.push(r);
                    proof {
                        assert(v@ =~= seq![i.first, CPSR, r]);
                        lemma_set_of_seq3(i.first, CPSR, r);
                        assert(v@.to_set() =~= self.sources());
                    }
                } else {
                    proof {
                        assert(v@ =~= seq![i.first, CPSR]);
                        lemma_set_of_seq2(i.first, CPSR);
                        assert(v@.to_set() =~= self.sources());
                    }
                }
            },
            Instruction::Invalid(_) => {
                proof {
                    assert(v@ =~= Seq::<u8>::empty());
                    lemma_set_of_seq0();
                    assert(v@.to_set() =~= self.sources());
                }
            },
        }
        v
    }

    /// The registers the instruction declares it may write, as a list; its
    /// members are exactly `dests()`.
    pub fn dest_registers(&self) -> (v: Vec<u8>)
        requires
            self.wf(),
        ensures
            v@.to_set() == self.dests(),
            forall|i: int| 0 <= i < v@.len() ==> v@[i] < NUM_REGISTERS as u8,
    {
        let mut v: Vec<u8> = Vec::new();
        match self {
            Instruction::Add(i) => {
                v.push(i.dest);
                if i.update_flags {
                    v.push(CPSR);
                    proof {
                        assert(v@ =~= seq![i.dest, CPSR]);
                        lemma_set_of_seq2(i.dest, CPSR);
                        assert(v@.to_set() =~= self.dests());
                    }
                } else {
                    proof {
                        assert(v@ =~= seq![i.dest]);
                        lemma_set_of_seq1(i.dest);
                        assert(v@.to_set() =~= self.dests());
                    }
                }
            },
            Instruction::Adr(i) => {
                v.push(i.dest);
                proof {
                    assert(v@ =~= seq![i.dest]);
                    lemma_set_of_seq1(i.dest);
                    assert(v@.to_set() =~= self.dests());
                }
            },
            Instruction::B(i) => {
                v.push(PC);
                if i.with_link {
                    v.push(crate::registers::LR);
                    proof {
                        assert(v@ =~= seq![PC, crate::registers::LR]);
                        lemma_set_of_seq2(PC, crate::registers::LR);
                        assert(v@.to_set() =~= self.dests());
                    }
                } else {
                    proof {
                        assert(v@ =~= seq![PC]);
                        lemma_set_of_seq1(PC);
                        assert(v@.to_set() =~= self.dests());
                    }
                }
            },
            Instruction::Bx(i) => {
                v.push(PC);
                if i.with_link {
                    v.push(crate::registers::LR);
                    proof {
                        assert(v@ =~= seq![PC, crate::registers::LR]);
                        lemma_set_of_seq2(PC, crate::registers::LR);
                        assert(v@.to_set() =~= self.dests());
                    }
                } else {
                    proof {
                        assert(v@ =~= seq![PC]);
                        lemma_set_of_seq1(PC);
                        assert(v@.to_set() =~= self.dests());
                    }
                }
            },
            Instruction::Cmp(_) => {
                v.push(CPSR);
                proof {
                    assert(v@ =~= seq![CPSR]);
                    lemma_set_of_seq1(CPSR);
                    assert(v@.to_set() =~= self.dests());
                }
            },
            Instruction::Extends(i) => {
                v.push(i.dest);
                proof {
                    assert(v@ =~= seq![i.dest]);
                    lemma_set_of_seq1(i.dest);
                    assert(v@.to_set() =~= self.dests());
                }
            },
            Instruction::Ldm(i) => {
                v = copy_reg_list(&i.reg_list);
                if i.writeback {
                    v.push(i.base_register);
                    proof {
                        assert(v@ =~= i.reg_list@.push(i.base_register));
                        lemma_to_set_push(i.reg_list@, i.base_register);
                        assert(v@.to_set() =~= self.dests());
                    }
                } else {
                    proof {
                        assert(v@.to_set() =~= self.dests());
                    }
                }
            },
            Instruction::Ldr(i) => {
                v.push(i.reg);
                proof {
                    assert(v@ =~= seq![i.reg]);
                    lemma_set_of_seq1(i.reg);
                    assert(v@.to_set() =~= self.dests());
                }
            },
            Instruction::Logical(i) => {
                v.push(i.dest);
                v.push(CPSR);
                proof {
                    assert(v@ =~= seq![i.dest, CPSR]);
                    lemma_set_of_seq2(i.dest, CPSR);
                    assert(v@.to_set() =~= self.dests());
                }
            },
            Instruction::Mov(i) => {
                v.push(i.dest);
                if i.update_flags {
                    v.push(CPSR);
                    proof {
                        assert(v@ =~= seq![i.dest, CPSR]);
                        lemma_set_of_seq2(i.dest, CPSR);
                        assert(v@.to_set() =~= self.dests());
                    }
                } else {
                    proof {
                        assert(v@ =~= seq![i.dest]);
                        lemma_set_of_seq1(i.dest);
                        assert(v@.to_set() =~= self.dests());
                    }
                }
            },
            Instruction::Mul(i) => {
                v.push(i.dest);
                v.push(CPSR);
                proof {
                    assert(v@ =~= seq![i.dest, CPSR]);
                    lemma_set_of_seq2(i.dest, CPSR);
                    assert(v@.to_set() =~= self.dests());
                }
            },
            Instruction::Nop(_) => {
                proof {
                    assert(v@ =~= Seq::<u8>::empty());
                    lemma_set_of_seq0();
                    assert(v@.to_set() =~= self.dests());
                }
            },
            Instruction::Pop(i) => {
                v = copy_reg_list(&i.reg_list);
                v.push(crate::registers::SP);
                proof {
                    assert(v@ =~= i.reg_list@.push(crate::registers::SP));
                    lemma_to_set_push(i.reg_list@, crate::registers::SP);
                    assert(v@.to_set() =~= self.dests());
                }
            },
            Instruction::Push(_) => {
                v.push(crate::registers::SP);
                proof {
                    assert(v@ =~= seq![crate::registers::SP]);
                    lemma_set_of_seq1(crate::registers::SP);
                    assert(v@.to_set() =~= self.dests());
                }
            },
            Instruction::Shift(i) => {
                v.push(i.dest);
                v.push(CPSR);
                proof {
                    assert(v@ =~= seq![i.dest, CPSR]);
                    lemma_set_of_seq2(i.dest, CPSR);
                    assert(v@.to_set() =~= self.dests());
                }
            },
            Instruction::Stm(i) => {
                if i.writeback {
                    v.push(i.base_register);
                    proof {
                        assert(v@ =~= seq![i.base_register]);
                        lemma_set_of_seq1(i.base_register);
                        assert(v@.to_set() =~= self.dests());
                    }
                } else {
                    proof {
                        assert(v@ =~= Seq::<u8>::empty());
                        lemma_set_of_seq0();
                        assert(v@.to_set() =~= self.dests());
                    }
                }
            },
            Instruction::Str(_) => {
                proof {
                    assert(v@ =~= Seq::<u8>::empty());
                    lemma_set_of_seq0();
                    assert(v@.to_set() =~= self.dests());
                }
            },
            Instruction::Svc(_) => {
                proof {
                    assert(v@ =~= Seq::<u8>::empty());
                    lemma_set_of_seq0();
                    assert(v@.to_set() =~= self.dests());
                }
            },
            Instruction::Tst(_) => {
                v.push(CPSR);
                proof {
                    assert(v@ =~= seq![CPSR]);
                    lemma_set_of_seq1(CPSR);
                    assert(v@.to_set() =~= self.dests());
                }
            },
            Instruction::Invalid(_) => {
                proof {
                    assert(v@ =~= Seq::<u8>::empty());
                    lemma_set_of_seq0();
                    assert(v@.to_set() =~= self.dests());
                }
            },
        }
        v
    }

    /// Whether the instruction must be treated as a control hazard.
    pub fn hazardous(&self) -> (b: bool)
        requires
            self.wf(),
        ensures
            b == self.spec_hazardous(),
    {
        match self {
            Instruction::Ldm(_) => true,
            Instruction::Ldr(_) => true,
            Instruction::Pop(_) => true,
            Instruction::Push(_) => true,
            Instruction::Stm(_) => true,
            Instruction::Str(_) => true,
            Instruction::Svc(_) => true,
            _ => {
                let dests = self.dest_registers();
                proof {
                    assert(dests@.to_set() == self.dests());
                }
                let n = dests.len();
                let mut i: usize = 0;
                while i < n
                    invariant
                        n == dests@.len(),
                        i <= n,
                        dests@.to_set() == self.dests(),
                        !self.has_side_effects(),
                        forall|j: int| 0 <= j < i ==> dests@[j] != PC,
                    decreases n - i,
                {
                    if dests[i] == PC {
                        proof {
                            assert(dests@[i as int] == PC);
                            assert(dests@.contains(PC));
                            assert(dests@.to_set().contains(PC));
                            assert(self.dests().contains(PC));
                        }
                        return true;
                    }
                    i = i + 1;
                }
                proof {
                    if self.dests().contains(PC) {
                        assert(dests@.to_set().contains(PC));
                        let k = choose|k: int| 0 <= k < dests@.len() && dests@[k] == PC;
                        assert(false);
                    }
                }
                false
            },
        }
    }

    /// While an instruction sits in a station, a program-counter write it
    /// has promised always shows in its declared destinations or in its
    /// side-effect marking, so the hazard scan never misses it.
    pub proof fn lemma_promised_pc_hazardous(self)
        requires
            self.wf(),
            self.promised().contains(PC),
        ensures
            self.spec_hazardous(),
            self.dests().contains(PC),
    {
        match self {
            Instruction::Pop(i) => {
                if !self.dests().contains(PC) {
                    assert(change_regs(i.changes@).contains(PC));
                    assert(i.reg_list@.to_set().contains(PC));
                    assert(false);
                }
            },
            Instruction::Ldm(i) => {
                if self.promised().contains(PC) {
                    if i.writeback && self.dests().contains(PC) {
                        assert(i.reg_list@.to_set().insert(i.base_register).contains(PC));
                        if i.reg_list@.to_set().contains(PC) {
                            let k = choose|k: int|
                                0 <= k < i.reg_list@.len() && i.reg_list@[k] == PC;
                            assert(false);
                        }
                        assert(false);
                    } else if !i.writeback && self.dests().contains(PC) {
                        let k = choose|k: int| 0 <= k < i.reg_list@.len() && i.reg_list@[k] == PC;
                        assert(false);
                    } else {
                        assert(change_regs(i.changes@).contains(PC));
                        let k = choose|k: int| 0 <= k < i.changes@.len() && i.changes@[k].0 == PC;
                        assert(false);
                    }
                }
            },
            Instruction::Stm(i) => {
                if self.dests().contains(PC) {
                    assert(false);
                } else if change_regs(i.changes@).contains(PC) {
                    let k = choose|k: int| 0 <= k < i.changes@.len() && i.changes@[k].0 == PC;
                    assert(false);
                }
            },
            Instruction::B(i) => {
                assert(self.dests().contains(PC));
            },
            Instruction::Bx(i) => {
                assert(self.dests().contains(PC));
            },
            _ => {},
        }
    }
}

/// The change-list lemmas used when relating a poll's result to the
/// instruction's scoreboard promises.
pub proof fn lemma_change_regs_empty()
    ensures
        change_regs(Seq::<(u8, u32)>::empty()) == Set::<u8>::empty(),
{
    assert(change_regs(Seq::<(u8, u32)>::empty()) =~= Set::<u8>::empty());
}

/// Appending one change adds exactly its register to the change set.
pub proof fn lemma_change_regs_push(s: Seq<(u8, u32)>, e: (u8, u32))
    ensures
        change_regs(s.push(e)) == change_regs(s).insert(e.0),
{
    assert forall|y: u8| change_regs(s.push(e)).contains(y) implies change_regs(s).insert(
        e.0,
    ).contains(y) by {
        let i = choose|i: int| 0 <= i < s.push(e).len() && s.push(e)[i].0 == y;
        if i < s.len() {
            assert(s[i].0 == y);
        }
    }
    assert forall|y: u8| change_regs(s).insert(e.0).contains(y) implies change_regs(
        s.push(e),
    ).contains(y) by {
        if y == e.0 {
            assert(s.push(e)[s.len() as int].0 == y);
        } else {
            let i = choose|i: int| 0 <= i < s.len() && s[i].0 == y;
            assert(s.push(e)[i].0 == y);
        }
    }
    assert(change_regs(s.push(e)) =~= change_regs(s).insert(e.0));
}

/// The change set of a one-entry list.
pub proof fn lemma_change_regs_seq1(ch: Seq<(u8, u32)>)
    requires
        ch.len() == 1,
    ensures
        change_regs(ch) == set![ch[0].0],
{
    lemma_change_regs_empty();
    lemma_change_regs_push(Seq::<(u8, u32)>::empty(), ch[0]);
    assert(ch =~= Seq::<(u8, u32)>::empty().push(ch[0]));
    assert(change_regs(ch) =~= set![ch[0].0]);
}

/// The change set of a two-entry list.
pub proof fn lemma_change_regs_seq2(ch: Seq<(u8, u32)>)
    requires
        ch.len() == 2,
    ensures
        change_regs(ch) == set![ch[0].0, ch[1].0],
{
    lemma_change_regs_empty();
    lemma_change_regs_push(Seq::<(u8, u32)>::empty(), ch[0]);
    assert(seq![ch[0]] =~= Seq::<(u8, u32)>::empty().push(ch[0]));
    lemma_change_regs_push(seq![ch[0]], ch[1]);
    assert(ch =~= seq![ch[0]].push(ch[1]));
    assert(change_regs(ch) =~= set![ch[0].0, ch[1].0]);
}

/// A sequence is a prefix of itself.
pub proof fn lemma_prefix_refl(s: Seq<u8>)
    ensures
        s.is_prefix_of(s),
{
    assert(s.subrange(0, s.len() as int) =~= s);
}

impl Instruction {
    /// What every continuation of a multi-cycle instruction preserves: it
    /// stays well-formed, reads no new registers, keeps every scoreboard
    /// promise, and introduces no hazard the original did not declare.
    pub open spec fn continuation_ok(self, n: Instruction) -> bool {
        &&& n.wf()
        &&& n.sources().subset_of(self.sources())
        &&& n.dests().subset_of(self.dests())
        &&& n.promised() == self.promised()
        &&& (n.spec_hazardous() ==> self.spec_hazardous())
    }

    /// Execute one cycle of the instruction against the station's operand
    /// snapshot. Each kind's own `poll` states the exact values produced;
    /// this dispatcher's contract states what the scheduler relies on:
    /// a completed instruction broadcasts exactly the registers it has
    /// promised to the scoreboard, a continuation keeps those promises,
    /// and memory never changes shape.
    #[verifier::rlimit(100)]
    #[verifier::spinoff_prover]
    pub fn poll(&self, station: &ReservationStation, memory: &mut Memory, output: &mut Vec<u8>)
        -> (r: PollResult)
        requires
            self.wf(),
            station.wf(),
            old(memory).wf(),
            station.spec_ready(),
            station.covers(self.sources().insert(PC)),
        ensures
            final(memory).wf(),
            forall|a: u32| #[trigger] final(memory).mapped(a) == old(memory).mapped(a),
            forall|a: u32| #[trigger] final(memory).writable(a) == old(memory).writable(a),
            old(output)@.is_prefix_of(final(output)@),
            r matches PollResult::Again(n) ==> self.continuation_ok(n),
            r matches PollResult::Complete(changes) ==> changes_wf(changes@) && change_regs(
                changes@,
            ) == self.promised(),
            r matches PollResult::Exception(_) ==> self.promised() == Set::<u8>::empty(),
            self matches Instruction::Add(i) ==> (r matches PollResult::Complete(ch) && ch@
                == i.spec_changes(*station)),
            self matches Instruction::Adr(i) ==> (r matches PollResult::Complete(ch) && ch@
                == i.spec_changes(*station)),
            self matches Instruction::Cmp(i) ==> (r matches PollResult::Complete(ch) && ch@
                == i.spec_changes(*station)),
            self matches Instruction::Extends(i) ==> (r matches PollResult::Complete(ch) && ch@
                == i.spec_changes(*station)),
            self matches Instruction::Logical(i) ==> (r matches PollResult::Complete(ch) && ch@
                == i.spec_changes(*station)),
            self matches Instruction::Mov(i) ==> (r matches PollResult::Complete(ch) && ch@
                == i.spec_changes(*station)),
            self matches Instruction::Shift(i) ==> (r matches PollResult::Complete(ch) && ch@
                == i.spec_changes(*station)),
            self matches Instruction::Tst(i) ==> (r matches PollResult::Complete(ch) && ch@
                == i.spec_changes(*station)),
            self matches Instruction::Nop(_) ==> (r matches PollResult::Complete(ch) && ch@.len()
                == 0),
            self matches Instruction::Mul(i) ==> {
                &&& i.cycles < mul::EXTRA_CYCLES ==> (r matches PollResult::Again(n) && n
                    == Instruction::Mul(MUL { cycles: (i.cycles + 1) as u8, ..*i }))
                &&& i.cycles >= mul::EXTRA_CYCLES ==> (r matches PollResult::Complete(ch) && ch@
                    == i.spec_changes(*station))
            },
            self matches Instruction::B(i) ==> {
                &&& i.with_link ==> (r matches PollResult::Again(n) && n matches Instruction::B(
                    b2,
                ) && b2.jump == i.jump && !b2.with_link && b2.changes@ == i.changes@.push(
                    (
                        crate::registers::LR,
                        add_wrap(
                            station.instruction.unwrap().address,
                            station.instruction.unwrap().length,
                        ),
                    ),
                ))
                &&& !i.with_link ==> (r matches PollResult::Complete(ch) && ch@
                    == i.changes@.push(
                    (PC, wrap_to_u32(station.instruction.unwrap().address + i.jump)),
                ))
            },
            self matches Instruction::Bx(i) ==> {
                &&& i.with_link ==> (r matches PollResult::Again(n) && n matches Instruction::Bx(
                    b2,
                ) && b2.register == i.register && !b2.with_link && b2.changes@
                    == i.changes@.push(
                    (
                        crate::registers::LR,
                        add_wrap(
                            station.instruction.unwrap().address,
                            station.instruction.unwrap().length,
                        ),
                    ),
                ))
                &&& !i.with_link ==> (r matches PollResult::Complete(ch) && ch@
                    == i.changes@.push((PC, station.value_at(i.register))))
            },
            self matches Instruction::Ldr(i) ==> {
                &&& !i.waited ==> (r matches PollResult::Again(n) && n == Instruction::Ldr(
                    LDR { waited: true, ..*i },
                ) && *final(memory) == *old(memory))
                &&& i.waited ==> {
                    let addr = station.spec_mem_address(i.mem);
                    &&& old(memory).range_mapped(addr, i.spec_size()) ==> (r
                        matches PollResult::Complete(ch) && ch@ == seq![
                        (i.reg, i.spec_loaded(*old(memory), addr)),
                    ])
                    &&& !old(memory).range_mapped(addr, i.spec_size()) ==> (r
                        matches PollResult::Fault(Fault::MemoryAccess(
                        MemoryAccessError::BadAddress(_),
                    )))
                }
            },
            self matches Instruction::Str(i) ==> {
                &&& !i.waited ==> (r matches PollResult::Again(n) && n == Instruction::Str(
                    STR { waited: true, ..*i },
                ) && *final(memory) == *old(memory))
                &&& i.waited ==> {
                    let addr = station.spec_mem_address(i.mem);
                    let value = station.value_at(i.reg);
                    &&& old(memory).range_writable(addr, i.spec_size()) ==> {
                        &&& r matches PollResult::Complete(ch) && ch@.len() == 0
                        &&& forall|j: int|
                            0 <= j < i.spec_size() ==> final(memory).byte_at((addr + j) as u32)
                                == le_byte(value, j)
                        &&& forall|a: u32|
                            old(memory).mapped(a) && !(addr <= a < addr + i.spec_size())
                                ==> #[trigger] final(memory).byte_at(a) == old(memory).byte_at(a)
                    }
                    &&& !old(memory).range_writable(addr, i.spec_size()) ==> (r
                        matches PollResult::Fault(Fault::MemoryAccess(_)))
                }
            },
            self matches Instruction::Push(i) ==> {
                &&& i.reg_list@.len() == 0 ==> (r matches PollResult::Complete(ch) && ch@ == seq![
                    (crate::registers::SP, i.spec_sp(*station)),
                ] && *final(memory) == *old(memory))
                &&& i.reg_list@.len() > 0 ==> {
                    let sp1 = sub_wrap(i.spec_sp(*station), 4);
                    let value = station.value_at(i.reg_list@[0]);
                    &&& old(memory).range_writable(sp1, 4) ==> {
                        &&& forall|j: int|
                            0 <= j < 4 ==> final(memory).byte_at((sp1 + j) as u32) == le_byte(
                                value,
                                j,
                            )
                        &&& forall|a: u32|
                            old(memory).mapped(a) && !(sp1 <= a < sp1 + 4)
                                ==> #[trigger] final(memory).byte_at(a) == old(memory).byte_at(a)
                        &&& i.reg_list@.len() == 1 ==> (r matches PollResult::Complete(ch) && ch@
                            == seq![(crate::registers::SP, sp1)])
                        &&& i.reg_list@.len() > 1 ==> (r matches PollResult::Again(n) && n
                            matches Instruction::Push(p2) && p2.reg_list@
                            == i.reg_list@.drop_first() && p2.sp == Some(sp1))
                    }
                    &&& !old(memory).range_writable(sp1, 4) ==> (r matches PollResult::Fault(
                        Fault::MemoryAccess(_),
                    ))
                }
            },
            self matches Instruction::Pop(i) ==> {
                &&& i.reg_list@.len() == 0 ==> (r matches PollResult::Complete(ch) && ch@
                    == i.changes@.push((crate::registers::SP, i.spec_sp(*station))))
                &&& i.reg_list@.len() > 0 ==> {
                    let sp0 = i.spec_sp(*station);
                    &&& old(memory).range_mapped(sp0, 4) ==> {
                        let loaded = (i.reg_list@[0], old(memory).word_at(sp0));
                        &&& i.reg_list@.len() == 1 ==> (r matches PollResult::Complete(ch) && ch@
                            == i.changes@.push(loaded).push(
                            (crate::registers::SP, add_wrap(sp0, 4)),
                        ))
                        &&& i.reg_list@.len() > 1 ==> (r matches PollResult::Again(n) && n
                            matches Instruction::Pop(p2) && p2.reg_list@
                            == i.reg_list@.drop_first() && p2.sp == Some(add_wrap(sp0, 4))
                            && p2.changes@ == i.changes@.push(loaded))
                    }
                    &&& !old(memory).range_mapped(sp0, 4) ==> (r matches PollResult::Fault(
                        Fault::MemoryAccess(MemoryAccessError::BadAddress(_)),
                    ))
                }
            },
            self matches Instruction::Ldm(i) ==> {
                let a0 = i.spec_address(*station);
                &&& i.reg_list@.len() > 0 ==> {
                    &&& old(memory).range_mapped(a0, 4) ==> (r matches PollResult::Again(n) && n
                        matches Instruction::Ldm(l2) && l2.base_register == i.base_register
                        && l2.reg_list@ == i.reg_list@.drop_first() && l2.writeback == i.writeback
                        && l2.address == Some(add_wrap(a0, 4)) && l2.changes@ == i.changes@.push(
                        (i.reg_list@[0], old(memory).word_at(a0)),
                    ))
                    &&& !old(memory).range_mapped(a0, 4) ==> (r matches PollResult::Fault(
                        Fault::MemoryAccess(MemoryAccessError::BadAddress(_)),
                    ))
                }
                &&& i.reg_list@.len() == 0 && i.writeback ==> (r matches PollResult::Again(n) && n
                    matches Instruction::Ldm(l2) && l2.base_register == i.base_register
                    && l2.reg_list@.len() == 0 && !l2.writeback && l2.address == Some(a0)
                    && l2.changes@ == i.changes@.push((i.base_register, a0)))
                &&& i.reg_list@.len() == 0 && !i.writeback ==> (r matches PollResult::Complete(ch)
                    && ch@ == i.changes@)
            },
            self matches Instruction::Stm(i) ==> {
                let a0 = i.spec_address(*station);
                &&& i.reg_list@.len() > 0 ==> {
                    let value = station.value_at(i.reg_list@[0]);
                    &&& old(memory).range_writable(a0, 4) ==> {
                        &&& r matches PollResult::Again(n) && n matches Instruction::Stm(s2)
                            && s2.base_register == i.base_register && s2.reg_list@
                            == i.reg_list@.drop_first() && s2.writeback == i.writeback
                            && s2.address == Some(add_wrap(a0, 4)) && s2.changes@ == i.changes@
                        &&& forall|j: int|
                            0 <= j < 4 ==> final(memory).byte_at((a0 + j) as u32) == le_byte(
                                value,
                                j,
                            )
                        &&& forall|a: u32|
                            old(memory).mapped(a) && !(a0 <= a < a0 + 4)
                                ==> #[trigger] final(memory).byte_at(a) == old(memory).byte_at(a)
                    }
                    &&& !old(memory).range_writable(a0, 4) ==> (r matches PollResult::Fault(
                        Fault::MemoryAccess(_),
                    ))
                }
                &&& i.reg_list@.len() == 0 && i.writeback ==> (r matches PollResult::Again(n) && n
                    matches Instruction::Stm(s2) && s2.base_register == i.base_register
                    && s2.reg_list@.len() == 0 && !s2.writeback && s2.address == Some(a0)
                    && s2.changes@ == i.changes@.push((i.base_register, a0))
                    && *final(memory) == *old(memory))
                &&& i.reg_list@.len() == 0 && !i.writeback ==> (r matches PollResult::Complete(ch)
                    && ch@ == i.changes@ && *final(memory) == *old(memory))
            },
            self matches Instruction::Svc(i) ==> {
                &&& i.id == 1 ==> (r matches PollResult::Exception(code) && code
                    == station.value_at(crate::registers::R0) && final(output)@ == old(output)@)
                &&& i.id == 2 ==> {
                    let buffer = station.value_at(crate::registers::R0);
                    let count = station.value_at(crate::registers::R1);
                    &&& old(memory).range_mapped(buffer, count) ==> {
                        &&& r matches PollResult::Complete(ch) && ch@.len() == 0
                        &&& final(output)@.len() == old(output)@.len() + count
                        &&& forall|j: int|
                            0 <= j < count ==> final(output)@[old(output)@.len() + j]
                                == #[trigger] old(memory).byte_at((buffer + j) as u32)
                    }
                    &&& !old(memory).range_mapped(buffer, count) ==> (r
                        matches PollResult::Fault(Fault::MemoryAccess(
                        MemoryAccessError::BadAddress(_),
                    )) && final(output)@ == old(output)@)
                }
                &&& i.id != 1 && i.id != 2 ==> (r matches PollResult::Fault(
                    Fault::UnknownSyscall(id),
                ) && id == i.id && final(output)@ == old(output)@)
            },
            self matches Instruction::Invalid(_) ==> (r matches PollResult::Fault(
                Fault::InvalidInstruction,
            )),
    {
        proof {
            lemma_prefix_refl(output@);
            assert forall|reg: u8| self.sources().contains(reg) implies station.is_ready_at(
                reg,
            ) by {
                assert(self.sources().insert(PC).contains(reg));
                assert(station.operand(reg) is Some);
            }
            assert(self.sources().insert(PC).contains(PC));
            assert(station.is_ready_at(PC));
        }
        let r = match self {
            Instruction::Add(i) => {
                proof {
                    assert(self.sources().contains(i.first));
                    assert(self.sources().contains(CPSR));
                    match i.second {
                        Operand::Reg(reg) => {
                            assert(self.sources().contains(reg));
                        },
                        Operand::Imm(_) => {},
                    }
                }
                let r = i.poll(station);
                proof {
                    let ch = r.arrow_Complete_0();
                    lemma_change_regs_empty();
                    if i.update_flags {
                        lemma_change_regs_push(Seq::<(u8, u32)>::empty(), (i.dest, 0));
                        lemma_change_regs_push(seq![ch@[0]], ch@[1]);
                        assert(seq![ch@[0]].push(ch@[1]) =~= ch@);
                        assert(seq![ch@[0]] =~= Seq::<(u8, u32)>::empty().push(ch@[0]));
                        lemma_change_regs_push(Seq::<(u8, u32)>::empty(), ch@[0]);
                    } else {
                        assert(ch@ =~= Seq::<(u8, u32)>::empty().push(ch@[0]));
                        lemma_change_regs_push(Seq::<(u8, u32)>::empty(), ch@[0]);
                    }
                    assert(change_regs(ch@) =~= self.promised());
                }
                r
            },
            Instruction::Adr(i) => {
                let r = i.poll(station);
                proof {
                    lemma_change_regs_seq1(r.arrow_Complete_0()@);
                    assert(change_regs(r.arrow_Complete_0()@) =~= self.promised());
                }
                r
            },
            Instruction::B(i) => {
                let r = i.poll(station);
                proof {
                    lemma_change_regs_push(i.changes@, (crate::registers::LR, 0));
                    if i.with_link {
                        let n = r.arrow_Again_0();
                        let b2 = n.arrow_B_0();
                        lemma_change_regs_push(i.changes@, b2.changes@.last());
                        assert(b2.changes@ =~= i.changes@.push(b2.changes@.last()));
                        assert forall|k: int| 0 <= k < b2.changes@.len() implies (
                        #[trigger] b2.changes@[k]).0 < NUM_REGISTERS as u8 by {
                            if k < i.changes@.len() {
                                assert(i.changes@[k].0 < NUM_REGISTERS as u8);
                            }
                        }
                        assert(n.promised() =~= self.promised());
                        assert(self.dests().contains(PC));
                        assert(self.continuation_ok(n));
                    } else {
                        let ch = r.arrow_Complete_0();
                        lemma_change_regs_push(i.changes@, ch@.last());
                        assert(ch@ =~= i.changes@.push(ch@.last()));
                        assert forall|k: int| 0 <= k < ch@.len() implies (
                        #[trigger] ch@[k]).0 < NUM_REGISTERS as u8 by {
                            if k < i.changes@.len() {
                                assert(i.changes@[k].0 < NUM_REGISTERS as u8);
                            }
                        }
                        assert(change_regs(ch@) =~= self.promised());
                    }
                }
                r
            },
            Instruction::Bx(i) => {
                proof {
                    assert(self.sources().contains(i.register));
                }
                let r = i.poll(station);
                proof {
                    if i.with_link {
                        let n = r.arrow_Again_0();
                        let b2 = n.arrow_Bx_0();
                        lemma_change_regs_push(i.changes@, b2.changes@.last());
                        assert(b2.changes@ =~= i.changes@.push(b2.changes@.last()));
                        assert forall|k: int| 0 <= k < b2.changes@.len() implies (
                        #[trigger] b2.changes@[k]).0 < NUM_REGISTERS as u8 by {
                            if k < i.changes@.len() {
                                assert(i.changes@[k].0 < NUM_REGISTERS as u8);
                            }
                        }
                        assert(n.promised() =~= self.promised());
                        assert(self.dests().contains(PC));
                        assert(self.continuation_ok(n));
                    } else {
                        let ch = r.arrow_Complete_0();
                        lemma_change_regs_push(i.changes@, ch@.last());
                        assert(ch@ =~= i.changes@.push(ch@.last()));
                        assert forall|k: int| 0 <= k < ch@.len() implies (
                        #[trigger] ch@[k]).0 < NUM_REGISTERS as u8 by {
                            if k < i.changes@.len() {
                                assert(i.changes@[k].0 < NUM_REGISTERS as u8);
                            }
                        }
                        assert(change_regs(ch@) =~= self.promised());
                    }
                }
                r
            },
            Instruction::Cmp(i) => {
                proof {
                    assert(self.sources().contains(i.first));
                    assert(self.sources().contains(CPSR));
                    match i.second {
                        Operand::Reg(reg) => {
                            assert(self.sources().contains(reg));
                        },
                        Operand::Imm(_) => {},
                    }
                }
                let r = i.poll(station);
                proof {
                    lemma_change_regs_seq1(r.arrow_Complete_0()@);
                    assert(change_regs(r.arrow_Complete_0()@) =~= self.promised());
                }
                r
            },
            Instruction::Extends(i) => {
                proof {
                    assert(self.sources().contains(i.src));
                }
                let r = i.poll(station);
                proof {
                    lemma_change_regs_seq1(r.arrow_Complete_0()@);
                    assert(change_regs(r.arrow_Complete_0()@) =~= self.promised());
                }
                r
            },
            Instruction::Ldm(i) => {
                proof {
                    assert(self.sources().contains(i.base_register));
                }
                let r = i.poll(station, memory);
                proof {
                    match &r {
                        PollResult::Again(n) => {
                            let l2 = n.arrow_Ldm_0();
                            if i.reg_list@.len() > 0 {
                                lemma_change_regs_push(i.changes@, l2.changes@.last());
                                assert(l2.changes@ =~= i.changes@.push(l2.changes@.last()));
                                lemma_to_set_drop_first(i.reg_list@);
                                assert forall|k: int| 0 <= k < l2.changes@.len() implies (
                                #[trigger] l2.changes@[k]).0 < NUM_REGISTERS as u8 by {
                                    if k < i.changes@.len() {
                                        assert(i.changes@[k].0 < NUM_REGISTERS as u8);
                                    }
                                }
                                assert forall|k: int| 0 <= k < l2.changes@.len() implies (
                                #[trigger] l2.changes@[k]).0 != PC by {
                                    if k < i.changes@.len() {
                                        assert(i.changes@[k].0 != PC);
                                    }
                                }
                                assert forall|k: int| 0 <= k < l2.reg_list@.len() implies
                                    #[trigger] l2.reg_list@[k] < NUM_REGISTERS as u8
                                    && l2.reg_list@[k] != PC by {
                                    assert(l2.reg_list@[k] == i.reg_list@[k + 1]);
                                }
                                assert(n.promised() =~= self.promised());
                                assert(n.sources() =~= self.sources());
                                assert(n.dests().subset_of(self.dests()));
                                assert(self.spec_hazardous());
                                assert(self.continuation_ok(*n));
                            } else {
                                lemma_change_regs_push(i.changes@, l2.changes@.last());
                                assert(l2.changes@ =~= i.changes@.push(l2.changes@.last()));
                                lemma_set_of_seq0();
                                assert(i.reg_list@ =~= Seq::<u8>::empty());
                                assert(l2.reg_list@ =~= Seq::<u8>::empty());
                                assert forall|k: int| 0 <= k < l2.changes@.len() implies (
                                #[trigger] l2.changes@[k]).0 < NUM_REGISTERS as u8 && (
                                l2.changes@[k]).0 != PC by {
                                    if k < i.changes@.len() {
                                        assert(i.changes@[k].0 < NUM_REGISTERS as u8);
                                        assert(i.changes@[k].0 != PC);
                                    }
                                }
                                assert(n.promised() =~= self.promised());
                                assert(n.sources() =~= self.sources());
                                assert(n.dests().subset_of(self.dests()));
                                assert(self.spec_hazardous());
                                assert(self.continuation_ok(*n));
                            }
                        },
                        PollResult::Complete(ch) => {
                            lemma_set_of_seq0();
                            assert(i.reg_list@ =~= Seq::<u8>::empty());
                            assert(change_regs(ch@) =~= self.promised());
                        },
                        _ => {},
                    }
                }
                r
            },
            Instruction::Ldr(i) => {
                proof {
                    assert(self.sources().contains(i.mem.base));
                    match i.mem.index {
                        Some(idx) => {
                            assert(self.sources().contains(idx));
                        },
                        None => {},
                    }
                }
                let r = i.poll(station, memory);
                proof {
                    match &r {
                        PollResult::Again(n) => {
                            assert(self.continuation_ok(*n));
                        },
                        PollResult::Complete(ch) => {
                            lemma_change_regs_seq1(ch@);
                            assert(change_regs(ch@) =~= self.promised());
                        },
                        _ => {},
                    }
                }
                r
            },
            Instruction::Logical(i) => {
                proof {
                    assert(self.sources().contains(i.dest));
                    assert(self.sources().contains(i.second));
                    assert(self.sources().contains(CPSR));
                }
                let r = i.poll(station);
                proof {
                    lemma_change_regs_seq2(r.arrow_Complete_0()@);
                    assert(change_regs(r.arrow_Complete_0()@) =~= self.promised());
                }
                r
            },
            Instruction::Mov(i) => {
                proof {
                    match i.src {
                        Operand::Reg(reg) => {
                            assert(self.sources().contains(reg));
                        },
                        Operand::Imm(_) => {},
                    }
                    if i.update_flags {
                        assert(self.sources().contains(CPSR));
                    }
                }
                let r = i.poll(station);
                proof {
                    let ch = r.arrow_Complete_0();
                    if i.update_flags {
                        lemma_change_regs_seq2(ch@);
                    } else {
                        lemma_change_regs_seq1(ch@);
                    }
                    assert(change_regs(ch@) =~= self.promised());
                }
                r
            },
            Instruction::Mul(i) => {
                proof {
                    assert(self.sources().contains(i.dest));
                    assert(self.sources().contains(i.val));
                    assert(self.sources().contains(CPSR));
                }
                let r = i.poll(station);
                proof {
                    match &r {
                        PollResult::Again(n) => {
                            assert(self.continuation_ok(*n));
                        },
                        PollResult::Complete(ch) => {
                            lemma_change_regs_seq2(ch@);
                            assert(change_regs(ch@) =~= self.promised());
                        },
                        _ => {},
                    }
                }
                r
            },
            Instruction::Nop(i) => {
                let r = i.poll(station);
                proof {
                    lemma_change_regs_empty();
                    assert(change_regs(r.arrow_Complete_0()@) =~= self.promised());
                }
                r
            },
            Instruction::Pop(i) => {
                proof {
                    assert(self.sources().contains(crate::registers::SP));
                }
                let r = i.poll(station, memory);
                proof {
                    match &r {
                        PollResult::Again(n) => {
                            let p2 = n.arrow_Pop_0();
                            lemma_change_regs_push(i.changes@, p2.changes@.last());
                            assert(p2.changes@ =~= i.changes@.push(p2.changes@.last()));
                            lemma_to_set_drop_first(i.reg_list@);
                            assert forall|k: int| 0 <= k < p2.changes@.len() implies (
                            #[trigger] p2.changes@[k]).0 < NUM_REGISTERS as u8 by {
                                if k < i.changes@.len() {
                                    assert(i.changes@[k].0 < NUM_REGISTERS as u8);
                                } else {
                                    assert(p2.changes@[k].0 == i.reg_list@[0]);
                                }
                            }
                            assert forall|k: int| 0 <= k < p2.reg_list@.len() implies
                                #[trigger] p2.reg_list@[k] < NUM_REGISTERS as u8 by {
                                assert(p2.reg_list@[k] == i.reg_list@[k + 1]);
                            }
                            assert forall|k1: int, k2: int|
                                0 <= k1 <= k2 < p2.reg_list@.len() && (
                                #[trigger] p2.reg_list@[k1]) == PC implies
                                #[trigger] p2.reg_list@[k2] == PC by {
                                assert(p2.reg_list@[k1] == i.reg_list@[k1 + 1]);
                                assert(p2.reg_list@[k2] == i.reg_list@[k2 + 1]);
                            }
                            if change_regs(p2.changes@).contains(PC) {
                                if change_regs(i.changes@).contains(PC) {
                                    assert(i.reg_list@.to_set().contains(PC));
                                    let w = choose|w: int|
                                        0 <= w < i.reg_list@.len() && i.reg_list@[w] == PC;
                                    assert(i.reg_list@.last() == PC);
                                    assert(p2.reg_list@.last() == PC);
                                    assert(p2.reg_list@.to_set().contains(p2.reg_list@.last()));
                                } else {
                                    assert(p2.changes@.last().0 == PC);
                                    assert(i.reg_list@[0] == PC);
                                    assert(i.reg_list@.last() == PC);
                                    assert(p2.reg_list@.last() == PC);
                                    assert(p2.reg_list@.to_set().contains(p2.reg_list@.last()));
                                }
                            }
                            assert(n.promised() =~= self.promised());
                            assert(n.sources() =~= self.sources());
                            lemma_to_set_drop_first(i.reg_list@);
                            assert(n.dests().subset_of(self.dests()));
                            assert(self.spec_hazardous());
                            assert(self.continuation_ok(*n));
                        },
                        PollResult::Complete(ch) => {
                            if i.reg_list@.len() == 0 {
                                lemma_change_regs_push(i.changes@, ch@.last());
                                assert(ch@ =~= i.changes@.push(ch@.last()));
                                lemma_set_of_seq0();
                                assert(i.reg_list@ =~= Seq::<u8>::empty());
                                assert forall|k: int| 0 <= k < ch@.len() implies (
                                #[trigger] ch@[k]).0 < NUM_REGISTERS as u8 by {
                                    if k < i.changes@.len() {
                                        assert(i.changes@[k].0 < NUM_REGISTERS as u8);
                                    }
                                }
                                assert(change_regs(ch@) =~= self.promised());
                            } else {
                                let mid = i.changes@.push(ch@[ch@.len() - 2]);
                                lemma_change_regs_push(i.changes@, ch@[ch@.len() - 2]);
                                lemma_change_regs_push(mid, ch@.last());
                                assert(ch@ =~= mid.push(ch@.last()));
                                lemma_to_set_drop_first(i.reg_list@);
                                assert(i.reg_list@.drop_first() =~= Seq::<u8>::empty());
                                lemma_set_of_seq0();
                                assert forall|k: int| 0 <= k < ch@.len() implies (
                                #[trigger] ch@[k]).0 < NUM_REGISTERS as u8 by {
                                    if k < i.changes@.len() {
                                        assert(i.changes@[k].0 < NUM_REGISTERS as u8);
                                    } else if k == ch@.len() - 2 {
                                        assert(ch@[k].0 == i.reg_list@[0]);
                                    }
                                }
                                assert(change_regs(ch@) =~= self.promised());
                            }
                        },
                        _ => {},
                    }
                }
                r
            },
            Instruction::Push(i) => {
                proof {
                    assert(self.sources().contains(crate::registers::SP));
                    assert forall|k: int| 0 <= k < i.reg_list@.len() implies station.is_ready_at(
                        #[trigger] i.reg_list@[k],
                    ) by {
                        assert(i.reg_list@.to_set().contains(i.reg_list@[k]));
                        assert(self.sources().contains(i.reg_list@[k]));
                    }
                }
                let r = i.poll(station, memory);
                proof {
                    match &r {
                        PollResult::Again(n) => {
                            let p2 = n.arrow_Push_0();
                            lemma_to_set_drop_first(i.reg_list@);
                            assert forall|k: int| 0 <= k < p2.reg_list@.len() implies
                                #[trigger] p2.reg_list@[k] < NUM_REGISTERS as u8 by {
                                assert(p2.reg_list@[k] == i.reg_list@[k + 1]);
                            }
                            assert(n.promised() =~= self.promised());
                            assert(n.sources().subset_of(self.sources()));
                            assert(self.continuation_ok(*n));
                        },
                        PollResult::Complete(ch) => {
                            lemma_change_regs_seq1(ch@);
                            assert(change_regs(ch@) =~= self.promised());
                        },
                        _ => {},
                    }
                }
                r
            },
            Instruction::Shift(i) => {
                proof {
                    assert(self.sources().contains(i.first));
                    assert(self.sources().contains(CPSR));
                    match i.second {
                        Operand::Reg(reg) => {
                            assert(self.sources().contains(reg));
                        },
                        Operand::Imm(_) => {},
                    }
                }
                let r = i.poll(station);
                proof {
                    lemma_change_regs_seq2(r.arrow_Complete_0()@);
                    assert(change_regs(r.arrow_Complete_0()@) =~= self.promised());
                }
                r
            },
            Instruction::Stm(i) => {
                proof {
                    assert(self.sources().contains(i.base_register));
                    assert forall|k: int| 0 <= k < i.reg_list@.len() implies station.is_ready_at(
                        #[trigger] i.reg_list@[k],
                    ) by {
                        assert(i.reg_list@.to_set().contains(i.reg_list@[k]));
                        assert(self.sources().contains(i.reg_list@[k]));
                    }
                }
                let r = i.poll(station, memory);
                proof {
                    match &r {
                        PollResult::Again(n) => {
                            let s2 = n.arrow_Stm_0();
                            if i.reg_list@.len() > 0 {
                                lemma_to_set_drop_first(i.reg_list@);
                                assert forall|k: int| 0 <= k < s2.reg_list@.len() implies
                                    #[trigger] s2.reg_list@[k] < NUM_REGISTERS as u8 by {
                                    assert(s2.reg_list@[k] == i.reg_list@[k + 1]);
                                }
                                assert(n.promised() =~= self.promised());
                                assert(n.sources().subset_of(self.sources()));
                                assert(self.continuation_ok(*n));
                            } else {
                                lemma_change_regs_push(i.changes@, s2.changes@.last());
                                assert(s2.changes@ =~= i.changes@.push(s2.changes@.last()));
                                assert forall|k: int| 0 <= k < s2.changes@.len() implies (
                                #[trigger] s2.changes@[k]).0 < NUM_REGISTERS as u8 && (
                                s2.changes@[k]).0 != PC by {
                                    if k < i.changes@.len() {
                                        assert(i.changes@[k].0 < NUM_REGISTERS as u8);
                                        assert(i.changes@[k].0 != PC);
                                    }
                                }
                                assert(n.promised() =~= self.promised());
                                assert(n.sources() =~= self.sources());
                                assert(self.continuation_ok(*n));
                            }
                        },
                        PollResult::Complete(ch) => {
                            assert(change_regs(ch@) =~= self.promised());
                        },
                        _ => {},
                    }
                }
                r
            },
            Instruction::Str(i) => {
                proof {
                    assert(self.sources().contains(i.mem.base));
                    assert(self.sources().contains(i.reg));
                    match i.mem.index {
                        Some(idx) => {
                            assert(self.sources().contains(idx));
                        },
                        None => {},
                    }
                }
                let r = i.poll(station, memory);
                proof {
                    match &r {
                        PollResult::Again(n) => {
                            assert(self.continuation_ok(*n));
                        },
                        PollResult::Complete(ch) => {
                            lemma_change_regs_empty();
                            assert(change_regs(ch@) =~= self.promised());
                        },
                        _ => {},
                    }
                }
                r
            },
            Instruction::Svc(i) => {
                proof {
                    assert(self.sources().contains(crate::registers::R0));
                    assert(self.sources().contains(crate::registers::R1));
                }
                let r = i.poll(station, memory, output);
                proof {
                    match &r {
                        PollResult::Complete(ch) => {
                            lemma_change_regs_empty();
                            assert(ch@ =~= Seq::<(u8, u32)>::empty());
                            assert(change_regs(ch@) =~= self.promised());
                        },
                        PollResult::Exception(_) => {
                            assert(self.promised() =~= Set::<u8>::empty());
                        },
                        _ => {},
                    }
                }
                r
            },
            Instruction::Tst(i) => {
                proof {
                    assert(self.sources().contains(i.first));
                    assert(self.sources().contains(CPSR));
                    match i.second {
                        Operand::Reg(reg) => {
                            assert(self.sources().contains(reg));
                        },
                        Operand::Imm(_) => {},
                    }
                }
                let r = i.poll(station);
                proof {
                    lemma_change_regs_seq1(r.arrow_Complete_0()@);
                    assert(change_regs(r.arrow_Complete_0()@) =~= self.promised());
                }
                r
            },
            Instruction::Invalid(_) => PollResult::Fault(Fault::InvalidInstruction),
        };
        r
    }
}

/// `first + second`, wrapped to 32 bits.
pub open spec fn add_wrap(first: u32, second: u32) -> u32 {
    if first + second > u32::MAX {
        (first + second - 0x1_0000_0000) as u32
    } else {
        (first + second) as u32
    }
}

/// `first - second`, wrapped to 32 bits.
pub open spec fn sub_wrap(first: u32, second: u32) -> u32 {
    if first >= second {
        (first - second) as u32
    } else {
        (first - second + 0x1_0000_0000) as u32
    }
}

/// A signed interpretation of a 32-bit value.
pub open spec fn as_signed(v: u32) -> int {
    if v >= 0x8000_0000 {
        v - 0x1_0000_0000
    } else {
        v as int
    }
}

/// Whether a mathematical sum falls outside the signed 32-bit range: the
/// signed-overflow flag of an addition or subtraction.
pub open spec fn signed_overflow(v: int) -> bool {
    v < i32::MIN || v > i32::MAX
}

/// An integer in `(-2^32, 2^33)` wrapped to 32 bits: addresses and branch
/// targets computed with signed displacements.
pub open spec fn wrap_to_u32(v: int) -> u32
    recommends
        -0x1_0000_0000 < v < 0x2_0000_0000,
{
    if v < 0 {
        (v + 0x1_0000_0000) as u32
    } else if v > u32::MAX {
        (v - 0x1_0000_0000) as u32
    } else {
        v as u32
    }
}

/// A sum of two signed 32-bit interpretations wrapped back into the signed
/// range: the intermediate value of a carry- or borrow-extended overflow
/// check.
pub open spec fn wrap_to_i32(v: int) -> int
    recommends
        -0x1_0000_0000 <= v < 0x1_0000_0000,
{
    if v > i32::MAX {
        v - 0x1_0000_0000
    } else if v < i32::MIN {
        v + 0x1_0000_0000
    } else {
        v
    }
}

/// Byte `i` of the little-endian encoding of `v`.
pub open spec fn le_byte(v: u32, i: int) -> u8 {
    if i == 0 {
        (v % 256) as u8
    } else if i == 1 {
        ((v / 0x100) % 256) as u8
    } else if i == 2 {
        ((v / 0x10000) % 256) as u8
    } else {
        ((v / 0x1000000) % 256) as u8
    }
}

/// CPSR with the negative and zero flags set from `result`.
pub open spec fn spec_nz(cpsr: u32, result: u32) -> u32 {
    spec_write_flag(
        ConditionFlag::Z,
        spec_write_flag(ConditionFlag::N, cpsr, result >= 0x8000_0000),
        result == 0,
    )
}

/// CPSR with all four flags set: negative and zero from `result`, carry and
/// overflow as given.
pub open spec fn spec_nzcv(cpsr: u32, result: u32, carry: bool, overflow: bool) -> u32 {
    spec_write_flag(
        ConditionFlag::V,
        spec_write_flag(ConditionFlag::C, spec_nz(cpsr, result), carry),
        overflow,
    )
}

/// The signed 32-bit interpretation of `v`, as a machine integer.
pub(crate) fn signed_of(v: u32) -> (r: i64)
    ensures
        r == as_signed(v),
{
    if v >= 0x8000_0000 {
        v as i64 - 0x1_0000_0000i64
    } else {
        v as i64
    }
}

/// An empty list has no members.
pub proof fn lemma_set_of_seq0()
    ensures
        Seq::<u8>::empty().to_set() == Set::<u8>::empty(),
{
    assert forall|y: u8| !Seq::<u8>::empty().to_set().contains(y) by {
        if Seq::<u8>::empty().contains(y) {
            let i = choose|i: int| 0 <= i < Seq::<u8>::empty().len() && Seq::<u8>::empty()[i] == y;
        }
    }
    assert(Seq::<u8>::empty().to_set() =~= Set::<u8>::empty());
}

/// The members of a one-element list.
pub proof fn lemma_set_of_seq1(a: u8)
    ensures
        seq![a].to_set() == set![a],
{
    assert forall|y: u8| seq![a].to_set().contains(y) implies set![a].contains(y) by {
        let i = choose|i: int| 0 <= i < seq![a].len() && seq![a][i] == y;
        assert(seq![a][0] == a);
    }
    assert forall|y: u8| set![a].contains(y) implies seq![a].to_set().contains(y) by {
        assert(seq![a][0] == y);
    }
    assert(seq![a].to_set() =~= set![a]);
}

/// The members of a two-element list.
pub proof fn lemma_set_of_seq2(a: u8, b: u8)
    ensures
        seq![a, b].to_set() == set![a, b],
{
    assert forall|y: u8| seq![a, b].to_set().contains(y) implies set![a, b].contains(y) by {
        let i = choose|i: int| 0 <= i < seq![a, b].len() && seq![a, b][i] == y;
        assert(seq![a, b][0] == a && seq![a, b][1] == b);
    }
    assert forall|y: u8| set![a, b].contains(y) implies seq![a, b].to_set().contains(y) by {
        if y == a {
            assert(seq![a, b][0] == y);
        } else {
            assert(seq![a, b][1] == y);
        }
    }
    assert(seq![a, b].to_set() =~= set![a, b]);
}

/// The members of a three-element list.
pub proof fn lemma_set_of_seq3(a: u8, b: u8, c: u8)
    ensures
        seq![a, b, c].to_set() == set![a, b, c],
{
    assert forall|y: u8| seq![a, b, c].to_set().contains(y) implies set![a, b, c].contains(y) by {
        let i = choose|i: int| 0 <= i < seq![a, b, c].len() && seq![a, b, c][i] == y;
        assert(seq![a, b, c][0] == a && seq![a, b, c][1] == b && seq![a, b, c][2] == c);
    }
    assert forall|y: u8| set![a, b, c].contains(y) implies seq![a, b, c].to_set().contains(y) by {
        if y == a {
            assert(seq![a, b, c][0] == y);
        } else if y == b {
            assert(seq![a, b, c][1] == y);
        } else {
            assert(seq![a, b, c][2] == y);
        }
    }
    assert(seq![a, b, c].to_set() =~= set![a, b, c]);
}

/// Membership in `s.push(x)` is membership in `s` or equality with `x`.
pub proof fn lemma_to_set_push(s: Seq<u8>, x: u8)
    ensures
        s.push(x).to_set() == s.to_set().insert(x),
{
    assert forall|y: u8| s.push(x).to_set().contains(y) implies s.to_set().insert(x).contains(
        y,
    ) by {
        let i = choose|i: int| 0 <= i < s.push(x).len() && s.push(x)[i] == y;
        if i < s.len() {
            assert(s[i] == y);
        }
    }
    assert forall|y: u8| s.to_set().insert(x).contains(y) implies s.push(x).to_set().contains(
        y,
    ) by {
        if y == x {
            assert(s.push(x)[s.len() as int] == y);
        } else {
            let i = choose|i: int| 0 <= i < s.len() && s[i] == y;
            assert(s.push(x)[i] == y);
        }
    }
    assert(s.push(x).to_set() =~= s.to_set().insert(x));
}

/// The members of a list are its first element and the members of the
/// rest.
pub proof fn lemma_to_set_drop_first(s: Seq<u8>)
    requires
        s.len() > 0,
    ensures
        s.to_set() == s.drop_first().to_set().insert(s[0]),
{
    assert forall|y: u8| s.to_set().contains(y) implies s.drop_first().to_set().insert(
        s[0],
    ).contains(y) by {
        let i = choose|i: int| 0 <= i < s.len() && s[i] == y;
        if i > 0 {
            assert(s.drop_first()[i - 1] == y);
        }
    }
    assert forall|y: u8| s.drop_first().to_set().insert(s[0]).contains(y) implies
        s.to_set().contains(y) by {
        if y == s[0] {
            assert(s[0] == y);
        } else {
            let i = choose|i: int| 0 <= i < s.drop_first().len() && s.drop_first()[i] == y;
            assert(s[i + 1] == y);
        }
    }
    assert(s.to_set() =~= s.drop_first().to_set().insert(s[0]));
}

/// An element-for-element copy of a register list.
pub(crate) fn copy_reg_list(v: &Vec<u8>) -> (r: Vec<u8>)
    ensures
        r@ == v@,
{
    let mut r: Vec<u8> = Vec::new();
    let n = v.len();
    let mut i: usize = 0;
    while i < n
        invariant
            n == v@.len(),
            i <= n,
            r@ == v@.subrange(0, i as int),
        decreases n - i,
    {
        r.push(v[i]);
        i = i + 1;
    }
    proof {
        assert(v@.subrange(0, n as int) =~= v@);
    }
    r
}

/// An element-for-element copy of a change list.
pub(crate) fn copy_changes(v: &Vec<(u8, u32)>) -> (r: Vec<(u8, u32)>)
    ensures
        r@ == v@,
{
    let mut r: Vec<(u8, u32)> = Vec::new();
    let n = v.len();
    let mut i: usize = 0;
    while i < n
        invariant
            n == v@.len(),
            i <= n,
            r@ == v@.subrange(0, i as int),
        decreases n - i,
    {
        r.push(v[i]);
        i = i + 1;
    }
    proof {
        assert(v@.subrange(0, n as int) =~= v@);
    }
    r
}

/// The disassembler's numeric ids for the mnemonics of the Cortex-M0
/// subset.
pub const INS_ADC: u32 = 1;

pub const INS_ADD: u32 = 2;

pub const INS_ADR: u32 = 4;

pub const INS_AND: u32 = 9;

pub const INS_ASR: u32 = 10;

pub const INS_B: u32 = 11;

pub const INS_BIC: u32 = 14;

pub const INS_BKPT: u32 = 15;

pub const INS_BL: u32 = 16;

pub const INS_BLX: u32 = 17;

pub const INS_BX: u32 = 19;

pub const INS_CMN: u32 = 28;

pub const INS_CMP: u32 = 29;

pub const INS_CPS: u32 = 30;

pub const INS_DMB: u32 = 43;

pub const INS_DSB: u32 = 44;

pub const INS_EOR: u32 = 45;

pub const INS_ISB: u32 = 66;

pub const INS_LDM: u32 = 79;

pub const INS_LDR: u32 = 83;

pub const INS_LDRB: u32 = 84;

pub const INS_LDRH: u32 = 91;

pub const INS_LDRSB: u32 = 93;

pub const INS_LDRSH: u32 = 95;

pub const INS_LSL: u32 = 98;

pub const INS_LSR: u32 = 99;

pub const INS_MOV: u32 = 106;

pub const INS_MRS: u32 = 114;

pub const INS_MSR: u32 = 115;

pub const INS_MUL: u32 = 116;

pub const INS_MVN: u32 = 117;

pub const INS_NOP: u32 = 119;

pub const INS_ORR: u32 = 121;

pub const INS_POP: u32 = 127;

pub const INS_PUSH: u32 = 128;

pub const INS_REV: u32 = 140;

pub const INS_REV16: u32 = 141;

pub const INS_REVSH: u32 = 142;

pub const INS_ROR: u32 = 147;

pub const INS_RSB: u32 = 149;

pub const INS_SBC: u32 = 154;

pub const INS_SEV: u32 = 160;

pub const INS_STM: u32 = 236;

pub const INS_STR: u32 = 240;

pub const INS_STRB: u32 = 241;

pub const INS_STRH: u32 = 248;

pub const INS_SUB: u32 = 251;

pub const INS_SVC: u32 = 254;

pub const INS_SXTB: u32 = 260;

pub const INS_SXTH: u32 = 262;

pub const INS_TST: u32 = 268;

pub const INS_UXTB: u32 = 304;

pub const INS_UXTH: u32 = 306;

pub const INS_WFE: u32 = 469;

pub const INS_WFI: u32 = 470;

pub const INS_YIELD: u32 = 471;

/// The disassembler's numeric ids for the registers of the bank.
pub const CS_REG_CPSR: u16 = 3;

pub const CS_REG_LR: u16 = 10;

pub const CS_REG_PC: u16 = 11;

pub const CS_REG_SP: u16 = 12;

pub const CS_REG_R0: u16 = 66;

pub const CS_REG_R12: u16 = 78;

/// The architectural register id that a disassembler register number
/// denotes, if any.
pub open spec fn spec_arch_reg(c: u16) -> Option<u8> {
    if CS_REG_R0 <= c <= CS_REG_R12 {
        Some((c - CS_REG_R0) as u8)
    } else if c == CS_REG_SP {
        Some(crate::registers::SP)
    } else if c == CS_REG_LR {
        Some(crate::registers::LR)
    } else if c == CS_REG_PC {
        Some(PC)
    } else if c == CS_REG_CPSR {
        Some(CPSR)
    } else {
        None
    }
}

/// A plain register operand, with no shift attached.
pub open spec fn spec_reg_op(o: RawOperand) -> Option<u8> {
    match o.kind {
        RawOperandKind::Reg(c) => spec_arch_reg(c),
        _ => None,
    }
}

/// An immediate operand.
pub open spec fn spec_imm_op(o: RawOperand) -> Option<i32> {
    match o.kind {
        RawOperandKind::Imm(v) => Some(v),
        _ => None,
    }
}

/// A flexible second operand: an unshifted register or an immediate.
pub open spec fn spec_flex_op(o: RawOperand) -> Option<Operand> {
    match o.kind {
        RawOperandKind::Reg(c) => if o.shift is Invalid {
            match spec_arch_reg(c) {
                Some(r) => Some(Operand::Reg(r)),
                None => None,
            }
        } else {
            None
        },
        RawOperandKind::Imm(v) => Some(Operand::Imm(v)),
        _ => None,
    }
}

/// A memory operand: base plus immediate displacement or a unit-scaled
/// index register.
pub open spec fn spec_mem_op(o: RawOperand) -> Option<MemOperand> {
    match o.kind {
        RawOperandKind::Mem { base, index, scale, disp } => match spec_arch_reg(base) {
            Some(b) => if index == 0 {
                Some(MemOperand { base: b, index: None, scale: 1, disp })
            } else {
                match spec_arch_reg(index) {
                    Some(i) => if scale == 1 || scale == -1 {
                        Some(MemOperand { base: b, index: Some(i), scale, disp })
                    } else {
                        None
                    },
                    None => None,
                }
            },
            None => None,
        },
        _ => None,
    }
}

/// The rejection that a malformed operand list earns.
pub open spec fn spec_shape_err(raw: RawInstruction, r: Result<Instruction, DecodeError>) -> bool {
    r matches Err(DecodeError::Unimplemented(t)) && t@ == raw.text@
}

/// What `decode_instruction` returns for an arithmetic mnemonic: the
/// two-operand form reuses the destination as the first operand.
pub open spec fn spec_alu_shape(
    raw: RawInstruction,
    r: Result<Instruction, DecodeError>,
    mode: add::Mode,
) -> bool {
    if raw.operands@.len() == 2 {
        match (spec_reg_op(raw.operands@[0]), spec_flex_op(raw.operands@[1])) {
            (Some(d), Some(second)) => r == Ok::<Instruction, DecodeError>(
                Instruction::Add(
                    ADD {
                        update_flags: raw.update_flags,
                        mode,
                        dest: d,
                        first: d,
                        second,
                    },
                ),
            ),
            _ => spec_shape_err(raw, r),
        }
    } else if raw.operands@.len() == 3 {
        match (
            spec_reg_op(raw.operands@[0]),
            spec_reg_op(raw.operands@[1]),
            spec_flex_op(raw.operands@[2]),
        ) {
            (Some(d), Some(f), Some(second)) => r == Ok::<Instruction, DecodeError>(
                Instruction::Add(
                    ADD { update_flags: raw.update_flags, mode, dest: d, first: f, second },
                ),
            ),
            _ => spec_shape_err(raw, r),
        }
    } else {
        spec_shape_err(raw, r)
    }
}

/// What `decode_instruction` returns for a shift mnemonic.
pub open spec fn spec_shift_shape(
    raw: RawInstruction,
    r: Result<Instruction, DecodeError>,
    mode: shift::Mode,
) -> bool {
    if raw.operands@.len() == 2 {
        match (spec_reg_op(raw.operands@[0]), spec_flex_op(raw.operands@[1])) {
            (Some(d), Some(second)) => r == Ok::<Instruction, DecodeError>(
                Instruction::Shift(SHIFT { mode, dest: d, first: d, second }),
            ),
            _ => spec_shape_err(raw, r),
        }
    } else if raw.operands@.len() == 3 {
        match (
            spec_reg_op(raw.operands@[0]),
            spec_reg_op(raw.operands@[1]),
            spec_flex_op(raw.operands@[2]),
        ) {
            (Some(d), Some(f), Some(second)) => r == Ok::<Instruction, DecodeError>(
                Instruction::Shift(SHIFT { mode, dest: d, first: f, second }),
            ),
            _ => spec_shape_err(raw, r),
        }
    } else {
        spec_shape_err(raw, r)
    }
}

/// What `decode_instruction` returns for a load or store mnemonic.
pub open spec fn spec_ldr_shape(
    raw: RawInstruction,
    r: Result<Instruction, DecodeError>,
    mode: ldr::Mode,
) -> bool {
    if raw.operands@.len() == 2 {
        match (spec_reg_op(raw.operands@[0]), spec_mem_op(raw.operands@[1])) {
            (Some(reg), Some(mem)) => r == Ok::<Instruction, DecodeError>(
                Instruction::Ldr(LDR { reg, mem, mode, waited: false }),
            ),
            _ => spec_shape_err(raw, r),
        }
    } else {
        spec_shape_err(raw, r)
    }
}

/// What `decode_instruction` returns for a store mnemonic.
pub open spec fn spec_str_shape(
    raw: RawInstruction,
    r: Result<Instruction, DecodeError>,
    mode: str::Mode,
) -> bool {
    if raw.operands@.len() == 2 {
        match (spec_reg_op(raw.operands@[0]), spec_mem_op(raw.operands@[1])) {
            (Some(reg), Some(mem)) => r == Ok::<Instruction, DecodeError>(
                Instruction::Str(STR { reg, mem, mode, waited: false }),
            ),
            _ => spec_shape_err(raw, r),
        }
    } else {
        spec_shape_err(raw, r)
    }
}

/// What `decode_instruction` returns for a bitwise mnemonic.
pub open spec fn spec_logical_shape(
    raw: RawInstruction,
    r: Result<Instruction, DecodeError>,
    mode: logical::Mode,
) -> bool {
    if raw.operands@.len() == 2 {
        match (spec_reg_op(raw.operands@[0]), spec_reg_op(raw.operands@[1])) {
            (Some(d), Some(second)) => r == Ok::<Instruction, DecodeError>(
                Instruction::Logical(LOGICAL { dest: d, second, mode }),
            ),
            _ => spec_shape_err(raw, r),
        }
    } else {
        spec_shape_err(raw, r)
    }
}

/// What `decode_instruction` returns for a compare mnemonic.
pub open spec fn spec_cmp_shape(
    raw: RawInstruction,
    r: Result<Instruction, DecodeError>,
    mode: cmp::Mode,
) -> bool {
    if raw.operands@.len() == 2 {
        match (spec_reg_op(raw.operands@[0]), spec_flex_op(raw.operands@[1])) {
            (Some(f), Some(second)) => r == Ok::<Instruction, DecodeError>(
                Instruction::Cmp(CMP { mode, first: f, second }),
            ),
            _ => spec_shape_err(raw, r),
        }
    } else {
        spec_shape_err(raw, r)
    }
}

/// What `decode_instruction` returns for an extend mnemonic.
pub open spec fn spec_extends_shape(
    raw: RawInstruction,
    r: Result<Instruction, DecodeError>,
    mode: extends::Mode,
) -> bool {
    if raw.operands@.len() == 2 {
        match (spec_reg_op(raw.operands@[0]), spec_reg_op(raw.operands@[1])) {
            (Some(d), Some(src)) => r == Ok::<Instruction, DecodeError>(
                Instruction::Extends(EXTENDS { dest: d, src, mode }),
            ),
            _ => spec_shape_err(raw, r),
        }
    } else {
        spec_shape_err(raw, r)
    }
}

/// All operands of a multi-register transfer list, as architectural ids.
pub open spec fn spec_reg_list_ok(ops: Seq<RawOperand>) -> bool {
    forall|i: int| 0 <= i < ops.len() ==> spec_reg_op(#[trigger] ops[i]) is Some
}

/// The architectural ids of a register-list operand sequence.
pub open spec fn spec_reg_list(ops: Seq<RawOperand>) -> Seq<u8> {
    ops.map(|i: int, o: RawOperand| spec_reg_op(o).unwrap())
}

/// What `decode_instruction` returns by mnemonic id. Push and pop lists
/// are given by membership and order rather than by value, since the
/// architectural ascending order is itself the specification.
pub open spec fn spec_decode_post(
    raw: RawInstruction,
    r: Result<Instruction, DecodeError>,
) -> bool {
    let ops = raw.operands@;
    if raw.insn_id == INS_ADC {
        spec_alu_shape(raw, r, add::Mode::ADC)
    } else if raw.insn_id == INS_ADD {
        spec_alu_shape(raw, r, add::Mode::ADD)
    } else if raw.insn_id == INS_RSB {
        spec_alu_shape(raw, r, add::Mode::RSB)
    } else if raw.insn_id == INS_SBC {
        spec_alu_shape(raw, r, add::Mode::SBC)
    } else if raw.insn_id == INS_SUB {
        spec_alu_shape(raw, r, add::Mode::SUB)
    } else if raw.insn_id == INS_ADR {
        if ops.len() == 2 {
            match (spec_reg_op(ops[0]), spec_imm_op(ops[1])) {
                (Some(d), Some(v)) => r == Ok::<Instruction, DecodeError>(
                    Instruction::Adr(ADR { dest: d, pc_rel: v }),
                ),
                _ => spec_shape_err(raw, r),
            }
        } else {
            spec_shape_err(raw, r)
        }
    } else if raw.insn_id == INS_AND {
        spec_logical_shape(raw, r, logical::Mode::AND)
    } else if raw.insn_id == INS_ORR {
        spec_logical_shape(raw, r, logical::Mode::ORR)
    } else if raw.insn_id == INS_EOR {
        spec_logical_shape(raw, r, logical::Mode::EOR)
    } else if raw.insn_id == INS_BIC {
        spec_logical_shape(raw, r, logical::Mode::BIC)
    } else if raw.insn_id == INS_ASR {
        spec_shift_shape(raw, r, shift::Mode::ASR)
    } else if raw.insn_id == INS_LSL {
        spec_shift_shape(raw, r, shift::Mode::LSL)
    } else if raw.insn_id == INS_LSR {
        spec_shift_shape(raw, r, shift::Mode::LSR)
    } else if raw.insn_id == INS_ROR {
        spec_shift_shape(raw, r, shift::Mode::ROR)
    } else if raw.insn_id == INS_B || raw.insn_id == INS_BL {
        if ops.len() == 1 {
            match spec_imm_op(ops[0]) {
                Some(v) => r matches Ok(i) && i matches Instruction::B(b) && b.jump == v
                    && b.with_link == (raw.insn_id == INS_BL) && b.changes@.len() == 0,
                None => spec_shape_err(raw, r),
            }
        } else {
            spec_shape_err(raw, r)
        }
    } else if raw.insn_id == INS_BX || raw.insn_id == INS_BLX {
        if ops.len() == 1 {
            match spec_reg_op(ops[0]) {
                Some(reg) => r matches Ok(i) && i matches Instruction::Bx(b) && b.register == reg
                    && b.with_link == (raw.insn_id == INS_BLX) && b.changes@.len() == 0,
                None => spec_shape_err(raw, r),
            }
        } else {
            spec_shape_err(raw, r)
        }
    } else if raw.insn_id == INS_CMN {
        spec_cmp_shape(raw, r, cmp::Mode::CMN)
    } else if raw.insn_id == INS_CMP {
        spec_cmp_shape(raw, r, cmp::Mode::CMP)
    } else if raw.insn_id == INS_LDM {
        if ops.len() >= 1 && spec_reg_list_ok(ops) {
            let base = spec_reg_op(ops[0]).unwrap();
            let list = spec_reg_list(ops).drop_first();
            if base != PC && base != CPSR && (forall|i: int|
                0 <= i < list.len() ==> list[i] != PC && #[trigger] list[i] != CPSR) {
                r matches Ok(i) && i matches Instruction::Ldm(l) && l.base_register == base
                    && l.reg_list@ == list && l.writeback == raw.writeback && l.address is None
                    && l.changes@.len() == 0
            } else {
                r matches Err(DecodeError::UnsupportedInCortexM0(t)) && t@ == raw.text@
            }
        } else {
            spec_shape_err(raw, r)
        }
    } else if raw.insn_id == INS_STM {
        if ops.len() >= 1 && spec_reg_list_ok(ops) {
            let base = spec_reg_op(ops[0]).unwrap();
            let list = spec_reg_list(ops).drop_first();
            if base != PC && base != CPSR && (forall|i: int|
                0 <= i < list.len() ==> list[i] != PC && #[trigger] list[i] != CPSR) {
                r matches Ok(i) && i matches Instruction::Stm(l) && l.base_register == base
                    && l.reg_list@ == list && l.writeback == raw.writeback && l.address is None
                    && l.changes@.len() == 0
            } else {
                r matches Err(DecodeError::UnsupportedInCortexM0(t)) && t@ == raw.text@
            }
        } else {
            spec_shape_err(raw, r)
        }
    } else if raw.insn_id == INS_LDR {
        spec_ldr_shape(raw, r, ldr::Mode::Word)
    } else if raw.insn_id == INS_LDRB {
        spec_ldr_shape(raw, r, ldr::Mode::Byte)
    } else if raw.insn_id == INS_LDRH {
        spec_ldr_shape(raw, r, ldr::Mode::HalfWord)
    } else if raw.insn_id == INS_LDRSB {
        spec_ldr_shape(raw, r, ldr::Mode::SignedByte)
    } else if raw.insn_id == INS_LDRSH {
        spec_ldr_shape(raw, r, ldr::Mode::SignedHalfWord)
    } else if raw.insn_id == INS_STR {
        spec_str_shape(raw, r, str::Mode::Word)
    } else if raw.insn_id == INS_STRB {
        spec_str_shape(raw, r, str::Mode::Byte)
    } else if raw.insn_id == INS_STRH {
        spec_str_shape(raw, r, str::Mode::HalfWord)
    } else if raw.insn_id == INS_MOV {
        if ops.len() == 2 {
            match (spec_reg_op(ops[0]), spec_flex_op(ops[1])) {
                (Some(d), Some(src)) => r == Ok::<Instruction, DecodeError>(
                    Instruction::Mov(
                        MOV {
                            update_flags: raw.update_flags,
                            mode: mov::Mode::MOV,
                            dest: d,
                            src,
                        },
                    ),
                ),
                _ => spec_shape_err(raw, r),
            }
        } else {
            spec_shape_err(raw, r)
        }
    } else if raw.insn_id == INS_MVN {
        if ops.len() == 2 {
            match (spec_reg_op(ops[0]), spec_flex_op(ops[1])) {
                (Some(d), Some(src)) => r == Ok::<Instruction, DecodeError>(
                    Instruction::Mov(
                        MOV {
                            update_flags: raw.update_flags,
                            mode: mov::Mode::MVN,
                            dest: d,
                            src,
                        },
                    ),
                ),
                _ => spec_shape_err(raw, r),
            }
        } else {
            spec_shape_err(raw, r)
        }
    } else if raw.insn_id == INS_MUL {
        if ops.len() >= 2 {
            match (spec_reg_op(ops[0]), spec_reg_op(ops[1])) {
                (Some(d), Some(v)) => r == Ok::<Instruction, DecodeError>(
                    Instruction::Mul(MUL { dest: d, val: v, cycles: 0 }),
                ),
                _ => spec_shape_err(raw, r),
            }
        } else {
            spec_shape_err(raw, r)
        }
    } else if raw.insn_id == INS_NOP {
        r == Ok::<Instruction, DecodeError>(Instruction::Nop(NOP {  }))
    } else if raw.insn_id == INS_POP {
        if spec_reg_list_ok(ops) && (forall|i: int|
            0 <= i < ops.len() ==> spec_reg_op(#[trigger] ops[i]).unwrap() <= 7 || spec_reg_op(
                ops[i],
            ).unwrap() == PC) {
            r matches Ok(i) && i matches Instruction::Pop(p) && p.sp is None && p.changes@.len()
                == 0 && p.reg_list@.to_multiset() == spec_reg_list(ops).to_multiset() && (
            forall|i: int, j: int|
                0 <= i <= j < p.reg_list@.len() ==> p.reg_list@[i] <= p.reg_list@[j])
        } else {
            r matches Err(DecodeError::UnsupportedInCortexM0(t)) && t@ == raw.text@
        }
    } else if raw.insn_id == INS_PUSH {
        if spec_reg_list_ok(ops) && (forall|i: int|
            0 <= i < ops.len() ==> spec_reg_op(#[trigger] ops[i]).unwrap() <= 7 || spec_reg_op(
                ops[i],
            ).unwrap() == crate::registers::LR) {
            r matches Ok(i) && i matches Instruction::Push(p) && p.sp is None
                && p.reg_list@.to_multiset() == spec_reg_list(ops).to_multiset() && (
            forall|i: int, j: int|
                0 <= i <= j < p.reg_list@.len() ==> p.reg_list@[i] >= p.reg_list@[j])
        } else {
            r matches Err(DecodeError::UnsupportedInCortexM0(t)) && t@ == raw.text@
        }
    } else if raw.insn_id == INS_SVC {
        if ops.len() == 1 {
            match spec_imm_op(ops[0]) {
                Some(v) => r == Ok::<Instruction, DecodeError>(Instruction::Svc(SVC { id: v })),
                None => spec_shape_err(raw, r),
            }
        } else {
            spec_shape_err(raw, r)
        }
    } else if raw.insn_id == INS_SXTB {
        spec_extends_shape(raw, r, extends::Mode::SXTB)
    } else if raw.insn_id == INS_SXTH {
        spec_extends_shape(raw, r, extends::Mode::SXTH)
    } else if raw.insn_id == INS_UXTB {
        spec_extends_shape(raw, r, extends::Mode::UXTB)
    } else if raw.insn_id == INS_UXTH {
        spec_extends_shape(raw, r, extends::Mode::UXTH)
    } else if raw.insn_id == INS_TST {
        if ops.len() == 2 {
            match (spec_reg_op(ops[0]), spec_flex_op(ops[1])) {
                (Some(f), Some(second)) => r == Ok::<Instruction, DecodeError>(
                    Instruction::Tst(TST { first: f, second }),
                ),
                _ => spec_shape_err(raw, r),
            }
        } else {
            spec_shape_err(raw, r)
        }
    } else if raw.insn_id == INS_BKPT || raw.insn_id == INS_CPS || raw.insn_id == INS_DMB
        || raw.insn_id == INS_DSB || raw.insn_id == INS_ISB || raw.insn_id == INS_MRS
        || raw.insn_id == INS_MSR || raw.insn_id == INS_REV || raw.insn_id == INS_REV16
        || raw.insn_id == INS_REVSH || raw.insn_id == INS_SEV || raw.insn_id == INS_WFE
        || raw.insn_id == INS_WFI || raw.insn_id == INS_YIELD {
        r matches Err(DecodeError::Unimplemented(t)) && t@ == raw.text@
    } else {
        r matches Err(DecodeError::UnsupportedInCortexM0(t)) && t@ == raw.text@
    }
}

/// The architectural register id for a disassembler register number.
fn arch_reg(c: u16) -> (r: Option<u8>)
    ensures
        r == spec_arch_reg(c),
{
    if CS_REG_R0 <= c && c <= CS_REG_R12 {
        Some((c - CS_REG_R0) as u8)
    } else if c == CS_REG_SP {
        Some(crate::registers::SP)
    } else if c == CS_REG_LR {
        Some(crate::registers::LR)
    } else if c == CS_REG_PC {
        Some(PC)
    } else if c == CS_REG_CPSR {
        Some(CPSR)
    } else {
        None
    }
}

fn reg_op(o: &RawOperand) -> (r: Option<u8>)
    ensures
        r == spec_reg_op(*o),
{
    match &o.kind {
        RawOperandKind::Reg(c) => arch_reg(*c),
        _ => None,
    }
}

fn imm_op(o: &RawOperand) -> (r: Option<i32>)
    ensures
        r == spec_imm_op(*o),
{
    match &o.kind {
        RawOperandKind::Imm(v) => Some(*v),
        _ => None,
    }
}

fn flex_op(o: &RawOperand) -> (r: Option<Operand>)
    ensures
        r == spec_flex_op(*o),
{
    match &o.kind {
        RawOperandKind::Reg(c) => {
            match &o.shift {
                RawShift::Invalid => {
                    match arch_reg(*c) {
                        Some(reg) => Some(Operand::Reg(reg)),
                        None => None,
                    }
                },
                _ => None,
            }
        },
        RawOperandKind::Imm(v) => Some(Operand::Imm(*v)),
        _ => None,
    }
}

fn mem_op(o: &RawOperand) -> (r: Option<MemOperand>)
    ensures
        r == spec_mem_op(*o),
{
    match &o.kind {
        RawOperandKind::Mem { base, index, scale, disp } => {
            match arch_reg(*base) {
                Some(b) => {
                    if *index == 0 {
                        Some(MemOperand { base: b, index: None, scale: 1, disp: *disp })
                    } else {
                        match arch_reg(*index) {
                            Some(i) => {
                                if *scale == 1 || *scale == -1 {
                                    Some(
                                        MemOperand {
                                            base: b,
                                            index: Some(i),
                                            scale: *scale,
                                            disp: *disp,
                                        },
                                    )
                                } else {
                                    None
                                }
                            },
                            None => None,
                        }
                    }
                },
                None => None,
            }
        },
        _ => None,
    }
}

/// The rejection for a malformed operand list.
fn shape_err(raw: &RawInstruction) -> (r: DecodeError)
    ensures
        r matches DecodeError::Unimplemented(t) && t@ == raw.text@,
{
    DecodeError::Unimplemented(String::from_str(raw.text.as_str()))
}

/// The rejection for a form outside the Cortex-M0 subset.
fn unsupported_err(raw: &RawInstruction) -> (r: DecodeError)
    ensures
        r matches DecodeError::UnsupportedInCortexM0(t) && t@ == raw.text@,
{
    DecodeError::UnsupportedInCortexM0(String::from_str(raw.text.as_str()))
}

/// The architectural ids of every operand of a register list, or `None`
/// when some operand is not a plain register.
fn reg_list_of(ops: &Vec<RawOperand>) -> (r: Option<Vec<u8>>)
    ensures
        spec_reg_list_ok(ops@) ==> (r matches Some(v) && v@ == spec_reg_list(ops@)),
        !spec_reg_list_ok(ops@) ==> r is None,
{
    let mut out: Vec<u8> = Vec::new();
    let n = ops.len();
    let mut i: usize = 0;
    while i < n
        invariant
            n == ops@.len(),
            i <= n,
            out@.len() == i,
            forall|j: int| 0 <= j < i ==> spec_reg_op(#[trigger] ops@[j]) is Some,
            forall|j: int| 0 <= j < i ==> out@[j] == spec_reg_op(#[trigger] ops@[j]).unwrap(),
        decreases n - i,
    {
        match reg_op(&ops[i]) {
            Some(reg) => out.push(reg),
            None => {
                return None;
            },
        }
        i = i + 1;
    }
    proof {
        assert(out@ =~= spec_reg_list(ops@));
    }
    Some(out)
}

fn decode_alu(raw: &RawInstruction, mode: add::Mode) -> (r: Result<Instruction, DecodeError>)
    ensures
        spec_alu_shape(*raw, r, mode),
{
    if raw.operands.len() == 2 {
        match (reg_op(&raw.operands[0]), flex_op(&raw.operands[1])) {
            (Some(d), Some(second)) => Ok(
                Instruction::Add(
                    ADD { update_flags: raw.update_flags, mode, dest: d, first: d, second },
                ),
            ),
            _ => Err(shape_err(raw)),
        }
    } else if raw.operands.len() == 3 {
        match (reg_op(&raw.operands[0]), reg_op(&raw.operands[1]), flex_op(&raw.operands[2])) {
            (Some(d), Some(f), Some(second)) => Ok(
                Instruction::Add(
                    ADD { update_flags: raw.update_flags, mode, dest: d, first: f, second },
                ),
            ),
            _ => Err(shape_err(raw)),
        }
    } else {
        Err(shape_err(raw))
    }
}

fn decode_shift(raw: &RawInstruction, mode: shift::Mode) -> (r: Result<Instruction, DecodeError>)
    ensures
        spec_shift_shape(*raw, r, mode),
{
    if raw.operands.len() == 2 {
        match (reg_op(&raw.operands[0]), flex_op(&raw.operands[1])) {
            (Some(d), Some(second)) => Ok(
                Instruction::Shift(SHIFT { mode, dest: d, first: d, second }),
            ),
            _ => Err(shape_err(raw)),
        }
    } else if raw.operands.len() == 3 {
        match (reg_op(&raw.operands[0]), reg_op(&raw.operands[1]), flex_op(&raw.operands[2])) {
            (Some(d), Some(f), Some(second)) => Ok(
                Instruction::Shift(SHIFT { mode, dest: d, first: f, second }),
            ),
            _ => Err(shape_err(raw)),
        }
    } else {
        Err(shape_err(raw))
    }
}

fn decode_ldr(raw: &RawInstruction, mode: ldr::Mode) -> (r: Result<Instruction, DecodeError>)
    ensures
        spec_ldr_shape(*raw, r, mode),
{
    if raw.operands.len() == 2 {
        match (reg_op(&raw.operands[0]), mem_op(&raw.operands[1])) {
            (Some(reg), Some(mem)) => Ok(Instruction::Ldr(LDR { reg, mem, mode, waited: false })),
            _ => Err(shape_err(raw)),
        }
    } else {
        Err(shape_err(raw))
    }
}

fn decode_str(raw: &RawInstruction, mode: str::Mode) -> (r: Result<Instruction, DecodeError>)
    ensures
        spec_str_shape(*raw, r, mode),
{
    if raw.operands.len() == 2 {
        match (reg_op(&raw.operands[0]), mem_op(&raw.operands[1])) {
            (Some(reg), Some(mem)) => Ok(Instruction::Str(STR { reg, mem, mode, waited: false })),
            _ => Err(shape_err(raw)),
        }
    } else {
        Err(shape_err(raw))
    }
}

fn decode_logical(raw: &RawInstruction, mode: logical::Mode) -> (r: Result<
    Instruction,
    DecodeError,
>)
    ensures
        spec_logical_shape(*raw, r, mode),
{
    if raw.operands.len() == 2 {
        match (reg_op(&raw.operands[0]), reg_op(&raw.operands[1])) {
            (Some(d), Some(second)) => Ok(Instruction::Logical(LOGICAL { dest: d, second, mode })),
            _ => Err(shape_err(raw)),
        }
    } else {
        Err(shape_err(raw))
    }
}

fn decode_cmp(raw: &RawInstruction, mode: cmp::Mode) -> (r: Result<Instruction, DecodeError>)
    ensures
        spec_cmp_shape(*raw, r, mode),
{
    if raw.operands.len() == 2 {
        match (reg_op(&raw.operands[0]), flex_op(&raw.operands[1])) {
            (Some(f), Some(second)) => Ok(Instruction::Cmp(CMP { mode, first: f, second })),
            _ => Err(shape_err(raw)),
        }
    } else {
        Err(shape_err(raw))
    }
}

fn decode_extends(raw: &RawInstruction, mode: extends::Mode) -> (r: Result<
    Instruction,
    DecodeError,
>)
    ensures
        spec_extends_shape(*raw, r, mode),
{
    if raw.operands.len() == 2 {
        match (reg_op(&raw.operands[0]), reg_op(&raw.operands[1])) {
            (Some(d), Some(src)) => Ok(Instruction::Extends(EXTENDS { dest: d, src, mode })),
            _ => Err(shape_err(raw)),
        }
    } else {
        Err(shape_err(raw))
    }
}

fn decode_multi_list(raw: &RawInstruction) -> (r: Result<(u8, Vec<u8>), DecodeError>)
    ensures
        ({
            let ops = raw.operands@;
            if ops.len() >= 1 && spec_reg_list_ok(ops) {
                let base = spec_reg_op(ops[0]).unwrap();
                let list = spec_reg_list(ops).drop_first();
                if base != PC && base != CPSR && (forall|i: int|
                    0 <= i < list.len() ==> list[i] != PC && #[trigger] list[i] != CPSR) {
                    r matches Ok(p) && p.0 == base && p.1@ == list
                } else {
                    r matches Err(DecodeError::UnsupportedInCortexM0(t)) && t@ == raw.text@
                }
            } else {
                r matches Err(DecodeError::Unimplemented(t)) && t@ == raw.text@
            }
        }),
{
    if raw.operands.len() < 1 {
        return Err(shape_err(raw));
    }
    let all = match reg_list_of(&raw.operands) {
        Some(v) => v,
        None => {
            return Err(shape_err(raw));
        },
    };
    let base = all[0];
    let mut list = all;
    let first = list.remove(0);
    proof {
        assert(list@ =~= spec_reg_list(raw.operands@).drop_first());
    }
    if base == PC || base == CPSR {
        return Err(unsupported_err(raw));
    }
    let n = list.len();
    let mut i: usize = 0;
    while i < n
        invariant
            n == list@.len(),
            i <= n,
            raw.operands@.len() >= 1,
            spec_reg_list_ok(raw.operands@),
            base == spec_reg_op(raw.operands@[0]).unwrap(),
            base != PC && base != CPSR,
            list@ == spec_reg_list(raw.operands@).drop_first(),
            forall|j: int| 0 <= j < i ==> list@[j] != PC && #[trigger] list@[j] != CPSR,
        decreases n - i,
    {
        if list[i] == PC || list[i] == CPSR {
            return Err(unsupported_err(raw));
        }
        i = i + 1;
    }
    Ok((base, list))
}

fn decode_push_pop_list(raw: &RawInstruction, allow: u8) -> (r: Result<Vec<u8>, DecodeError>)
    ensures
        ({
            let ops = raw.operands@;
            if spec_reg_list_ok(ops) && (forall|i: int|
                0 <= i < ops.len() ==> spec_reg_op(#[trigger] ops[i]).unwrap() <= 7 || spec_reg_op(
                    ops[i],
                ).unwrap() == allow) {
                r matches Ok(v) && v@.to_multiset() == spec_reg_list(ops).to_multiset() && (
                forall|i: int, j: int| 0 <= i <= j < v@.len() ==> v@[i] <= v@[j]) && (
                forall|i: int| 0 <= i < v@.len() ==> #[trigger] v@[i] <= 7 || v@[i] == allow)
            } else {
                r matches Err(DecodeError::UnsupportedInCortexM0(t)) && t@ == raw.text@
            }
        }),
{
    let mut list = match reg_list_of(&raw.operands) {
        Some(v) => v,
        None => {
            return Err(unsupported_err(raw));
        },
    };
    let n = list.len();
    let mut i: usize = 0;
    while i < n
        invariant
            n == list@.len(),
            i <= n,
            spec_reg_list_ok(raw.operands@),
            list@ == spec_reg_list(raw.operands@),
            forall|j: int| 0 <= j < i ==> #[trigger] list@[j] <= 7 || list@[j] == allow,
        decreases n - i,
    {
        if !(list[i] <= 7 || list[i] == allow) {
            return Err(unsupported_err(raw));
        }
        i = i + 1;
    }
    proof {
        assert forall|k: int| 0 <= k < raw.operands@.len() implies (spec_reg_op(
            #[trigger] raw.operands@[k],
        ).unwrap() <= 7 || spec_reg_op(raw.operands@[k]).unwrap() == allow) by {
            assert(list@[k] == spec_reg_list(raw.operands@)[k]);
        }
    }
    let ghost pre = list@;
    crate::registers::RegisterFile::push_pop_register_asc(&mut list);
    proof {
        pre.to_multiset_ensures();
        list@.to_multiset_ensures();
        assert forall|k: int| 0 <= k < list@.len() implies #[trigger] list@[k] <= 7 || list@[k]
            == allow by {
            assert(list@.contains(list@[k]));
            assert(list@.to_multiset().count(list@[k]) > 0);
            assert(pre.to_multiset().count(list@[k]) > 0);
            assert(pre.contains(list@[k]));
            let w = choose|w: int| 0 <= w < pre.len() && pre[w] == list@[k];
        }
    }
    Ok(list)
}

/// Every id of an architectural register list lies inside the bank.
proof fn lemma_arch_list_bounds(ops: Seq<RawOperand>, list: Seq<u8>)
    requires
        spec_reg_list_ok(ops),
        ops.len() >= 1,
        list == spec_reg_list(ops).drop_first(),
    ensures
        forall|i: int| 0 <= i < list.len() ==> #[trigger] list[i] < NUM_REGISTERS as u8,
{
    assert forall|i: int| 0 <= i < list.len() implies #[trigger] list[i]
        < NUM_REGISTERS as u8 by {
        assert(list[i] == spec_reg_list(ops)[i + 1]);
        assert(spec_reg_op(ops[i + 1]) is Some);
    }
}

/// Reverse a register list in place.
fn reverse_list(list: &mut Vec<u8>)
    ensures
        final(list)@.len() == old(list)@.len(),
        forall|i: int|
            0 <= i < old(list)@.len() ==> final(list)@[i] == old(list)@[old(list)@.len() - 1 - i],
        final(list)@.to_multiset() == old(list)@.to_multiset(),
{
    let n = list.len();
    let mut out: Vec<u8> = Vec::new();
    let mut i: usize = 0;
    while i < n
        invariant
            n == list@.len(),
            *list == *old(list),
            i <= n,
            out@.len() == i,
            forall|j: int| 0 <= j < i ==> out@[j] == list@[n - 1 - j],
        decreases n - i,
    {
        out.push(list[n - 1 - i]);
        i = i + 1;
    }
    proof {
        assert(out@ =~= old(list)@.reverse());
        old(list)@.lemma_reverse_to_multiset();
    }
    *list = out;
}

/// Turn a disassembled instruction into the operation it denotes, or a
/// typed decode error: mnemonics outside the implemented set report
/// `Unimplemented`, forms the Cortex-M0 cannot encode (and malformed
/// operand lists) report `UnsupportedInCortexM0` or `Unimplemented` as
/// `spec_decode_post` states, case by case.
pub fn decode_instruction(raw: &RawInstruction) -> (r: Result<Instruction, DecodeError>)
    ensures
        spec_decode_post(*raw, r),
        r matches Ok(i) ==> i.wf(),
{
    let id = raw.insn_id;
    if id == INS_ADC {
        decode_alu(raw, add::Mode::ADC)
    } else if id == INS_ADD {
        decode_alu(raw, add::Mode::ADD)
    } else if id == INS_RSB {
        decode_alu(raw, add::Mode::RSB)
    } else if id == INS_SBC {
        decode_alu(raw, add::Mode::SBC)
    } else if id == INS_SUB {
        decode_alu(raw, add::Mode::SUB)
    } else if id == INS_ADR {
        if raw.operands.len() == 2 {
            match (reg_op(&raw.operands[0]), imm_op(&raw.operands[1])) {
                (Some(d), Some(v)) => Ok(Instruction::Adr(ADR { dest: d, pc_rel: v })),
                _ => Err(shape_err(raw)),
            }
        } else {
            Err(shape_err(raw))
        }
    } else if id == INS_AND {
        decode_logical(raw, logical::Mode::AND)
    } else if id == INS_ORR {
        decode_logical(raw, logical::Mode::ORR)
    } else if id == INS_EOR {
        decode_logical(raw, logical::Mode::EOR)
    } else if id == INS_BIC {
        decode_logical(raw, logical::Mode::BIC)
    } else if id == INS_ASR {
        decode_shift(raw, shift::Mode::ASR)
    } else if id == INS_LSL {
        decode_shift(raw, shift::Mode::LSL)
    } else if id == INS_LSR {
        decode_shift(raw, shift::Mode::LSR)
    } else if id == INS_ROR {
        decode_shift(raw, shift::Mode::ROR)
    } else if id == INS_B || id == INS_BL {
        if raw.operands.len() == 1 {
            match imm_op(&raw.operands[0]) {
                Some(v) => Ok(Instruction::B(B::new(v, id == INS_BL))),
                None => Err(shape_err(raw)),
            }
        } else {
            Err(shape_err(raw))
        }
    } else if id == INS_BX || id == INS_BLX {
        if raw.operands.len() == 1 {
            match reg_op(&raw.operands[0]) {
                Some(reg) => Ok(Instruction::Bx(BX::new(reg, id == INS_BLX))),
                None => Err(shape_err(raw)),
            }
        } else {
            Err(shape_err(raw))
        }
    } else if id == INS_CMN {
        decode_cmp(raw, cmp::Mode::CMN)
    } else if id == INS_CMP {
        decode_cmp(raw, cmp::Mode::CMP)
    } else if id == INS_LDM {
        match decode_multi_list(raw) {
            Ok((base, list)) => {
                proof {
                    lemma_arch_list_bounds(raw.operands@, list@);
                    lemma_change_regs_empty();
                }
                Ok(Instruction::Ldm(LDM::new(base, list, raw.writeback)))
            },
            Err(e) => Err(e),
        }
    } else if id == INS_STM {
        match decode_multi_list(raw) {
            Ok((base, list)) => {
                proof {
                    lemma_arch_list_bounds(raw.operands@, list@);
                    lemma_change_regs_empty();
                }
                Ok(Instruction::Stm(STM::new(base, list, raw.writeback)))
            },
            Err(e) => Err(e),
        }
    } else if id == INS_LDR {
        decode_ldr(raw, ldr::Mode::Word)
    } else if id == INS_LDRB {
        decode_ldr(raw, ldr::Mode::Byte)
    } else if id == INS_LDRH {
        decode_ldr(raw, ldr::Mode::HalfWord)
    } else if id == INS_LDRSB {
        decode_ldr(raw, ldr::Mode::SignedByte)
    } else if id == INS_LDRSH {
        decode_ldr(raw, ldr::Mode::SignedHalfWord)
    } else if id == INS_STR {
        decode_str(raw, str::Mode::Word)
    } else if id == INS_STRB {
        decode_str(raw, str::Mode::Byte)
    } else if id == INS_STRH {
        decode_str(raw, str::Mode::HalfWord)
    } else if id == INS_MOV || id == INS_MVN {
        if raw.operands.len() == 2 {
            match (reg_op(&raw.operands[0]), flex_op(&raw.operands[1])) {
                (Some(d), Some(src)) => Ok(
                    Instruction::Mov(
                        MOV {
                            update_flags: raw.update_flags,
                            mode: if id == INS_MVN {
                                mov::Mode::MVN
                            } else {
                                mov::Mode::MOV
                            },
                            dest: d,
                            src,
                        },
                    ),
                ),
                _ => Err(shape_err(raw)),
            }
        } else {
            Err(shape_err(raw))
        }
    } else if id == INS_MUL {
        if raw.operands.len() >= 2 {
            match (reg_op(&raw.operands[0]), reg_op(&raw.operands[1])) {
                (Some(d), Some(v)) => Ok(Instruction::Mul(MUL::new(d, v))),
                _ => Err(shape_err(raw)),
            }
        } else {
            Err(shape_err(raw))
        }
    } else if id == INS_NOP {
        Ok(Instruction::Nop(NOP::new()))
    } else if id == INS_POP {
        match decode_push_pop_list(raw, PC) {
            Ok(list) => {
                proof {
                    lemma_change_regs_empty();
                    assert forall|i: int, j: int|
                        0 <= i <= j < list@.len() && (#[trigger] list@[i]) == PC implies
                        #[trigger] list@[j] == PC by {
                        assert(list@[j] >= list@[i]);
                        assert(list@[j] <= 7 || list@[j] == PC);
                    }
                    if change_regs(Seq::<(u8, u32)>::empty()).contains(PC) {
                        let w = choose|w: int|
                            0 <= w < Seq::<(u8, u32)>::empty().len() && Seq::<(
                                u8,
                                u32,
                            )>::empty()[w].0 == PC;
                        assert(false);
                    }
                }
                Ok(Instruction::Pop(POP::new(list)))
            },
            Err(e) => Err(e),
        }
    } else if id == INS_PUSH {
        match decode_push_pop_list(raw, crate::registers::LR) {
            Ok(mut list) => {
                reverse_list(&mut list);
                Ok(Instruction::Push(PUSH::new(list)))
            },
            Err(e) => Err(e),
        }
    } else if id == INS_SVC {
        if raw.operands.len() == 1 {
            match imm_op(&raw.operands[0]) {
                Some(v) => Ok(Instruction::Svc(SVC::new(v))),
                None => Err(shape_err(raw)),
            }
        } else {
            Err(shape_err(raw))
        }
    } else if id == INS_SXTB {
        decode_extends(raw, extends::Mode::SXTB)
    } else if id == INS_SXTH {
        decode_extends(raw, extends::Mode::SXTH)
    } else if id == INS_UXTB {
        decode_extends(raw, extends::Mode::UXTB)
    } else if id == INS_UXTH {
        decode_extends(raw, extends::Mode::UXTH)
    } else if id == INS_TST {
        if raw.operands.len() == 2 {
            match (reg_op(&raw.operands[0]), flex_op(&raw.operands[1])) {
                (Some(f), Some(second)) => Ok(Instruction::Tst(TST { first: f, second })),
                _ => Err(shape_err(raw)),
            }
        } else {
            Err(shape_err(raw))
        }
    } else if id == INS_BKPT || id == INS_CPS || id == INS_DMB || id == INS_DSB || id == INS_ISB
        || id == INS_MRS || id == INS_MSR || id == INS_REV || id == INS_REV16 || id == INS_REVSH
        || id == INS_SEV || id == INS_WFE || id == INS_WFI || id == INS_YIELD {
        Err(shape_err(raw))
    } else {
        Err(unsupported_err(raw))
    }
}

} // verus!
