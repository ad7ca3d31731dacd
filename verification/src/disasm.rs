//! The interface to the outside disassembler.
//!
//! The simulator core never inspects raw instruction encodings itself: a
//! `Decoder` wraps a capstone engine configured once for little-endian Thumb
//! with details enabled, and hands back a `RawInstruction`, a plain-value
//! record of everything the decode stage reads — the instruction id, the
//! condition, the flag/writeback markers and the operand list.

use vstd::prelude::*;

use capstone::arch::BuildsCapstone;
use capstone::arch::BuildsCapstoneEndian;
use capstone::arch::DetailsArchInsn;
use capstone::arch::arm::ArmOperandType;
use capstone::arch::arm::ArmShift;

verus! {

#[verifier::external_type_specification]
#[verifier::external_body]
pub struct ExCapstone(capstone::Capstone);

#[verifier::external_type_specification]
#[verifier::external_body]
pub struct ExArmOperand(capstone::arch::arm::ArmOperand);

#[verifier::external_type_specification]
#[verifier::external_body]
pub struct ExArmShift(capstone::arch::arm::ArmShift);

/// What one disassembled instruction looks like to the decode stage: plain
/// values only.
pub struct RawInstruction {
    /// The disassembler's numeric instruction id.
    pub insn_id: u32,
    /// The printed disassembly, mnemonic and operands.
    pub text: String,
    /// How many bytes the instruction occupies.
    pub length: u32,
    /// The raw condition number; `ConditionCode::from_raw` interprets it.
    pub cc: u32,
    /// Whether the instruction updates the condition flags.
    pub update_flags: bool,
    /// Whether the instruction writes its base register back.
    pub writeback: bool,
    /// The operand list, in disassembly order.
    pub operands: Vec<RawOperand>,
}

/// One operand as the disassembler reports it.
pub struct RawOperand {
    pub kind: RawOperandKind,
    pub shift: RawShift,
    pub subtracted: bool,
}

/// The kind of an operand. Register numbers are the disassembler's own
/// numbering; the decode stage translates them to architectural ids.
pub enum RawOperandKind {
    Reg(u16),
    Imm(i32),
    Mem { base: u16, index: u16, scale: i32, disp: i32 },
    /// A floating-point operand; nothing in the Thumb subset reads its value.
    Fp,
    Cimm(i32),
    Pimm(i32),
    Setend,
    SysReg(u16),
    Invalid,
}

/// An operand shift. Thumb data-processing operands carry no shift, so the
/// decode stage accepts only `Invalid`.
pub enum RawShift {
    Invalid,
    Asr(u32),
    Lsl(u32),
    Lsr(u32),
    Ror(u32),
    Rrx(u32),
    AsrReg(u16),
    LslReg(u16),
    LsrReg(u16),
    RorReg(u16),
    RrxReg(u16),
}

/// What the disassembler returns for a given byte sequence: the engine is
/// configured identically by every `Decoder`, so the result depends on the
/// bytes alone. `None` means the bytes form no valid instruction.
pub uninterp spec fn disasm_of(code: Seq<u8>) -> Option<RawInstruction>;

/// An owned disassembler engine, handed by reference into the decode stage.
pub struct Decoder {
    cs: capstone::Capstone,
}

impl Decoder {
    /// Relies on capstone's builder to construct an ARM engine in Thumb
    /// mode, little-endian, with details enabled; `None` when the engine
    /// cannot be built.
    #[verifier::external_body]
    pub fn new() -> (r: Option<Decoder>) {
        let cs = capstone::Capstone::new().arm().mode(
            capstone::arch::arm::ArchMode::Thumb,
        ).endian(capstone::Endian::Little).detail(true).build().ok()?;
        Some(Decoder { cs })
    }

    /// Relies on capstone's `disasm_count`, `insn_detail` and the ARM detail
    /// accessors: disassembles the first instruction of `code` and copies
    /// out its id, text, length, condition, flag/writeback markers and
    /// operands. The engine is deterministic, so the result is named
    /// `disasm_of(code)`.
    #[verifier::external_body]
    pub fn disasm_first(&self, code: &Vec<u8>) -> (r: Option<RawInstruction>)
        ensures
            r == disasm_of(code@),
    {
        let insns = self.cs.disasm_count(code, 0, 1).ok()?;
        let insn = insns.iter().next()?;
        let detail = self.cs.insn_detail(insn).ok()?;
        let arch = detail.arch_detail();
        let arm = arch.arm()?;
        let mut operands: Vec<RawOperand> = Vec::new();
        for op in arm.operands() { operands.push(raw_operand(&op)); }
        let text = format!("{} {}", insn.mnemonic().unwrap_or(""), insn.op_str().unwrap_or(""));
        Some(RawInstruction {
            insn_id: insn.id().0, text, length: insn.bytes().len() as u32, cc: arm.cc() as u32,
            update_flags: arm.update_flags(), writeback: arm.writeback(), operands,
        })
    }
}

/// Relies on the `ArmOperand` fields of capstone: copies each operand
/// variant into its plain-value counterpart, field by field, for
/// `Decoder::disasm_first`.
#[verifier::external_body]
fn raw_operand(op: &capstone::arch::arm::ArmOperand) -> RawOperand {
    let kind = match &op.op_type {
        ArmOperandType::Reg(r) => RawOperandKind::Reg(r.0),
        ArmOperandType::Imm(v) => RawOperandKind::Imm(*v),
        ArmOperandType::Mem(m) => RawOperandKind::Mem {
            base: m.base().0, index: m.index().0, scale: m.scale(), disp: m.disp(),
        },
        ArmOperandType::Fp(_) => RawOperandKind::Fp,
        ArmOperandType::Cimm(v) => RawOperandKind::Cimm(*v),
        ArmOperandType::Pimm(v) => RawOperandKind::Pimm(*v),
        ArmOperandType::Setend(_) => RawOperandKind::Setend,
        ArmOperandType::SysReg(r) => RawOperandKind::SysReg(r.0),
        ArmOperandType::Invalid => RawOperandKind::Invalid,
    };
    RawOperand { kind, shift: raw_shift(&op.shift), subtracted: op.subtracted }
}

/// Relies on the `ArmShift` variants of capstone: copies each shift variant
/// into its plain-value counterpart for `raw_operand`.
#[verifier::external_body]
fn raw_shift(shift: &capstone::arch::arm::ArmShift) -> RawShift {
    match shift {
        ArmShift::Invalid => RawShift::Invalid,
        ArmShift::Asr(v) => RawShift::Asr(*v),
        ArmShift::Lsl(v) => RawShift::Lsl(*v),
        ArmShift::Lsr(v) => RawShift::Lsr(*v),
        ArmShift::Ror(v) => RawShift::Ror(*v),
        ArmShift::Rrx(v) => RawShift::Rrx(*v),
        ArmShift::AsrReg(r) => RawShift::AsrReg(r.0),
        ArmShift::LslReg(r) => RawShift::LslReg(r.0),
        ArmShift::LsrReg(r) => RawShift::LsrReg(r.0),
        ArmShift::RorReg(r) => RawShift::RorReg(r.0),
        ArmShift::RrxReg(r) => RawShift::RrxReg(r.0),
    }
}

} // verus!
