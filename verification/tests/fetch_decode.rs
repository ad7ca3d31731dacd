use thumbsim::cpu_state::fetch::thumb_instruction_length;
use thumbsim::cpu_state::CpuState;
use thumbsim::disasm::Decoder;
use thumbsim::instructions::decode_instruction;
use thumbsim::instructions::mov;
use thumbsim::instructions::DecodeError;
use thumbsim::instructions::Instruction;
use thumbsim::instructions::Operand;
use thumbsim::instructions::INS_MOV;
use thumbsim::instructions::INS_PUSH;
use thumbsim::memory::Memory;

/// Bytes whose first halfword has bits [15:11] of 0b11101, 0b11110 or
/// 0b11111 start a 32-bit instruction; every other pattern is 16-bit.
/// Exhaustive over all 32 five-bit patterns.
#[test]
fn thumb_length_table() {
    for pattern in 0u8..32u8 {
        let b1 = (pattern << 3) | 0b101;
        let expected = if pattern == 0b11101 || pattern == 0b11110 || pattern == 0b11111 {
            4
        } else {
            2
        };
        assert_eq!(thumb_instruction_length(0x34, b1), expected);
        let b1_low = pattern << 3;
        assert_eq!(thumb_instruction_length(0xFF, b1_low), expected);
    }
}

#[test]
fn fetch_reads_a_halfword_instruction_and_advances() {
    let mut memory = Memory::default();
    // PUSH {LR} followed by a NOP.
    memory.mmap(0x1000, vec![0x00, 0xB5, 0x00, 0xBF], false);
    let state = CpuState::new(0x1001, 1);
    let fetch = state.fetch(&memory).expect("fetch");
    assert_eq!(fetch.instruction.address, 0x1001);
    assert_eq!(fetch.instruction.bytes, vec![0x00, 0xB5]);
    assert_eq!(fetch.next_addr, 0x1003);
}

#[test]
fn fetch_of_an_unmapped_address_produces_nothing() {
    let memory = Memory::default();
    let state = CpuState::new(0x1001, 1);
    assert!(state.fetch(&memory).is_none());
}

#[test]
fn disassembler_decodes_mov_immediate() {
    let decoder = Decoder::new().expect("decoder");
    // MOVS R0, #5
    let raw = decoder.disasm_first(&vec![0x05, 0x20]).expect("decodes");
    assert_eq!(raw.insn_id, INS_MOV);
    let decoded = decode_instruction(&raw).expect("implemented");
    match decoded {
        Instruction::Mov(m) => {
            assert_eq!(m.dest, 0);
            assert_eq!(m.src, Operand::Imm(5));
            assert_eq!(m.mode, mov::Mode::MOV);
        },
        other => panic!("expected a move, got {:?}", other),
    }
}

#[test]
fn disassembler_decodes_push_with_sorted_list() {
    let decoder = Decoder::new().expect("decoder");
    // PUSH {R0, R2, LR} = 0xB505
    let raw = decoder.disasm_first(&vec![0x05, 0xB5]).expect("decodes");
    assert_eq!(raw.insn_id, INS_PUSH);
    match decode_instruction(&raw).expect("implemented") {
        Instruction::Push(p) => {
            // Stored highest register first: pushes walk down the stack.
            assert_eq!(p.reg_list, vec![14, 2, 0]);
        },
        other => panic!("expected a push, got {:?}", other),
    }
}

#[test]
fn unimplemented_mnemonics_report_a_typed_error() {
    let decoder = Decoder::new().expect("decoder");
    // BKPT #0
    let raw = decoder.disasm_first(&vec![0x00, 0xBE]).expect("decodes");
    match decode_instruction(&raw) {
        Err(DecodeError::Unimplemented(_)) => {},
        other => panic!("expected an unimplemented error, got {:?}", other),
    }
}

#[test]
fn forms_outside_the_subset_report_a_typed_error() {
    let decoder = Decoder::new().expect("decoder");
    // CBZ R0, <label>: a valid Thumb-2 encoding the Cortex-M0 lacks.
    let raw = decoder.disasm_first(&vec![0x00, 0xB1]).expect("decodes");
    match decode_instruction(&raw) {
        Err(DecodeError::UnsupportedInCortexM0(_)) => {},
        other => panic!("expected an unsupported error, got {:?}", other),
    }
}

#[test]
fn undecodable_speculative_bytes_become_a_placeholder() {
    let decoder = Decoder::new().expect("decoder");
    let mut memory = Memory::default();
    // 0xDEFF is a permanently undefined encoding.
    memory.mmap(0x1000, vec![0xFF, 0xDE, 0x00, 0xBF], false);
    let mut state = CpuState::new(0x1001, 1);
    let fetch = state.fetch(&memory).expect("fetch");
    state.fetched_instruction = Some(fetch.instruction);
    let decoded = state.decode(&decoder).expect("slot is full").instr;
    assert!(matches!(decoded.imp, Instruction::Invalid(_)));
}
