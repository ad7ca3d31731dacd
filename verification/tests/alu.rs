use thumbsim::cpu_state::decode::DecodedInstruction;
use thumbsim::cpu_state::station::ReservationStation;
use thumbsim::instructions::add;
use thumbsim::instructions::mov;
use thumbsim::instructions::shift;
use thumbsim::instructions::ADD;
use thumbsim::instructions::Instruction;
use thumbsim::instructions::MOV;
use thumbsim::instructions::NOP;
use thumbsim::instructions::Operand;
use thumbsim::instructions::PollResult;
use thumbsim::instructions::SHIFT;
use thumbsim::cpu_state::station::Register;
use thumbsim::registers::ConditionCode;
use thumbsim::registers::CPSR;
use thumbsim::registers::NUM_REGISTERS;
use thumbsim::registers::R0;
use thumbsim::registers::R1;
use thumbsim::registers::R2;

const N_BIT: u32 = 1 << 31;
const Z_BIT: u32 = 1 << 30;
const C_BIT: u32 = 1 << 29;
const V_BIT: u32 = 1 << 28;

/// A station whose snapshot holds the given (register, value) pairs.
fn station_with(values: &[(u8, u32)]) -> ReservationStation {
    let mut sources: Vec<Option<Register>> = Vec::new();
    for _ in 0..NUM_REGISTERS {
        sources.push(None);
    }
    for (reg, value) in values {
        sources[*reg as usize] = Some(Register::Ready(*value));
    }
    let mut station = ReservationStation::new(0);
    let filler = DecodedInstruction {
        imp: Instruction::Nop(NOP::new()),
        cc: ConditionCode::AL,
        string: String::new(),
        length: 2,
        address: 0x1001,
    };
    station.issue(filler, sources);
    station
}

fn complete(r: PollResult) -> Vec<(u8, u32)> {
    match r {
        PollResult::Complete(changes) => changes,
        _ => panic!("expected completion"),
    }
}

#[test]
fn add_sets_carry_and_overflow_exactly() {
    let st = station_with(&[(R0, 0x7FFF_FFFF), (CPSR, 0)]);
    let add = ADD::new(R1, R0, Operand::Imm(1), true, add::Mode::ADD);
    let changes = complete(add.poll(&st));
    assert_eq!(changes[0], (R1, 0x8000_0000));
    // Negative and overflow, no carry, not zero.
    assert_eq!(changes[1], (CPSR, N_BIT | V_BIT));

    let st = station_with(&[(R0, 0xFFFF_FFFF), (CPSR, 0)]);
    let add = ADD::new(R1, R0, Operand::Imm(1), true, add::Mode::ADD);
    let changes = complete(add.poll(&st));
    assert_eq!(changes[0], (R1, 0));
    // Zero and carry out of bit 31.
    assert_eq!(changes[1], (CPSR, Z_BIT | C_BIT));
}

#[test]
fn subtraction_uses_an_inverted_borrow() {
    // 5 - 3: no borrow, so the carry flag is set.
    let st = station_with(&[(R0, 5), (CPSR, 0)]);
    let sub = ADD::new(R1, R0, Operand::Imm(3), true, add::Mode::SUB);
    let changes = complete(sub.poll(&st));
    assert_eq!(changes[0], (R1, 2));
    assert_eq!(changes[1], (CPSR, C_BIT));

    // 3 - 5 borrows: carry clear, result wraps negative.
    let st = station_with(&[(R0, 3), (CPSR, 0)]);
    let sub = ADD::new(R1, R0, Operand::Imm(5), true, add::Mode::SUB);
    let changes = complete(sub.poll(&st));
    assert_eq!(changes[0], (R1, 0xFFFF_FFFE));
    assert_eq!(changes[1], (CPSR, N_BIT));
}

#[test]
fn adc_folds_in_the_carry_flag() {
    let st = station_with(&[(R0, 10), (CPSR, C_BIT)]);
    let adc = ADD::new(R1, R0, Operand::Imm(5), false, add::Mode::ADC);
    let changes = complete(adc.poll(&st));
    assert_eq!(changes, vec![(R1, 16)]);
}

#[test]
fn mvn_complements_and_mov_to_pc_keeps_the_thumb_bit() {
    let st = station_with(&[(CPSR, 0)]);
    let mvn = MOV::new(R1, Operand::Imm(0), mov::Mode::MVN, false);
    assert_eq!(complete(mvn.poll(&st)), vec![(R1, 0xFFFF_FFFF)]);

    let st = station_with(&[(R2, 0x2000), (CPSR, 0)]);
    let mov = MOV::new(thumbsim::registers::PC, Operand::Reg(R2), mov::Mode::MOV, false);
    assert_eq!(complete(mov.poll(&st)), vec![(thumbsim::registers::PC, 0x2001)]);
}

#[test]
fn shifts_update_the_carry_with_the_last_bit_out() {
    // LSL #1 of a value with the top bit set carries it out.
    let st = station_with(&[(R0, 0x8000_0001), (CPSR, 0)]);
    let lsl = SHIFT::new(R1, R0, Operand::Imm(1), shift::Mode::LSL);
    let changes = complete(lsl.poll(&st));
    assert_eq!(changes[0], (R1, 2));
    assert_eq!(changes[1], (CPSR, C_BIT));

    // ASR keeps the sign.
    let st = station_with(&[(R0, 0x8000_0000), (CPSR, 0)]);
    let asr = SHIFT::new(R1, R0, Operand::Imm(4), shift::Mode::ASR);
    let changes = complete(asr.poll(&st));
    assert_eq!(changes[0], (R1, 0xF800_0000));

    // LSR by 32 clears everything and carries out bit 31.
    let st = station_with(&[(R0, 0x8000_0000), (CPSR, 0)]);
    let lsr = SHIFT::new(R1, R0, Operand::Imm(32), shift::Mode::LSR);
    let changes = complete(lsr.poll(&st));
    assert_eq!(changes[0], (R1, 0));
    assert_eq!(changes[1], (CPSR, Z_BIT | C_BIT));
}
