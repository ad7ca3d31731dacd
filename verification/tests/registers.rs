use thumbsim::registers::ConditionCode;
use thumbsim::registers::ConditionFlag;
use thumbsim::registers::RegisterFile;
use thumbsim::registers::CPSR;
use thumbsim::registers::FP;
use thumbsim::registers::IP;
use thumbsim::registers::LR;
use thumbsim::registers::PC;
use thumbsim::registers::R0;
use thumbsim::registers::R1;
use thumbsim::registers::R2;
use thumbsim::registers::R3;
use thumbsim::registers::R4;
use thumbsim::registers::R5;
use thumbsim::registers::R6;
use thumbsim::registers::R7;
use thumbsim::registers::R8;
use thumbsim::registers::SB;
use thumbsim::registers::SL;
use thumbsim::registers::SP;
use thumbsim::registers::STACK_TOP;

#[test]
fn reg_names() {
    assert_eq!(RegisterFile::reg_name(R0), "R0");
    assert_eq!(RegisterFile::reg_name(R1), "R1");
    assert_eq!(RegisterFile::reg_name(R2), "R2");
    assert_eq!(RegisterFile::reg_name(R3), "R3");
    assert_eq!(RegisterFile::reg_name(R4), "R4");
    assert_eq!(RegisterFile::reg_name(R5), "R5");
    assert_eq!(RegisterFile::reg_name(R6), "R6");
    assert_eq!(RegisterFile::reg_name(R7), "R7");
    assert_eq!(RegisterFile::reg_name(R8), "R8");
    assert_eq!(RegisterFile::reg_name(SB), "SB");
    assert_eq!(RegisterFile::reg_name(SL), "SL");
    assert_eq!(RegisterFile::reg_name(FP), "FP");
    assert_eq!(RegisterFile::reg_name(IP), "IP");
    assert_eq!(RegisterFile::reg_name(LR), "LR");
    assert_eq!(RegisterFile::reg_name(PC), "PC");
    assert_eq!(RegisterFile::reg_name(SP), "SP");
    assert_eq!(RegisterFile::reg_name(CPSR), "CPSR");
}

#[test]
fn flags() {
    let cpsr = 0b1010_0000 << 24;
    assert!(ConditionFlag::N.read_flag(cpsr));
    assert!(!ConditionFlag::Z.read_flag(cpsr));
    assert!(ConditionFlag::C.read_flag(cpsr));
    assert!(!ConditionFlag::V.read_flag(cpsr));

    let mut cpsr = 0;
    ConditionFlag::N.write_flag(&mut cpsr, false);
    assert!(!ConditionFlag::N.read_flag(cpsr));
    ConditionFlag::N.write_flag(&mut cpsr, true);
    assert!(ConditionFlag::N.read_flag(cpsr));
    ConditionFlag::N.write_flag(&mut cpsr, false);
    assert!(!ConditionFlag::N.read_flag(cpsr));
}

#[test]
fn register_file_reads_writes() {
    let mut rf = RegisterFile::new();
    assert_eq!(rf.read_by_id(SP), STACK_TOP);
    assert_eq!(rf.read_by_id(R0), 0);
    rf.write_by_id(R3, 77);
    assert_eq!(rf.read_by_id(R3), 77);
    assert_eq!(rf.read_by_id(R4), 0);
}

#[test]
fn push_pop_order_is_architectural_ascending() {
    let mut regs = vec![PC, R0, R7, R2, LR];
    RegisterFile::push_pop_register_asc(&mut regs);
    assert_eq!(regs, vec![R0, R2, R7, LR, PC]);
}

#[test]
fn condition_codes_decode_from_raw_numbers() {
    assert_eq!(ConditionCode::from_raw(1), ConditionCode::EQ);
    assert_eq!(ConditionCode::from_raw(2), ConditionCode::NE);
    assert_eq!(ConditionCode::from_raw(15), ConditionCode::AL);
    assert_eq!(ConditionCode::from_raw(0), ConditionCode::Invalid);
    assert_eq!(ConditionCode::from_raw(99), ConditionCode::Invalid);
}
