use thumbsim::cpu_state::decode::DecodedInstruction;
use thumbsim::cpu_state::execute::StationResults;
use thumbsim::cpu_state::station::Register;
use thumbsim::cpu_state::CpuState;
use thumbsim::disasm::Decoder;
use thumbsim::instructions::add;
use thumbsim::instructions::b::B;
use thumbsim::instructions::mov;
use thumbsim::instructions::ADD;
use thumbsim::instructions::Instruction;
use thumbsim::instructions::MOV;
use thumbsim::instructions::Operand;
use thumbsim::memory::Memory;
use thumbsim::registers::ConditionCode;
use thumbsim::registers::CPSR;
use thumbsim::registers::LR;
use thumbsim::registers::R0;
use thumbsim::registers::R1;
use thumbsim::registers::SP;

fn decoded(imp: Instruction, cc: ConditionCode, address: u32) -> DecodedInstruction {
    DecodedInstruction { imp, cc, string: String::new(), length: 2, address }
}

fn poll_all(
    state: &CpuState,
    memory: &mut Memory,
    output: &mut Vec<u8>,
) -> Vec<Option<StationResults>> {
    let mut rs = Vec::new();
    for i in 0..state.reservation_stations.len() {
        rs.push(state.execute_station(memory, output, i));
    }
    rs
}

fn none_results(state: &CpuState) -> Vec<Option<StationResults>> {
    let mut rs = Vec::new();
    for _ in 0..state.reservation_stations.len() {
        rs.push(None);
    }
    rs
}

/// Fetching PUSH {LR} at an odd (Thumb) address yields a 2-byte
/// instruction; executing it lowers SP by 4 and stores the old LR there.
#[test]
fn push_lr_stores_the_link_register_below_sp() {
    let decoder = Decoder::new().expect("decoder");
    let mut memory = Memory::default();
    memory.mmap(0x1000, vec![0x00, 0xB5, 0x00, 0xBF], false);
    memory.mmap(0x7F00, vec![0; 0x100], true);
    let mut state = CpuState::new(0x1001, 1);
    state.registers.write_by_id(SP, 0x8000);
    state.registers.write_by_id(LR, 0x00C0_FFEF);
    let mut output = Vec::new();

    let fetch = state.fetch(&memory).expect("fetch");
    assert_eq!(fetch.instruction.bytes.len(), 2);
    state.apply_stages(Some(fetch), None, none_results(&state));
    let decode = state.decode(&decoder);
    assert!(decode.is_some());
    state.apply_stages(None, decode, none_results(&state));
    // The PUSH is now issued; run it to completion.
    let mut guard = 0;
    while state.reservation_stations[0].instruction.is_some() && guard < 10 {
        let rs = poll_all(&state, &mut memory, &mut output);
        state.apply_stages(None, None, rs);
        guard += 1;
    }
    assert_eq!(state.registers.read_by_id(SP), 0x7FFC);
    assert_eq!(memory.read_u32(0x7FFC).unwrap(), 0x00C0_FFEF);
}

/// Two dependent instructions in the out-of-order engine: the consumer's
/// snapshot holds a pending marker until the producer broadcasts, then
/// resolves and computes from the forwarded value.
#[test]
fn dependent_issue_waits_for_the_broadcast() {
    let mut memory = Memory::default();
    let mut output = Vec::new();
    let mut state = CpuState::new(0x1001, 2);
    // MOV R0, #5 then ADD R1, R0, #1.
    state.decoded_instructions.push(decoded(
        Instruction::Mov(MOV::new(R0, Operand::Imm(5), mov::Mode::MOV, false)),
        ConditionCode::AL,
        0x1001,
    ));
    state.decoded_instructions.push(decoded(
        Instruction::Add(ADD::new(R1, R0, Operand::Imm(1), false, add::Mode::ADD)),
        ConditionCode::AL,
        0x1003,
    ));

    // One issue per cycle: MOV first, then ADD.
    state.apply_stages(None, None, none_results(&state));
    assert!(state.reservation_stations[0].instruction.is_some());
    state.apply_stages(None, None, none_results(&state));
    assert!(state.reservation_stations[1].instruction.is_some());
    // The ADD's snapshot of R0 names the MOV's station.
    assert_eq!(
        state.reservation_stations[1].source_registers[R0 as usize],
        Some(Register::Pending(0, R0))
    );

    // Poll both stations against the same pre-cycle snapshot: the MOV
    // completes, the ADD is not ready and is not polled.
    let rs = poll_all(&state, &mut memory, &mut output);
    assert!(rs[0].is_some());
    assert!(rs[1].is_none());
    state.apply_stages(None, None, rs);
    // The broadcast resolved the ADD's operand.
    assert_eq!(
        state.reservation_stations[1].source_registers[R0 as usize],
        Some(Register::Ready(5))
    );
    assert_eq!(state.registers.read_by_id(R0), 5);

    let rs = poll_all(&state, &mut memory, &mut output);
    assert!(rs[1].is_some());
    state.apply_stages(None, None, rs);
    assert_eq!(state.registers.read_by_id(R1), 6);
    // Both issued instructions have been retired: every station drained
    // and every scoreboard claim cleared.
    assert!(state.reservation_stations[0].instruction.is_none());
    assert!(state.reservation_stations[1].instruction.is_none());
    for claim in &state.pending_registers {
        assert_eq!(*claim, None);
    }
}

/// Two in-flight writers of the same register: the later issue overwrites
/// the scoreboard claim, so the register always has at most one claimant,
/// the one latest in program order.
#[test]
fn a_later_writer_shadows_the_scoreboard_claim() {
    let mut state = CpuState::new(0x1001, 2);
    state.decoded_instructions.push(decoded(
        Instruction::Mov(MOV::new(R0, Operand::Imm(1), mov::Mode::MOV, false)),
        ConditionCode::AL,
        0x1001,
    ));
    state.decoded_instructions.push(decoded(
        Instruction::Mov(MOV::new(R0, Operand::Imm(2), mov::Mode::MOV, false)),
        ConditionCode::AL,
        0x1003,
    ));
    state.apply_stages(None, None, none_results(&state));
    assert_eq!(state.pending_registers[R0 as usize], Some(0));
    state.apply_stages(None, None, none_results(&state));
    assert_eq!(state.pending_registers[R0 as usize], Some(1));
}

/// A conditional instruction whose condition is false completes with no
/// register changes, counts as skipped, and broadcasts nothing.
#[test]
fn a_false_condition_skips_without_effects() {
    let mut memory = Memory::default();
    let mut output = Vec::new();
    let mut state = CpuState::new(0x1001, 2);
    // ADDEQ R1, R0, #1 while Z is clear.
    state.registers.write_by_id(CPSR, 0);
    state.decoded_instructions.push(decoded(
        Instruction::Add(ADD::new(R1, R0, Operand::Imm(1), false, add::Mode::ADD)),
        ConditionCode::EQ,
        0x1001,
    ));
    state.apply_stages(None, None, none_results(&state));
    assert!(state.reservation_stations[0].instruction.is_some());

    let rs = poll_all(&state, &mut memory, &mut output);
    let res = rs[0].as_ref().expect("was polled");
    assert!(res.did_skip_instruction);
    assert!(!res.did_execute_instruction);
    assert!(res.register_changes.is_none());
    let result = state.apply_stages(None, None, rs);
    assert_eq!(result.instructions_skipped, 1);
    assert_eq!(result.instructions_executed, 0);
    assert!(!result.pc_changed);
    assert!(state.reservation_stations[0].instruction.is_none());
    assert_eq!(state.registers.read_by_id(R1), 0);
}

/// A branch in flight is a control hazard: nothing further is issued
/// until it retires, even though stations are free.
#[test]
fn a_branch_in_flight_blocks_issue() {
    let mut state = CpuState::new(0x1001, 4);
    state.decoded_instructions.push(decoded(
        Instruction::B(B::new(8, false)),
        ConditionCode::AL,
        0x1001,
    ));
    state.decoded_instructions.push(decoded(
        Instruction::Mov(MOV::new(R0, Operand::Imm(5), mov::Mode::MOV, false)),
        ConditionCode::AL,
        0x1003,
    ));

    state.apply_stages(None, None, none_results(&state));
    assert!(state.reservation_stations[0].instruction.is_some());
    assert_eq!(state.decoded_instructions.len(), 1);

    // Free stations exist, but the branch blocks all further issue.
    state.apply_stages(None, None, none_results(&state));
    assert!(state.reservation_stations[1].instruction.is_none());
    assert_eq!(state.decoded_instructions.len(), 1);
}

/// After a flush the fetched slot and the decoded queue are empty, but
/// occupied stations keep their instructions unchanged.
#[test]
fn flush_discards_queues_but_not_stations() {
    let decoder = Decoder::new().expect("decoder");
    let mut memory = Memory::default();
    memory.mmap(0x1000, vec![0x00, 0xBF, 0x00, 0xBF, 0x00, 0xBF], false);
    let mut state = CpuState::new(0x1001, 2);
    // A branch occupies a station, so the queued work stays queued.
    state.decoded_instructions.push(decoded(
        Instruction::B(B::new(8, false)),
        ConditionCode::AL,
        0x1001,
    ));
    // Issue the branch, then refill the fetch slot and the queue.
    state.apply_stages(None, None, none_results(&state));
    assert!(state.reservation_stations[0].instruction.is_some());
    let fetch = state.fetch(&memory);
    assert!(fetch.is_some());
    state.apply_stages(fetch, None, none_results(&state));
    let decode = state.decode(&decoder);
    let fetch = state.fetch(&memory);
    state.apply_stages(fetch, decode, none_results(&state));
    assert!(state.fetched_instruction.is_some());
    assert_eq!(state.decoded_instructions.len(), 1);

    state.flush_pipeline();
    assert!(state.fetched_instruction.is_none());
    assert_eq!(state.decoded_instructions.len(), 0);
    assert!(state.reservation_stations[0].instruction.is_some());
}
