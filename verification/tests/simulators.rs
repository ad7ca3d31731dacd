use thumbsim::disasm::Decoder;
use thumbsim::instructions::Fault;
use thumbsim::memory::Memory;
use thumbsim::memory::MemoryAccessError;
use thumbsim::simulators::non_pipelined::NonPipelinedSimulator;
use thumbsim::simulators::out_of_order::OutOfOrderSimulator;
use thumbsim::simulators::pipelined::PipelinedSimulator;
use thumbsim::simulators::SimulationStats;
use thumbsim::simulators::Simulator;

/// MOVS R0, #42; SVC #1 — exit with code 42.
fn exit_program() -> Memory {
    let mut memory = Memory::default();
    memory.mmap(0x1000, vec![0x2A, 0x20, 0x01, 0xDF, 0x00, 0xBF], false);
    memory
}

/// Point R0 at a two-byte buffer, write it to the console with SVC #2,
/// then exit with code 7.
fn hello_program() -> Memory {
    let mut memory = Memory::default();
    memory.mmap(
        0x1000,
        vec![
            0x30, 0x20, // MOVS R0, #0x30
            0x02, 0x21, // MOVS R1, #2
            0x02, 0xDF, // SVC #2
            0x07, 0x20, // MOVS R0, #7
            0x01, 0xDF, // SVC #1
            0x00, 0xBF, // NOP
        ],
        false,
    );
    memory.mmap(0x30, vec![b'H', b'i'], false);
    memory
}

fn check_exit(stats: &SimulationStats) {
    assert_eq!(stats.exit_code, Some(42));
    assert_eq!(stats.fault, None);
    assert_eq!(stats.instructions_executed, 2);
    assert_eq!(stats.branches_taken, 0);
}

#[test]
fn scalar_simulator_runs_to_exit() {
    let decoder = Decoder::new().expect("decoder");
    let stats = NonPipelinedSimulator {}.run(exit_program(), 0x1001, &decoder, 100_000);
    check_exit(&stats);
}

#[test]
fn pipelined_simulator_runs_to_exit() {
    let decoder = Decoder::new().expect("decoder");
    let stats = PipelinedSimulator {}.run(exit_program(), 0x1001, &decoder, 100_000);
    check_exit(&stats);
}

#[test]
fn out_of_order_simulator_runs_to_exit() {
    let decoder = Decoder::new().expect("decoder");
    let stats = OutOfOrderSimulator::new(4).run(exit_program(), 0x1001, &decoder, 100_000);
    check_exit(&stats);
}

#[test]
fn console_output_is_collected_on_every_variant() {
    let decoder = Decoder::new().expect("decoder");
    let variants: Vec<Box<dyn Simulator>> = vec![
        Box::new(NonPipelinedSimulator {}),
        Box::new(PipelinedSimulator {}),
        Box::new(OutOfOrderSimulator::new(4)),
    ];
    for sim in variants {
        let stats = sim.run(hello_program(), 0x1001, &decoder, 100_000);
        assert_eq!(stats.output, b"Hi".to_vec(), "variant: {}", sim.name());
        assert_eq!(stats.exit_code, Some(7));
        assert_eq!(stats.fault, None);
    }
}

/// A branch over the exit syscall: 42 is only the exit code if the branch
/// was taken and the MOVS below it was skipped over.
#[test]
fn taken_branches_redirect_the_fetch_stream() {
    let mut memory = Memory::default();
    memory.mmap(
        0x1000,
        vec![
            0x2A, 0x20, // MOVS R0, #42
            0x00, 0xE0, // B over the next instruction
            0x00, 0x20, // MOVS R0, #0
            0x01, 0xDF, // SVC #1
            0x00, 0xBF, // NOP
            0x00, 0xBF, // NOP
        ],
        false,
    );
    let decoder = Decoder::new().expect("decoder");
    let stats = OutOfOrderSimulator::new(4).run(memory, 0x1001, &decoder, 100_000);
    assert_eq!(stats.exit_code, Some(42));
    assert_eq!(stats.branches_taken, 1);
}

/// A load from an unmapped address on a definitely-executing instruction
/// halts the simulation with a memory fault.
#[test]
fn a_bad_load_faults_the_simulation() {
    let mut memory = Memory::default();
    memory.mmap(
        0x1000,
        vec![
            0x00, 0x68, // LDR R0, [R0]  (R0 = 0, unmapped)
            0x01, 0xDF, // SVC #1
            0x00, 0xBF, // NOP
        ],
        false,
    );
    let decoder = Decoder::new().expect("decoder");
    let stats = NonPipelinedSimulator {}.run(memory, 0x1001, &decoder, 100_000);
    assert_eq!(
        stats.fault,
        Some(Fault::MemoryAccess(MemoryAccessError::BadAddress(0)))
    );
    assert_eq!(stats.exit_code, None);
}

/// A store into a read-only page on a definitely-executing instruction
/// halts the simulation with a memory fault naming the address.
#[test]
fn a_store_to_a_read_only_page_faults() {
    let mut memory = Memory::default();
    memory.mmap(
        0x1000,
        vec![
            0x30, 0x20, // MOVS R0, #0x30
            0x00, 0x60, // STR R0, [R0]
            0x01, 0xDF, // SVC #1
            0x00, 0xBF, // NOP
        ],
        false,
    );
    memory.mmap(0x30, vec![0; 4], false);
    let decoder = Decoder::new().expect("decoder");
    let stats = NonPipelinedSimulator {}.run(memory, 0x1001, &decoder, 100_000);
    assert_eq!(
        stats.fault,
        Some(Fault::MemoryAccess(MemoryAccessError::ReadOnlyAddress(0x30)))
    );
}

/// Committing a program-counter value without the Thumb bit is fatal.
#[test]
fn a_branch_to_an_even_address_faults() {
    let mut memory = Memory::default();
    memory.mmap(
        0x1000,
        vec![
            0x10, 0x20, // MOVS R0, #0x10
            0x00, 0x47, // BX R0
            0x00, 0xBF, // NOP
        ],
        false,
    );
    let decoder = Decoder::new().expect("decoder");
    let stats = NonPipelinedSimulator {}.run(memory, 0x1001, &decoder, 100_000);
    assert_eq!(stats.fault, Some(Fault::UnalignedPc(0x10)));
}

/// An unknown syscall number is a fault, not a silent no-op.
#[test]
fn an_unknown_syscall_faults() {
    let mut memory = Memory::default();
    memory.mmap(0x1000, vec![0x09, 0xDF, 0x00, 0xBF], false);
    let decoder = Decoder::new().expect("decoder");
    let stats = NonPipelinedSimulator {}.run(memory, 0x1001, &decoder, 100_000);
    assert_eq!(stats.fault, Some(Fault::UnknownSyscall(9)));
}
