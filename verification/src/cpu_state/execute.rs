//! The execute stage: poll one ready reservation station against the
//! pre-cycle state, producing a result buffer for the apply step.

use crate::cpu_state::decode::DecodedInstruction;
use crate::cpu_state::station::ReservationStation;
use crate::cpu_state::CpuState;
use crate::instructions::add_wrap;
use crate::instructions::change_regs;
use crate::instructions::changes_wf;
use crate::instructions::sub_wrap;
use crate::instructions::wrap_to_u32;
use crate::instructions::Fault;
use crate::instructions::Instruction;
use crate::instructions::InvalidKind;
use crate::instructions::PollResult;
use crate::memory::Memory;
use crate::registers::spec_condition_holds;
use crate::registers::ConditionCode;
use crate::registers::CPSR;
use crate::registers::PC;
use vstd::prelude::*;

verus! {

/// What polling one station produced; `None` register changes mean the
/// instruction has not finished, `None` next state means it does not
/// continue.
pub struct StationResults {
    /// The broadcast payload of a completed instruction.
    pub register_changes: Option<Vec<(u8, u32)>>,
    pub should_terminate: bool,
    /// The exit code of the terminal exception, when one was raised.
    pub exit_code: Option<u32>,
    /// The fatal condition, when the instruction faulted.
    pub fault: Option<Fault>,
    pub did_execute_instruction: bool,
    pub did_skip_instruction: bool,
    pub instruction_is_branch: bool,
    /// The continuation of a multi-cycle instruction.
    pub next_state: Option<Instruction>,
}

/// The value-level tie between a completed instruction's broadcast and
/// the instruction the station held, as far as it can be stated without
/// the memory the loads read: exact changes for every register-only kind,
/// and the shape (which registers, in which order) for the memory kinds,
/// whose byte-exact results stand in `Instruction::poll`'s contract.
pub open spec fn completed_changes_ok(
    d: DecodedInstruction,
    station: ReservationStation,
    ch: Seq<(u8, u32)>,
) -> bool {
    match d.imp {
        Instruction::Add(i) => ch == i.spec_changes(station),
        Instruction::Adr(i) => ch == i.spec_changes(station),
        Instruction::Cmp(i) => ch == i.spec_changes(station),
        Instruction::Extends(i) => ch == i.spec_changes(station),
        Instruction::Logical(i) => ch == i.spec_changes(station),
        Instruction::Mov(i) => ch == i.spec_changes(station),
        Instruction::Shift(i) => ch == i.spec_changes(station),
        Instruction::Tst(i) => ch == i.spec_changes(station),
        Instruction::Mul(i) => ch == i.spec_changes(station),
        Instruction::Nop(_) => ch.len() == 0,
        Instruction::B(i) => !i.with_link && ch == i.changes@.push(
            (PC, wrap_to_u32(d.address + i.jump)),
        ),
        Instruction::Bx(i) => !i.with_link && ch == i.changes@.push(
            (PC, station.value_at(i.register)),
        ),
        Instruction::Ldr(i) => i.waited && ch.len() == 1 && ch[0].0 == i.reg,
        Instruction::Str(i) => i.waited && ch.len() == 0,
        Instruction::Push(i) => i.reg_list@.len() <= 1 && ch == seq![
            (
                crate::registers::SP,
                if i.reg_list@.len() == 0 {
                    i.spec_sp(station)
                } else {
                    sub_wrap(i.spec_sp(station), 4)
                },
            ),
        ],
        Instruction::Pop(i) => {
            &&& i.reg_list@.len() <= 1
            &&& (i.reg_list@.len() == 0 ==> ch == i.changes@.push(
                (crate::registers::SP, i.spec_sp(station)),
            ))
            &&& (i.reg_list@.len() == 1 ==> ch.len() == i.changes@.len() + 2 && ch.subrange(
                0,
                i.changes@.len() as int,
            ) == i.changes@ && ch[ch.len() - 2].0 == i.reg_list@[0] && ch.last() == (
            crate::registers::SP, add_wrap(i.spec_sp(station), 4)))
        },
        Instruction::Ldm(i) => i.reg_list@.len() == 0 && !i.writeback && ch == i.changes@,
        Instruction::Stm(i) => i.reg_list@.len() == 0 && !i.writeback && ch == i.changes@,
        Instruction::Svc(i) => i.id == 2 && ch.len() == 0,
        Instruction::Invalid(_) => false,
    }
}

/// What the apply step may assume of a station's execute result: how the
/// produced changes, continuation and markers relate to the instruction
/// the station held when it was polled.
pub open spec fn station_result_ok(s: CpuState, index: int, res: StationResults) -> bool {
    let d = s.held(index);
    &&& s.occupied(index)
    &&& s.reservation_stations@[index].spec_ready()
    &&& res.instruction_is_branch == d.imp.dests().contains(PC)
    &&& (d.cc == ConditionCode::Invalid ==> res.fault is Some)
    &&& (d.cc != ConditionCode::Invalid ==> (res.did_skip_instruction
        <==> !crate::registers::spec_condition_holds(
        d.cc,
        s.reservation_stations@[index].value_at(CPSR),
    )))
    &&& (res.register_changes matches Some(ch) ==> completed_changes_ok(
        d,
        s.reservation_stations@[index],
        ch@,
    ))
    &&& (res.next_state matches Some(n) ==> d.imp.continuation_ok(n))
    &&& (res.register_changes matches Some(ch) ==> changes_wf(ch@) && change_regs(ch@)
        == d.imp.promised() && res.did_execute_instruction)
    &&& (res.register_changes is Some ==> !res.should_terminate && res.next_state is None
        && res.fault is None && !res.did_skip_instruction)
    &&& (res.next_state is Some ==> res.register_changes is None && !res.should_terminate
        && res.fault is None && !res.did_execute_instruction && !res.did_skip_instruction)
    &&& (res.did_skip_instruction ==> res.register_changes is None && res.next_state is None
        && !res.should_terminate && res.fault is None && !res.did_execute_instruction && d.cc
        != ConditionCode::AL)
    &&& (res.exit_code is Some ==> res.should_terminate)
    &&& (res.should_terminate ==> d.imp.promised() == Set::<u8>::empty() || res.fault is Some)
    &&& (res.fault is Some ==> res.should_terminate && res.register_changes is None
        && res.next_state is None)
    &&& (res.register_changes is None && res.next_state is None && !res.did_skip_instruction
        ==> res.should_terminate)
}

impl CpuState {
    /// Poll station `index` if it is ready: evaluate its condition code
    /// first, skipping a condition that does not hold, and otherwise
    /// execute one cycle of the instruction. Reads only pre-cycle state;
    /// memory is written only by the executing instruction's own store.
    ///
    /// A station is polled only when every operand snapshot entry is
    /// resolved: `r is Some` requires the station to have been ready.
    pub fn execute_station(&self, memory: &mut Memory, output: &mut Vec<u8>, index: usize) -> (r:
        Option<StationResults>)
        requires
            self.wf(),
            old(memory).wf(),
            index < self.reservation_stations@.len(),
        ensures
            final(memory).wf(),
            forall|a: u32| #[trigger] final(memory).mapped(a) == old(memory).mapped(a),
            forall|a: u32| #[trigger] final(memory).writable(a) == old(memory).writable(a),
            old(output)@.is_prefix_of(final(output)@),
            r is Some <==> self.reservation_stations@[index as int].spec_ready(),
            r matches Some(res) ==> station_result_ok(*self, index as int, res),
    {
        let station = &self.reservation_stations[index];
        if !station.ready() {
            return None;
        }
        let mut changes = StationResults {
            register_changes: None,
            should_terminate: false,
            exit_code: None,
            fault: None,
            did_execute_instruction: false,
            did_skip_instruction: false,
            instruction_is_branch: false,
            next_state: None,
        };
        let instr = station.instruction.as_ref().unwrap();
        let dest_vec = instr.imp.dest_registers();
        let n = dest_vec.len();
        let mut k: usize = 0;
        let mut is_branch = false;
        while k < n
            invariant
                n == dest_vec@.len(),
                k <= n,
                dest_vec@.to_set() == self.held(index as int).imp.dests(),
                is_branch ==> self.held(index as int).imp.dests().contains(PC),
                !is_branch ==> forall|j: int| 0 <= j < k ==> dest_vec@[j] != PC,
            decreases n - k,
        {
            if dest_vec[k] == PC {
                proof {
                    assert(dest_vec@[k as int] == PC);
                    assert(dest_vec@.contains(PC));
                }
                is_branch = true;
            }
            k = k + 1;
        }
        proof {
            if !is_branch && self.held(index as int).imp.dests().contains(PC) {
                let j = choose|j: int| 0 <= j < dest_vec@.len() && dest_vec@[j] == PC;
                assert(false);
            }
        }
        changes.instruction_is_branch = is_branch;

        if let ConditionCode::Invalid = instr.cc {
            // A placeholder for speculative bytes that never decoded is
            // fatal once it actually reaches execution.
            changes.should_terminate = true;
            changes.fault = Some(
                match &instr.imp {
                    Instruction::Invalid(InvalidKind::FailedDecode(e)) => Fault::FailedDecode(
                        e.clone(),
                    ),
                    _ => Fault::InvalidInstruction,
                },
            );
            return Some(changes);
        }
        proof {
            assert(self.occupied(index as int));
            let d = self.held(index as int);
            if d.cc != ConditionCode::AL {
                assert(station.operand(CPSR) is Some);
                assert(station.is_ready_at(CPSR));
            }
            assert(station.covers(d.imp.sources().insert(PC)));
        }
        let should_execute = station.evaluate_condition_code();
        if should_execute {
            match instr.imp.poll(station, memory, output) {
                PollResult::Complete(c) => {
                    proof {
                        let d = self.held(index as int);
                        match d.imp {
                            Instruction::Pop(p) => {
                                if p.reg_list@.len() == 1 {
                                    assert(c@.subrange(0, p.changes@.len() as int)
                                        =~= p.changes@);
                                }
                            },
                            _ => {},
                        }
                        assert(completed_changes_ok(
                            d,
                            self.reservation_stations@[index as int],
                            c@,
                        ));
                    }
                    changes.register_changes = Some(c);
                    changes.did_execute_instruction = true;
                },
                PollResult::Again(s) => {
                    changes.next_state = Some(s);
                },
                PollResult::Exception(code) => {
                    changes.should_terminate = true;
                    changes.exit_code = Some(code);
                    changes.did_execute_instruction = true;
                },
                PollResult::Fault(f) => {
                    changes.should_terminate = true;
                    changes.fault = Some(f);
                },
            }
        } else {
            changes.did_skip_instruction = true;
        }
        Some(changes)
    }
}

} // verus!
