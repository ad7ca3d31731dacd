//! A reservation station: one in-flight instruction together with a
//! snapshot of its source-register values, some of which may still be
//! pending on other stations.

use crate::cpu_state::decode::DecodedInstruction;
use crate::instructions::change_regs;
use crate::instructions::MemOperand;
use crate::instructions::Operand;
use crate::instructions::add_wrap;
use crate::instructions::as_signed;
use crate::instructions::signed_of;
use crate::instructions::wrap_to_u32;
use crate::registers::spec_condition_holds;
use crate::registers::ConditionCode;
use crate::registers::CPSR;
use crate::registers::NUM_REGISTERS;
use crate::registers::PC;
use vstd::prelude::*;

verus! {

/// An operand snapshot entry: either a value captured from the register
/// file, or a marker naming the station that will produce it.
#[derive(Clone, Copy, Debug, PartialEq, Eq, Structural)]
pub enum Register {
    Ready(u32),
    /// `Pending(station, register)`: the given station will broadcast the
    /// value of `register`.
    Pending(usize, u8),
}

/// A reservation station. `source_registers` is indexed by register id;
/// `None` marks a register the instruction does not read.
#[derive(Clone, Debug)]
pub struct ReservationStation {
    pub id: usize,
    pub instruction: Option<DecodedInstruction>,
    pub source_registers: Vec<Option<Register>>,
}

/// The first value a change list gives for register `r`.
pub open spec fn change_value(changes: Seq<(u8, u32)>, r: u8) -> u32
    decreases changes.len(),
{
    if changes.len() == 0 {
        0
    } else if changes[0].0 == r {
        changes[0].1
    } else {
        change_value(changes.drop_first(), r)
    }
}

/// `change_value` picks the first matching entry of the list.
pub proof fn lemma_change_value_at(changes: Seq<(u8, u32)>, r: u8, i: int)
    requires
        0 <= i < changes.len(),
        changes[i].0 == r,
        forall|j: int| 0 <= j < i ==> changes[j].0 != r,
    ensures
        change_value(changes, r) == changes[i].1,
    decreases i,
{
    if i > 0 {
        lemma_change_value_at(changes.drop_first(), r, i - 1);
    }
}

impl ReservationStation {
    /// The operand snapshot has one slot per register, each pending marker
    /// is filed under its own register id, and any held instruction is
    /// well-formed.
    pub open spec fn wf(self) -> bool {
        &&& self.source_registers@.len() == NUM_REGISTERS
        &&& forall|r: int|
            0 <= r < NUM_REGISTERS ==> match #[trigger] self.source_registers@[r] {
                Some(Register::Pending(_, r2)) => r2 == r,
                _ => true,
            }
        &&& match self.instruction {
            Some(d) => d.wf(),
            None => true,
        }
    }

    /// The snapshot entry for register `r`.
    pub open spec fn operand(self, r: u8) -> Option<Register>
        recommends
            r < NUM_REGISTERS,
    {
        self.source_registers@[r as int]
    }

    /// Whether the snapshot holds a resolved value for `r`.
    pub open spec fn is_ready_at(self, r: u8) -> bool {
        self.operand(r) matches Some(Register::Ready(_))
    }

    /// The resolved value for `r` (zero when not resolved).
    pub open spec fn value_at(self, r: u8) -> u32 {
        match self.operand(r) {
            Some(Register::Ready(v)) => v,
            _ => 0,
        }
    }

    /// Whether the snapshot holds an entry (ready or pending) for every
    /// register of `regs`.
    pub open spec fn covers(self, regs: Set<u8>) -> bool {
        forall|r: u8| regs.contains(r) ==> (#[trigger] self.operand(r)) is Some
    }

    /// Whether the snapshot still waits on station `source` for `r`.
    pub open spec fn is_pending_on(self, source: usize, r: u8) -> bool {
        self.operand(r) == Some(Register::Pending(source, r))
    }

    /// Occupied, with every snapshot entry resolved: the station may
    /// execute this cycle.
    pub open spec fn spec_ready(self) -> bool {
        &&& self.instruction is Some
        &&& forall|r: u8|
            r < NUM_REGISTERS as u8 ==> !(#[trigger] self.operand(r) matches Some(
            Register::Pending(_, _)))
    }

    /// An empty station with the given id.
    pub fn new(id: usize) -> (r: ReservationStation)
        ensures
            r.wf(),
            r.id == id,
            r.instruction is None,
            forall|reg: u8| reg < NUM_REGISTERS as u8 ==> #[trigger] r.operand(reg) is None,
    {
        let mut source_registers: Vec<Option<Register>> = Vec::new();
        let mut i: usize = 0;
        while i < NUM_REGISTERS
            invariant
                i <= NUM_REGISTERS,
                source_registers@.len() == i,
                forall|j: int| 0 <= j < i ==> source_registers@[j] is None,
            decreases NUM_REGISTERS - i,
        {
            source_registers.push(None);
            i = i + 1;
        }
        ReservationStation { id, instruction: None, source_registers }
    }

    /// Retire the held instruction and clear the operand snapshot.
    pub fn clear(&mut self)
        requires
            old(self).wf(),
        ensures
            final(self).wf(),
            final(self).id == old(self).id,
            final(self).instruction is None,
            forall|reg: u8|
                reg < NUM_REGISTERS as u8 ==> #[trigger] final(self).operand(reg) is None,
    {
        self.instruction = None;
        let mut i: usize = 0;
        while i < NUM_REGISTERS
            invariant
                self.source_registers@.len() == NUM_REGISTERS,
                i <= NUM_REGISTERS,
                self.id == old(self).id,
                self.instruction is None,
                forall|j: int| 0 <= j < i ==> self.source_registers@[j] is None,
            decreases NUM_REGISTERS - i,
        {
            self.source_registers[i] = None;
            i = i + 1;
        }
    }

    /// Install an issued instruction together with its operand snapshot.
    pub fn issue(
        &mut self,
        instruction: DecodedInstruction,
        source_registers: Vec<Option<Register>>,
    )
        requires
            old(self).wf(),
            instruction.wf(),
            source_registers@.len() == NUM_REGISTERS,
            forall|r: int|
                0 <= r < NUM_REGISTERS ==> match #[trigger] source_registers@[r] {
                    Some(Register::Pending(_, r2)) => r2 == r,
                    _ => true,
                },
        ensures
            final(self).wf(),
            final(self).id == old(self).id,
            final(self).instruction == Some(instruction),
            final(self).source_registers == source_registers,
    {
        self.instruction = Some(instruction);
        self.source_registers = source_registers;
    }

    /// Replace the held instruction by the continuation its poll handed
    /// back; everything else about the station stays as it was.
    pub fn replace_instruction(&mut self, next: crate::instructions::Instruction)
        requires
            old(self).wf(),
            old(self).instruction is Some,
            next.wf(),
        ensures
            final(self).wf(),
            final(self).id == old(self).id,
            final(self).source_registers == old(self).source_registers,
            final(self).instruction matches Some(d) && d.imp == next && d.cc == old(
                self,
            ).instruction.unwrap().cc && d.length == old(self).instruction.unwrap().length
                && d.address == old(self).instruction.unwrap().address,
    {
        match &mut self.instruction {
            Some(d) => {
                d.imp = next;
            },
            None => {},
        }
    }

    /// Read a resolved operand from the snapshot.
    pub fn read_by_id(&self, id: u8) -> (r: u32)
        requires
            self.wf(),
            id < NUM_REGISTERS as u8,
            self.is_ready_at(id),
        ensures
            r == self.value_at(id),
    {
        match self.source_registers[id as usize] {
            Some(Register::Ready(value)) => value,
            _ => 0,
        }
    }

    /// The value of a flexible second operand: a snapshot register or an
    /// immediate.
    pub fn value_of_flexible_second_operand(&self, op: &Operand) -> (r: u32)
        requires
            self.wf(),
            op.wf(),
            (*op) matches Operand::Reg(reg) ==> self.is_ready_at(reg),
        ensures
            r == self.spec_operand_value(*op),
    {
        match op {
            Operand::Reg(reg) => self.read_by_id(*reg),
            Operand::Imm(value) => *value as u32,
        }
    }

    /// What `value_of_flexible_second_operand` reads.
    pub open spec fn spec_operand_value(self, op: Operand) -> u32 {
        match op {
            Operand::Reg(reg) => self.value_at(reg),
            Operand::Imm(value) => value as u32,
        }
    }

    /// Whether the station may execute this cycle: it holds an instruction
    /// and no snapshot entry is still pending.
    pub fn ready(&self) -> (r: bool)
        requires
            self.wf(),
        ensures
            r == self.spec_ready(),
    {
        if self.instruction.is_none() {
            return false;
        }
        let mut i: usize = 0;
        while i < NUM_REGISTERS
            invariant
                self.wf(),
                i <= NUM_REGISTERS,
                forall|r: u8|
                    r < i as u8 ==> !(#[trigger] self.operand(r) matches Some(Register::Pending(_, _))),
            decreases NUM_REGISTERS - i,
        {
            match self.source_registers[i] {
                Some(Register::Pending(_, _)) => {
                    proof {
                        assert(self.operand(i as u8) matches Some(Register::Pending(_, _)));
                    }
                    return false;
                },
                _ => {},
            }
            i = i + 1;
        }
        proof {
            assert forall|r: u8| r < NUM_REGISTERS as u8 implies !(#[trigger] self.operand(r)
                matches Some(Register::Pending(_, _))) by {
                assert(r < i as u8);
            }
        }
        true
    }

    /// Evaluate the held instruction's condition code against the
    /// snapshotted flags.
    pub fn evaluate_condition_code(&self) -> (r: bool)
        requires
            self.wf(),
            self.instruction matches Some(d) && d.cc != ConditionCode::Invalid,
            self.instruction matches Some(d) && d.cc != ConditionCode::AL ==> self.is_ready_at(
                CPSR,
            ),
        ensures
            r == spec_condition_holds(self.instruction.unwrap().cc, self.value_at(CPSR)),
    {
        let cc = self.instruction.as_ref().unwrap().cc;
        if let ConditionCode::AL = cc {
            return true;
        }
        let cpsr = self.read_by_id(CPSR);
        let n = crate::registers::ConditionFlag::N.read_flag(cpsr);
        let z = crate::registers::ConditionFlag::Z.read_flag(cpsr);
        let c = crate::registers::ConditionFlag::C.read_flag(cpsr);
        let v = crate::registers::ConditionFlag::V.read_flag(cpsr);
        match cc {
            ConditionCode::EQ => z,
            ConditionCode::NE => !z,
            ConditionCode::HS => c,
            ConditionCode::LO => !c,
            ConditionCode::MI => n,
            ConditionCode::PL => !n,
            ConditionCode::VS => v,
            ConditionCode::VC => !v,
            ConditionCode::HI => c && !z,
            ConditionCode::LS => !c || z,
            ConditionCode::GE => n == v,
            ConditionCode::LT => n != v,
            ConditionCode::GT => !z && n == v,
            ConditionCode::LE => z || n != v,
            ConditionCode::AL => true,
            ConditionCode::Invalid => false,
        }
    }

    /// Resolve every snapshot entry that waits on `source_id` with the
    /// values that station broadcast.
    pub fn receive_broadcast(&mut self, source_id: usize, changes: &Vec<(u8, u32)>)
        requires
            old(self).wf(),
            forall|r: u8|
                r < NUM_REGISTERS as u8 && old(self).is_pending_on(source_id, r)
                    ==> change_regs(changes@).contains(r),
        ensures
            final(self).wf(),
            final(self).id == old(self).id,
            final(self).instruction == old(self).instruction,
            forall|r: u8|
                r < NUM_REGISTERS as u8 ==> #[trigger] final(self).operand(r) == (if old(
                    self,
                ).is_pending_on(source_id, r) {
                    Some(Register::Ready(change_value(changes@, r)))
                } else {
                    old(self).operand(r)
                }),
    {
        let mut i: usize = 0;
        while i < NUM_REGISTERS
            invariant
                self.wf(),
                self.id == old(self).id,
                self.instruction == old(self).instruction,
                i <= NUM_REGISTERS,
                forall|r: u8|
                    r < NUM_REGISTERS as u8 && old(self).is_pending_on(source_id, r)
                        ==> change_regs(changes@).contains(r),
                forall|r: u8|
                    r < i as u8 ==> #[trigger] self.operand(r) == (if old(self).is_pending_on(
                        source_id,
                        r,
                    ) {
                        Some(Register::Ready(change_value(changes@, r)))
                    } else {
                        old(self).operand(r)
                    }),
                forall|r: u8|
                    i as u8 <= r < NUM_REGISTERS as u8 ==> #[trigger] self.operand(r) == old(
                        self,
                    ).operand(r),
            decreases NUM_REGISTERS - i,
        {
            let ghost prev = *self;
            let entry = self.source_registers[i];
            proof {
                assert(self.operand(i as u8) == old(self).operand(i as u8));
            }
            match entry {
                Some(Register::Pending(station_id, id)) => {
                    proof {
                        assert(id == i as u8);
                    }
                    if station_id == source_id {
                        proof {
                            assert(old(self).is_pending_on(source_id, i as u8));
                        }
                        let val = Self::find_change(changes, id);
                        self.source_registers[i] = Some(Register::Ready(val));
                        proof {
                            assert forall|r: u8| r < NUM_REGISTERS as u8 && r != i as u8 implies
                                #[trigger] self.operand(r) == prev.operand(r) by {}
                            assert(self.operand(i as u8) == Some(Register::Ready(val)));
                        }
                    }
                },
                _ => {
                    proof {
                        assert(!old(self).is_pending_on(source_id, i as u8));
                    }
                },
            }
            i = i + 1;
        }
    }

    /// The address a load or store accesses: the base register (the
    /// program counter reading as the instruction address plus 4, word
    /// aligned) plus either the immediate displacement or the signed,
    /// possibly negated index register.
    pub open spec fn spec_mem_address(self, op_mem: MemOperand) -> u32 {
        let base_val: int = if op_mem.base == PC {
            (add_wrap(self.value_at(PC), 4) & 0xFFFF_FFFCu32) as int
        } else {
            self.value_at(op_mem.base) as int
        };
        let displacement: int = match op_mem.index {
            None => op_mem.disp as int,
            Some(i) => if op_mem.scale == 1 {
                as_signed(self.value_at(i))
            } else {
                -as_signed(self.value_at(i))
            },
        };
        wrap_to_u32(base_val + displacement)
    }

    /// Compute the address of a load or store from the operand snapshot.
    pub fn eval_ldr_str_op_mem(&self, op_mem: &MemOperand) -> (r: u32)
        requires
            self.wf(),
            op_mem.wf(),
            op_mem.scale == 1 || op_mem.scale == -1,
            self.is_ready_at(op_mem.base),
            op_mem.base == PC ==> self.is_ready_at(PC),
            op_mem.index matches Some(i) ==> self.is_ready_at(i),
        ensures
            r == self.spec_mem_address(*op_mem),
    {
        let base_reg_val: i64 = if op_mem.base == PC {
            let pc_val = self.read_by_id(PC);
            let bumped = if pc_val >= 0xFFFF_FFFC {
                pc_val - 0xFFFF_FFFC
            } else {
                pc_val + 4
            };
            (bumped & 0xFFFF_FFFC) as i64
        } else {
            self.read_by_id(op_mem.base) as i64
        };
        let displacement: i64 = match op_mem.index {
            None => op_mem.disp as i64,
            Some(i) => {
                let index_val = signed_of(self.read_by_id(i));
                if op_mem.scale == 1 {
                    index_val
                } else {
                    -index_val
                }
            },
        };
        let result: i64 = base_reg_val + displacement;
        if result < 0 {
            (result + 0x1_0000_0000) as u32
        } else if result > 0xFFFF_FFFF {
            (result - 0x1_0000_0000) as u32
        } else {
            result as u32
        }
    }

    /// The first value `changes` gives for register `r`; the caller
    /// guarantees there is one.
    fn find_change(changes: &Vec<(u8, u32)>, r: u8) -> (v: u32)
        requires
            change_regs(changes@).contains(r),
        ensures
            v == change_value(changes@, r),
    {
        let mut i: usize = 0;
        let n = changes.len();
        while i < n
            invariant
                n == changes@.len(),
                i <= n,
                change_regs(changes@).contains(r),
                forall|j: int| 0 <= j < i ==> changes@[j].0 != r,
            decreases n - i,
        {
            if changes[i].0 == r {
                proof {
                    lemma_change_value_at(changes@, r, i as int);
                }
                return changes[i].1;
            }
            i = i + 1;
        }
        proof {
            let witness = choose|k: int| 0 <= k < changes@.len() && changes@[k].0 == r;
            assert(false);
        }
        0
    }
}

} // verus!
