//! The per-cycle state of the simulated processor and the stages that act
//! on it: fetch, decode, per-station execute, and the atomic apply step
//! that retires completed stations, broadcasts their results and admits at
//! most one new instruction into a free reservation station.

pub mod decode;
pub mod execute;
pub mod fetch;
pub mod station;

use crate::cpu_state::decode::DecodeResults;
use crate::cpu_state::decode::DecodedInstruction;
use crate::cpu_state::execute::station_result_ok;
use crate::cpu_state::execute::StationResults;
use crate::cpu_state::fetch::FetchResults;
use crate::cpu_state::station::Register;
use crate::cpu_state::station::ReservationStation;
use crate::instructions::change_regs;
use crate::instructions::lemma_change_regs_push;
use crate::instructions::Fault;
use crate::registers::ConditionCode;
use crate::registers::RegisterFile;
use crate::registers::CPSR;
use crate::registers::NUM_REGISTERS;
use crate::registers::PC;
use vstd::prelude::*;

verus! {

/// How many decoded instructions may wait between decode and issue.
pub const DECODED_QUEUE_CAPACITY: usize = 6;

/// The state shared by every simulator variant. Memory stays outside: the
/// stages borrow it from the driving loop, reading during fetch and
/// execute and writing only through an executing station's own store.
pub struct CpuState {
    pub registers: RegisterFile,
    /// Address of the instruction waiting to be fetched (Thumb bit set).
    pub next_instr_addr: u32,
    /// The instruction fetched but not yet decoded.
    pub fetched_instruction: Option<fetch::FetchedInstruction>,
    /// Decoded instructions waiting to be issued, in program order.
    pub decoded_instructions: Vec<DecodedInstruction>,
    pub reservation_stations: Vec<ReservationStation>,
    pub should_terminate: bool,
    /// The fault that ended the simulation, if one did.
    pub fault: Option<Fault>,
    /// The exit code of the terminal exception, if one was raised.
    pub exit_code: Option<u32>,
    /// The scoreboard: which station will produce the next value of each
    /// register. One slot per register, so one claimant per register.
    pub pending_registers: Vec<Option<usize>>,
    /// How many instructions have been issued into a station.
    pub issued: Ghost<nat>,
    /// How many instructions have been retired from a station.
    pub retired: Ghost<nat>,
}

/// What one cycle changed, as observed by the statistics: not
/// architectural state.
pub struct UpdateResult {
    pub pc_changed: bool,
    pub instructions_executed: u8,
    pub instructions_skipped: u8,
    pub branches_taken: u8,
    pub branches_not_taken: u8,
}

impl Default for UpdateResult {
    /// All counters zero, nothing changed.
    fn default() -> (r: UpdateResult)
        ensures
            r == (UpdateResult {
                pc_changed: false,
                instructions_executed: 0u8,
                instructions_skipped: 0u8,
                branches_taken: 0u8,
                branches_not_taken: 0u8,
            }),
    {
        UpdateResult {
            pc_changed: false,
            instructions_executed: 0,
            instructions_skipped: 0,
            branches_taken: 0,
            branches_not_taken: 0,
        }
    }
}

impl CpuState {
    /// Whether station `i` holds an instruction.
    pub open spec fn occupied(self, i: int) -> bool {
        self.reservation_stations@[i].instruction is Some
    }

    /// The instruction held by station `i`.
    pub open spec fn held(self, i: int) -> DecodedInstruction
        recommends
            self.occupied(i),
    {
        self.reservation_stations@[i].instruction.unwrap()
    }

    /// Whether station `i` holds an instruction that forbids further
    /// issue: it may write the program counter, performs a memory side
    /// effect, or is conditional, so its true effect is not yet known.
    pub open spec fn blocking(self, i: int) -> bool {
        &&& self.occupied(i)
        &&& (self.held(i).imp.spec_hazardous() || self.held(i).cc != ConditionCode::AL)
    }

    /// How many of the first `n` stations are occupied.
    pub open spec fn occupied_count(self, n: int) -> nat
        decreases n,
    {
        if n <= 0 {
            0
        } else {
            self.occupied_count(n - 1) + (if self.occupied(n - 1) {
                1nat
            } else {
                0nat
            })
        }
    }

    /// The scoreboard names only occupied stations, for registers they
    /// have promised to broadcast, and only stations whose instruction is
    /// certain to broadcast (unconditional, since a skipped conditional
    /// instruction broadcasts nothing).
    pub open spec fn scoreboard_ok(self) -> bool {
        forall|r: int|
            0 <= r < NUM_REGISTERS ==> match #[trigger] self.pending_registers@[r] {
                Some(s) => {
                    &&& 0 <= s < self.reservation_stations@.len()
                    &&& self.occupied(s as int)
                    &&& self.held(s as int).imp.promised().contains(r as u8)
                },
                None => true,
            }
    }

    /// Every pending operand snapshot entry waits on an occupied,
    /// unconditional station that has promised that register; such a
    /// station always eventually broadcasts it.
    pub open spec fn dependencies_ok(self) -> bool {
        forall|i: int, r: u8|
            0 <= i < self.reservation_stations@.len() && r < NUM_REGISTERS as u8 ==> match
                #[trigger] self.reservation_stations@[i].operand(r) {
                Some(Register::Pending(s, _)) => {
                    &&& 0 <= s < self.reservation_stations@.len()
                    &&& s != i
                    &&& self.occupied(s as int)
                    &&& self.held(s as int).imp.promised().contains(r)
                    &&& self.held(s as int).cc == ConditionCode::AL
                },
                _ => true,
            }
    }

    /// Every occupied station's snapshot has an entry for each register
    /// its instruction reads, for the program counter, and, when the
    /// instruction is conditional, for the flags.
    pub open spec fn coverage_ok(self) -> bool {
        forall|i: int|
            0 <= i < self.reservation_stations@.len() && #[trigger] self.occupied(i) ==> {
                &&& self.reservation_stations@[i].covers(
                    self.held(i).imp.sources().insert(crate::registers::PC),
                )
                &&& (self.held(i).cc != ConditionCode::AL
                    ==> self.reservation_stations@[i].operand(crate::registers::CPSR) is Some)
            }
    }

    /// At most one station holds a blocking instruction at any time: a
    /// second one is never issued while the first is in flight.
    pub open spec fn hazard_limited(self) -> bool {
        forall|i: int, j: int|
            0 <= i < self.reservation_stations@.len() && 0 <= j
                < self.reservation_stations@.len() && #[trigger] self.blocking(i)
                && #[trigger] self.blocking(j) ==> i == j
    }

    /// The well-formedness of the whole simulator state. The parts that
    /// tie stations together are claimed only of running states: a fault
    /// halts the machine mid-cycle.
    pub open spec fn wf(self) -> bool {
        &&& self.registers.wf()
        &&& 1 <= self.reservation_stations@.len() <= 255
        &&& forall|i: int|
            0 <= i < self.reservation_stations@.len() ==> (#[trigger] self.reservation_stations@[i]).wf()
        &&& forall|i: int|
            0 <= i < self.reservation_stations@.len()
                ==> (#[trigger] self.reservation_stations@[i]).id == i
        &&& self.pending_registers@.len() == NUM_REGISTERS
        &&& self.decoded_instructions@.len() <= DECODED_QUEUE_CAPACITY
        &&& forall|q: int|
            0 <= q < self.decoded_instructions@.len()
                ==> (#[trigger] self.decoded_instructions@[q]).wf()
        &&& (self.fetched_instruction matches Some(f) ==> f.wf())
        &&& self.hazard_limited()
        &&& self.coverage_ok()
        &&& (!self.should_terminate ==> self.scoreboard_ok())
        &&& (!self.should_terminate ==> self.dependencies_ok())
        &&& self.issued@ == self.retired@ + self.occupied_count(
            self.reservation_stations@.len() as int,
        )
    }

    /// A fresh state: empty pipeline, empty stations, empty scoreboard,
    /// fetch poised at `entry`.
    pub fn new(entry: u32, stations: usize) -> (r: CpuState)
        requires
            1 <= stations <= 255,
        ensures
            r.wf(),
            r.next_instr_addr == entry,
            r.reservation_stations@.len() == stations,
            forall|i: int| 0 <= i < stations ==> !r.occupied(i),
            r.fetched_instruction is None,
            r.decoded_instructions@.len() == 0,
            !r.should_terminate,
            r.fault is None,
            r.registers.reg(crate::registers::SP) == crate::registers::STACK_TOP,
            forall|id: u8|
                id < NUM_REGISTERS as u8 && id != crate::registers::SP
                    ==> #[trigger] r.registers.reg(id) == 0,
            forall|reg: int|
                0 <= reg < NUM_REGISTERS ==> #[trigger] r.pending_registers@[reg] is None,
            r.issued@ == 0,
            r.retired@ == 0,
    {
        let mut stations_vec: Vec<ReservationStation> = Vec::new();
        let mut i: usize = 0;
        while i < stations
            invariant
                i <= stations,
                stations_vec@.len() == i,
                forall|j: int|
                    0 <= j < i ==> (#[trigger] stations_vec@[j]).wf() && stations_vec@[j].id == j
                        && stations_vec@[j].instruction is None,
                forall|j: int, reg: u8|
                    0 <= j < i && reg < NUM_REGISTERS as u8 ==> (
                    #[trigger] stations_vec@[j].operand(reg)) is None,
            decreases stations - i,
        {
            stations_vec.push(ReservationStation::new(i));
            i = i + 1;
        }
        let mut pending: Vec<Option<usize>> = Vec::new();
        let mut k: usize = 0;
        while k < NUM_REGISTERS
            invariant
                k <= NUM_REGISTERS,
                pending@.len() == k,
                forall|j: int| 0 <= j < k ==> pending@[j] is None,
            decreases NUM_REGISTERS - k,
        {
            pending.push(None);
            k = k + 1;
        }
        let r = CpuState {
            registers: RegisterFile::new(),
            next_instr_addr: entry,
            fetched_instruction: None,
            decoded_instructions: Vec::new(),
            reservation_stations: stations_vec,
            should_terminate: false,
            fault: None,
            exit_code: None,
            pending_registers: pending,
            issued: Ghost(0),
            retired: Ghost(0),
        };
        proof {
            r.lemma_occupied_count_none(stations as int);
            assert(r.registers.wf());
            assert(forall|i: int|
                0 <= i < r.reservation_stations@.len()
                    ==> (#[trigger] r.reservation_stations@[i]).wf());
            assert(r.pending_registers@.len() == NUM_REGISTERS);
            assert(r.hazard_limited());
            assert(r.coverage_ok());
            assert(r.scoreboard_ok());
            assert(r.dependencies_ok());
        }
        r
    }

    /// With no station occupied, the occupied count is zero.
    proof fn lemma_occupied_count_none(self, n: int)
        requires
            forall|i: int| 0 <= i < n ==> !self.occupied(i),
        ensures
            self.occupied_count(n) == 0,
        decreases n,
    {
        if n > 0 {
            self.lemma_occupied_count_none(n - 1);
        }
    }

    /// Discard the not-yet-issued work: the fetched-but-undecoded slot and
    /// the decoded queue. Stations keep the instructions they already
    /// hold, whose effects may already be in flight.
    pub fn flush_pipeline(&mut self)
        requires
            old(self).wf(),
        ensures
            final(self).wf(),
            final(self).fetched_instruction is None,
            final(self).decoded_instructions@.len() == 0,
            *final(self) == (CpuState {
                fetched_instruction: None,
                decoded_instructions: final(self).decoded_instructions,
                ..*old(self)
            }),
    {
        self.fetched_instruction = None;
        self.decoded_instructions = Vec::new();
        proof {
            assert(self.hazard_limited()) by {
                assert forall|i: int, j: int|
                    0 <= i < self.reservation_stations@.len() && 0 <= j
                        < self.reservation_stations@.len() && #[trigger] self.blocking(i)
                        && #[trigger] self.blocking(j) implies i == j by {
                    assert(old(self).blocking(i) && old(self).blocking(j));
                }
            }
            assert(self.coverage_ok()) by {
                assert forall|i: int|
                    0 <= i < self.reservation_stations@.len() && #[trigger] self.occupied(
                        i,
                    ) implies self.reservation_stations@[i].covers(
                    self.held(i).imp.sources().insert(crate::registers::PC),
                ) && (self.held(i).cc != ConditionCode::AL
                    ==> self.reservation_stations@[i].operand(crate::registers::CPSR) is Some) by {
                    assert(old(self).occupied(i));
                }
            }
            if !self.should_terminate {
                assert(self.dependencies_ok()) by {
                    assert forall|i: int, r: u8|
                        0 <= i < self.reservation_stations@.len() && r
                            < NUM_REGISTERS as u8 implies match #[trigger] self.reservation_stations@[i].operand(
                        r,
                    ) {
                        Some(Register::Pending(s, _)) => {
                            &&& 0 <= s < self.reservation_stations@.len()
                            &&& s != i
                            &&& self.occupied(s as int)
                            &&& self.held(s as int).imp.promised().contains(r)
                            &&& self.held(s as int).cc == ConditionCode::AL
                        },
                        _ => true,
                    } by {
                        assert(old(self).dependencies_ok());
                        assert(match old(self).reservation_stations@[i].operand(r) {
                            Some(Register::Pending(s, _)) => {
                                &&& 0 <= s < old(self).reservation_stations@.len()
                                &&& s != i
                                &&& old(self).occupied(s as int)
                                &&& old(self).held(s as int).imp.promised().contains(r)
                                &&& old(self).held(s as int).cc == ConditionCode::AL
                            },
                            _ => true,
                        });
                    }
                }
            }
            assert(self.occupied_count(self.reservation_stations@.len() as int) == old(
                self,
            ).occupied_count(self.reservation_stations@.len() as int)) by {
                self.lemma_occupied_count_same(*old(self), self.reservation_stations@.len() as int);
            }
        }
    }

    /// Two states with the same station occupancy count the same.
    proof fn lemma_occupied_count_same(self, other: CpuState, n: int)
        requires
            forall|i: int| 0 <= i < n ==> self.occupied(i) == other.occupied(i),
        ensures
            self.occupied_count(n) == other.occupied_count(n),
        decreases n,
    {
        if n > 0 {
            self.lemma_occupied_count_same(other, n - 1);
        }
    }

    /// Whether there is room for another decoded instruction.
    pub fn decoded_space(&self) -> (r: bool)
        ensures
            r == (self.decoded_instructions@.len() < DECODED_QUEUE_CAPACITY),
    {
        self.decoded_instructions.len() < DECODED_QUEUE_CAPACITY
    }

    /// The operand snapshot entry for a register at issue time: pending on
    /// the scoreboard's claimant if one exists, otherwise the architectural
    /// value.
    pub fn register_value(&self, reg_id: u8) -> (r: Register)
        requires
            self.wf(),
            reg_id < NUM_REGISTERS as u8,
        ensures
            r == self.spec_register_value(reg_id),
    {
        match self.pending_registers[reg_id as usize] {
            Some(station_id) => Register::Pending(station_id, reg_id),
            None => Register::Ready(self.registers.read_by_id(reg_id)),
        }
    }

    /// What `register_value` snapshots.
    pub open spec fn spec_register_value(self, reg_id: u8) -> Register {
        match self.pending_registers@[reg_id as int] {
            Some(station_id) => Register::Pending(station_id, reg_id),
            None => Register::Ready(self.registers.reg(reg_id)),
        }
    }
}

impl CpuState {
    /// Single-claimant scoreboard: for every reachable simulator state, at
    /// most one reservation station is recorded in the scoreboard for a
    /// given register id. The scoreboard keeps one slot per register, so
    /// two claimants of the same register are the same station.
    pub proof fn lemma_single_claimant(self, reg: u8, s1: usize, s2: usize)
        requires
            reg < NUM_REGISTERS as u8,
            self.pending_registers@[reg as int] == Some(s1),
            self.pending_registers@[reg as int] == Some(s2),
        ensures
            s1 == s2,
    {
    }

    /// Conservation of issue: every instruction issued into a station is
    /// retired from exactly one station, so in every well-formed state the
    /// number of instructions issued equals the number retired plus the
    /// number still occupying a station — and once every station has
    /// drained, issued equals retired.
    pub proof fn lemma_conservation_of_issue(self)
        requires
            self.wf(),
        ensures
            self.issued@ == self.retired@ + self.occupied_count(
                self.reservation_stations@.len() as int,
            ),
            (forall|i: int|
                0 <= i < self.reservation_stations@.len() ==> !self.occupied(i))
                ==> self.issued@ == self.retired@,
    {
        if forall|i: int| 0 <= i < self.reservation_stations@.len() ==> !self.occupied(i) {
            self.lemma_occupied_count_none(self.reservation_stations@.len() as int);
        }
    }
}

/// Whether the station result at `j` reports an executed branch: an
/// instruction that completed or trapped with the program counter among
/// its declared destinations.
pub open spec fn spec_executed_branch(rs: Seq<Option<StationResults>>, j: int) -> bool {
    &&& 0 <= j < rs.len()
    &&& rs[j] matches Some(res) && res.did_execute_instruction && res.instruction_is_branch
}

/// The broadcast payload of station `i`'s result, when it completed.
pub open spec fn completed_changes(rs: Seq<Option<StationResults>>, i: int) -> Option<
    Seq<(u8, u32)>,
> {
    match rs[i] {
        Some(res) => match res.register_changes {
            Some(ch) => Some(ch@),
            None => None,
        },
        None => None,
    }
}

/// Whether station `i`'s result broadcast a value for register `r`.
pub open spec fn station_wrote(rs: Seq<Option<StationResults>>, i: int, r: u8) -> bool {
    &&& 0 <= i < rs.len()
    &&& completed_changes(rs, i) matches Some(ch) && change_regs(ch).contains(r)
}

/// The last value a change list carries for `r`: the value the register
/// file keeps when one completion lists a register more than once.
pub open spec fn last_change_value(ch: Seq<(u8, u32)>, r: u8) -> u32
    decreases ch.len(),
{
    if ch.len() == 0 {
        0
    } else if ch.last().0 == r {
        ch.last().1
    } else {
        last_change_value(ch.drop_last(), r)
    }
}

/// The highest-numbered station below `n` whose result wrote `r`: its
/// value lands last in the register file.
pub open spec fn last_writer(rs: Seq<Option<StationResults>>, r: u8, n: int) -> Option<int>
    decreases n,
{
    if n <= 0 {
        None
    } else if station_wrote(rs, n - 1, r) {
        Some(n - 1)
    } else {
        last_writer(rs, r, n - 1)
    }
}

/// The architectural value of `r` once the first `n` stations' results
/// have committed.
pub open spec fn regfile_after(
    s0: CpuState,
    rs: Seq<Option<StationResults>>,
    n: int,
    r: u8,
) -> u32 {
    match last_writer(rs, r, n) {
        Some(i) => last_change_value(completed_changes(rs, i).unwrap(), r),
        None => s0.registers.reg(r),
    }
}

/// The scoreboard claim for `r` once the first `n` stations' results have
/// committed: a claim is dropped exactly when its own station completed
/// with `r` among its changes, or skipped.
pub open spec fn claim_after(
    s0: CpuState,
    rs: Seq<Option<StationResults>>,
    n: int,
    r: u8,
) -> Option<usize> {
    match s0.pending_registers@[r as int] {
        Some(st) => if st < n && (match rs[st as int] {
            Some(res) => res.did_skip_instruction || (res.register_changes matches Some(ch)
                && change_regs(ch@).contains(r)),
            None => false,
        }) {
            None
        } else {
            Some(st)
        },
        None => None,
    }
}

/// A station's operand snapshot entry once the first `n` stations'
/// results have broadcast: a pending entry resolves to the first value
/// its source station's broadcast carries for the register.
pub open spec fn operand_after(
    s0: CpuState,
    rs: Seq<Option<StationResults>>,
    n: int,
    i: int,
    r: u8,
) -> Option<Register> {
    match s0.reservation_stations@[i].operand(r) {
        Some(Register::Pending(src, r2)) => if src < n && completed_changes(
            rs,
            src as int,
        ) is Some {
            Some(
                Register::Ready(
                    crate::cpu_state::station::change_value(
                        completed_changes(rs, src as int).unwrap(),
                        r2,
                    ),
                ),
            )
        } else {
            s0.reservation_stations@[i].operand(r)
        },
        _ => s0.reservation_stations@[i].operand(r),
    }
}

/// How many of the first `n` results report an executed instruction.
pub open spec fn count_executed(rs: Seq<Option<StationResults>>, n: int) -> int
    decreases n,
{
    if n <= 0 {
        0
    } else {
        count_executed(rs, n - 1) + if rs[n - 1] matches Some(res)
            && res.did_execute_instruction {
            1int
        } else {
            0int
        }
    }
}

/// How many of the first `n` results report a skipped instruction.
pub open spec fn count_skipped(rs: Seq<Option<StationResults>>, n: int) -> int
    decreases n,
{
    if n <= 0 {
        0
    } else {
        count_skipped(rs, n - 1) + if rs[n - 1] matches Some(res) && res.did_skip_instruction {
            1int
        } else {
            0int
        }
    }
}

/// How many of the first `n` results report a taken branch.
pub open spec fn count_taken(rs: Seq<Option<StationResults>>, n: int) -> int
    decreases n,
{
    if n <= 0 {
        0
    } else {
        count_taken(rs, n - 1) + if spec_executed_branch(rs, n - 1) {
            1int
        } else {
            0int
        }
    }
}

/// How many of the first `n` results report a skipped branch.
pub open spec fn count_not_taken(rs: Seq<Option<StationResults>>, n: int) -> int
    decreases n,
{
    if n <= 0 {
        0
    } else {
        count_not_taken(rs, n - 1) + if rs[n - 1] matches Some(res) && res.did_skip_instruction
            && res.instruction_is_branch {
            1int
        } else {
            0int
        }
    }
}

/// How many of the first `n` results retire their station.
pub open spec fn count_retired(rs: Seq<Option<StationResults>>, n: int) -> int
    decreases n,
{
    if n <= 0 {
        0
    } else {
        count_retired(rs, n - 1) + if rs[n - 1] matches Some(res) && res.next_state is None {
            1int
        } else {
            0int
        }
    }
}

/// Whether station `i`'s broadcast carries a program-counter value
/// without the Thumb bit, which halts the machine.
pub open spec fn wrote_even_pc(rs: Seq<Option<StationResults>>, i: int) -> bool {
    completed_changes(rs, i) matches Some(ch) && exists|c: int|
        0 <= c < ch.len() && (#[trigger] ch[c]).0 == PC && ch[c].1 & 1 == 0
}

/// The fetch address after one change list commits: each odd
/// program-counter value redirects it in turn, even ones fault instead.
pub open spec fn pc_target(ch: Seq<(u8, u32)>, base: u32) -> u32
    decreases ch.len(),
{
    if ch.len() == 0 {
        base
    } else if ch.last().0 == PC && ch.last().1 & 1 == 1 {
        ch.last().1
    } else {
        pc_target(ch.drop_last(), base)
    }
}

/// Whether a change list carries a program-counter value without the
/// Thumb bit.
pub open spec fn has_even_pc(ch: Seq<(u8, u32)>) -> bool
    decreases ch.len(),
{
    if ch.len() == 0 {
        false
    } else {
        (ch.last().0 == PC && ch.last().1 & 1 == 0) || has_even_pc(ch.drop_last())
    }
}

/// `has_even_pc` holds exactly when some entry commits an even program
/// counter.
pub proof fn lemma_has_even_pc(ch: Seq<(u8, u32)>)
    ensures
        has_even_pc(ch) <==> (exists|x: int|
            0 <= x < ch.len() && (#[trigger] ch[x]).0 == PC && ch[x].1 & 1 == 0),
    decreases ch.len(),
{
    if ch.len() > 0 {
        lemma_has_even_pc(ch.drop_last());
        if has_even_pc(ch) {
            if ch.last().0 == PC && ch.last().1 & 1 == 0 {
                assert(ch[ch.len() - 1].0 == PC && ch[ch.len() - 1].1 & 1 == 0);
            } else {
                let x = choose|x: int|
                    0 <= x < ch.drop_last().len() && (#[trigger] ch.drop_last()[x]).0 == PC
                        && ch.drop_last()[x].1 & 1 == 0;
                assert(ch[x].0 == PC && ch[x].1 & 1 == 0);
            }
        }
        if exists|x: int| 0 <= x < ch.len() && (#[trigger] ch[x]).0 == PC && ch[x].1 & 1 == 0 {
            let x = choose|x: int|
                0 <= x < ch.len() && (#[trigger] ch[x]).0 == PC && ch[x].1 & 1 == 0;
            if x == ch.len() - 1 {
            } else {
                assert(ch.drop_last()[x].0 == PC && ch.drop_last()[x].1 & 1 == 0);
            }
        }
    }
}

/// The fetch address after the first `k` stations' results commit.
pub open spec fn next_after(base: u32, rs: Seq<Option<StationResults>>, k: int) -> u32
    decreases k,
{
    if k <= 0 {
        base
    } else {
        match completed_changes(rs, k - 1) {
            Some(ch) => pc_target(ch, next_after(base, rs, k - 1)),
            None => next_after(base, rs, k - 1),
        }
    }
}

/// Whether station `i`'s result halts the simulation: it asked to
/// terminate, or it committed an unfetchable program counter.
pub open spec fn terminating_result(rs: Seq<Option<StationResults>>, i: int) -> bool {
    ||| (rs[i] matches Some(res) && res.should_terminate)
    ||| wrote_even_pc(rs, i)
}

/// Whether station `i` still blocks issue once this cycle's results are
/// applied: it keeps (or received as continuation) an instruction that is
/// hazardous or conditional.
pub open spec fn blocking_after(s0: CpuState, rs: Seq<Option<StationResults>>, i: int) -> bool {
    match rs[i] {
        Some(res) => match res.next_state {
            Some(nx) => nx.spec_hazardous() || s0.held(i).cc != ConditionCode::AL,
            None => false,
        },
        None => s0.blocking(i),
    }
}

/// Whether station `i` is empty once this cycle's results are applied.
pub open spec fn free_after(s0: CpuState, rs: Seq<Option<StationResults>>, i: int) -> bool {
    match rs[i] {
        Some(res) => res.next_state is None,
        None => !s0.occupied(i),
    }
}

/// The first station empty after this cycle's retirements, searching
/// upward from `i`: the station a new issue would use.
pub open spec fn first_free_after(
    s0: CpuState,
    rs: Seq<Option<StationResults>>,
    i: int,
) -> Option<int>
    decreases rs.len() - i,
{
    if i >= rs.len() || i < 0 {
        None
    } else if free_after(s0, rs, i) {
        Some(i)
    } else {
        first_free_after(s0, rs, i + 1)
    }
}

/// The queue as decode leaves it, before issue takes its head.
pub open spec fn queue_after_decode(
    s0: CpuState,
    decode_results: Option<DecodeResults>,
) -> Seq<DecodedInstruction> {
    match decode_results {
        Some(dr) => s0.decoded_instructions@.push(dr.instr),
        None => s0.decoded_instructions@,
    }
}

/// Whether a new instruction is admitted into a station this cycle: no
/// station still blocks issue after this cycle's retirements, one is
/// free, no program counter committed, nothing halted the machine, and
/// the queue has work.
pub open spec fn issue_admitted(
    s0: CpuState,
    rs: Seq<Option<StationResults>>,
    decode_results: Option<DecodeResults>,
) -> bool {
    &&& forall|i: int| 0 <= i < rs.len() ==> !blocking_after(s0, rs, i)
    &&& first_free_after(s0, rs, 0) is Some
    &&& !(exists|j: int| 0 <= j < rs.len() && station_wrote(rs, j, PC))
    &&& !(exists|j: int| 0 <= j < rs.len() && terminating_result(rs, j))
    &&& queue_after_decode(s0, decode_results).len() > 0
}

/// How one station looks once the cycle's results are applied, leaving
/// aside the station a new issue may fill: retired stations are empty,
/// continued ones hold the continuation, untouched ones their old
/// instruction, and every surviving snapshot entry carries this cycle's
/// broadcasts.
pub open spec fn station_settled(
    s0: CpuState,
    rs: Seq<Option<StationResults>>,
    sfinal: CpuState,
    j: int,
) -> bool {
    let n = rs.len() as int;
    &&& (rs[j] matches Some(res) ==> match res.next_state {
        None => !sfinal.occupied(j),
        Some(nx) => sfinal.occupied(j) && sfinal.held(j).imp == nx && sfinal.held(j).cc
            == s0.held(j).cc && sfinal.held(j).length == s0.held(j).length && sfinal.held(
            j,
        ).address == s0.held(j).address,
    })
    &&& (rs[j] is None ==> sfinal.reservation_stations@[j].instruction
        == s0.reservation_stations@[j].instruction)
    &&& forall|r: u8|
        r < NUM_REGISTERS as u8 ==> #[trigger] sfinal.reservation_stations@[j].operand(r) == (
        if rs[j] matches Some(res) && res.next_state is None {
            Option::<Register>::None
        } else {
            operand_after(s0, rs, n, j, r)
        })
}

/// The operand snapshot a fresh issue installs: the program counter reads
/// as the instruction's own address, each source register (and the flags,
/// when the instruction is conditional) is pending on the scoreboard's
/// post-commit claimant or carries the post-commit architectural value,
/// and every other slot is empty.
pub open spec fn issue_snapshot(
    s0: CpuState,
    rs: Seq<Option<StationResults>>,
    n: int,
    instr: DecodedInstruction,
    r: u8,
) -> Option<Register> {
    if r == PC {
        Some(Register::Ready(instr.address))
    } else if instr.imp.sources().contains(r) || (instr.cc != ConditionCode::AL && r == CPSR) {
        match claim_after(s0, rs, n, r) {
            Some(src) => Some(Register::Pending(src, r)),
            None => Some(Register::Ready(regfile_after(s0, rs, n, r))),
        }
    } else {
        None
    }
}

impl CpuState {
    /// Changing station occupancy at one index shifts the count by at most
    /// that station's contribution.
    proof fn lemma_occupied_count_update(a: CpuState, b: CpuState, n: int, idx: int)
        requires
            forall|j: int| 0 <= j < n && j != idx ==> a.occupied(j) == b.occupied(j),
        ensures
            !(0 <= idx < n) ==> a.occupied_count(n) == b.occupied_count(n),
            0 <= idx < n && a.occupied(idx) == b.occupied(idx) ==> a.occupied_count(n)
                == b.occupied_count(n),
            0 <= idx < n && a.occupied(idx) && !b.occupied(idx) ==> a.occupied_count(n)
                == b.occupied_count(n) + 1,
            0 <= idx < n && !a.occupied(idx) && b.occupied(idx) ==> a.occupied_count(n) + 1
                == b.occupied_count(n),
        decreases n,
    {
        if n > 0 {
            Self::lemma_occupied_count_update(a, b, n - 1, idx);
        }
    }

    /// A change list with no program-counter entry never moves the fetch
    /// address.
    proof fn lemma_pc_target_no_pc(ch: Seq<(u8, u32)>, base: u32)
        requires
            !change_regs(ch).contains(PC),
        ensures
            pc_target(ch, base) == base,
        decreases ch.len(),
    {
        if ch.len() > 0 {
            assert(ch.last().0 != PC) by {
                if ch.last().0 == PC {
                    assert(change_regs(ch).contains(PC)) by {
                        assert(ch[ch.len() - 1].0 == PC);
                    }
                }
            }
            assert(!change_regs(ch.drop_last()).contains(PC)) by {
                if change_regs(ch.drop_last()).contains(PC) {
                    let i = choose|i: int|
                        0 <= i < ch.drop_last().len() && ch.drop_last()[i].0 == PC;
                    assert(ch[i].0 == PC);
                    assert(change_regs(ch).contains(PC));
                }
            }
            Self::lemma_pc_target_no_pc(ch.drop_last(), base);
        }
    }

    /// With no program-counter writer among the first `k` results, the
    /// fetch address stays put.
    proof fn lemma_next_after_no_writer(
        base: u32,
        rs: Seq<Option<StationResults>>,
        k: int,
    )
        requires
            k <= rs.len(),
            forall|j: int| 0 <= j < k ==> !station_wrote(rs, j, PC),
        ensures
            next_after(base, rs, k) == base,
        decreases k,
    {
        if k > 0 {
            Self::lemma_next_after_no_writer(base, rs, k - 1);
            match completed_changes(rs, k - 1) {
                Some(ch) => {
                    assert(!station_wrote(rs, k - 1, PC));
                    assert(!change_regs(ch).contains(PC));
                    Self::lemma_pc_target_no_pc(ch, base);
                },
                None => {},
            }
        }
    }

    /// `first_free_after` finds exactly the least free station.
    proof fn lemma_first_free_at(
        s0: CpuState,
        rs: Seq<Option<StationResults>>,
        j: int,
        idx: int,
    )
        requires
            0 <= j <= idx < rs.len(),
            free_after(s0, rs, idx),
            forall|x: int| j <= x < idx ==> !free_after(s0, rs, x),
        ensures
            first_free_after(s0, rs, j) == Some(idx),
        decreases idx - j,
    {
        if j < idx {
            Self::lemma_first_free_at(s0, rs, j + 1, idx);
        }
    }

    /// With no free station, `first_free_after` finds none.
    proof fn lemma_first_free_none(s0: CpuState, rs: Seq<Option<StationResults>>, j: int)
        requires
            0 <= j,
            forall|x: int| j <= x < rs.len() ==> !free_after(s0, rs, x),
        ensures
            first_free_after(s0, rs, j) is None,
        decreases rs.len() - j,
    {
        if j < rs.len() {
            Self::lemma_first_free_none(s0, rs, j + 1);
        }
    }

    /// Two executed branches are never reported in the same cycle: an
    /// in-flight instruction that may write the program counter blocks all
    /// further issue, so at most one such instruction is in flight.
    proof fn lemma_one_executed_branch(
        s0: CpuState,
        rs: Seq<Option<StationResults>>,
        j1: int,
        j2: int,
    )
        requires
            s0.wf(),
            rs.len() == s0.reservation_stations@.len(),
            forall|j: int|
                0 <= j < rs.len() ==> ((#[trigger] rs[j]) matches Some(res)
                    ==> station_result_ok(s0, j, res)),
            spec_executed_branch(rs, j1),
            spec_executed_branch(rs, j2),
        ensures
            j1 == j2,
    {
        assert(rs[j1] matches Some(res) && station_result_ok(s0, j1, res));
        assert(rs[j2] matches Some(res) && station_result_ok(s0, j2, res));
        assert(s0.blocking(j1));
        assert(s0.blocking(j2));
    }

    /// Issue a decoded instruction into the chosen empty station: snapshot
    /// each source register (pending on the scoreboard's claimant where
    /// one exists), snapshot the program counter as the instruction's own
    /// address, add the flags when the instruction is conditional, and
    /// record every declared destination in the scoreboard.
    ///
    /// Called only when no blocking instruction is in flight, so every
    /// scoreboard claimant being waited on is unconditional and will
    /// broadcast.
    fn issue_into(&mut self, station_index: usize, instr: DecodedInstruction)
        requires
            old(self).wf(),
            !old(self).should_terminate,
            station_index < old(self).reservation_stations@.len(),
            !old(self).occupied(station_index as int),
            forall|i: int|
                0 <= i < old(self).reservation_stations@.len() ==> !old(self).blocking(i),
            instr.wf(),
        ensures
            final(self).wf(),
            final(self).issued@ == old(self).issued@ + 1,
            final(self).retired@ == old(self).retired@,
            final(self).reservation_stations@.len() == old(self).reservation_stations@.len(),
            final(self).next_instr_addr == old(self).next_instr_addr,
            final(self).should_terminate == old(self).should_terminate,
            final(self).occupied(station_index as int),
            final(self).held(station_index as int) == instr,
            forall|i: int|
                0 <= i < old(self).reservation_stations@.len() && i != station_index
                    ==> #[trigger] final(self).reservation_stations@[i] == old(
                    self,
                ).reservation_stations@[i],
            final(self).decoded_instructions == old(self).decoded_instructions,
            final(self).fetched_instruction == old(self).fetched_instruction,
            final(self).registers == old(self).registers,
            forall|r: int|
                0 <= r < NUM_REGISTERS ==> #[trigger] final(self).pending_registers@[r] == (
                if instr.imp.dests().contains(r as u8) {
                    Some(station_index)
                } else {
                    old(self).pending_registers@[r]
                }),
            forall|r: u8|
                r < NUM_REGISTERS as u8
                    ==> #[trigger] final(self).reservation_stations@[station_index as int].operand(
                    r,
                ) == (if r == PC {
                    Some(Register::Ready(instr.address))
                } else if instr.imp.sources().contains(r) || (instr.cc != ConditionCode::AL && r
                    == CPSR) {
                    match old(self).pending_registers@[r as int] {
                        Some(src) => Some(Register::Pending(src, r)),
                        None => Some(Register::Ready(old(self).registers.reg(r))),
                    }
                } else {
                    Option::<Register>::None
                }),
    {
        let ghost pre = *self;
        let mut source_registers: Vec<Option<Register>> = Vec::new();
        let mut z: usize = 0;
        while z < NUM_REGISTERS
            invariant
                z <= NUM_REGISTERS,
                source_registers@.len() == z,
                forall|j: int| 0 <= j < z ==> source_registers@[j] is None,
            decreases NUM_REGISTERS - z,
        {
            source_registers.push(None);
            z = z + 1;
        }
        let required = instr.imp.source_registers();
        let nr = required.len();
        let mut q: usize = 0;
        while q < nr
            invariant
                *self == pre,
                pre.wf(),
                nr == required@.len(),
                q <= nr,
                source_registers@.len() == NUM_REGISTERS,
                forall|j: int| 0 <= j < nr ==> #[trigger] required@[j] < NUM_REGISTERS as u8,
                forall|r: int|
                    0 <= r < NUM_REGISTERS ==> match #[trigger] source_registers@[r] {
                        Some(entry) => entry == pre.spec_register_value(r as u8),
                        None => true,
                    },
                forall|j: int|
                    0 <= j < q ==> (#[trigger] source_registers@[required@[j] as int]) is Some,
                forall|r: int|
                    0 <= r < NUM_REGISTERS && (#[trigger] source_registers@[r]) is Some
                        ==> exists|j: int| 0 <= j < q && required@[j] == r as u8,
            decreases nr - q,
        {
            let r = required[q];
            source_registers[r as usize] = Some(self.register_value(r));
            q = q + 1;
        }
        // The program counter reads as the instruction's own address.
        source_registers[PC as usize] = Some(Register::Ready(instr.address));
        // A conditional instruction also needs the flags at execute time.
        let conditional = match instr.cc {
            ConditionCode::AL => false,
            _ => true,
        };
        if conditional {
            let cpsr_entry = self.register_value(CPSR);
            source_registers[CPSR as usize] = Some(cpsr_entry);
        }
        proof {
            assert forall|r: int| 0 <= r < NUM_REGISTERS implies match #[trigger] source_registers@[r] {
                Some(Register::Pending(st, r2)) => r2 == r && pre.spec_register_value(r as u8)
                    == Register::Pending(st, r as u8),
                _ => true,
            } by {
                if r != PC as int && !(conditional && r == CPSR as int) {
                    assert(match source_registers@[r] {
                        Some(entry) => entry == pre.spec_register_value(r as u8),
                        None => true,
                    });
                }
            }
        }
        // Register the declared destinations in the scoreboard before the
        // instruction starts: a later issue that reads one of them will
        // wait on this station.
        let dests = instr.imp.dest_registers();
        let nd = dests.len();
        let mut w: usize = 0;
        let ghost pr0 = self.pending_registers@;
        while w < nd
            invariant
                nd == dests@.len(),
                w <= nd,
                self.pending_registers@.len() == NUM_REGISTERS,
                forall|j: int| 0 <= j < nd ==> #[trigger] dests@[j] < NUM_REGISTERS as u8,
                dests@.to_set() == instr.imp.dests(),
                forall|r: int|
                    0 <= r < NUM_REGISTERS ==> #[trigger] self.pending_registers@[r] == (
                    if exists|j: int| 0 <= j < w && dests@[j] == r as u8 {
                        Some(station_index)
                    } else {
                        pr0[r]
                    }),
                *self == (CpuState { pending_registers: self.pending_registers, ..pre }),
            decreases nd - w,
        {
            let d = dests[w];
            self.pending_registers[d as usize] = Some(station_index);
            proof {
                assert(dests@[w as int] == d);
                assert(dests@.to_set().contains(d));
                assert forall|r: int|
                    0 <= r < NUM_REGISTERS implies #[trigger] self.pending_registers@[r] == (
                if exists|j: int| 0 <= j < w + 1 && dests@[j] == r as u8 {
                    Some(station_index)
                } else {
                    pr0[r]
                }) by {
                    if r == d as int {
                        assert(dests@[w as int] == r as u8);
                    } else {
                        if exists|j: int| 0 <= j < w + 1 && dests@[j] == r as u8 {
                            let j = choose|j: int| 0 <= j < w + 1 && dests@[j] == r as u8;
                            assert(j < w);
                        }
                    }
                }
            }
            w = w + 1;
        }
        proof {
            assert forall|r: int|
                0 <= r < NUM_REGISTERS implies #[trigger] self.pending_registers@[r] == (
            if instr.imp.dests().contains(r as u8) {
                Some(station_index)
            } else {
                pr0[r]
            }) by {
                if instr.imp.dests().contains(r as u8) {
                    assert(dests@.to_set().contains(r as u8));
                    let j = choose|j: int| 0 <= j < dests@.len() && dests@[j] == r as u8;
                } else {
                    if exists|j: int| 0 <= j < nd && dests@[j] == r as u8 {
                        let j = choose|j: int| 0 <= j < nd && dests@[j] == r as u8;
                        assert(dests@.to_set().contains(dests@[j]));
                        assert(false);
                    }
                }
            }
        }
        let ghost mid = *self;
        self.reservation_stations[station_index].issue(instr, source_registers);
        proof {
            self.issued = Ghost(self.issued@ + 1);
            Self::lemma_occupied_count_update(
                mid,
                *self,
                self.reservation_stations@.len() as int,
                station_index as int,
            );
            mid.lemma_occupied_count_same(pre, self.reservation_stations@.len() as int);
            // Every part of well-formedness is restored for the new state.
            let sn = *self;
            assert forall|r: int|
                0 <= r < NUM_REGISTERS implies match #[trigger] sn.pending_registers@[r] {
                Some(st) => {
                    &&& 0 <= st < sn.reservation_stations@.len()
                    &&& sn.occupied(st as int)
                    &&& sn.held(st as int).imp.promised().contains(r as u8)
                },
                None => true,
            } by {
                match sn.pending_registers@[r] {
                    Some(st) => {
                        if st == station_index && pr0[r] != Some(station_index) {
                            assert(instr.imp.dests().contains(r as u8));
                            assert(instr.imp.promised().contains(r as u8));
                        } else {
                            assert(pr0[r] == Some(st));
                            assert(pre.occupied(st as int));
                            assert(st != station_index);
                            assert(sn.held(st as int) == pre.held(st as int));
                        }
                    },
                    None => {},
                }
            }
            assert forall|i: int, r: u8|
                0 <= i < sn.reservation_stations@.len() && r < NUM_REGISTERS as u8 implies match
                #[trigger] sn.reservation_stations@[i].operand(r) {
                Some(Register::Pending(st, _)) => {
                    &&& 0 <= st < sn.reservation_stations@.len()
                    &&& st != i
                    &&& sn.occupied(st as int)
                    &&& sn.held(st as int).imp.promised().contains(r)
                    &&& sn.held(st as int).cc == ConditionCode::AL
                },
                _ => true,
            } by {
                if i == station_index {
                    match sn.reservation_stations@[i].operand(r) {
                        Some(Register::Pending(st, _)) => {
                            assert(source_registers@[r as int] == Some(
                                Register::Pending(st, r),
                            ));
                            assert(pre.spec_register_value(r) == Register::Pending(st, r));
                            assert(pre.pending_registers@[r as int] == Some(st));
                            assert(pre.occupied(st as int));
                            assert(st != station_index);
                            assert(sn.held(st as int) == pre.held(st as int));
                            assert(!pre.blocking(st as int));
                            assert(pre.held(st as int).cc == ConditionCode::AL);
                        },
                        _ => {},
                    }
                } else {
                    assert(sn.reservation_stations@[i] == pre.reservation_stations@[i]);
                    match sn.reservation_stations@[i].operand(r) {
                        Some(Register::Pending(st, _)) => {
                            assert(pre.dependencies_ok());
                            assert(match pre.reservation_stations@[i].operand(r) {
                                Some(Register::Pending(st2, _)) => {
                                    &&& 0 <= st2 < pre.reservation_stations@.len()
                                    &&& st2 != i
                                    &&& pre.occupied(st2 as int)
                                    &&& pre.held(st2 as int).imp.promised().contains(r)
                                    &&& pre.held(st2 as int).cc == ConditionCode::AL
                                },
                                _ => true,
                            });
                            assert(st != station_index);
                            assert(sn.held(st as int) == pre.held(st as int));
                        },
                        _ => {},
                    }
                }
            }
            assert forall|i: int|
                0 <= i < sn.reservation_stations@.len() && #[trigger] sn.occupied(i) implies {
                &&& sn.reservation_stations@[i].covers(
                    sn.held(i).imp.sources().insert(PC),
                )
                &&& (sn.held(i).cc != ConditionCode::AL ==> sn.reservation_stations@[i].operand(
                    CPSR,
                ) is Some)
            } by {
                if i == station_index {
                    assert forall|r: u8|
                        sn.held(i).imp.sources().insert(PC).contains(r) implies (
                    #[trigger] sn.reservation_stations@[i].operand(r)) is Some by {
                        if r == PC {
                            assert(source_registers@[PC as int] is Some);
                        } else {
                            assert(instr.imp.sources().contains(r));
                            assert(required@.to_set().contains(r));
                            let j = choose|j: int|
                                0 <= j < required@.len() && required@[j] == r;
                            assert(source_registers@[required@[j] as int] is Some);
                        }
                    }
                } else {
                    assert(sn.reservation_stations@[i] == pre.reservation_stations@[i]);
                    assert(pre.occupied(i));
                    assert(sn.held(i) == pre.held(i));
                }
            }
            assert forall|i: int, j: int|
                0 <= i < sn.reservation_stations@.len() && 0 <= j
                    < sn.reservation_stations@.len() && #[trigger] sn.blocking(i)
                    && #[trigger] sn.blocking(j) implies i == j by {
                if i != station_index {
                    assert(sn.reservation_stations@[i] == pre.reservation_stations@[i]);
                    assert(pre.blocking(i));
                    assert(false);
                }
                if j != station_index {
                    assert(sn.reservation_stations@[j] == pre.reservation_stations@[j]);
                    assert(pre.blocking(j));
                    assert(false);
                }
            }
            assert(sn.wf());
        }
    }

    /// Apply one cycle's stage results as a single transaction: retire or
    /// continue every polled station, broadcasting the register changes of
    /// the completed ones to the architectural registers, the scoreboard
    /// and every waiting station; bank the fetch and decode results; and
    /// finally admit at most one decoded instruction into a free station,
    /// provided no control hazard is outstanding and the program counter
    /// did not change this cycle.
    ///
    /// At most one program-counter change commits per cycle: the returned
    /// counters always satisfy `branches_taken <= 1`, and `pc_changed`
    /// only with `branches_taken == 1`.
    #[verifier::rlimit(100)]
    pub fn apply_stages(
        &mut self,
        fetch_results: Option<FetchResults>,
        decode_results: Option<DecodeResults>,
        station_results: Vec<Option<StationResults>>,
    ) -> (result: UpdateResult)
        requires
            old(self).wf(),
            !old(self).should_terminate,
            old(self).next_instr_addr & 1 == 1,
            station_results@.len() == old(self).reservation_stations@.len(),
            forall|j: int|
                0 <= j < station_results@.len() ==> ((#[trigger] station_results@[j]) matches Some(
                    res,
                ) ==> station_result_ok(*old(self), j, res)),
            decode_results matches Some(dr) ==> old(self).fetched_instruction is Some && old(
                self,
            ).decoded_instructions@.len() < DECODED_QUEUE_CAPACITY && dr.instr.wf(),
            fetch_results matches Some(fr) ==> (old(self).fetched_instruction is None
                || decode_results is Some) && fr.instruction.wf() && fr.next_addr & 1 == 1,
        ensures
            final(self).wf(),
            final(self).next_instr_addr & 1 == 1,
            result.branches_taken <= 1,
            result.pc_changed ==> result.branches_taken == 1,
            old(self).issued@ <= final(self).issued@ <= old(self).issued@ + 1,
            old(self).retired@ <= final(self).retired@,
            final(self).reservation_stations@.len() == old(self).reservation_stations@.len(),
            (forall|j: int|
                0 <= j < station_results@.len() ==> !((#[trigger] station_results@[j]) is Some))
                ==> !final(self).should_terminate,
            // The fetch and decode results are banked: decode consumes the
            // fetched slot, fetch refills it.
            final(self).fetched_instruction == (match fetch_results {
                Some(fr) => Some(fr.instruction),
                None => if decode_results is Some {
                    Option::<fetch::FetchedInstruction>::None
                } else {
                    old(self).fetched_instruction
                },
            }),
            // The counters are exactly the counts over this cycle's
            // results, and the flags are exactly their reasons.
            result.instructions_executed as int == count_executed(
                station_results@,
                station_results@.len() as int,
            ),
            result.instructions_skipped as int == count_skipped(
                station_results@,
                station_results@.len() as int,
            ),
            result.branches_taken as int == count_taken(
                station_results@,
                station_results@.len() as int,
            ),
            result.branches_not_taken as int == count_not_taken(
                station_results@,
                station_results@.len() as int,
            ),
            result.pc_changed <==> (exists|j: int|
                0 <= j < station_results@.len() && station_wrote(station_results@, j, PC)),
            final(self).should_terminate <==> (exists|j: int|
                0 <= j < station_results@.len() && terminating_result(station_results@, j)),
            // Every completed result's register values land in the
            // register file, the last writer winning.
            forall|r: u8|
                r < NUM_REGISTERS as u8 ==> #[trigger] final(self).registers.reg(r)
                    == regfile_after(
                    *old(self),
                    station_results@,
                    station_results@.len() as int,
                    r,
                ),
            // A committed program counter redirects the fetch address;
            // otherwise it follows the banked fetch result.
            final(self).next_instr_addr == next_after(
                match fetch_results {
                    Some(fr) => fr.next_addr,
                    None => old(self).next_instr_addr,
                },
                station_results@,
                station_results@.len() as int,
            ),
            !result.pc_changed ==> final(self).next_instr_addr == (match fetch_results {
                Some(fr) => fr.next_addr,
                None => old(self).next_instr_addr,
            }),
            final(self).retired@ == old(self).retired@ + count_retired(
                station_results@,
                station_results@.len() as int,
            ),
            // Issue admits exactly the queue's head into exactly the first
            // free station, only when nothing blocks it; otherwise queue,
            // stations and scoreboard gain nothing.
            ({
                let rs = station_results@;
                let n = rs.len() as int;
                let q1 = queue_after_decode(*old(self), decode_results);
                let admitted = issue_admitted(*old(self), rs, decode_results);
                &&& (!admitted ==> {
                    &&& final(self).decoded_instructions@ == q1
                    &&& final(self).issued@ == old(self).issued@
                    &&& forall|r: int|
                        0 <= r < NUM_REGISTERS ==> #[trigger] final(self).pending_registers@[r]
                            == claim_after(*old(self), rs, n, r as u8)
                    &&& forall|j: int|
                        0 <= j < n ==> #[trigger] station_settled(*old(self), rs, *final(self), j)
                })
                &&& (admitted ==> (first_free_after(*old(self), rs, 0) matches Some(ff) && {
                    &&& final(self).decoded_instructions@ == q1.drop_first()
                    &&& final(self).issued@ == old(self).issued@ + 1
                    &&& forall|r: int|
                        0 <= r < NUM_REGISTERS ==> #[trigger] final(self).pending_registers@[r]
                            == (if q1[0].imp.dests().contains(r as u8) {
                            Some(ff as usize)
                        } else {
                            claim_after(*old(self), rs, n, r as u8)
                        })
                    &&& final(self).reservation_stations@[ff].instruction == Some(q1[0])
                    &&& forall|r: u8|
                        r < NUM_REGISTERS as u8
                            ==> #[trigger] final(self).reservation_stations@[ff].operand(r)
                            == issue_snapshot(*old(self), rs, n, q1[0], r)
                    &&& forall|j: int|
                        0 <= j < n && j != ff ==> #[trigger] station_settled(
                            *old(self),
                            rs,
                            *final(self),
                            j,
                        )
                }))
            }),
    {
        let mut result = UpdateResult::default();
        let n = self.reservation_stations.len();
        let mut station_results = station_results;
        let ghost results0 = station_results@;

        // Bank the decode result: it consumes the fetched instruction.
        if decode_results.is_some() {
            self.fetched_instruction = None;
        }
        // Bank the fetch result into the now-free slot.
        if let Some(fetch) = fetch_results {
            self.fetched_instruction = Some(fetch.instruction);
            self.next_instr_addr = fetch.next_addr;
        }
        // Queue the decoded instruction.
        if let Some(decoded) = decode_results {
            self.decoded_instructions.push(decoded.instr);
        }
        let ghost state0 = *self;
        proof {
            assert(state0.occupied_count(n as int) == old(self).occupied_count(n as int)) by {
                state0.lemma_occupied_count_same(*old(self), n as int);
            }
            assert forall|i: int|
                0 <= i < n && #[trigger] state0.occupied(i) implies {
                &&& state0.reservation_stations@[i].covers(
                    state0.held(i).imp.sources().insert(PC),
                )
                &&& (state0.held(i).cc != ConditionCode::AL
                    ==> state0.reservation_stations@[i].operand(CPSR) is Some)
            } by {
                assert(old(self).occupied(i));
            }
            assert forall|i: int, j: int|
                0 <= i < n && 0 <= j < n && #[trigger] state0.blocking(i)
                    && #[trigger] state0.blocking(j) implies i == j by {
                assert(old(self).blocking(i) && old(self).blocking(j));
            }
            assert(state0.wf());
            assert(state0.reservation_stations == old(self).reservation_stations);
            assert(state0.registers == old(self).registers);
            assert(state0.pending_registers == old(self).pending_registers);
            assert(state0.should_terminate == old(self).should_terminate);
            assert(state0.issued == old(self).issued);
            assert(state0.retired == old(self).retired);
            assert(state0.decoded_instructions@ == queue_after_decode(
                *old(self),
                decode_results,
            ));
            assert(state0.next_instr_addr == (match fetch_results {
                Some(fr) => fr.next_addr,
                None => old(self).next_instr_addr,
            }));
        }

        // Retire, continue and broadcast, station by station.
        let mut k: usize = 0;
        while k < n
            invariant
                n == state0.reservation_stations@.len(),
                self.step_inv(state0, results0, k as int),
                trackers_inv(result, results0, k as int),
                k <= n,
                station_results@ == results0.subrange(k as int, n as int),
            decreases n - k,
        {
            let res_opt = station_results.remove(0);
            proof {
                assert(station_results@ =~= results0.subrange(k as int + 1, n as int));
            }
            match res_opt {
                Some(res) => {
                    proof {
                        assert(results0[k as int] matches Some(r0) && r0 == res);
                    }
                    self.apply_one_station(Ghost(state0), Ghost(results0), k, res, &mut result);
                },
                None => {
                    proof {
                        let ghost pk = *self;
                        assert(results0[k as int] is None);
                        assert forall|r: int|
                            0 <= r < NUM_REGISTERS implies match #[trigger] self.pending_registers@[r] {
                            Some(st) => {
                                &&& 0 <= st < n
                                &&& state0.occupied(st as int)
                                &&& state0.held(st as int).imp.promised().contains(r as u8)
                                &&& (st < k as int + 1 ==> ((self.occupied(st as int)
                                    && self.held(st as int).imp.promised().contains(r as u8))
                                    || self.should_terminate))
                            },
                            None => true,
                        } by {
                            match self.pending_registers@[r] {
                                Some(st) => {
                                    if st == k && !self.should_terminate {
                                        assert(self.reservation_stations@[st as int].instruction
                                            == state0.reservation_stations@[st as int].instruction);
                                    }
                                },
                                None => {},
                            }
                        }
                        assert forall|i: int, r: u8|
                            0 <= i < n && r < NUM_REGISTERS as u8 implies match
                            #[trigger] self.reservation_stations@[i].operand(r) {
                            Some(Register::Pending(st, _)) => {
                                &&& 0 <= st < n
                                &&& st != i
                                &&& state0.occupied(st as int)
                                &&& state0.held(st as int).imp.promised().contains(r)
                                &&& state0.held(st as int).cc == ConditionCode::AL
                                &&& (st < k as int + 1 ==> ((self.occupied(st as int)
                                    && self.held(st as int).imp.promised().contains(r)
                                    && self.held(st as int).cc == ConditionCode::AL)
                                    || self.should_terminate))
                            },
                            _ => true,
                        } by {
                            match self.reservation_stations@[i].operand(r) {
                                Some(Register::Pending(st, _)) => {
                                    if st == k && !self.should_terminate {
                                        assert(self.reservation_stations@[st as int].instruction
                                            == state0.reservation_stations@[st as int].instruction);
                                    }
                                },
                                _ => {},
                            }
                        }
                        assert(!spec_executed_branch(results0, k as int));
                        if result.branches_taken == 1 {
                            let w = choose|j: int|
                                0 <= j < k && spec_executed_branch(results0, j);
                            assert(spec_executed_branch(results0, w));
                        }
                    }
                },
            }
            k = k + 1;
        }

        proof {
            assert(state0.wf());
            if !self.should_terminate {
                assert forall|r: int|
                    0 <= r < NUM_REGISTERS implies match #[trigger] self.pending_registers@[r] {
                    Some(st) => {
                        &&& 0 <= st < self.reservation_stations@.len()
                        &&& self.occupied(st as int)
                        &&& self.held(st as int).imp.promised().contains(r as u8)
                    },
                    None => true,
                } by {}
                assert(self.scoreboard_ok());
                assert forall|i: int, r: u8|
                    0 <= i < self.reservation_stations@.len() && r
                        < NUM_REGISTERS as u8 implies match
                    #[trigger] self.reservation_stations@[i].operand(r) {
                    Some(Register::Pending(st, _)) => {
                        &&& 0 <= st < self.reservation_stations@.len()
                        &&& st != i
                        &&& self.occupied(st as int)
                        &&& self.held(st as int).imp.promised().contains(r)
                        &&& self.held(st as int).cc == ConditionCode::AL
                    },
                    _ => true,
                } by {}
                assert(self.dependencies_ok());
            }
            assert forall|i: int, j: int|
                0 <= i < self.reservation_stations@.len() && 0 <= j
                    < self.reservation_stations@.len() && #[trigger] self.blocking(i)
                    && #[trigger] self.blocking(j) implies i == j by {
                assert(state0.blocking(i) && state0.blocking(j));
            }
            assert(self.wf());
            if result.pc_changed || result.branches_taken == 1 {
                assert forall|j1: int, j2: int|
                    spec_executed_branch(results0, j1) && spec_executed_branch(
                        results0,
                        j2,
                    ) implies j1 == j2 by {
                    Self::lemma_one_executed_branch(state0, results0, j1, j2);
                }
            }
            // Re-anchor the loop's closed forms on the caller's state: the
            // slot phase touched no register, station or claim.
            assert forall|r: int|
                0 <= r < NUM_REGISTERS implies #[trigger] self.pending_registers@[r]
                == claim_after(*old(self), results0, n as int, r as u8) by {
                assert(self.pending_registers@[r] == claim_after(
                    state0,
                    results0,
                    n as int,
                    r as u8,
                ));
            }
            assert forall|r: u8|
                r < NUM_REGISTERS as u8 implies #[trigger] self.registers.reg(r)
                == regfile_after(*old(self), results0, n as int, r) by {
                assert(self.registers.reg(r) == regfile_after(state0, results0, n as int, r));
                assert(last_writer(results0, r, n as int) == last_writer(
                    results0,
                    r,
                    n as int,
                ));
            }
            assert forall|j: int, r: u8|
                0 <= j < n && r < NUM_REGISTERS as u8 implies
                #[trigger] self.reservation_stations@[j].operand(r) == (if results0[j]
                    matches Some(res2) && res2.next_state is None {
                    Option::<Register>::None
                } else {
                    operand_after(*old(self), results0, n as int, j, r)
                }) by {
                assert(self.reservation_stations@[j].operand(r) == (if 0 <= j < n as int && (
                results0[j] matches Some(res2) && res2.next_state is None) {
                    Option::<Register>::None
                } else {
                    operand_after(state0, results0, n as int, j, r)
                }));
            }
            assert forall|j: int|
                0 <= j < n implies #[trigger] station_settled(
                *old(self),
                results0,
                *self,
                j,
            ) by {
                assert(old(self).held(j) == state0.held(j));
            }
            // The cycle's decisions, read off the settled state.
            assert forall|i: int|
                0 <= i < n implies #[trigger] self.blocking(i) == blocking_after(
                *old(self),
                results0,
                i,
            ) by {
                match results0[i] {
                    Some(res2) => {
                        match res2.next_state {
                            None => {
                                assert(!self.occupied(i));
                            },
                            Some(nx) => {
                                assert(self.held(i).imp == nx && self.held(i).cc == state0.held(
                                    i,
                                ).cc);
                            },
                        }
                    },
                    None => {
                        assert(self.reservation_stations@[i].instruction
                            == state0.reservation_stations@[i].instruction);
                    },
                }
            }
            assert forall|i: int|
                0 <= i < n implies #[trigger] self.occupied(i) == !free_after(
                *old(self),
                results0,
                i,
            ) by {
                match results0[i] {
                    Some(res2) => {
                        match res2.next_state {
                            None => {
                                assert(!self.occupied(i));
                            },
                            Some(nx) => {
                                assert(self.occupied(i));
                            },
                        }
                    },
                    None => {
                        assert(self.reservation_stations@[i].instruction
                            == state0.reservation_stations@[i].instruction);
                    },
                }
            }
        }

        // Admit one decoded instruction if no control hazard is
        // outstanding, a station is free, and the program counter did not
        // change this cycle.
        let ghost settled = *self;
        let mut pending_control_hazards = false;
        let mut h: usize = 0;
        while h < n
            invariant
                *self == settled,
                settled.wf(),
                n == self.reservation_stations@.len(),
                h <= n,
                forall|i: int| 0 <= i < n ==> (#[trigger] self.reservation_stations@[i]).wf(),
                pending_control_hazards <==> (exists|i: int| 0 <= i < h && self.blocking(i)),
            decreases n - h,
        {
            if self.reservation_stations[h].instruction.is_some() {
                let d = self.reservation_stations[h].instruction.as_ref().unwrap();
                let conditional = match d.cc {
                    ConditionCode::AL => false,
                    _ => true,
                };
                if d.imp.hazardous() || conditional {
                    proof {
                        assert(self.blocking(h as int));
                    }
                    pending_control_hazards = true;
                }
            }
            h = h + 1;
        }
        let mut available_station: Option<usize> = None;
        let mut a: usize = 0;
        while a < n
            invariant
                *self == settled,
                settled.wf(),
                n == self.reservation_stations@.len(),
                a <= n,
                pending_control_hazards <==> (exists|i: int| 0 <= i < n && self.blocking(i)),
                available_station matches Some(idx) ==> idx < n && !self.occupied(idx as int)
                    && forall|j: int| 0 <= j < idx ==> self.occupied(j),
                available_station is None ==> forall|j: int| 0 <= j < a ==> self.occupied(j),
            decreases n - a,
        {
            if self.reservation_stations[a].instruction.is_none() && available_station.is_none() {
                available_station = Some(a);
            }
            a = a + 1;
        }

        proof {
            // The issue conditions, read off the settled state, are the
            // admission predicate over the inputs.
            if !pending_control_hazards {
                assert forall|i: int|
                    0 <= i < n implies !blocking_after(*old(self), results0, i) by {
                    assert(!self.blocking(i));
                }
            }
            match available_station {
                Some(idx) => {
                    assert(!free_after(*old(self), results0, idx as int) == self.occupied(
                        idx as int,
                    ));
                    assert forall|j: int|
                        0 <= j < idx as int implies !free_after(*old(self), results0, j) by {
                        assert(self.occupied(j));
                    }
                    Self::lemma_first_free_at(*old(self), results0, 0, idx as int);
                },
                None => {
                    assert forall|j: int|
                        0 <= j < n implies !free_after(*old(self), results0, j) by {
                        assert(self.occupied(j));
                    }
                    Self::lemma_first_free_none(*old(self), results0, 0);
                },
            }
            if pending_control_hazards {
                let w = choose|i: int| 0 <= i < n && self.blocking(i);
                assert(blocking_after(*old(self), results0, w));
            }
            if !result.pc_changed {
                Self::lemma_next_after_no_writer(
                    state0.next_instr_addr,
                    results0,
                    n as int,
                );
            }
        }
        let ghost settled_cond = !pending_control_hazards && !result.pc_changed
            && !self.should_terminate && available_station is Some
            && self.decoded_instructions@.len() > 0;
        let ghost mut did_issue = false;
        if !pending_control_hazards && !result.pc_changed && !self.should_terminate {
            if let Some(station_index) = available_station {
                if self.decoded_instructions.len() > 0 {
                    proof {
                        did_issue = true;
                    }
                    let ghost before_pop = *self;
                    let instr = self.decoded_instructions.remove(0);
                    proof {
                        assert(instr.wf()) by {
                            assert(before_pop.decoded_instructions@[0].wf());
                        }
                        assert forall|q: int|
                            0 <= q < self.decoded_instructions@.len() implies (
                        #[trigger] self.decoded_instructions@[q]).wf() by {
                            assert(self.decoded_instructions@[q]
                                == before_pop.decoded_instructions@[q + 1]);
                        }
                        self.lemma_occupied_count_same(
                            before_pop,
                            self.reservation_stations@.len() as int,
                        );
                        assert forall|i: int, j: int|
                            0 <= i < self.reservation_stations@.len() && 0 <= j
                                < self.reservation_stations@.len() && #[trigger] self.blocking(i)
                                && #[trigger] self.blocking(j) implies i == j by {
                            assert(before_pop.blocking(i) && before_pop.blocking(j));
                        }
                        assert forall|i: int|
                            0 <= i < self.reservation_stations@.len()
                                && #[trigger] self.occupied(i) implies {
                            &&& self.reservation_stations@[i].covers(
                                self.held(i).imp.sources().insert(PC),
                            )
                            &&& (self.held(i).cc != ConditionCode::AL
                                ==> self.reservation_stations@[i].operand(CPSR) is Some)
                        } by {
                            assert(before_pop.occupied(i));
                        }
                        if !self.should_terminate {
                            assert forall|r: int|
                                0 <= r < NUM_REGISTERS implies match
                                #[trigger] self.pending_registers@[r] {
                                Some(st) => {
                                    &&& 0 <= st < self.reservation_stations@.len()
                                    &&& self.occupied(st as int)
                                    &&& self.held(st as int).imp.promised().contains(r as u8)
                                },
                                None => true,
                            } by {
                                assert(before_pop.scoreboard_ok());
                                assert(match before_pop.pending_registers@[r] {
                                    Some(st) => {
                                        &&& 0 <= st < before_pop.reservation_stations@.len()
                                        &&& before_pop.occupied(st as int)
                                        &&& before_pop.held(st as int).imp.promised().contains(
                                            r as u8,
                                        )
                                    },
                                    None => true,
                                });
                            }
                            assert forall|i: int, r: u8|
                                0 <= i < self.reservation_stations@.len() && r
                                    < NUM_REGISTERS as u8 implies match
                                #[trigger] self.reservation_stations@[i].operand(r) {
                                Some(Register::Pending(st, _)) => {
                                    &&& 0 <= st < self.reservation_stations@.len()
                                    &&& st != i
                                    &&& self.occupied(st as int)
                                    &&& self.held(st as int).imp.promised().contains(r)
                                    &&& self.held(st as int).cc == ConditionCode::AL
                                },
                                _ => true,
                            } by {
                                assert(before_pop.dependencies_ok());
                                assert(match before_pop.reservation_stations@[i].operand(r) {
                                    Some(Register::Pending(st, _)) => {
                                        &&& 0 <= st < before_pop.reservation_stations@.len()
                                        &&& st != i
                                        &&& before_pop.occupied(st as int)
                                        &&& before_pop.held(st as int).imp.promised().contains(r)
                                        &&& before_pop.held(st as int).cc == ConditionCode::AL
                                    },
                                    _ => true,
                                });
                            }
                        }
                        assert(self.wf());
                        assert forall|i: int|
                            0 <= i < self.reservation_stations@.len() implies !self.blocking(
                            i,
                        ) by {
                            if self.blocking(i) {
                                assert(settled.blocking(i));
                            }
                        }
                    }
                    proof {
                        assert(instr == queue_after_decode(*old(self), decode_results)[0]);
                        assert(station_index as int == first_free_after(
                            *old(self),
                            results0,
                            0,
                        ).unwrap());
                    }
                    self.issue_into(station_index, instr);
                    proof {
                        let ff = first_free_after(*old(self), results0, 0).unwrap();
                        let q1 = queue_after_decode(*old(self), decode_results);
                        assert(self.decoded_instructions@ == q1.drop_first());
                        assert forall|r: int|
                            0 <= r < NUM_REGISTERS implies
                            #[trigger] self.pending_registers@[r] == (
                        if q1[0].imp.dests().contains(r as u8) {
                            Some(ff as usize)
                        } else {
                            claim_after(*old(self), results0, n as int, r as u8)
                        }) by {
                            assert(before_pop.pending_registers@[r] == claim_after(
                                *old(self),
                                results0,
                                n as int,
                                r as u8,
                            ));
                        }
                        assert forall|r: u8|
                            r < NUM_REGISTERS as u8 implies
                            #[trigger] self.reservation_stations@[ff].operand(r)
                            == issue_snapshot(*old(self), results0, n as int, q1[0], r) by {
                            assert(before_pop.pending_registers@[r as int] == claim_after(
                                *old(self),
                                results0,
                                n as int,
                                r,
                            ));
                            assert(before_pop.registers.reg(r) == regfile_after(
                                *old(self),
                                results0,
                                n as int,
                                r,
                            ));
                        }
                        assert forall|j: int|
                            0 <= j < n && j != ff implies #[trigger] station_settled(
                            *old(self),
                            results0,
                            *self,
                            j,
                        ) by {
                            assert(self.reservation_stations@[j]
                                == before_pop.reservation_stations@[j]);
                            assert(station_settled(*old(self), results0, before_pop, j));
                        }
                    }
                }
            }
        }
        proof {
            if !did_issue {
                assert(!settled_cond);
                assert(!issue_admitted(*old(self), results0, decode_results));
                assert forall|j: int|
                    0 <= j < n implies #[trigger] station_settled(
                    *old(self),
                    results0,
                    *self,
                    j,
                ) by {}
            } else {
                assert(settled_cond);
                assert(issue_admitted(*old(self), results0, decode_results));
            }
        }
        result
    }
}

impl CpuState {
/// What holds of the in-flight machinery while the per-station results of
/// one cycle are being applied, after the first `k` stations' results have
/// been processed. Anchored against `state0`, the consistent snapshot the
/// stations were polled against.
pub open spec fn step_inv(
    self,
    state0: CpuState,
    results0: Seq<Option<StationResults>>,
    k: int,
) -> bool {
    let n = state0.reservation_stations@.len() as int;
    &&& state0.wf()
    &&& self.reservation_stations@.len() == n
    &&& self.registers.wf()
    &&& 1 <= n <= 255
    &&& forall|i: int| 0 <= i < n ==> (#[trigger] self.reservation_stations@[i]).wf()
    &&& forall|i: int| 0 <= i < n ==> (#[trigger] self.reservation_stations@[i]).id == i
    &&& self.pending_registers@.len() == NUM_REGISTERS
    &&& self.decoded_instructions == state0.decoded_instructions
    &&& self.fetched_instruction == state0.fetched_instruction
    &&& self.decoded_instructions@.len() <= DECODED_QUEUE_CAPACITY
    &&& forall|q: int|
        0 <= q < self.decoded_instructions@.len()
            ==> (#[trigger] self.decoded_instructions@[q]).wf()
    &&& (self.fetched_instruction matches Some(f) ==> f.wf())
    &&& self.next_instr_addr & 1 == 1
    &&& results0.len() == n
    &&& forall|j: int|
        0 <= j < n ==> ((#[trigger] results0[j]) matches Some(res) ==> station_result_ok(
            state0,
            j,
            res,
        ))
    &&& forall|j: int|
        k <= j < n ==> (#[trigger] self.reservation_stations@[j]).instruction
            == state0.reservation_stations@[j].instruction
    &&& forall|j: int|
        0 <= j < n && (#[trigger] results0[j]) is None
            ==> self.reservation_stations@[j].instruction
            == state0.reservation_stations@[j].instruction
    &&& forall|j: int| 0 <= j < n && #[trigger] self.blocking(j) ==> state0.blocking(j)
    &&& forall|j: int|
        0 <= j < k ==> ((#[trigger] results0[j]) matches Some(res) ==> match res.next_state {
            None => !self.occupied(j),
            Some(nx) => self.occupied(j) && self.held(j).imp == nx && self.held(j).cc
                == state0.held(j).cc && self.held(j).length == state0.held(j).length
                && self.held(j).address == state0.held(j).address,
        })
    &&& forall|r: int|
        0 <= r < NUM_REGISTERS ==> #[trigger] self.pending_registers@[r] == claim_after(
            state0,
            results0,
            k,
            r as u8,
        )
    &&& forall|r: u8|
        r < NUM_REGISTERS as u8 ==> #[trigger] self.registers.reg(r) == regfile_after(
            state0,
            results0,
            k,
            r,
        )
    &&& self.next_instr_addr == next_after(state0.next_instr_addr, results0, k)
    &&& self.retired@ == state0.retired@ + count_retired(results0, k)
    &&& forall|j: int, r: u8|
        0 <= j < n && r < NUM_REGISTERS as u8
            ==> #[trigger] self.reservation_stations@[j].operand(r) == (if 0 <= j < k && (
        results0[j] matches Some(res) && res.next_state is None) {
            Option::<Register>::None
        } else {
            operand_after(state0, results0, k, j, r)
        })
    &&& forall|r: int|
        0 <= r < NUM_REGISTERS ==> match #[trigger] self.pending_registers@[r] {
            Some(st) => {
                &&& 0 <= st < n
                &&& state0.occupied(st as int)
                &&& state0.held(st as int).imp.promised().contains(r as u8)
                &&& (st < k ==> ((self.occupied(st as int) && self.held(
                    st as int,
                ).imp.promised().contains(r as u8)) || self.should_terminate))
            },
            None => true,
        }
    &&& forall|i: int, r: u8|
        0 <= i < n && r < NUM_REGISTERS as u8 ==> match
            #[trigger] self.reservation_stations@[i].operand(r) {
            Some(Register::Pending(st, _)) => {
                &&& 0 <= st < n
                &&& st != i
                &&& state0.occupied(st as int)
                &&& state0.held(st as int).imp.promised().contains(r)
                &&& state0.held(st as int).cc == ConditionCode::AL
                &&& (st < k ==> ((self.occupied(st as int) && self.held(
                    st as int,
                ).imp.promised().contains(r) && self.held(st as int).cc == ConditionCode::AL)
                    || self.should_terminate))
            },
            _ => true,
        }
    &&& self.coverage_ok()
    &&& self.issued@ == self.retired@ + self.occupied_count(n)
    &&& self.issued@ == state0.issued@
    &&& self.retired@ >= state0.retired@
    &&& (self.should_terminate <==> (state0.should_terminate || (exists|j: int|
        0 <= j < k && terminating_result(results0, j))))
}
}

/// What holds of the per-cycle counters after the first `k` stations'
/// results have been counted.
pub open spec fn trackers_inv(
    result: UpdateResult,
    results0: Seq<Option<StationResults>>,
    k: int,
) -> bool {
    &&& result.branches_taken <= 1
    &&& ((result.branches_taken == 1) <==> (exists|j: int|
        0 <= j < k && spec_executed_branch(results0, j)))
    &&& (result.pc_changed ==> result.branches_taken == 1)
    &&& (result.pc_changed <==> (exists|j: int| 0 <= j < k && station_wrote(results0, j, PC)))
    &&& result.instructions_executed == count_executed(results0, k)
    &&& result.instructions_skipped == count_skipped(results0, k)
    &&& result.branches_taken == count_taken(results0, k)
    &&& result.branches_not_taken == count_not_taken(results0, k)
    &&& result.instructions_executed <= k
    &&& result.instructions_skipped <= k
    &&& result.branches_not_taken <= k
}

/// An operand snapshot entry after station `k` broadcasts `ch_opt`: a
/// marker pending on `k` resolves to the first value the broadcast
/// carries for its register; everything else is untouched.
pub open spec fn bcast_op(op: Option<Register>, k: int, ch_opt: Option<Seq<(u8, u32)>>) -> Option<
    Register,
> {
    match op {
        Some(Register::Pending(s, r2)) => if s == k && ch_opt is Some {
            Some(
                Register::Ready(
                    crate::cpu_state::station::change_value(ch_opt.unwrap(), r2),
                ),
            )
        } else {
            op
        },
        _ => op,
    }
}

/// How processing one station's result transforms the machine, stated
/// against `pk`, the state when that station's turn began: the commit of
/// its changes into the register file, scoreboard, fetch address and
/// halt flag, the broadcast into every snapshot, the retirement or
/// continuation of the station itself, and the counter updates.
pub open spec fn station_delta(
    pk: CpuState,
    sn: CpuState,
    res: StationResults,
    k: int,
    r0: UpdateResult,
    rr: UpdateResult,
) -> bool {
    let n = pk.reservation_stations@.len() as int;
    let ch_opt = match res.register_changes {
        Some(ch) => Some(ch@),
        None => None::<Seq<(u8, u32)>>,
    };
    &&& sn.reservation_stations@.len() == n
    &&& forall|i: int| 0 <= i < n ==> (#[trigger] sn.reservation_stations@[i]).wf()
    &&& forall|i: int| 0 <= i < n ==> (#[trigger] sn.reservation_stations@[i]).id == i
    &&& sn.registers.wf()
    &&& sn.pending_registers@.len() == NUM_REGISTERS
    &&& forall|i: int|
        0 <= i < n && i != k ==> (#[trigger] sn.reservation_stations@[i]).instruction
            == pk.reservation_stations@[i].instruction
    &&& (match res.next_state {
        None => !sn.occupied(k) && forall|r: u8|
            r < NUM_REGISTERS as u8 ==> (#[trigger] sn.reservation_stations@[k].operand(
                r,
            )) is None,
        Some(nx) => sn.occupied(k) && sn.held(k).imp == nx && sn.held(k).cc == pk.held(k).cc
            && sn.held(k).length == pk.held(k).length && sn.held(k).address == pk.held(
            k,
        ).address,
    })
    &&& forall|i: int, r: u8|
        0 <= i < n && r < NUM_REGISTERS as u8 && !(i == k && res.next_state is None)
            ==> (#[trigger] sn.reservation_stations@[i].operand(r)) == bcast_op(
            pk.reservation_stations@[i].operand(r),
            k,
            ch_opt,
        )
    &&& forall|r: u8|
        r < NUM_REGISTERS as u8 ==> #[trigger] sn.registers.reg(r) == (match ch_opt {
            Some(ch) => if change_regs(ch).contains(r) {
                last_change_value(ch, r)
            } else {
                pk.registers.reg(r)
            },
            None => pk.registers.reg(r),
        })
    &&& forall|r: int|
        0 <= r < NUM_REGISTERS ==> #[trigger] sn.pending_registers@[r] == (
        if pk.pending_registers@[r] == Some(k as usize) && ((ch_opt matches Some(ch)
            && change_regs(ch).contains(r as u8)) || res.did_skip_instruction) {
            Option::<usize>::None
        } else {
            pk.pending_registers@[r]
        })
    &&& sn.should_terminate == (pk.should_terminate || res.should_terminate || (
    ch_opt matches Some(ch) && has_even_pc(ch)))
    &&& sn.next_instr_addr == (match ch_opt {
        Some(ch) => pc_target(ch, pk.next_instr_addr),
        None => pk.next_instr_addr,
    })
    &&& sn.next_instr_addr & 1 == 1
    &&& sn.decoded_instructions == pk.decoded_instructions
    &&& sn.fetched_instruction == pk.fetched_instruction
    &&& sn.issued == pk.issued
    &&& sn.retired@ == pk.retired@ + (if res.next_state is None {
        1int
    } else {
        0int
    })
    &&& sn.issued@ == sn.retired@ + sn.occupied_count(n)
    &&& rr.pc_changed == (r0.pc_changed || (ch_opt matches Some(ch) && change_regs(ch).contains(
        PC,
    )))
    &&& rr.instructions_executed as int == r0.instructions_executed + (
    if res.did_execute_instruction {
        1int
    } else {
        0int
    })
    &&& rr.instructions_skipped as int == r0.instructions_skipped + (
    if res.did_skip_instruction {
        1int
    } else {
        0int
    })
    &&& rr.branches_taken as int == (if res.did_execute_instruction && res.instruction_is_branch
        && r0.branches_taken == 0 {
        1int
    } else {
        r0.branches_taken as int
    })
    &&& rr.branches_not_taken as int == r0.branches_not_taken + (
    if res.did_skip_instruction && res.instruction_is_branch {
        1int
    } else {
        0int
    })
}

impl CpuState {
    /// The station-shaped parts of the cycle invariant survive one
    /// station's processing: retirement, continuation, hazard monotony,
    /// coverage, and the soundness of surviving claims and pendings.
    #[verifier::rlimit(100)]
    #[verifier::spinoff_prover]
    proof fn lemma_step_stations(
        state0: CpuState,
        results0: Seq<Option<StationResults>>,
        k: usize,
        res: StationResults,
        pk: CpuState,
        sn: CpuState,
        r0: UpdateResult,
        rr: UpdateResult,
    )
        requires
            pk.step_inv(state0, results0, k as int),
            (k as int) < results0.len(),
            results0[k as int] == Some(res),
            station_result_ok(state0, k as int, res),
            station_delta(pk, sn, res, k as int, r0, rr),
        ensures
            forall|j: int|
                0 <= j < state0.reservation_stations@.len() && #[trigger] sn.blocking(j)
                    ==> state0.blocking(j),
            forall|j: int|
                0 <= j < k as int + 1 ==> ((#[trigger] results0[j]) matches Some(res2)
                    ==> match res2.next_state {
                    None => !sn.occupied(j),
                    Some(nx) => sn.occupied(j) && sn.held(j).imp == nx && sn.held(j).cc
                        == state0.held(j).cc && sn.held(j).length == state0.held(j).length
                        && sn.held(j).address == state0.held(j).address,
                }),
            forall|j: int|
                k as int + 1 <= j < state0.reservation_stations@.len() ==> (
                #[trigger] sn.reservation_stations@[j]).instruction
                    == state0.reservation_stations@[j].instruction,
            forall|j: int|
                0 <= j < state0.reservation_stations@.len() && (#[trigger] results0[j]) is None
                    ==> sn.reservation_stations@[j].instruction
                    == state0.reservation_stations@[j].instruction,
            forall|r: int|
                0 <= r < NUM_REGISTERS ==> match #[trigger] sn.pending_registers@[r] {
                    Some(st) => {
                        &&& 0 <= st < state0.reservation_stations@.len()
                        &&& state0.occupied(st as int)
                        &&& state0.held(st as int).imp.promised().contains(r as u8)
                        &&& (st < k as int + 1 ==> ((sn.occupied(st as int) && sn.held(
                            st as int,
                        ).imp.promised().contains(r as u8)) || sn.should_terminate))
                    },
                    None => true,
                },
            forall|i: int, r: u8|
                0 <= i < state0.reservation_stations@.len() && r < NUM_REGISTERS as u8
                    ==> match #[trigger] sn.reservation_stations@[i].operand(r) {
                    Some(Register::Pending(st, _)) => {
                        &&& 0 <= st < state0.reservation_stations@.len()
                        &&& st != i
                        &&& state0.occupied(st as int)
                        &&& state0.held(st as int).imp.promised().contains(r)
                        &&& state0.held(st as int).cc == ConditionCode::AL
                        &&& (st < k as int + 1 ==> ((sn.occupied(st as int) && sn.held(
                            st as int,
                        ).imp.promised().contains(r) && sn.held(st as int).cc
                            == ConditionCode::AL) || sn.should_terminate))
                    },
                    _ => true,
                },
            sn.coverage_ok(),
    {
        let n = state0.reservation_stations@.len() as int;
        let kk = k as int;
        let held_k = state0.held(kk);
        assert(pk.held(kk) == state0.held(kk));
        assert forall|j: int|
            0 <= j < n && #[trigger] sn.blocking(j) implies state0.blocking(j) by {
            if j != kk {
                assert(sn.reservation_stations@[j].instruction
                    == pk.reservation_stations@[j].instruction);
                assert(pk.blocking(j));
            } else {
                assert(res.next_state matches Some(nx) && held_k.imp.continuation_ok(nx));
                assert(pk.blocking(kk));
            }
        }
        assert forall|j: int|
            0 <= j < kk + 1 implies ((#[trigger] results0[j]) matches Some(res2)
                ==> match res2.next_state {
            None => !sn.occupied(j),
            Some(nx) => sn.occupied(j) && sn.held(j).imp == nx && sn.held(j).cc == state0.held(
                j,
            ).cc && sn.held(j).length == state0.held(j).length && sn.held(j).address
                == state0.held(j).address,
        }) by {
            if j < kk {
                assert(sn.reservation_stations@[j].instruction
                    == pk.reservation_stations@[j].instruction);
            }
        }
        assert forall|j: int|
            kk + 1 <= j < n implies (#[trigger] sn.reservation_stations@[j]).instruction
            == state0.reservation_stations@[j].instruction by {
            assert(sn.reservation_stations@[j].instruction
                == pk.reservation_stations@[j].instruction);
        }
        assert forall|j: int|
            0 <= j < n && (#[trigger] results0[j]) is None implies
            sn.reservation_stations@[j].instruction
                == state0.reservation_stations@[j].instruction by {
            assert(j != kk);
            assert(sn.reservation_stations@[j].instruction
                == pk.reservation_stations@[j].instruction);
        }
        assert forall|r: int|
            0 <= r < NUM_REGISTERS implies match #[trigger] sn.pending_registers@[r] {
            Some(st) => {
                &&& 0 <= st < n
                &&& state0.occupied(st as int)
                &&& state0.held(st as int).imp.promised().contains(r as u8)
                &&& (st < kk + 1 ==> ((sn.occupied(st as int) && sn.held(
                    st as int,
                ).imp.promised().contains(r as u8)) || sn.should_terminate))
            },
            None => true,
        } by {
            match sn.pending_registers@[r] {
                Some(st) => {
                    assert(pk.pending_registers@[r] == Some(st));
                    if st < kk + 1 && !sn.should_terminate {
                        if st == k {
                            assert(res.register_changes is None);
                            assert(!res.did_skip_instruction);
                            assert(!res.should_terminate);
                            assert(res.next_state matches Some(nx)
                                && held_k.imp.continuation_ok(nx));
                            assert(sn.occupied(kk));
                            assert(sn.held(kk).imp.promised() == held_k.imp.promised());
                        } else if st < k {
                            assert((pk.occupied(st as int) && pk.held(
                                st as int,
                            ).imp.promised().contains(r as u8)) || pk.should_terminate);
                            assert(sn.reservation_stations@[st as int].instruction
                                == pk.reservation_stations@[st as int].instruction);
                        }
                    }
                },
                None => {},
            }
        }
        assert forall|i: int, r: u8|
            0 <= i < n && r < NUM_REGISTERS as u8 implies match
            #[trigger] sn.reservation_stations@[i].operand(r) {
            Some(Register::Pending(st, _)) => {
                &&& 0 <= st < n
                &&& st != i
                &&& state0.occupied(st as int)
                &&& state0.held(st as int).imp.promised().contains(r)
                &&& state0.held(st as int).cc == ConditionCode::AL
                &&& (st < kk + 1 ==> ((sn.occupied(st as int) && sn.held(
                    st as int,
                ).imp.promised().contains(r) && sn.held(st as int).cc == ConditionCode::AL)
                    || sn.should_terminate))
            },
            _ => true,
        } by {
            match sn.reservation_stations@[i].operand(r) {
                Some(Register::Pending(st, _)) => {
                    // A pending entry survived the broadcast, so it was
                    // already pending in `pk` on the same station.
                    if !(i == kk && res.next_state is None) {
                        assert(sn.reservation_stations@[i].operand(r) == bcast_op(
                            pk.reservation_stations@[i].operand(r),
                            kk,
                            match res.register_changes {
                                Some(ch) => Some(ch@),
                                None => None::<Seq<(u8, u32)>>,
                            },
                        ));
                    }
                    assert(pk.reservation_stations@[i].operand(r) == Some(
                        Register::Pending(st, r),
                    )) by {
                        match pk.reservation_stations@[i].operand(r) {
                            Some(Register::Pending(s2, r2)) => {
                                assert(pk.reservation_stations@[i].wf());
                            },
                            _ => {},
                        }
                    }
                    if st < kk + 1 && !sn.should_terminate {
                        if st == k {
                            if res.register_changes is Some {
                                assert(false);
                            } else if res.did_skip_instruction {
                                assert(state0.held(kk).cc == ConditionCode::AL);
                                assert(false);
                            } else if res.should_terminate {
                                assert(false);
                            } else {
                                assert(res.next_state matches Some(nx)
                                    && held_k.imp.continuation_ok(nx));
                                assert(sn.occupied(kk));
                                assert(sn.held(kk).imp.promised() == held_k.imp.promised());
                                assert(sn.held(kk).cc == held_k.cc);
                            }
                        } else if st < k {
                            assert((pk.occupied(st as int) && pk.held(
                                st as int,
                            ).imp.promised().contains(r) && pk.held(st as int).cc
                                == ConditionCode::AL) || pk.should_terminate);
                            assert(sn.reservation_stations@[st as int].instruction
                                == pk.reservation_stations@[st as int].instruction);
                        }
                    }
                },
                _ => {},
            }
        }
        assert forall|i: int|
            0 <= i < n && #[trigger] sn.occupied(i) implies {
            &&& sn.reservation_stations@[i].covers(sn.held(i).imp.sources().insert(PC))
            &&& (sn.held(i).cc != ConditionCode::AL ==> sn.reservation_stations@[i].operand(
                CPSR,
            ) is Some)
        } by {
            let ghost ch_opt = match res.register_changes {
                Some(ch) => Some(ch@),
                None => None::<Seq<(u8, u32)>>,
            };
            if i == kk {
                assert(res.next_state matches Some(nx) && held_k.imp.continuation_ok(nx));
                assert(sn.held(i).cc == held_k.cc);
                assert forall|r: u8|
                    sn.held(i).imp.sources().insert(PC).contains(r) implies (
                #[trigger] sn.reservation_stations@[i].operand(r)) is Some by {
                    assert(held_k.imp.sources().insert(PC).contains(r));
                    assert(pk.reservation_stations@[i].covers(
                        held_k.imp.sources().insert(PC),
                    ));
                    assert(pk.reservation_stations@[i].operand(r) is Some);
                    assert(sn.reservation_stations@[i].operand(r) == bcast_op(
                        pk.reservation_stations@[i].operand(r),
                        kk,
                        ch_opt,
                    ));
                }
                if sn.held(i).cc != ConditionCode::AL {
                    assert(pk.reservation_stations@[i].operand(CPSR) is Some);
                    assert(sn.reservation_stations@[i].operand(CPSR) == bcast_op(
                        pk.reservation_stations@[i].operand(CPSR),
                        kk,
                        ch_opt,
                    ));
                }
            } else {
                assert(sn.held(i) == pk.held(i));
                assert(pk.occupied(i));
                assert forall|r: u8|
                    sn.held(i).imp.sources().insert(PC).contains(r) implies (
                #[trigger] sn.reservation_stations@[i].operand(r)) is Some by {
                    assert(pk.reservation_stations@[i].operand(r) is Some);
                    assert(sn.reservation_stations@[i].operand(r) == bcast_op(
                        pk.reservation_stations@[i].operand(r),
                        kk,
                        ch_opt,
                    ));
                }
                if sn.held(i).cc != ConditionCode::AL {
                    assert(pk.reservation_stations@[i].operand(CPSR) is Some);
                    assert(sn.reservation_stations@[i].operand(CPSR) == bcast_op(
                        pk.reservation_stations@[i].operand(CPSR),
                        kk,
                        ch_opt,
                    ));
                }
            }
        }
    }

    /// The value-shaped parts of the cycle invariant survive one
    /// station's processing: the register file, scoreboard, operand
    /// snapshots, fetch address, halt flag and retirement count follow
    /// their closed forms one station further.
    #[verifier::rlimit(100)]
    #[verifier::spinoff_prover]
    proof fn lemma_step_values(
        state0: CpuState,
        results0: Seq<Option<StationResults>>,
        k: usize,
        res: StationResults,
        pk: CpuState,
        sn: CpuState,
        r0: UpdateResult,
        rr: UpdateResult,
    )
        requires
            pk.step_inv(state0, results0, k as int),
            (k as int) < results0.len(),
            results0[k as int] == Some(res),
            station_result_ok(state0, k as int, res),
            station_delta(pk, sn, res, k as int, r0, rr),
        ensures
            forall|r: int|
                0 <= r < NUM_REGISTERS ==> #[trigger] sn.pending_registers@[r] == claim_after(
                    state0,
                    results0,
                    k as int + 1,
                    r as u8,
                ),
            forall|r: u8|
                r < NUM_REGISTERS as u8 ==> #[trigger] sn.registers.reg(r) == regfile_after(
                    state0,
                    results0,
                    k as int + 1,
                    r,
                ),
            sn.next_instr_addr == next_after(state0.next_instr_addr, results0, k as int + 1),
            sn.should_terminate <==> (state0.should_terminate || exists|j: int|
                0 <= j < k as int + 1 && terminating_result(results0, j)),
            sn.retired@ == state0.retired@ + count_retired(results0, k as int + 1),
            forall|j: int, r: u8|
                0 <= j < state0.reservation_stations@.len() && r < NUM_REGISTERS as u8
                    ==> #[trigger] sn.reservation_stations@[j].operand(r) == (if 0 <= j < k as int
                    + 1 && (results0[j] matches Some(res2) && res2.next_state is None) {
                    Option::<Register>::None
                } else {
                    operand_after(state0, results0, k as int + 1, j, r)
                }),
    {
        let n = state0.reservation_stations@.len() as int;
        let kk = k as int;
        let held_k = state0.held(kk);
        let ch_opt = match res.register_changes {
            Some(ch) => Some(ch@),
            None => None::<Seq<(u8, u32)>>,
        };
        assert(pk.held(kk) == state0.held(kk));
        // Scoreboard.
        assert forall|r: int|
            0 <= r < NUM_REGISTERS implies #[trigger] sn.pending_registers@[r] == claim_after(
            state0,
            results0,
            kk + 1,
            r as u8,
        ) by {
            assert(pk.pending_registers@[r] == claim_after(state0, results0, kk, r as u8));
            match state0.pending_registers@[r] {
                Some(st) => {
                    if st != k {
                        assert(claim_after(state0, results0, kk + 1, r as u8) == claim_after(
                            state0,
                            results0,
                            kk,
                            r as u8,
                        ));
                    }
                },
                None => {},
            }
        }
        // Register file.
        assert forall|r: u8|
            r < NUM_REGISTERS as u8 implies #[trigger] sn.registers.reg(r) == regfile_after(
            state0,
            results0,
            kk + 1,
            r,
        ) by {
            if station_wrote(results0, kk, r) {
                assert(last_writer(results0, r, kk + 1) == Some(kk));
            } else {
                assert(last_writer(results0, r, kk + 1) == last_writer(results0, r, kk));
                assert(sn.registers.reg(r) == pk.registers.reg(r));
            }
        }
        // Fetch address.
        assert(sn.next_instr_addr == next_after(state0.next_instr_addr, results0, kk + 1)) by {
            match completed_changes(results0, kk) {
                Some(ch) => {
                    assert(sn.next_instr_addr == pc_target(ch, pk.next_instr_addr));
                },
                None => {
                    assert(sn.next_instr_addr == pk.next_instr_addr);
                },
            }
        }
        // Halt flag.
        assert((sn.should_terminate <==> (state0.should_terminate || exists|j: int|
            0 <= j < kk + 1 && terminating_result(results0, j)))) by {
            if sn.should_terminate {
                if !pk.should_terminate && !res.should_terminate {
                    match completed_changes(results0, kk) {
                        Some(ch) => {
                            lemma_has_even_pc(ch);
                        },
                        None => {},
                    }
                    assert(wrote_even_pc(results0, kk));
                    assert(terminating_result(results0, kk));
                } else if pk.should_terminate {
                    assert(state0.should_terminate || exists|j: int|
                        0 <= j < kk && terminating_result(results0, j));
                } else {
                    assert(terminating_result(results0, kk));
                }
            }
            if state0.should_terminate {
                assert(sn.should_terminate);
            }
            if exists|j: int| 0 <= j < kk + 1 && terminating_result(results0, j) {
                let j = choose|j: int| 0 <= j < kk + 1 && terminating_result(results0, j);
                if j < kk {
                    assert(pk.should_terminate);
                } else {
                    assert(terminating_result(results0, kk));
                    if res.should_terminate {
                        assert(sn.should_terminate);
                    } else {
                        assert(wrote_even_pc(results0, kk));
                        let ch = completed_changes(results0, kk).unwrap();
                        lemma_has_even_pc(ch);
                        assert(has_even_pc(ch));
                        assert(sn.should_terminate);
                    }
                }
            }
        }
        // Operand snapshots.
        assert forall|j: int, r: u8|
            0 <= j < n && r < NUM_REGISTERS as u8 implies
            #[trigger] sn.reservation_stations@[j].operand(r) == (if 0 <= j < kk + 1 && (
        results0[j] matches Some(res2) && res2.next_state is None) {
            Option::<Register>::None
        } else {
            operand_after(state0, results0, kk + 1, j, r)
        }) by {
            let op0 = state0.reservation_stations@[j].operand(r);
            if j == kk && res.next_state is None {
            } else {
                assert(sn.reservation_stations@[j].operand(r) == bcast_op(
                    pk.reservation_stations@[j].operand(r),
                    kk,
                    ch_opt,
                ));
                let was_cleared = 0 <= j < kk && (results0[j] matches Some(res2)
                    && res2.next_state is None);
                if was_cleared {
                    assert(pk.reservation_stations@[j].operand(r) is None);
                } else {
                    assert(pk.reservation_stations@[j].operand(r) == operand_after(
                        state0,
                        results0,
                        kk,
                        j,
                        r,
                    ));
                    match op0 {
                        Some(Register::Pending(src, r2)) => {
                            assert(r2 == r) by {
                                assert(state0.reservation_stations@[j].wf());
                            }
                            if src == k {
                                assert(completed_changes(results0, kk) == ch_opt);
                            } else {
                                assert(operand_after(state0, results0, kk + 1, j, r)
                                    == operand_after(state0, results0, kk, j, r));
                            }
                        },
                        _ => {
                            assert(operand_after(state0, results0, kk + 1, j, r) == op0);
                            assert(operand_after(state0, results0, kk, j, r) == op0);
                        },
                    }
                }
            }
        }
    }

    /// The per-cycle counters follow their counts one station further.
    #[verifier::rlimit(100)]
    #[verifier::spinoff_prover]
    proof fn lemma_step_trackers(
        state0: CpuState,
        results0: Seq<Option<StationResults>>,
        k: usize,
        res: StationResults,
        pk: CpuState,
        sn: CpuState,
        r0: UpdateResult,
        rr: UpdateResult,
    )
        requires
            pk.step_inv(state0, results0, k as int),
            (k as int) < results0.len(),
            results0[k as int] == Some(res),
            station_result_ok(state0, k as int, res),
            station_delta(pk, sn, res, k as int, r0, rr),
            trackers_inv(r0, results0, k as int),
        ensures
            trackers_inv(rr, results0, k as int + 1),
    {
        let kk = k as int;
        let held_k = state0.held(kk);
        assert(pk.held(kk) == state0.held(kk));
        if res.did_execute_instruction && res.instruction_is_branch {
            assert(spec_executed_branch(results0, kk));
        }
        assert(results0[kk] is Some);
        assert(count_executed(results0, kk + 1) == count_executed(results0, kk) + (
        if res.did_execute_instruction {
            1int
        } else {
            0int
        }));
        assert(count_skipped(results0, kk + 1) == count_skipped(results0, kk) + (
        if res.did_skip_instruction {
            1int
        } else {
            0int
        }));
        assert(count_taken(results0, kk + 1) == count_taken(results0, kk) + (
        if spec_executed_branch(results0, kk) {
            1int
        } else {
            0int
        }));
        assert(count_not_taken(results0, kk + 1) == count_not_taken(results0, kk) + (
        if res.did_skip_instruction && res.instruction_is_branch {
            1int
        } else {
            0int
        }));
        // A second taken branch in one cycle would contradict the hazard
        // rule, so the guarded set matches the count.
        if res.did_execute_instruction && res.instruction_is_branch && r0.branches_taken != 0 {
            let w = choose|j: int| 0 <= j < kk && spec_executed_branch(results0, j);
            Self::lemma_one_executed_branch(state0, results0, w, kk);
            assert(false);
        }
        // A committed program counter is a taken branch and conversely.
        if station_wrote(results0, kk, PC) {
            held_k.imp.lemma_promised_pc_hazardous();
            assert(spec_executed_branch(results0, kk));
        }
        if rr.pc_changed && !r0.pc_changed {
            assert(ch_opt_of(res) matches Some(ch) && change_regs(ch).contains(PC));
            assert(station_wrote(results0, kk, PC));
        }
        assert(trackers_inv(rr, results0, kk + 1));
    }

    /// One station's processing preserves the whole cycle invariant.
    #[verifier::rlimit(100)]
    #[verifier::spinoff_prover]
    proof fn lemma_step_exact(
        state0: CpuState,
        results0: Seq<Option<StationResults>>,
        k: usize,
        res: StationResults,
        pk: CpuState,
        sn: CpuState,
        r0: UpdateResult,
        rr: UpdateResult,
    )
        requires
            pk.step_inv(state0, results0, k as int),
            (k as int) < results0.len(),
            results0[k as int] == Some(res),
            station_result_ok(state0, k as int, res),
            station_delta(pk, sn, res, k as int, r0, rr),
            trackers_inv(r0, results0, k as int),
        ensures
            sn.step_inv(state0, results0, k as int + 1),
            trackers_inv(rr, results0, k as int + 1),
    {
        Self::lemma_step_stations(state0, results0, k, res, pk, sn, r0, rr);
        Self::lemma_step_values(state0, results0, k, res, pk, sn, r0, rr);
        Self::lemma_step_trackers(state0, results0, k, res, pk, sn, r0, rr);
        assert(count_retired(results0, k as int + 1) == count_retired(results0, k as int) + (
        if res.next_state is None {
            1int
        } else {
            0int
        }));
        assert(sn.step_inv(state0, results0, k as int + 1));
    }
}

/// The broadcast payload of one result, as the delta spec views it.
pub open spec fn ch_opt_of(res: StationResults) -> Option<Seq<(u8, u32)>> {
    match res.register_changes {
        Some(ch) => Some(ch@),
        None => None::<Seq<(u8, u32)>>,
    }
}

impl CpuState {
    /// Apply one station's execute result: commit and broadcast its
    /// register changes, count it in the statistics, drop the scoreboard
    /// claims of a skipped instruction, and retire the station or install
    /// its continuation.
    #[verifier::rlimit(100)]
    #[verifier::spinoff_prover]
    fn apply_one_station(
        &mut self,
        Ghost(state0): Ghost<CpuState>,
        Ghost(results0): Ghost<Seq<Option<StationResults>>>,
        k: usize,
        res: StationResults,
        result: &mut UpdateResult,
    )
        requires
            old(self).step_inv(state0, results0, k as int),
            k < results0.len(),
            results0[k as int] == Some(res),
            trackers_inv(*old(result), results0, k as int),
        ensures
            final(self).step_inv(state0, results0, k as int + 1),
            trackers_inv(*final(result), results0, k as int + 1),
    {
        let ghost pk = *old(self);
        let ghost r0 = *old(result);
        let ghost gres = res;
        let n = self.reservation_stations.len();
        let mut result = result;
        proof {
            assert(station_result_ok(state0, k as int, res));
            assert(pk.held(k as int) == state0.held(k as int));
        }
        let ghost held_k = state0.held(k as int);
        // Write back a completed instruction's results.
        if let Some(register_changes) = &res.register_changes {
            let m = register_changes.len();
            let mut c: usize = 0;
            while c < m
                invariant
                    n == self.reservation_stations@.len(),
                    m == register_changes@.len(),
                    c <= m,
                    k < n,
                    self.registers.wf(),
                    crate::instructions::changes_wf(register_changes@),
                    change_regs(register_changes@) == held_k.imp.promised(),
                    held_k.imp.wf(),
                    held_k.imp.dests().contains(PC) ==> spec_executed_branch(
                        results0,
                        k as int,
                    ),
                    results0.len() == n,
                    res.instruction_is_branch == held_k.imp.dests().contains(PC),
                    res.did_execute_instruction,
                    self.reservation_stations == pk.reservation_stations,
                    self.pending_registers@.len() == NUM_REGISTERS,
                    forall|r: int|
                        0 <= r < NUM_REGISTERS ==> #[trigger] self.pending_registers@[r] == (
                        if pk.pending_registers@[r] == Some(k) && change_regs(
                            register_changes@.subrange(0, c as int),
                        ).contains(r as u8) {
                            Option::<usize>::None
                        } else {
                            pk.pending_registers@[r]
                        }),
                    forall|r: u8|
                        r < NUM_REGISTERS as u8 ==> #[trigger] self.registers.reg(r) == (
                        if change_regs(register_changes@.subrange(0, c as int)).contains(r) {
                            last_change_value(register_changes@.subrange(0, c as int), r)
                        } else {
                            pk.registers.reg(r)
                        }),
                    self.should_terminate == (pk.should_terminate || has_even_pc(
                        register_changes@.subrange(0, c as int),
                    )),
                    self.next_instr_addr == pc_target(
                        register_changes@.subrange(0, c as int),
                        pk.next_instr_addr,
                    ),
                    self.next_instr_addr & 1 == 1,
                    result.pc_changed == (r0.pc_changed || change_regs(
                        register_changes@.subrange(0, c as int),
                    ).contains(PC)),
                    result.instructions_executed == r0.instructions_executed,
                    result.instructions_skipped == r0.instructions_skipped,
                    result.branches_taken == r0.branches_taken,
                    result.branches_not_taken == r0.branches_not_taken,
                    self.decoded_instructions == pk.decoded_instructions,
                    self.fetched_instruction == pk.fetched_instruction,
                    self.issued == pk.issued,
                    self.retired == pk.retired,
                    self.exit_code == pk.exit_code,
                decreases m - c,
            {
                let ghost prefix = register_changes@.subrange(0, c as int);
                let (reg_id, value) = register_changes[c];
                proof {
                    assert(register_changes@[c as int].0 < NUM_REGISTERS as u8);
                    assert(register_changes@.subrange(0, c as int + 1) =~= prefix.push(
                        register_changes@[c as int],
                    ));
                    assert(prefix.push(register_changes@[c as int]).drop_last() =~= prefix);
                    lemma_change_regs_push(prefix, register_changes@[c as int]);
                }
                self.registers.write_by_id(reg_id, value);
                if reg_id == PC {
                    proof {
                        assert(change_regs(register_changes@).contains(PC)) by {
                            assert(register_changes@[c as int].0 == PC);
                        }
                        held_k.imp.lemma_promised_pc_hazardous();
                    }
                    if value & 1 == 1 {
                        self.next_instr_addr = value;
                    } else {
                        // A committed program-counter value without the
                        // Thumb bit cannot be fetched from.
                        self.fault = Some(Fault::UnalignedPc(value));
                        self.should_terminate = true;
                    }
                    result.pc_changed = true;
                }
                // Clear the scoreboard claim only if it still points at
                // the completing station: a later issue may have
                // overwritten it.
                let claimant = self.pending_registers[reg_id as usize];
                if claimant == Some(k) {
                    self.pending_registers[reg_id as usize] = None;
                }
                proof {
                    assert(register_changes@[c as int] == (reg_id, value));
                    assert(value & 1 == 0 || value & 1 == 1) by (bit_vector);
                    let prefix1 = register_changes@.subrange(0, c as int + 1);
                    assert(prefix1 =~= prefix.push(register_changes@[c as int]));
                    assert(prefix1.last() == register_changes@[c as int]);
                    assert(prefix1.drop_last() =~= prefix);
                    assert(has_even_pc(prefix1) == ((reg_id == PC && value & 1 == 0)
                        || has_even_pc(prefix)));
                    assert(pc_target(prefix1, pk.next_instr_addr) == (if reg_id == PC && value
                        & 1 == 1 {
                        value
                    } else {
                        pc_target(prefix, pk.next_instr_addr)
                    }));
                    assert(self.should_terminate == (pk.should_terminate || has_even_pc(
                        prefix1,
                    )));
                }
                c = c + 1;
            }
            proof {
                assert(register_changes@.subrange(0, m as int) =~= register_changes@);
                // Every scoreboard claim on this station is gone: each
                // claimed register was promised, so it stood somewhere in
                // the broadcast change list.
                assert forall|r: int|
                    0 <= r < NUM_REGISTERS implies #[trigger] self.pending_registers@[r]
                    != Some(k) by {
                    if self.pending_registers@[r] == Some(k) {
                        assert(pk.pending_registers@[r] == Some(k));
                        assert(claim_after(state0, results0, k as int, r as u8) == Some(k));
                        assert(state0.pending_registers@[r] == Some(k));
                        assert(state0.held(k as int).imp.promised().contains(r as u8));
                        assert(change_regs(register_changes@).contains(r as u8));
                    }
                }
            }
            // Forward the results to every waiting station.
            let ghost mid = *self;
            let mut b: usize = 0;
            while b < n
                invariant
                    n == self.reservation_stations@.len(),
                    b <= n,
                    k < n,
                    crate::instructions::changes_wf(register_changes@),
                    change_regs(register_changes@) == held_k.imp.promised(),
                    held_k == state0.held(k as int),
                    forall|i: int|
                        0 <= i < n ==> (#[trigger] self.reservation_stations@[i]).wf(),
                    forall|i: int|
                        0 <= i < n ==> (#[trigger] self.reservation_stations@[i]).id == i,
                    forall|i: int|
                        0 <= i < n
                            ==> (#[trigger] self.reservation_stations@[i]).instruction
                            == pk.reservation_stations@[i].instruction,
                    forall|i: int, r: u8|
                        b <= i < n && r < NUM_REGISTERS as u8
                            ==> (#[trigger] self.reservation_stations@[i].operand(r))
                            == pk.reservation_stations@[i].operand(r),
                    forall|i: int, r: u8|
                        0 <= i < b && r < NUM_REGISTERS as u8
                            ==> (#[trigger] self.reservation_stations@[i].operand(r)) == (
                        if pk.reservation_stations@[i].is_pending_on(k, r) {
                            Some(
                                Register::Ready(
                                    crate::cpu_state::station::change_value(
                                        register_changes@,
                                        r,
                                    ),
                                ),
                            )
                        } else {
                            pk.reservation_stations@[i].operand(r)
                        }),
                    forall|i: int, r: u8|
                        0 <= i < n && r < NUM_REGISTERS as u8 ==> match
                            #[trigger] pk.reservation_stations@[i].operand(r) {
                            Some(Register::Pending(s, _)) => state0.held(
                                s as int,
                            ).imp.promised().contains(r) && 0 <= s < n,
                            _ => true,
                        },
                    *self == (CpuState {
                        reservation_stations: self.reservation_stations,
                        ..mid
                    }),
                decreases n - b,
            {
                proof {
                    assert forall|r: u8|
                        r < NUM_REGISTERS as u8
                            && self.reservation_stations@[b as int].is_pending_on(
                            k,
                            r,
                        ) implies change_regs(register_changes@).contains(r) by {
                        assert(pk.reservation_stations@[b as int].operand(r)
                            == self.reservation_stations@[b as int].operand(r));
                        assert(pk.reservation_stations@[b as int].operand(r) == Some(
                            Register::Pending(k, r),
                        ));
                        let op = pk.reservation_stations@[b as int].operand(r);
                        match op {
                            Some(Register::Pending(s2, _)) => {
                                assert(state0.held(s2 as int).imp.promised().contains(
                                    r,
                                ) && 0 <= s2 < n);
                                assert(s2 == k);
                                assert(state0.held(k as int).imp.promised().contains(r));
                            },
                            _ => {
                                assert(false);
                            },
                        }
                        assert(change_regs(register_changes@) == state0.held(
                            k as int,
                        ).imp.promised());
                    }
                }
                let station = &mut self.reservation_stations[b];
                station.receive_broadcast(k, register_changes);
                b = b + 1;
            }
        }
        // Accumulate the cycle's statistics and terminal state.
        if res.should_terminate {
            self.should_terminate = true;
        }
        if let Some(code) = res.exit_code {
            self.exit_code = Some(code);
        }
        if res.fault.is_some() {
            self.fault = res.fault;
            self.should_terminate = true;
        }
        if res.did_execute_instruction {
            result.instructions_executed = result.instructions_executed + 1;
        }
        if res.did_skip_instruction {
            result.instructions_skipped = result.instructions_skipped + 1;
            // A skipped conditional broadcasts nothing: drop any
            // scoreboard claims still naming this station, so no later
            // issue waits on a broadcast that never comes.
            let ghost sk = *self;
            let mut r: usize = 0;
            while r < NUM_REGISTERS
                invariant
                    r <= NUM_REGISTERS,
                    self.pending_registers@.len() == NUM_REGISTERS,
                    forall|q: int|
                        0 <= q < r ==> (#[trigger] self.pending_registers@[q]) != Some(k),
                    forall|q: int|
                        r <= q < NUM_REGISTERS ==> (#[trigger] self.pending_registers@[q])
                            == sk.pending_registers@[q],
                    forall|q: int|
                        0 <= q < r ==> (#[trigger] self.pending_registers@[q]) == (if
                        sk.pending_registers@[q] == Some(k) {
                            Option::<usize>::None
                        } else {
                            sk.pending_registers@[q]
                        }),
                    *self == (CpuState {
                        pending_registers: self.pending_registers,
                        ..sk
                    }),
                decreases NUM_REGISTERS - r,
            {
                if self.pending_registers[r] == Some(k) {
                    self.pending_registers[r] = None;
                }
                r = r + 1;
            }
        }
        if res.did_execute_instruction && res.instruction_is_branch {
            if result.branches_taken == 0 {
                result.branches_taken = 1;
            }
        }
        if res.did_skip_instruction && res.instruction_is_branch {
            result.branches_not_taken = result.branches_not_taken + 1;
        }
        // Retire the station, or install the continuation of a
        // multi-cycle instruction.
        let ghost before_retire = *self;
        proof {
            before_retire.lemma_occupied_count_same(pk, n as int);
        }
        match res.next_state {
            None => {
                self.reservation_stations[k].clear();
                proof {
                    self.retired = Ghost(self.retired@ + 1);
                    Self::lemma_occupied_count_update(
                        before_retire,
                        *self,
                        n as int,
                        k as int,
                    );
                }
            },
            Some(next) => {
                self.reservation_stations[k].replace_instruction(next);
                proof {
                    Self::lemma_occupied_count_update(
                        before_retire,
                        *self,
                        n as int,
                        k as int,
                    );
                }
            },
        }
        proof {
            let sn = *self;
            let kk = k as int;
            let ghost ch_opt = ch_opt_of(gres);
            // Operand snapshots: the broadcast's effect, entry by entry.
            assert forall|i: int, r: u8|
                0 <= i < n && r < NUM_REGISTERS as u8 && !(i == kk && gres.next_state is None)
                    implies (#[trigger] sn.reservation_stations@[i].operand(r)) == bcast_op(
                pk.reservation_stations@[i].operand(r),
                kk,
                ch_opt,
            ) by {
                match gres.register_changes {
                    Some(ch) => {
                        assert(sn.reservation_stations@[i].operand(r) == (
                        if pk.reservation_stations@[i].is_pending_on(k, r) {
                            Some(
                                Register::Ready(
                                    crate::cpu_state::station::change_value(ch@, r),
                                ),
                            )
                        } else {
                            pk.reservation_stations@[i].operand(r)
                        }));
                        match pk.reservation_stations@[i].operand(r) {
                            Some(Register::Pending(s2, r2)) => {
                                assert(r2 == r) by {
                                    assert(pk.reservation_stations@[i].wf());
                                }
                            },
                            _ => {},
                        }
                    },
                    None => {
                        assert(sn.reservation_stations@[i].operand(r)
                            == pk.reservation_stations@[i].operand(r));
                    },
                }
            }
            // The halt flag accumulated exactly the result's demands.
            assert(sn.should_terminate == (pk.should_terminate || gres.should_terminate || (
            ch_opt matches Some(ch) && has_even_pc(ch)))) by {
                if gres.fault is Some {
                    assert(gres.should_terminate);
                }
            }
            assert(station_delta(pk, sn, gres, kk, r0, *result));
            Self::lemma_step_exact(state0, results0, k, gres, pk, sn, r0, *result);
        }
    }
}

} // verus!
