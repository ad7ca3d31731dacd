//! SVC: the software trap. Id 1 exits the program, id 2 writes a buffer to
//! the console.

use crate::cpu_state::station::ReservationStation;
use crate::instructions::Fault;
use crate::instructions::PollResult;
use crate::memory::Memory;
use crate::memory::MemoryAccessError;
use crate::registers::R0;
use crate::registers::R1;
use vstd::prelude::*;

verus! {

#[derive(Clone, Copy, Debug, PartialEq, Eq, Structural)]
pub struct SVC {
    pub id: i32,
}

impl SVC {
    pub fn new(id: i32) -> (r: SVC)
        ensures
            r == (SVC { id }),
    {
        SVC { id }
    }

    pub open spec fn sources(self) -> Set<u8> {
        set![R0, R1]
    }

    pub open spec fn dests(self) -> Set<u8> {
        Set::empty()
    }

    /// Dispatch the trap: id 1 raises the terminal exception with R0 as
    /// the exit code; id 2 appends the addressed buffer to the console
    /// output and completes with no register changes; any other id faults.
    pub fn poll(&self, station: &ReservationStation, memory: &Memory, output: &mut Vec<u8>) -> (r:
        PollResult)
        requires
            station.wf(),
            memory.wf(),
            station.is_ready_at(R0),
            station.is_ready_at(R1),
        ensures
            old(output)@.is_prefix_of(final(output)@),
            self.id == 1 ==> (r matches PollResult::Exception(code) && code == station.value_at(
                R0,
            ) && final(output)@ == old(output)@),
            self.id == 2 ==> {
                let buffer = station.value_at(R0);
                let count = station.value_at(R1);
                &&& memory.range_mapped(buffer, count) ==> {
                    &&& r matches PollResult::Complete(changes) && changes@.len() == 0
                    &&& final(output)@.len() == old(output)@.len() + count
                    &&& forall|i: int|
                        0 <= i < count ==> final(output)@[old(output)@.len() + i]
                            == #[trigger] memory.byte_at((buffer + i) as u32)
                }
                &&& !memory.range_mapped(buffer, count) ==> (r matches PollResult::Fault(
                    Fault::MemoryAccess(MemoryAccessError::BadAddress(_)),
                ) && final(output)@ == old(output)@)
            },
            self.id != 1 && self.id != 2 ==> (r matches PollResult::Fault(
                Fault::UnknownSyscall(id),
            ) && id == self.id && final(output)@ == old(output)@),
    {
        if self.id == 1 {
            return PollResult::Exception(station.read_by_id(R0));
        }
        if self.id == 2 {
            let buffer_addr = station.read_by_id(R0);
            let buffer_len = station.read_by_id(R1);
            if buffer_addr as u64 + buffer_len as u64 > 0x1_0000_0000u64 {
                return PollResult::Fault(
                    Fault::MemoryAccess(MemoryAccessError::BadAddress(buffer_addr)),
                );
            }
            let data = match memory.read_bytes(buffer_addr, buffer_len) {
                Ok(d) => d,
                Err(e) => {
                    return PollResult::Fault(Fault::MemoryAccess(e));
                },
            };
            let n = data.len();
            let mut i: usize = 0;
            while i < n
                invariant
                    n == data@.len(),
                    i <= n,
                    output@.len() == old(output)@.len() + i,
                    output@.subrange(0, old(output)@.len() as int) == old(output)@,
                    forall|j: int|
                        0 <= j < i ==> output@[old(output)@.len() + j] == #[trigger] data@[j],
                decreases n - i,
            {
                output.push(data[i]);
                proof {
                    assert(output@.subrange(0, old(output)@.len() as int) =~= old(output)@);
                }
                i = i + 1;
            }
            proof {
                assert(old(output)@.is_prefix_of(output@));
                assert forall|k: int| 0 <= k < buffer_len implies output@[old(output)@.len() + k]
                    == #[trigger] memory.byte_at((buffer_addr + k) as u32) by {
                    assert(output@[old(output)@.len() + k] == data@[k]);
                    assert(data@[k] == memory.byte_at((buffer_addr + k) as u32));
                }
            }
            return PollResult::Complete(Vec::new());
        }
        PollResult::Fault(Fault::UnknownSyscall(self.id))
    }
}

} // verus!
