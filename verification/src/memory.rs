//! Paged byte-addressable memory with per-page write permission.
//!
//! Pages are disjoint ranges of the 32-bit address space; a read or write
//! outside every page fails with `BadAddress`, and a write into a read-only
//! page fails with `ReadOnlyAddress`.

use vstd::prelude::*;

verus! {

/// One mapped range of the address space.
struct Page {
    write: bool,
    data: Vec<u8>,
    vaddr: u32,
}

/// Paged memory: a set of disjoint mapped ranges.
pub struct Memory {
    pages: Vec<Page>,
}

/// Why a memory access failed: the address is unmapped, or the page is
/// read-only.
#[derive(Debug, Clone, Copy, PartialEq, Eq, Structural)]
pub enum MemoryAccessError {
    BadAddress(u32),
    ReadOnlyAddress(u32),
}

impl Page {
    spec fn wf(self) -> bool {
        self.vaddr + self.data@.len() <= u32::MAX as int + 1
    }

    spec fn contains(self, address: u32) -> bool {
        self.vaddr <= address < self.vaddr + self.data@.len()
    }

    spec fn byte_at(self, address: u32) -> u8 {
        self.data@[address - self.vaddr]
    }
}

impl Memory {
    /// The pages never overlap, and none of them runs past the end of the
    /// 32-bit address space.
    pub closed spec fn wf(self) -> bool {
        &&& forall|i: int| 0 <= i < self.pages@.len() ==> (#[trigger] self.pages@[i]).wf()
        &&& forall|i: int, j: int, a: u32|
            0 <= i < self.pages@.len() && 0 <= j < self.pages@.len() && i != j
                ==> !((#[trigger] self.pages@[i].contains(a)) && #[trigger] self.pages@[j].contains(
                a,
            ))
    }

    /// Whether `address` lies inside some mapped page.
    pub closed spec fn mapped(self, address: u32) -> bool {
        exists|i: int| 0 <= i < self.pages@.len() && (#[trigger] self.pages@[i]).contains(address)
    }

    /// Whether `address` lies inside a writable mapped page.
    pub closed spec fn writable(self, address: u32) -> bool {
        exists|i: int|
            0 <= i < self.pages@.len() && (#[trigger] self.pages@[i]).contains(address)
                && self.pages@[i].write
    }

    /// The byte stored at a mapped address.
    pub closed spec fn byte_at(self, address: u32) -> u8 {
        let i = choose|i: int|
            0 <= i < self.pages@.len() && (#[trigger] self.pages@[i]).contains(address);
        self.pages@[i].byte_at(address)
    }

    /// Every address of `[address, address + count)` is mapped.
    pub open spec fn range_mapped(self, address: u32, count: u32) -> bool {
        &&& address + count <= u32::MAX as int + 1
        &&& forall|a: u32| address <= a < address + count ==> self.mapped(a)
    }

    /// Every address of `[address, address + count)` is mapped and writable.
    pub open spec fn range_writable(self, address: u32, count: u32) -> bool {
        &&& address + count <= u32::MAX as int + 1
        &&& forall|a: u32| address <= a < address + count ==> self.writable(a)
    }

    /// A writable address is in particular a mapped one, so a verified
    /// write can be chained to a verified read of the same range.
    pub proof fn lemma_writable_mapped(self, address: u32)
        requires
            self.writable(address),
        ensures
            self.mapped(address),
    {
        let i = choose|i: int|
            0 <= i < self.pages@.len() && (#[trigger] self.pages@[i]).contains(address)
                && self.pages@[i].write;
        assert(self.pages@[i].contains(address));
    }

    proof fn lemma_unique_page(self, address: u32, i: int, j: int)
        requires
            self.wf(),
            0 <= i < self.pages@.len(),
            0 <= j < self.pages@.len(),
            self.pages@[i].contains(address),
            self.pages@[j].contains(address),
        ensures
            i == j,
    {
    }

    /// Map `data` at `address` as a new page.
    ///
    /// The new page must fit in the address space and must not overlap any
    /// existing page.
    pub fn mmap(&mut self, address: u32, data: Vec<u8>, write: bool)
        requires
            old(self).wf(),
            address + data@.len() <= u32::MAX as int + 1,
            forall|a: u32| address <= a < address + data@.len() ==> !old(self).mapped(a),
        ensures
            final(self).wf(),
            forall|a: u32|
                #[trigger] final(self).mapped(a) <==> (old(self).mapped(a) || (address <= a
                    < address + data@.len())),
            forall|a: u32|
                #[trigger] final(self).writable(a) <==> (old(self).writable(a) || (write && address
                    <= a < address + data@.len())),
            forall|a: u32|
                address <= a < address + data@.len() ==> #[trigger] final(self).byte_at(a)
                    == data@[a - address],
            forall|a: u32|
                old(self).mapped(a) ==> #[trigger] final(self).byte_at(a) == old(self).byte_at(a),
    {
        let ghost olds = self.pages@;
        self.pages.push(Page { write, data, vaddr: address });
        proof {
            let n = olds.len() as int;
            assert forall|i: int, j: int, a: u32|
                0 <= i < self.pages@.len() && 0 <= j < self.pages@.len() && i != j implies !((
            #[trigger] self.pages@[i].contains(a)) && #[trigger] self.pages@[j].contains(a)) by {
                if self.pages@[i].contains(a) && self.pages@[j].contains(a) {
                    if i < n && j < n {
                        assert(olds[i].contains(a) && olds[j].contains(a));
                    } else if i == n && j < n {
                        assert(olds[j].contains(a));
                        assert(old(self).mapped(a));
                    } else if j == n && i < n {
                        assert(olds[i].contains(a));
                        assert(old(self).mapped(a));
                    }
                }
            }
            assert(self.wf());
            assert forall|a: u32| #[trigger] self.mapped(a) implies (old(self).mapped(a) || (
            address <= a < address + self.pages@[n].data@.len())) by {
                let i = choose|i: int|
                    0 <= i < self.pages@.len() && (#[trigger] self.pages@[i]).contains(a);
                if i < n {
                    assert(olds[i].contains(a));
                }
            }
            assert forall|a: u32| #[trigger] self.writable(a) implies (old(self).writable(a) || (
            write && address <= a < address + self.pages@[n].data@.len())) by {
                let i = choose|i: int|
                    0 <= i < self.pages@.len() && (#[trigger] self.pages@[i]).contains(a)
                        && self.pages@[i].write;
                if i < n {
                    assert(olds[i].contains(a));
                }
            }
            assert forall|a: u32| old(self).mapped(a) implies #[trigger] self.mapped(a) by {
                let i = choose|i: int| 0 <= i < olds.len() && (#[trigger] olds[i]).contains(a);
                assert(self.pages@[i].contains(a));
            }
            assert forall|a: u32| old(self).writable(a) implies #[trigger] self.writable(a) by {
                let i = choose|i: int|
                    0 <= i < olds.len() && (#[trigger] olds[i]).contains(a) && olds[i].write;
                assert(self.pages@[i].contains(a) && self.pages@[i].write);
            }
            assert forall|a: u32| address <= a < address + self.pages@[n].data@.len() implies ((
            #[trigger] self.mapped(a)) && (write ==> self.writable(a))) by {
                assert(self.pages@[n].contains(a));
            }
            assert forall|a: u32| address <= a < address + self.pages@[n].data@.len() implies #[trigger] self.byte_at(
                a,
            ) == self.pages@[n].data@[a - address] by {
                assert(self.pages@[n].contains(a));
                let i = choose|i: int|
                    0 <= i < self.pages@.len() && (#[trigger] self.pages@[i]).contains(a);
                if i != n {
                    assert(olds[i].contains(a));
                }
            }
            assert forall|a: u32| old(self).mapped(a) implies #[trigger] self.byte_at(a) == old(
                self,
            ).byte_at(a) by {
                let i = choose|i: int| 0 <= i < olds.len() && (#[trigger] olds[i]).contains(a);
                assert(self.pages@[i].contains(a));
                let j = choose|j: int|
                    0 <= j < self.pages@.len() && (#[trigger] self.pages@[j]).contains(a);
                self.lemma_unique_page(a, i, j);
            }
        }
    }

    /// Read the byte at `address`; fails with `BadAddress` when the address
    /// is unmapped.
    pub fn read_byte(&self, address: u32) -> (r: Result<u8, MemoryAccessError>)
        requires
            self.wf(),
        ensures
            self.mapped(address) ==> r == Ok::<u8, MemoryAccessError>(self.byte_at(address)),
            !self.mapped(address) ==> r == Err::<u8, MemoryAccessError>(
                MemoryAccessError::BadAddress(address),
            ),
    {
        let n = self.pages.len();
        for i in 0..n
            invariant
                n == self.pages@.len(),
                self.wf(),
                forall|k: int| 0 <= k < i ==> !(#[trigger] self.pages@[k]).contains(address),
        {
            let p = &self.pages[i];
            let plen = p.data.len();
            if address >= p.vaddr && ((address - p.vaddr) as usize) < plen {
                proof {
                    let j = choose|j: int|
                        0 <= j < self.pages@.len() && (#[trigger] self.pages@[j]).contains(address);
                    self.lemma_unique_page(address, i as int, j);
                }
                return Ok(p.data[(address - p.vaddr) as usize]);
            }
        }
        Err(MemoryAccessError::BadAddress(address))
    }

    /// Write `byte` at `address`; fails with `BadAddress` when the address is
    /// unmapped and with `ReadOnlyAddress` when its page forbids writes.
    pub fn write_byte(&mut self, address: u32, byte: u8) -> (r: Result<(), MemoryAccessError>)
        requires
            old(self).wf(),
        ensures
            final(self).wf(),
            forall|a: u32| #[trigger] final(self).mapped(a) == old(self).mapped(a),
            forall|a: u32| #[trigger] final(self).writable(a) == old(self).writable(a),
            old(self).writable(address) ==> {
                &&& r == Ok::<(), MemoryAccessError>(())
                &&& final(self).byte_at(address) == byte
                &&& forall|a: u32|
                    a != address && old(self).mapped(a) ==> #[trigger] final(self).byte_at(a)
                        == old(self).byte_at(a)
            },
            !old(self).writable(address) ==> {
                &&& *final(self) == *old(self)
                &&& r == Err::<(), MemoryAccessError>(
                    if old(self).mapped(address) {
                        MemoryAccessError::ReadOnlyAddress(address)
                    } else {
                        MemoryAccessError::BadAddress(address)
                    },
                )
            },
    {
        let n = self.pages.len();
        for i in 0..n
            invariant
                n == self.pages@.len(),
                self.wf(),
                *self == *old(self),
                forall|k: int| 0 <= k < i ==> !(#[trigger] self.pages@[k]).contains(address),
        {
            let p = &self.pages[i];
            let plen = p.data.len();
            if address >= p.vaddr && ((address - p.vaddr) as usize) < plen {
                proof {
                    let j = choose|j: int|
                        0 <= j < self.pages@.len() && (#[trigger] self.pages@[j]).contains(address);
                    self.lemma_unique_page(address, i as int, j);
                }
                if !p.write {
                    return Err(MemoryAccessError::ReadOnlyAddress(address));
                }
                let ghost olds = self.pages@;
                let off = (address - p.vaddr) as usize;
                self.pages[i].data[off] = byte;
                proof {
                    let i = i as int;
                    assert(olds[i].contains(address));
                    assert forall|k: int, a: u32| 0 <= k < olds.len() implies ((
                    #[trigger] self.pages@[k].contains(a)) == #[trigger] olds[k].contains(a)) by {
                        assert(self.pages@[k].vaddr == olds[k].vaddr);
                        assert(self.pages@[k].data@.len() == olds[k].data@.len());
                    }
                    assert forall|a: u32| #[trigger] self.mapped(a) == old(self).mapped(a) by {
                        if self.mapped(a) {
                            let k = choose|k: int|
                                0 <= k < self.pages@.len() && (#[trigger] self.pages@[k]).contains(
                                a);
                            assert(olds[k].contains(a));
                        }
                        if old(self).mapped(a) {
                            let k = choose|k: int|
                                0 <= k < olds.len() && (#[trigger] olds[k]).contains(a);
                            assert(self.pages@[k].contains(a));
                        }
                    }
                    assert forall|a: u32| #[trigger] self.writable(a) == old(self).writable(a) by {
                        if self.writable(a) {
                            let k = choose|k: int|
                                0 <= k < self.pages@.len() && (#[trigger] self.pages@[k]).contains(
                                a) && self.pages@[k].write;
                            assert(olds[k].contains(a) && olds[k].write);
                        }
                        if old(self).writable(a) {
                            let k = choose|k: int|
                                0 <= k < olds.len() && (#[trigger] olds[k]).contains(a)
                                    && olds[k].write;
                            assert(self.pages@[k].contains(a) && self.pages@[k].write);
                        }
                    }
                    assert forall|k1: int, k2: int, a: u32|
                        0 <= k1 < self.pages@.len() && 0 <= k2 < self.pages@.len() && k1 != k2
                        implies !((#[trigger] self.pages@[k1].contains(a))
                        && #[trigger] self.pages@[k2].contains(a)) by {
                        if self.pages@[k1].contains(a) && self.pages@[k2].contains(a) {
                            assert(olds[k1].contains(a) && olds[k2].contains(a));
                        }
                    }
                    assert forall|k: int| 0 <= k < self.pages@.len() implies (
                    #[trigger] self.pages@[k]).wf() by {
                        assert(olds[k].wf());
                        assert(self.pages@[k].vaddr == olds[k].vaddr);
                        assert(self.pages@[k].data@.len() == olds[k].data@.len());
                    }
                    assert(self.wf());
                    assert forall|a: u32| a != address && old(self).mapped(a) implies
                        #[trigger] self.byte_at(a) == old(self).byte_at(a) by {
                        let j1 = choose|j: int|
                            0 <= j < olds.len() && (#[trigger] olds[j]).contains(a);
                        assert(self.pages@[j1].contains(a));
                        let j2 = choose|j: int|
                            0 <= j < self.pages@.len() && (#[trigger] self.pages@[j]).contains(a);
                        self.lemma_unique_page(a, j1, j2);
                        if j1 == i {
                            assert(a - olds[i].vaddr != off);
                        }
                    }
                    let j2 = choose|j: int|
                        0 <= j < self.pages@.len() && (#[trigger] self.pages@[j]).contains(address);
                    self.lemma_unique_page(address, i, j2);
                }
                return Ok(());
            }
        }
        Err(MemoryAccessError::BadAddress(address))
    }

    /// The little-endian 32-bit word whose four bytes start at `address`.
    pub open spec fn word_at(self, address: u32) -> u32
        recommends
            address + 4 <= u32::MAX as int + 1,
    {
        (self.byte_at(address) + self.byte_at((address + 1) as u32) * 0x100 + self.byte_at(
            (address + 2) as u32,
        ) * 0x10000 + self.byte_at((address + 3) as u32) * 0x1000000) as u32
    }

    /// The little-endian 16-bit halfword whose two bytes start at `address`.
    pub open spec fn halfword_at(self, address: u32) -> u16
        recommends
            address + 2 <= u32::MAX as int + 1,
    {
        (self.byte_at(address) + self.byte_at((address + 1) as u32) * 0x100) as u16
    }

    /// Read `length` consecutive bytes starting at `base_address`.
    ///
    /// Succeeds exactly when the whole range is mapped; otherwise reports the
    /// first unmapped address.
    pub fn read_bytes(&self, base_address: u32, length: u32) -> (r: Result<
        Vec<u8>,
        MemoryAccessError,
    >)
        requires
            self.wf(),
            base_address + length <= u32::MAX as int + 1,
        ensures
            self.range_mapped(base_address, length) ==> (r matches Ok(bytes) && bytes@.len()
                == length && forall|i: int|
                0 <= i < length ==> bytes@[i] == self.byte_at((base_address + i) as u32)),
            !self.range_mapped(base_address, length) ==> exists|a: u32|
                {
                    &&& base_address <= a < base_address + length
                    &&& !(#[trigger] self.mapped(a))
                    &&& forall|b: u32| base_address <= b < a ==> self.mapped(b)
                    &&& r == Err::<Vec<u8>, MemoryAccessError>(MemoryAccessError::BadAddress(a))
                },
    {
        let mut ret: Vec<u8> = Vec::new();
        let mut i: u32 = 0;
        while i < length
            invariant
                self.wf(),
                base_address + length <= u32::MAX as int + 1,
                i <= length,
                ret@.len() == i,
                forall|j: int| 0 <= j < i ==> ret@[j] == self.byte_at((base_address + j) as u32),
                forall|a: u32| base_address <= a < base_address + i ==> self.mapped(a),
            decreases length - i,
        {
            match self.read_byte(base_address + i) {
                Ok(b) => ret.push(b),
                Err(e) => {
                    return Err(e);
                },
            }
            i = i + 1;
        }
        Ok(ret)
    }

    /// Read a little-endian 32-bit word at `address`.
    pub fn read_u32(&self, address: u32) -> (r: Result<u32, MemoryAccessError>)
        requires
            self.wf(),
            address + 4 <= u32::MAX as int + 1,
        ensures
            self.range_mapped(address, 4) ==> r == Ok::<u32, MemoryAccessError>(
                self.word_at(address),
            ),
            !self.range_mapped(address, 4) ==> exists|a: u32|
                {
                    &&& address <= a < address + 4
                    &&& !(#[trigger] self.mapped(a))
                    &&& forall|b: u32| address <= b < a ==> self.mapped(b)
                    &&& r == Err::<u32, MemoryAccessError>(MemoryAccessError::BadAddress(a))
                },
    {
        let bytes = self.read_bytes(address, 4)?;
        let v = bytes[0] as u32 + bytes[1] as u32 * 0x100 + bytes[2] as u32 * 0x10000 + bytes[3]
            as u32 * 0x1000000;
        Ok(v)
    }

    /// Read a little-endian 16-bit halfword at `address`.
    pub fn read_u16(&self, address: u32) -> (r: Result<u16, MemoryAccessError>)
        requires
            self.wf(),
            address + 2 <= u32::MAX as int + 1,
        ensures
            self.range_mapped(address, 2) ==> r == Ok::<u16, MemoryAccessError>(
                self.halfword_at(address),
            ),
            !self.range_mapped(address, 2) ==> exists|a: u32|
                {
                    &&& address <= a < address + 2
                    &&& !(#[trigger] self.mapped(a))
                    &&& forall|b: u32| address <= b < a ==> self.mapped(b)
                    &&& r == Err::<u16, MemoryAccessError>(MemoryAccessError::BadAddress(a))
                },
    {
        let bytes = self.read_bytes(address, 2)?;
        let v = bytes[0] as u16 + bytes[1] as u16 * 0x100;
        Ok(v)
    }

    /// Write `bytes` starting at `base_address`, byte by byte.
    ///
    /// Succeeds exactly when the whole range is writable. On failure the
    /// bytes before the first non-writable address have already been stored,
    /// as the byte-by-byte write of the hardware model would leave them.
    pub fn write_bytes(&mut self, base_address: u32, bytes: &[u8]) -> (r: Result<
        (),
        MemoryAccessError,
    >)
        requires
            old(self).wf(),
            base_address + bytes@.len() <= u32::MAX as int + 1,
        ensures
            final(self).wf(),
            forall|a: u32| #[trigger] final(self).mapped(a) == old(self).mapped(a),
            forall|a: u32| #[trigger] final(self).writable(a) == old(self).writable(a),
            (forall|a: u32|
                base_address <= a < base_address + bytes@.len() ==> old(self).writable(a)) ==> {
                &&& r == Ok::<(), MemoryAccessError>(())
                &&& forall|i: int|
                    0 <= i < bytes@.len() ==> final(self).byte_at((base_address + i) as u32)
                        == bytes@[i]
                &&& forall|a: u32|
                    old(self).mapped(a) && !(base_address <= a < base_address + bytes@.len())
                        ==> #[trigger] final(self).byte_at(a) == old(self).byte_at(a)
            },
            !(forall|a: u32|
                base_address <= a < base_address + bytes@.len() ==> old(self).writable(a))
                ==> exists|k: int|
                {
                    &&& 0 <= k < bytes@.len()
                    &&& !(#[trigger] old(self).writable((base_address + k) as u32))
                    &&& forall|j: int|
                        0 <= j < k ==> #[trigger] old(self).writable((base_address + j) as u32)
                    &&& r == Err::<(), MemoryAccessError>(
                        if old(self).mapped((base_address + k) as u32) {
                            MemoryAccessError::ReadOnlyAddress((base_address + k) as u32)
                        } else {
                            MemoryAccessError::BadAddress((base_address + k) as u32)
                        },
                    )
                    &&& forall|i: int|
                        0 <= i < k ==> final(self).byte_at((base_address + i) as u32) == bytes@[i]
                    &&& forall|a: u32|
                        old(self).mapped(a) && !(base_address <= a < base_address + k)
                            ==> #[trigger] final(self).byte_at(a) == old(self).byte_at(a)
                },
    {
        let n = bytes.len();
        let mut i: usize = 0;
        while i < n
            invariant
                self.wf(),
                n == bytes@.len(),
                base_address + n <= u32::MAX as int + 1,
                i <= n,
                forall|a: u32| #[trigger] self.mapped(a) == old(self).mapped(a),
                forall|a: u32| #[trigger] self.writable(a) == old(self).writable(a),
                forall|j: int|
                    0 <= j < i ==> #[trigger] old(self).writable((base_address + j) as u32),
                forall|j: int|
                    0 <= j < i ==> #[trigger] self.byte_at((base_address + j) as u32) == bytes@[j],
                forall|a: u32|
                    old(self).mapped(a) && !(base_address <= a < base_address + i)
                        ==> #[trigger] self.byte_at(a) == old(self).byte_at(a),
            decreases n - i,
        {
            let addr = base_address + i as u32;
            let ghost prev = *self;
            match self.write_byte(addr, bytes[i]) {
                Ok(()) => {},
                Err(e) => {
                    proof {
                        assert(!prev.writable(addr));
                        assert(!old(self).writable((base_address + i as int) as u32));
                    }
                    return Err(e);
                },
            }
            proof {
                assert(prev.writable(addr));
                assert(self.byte_at(addr) == bytes@[i as int]);
                assert forall|j: int|
                    0 <= j < i + 1 implies #[trigger] self.byte_at((base_address + j) as u32)
                    == bytes@[j] by {
                    if j < i {
                        let a = (base_address + j) as u32;
                        assert(prev.writable(a));
                        assert(prev.mapped(a));
                        assert(a != addr);
                        assert(self.byte_at(a) == prev.byte_at(a));
                    }
                }
                assert forall|a: u32|
                    old(self).mapped(a) && !(base_address <= a < base_address + (i + 1)) implies
                    #[trigger] self.byte_at(a) == old(self).byte_at(a) by {
                    assert(prev.mapped(a));
                    assert(a != addr);
                }
            }
            i = i + 1;
        }
        proof {
            assert forall|a: u32| base_address <= a < base_address + n implies old(
                self,
            ).writable(a) by {
                let j = a - base_address;
                assert(old(self).writable((base_address + j) as u32));
            }
        }
        Ok(())
    }
}

impl Default for Memory {
    /// An empty memory with no mapped pages.
    fn default() -> (r: Memory)
        ensures
            r.wf(),
            forall|a: u32| !r.mapped(a),
    {
        Memory { pages: Vec::new() }
    }
}

} // verus!
