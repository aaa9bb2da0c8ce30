//! The memory arena: a backing store that only grows, and a sparse map from
//! addresses to the slots of that store.

use std::collections::HashMap;
use vstd::prelude::*;

verus! {

broadcast use vstd::std_specs::hash::group_hash_axioms;

/// The mathematical value of an arena: the backing slots in the order they
/// were made, and the slot that each mapped address stands for.
pub struct Arena {
    pub slots: Seq<u64>,
    pub index: Map<u64, nat>,
}

impl Arena {
    /// Every mapped address stands for a slot that exists, and no two
    /// addresses stand for the same slot.
    pub open spec fn wf(self) -> bool {
        &&& forall|a: u64| #[trigger]
            self.index.contains_key(a) ==> self.index[a] < self.slots.len()
        &&& forall|a: u64, b: u64|
            #![trigger self.index[a], self.index[b]]
            self.index.contains_key(a) && self.index.contains_key(b) && a != b ==> self.index[a]
                != self.index[b]
    }

    pub open spec fn empty() -> Arena {
        Arena { slots: Seq::empty(), index: Map::empty() }
    }

    /// The address counter: the next address an allocation hands out. It
    /// moves by one with every slot made.
    pub open spec fn next(self) -> int {
        self.slots.len() as int
    }

    /// The value at an address: 0 where nothing was ever written.
    pub open spec fn load(self, addr: u64) -> u64 {
        if self.index.contains_key(addr) {
            self.slots[self.index[addr] as int]
        } else {
            0
        }
    }

    /// A write to an address: in place where the address is mapped, into a
    /// new slot where it is not.
    pub open spec fn store(self, addr: u64, value: u64) -> Arena {
        if self.index.contains_key(addr) {
            Arena { slots: self.slots.update(self.index[addr] as int, value), index: self.index }
        } else {
            Arena {
                slots: self.slots.push(value),
                index: self.index.insert(addr, self.slots.len()),
            }
        }
    }

    /// An allocation of `bytes.len()` consecutive addresses from the counter
    /// on, one new slot each, holding the bytes in order.
    pub open spec fn allocate(self, bytes: Seq<u8>) -> Arena {
        let base = self.slots.len() as int;
        Arena {
            slots: self.slots + Seq::new(bytes.len(), |i: int| bytes[i] as u64),
            index: Map::new(
                |a: u64| self.index.contains_key(a) || base <= a < base + bytes.len(),
                |a: u64|
                    if base <= a < base + bytes.len() {
                        a as nat
                    } else {
                        self.index[a]
                    },
            ),
        }
    }

    /// The low byte of what stands at an address; 0 where the address is not
    /// mapped or does not exist.
    pub open spec fn byte_at(self, addr: int) -> u8 {
        if 0 <= addr <= u64::MAX && self.index.contains_key(addr as u64) {
            (self.slots[self.index[addr as u64] as int] % 256) as u8
        } else {
            0
        }
    }

    /// The bytes at `len` consecutive addresses from `ptr` on.
    pub open spec fn read(self, ptr: u64, len: nat) -> Seq<u8> {
        Seq::new(len, |i: int| self.byte_at(ptr + i))
    }
}

/// A store keeps an arena well formed.
pub proof fn lemma_store_wf(m: Arena, addr: u64, value: u64)
    requires
        m.wf(),
    ensures
        m.store(addr, value).wf(),
{
}

/// An allocation keeps an arena well formed.
pub proof fn lemma_allocate_wf(m: Arena, bytes: Seq<u8>)
    requires
        m.wf(),
    ensures
        m.allocate(bytes).wf(),
{
}

/// A value stored at an address is the value loaded from it, whatever the
/// address held before.
pub proof fn lemma_load_after_store(m: Arena, addr: u64, value: u64)
    requires
        m.wf(),
    ensures
        m.store(addr, value).load(addr) == value,
{
}

/// A store leaves every other address as it was.
pub proof fn lemma_store_keeps_others(m: Arena, addr: u64, value: u64, other: u64)
    requires
        m.wf(),
        other != addr,
    ensures
        m.store(addr, value).load(other) == m.load(other),
{
}

/// An address that was never written holds 0.
pub proof fn lemma_load_unwritten(m: Arena, addr: u64)
    requires
        !m.index.contains_key(addr),
    ensures
        m.load(addr) == 0,
        Arena::empty().load(addr) == 0,
{
}

/// What an allocation wrote is what a read from its base gives back, for
/// any length up to that of the allocation.
pub proof fn lemma_read_after_allocate(m: Arena, bytes: Seq<u8>, len: nat)
    requires
        m.wf(),
        m.next() + bytes.len() <= u64::MAX,
        len <= bytes.len(),
    ensures
        m.allocate(bytes).read(m.next() as u64, len) == bytes.take(len as int),
{
}

/// The arena of one run.
#[derive(Debug)]
pub struct Memory {
    slots: Vec<u64>,
    index: HashMap<u64, usize>,
}

impl View for Memory {
    type V = Arena;

    closed spec fn view(&self) -> Arena {
        Arena {
            slots: self.slots@,
            index: Map::new(
                |a: u64| self.index@.contains_key(a),
                |a: u64| self.index@[a] as nat,
            ),
        }
    }
}

impl Memory {
    /// What the address map says of one address, in terms of the view.
    proof fn lemma_index(&self, addr: u64)
        ensures
            self@.index.contains_key(addr) == self.index@.contains_key(addr),
            self.index@.contains_key(addr) ==> self@.index[addr] == self.index@[addr] as nat,
            self@.slots == self.slots@,
    {
    }

    pub fn new() -> (m: Memory)
        ensures
            m@ == Arena::empty(),
            m@.wf(),
    {
        let m = Memory { slots: Vec::new(), index: HashMap::new() };
        proof {
            assert(m@.index =~= Arena::empty().index);
        }
        m
    }

    /// The backing slots, in the order they were made.
    pub fn slots(&self) -> (s: &Vec<u64>)
        ensures
            s@ == self@.slots,
    {
        &self.slots
    }

    /// The address counter.
    pub fn next(&self) -> (n: u64)
        ensures
            n == self@.next(),
    {
        self.slots.len() as u64
    }

    pub fn load(&self, addr: u64) -> (value: u64)
        requires
            self@.wf(),
        ensures
            value == self@.load(addr),
    {
        proof {
            self.lemma_index(addr);
        }
        match self.index.get(&addr) {
            Some(slot) => self.slots[*slot],
            None => 0,
        }
    }

    pub fn store(&mut self, addr: u64, value: u64)
        requires
            old(self)@.wf(),
        ensures
            final(self)@ == old(self)@.store(addr, value),
            final(self)@.wf(),
    {
        proof {
            self.lemma_index(addr);
        }
        let found = match self.index.get(&addr) {
            Some(slot) => Some(*slot),
            None => None,
        };
        match found {
            Some(slot) => {
                self.slots[slot] = value;
            },
            None => {
                let slot = self.slots.len();
                self.slots.push(value);
                self.index.insert(addr, slot);
            },
        }
        proof {
            let after = old(self)@.store(addr, value);
            assert(self@.index =~= after.index);
            lemma_store_wf(old(self)@, addr, value);
        }
    }

    /// Allocates one address per byte, from the counter on, and writes the
    /// bytes there. Returns the first of these addresses.
    pub fn allocate(&mut self, bytes: &[u8]) -> (base: u64)
        requires
            old(self)@.wf(),
        ensures
            base == old(self)@.next(),
            final(self)@ == old(self)@.allocate(bytes@),
            final(self)@.wf(),
    {
        let base = self.slots.len() as u64;
        proof {
            let start = old(self)@.allocate(bytes@.take(0));
            assert(self@.index =~= start.index);
        }
        let mut i: usize = 0;
        while i < bytes.len()
            invariant
                i <= bytes.len(),
                old(self)@.wf(),
                self@ == old(self)@.allocate(bytes@.take(i as int)),
            decreases bytes.len() - i,
        {
            let ghost before = self@;
            let ghost before_index = self.index@;
            let slot = self.slots.len();
            self.slots.push(bytes[i] as u64);
            self.index.insert(slot as u64, slot);
            proof {
                let after = old(self)@.allocate(bytes@.take(i + 1));
                assert(self@.slots =~= after.slots);
                assert forall|a: u64| before.index.contains_key(a) == before_index.contains_key(
                    a,
                ) by {}
                assert forall|a: u64| #[trigger] before_index.contains_key(a)
                    implies before.index[a] == before_index[a] as nat by {}
                assert(self@.index =~= after.index);
            }
            i += 1;
        }
        proof {
            assert(bytes@.take(bytes.len() as int) == bytes@);
            lemma_allocate_wf(old(self)@, bytes@);
        }
        base
    }

    /// Reads the low bytes at `len` consecutive addresses from `ptr` on.
    pub fn read(&self, ptr: u64, len: u64) -> (bytes: Vec<u8>)
        requires
            self@.wf(),
        ensures
            bytes@ == self@.read(ptr, len as nat),
    {
        let mut bytes: Vec<u8> = Vec::new();
        let mut i: u64 = 0;
        while i < len
            invariant
                i <= len,
                self@.wf(),
                bytes@ == self@.read(ptr, i as nat),
            decreases len - i,
        {
            let byte: u8 = match ptr.checked_add(i) {
                Some(addr) => {
                    proof {
                        self.lemma_index(addr);
                    }
                    match self.index.get(&addr) {
                        Some(slot) => (self.slots[*slot] % 256) as u8,
                        None => 0,
                    }
                },
                None => 0,
            };
            bytes.push(byte);
            i += 1;
        }
        bytes
    }
}

} // verus!
