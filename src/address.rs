use crate::memory::{write_bytes, Memory};
use crate::value::PlainValue;
use vstd::bytes::{spec_u64_from_le_bytes, u64_from_le_bytes};
use vstd::prelude::*;

verus! {

/// Width in bytes of a pointer value stored in memory (little-endian).
pub const POINTER_SIZE: usize = 8;

/// The pointer value stored at `a`.
pub open spec fn pointer_at(m: Seq<u8>, a: int) -> int {
    spec_u64_from_le_bytes(m.subrange(a, a + 8)) as int
}

/// Every step of the chain `offs`, starting from `base`, stays inside `m`,
/// every pointer read along the way is non-null, and the final target holds
/// `size` bytes.
pub open spec fn chain_valid(m: Seq<u8>, base: int, offs: Seq<usize>, size: nat) -> bool
    decreases offs.len(),
{
    if offs.len() == 0 {
        true
    } else if offs.len() == 1 {
        base + offs[0] + size <= m.len()
    } else {
        &&& base + offs[0] + 8 <= m.len()
        &&& pointer_at(m, base + offs[0]) != 0
        &&& chain_valid(m, pointer_at(m, base + offs[0]), offs.drop_first(), size)
    }
}

/// The location that the chain `offs` leads to from `base`: each offset but
/// the last is added to the base and the pointer found there becomes the new
/// base; the last offset is added to give the target.
pub open spec fn chain_target(m: Seq<u8>, base: int, offs: Seq<usize>) -> int
    decreases offs.len(),
{
    if offs.len() <= 1 {
        base + offs[0]
    } else {
        chain_target(m, pointer_at(m, base + offs[0]), offs.drop_first())
    }
}

/// A valid chain of at least one offset starts at a base inside `m`.
proof fn lemma_chain_base_in_bounds(m: Seq<u8>, base: int, offs: Seq<usize>, size: nat)
    requires
        offs.len() >= 1,
        chain_valid(m, base, offs, size),
    ensures
        base <= m.len(),
{
}

/// The pointer value stored at `a`.
fn read_pointer(mem: &Memory, a: usize) -> (r: usize)
    requires
        a + 8 <= mem@.len(),
        pointer_at(mem@, a as int) <= mem@.len(),
    ensures
        r == pointer_at(mem@, a as int),
        mem@.len() <= usize::MAX,
{
    let bytes = Address::new(a).read_memory(mem, POINTER_SIZE);
    let v = u64_from_le_bytes(bytes.as_slice());
    v as usize
}

/// Follows `offsets` from `base` to the final target location.
fn resolve_chain(mem: &Memory, base: usize, offsets: &Vec<usize>, size: usize) -> (r: usize)
    requires
        offsets@.len() > 0,
        chain_valid(mem@, base as int, offsets@, size as nat),
    ensures
        r == chain_target(mem@, base as int, offsets@),
        r + size <= mem@.len(),
{
    let n = offsets.len();
    let total = mem.len();
    let mut b: usize = base;
    let mut i: usize = 0;
    assert(offsets@.subrange(0, n as int) =~= offsets@);
    while i + 1 < n
        invariant
            n == offsets@.len(),
            total == mem@.len(),
            n > 0,
            i < n,
            chain_valid(mem@, b as int, offsets@.subrange(i as int, n as int), size as nat),
            chain_target(mem@, b as int, offsets@.subrange(i as int, n as int)) == chain_target(
                mem@,
                base as int,
                offsets@,
            ),
        decreases n - i,
    {
        let ghost sub = offsets@.subrange(i as int, n as int);
        assert(sub.drop_first() =~= offsets@.subrange(i + 1, n as int));
        assert(sub[0] == offsets@[i as int]);
        proof {
            lemma_chain_base_in_bounds(
                mem@,
                pointer_at(mem@, b + offsets@[i as int]),
                sub.drop_first(),
                size as nat,
            );
        }
        b = read_pointer(mem, b + offsets[i]);
        i = i + 1;
    }
    let ghost sub = offsets@.subrange(i as int, n as int);
    assert(sub[0] == offsets@[i as int]);
    b + offsets[i]
}

/// A non-owning handle on a location of a `Memory`. Zero is the null address.
pub struct Address {
    ptr: usize,
}

impl Address {
    /// The location this handle refers to.
    pub closed spec fn addr(&self) -> int {
        self.ptr as int
    }

    /// A location is a machine address.
    pub proof fn lemma_addr_range(&self)
        ensures
            0 <= self.addr() <= usize::MAX,
    {
    }

    pub fn new(ptr: usize) -> (r: Address)
        ensures
            r.addr() == ptr,
    {
        Address { ptr }
    }

    /// The location this handle refers to.
    pub fn ptr(&self) -> (r: usize)
        ensures
            r == self.addr(),
    {
        self.ptr
    }

    /// The `size` bytes that start at this address.
    pub fn read_memory(&self, mem: &Memory, size: usize) -> (r: Vec<u8>)
        requires
            self.addr() + size <= mem@.len(),
        ensures
            r@ == mem@.subrange(self.addr(), self.addr() + size),
            mem@.len() <= usize::MAX,
    {
        let total = mem.len();
        let mut r: Vec<u8> = Vec::new();
        let mut i: usize = 0;
        while i < size
            invariant
                i <= size,
                total == mem@.len(),
                self.ptr + size <= mem@.len(),
                r@ == mem@.subrange(self.ptr as int, self.ptr + i),
            decreases size - i,
        {
            r.push(mem.byte_at(self.ptr + i));
            i = i + 1;
            assert(r@ =~= mem@.subrange(self.ptr as int, self.ptr + i));
        }
        r
    }

    /// Overwrites the bytes from this address on with `bytes`.
    pub fn write_memory(&self, mem: &mut Memory, bytes: &Vec<u8>)
        requires
            self.addr() + bytes@.len() <= old(mem)@.len(),
        ensures
            final(mem)@ == write_bytes(old(mem)@, self.addr(), bytes@),
    {
        let n = bytes.len();
        let total = mem.len();
        let mut i: usize = 0;
        while i < n
            invariant
                n == bytes@.len(),
                total == old(mem)@.len(),
                i <= n,
                self.ptr + n <= old(mem)@.len(),
                mem@.len() == old(mem)@.len(),
                forall|k: int|
                    0 <= k < mem@.len() ==> #[trigger] mem@[k] == if self.ptr <= k < self.ptr + i {
                        bytes@[k - self.ptr]
                    } else {
                        old(mem)@[k]
                    },
            decreases n - i,
        {
            mem.set_byte(self.ptr + i, bytes[i]);
            i = i + 1;
        }
        assert(mem@ =~= write_bytes(old(mem)@, self.ptr as int, bytes@));
    }

    /// Copies `size` bytes from the address `source` to this address.
    pub fn copy_memory(&self, mem: &mut Memory, source: usize, size: usize)
        requires
            source + size <= old(mem)@.len(),
            self.addr() + size <= old(mem)@.len(),
        ensures
            final(mem)@ == write_bytes(
                old(mem)@,
                self.addr(),
                old(mem)@.subrange(source as int, source + size),
            ),
    {
        let bytes = Address::new(source).read_memory(mem, size);
        self.write_memory(mem, &bytes);
    }

    /// Writes `size` copies of `byte` from this address on.
    pub fn fill_memory(&self, mem: &mut Memory, byte: u8, size: usize)
        requires
            self.addr() + size <= old(mem)@.len(),
        ensures
            final(mem)@ == write_bytes(old(mem)@, self.addr(), Seq::new(size as nat, |i: int| byte)),
    {
        let mut bytes: Vec<u8> = Vec::new();
        let mut i: usize = 0;
        while i < size
            invariant
                i <= size,
                bytes@ == Seq::new(i as nat, |k: int| byte),
            decreases size - i,
        {
            bytes.push(byte);
            i = i + 1;
            assert(bytes@ =~= Seq::new(i as nat, |k: int| byte));
        }
        self.write_memory(mem, &bytes);
    }

    /// Stores `data` at this address.
    pub fn write<T: PlainValue>(&self, mem: &mut Memory, data: T)
        requires
            self.addr() + T::spec_size() <= old(mem)@.len(),
        ensures
            final(mem)@ == write_bytes(old(mem)@, self.addr(), data.spec_to_bytes()),
    {
        let bytes = data.to_bytes();
        self.write_memory(mem, &bytes);
    }

    /// The value stored at this address.
    pub fn read<T: PlainValue>(&self, mem: &Memory) -> (r: T)
        requires
            self.addr() + T::spec_size() <= mem@.len(),
        ensures
            r == T::spec_from_bytes(mem@.subrange(self.addr(), self.addr() + T::spec_size())),
    {
        let bytes = self.read_memory(mem, T::size());
        T::from_bytes(bytes.as_slice())
    }
    /// The base from which pointer reads start: the pointer value stored at
    /// this address.
    pub open spec fn base_in(&self, m: Seq<u8>) -> int {
        pointer_at(m, self.addr())
    }

    /// The memory holds everything that following `offs` from this address
    /// reads, and the final target has room for `size` bytes.
    pub open spec fn chain_ready(&self, m: Seq<u8>, offs: Seq<usize>, size: nat) -> bool {
        &&& self.addr() + 8 <= m.len()
        &&& chain_valid(m, self.base_in(m), offs, size)
    }

    /// Writes `value` at the pointer stored at this address plus `offset`.
    /// Returns false, and touches nothing, when this address is null.
    pub fn write_ptr_val<T: PlainValue>(&self, mem: &mut Memory, offset: usize, value: T) -> (r: bool)
        requires
            self.addr() != 0 ==> self.chain_ready(old(mem)@, seq![offset], T::spec_size()),
        ensures
            r == (self.addr() != 0),
            r ==> final(mem)@ == write_bytes(
                old(mem)@,
                self.base_in(old(mem)@) + offset,
                value.spec_to_bytes(),
            ),
            !r ==> final(mem)@ == old(mem)@,
    {
        if self.ptr == 0 {
            return false;
        }
        proof {
            lemma_chain_base_in_bounds(mem@, self.base_in(mem@), seq![offset], T::spec_size());
        }
        let base = read_pointer(mem, self.ptr);
        Address::new(base + offset).write(mem, value);
        true
    }

    /// The value at the pointer stored at this address plus `offset`, or
    /// `None` when this address is null.
    pub fn read_ptr_val<T: PlainValue>(&self, mem: &Memory, offset: usize) -> (r: Option<T>)
        requires
            self.addr() != 0 ==> self.chain_ready(mem@, seq![offset], T::spec_size()),
        ensures
            r == if self.addr() != 0 {
                Some(
                    T::spec_from_bytes(
                        mem@.subrange(
                            self.base_in(mem@) + offset,
                            self.base_in(mem@) + offset + T::spec_size(),
                        ),
                    ),
                )
            } else {
                None::<T>
            },
    {
        if self.ptr == 0 {
            return None;
        }
        proof {
            lemma_chain_base_in_bounds(mem@, self.base_in(mem@), seq![offset], T::spec_size());
        }
        let base = read_pointer(mem, self.ptr);
        Some(Address::new(base + offset).read(mem))
    }

    /// Follows `offsets` from the pointer stored at this address and writes
    /// `value` at the final target. Returns false, and touches nothing, when
    /// this address is null or `offsets` is empty.
    pub fn write_multilevel_ptr_val<T: PlainValue>(
        &self,
        mem: &mut Memory,
        offsets: &Vec<usize>,
        value: T,
    ) -> (r: bool)
        requires
            self.addr() != 0 && offsets@.len() > 0 ==> self.chain_ready(
                old(mem)@,
                offsets@,
                T::spec_size(),
            ),
        ensures
            r == (self.addr() != 0 && offsets@.len() > 0),
            r ==> final(mem)@ == write_bytes(
                old(mem)@,
                chain_target(old(mem)@, self.base_in(old(mem)@), offsets@),
                value.spec_to_bytes(),
            ),
            !r ==> final(mem)@ == old(mem)@,
    {
        if self.ptr == 0 || offsets.len() == 0 {
            return false;
        }
        proof {
            lemma_chain_base_in_bounds(mem@, self.base_in(mem@), offsets@, T::spec_size());
        }
        let base = read_pointer(mem, self.ptr);
        let target = resolve_chain(mem, base, offsets, T::size());
        Address::new(target).write(mem, value);
        true
    }

    /// Follows `offsets` from the pointer stored at this address and reads the
    /// value at the final target; `None` when this address is null or
    /// `offsets` is empty.
    pub fn read_multilevel_ptr_val<T: PlainValue>(&self, mem: &Memory, offsets: &Vec<usize>) -> (r:
        Option<T>)
        requires
            self.addr() != 0 && offsets@.len() > 0 ==> self.chain_ready(
                mem@,
                offsets@,
                T::spec_size(),
            ),
        ensures
            r == if self.addr() != 0 && offsets@.len() > 0 {
                let t = chain_target(mem@, self.base_in(mem@), offsets@);
                Some(T::spec_from_bytes(mem@.subrange(t, t + T::spec_size())))
            } else {
                None::<T>
            },
    {
        if self.ptr == 0 || offsets.len() == 0 {
            return None;
        }
        proof {
            lemma_chain_base_in_bounds(mem@, self.base_in(mem@), offsets@, T::spec_size());
        }
        let base = read_pointer(mem, self.ptr);
        let target = resolve_chain(mem, base, offsets, T::size());
        Some(Address::new(target).read(mem))
    }
}

} // verus!
