use vstd::prelude::*;

verus! {

/// The byte-addressable region that every raw access goes through.
///
/// An address is an index into this region; address zero stands for the null
/// pointer. Holding a `Memory` (or a mutable reference to one) is the
/// capability that reads and writes require: nothing in the library touches
/// bytes that the caller did not hand over. The region is not synchronised:
/// callers that share one across threads must arrange that themselves.
pub struct Memory {
    bytes: Vec<u8>,
}

/// `m` with the bytes from `addr` on replaced by `b`.
pub open spec fn write_bytes(m: Seq<u8>, addr: int, b: Seq<u8>) -> Seq<u8> {
    m.subrange(0, addr) + b + m.subrange(addr + b.len(), m.len() as int)
}

impl View for Memory {
    type V = Seq<u8>;

    closed spec fn view(&self) -> Seq<u8> {
        self.bytes@
    }
}

impl Memory {
    /// A region holding exactly `bytes`, the first at address zero.
    pub fn new(bytes: Vec<u8>) -> (r: Memory)
        ensures
            r@ == bytes@,
    {
        Memory { bytes }
    }

    /// A region of `size` zero bytes.
    pub fn zeroed(size: usize) -> (r: Memory)
        ensures
            r@ == Seq::new(size as nat, |i: int| 0u8),
    {
        let mut bytes: Vec<u8> = Vec::new();
        let mut i: usize = 0;
        while i < size
            invariant
                i <= size,
                bytes@ == Seq::new(i as nat, |k: int| 0u8),
            decreases size - i,
        {
            bytes.push(0u8);
            i = i + 1;
        }
        Memory { bytes }
    }

    /// Number of addressable bytes.
    pub fn len(&self) -> (r: usize)
        ensures
            r == self@.len(),
    {
        self.bytes.len()
    }

    /// The byte at `addr`.
    pub fn byte_at(&self, addr: usize) -> (r: u8)
        requires
            addr < self@.len(),
        ensures
            r == self@[addr as int],
    {
        self.bytes[addr]
    }

    /// Overwrites the byte at `addr` with `value`.
    pub fn set_byte(&mut self, addr: usize, value: u8)
        requires
            addr < old(self)@.len(),
        ensures
            final(self)@ == old(self)@.update(addr as int, value),
    {
        self.bytes.set(addr, value);
    }

    /// A copy of every byte of the region.
    pub fn to_vec(&self) -> (r: Vec<u8>)
        ensures
            r@ == self@,
    {
        self.bytes.clone()
    }
}

} // verus!
