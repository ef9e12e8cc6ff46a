use crate::address::Address;
use crate::memory::{write_bytes, Memory};
use crate::value::PlainValue;
use vstd::prelude::*;

verus! {

/// A modification of memory that can be applied and undone.
///
/// Construction captures the content it replaces; `edit` writes the
/// replacement payload and `revert` writes the captured one back. Both are
/// unconditional writes, so any run of them leaves the payload of the last
/// call in place.
pub trait MemoryEdit: Sized {
    /// Where the payloads are written.
    spec fn target(&self) -> nat;

    /// What `edit` writes.
    spec fn replacement(&self) -> Seq<u8>;

    /// What `revert` writes: the content found at construction.
    spec fn retained(&self) -> Seq<u8>;

    /// The two payloads have the same length.
    spec fn well_formed(&self) -> bool;

    proof fn lemma_payload_lengths(&self)
        requires
            self.well_formed(),
        ensures
            self.retained().len() == self.replacement().len(),
    ;

    fn edit(&mut self, mem: &mut Memory)
        requires
            old(self).well_formed(),
            old(self).target() + old(self).replacement().len() <= old(mem)@.len(),
        ensures
            *final(self) == *old(self),
            final(mem)@ == write_bytes(old(mem)@, old(self).target() as int, old(self).replacement()),
    ;

    fn revert(&mut self, mem: &mut Memory)
        requires
            old(self).well_formed(),
            old(self).target() + old(self).replacement().len() <= old(mem)@.len(),
        ensures
            *final(self) == *old(self),
            final(mem)@ == write_bytes(old(mem)@, old(self).target() as int, old(self).retained()),
    ;
}

/// Replaces a run of bytes.
pub struct MemoryPatch {
    ptr: Address,
    replace_bytes: Vec<u8>,
    retain_bytes: Vec<u8>,
}

/// Replaces one value of a plain type.
pub struct MemoryDataEdit<T: PlainValue> {
    ptr: Address,
    replace_data: T,
    retain_data: T,
}

impl MemoryPatch {
    /// An edit that writes `bytes` at `ptr`, capturing the bytes now there.
    pub fn new(ptr: Address, bytes: Vec<u8>, mem: &Memory) -> (r: MemoryPatch)
        requires
            ptr.addr() + bytes@.len() <= mem@.len(),
        ensures
            r.well_formed(),
            r.target() == ptr.addr(),
            r.replacement() == bytes@,
            r.retained() == mem@.subrange(ptr.addr() as int, ptr.addr() + bytes@.len()),
    {
        proof {
            ptr.lemma_addr_range();
        }
        let retain_bytes = ptr.read_memory(mem, bytes.len());
        MemoryPatch { ptr, replace_bytes: bytes, retain_bytes }
    }
}

impl MemoryEdit for MemoryPatch {
    closed spec fn target(&self) -> nat {
        self.ptr.addr() as nat
    }

    closed spec fn replacement(&self) -> Seq<u8> {
        self.replace_bytes@
    }

    closed spec fn retained(&self) -> Seq<u8> {
        self.retain_bytes@
    }

    closed spec fn well_formed(&self) -> bool {
        self.retain_bytes@.len() == self.replace_bytes@.len()
    }

    proof fn lemma_payload_lengths(&self) {
    }

    fn edit(&mut self, mem: &mut Memory) {
        proof {
            self.ptr.lemma_addr_range();
        }
        self.ptr.write_memory(mem, &self.replace_bytes);
    }

    fn revert(&mut self, mem: &mut Memory) {
        proof {
            self.ptr.lemma_addr_range();
        }
        self.ptr.write_memory(mem, &self.retain_bytes);
    }
}

impl<T: PlainValue> MemoryDataEdit<T> {
    /// An edit that stores `data` at `ptr`, capturing the value now there.
    pub fn new(ptr: Address, data: T, mem: &Memory) -> (r: MemoryDataEdit<T>)
        requires
            ptr.addr() + T::spec_size() <= mem@.len(),
        ensures
            r.well_formed(),
            r.target() == ptr.addr(),
            r.replacement() == data.spec_to_bytes(),
            r.retained() == mem@.subrange(ptr.addr() as int, ptr.addr() + T::spec_size()),
    {
        proof {
            ptr.lemma_addr_range();
        }
        let retain_data: T = ptr.read(mem);
        proof {
            T::lemma_bytes_round_trip(
                mem@.subrange(ptr.addr() as int, ptr.addr() + T::spec_size()),
            );
            T::lemma_value_round_trip(data);
        }
        MemoryDataEdit { ptr, replace_data: data, retain_data }
    }
}

impl<T: PlainValue> MemoryEdit for MemoryDataEdit<T> {
    closed spec fn target(&self) -> nat {
        self.ptr.addr() as nat
    }

    closed spec fn replacement(&self) -> Seq<u8> {
        self.replace_data.spec_to_bytes()
    }

    closed spec fn retained(&self) -> Seq<u8> {
        self.retain_data.spec_to_bytes()
    }

    closed spec fn well_formed(&self) -> bool {
        &&& self.replace_data.spec_to_bytes().len() == T::spec_size()
        &&& self.retain_data.spec_to_bytes().len() == T::spec_size()
    }

    proof fn lemma_payload_lengths(&self) {
    }

    fn edit(&mut self, mem: &mut Memory) {
        proof {
            self.ptr.lemma_addr_range();
        }
        self.ptr.write(mem, self.replace_data);
    }

    fn revert(&mut self, mem: &mut Memory) {
        proof {
            self.ptr.lemma_addr_range();
        }
        self.ptr.write(mem, self.retain_data);
    }
}

/// The memory after applying, to `m`, one `edit` (true) or `revert` (false)
/// of `e` for each entry of `ops`, in order.
pub open spec fn run_edits<E: MemoryEdit>(e: E, m: Seq<u8>, ops: Seq<bool>) -> Seq<u8>
    decreases ops.len(),
{
    if ops.len() == 0 {
        m
    } else {
        write_bytes(
            run_edits(e, m, ops.drop_last()),
            e.target() as int,
            if ops.last() {
                e.replacement()
            } else {
                e.retained()
            },
        )
    }
}

/// However many `edit`s and `revert`s are made, in any order, the target holds
/// the replacement payload if the last call was `edit` and the captured
/// payload if it was `revert`; every other byte keeps its value.
pub proof fn lemma_edit_history<E: MemoryEdit>(e: E, m: Seq<u8>, ops: Seq<bool>)
    requires
        e.well_formed(),
        e.target() + e.replacement().len() <= m.len(),
        ops.len() > 0,
    ensures
        run_edits(e, m, ops).len() == m.len(),
        run_edits(e, m, ops).subrange(
            e.target() as int,
            (e.target() + e.replacement().len()) as int,
        ) == if ops.last() {
            e.replacement()
        } else {
            e.retained()
        },
        forall|k: int|
            0 <= k < m.len() && !(e.target() <= k < e.target() + e.replacement().len())
                ==> #[trigger] run_edits(e, m, ops)[k] == m[k],
    decreases ops.len(),
{
    e.lemma_payload_lengths();
    let t = e.target() as int;
    let n = e.replacement().len() as int;
    let prev = run_edits(e, m, ops.drop_last());
    if ops.len() > 1 {
        lemma_edit_history(e, m, ops.drop_last());
    }
    let payload = if ops.last() {
        e.replacement()
    } else {
        e.retained()
    };
    let cur = write_bytes(prev, t, payload);
    assert(prev.len() == m.len());
    assert(cur.subrange(t, t + n) =~= payload);
    assert forall|k: int|
        0 <= k < m.len() && !(t <= k < t + n) implies #[trigger] cur[k] == m[k] by {
        if k < t {
            assert(cur[k] == prev[k]);
        } else {
            assert(cur[k] == prev[k]);
        }
    }
}

} // verus!
