//! The physical connector interface: batched raw reads and writes of
//! physical bytes, the `ToDo`/`Done` work tokens that thread requests
//! through the pipeline, and a buffer-backed connector.

use vstd::prelude::*;
use crate::buffer::{spec_read_range, spec_write_bytes, subvec};
use crate::types::{Error, PhysicalAddress};

verus! {

/// One physical read request: fill `buf` from the bytes at `addr`.
pub struct PhysicalReadData {
    /// Where to read.
    pub addr: PhysicalAddress,
    /// The destination buffer; its length is the read length.
    pub buf: Vec<u8>,
}

/// One physical write request: store `buf` at `addr`.
pub struct PhysicalWriteData {
    /// Where to write.
    pub addr: PhysicalAddress,
    /// The bytes to store.
    pub buf: Vec<u8>,
}

/// A work token of the read pipeline. `ToDo` items are still mutable work;
/// `Done` items are finalised and must be preserved, but not re-processed,
/// by downstream stages.
pub enum PhysicalReadType {
    /// A request that still has to be satisfied.
    ToDo(PhysicalReadData),
    /// A finished request: either the filled buffer or the failure.
    Done(Result<PhysicalReadData, Error>),
}

/// Size and writability of a connector's physical range.
#[derive(Clone, Copy, Debug, PartialEq, Eq, Structural)]
pub struct PhysicalMemoryMetadata {
    /// Number of addressable bytes.
    pub size: usize,
    /// Whether writes are refused.
    pub readonly: bool,
}

/// The read request `d` lies within the physical range of `m`.
pub open spec fn read_in_bounds(m: Seq<u8>, d: PhysicalReadData) -> bool {
    d.addr.address.0 + d.buf@.len() <= m.len()
}

/// The write request `d` lies within the physical range of `m`.
pub open spec fn write_in_bounds(m: Seq<u8>, d: PhysicalWriteData) -> bool {
    d.addr.address.0 + d.buf@.len() <= m.len()
}

/// The read-request records of a batch: address and length of each.
pub open spec fn read_log(data: Seq<PhysicalReadData>) -> Seq<(u64, int)> {
    data.map_values(|d: PhysicalReadData| (d.addr.address.0, d.buf@.len() as int))
}

/// The memory after the first `n` writes of `data` are applied in order.
pub open spec fn spec_write_list(m: Seq<u8>, data: Seq<PhysicalWriteData>, n: int) -> Seq<u8>
    decreases n,
{
    if n <= 0 {
        m
    } else {
        spec_write_bytes(
            spec_write_list(m, data, n - 1),
            data[n - 1].addr.address.0 as int,
            data[n - 1].buf@,
        )
    }
}

/// Raw physical byte access, batched: the connector under the whole
/// pipeline. A connector denotes a byte sequence `mem()`; `ok_on(a, l)`
/// says on which ranges it owes success (an unreliable transport may owe
/// none).
pub trait PhysicalMemory: Sized {
    /// The physical bytes the connector exposes.
    spec fn mem(&self) -> Seq<u8>;

    /// The ranges on which reads and writes are guaranteed to succeed.
    spec fn ok_on(&self, addr: int, len: int) -> bool;

    /// Whether the connector refuses writes.
    spec fn spec_readonly(&self) -> bool;

    /// The log of read requests the connector has been handed so far,
    /// in order: the traffic a cache in front of it saves is visible
    /// here.
    spec fn spec_reads(&self) -> Seq<(u64, int)>;

    /// Fills every request buffer from the physical bytes at its address.
    /// On failure the whole batch fails; addresses and buffer lengths are
    /// preserved either way.
    fn phys_read_raw_list(&mut self, data: &mut Vec<PhysicalReadData>) -> (r: Result<(), Error>)
        ensures
            final(self).mem() == old(self).mem(),
            forall|a: int, l: int| final(self).ok_on(a, l) == old(self).ok_on(a, l),
            final(self).spec_readonly() == old(self).spec_readonly(),
            final(self).spec_reads() == old(self).spec_reads() + read_log(old(data)@),
            final(data)@.len() == old(data)@.len(),
            forall|i: int|
                0 <= i < old(data)@.len() ==> (#[trigger] final(data)@[i]).addr == old(
                    data,
                )@[i].addr && final(data)@[i].buf@.len() == old(data)@[i].buf@.len(),
            r is Ok ==> forall|i: int|
                0 <= i < old(data)@.len() ==> read_in_bounds(old(self).mem(), old(data)@[i])
                    && (#[trigger] final(data)@[i]).buf@ == spec_read_range(
                    old(self).mem(),
                    old(data)@[i].addr.address.0 as int,
                    old(data)@[i].buf@.len() as int,
                ),
            (forall|i: int|
                0 <= i < old(data)@.len() ==> old(self).ok_on(
                    (#[trigger] old(data)@[i]).addr.address.0 as int,
                    old(data)@[i].buf@.len() as int,
                )) ==> r is Ok,
    ;

    /// Stores every request buffer at its address, in list order. On
    /// failure nothing is changed.
    fn phys_write_raw_list(&mut self, data: &Vec<PhysicalWriteData>) -> (r: Result<(), Error>)
        ensures
            forall|a: int, l: int| final(self).ok_on(a, l) == old(self).ok_on(a, l),
            final(self).spec_readonly() == old(self).spec_readonly(),
            final(self).spec_reads() == old(self).spec_reads(),
            r is Ok ==> (forall|i: int|
                0 <= i < data@.len() ==> write_in_bounds(old(self).mem(), #[trigger] data@[i])),
            r is Ok ==> final(self).mem() == spec_write_list(
                old(self).mem(),
                data@,
                data@.len() as int,
            ),
            r is Err ==> final(self).mem() == old(self).mem(),
            (forall|i: int|
                0 <= i < data@.len() ==> old(self).ok_on(
                    (#[trigger] data@[i]).addr.address.0 as int,
                    data@[i].buf@.len() as int,
                )) ==> r is Ok,
    ;

    /// Size and writability of the physical range.
    fn metadata(&self) -> (r: PhysicalMemoryMetadata)
        ensures
            r.size == self.mem().len(),
            r.readonly == self.spec_readonly(),
    ;
}

/// A connector is fully available when it owes success on every range
/// that lies within its physical bytes.
pub open spec fn fully_available<T: PhysicalMemory>(t: &T) -> bool {
    forall|a: int, l: int| 0 <= a && 0 <= l && a + l <= t.mem().len() ==> t.ok_on(a, l)
}

/// Full availability depends only on the connector's range and its
/// owed-success predicate, both of which every trait method preserves.
pub proof fn lemma_fully_available_frame<T: PhysicalMemory>(from: &T, to: &T)
    requires
        fully_available(from),
        to.mem().len() == from.mem().len(),
        forall|a: int, l: int| to.ok_on(a, l) == from.ok_on(a, l),
    ensures
        fully_available(to),
{
    assert forall|a: int, l: int|
        0 <= a && 0 <= l && a + l <= to.mem().len() implies to.ok_on(a, l) by {
        assert(from.ok_on(a, l));
    }
}

/// Reads `out.len()` bytes at `addr` into `out` through a batched
/// connector; the single-request convenience form.
pub fn phys_read_into<T: PhysicalMemory>(
    mem: &mut T,
    addr: PhysicalAddress,
    out: &mut Vec<u8>,
) -> (r: Result<(), Error>)
    ensures
        final(mem).mem() == old(mem).mem(),
        forall|a: int, l: int| final(mem).ok_on(a, l) == old(mem).ok_on(a, l),
        final(mem).spec_reads() == old(mem).spec_reads() + seq![
            (addr.address.0, old(out)@.len() as int),
        ],
        final(out)@.len() == old(out)@.len(),
        r is Ok ==> addr.address.0 + old(out)@.len() <= old(mem).mem().len() && final(out)@
            == spec_read_range(old(mem).mem(), addr.address.0 as int, old(out)@.len() as int),
        old(mem).ok_on(addr.address.0 as int, old(out)@.len() as int) ==> r is Ok,
{
    let mut taken: Vec<u8> = Vec::new();
    core::mem::swap(&mut taken, out);
    let mut list: Vec<PhysicalReadData> = Vec::new();
    list.push(PhysicalReadData { addr, buf: taken });
    let r = mem.phys_read_raw_list(&mut list);
    proof {
        assert(read_log(list@) =~= seq![(addr.address.0, old(out)@.len() as int)]);
    }
    let PhysicalReadData { addr: _, buf: got } = list.pop().unwrap();
    let mut got = got;
    core::mem::swap(&mut got, out);
    r
}

/// Writes the bytes of `data` at `addr` through a batched connector; the
/// single-request convenience form.
pub fn phys_write_from<T: PhysicalMemory>(
    mem: &mut T,
    addr: PhysicalAddress,
    data: &Vec<u8>,
) -> (r: Result<(), Error>)
    ensures
        forall|a: int, l: int| final(mem).ok_on(a, l) == old(mem).ok_on(a, l),
        final(mem).spec_reads() == old(mem).spec_reads(),
        r is Ok ==> addr.address.0 + data@.len() <= old(mem).mem().len() && final(mem).mem()
            == spec_write_bytes(old(mem).mem(), addr.address.0 as int, data@),
        r is Err ==> final(mem).mem() == old(mem).mem(),
        old(mem).ok_on(addr.address.0 as int, data@.len() as int) ==> r is Ok,
{
    let copy = subvec(data, 0, data.len());
    let mut list: Vec<PhysicalWriteData> = Vec::new();
    list.push(PhysicalWriteData { addr, buf: copy });
    let r = mem.phys_write_raw_list(&list);
    proof {
        if r is Ok {
            reveal_with_fuel(spec_write_list, 3);
            assert(data@.subrange(0, data@.len() as int) =~= data@);
            assert(spec_write_list(old(mem).mem(), list@, 1) == spec_write_bytes(
                old(mem).mem(),
                addr.address.0 as int,
                list@[0].buf@,
            ));
        }
    }
    r
}

/// A connector backed by an owned byte buffer: the whole physical range
/// is a single contiguous block, and every in-range access succeeds.
/// It keeps a tally of the read requests served, so callers can see how
/// much traffic a cache saved.
pub struct BufferMemory {
    buf: Vec<u8>,
    read_requests: u64,
    read_bytes: u64,
    reads_log: Ghost<Seq<(u64, int)>>,
}

impl BufferMemory {
    /// A connector over `size` zero bytes.
    pub fn new(size: usize) -> (r: BufferMemory)
        ensures
            r.mem() == Seq::new(size as nat, |i: int| 0u8),
    {
        BufferMemory {
            buf: crate::buffer::zero_vec(size),
            read_requests: 0,
            read_bytes: 0,
            reads_log: Ghost(Seq::empty()),
        }
    }

    /// A connector over the given bytes.
    pub fn with_bytes(buf: Vec<u8>) -> (r: BufferMemory)
        ensures
            r.mem() == buf@,
    {
        BufferMemory { buf, read_requests: 0, read_bytes: 0, reads_log: Ghost(Seq::empty()) }
    }

    /// The backing bytes.
    pub fn bytes(&self) -> (r: &Vec<u8>)
        ensures
            r@ == self.mem(),
    {
        &self.buf
    }

    /// How many read requests the connector has served so far: the
    /// executable shadow of the `spec_reads` log, saturating at the
    /// counter limit.
    pub closed spec fn spec_read_requests(&self) -> u64 {
        self.read_requests
    }

    /// How many read requests the connector has served so far.
    pub fn read_requests(&self) -> (r: u64)
        ensures
            r == self.spec_read_requests(),
    {
        self.read_requests
    }

    /// How many bytes the served read requests asked for in all.
    pub closed spec fn spec_read_bytes(&self) -> u64 {
        self.read_bytes
    }

    /// How many bytes the served read requests asked for in all.
    pub fn read_bytes(&self) -> (r: u64)
        ensures
            r == self.spec_read_bytes(),
    {
        self.read_bytes
    }
}

impl PhysicalMemory for BufferMemory {
    closed spec fn mem(&self) -> Seq<u8> {
        self.buf@
    }

    open spec fn ok_on(&self, addr: int, len: int) -> bool {
        0 <= addr && 0 <= len && addr + len <= self.mem().len()
    }

    open spec fn spec_readonly(&self) -> bool {
        false
    }

    closed spec fn spec_reads(&self) -> Seq<(u64, int)> {
        self.reads_log@
    }

    fn phys_read_raw_list(&mut self, data: &mut Vec<PhysicalReadData>) -> (r: Result<(), Error>) {
        self.reads_log = Ghost(self.reads_log@ + read_log(data@));
        let n = data.len();
        let mut i: usize = 0;
        while i < n
            invariant
                n == data@.len(),
                n == old(data)@.len(),
                i <= n,
                self.buf == old(self).buf,
                self.mem() == old(self).mem(),
                self.reads_log@ == old(self).reads_log@ + read_log(old(data)@),
                forall|k: int|
                    0 <= k < n ==> (#[trigger] data@[k]).addr == old(data)@[k].addr
                        && data@[k].buf@.len() == old(data)@[k].buf@.len(),
                forall|k: int|
                    0 <= k < i ==> read_in_bounds(self.mem(), old(data)@[k])
                        && (#[trigger] data@[k]).buf@ == spec_read_range(
                        self.mem(),
                        old(data)@[k].addr.address.0 as int,
                        old(data)@[k].buf@.len() as int,
                    ),
            decreases n - i,
        {
            let a = data[i].addr.address.0;
            let l = data[i].buf.len();
            if self.read_requests < u64::MAX {
                self.read_requests = self.read_requests + 1;
            }
            if (l as u64) < u64::MAX - self.read_bytes {
                self.read_bytes = self.read_bytes + l as u64;
            }
            if a > self.buf.len() as u64 || l as u64 > self.buf.len() as u64 - a {
                proof {
                    assert(!self.ok_on(
                        old(data)@[i as int].addr.address.0 as int,
                        old(data)@[i as int].buf@.len() as int,
                    ));
                }
                return Err(Error::OutOfBounds);
            }
            let filled = subvec(&self.buf, a as usize, l);
            data[i].buf = filled;
            i = i + 1;
        }
        Ok(())
    }

    fn phys_write_raw_list(&mut self, data: &Vec<PhysicalWriteData>) -> (r: Result<(), Error>) {
        let n = data.len();
        let mut i: usize = 0;
        // Validate every range first, so that a failing batch changes
        // nothing.
        while i < n
            invariant
                n == data@.len(),
                i <= n,
                self == old(self),
                forall|k: int| 0 <= k < i ==> write_in_bounds(self.mem(), #[trigger] data@[k]),
            decreases n - i,
        {
            let a = data[i].addr.address.0;
            let l = data[i].buf.len();
            if a > self.buf.len() as u64 || l as u64 > self.buf.len() as u64 - a {
                proof {
                    assert(!self.ok_on(
                        data@[i as int].addr.address.0 as int,
                        data@[i as int].buf@.len() as int,
                    ));
                }
                return Err(Error::OutOfBounds);
            }
            i = i + 1;
        }
        let mut i: usize = 0;
        while i < n
            invariant
                n == data@.len(),
                i <= n,
                forall|k: int| 0 <= k < n ==> write_in_bounds(old(self).mem(), #[trigger] data@[k]),
                self.mem().len() == old(self).mem().len(),
                self.mem() == spec_write_list(old(self).mem(), data@, i as int),
                self.reads_log == old(self).reads_log,
            decreases n - i,
        {
            let a64 = data[i].addr.address.0;
            let l = data[i].buf.len();
            let total = self.buf.len();
            proof {
                assert(write_in_bounds(old(self).mem(), data@[i as int]));
                assert(a64 + l <= total);
            }
            let a = a64 as usize;
            let ghost pre = self.mem();
            crate::buffer::copy_block(&mut self.buf, a, &data[i].buf, 0, l);
            proof {
                assert(data@[i as int].buf@.subrange(0, l as int) =~= data@[i as int].buf@);
                assert(self.mem() == spec_write_bytes(pre, a64 as int, data@[i as int].buf@));
            }
            i = i + 1;
        }
        Ok(())
    }

    fn metadata(&self) -> (r: PhysicalMemoryMetadata) {
        PhysicalMemoryMetadata { size: self.buf.len(), readonly: false }
    }
}

} // verus!
