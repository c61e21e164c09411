//! The guest-physical memory map: an ordered list of non-overlapping
//! ranges remapping guest-physical addresses to connector-physical ones.

use vstd::prelude::*;
use crate::types::Error;

verus! {

/// One mapping entry: guest range `[base, base + size)` maps to the
/// connector range `[output, output + size)`.
#[derive(Clone, Copy, Debug, PartialEq, Eq, Structural)]
pub struct MemoryMapEntry {
    /// First guest-physical address of the range.
    pub base: u64,
    /// Length of the range in bytes.
    pub size: u64,
    /// First connector-physical address the range maps to.
    pub output: u64,
}

/// Where the map sends one guest address: the first (and, the ranges
/// being disjoint and sorted, the only) entry holding it.
pub open spec fn spec_map_addr(entries: Seq<MemoryMapEntry>, a: u64) -> Option<u64>
    decreases entries.len(),
{
    if entries.len() == 0 {
        None
    } else if entries[0].base <= a < entries[0].base + entries[0].size {
        Some((entries[0].output + (a - entries[0].base)) as u64)
    } else {
        spec_map_addr(entries.skip(1), a)
    }
}

/// An ordered list of non-overlapping guest-to-connector ranges.
pub struct MemoryMap {
    entries: Vec<MemoryMapEntry>,
}

impl MemoryMap {
    /// The entries in guest order.
    pub closed spec fn spec_entries(&self) -> Seq<MemoryMapEntry> {
        self.entries@
    }

    /// Entries are non-empty, sorted by guest base, non-overlapping,
    /// and arithmetic on them never wraps.
    pub open spec fn wf(&self) -> bool {
        &&& forall|i: int|
            0 <= i < self.spec_entries().len() ==> {
                &&& (#[trigger] self.spec_entries()[i]).size > 0
                &&& self.spec_entries()[i].base + self.spec_entries()[i].size <= u64::MAX
                &&& self.spec_entries()[i].output + self.spec_entries()[i].size <= u64::MAX
            }
        &&& forall|i: int|
            0 < i < self.spec_entries().len() ==> (#[trigger] self.spec_entries()[i]).base
                >= self.spec_entries()[i - 1].base + self.spec_entries()[i - 1].size
    }

    /// An empty map.
    pub fn new() -> (r: MemoryMap)
        ensures
            r.wf(),
            r.spec_entries().len() == 0,
    {
        MemoryMap { entries: Vec::new() }
    }

    /// Appends a range mapping `[base, base + size)` to
    /// `[output, output + size)`. Ranges arrive in guest order; a range
    /// that continues the previous one on both sides is merged into it.
    /// Empty, wrapping or out-of-order ranges are rejected.
    #[verifier::rlimit(100)]
    #[verifier::spinoff_prover]
    pub fn push(&mut self, base: u64, size: u64, output: u64) -> (r: Result<(), Error>)
        requires
            old(self).wf(),
        ensures
            final(self).wf(),
            r is Err ==> final(self).spec_entries() == old(self).spec_entries(),
            r is Ok ==> (forall|a: u64|
                #[trigger] spec_map_addr(final(self).spec_entries(), a) == if base <= a < base
                    + size {
                    Some((output + (a - base)) as u64)
                } else {
                    spec_map_addr(old(self).spec_entries(), a)
                }),
            r is Ok <==> (size > 0 && base + size <= u64::MAX && output + size <= u64::MAX && (
            old(self).spec_entries().len() > 0 ==> base >= old(self).spec_entries().last().base
                + old(self).spec_entries().last().size)),
    {
        if size == 0 || base > u64::MAX - size || output > u64::MAX - size {
            return Err(Error::OutOfBounds);
        }
        let n = self.entries.len();
        if n > 0 {
            let last = self.entries[n - 1];
            if base < last.base + last.size {
                return Err(Error::OutOfBounds);
            }
            if base == last.base + last.size && output == last.output + last.size {
                // Contiguous on both sides: coalesce.
                let merged = MemoryMapEntry { base: last.base, size: last.size + size, output: last.output };
                let ghost pre = self.entries@;
                self.entries[n - 1] = merged;
                proof {
                    assert forall|k: int|
                        0 <= k < pre.len() - 1 implies (#[trigger] pre[k]).base + pre[k].size
                        <= pre.last().base by {
                        assert(pre[k] == old(self).spec_entries()[k]);
                        lemma_entries_ordered(old(self).spec_entries(), k, pre.len() - 1);
                        assert(pre.last().base >= pre[k].base + pre[k].size);
                    }
                    lemma_map_addr_update_last(pre, self.entries@, base, size, output);
                }
                return Ok(());
            }
        }
        let ghost pre = self.entries@;
        self.entries.push(MemoryMapEntry { base, size, output });
        proof {
            assert forall|k: int|
                0 <= k < pre.len() implies (#[trigger] pre[k]).base + pre[k].size <= base by {
                assert(pre[k] == old(self).spec_entries()[k]);
                if k < pre.len() - 1 {
                    lemma_entries_ordered(old(self).spec_entries(), k, pre.len() - 1);
                }
            }
            lemma_map_addr_push(pre, base, size, output);
            assert forall|k: int|
                0 < k < self.spec_entries().len() implies (#[trigger] self.spec_entries()[
                k]).base >= self.spec_entries()[k - 1].base + self.spec_entries()[k
                - 1].size by {
                if k < pre.len() {
                    assert(old(self).spec_entries()[k].base >= old(self).spec_entries()[k
                        - 1].base + old(self).spec_entries()[k - 1].size);
                }
            }
        }
        Ok(())
    }

    /// Where one guest address lands, if it is mapped.
    pub fn map_address(&self, a: u64) -> (r: Option<u64>)
        requires
            self.wf(),
        ensures
            r == spec_map_addr(self.spec_entries(), a),
    {
        let n = self.entries.len();
        proof {
            assert(self.entries@.skip(0) =~= self.entries@);
        }
        let mut i: usize = 0;
        while i < n
            invariant
                self.wf(),
                n == self.entries@.len(),
                i <= n,
                spec_map_addr(self.entries@, a) == spec_map_addr(self.entries@.skip(i as int), a),
            decreases n - i,
        {
            proof {
                assert(self.entries@.skip(i as int)[0] == self.entries@[i as int]);
                assert(self.entries@.skip(i as int).skip(1) =~= self.entries@.skip(i + 1));
            }
            let e = self.entries[i];
            if e.base <= a && a - e.base < e.size {
                return Some(e.output + (a - e.base));
            }
            i = i + 1;
        }
        proof {
            assert(self.entries@.skip(n as int) =~= Seq::<MemoryMapEntry>::empty());
        }
        None
    }

    /// Where a whole guest span lands when it lies within one mapped
    /// range; spans outside or straddling ranges are rejected, as the
    /// map's failure sink records them.
    pub fn map_span(&self, a: u64, len: u64) -> (r: Option<u64>)
        requires
            self.wf(),
            len > 0,
            a + len <= u64::MAX,
        ensures
            r matches Some(out) ==> forall|t: u64|
                t < len ==> #[trigger] spec_map_addr(self.spec_entries(), (a + t) as u64)
                    == Some(((out + t) as u64)),
            r is None ==> spec_map_addr(self.spec_entries(), a) is None || spec_map_addr(
                self.spec_entries(),
                (a + (len - 1)) as u64,
            ) is None || (forall|i: int|
                0 <= i < self.spec_entries().len()
                    ==> !((#[trigger] self.spec_entries()[i]).base <= a && a + len
                    <= self.spec_entries()[i].base + self.spec_entries()[i].size)),
    {
        let n = self.entries.len();
        let mut i: usize = 0;
        while i < n
            invariant
                self.wf(),
                n == self.entries@.len(),
                i <= n,
                len > 0,
                a + len <= u64::MAX,
                forall|k: int|
                    0 <= k < i ==> !((#[trigger] self.entries@[k]).base <= a && a + len
                        <= self.entries@[k].base + self.entries@[k].size),
            decreases n - i,
        {
            let e = self.entries[i];
            if e.base <= a && len <= e.size && a - e.base <= e.size - len {
                let out = e.output + (a - e.base);
                proof {
                    assert forall|t: u64| t < len implies #[trigger] spec_map_addr(
                        self.entries@,
                        (a + t) as u64,
                    ) == Some(((out + t) as u64)) by {
                        lemma_map_addr_hit(self.entries@, i as int, (a + t) as u64);
                    }
                }
                return Some(out);
            }
            i = i + 1;
        }
        None
    }

    /// Number of entries.
    pub fn entry_count(&self) -> (r: usize)
        ensures
            r == self.spec_entries().len(),
    {
        self.entries.len()
    }

    /// The entry at position `i`.
    pub fn entry_at(&self, i: usize) -> (r: MemoryMapEntry)
        requires
            i < self.spec_entries().len(),
        ensures
            r == self.spec_entries()[i as int],
    {
        self.entries[i]
    }

    /// The end of the highest mapped guest range, or zero for an empty
    /// map.
    pub fn max_address(&self) -> (r: u64)
        requires
            self.wf(),
        ensures
            r == if self.spec_entries().len() == 0 {
                0u64
            } else {
                (self.spec_entries().last().base + self.spec_entries().last().size) as u64
            },
    {
        let n = self.entries.len();
        if n == 0 {
            0
        } else {
            proof {
                assert(self.spec_entries()[n - 1] == self.entries@[n - 1]);
            }
            self.entries[n - 1].base + self.entries[n - 1].size
        }
    }
}

/// An address inside entry `i` of a well-formed map is sent by the
/// whole map to that entry's output.
proof fn lemma_map_addr_hit(entries: Seq<MemoryMapEntry>, i: int, a: u64)
    requires
        forall|k: int|
            0 <= k < entries.len() ==> {
                &&& (#[trigger] entries[k]).size > 0
                &&& entries[k].base + entries[k].size <= u64::MAX
                &&& entries[k].output + entries[k].size <= u64::MAX
            },
        forall|k: int|
            0 < k < entries.len() ==> (#[trigger] entries[k]).base >= entries[k - 1].base
                + entries[k - 1].size,
        0 <= i < entries.len(),
        entries[i].base <= a < entries[i].base + entries[i].size,
    ensures
        spec_map_addr(entries, a) == Some(
            ((entries[i].output + (a - entries[i].base)) as u64),
        ),
    decreases i,
{
    if i == 0 {
    } else {
        assert(entries[0].base + entries[0].size <= entries[i].base) by {
            lemma_entries_ordered(entries, 0, i);
        }
        assert(entries.skip(1)[i - 1] == entries[i]);
        assert forall|k: int|
            0 < k < entries.skip(1).len() implies (#[trigger] entries.skip(1)[k]).base
            >= entries.skip(1)[k - 1].base + entries.skip(1)[k - 1].size by {
            assert(entries.skip(1)[k] == entries[k + 1]);
            assert(entries.skip(1)[k - 1] == entries[k]);
        }
        assert forall|k: int|
            0 <= k < entries.skip(1).len() implies {
                &&& (#[trigger] entries.skip(1)[k]).size > 0
                &&& entries.skip(1)[k].base + entries.skip(1)[k].size <= u64::MAX
                &&& entries.skip(1)[k].output + entries.skip(1)[k].size <= u64::MAX
            } by {
            assert(entries.skip(1)[k] == entries[k + 1]);
        }
        lemma_map_addr_hit(entries.skip(1), i - 1, a);
    }
}

/// Entry bases grow with the index in a well-formed map.
proof fn lemma_entries_ordered(entries: Seq<MemoryMapEntry>, i: int, j: int)
    requires
        forall|k: int|
            0 <= k < entries.len() ==> (#[trigger] entries[k]).size > 0,
        forall|k: int|
            0 < k < entries.len() ==> (#[trigger] entries[k]).base >= entries[k - 1].base
                + entries[k - 1].size,
        0 <= i < j < entries.len(),
    ensures
        entries[i].base + entries[i].size <= entries[j].base,
    decreases j - i,
{
    if i + 1 < j {
        lemma_entries_ordered(entries, i + 1, j);
    }
}

/// Appending an entry past the end of a map extends its lookup by the
/// new range.
proof fn lemma_map_addr_push(pre: Seq<MemoryMapEntry>, base: u64, size: u64, output: u64)
    requires
        size > 0,
        base + size <= u64::MAX,
        output + size <= u64::MAX,
        forall|k: int| 0 <= k < pre.len() ==> (#[trigger] pre[k]).base + pre[k].size <= base,
    ensures
        (forall|a: u64|
            #[trigger] spec_map_addr(pre.push(MemoryMapEntry { base, size, output }), a)
                == if base <= a < base + size {
                Some(((output + (a - base)) as u64))
            } else {
                spec_map_addr(pre, a)
            }),
    decreases pre.len(),
{
    let e = MemoryMapEntry { base, size, output };
    if pre.len() == 0 {
        assert forall|a: u64|
            #[trigger] spec_map_addr(pre.push(e), a) == if base <= a < base + size {
                Some(((output + (a - base)) as u64))
            } else {
                spec_map_addr(pre, a)
            } by {
            assert(pre.push(e)[0] == e);
            assert(pre.push(e).skip(1) =~= Seq::<MemoryMapEntry>::empty());
            if base <= a < base + size {
                assert(spec_map_addr(pre.push(e), a) == Some(((output + (a - base)) as u64)));
            } else {
                assert(spec_map_addr(pre.push(e), a) == spec_map_addr(
                    pre.push(e).skip(1),
                    a,
                ));
                assert(spec_map_addr(pre.push(e).skip(1), a) is None);
                assert(spec_map_addr(pre, a) is None);
            }
        }
    } else {
        assert forall|k: int|
            0 <= k < pre.skip(1).len() implies (#[trigger] pre.skip(1)[k]).base + pre.skip(
            1,
        )[k].size <= base by {
            assert(pre.skip(1)[k] == pre[k + 1]);
        }
        lemma_map_addr_push(pre.skip(1), base, size, output);
        assert(pre.push(e).skip(1) =~= pre.skip(1).push(e));
        assert forall|a: u64|
            #[trigger] spec_map_addr(pre.push(e), a) == if base <= a < base + size {
                Some(((output + (a - base)) as u64))
            } else {
                spec_map_addr(pre, a)
            } by {
            assert(pre.push(e)[0] == pre[0]);
            assert(pre[0].base + pre[0].size <= base);
            if pre[0].base <= a < pre[0].base + pre[0].size {
            } else {
                assert(spec_map_addr(pre.push(e), a) == spec_map_addr(
                    pre.push(e).skip(1),
                    a,
                ));
                assert(spec_map_addr(pre.push(e).skip(1), a) == spec_map_addr(
                    pre.skip(1).push(e),
                    a,
                ));
                assert(spec_map_addr(pre, a) == spec_map_addr(pre.skip(1), a));
            }
        }
    }
}

/// Growing the last entry by a contiguous tail extends the lookup by
/// the tail range.
proof fn lemma_map_addr_update_last(
    pre: Seq<MemoryMapEntry>,
    post: Seq<MemoryMapEntry>,
    base: u64,
    size: u64,
    output: u64,
)
    requires
        pre.len() > 0,
        post.len() == pre.len(),
        base == pre.last().base + pre.last().size,
        output == pre.last().output + pre.last().size,
        base + size <= u64::MAX,
        output + size <= u64::MAX,
        forall|k: int|
            0 <= k < pre.len() - 1 ==> (#[trigger] pre[k]).base + pre[k].size
                <= pre.last().base,
        post.last() == (MemoryMapEntry {
            base: pre.last().base,
            size: (pre.last().size + size) as u64,
            output: pre.last().output,
        }),
        forall|k: int| 0 <= k < pre.len() - 1 ==> #[trigger] post[k] == pre[k],
    ensures
        (forall|a: u64|
            #[trigger] spec_map_addr(post, a) == if base <= a < base + size {
                Some(((output + (a - base)) as u64))
            } else {
                spec_map_addr(pre, a)
            }),
    decreases pre.len(),
{
    if pre.len() == 1 {
        assert forall|a: u64|
            #[trigger] spec_map_addr(post, a) == if base <= a < base + size {
                Some(((output + (a - base)) as u64))
            } else {
                spec_map_addr(pre, a)
            } by {
            assert(post[0] == post.last());
            assert(pre[0] == pre.last());
            assert(post.skip(1) =~= Seq::<MemoryMapEntry>::empty());
            assert(pre.skip(1) =~= Seq::<MemoryMapEntry>::empty());
        }
    } else {
        assert(pre.skip(1).last() == pre.last());
        assert(post.skip(1).last() == post.last());
        assert forall|k: int| 0 <= k < pre.skip(1).len() - 1 implies #[trigger] post.skip(1)[k]
            == pre.skip(1)[k] by {
            assert(post.skip(1)[k] == post[k + 1]);
            assert(pre.skip(1)[k] == pre[k + 1]);
        }
        assert forall|k: int|
            0 <= k < pre.skip(1).len() - 1 implies (#[trigger] pre.skip(1)[k]).base + pre.skip(
            1,
        )[k].size <= pre.skip(1).last().base by {
            assert(pre.skip(1)[k] == pre[k + 1]);
        }
        lemma_map_addr_update_last(pre.skip(1), post.skip(1), base, size, output);
        assert forall|a: u64|
            #[trigger] spec_map_addr(post, a) == if base <= a < base + size {
                Some(((output + (a - base)) as u64))
            } else {
                spec_map_addr(pre, a)
            } by {
            assert(post[0] == pre[0]);
            assert(pre[0].base + pre[0].size <= pre.last().base);
            if pre[0].base <= a < pre[0].base + pre[0].size {
            } else {
                assert(spec_map_addr(post, a) == spec_map_addr(post.skip(1), a));
                assert(spec_map_addr(pre, a) == spec_map_addr(pre.skip(1), a));
            }
        }
    }
}

} // verus!
