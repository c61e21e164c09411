//! The virtual-memory facade: composes a translator, an optional page
//! cache and a connector into one view that reads and writes virtual
//! address ranges.

use vstd::prelude::*;
use vstd::arithmetic::power2::pow2;
use crate::architecture::Architecture;
use crate::buffer::{copy_block, spec_read_range, spec_write_bytes, subvec, zero_vec};
use crate::cache::{DefaultCacheValidator, PageCache};
use crate::mmu::{spec_def_of_arch, spec_walk, WalkResult};
use crate::page_chunks::{chunk_ranges, chunks_wf};
use crate::phys_mem::{fully_available, phys_read_into, phys_write_from, PhysicalMemory};
use crate::translate::{VirtualTranslate3, Win32VirtualTranslate};
use crate::types::{spec_align_down, Address, Error, PhysicalAddress};

verus! {

/// The physical address the walk of `arch` from `dtb` over `m` gives to
/// the virtual byte `va`, when mapped.
pub open spec fn spec_virt_phys(arch: Architecture, m: Seq<u8>, dtb: u64, va: u64) -> Option<
    u64,
> {
    match spec_walk(spec_def_of_arch(arch), m, dtb, va) {
        WalkResult::Mapped(p, pg) => Some(p),
        WalkResult::NotPresent => None,
        WalkResult::OutOfBounds => None,
    }
}

/// Success of a virtual read of `len` bytes at `va` is owed when every
/// byte is mapped and the whole physical page of every byte lies within
/// the connector (the cache fills whole pages).
pub open spec fn virt_read_owed(
    arch: Architecture,
    m: Seq<u8>,
    dtb: u64,
    va: u64,
    len: int,
) -> bool {
    &&& m.len() < 0x8000_0000_0000_0000
    &&& forall|i: int|
        0 <= i < len ==> ((#[trigger] spec_virt_phys(arch, m, dtb, (va + i) as u64)) matches Some(
            p,
        ) && spec_align_down(p, 4096) + 4096 <= m.len())
}

/// The translations of all `len` bytes at `va` are pairwise distinct:
/// no two virtual bytes of the range share a physical byte.
pub open spec fn virt_range_injective(
    arch: Architecture,
    m: Seq<u8>,
    dtb: u64,
    va: u64,
    len: int,
) -> bool {
    forall|i: int, j: int|
        0 <= i < len && 0 <= j < len && i != j ==> #[trigger] spec_virt_phys(
            arch,
            m,
            dtb,
            (va + i) as u64,
        ) != #[trigger] spec_virt_phys(arch, m, dtb, (va + j) as u64) || spec_virt_phys(
            arch,
            m,
            dtb,
            (va + i) as u64,
        ) is None
}

/// Whether a cached read of the single-page span `[c.addr,
/// c.addr + c.len)` is owed success: every byte is mapped with its
/// whole physical page inside the connector.
pub open spec fn chunk_read_owed(
    arch: Architecture,
    m: Seq<u8>,
    dtb: u64,
    c: crate::page_chunks::PageChunk,
) -> bool {
    &&& m.len() < 0x8000_0000_0000_0000
    &&& forall|t: int|
        0 <= t < c.len ==> ((#[trigger] spec_virt_phys(arch, m, dtb, (c.addr + t) as u64))
            matches Some(p) && spec_align_down(p, 4096) + 4096 <= m.len())
}

/// A virtual-memory view: a connector, a page-table translator and an
/// optional physical page cache in front of the connector.
pub struct VirtualDma<T: PhysicalMemory> {
    mem: T,
    translator: Win32VirtualTranslate,
    proc_arch: Architecture,
    cache: Option<PageCache<DefaultCacheValidator>>,
}

impl<T: PhysicalMemory> VirtualDma<T> {
    /// The connector's physical bytes.
    pub closed spec fn spec_mem(&self) -> Seq<u8> {
        self.mem.mem()
    }

    /// Whether the connector owes success on a range.
    pub closed spec fn spec_ok_on(&self, a: int, l: int) -> bool {
        self.mem.ok_on(a, l)
    }

    /// The connector owes success on every in-range access.
    pub open spec fn spec_fully_available(&self) -> bool {
        forall|a: int, l: int|
            0 <= a && 0 <= l && a + l <= self.spec_mem().len() ==> self.spec_ok_on(a, l)
    }

    /// The translation base of this view.
    pub closed spec fn spec_dtb(&self) -> u64 {
        self.translator.dtb.0
    }

    /// The architecture whose walk this view translates with.
    pub closed spec fn spec_arch(&self) -> Architecture {
        self.translator.sys_arch
    }

    /// Well-formed: the cache, when present, is internally consistent
    /// and a transparent copy of the connector's bytes.
    pub closed spec fn wf(&self) -> bool {
        match self.cache {
            Some(c) => c.inv() && c.coherent(self.mem.mem()) && c.spec_page_size() == 4096,
            None => true,
        }
    }

    /// The architecture of the translated process.
    pub fn proc_arch(&self) -> (r: Architecture)
        ensures
            r == self.spec_proc_arch(),
    {
        self.proc_arch
    }

    /// The architecture of the translated process.
    pub closed spec fn spec_proc_arch(&self) -> Architecture {
        self.proc_arch
    }

    /// Releases the connector.
    pub fn into_inner(self) -> (r: T)
        ensures
            r.mem() == self.spec_mem(),
    {
        self.mem
    }

    /// Translates and reads one single-page chunk into its span of
    /// `out`, through the cache when one is present.
    #[verifier::rlimit(100)]
    #[verifier::spinoff_prover]
    fn virt_read_chunk(&mut self, c: crate::page_chunks::PageChunk, out: &mut Vec<u8>) -> (r:
        Result<(), Error>)
        requires
            old(self).wf(),
            c.len > 0,
            c.addr + c.len <= u64::MAX,
            c.offset + c.len <= old(out)@.len(),
            spec_align_down(c.addr, 4096) == spec_align_down((c.addr + c.len - 1) as u64, 4096),
        ensures
            final(self).wf(),
            final(self).spec_mem() == old(self).spec_mem(),
            final(self).spec_dtb() == old(self).spec_dtb(),
            final(self).spec_arch() == old(self).spec_arch(),
            forall|a: int, l: int| final(self).spec_ok_on(a, l) == old(self).spec_ok_on(a, l),
            final(out)@.len() == old(out)@.len(),
            forall|b: int|
                0 <= b < old(out)@.len() && !(c.offset <= b < c.offset + c.len)
                    ==> final(out)@[b] == old(out)@[b],
            r is Ok ==> forall|t: int|
                0 <= t < c.len ==> ((#[trigger] spec_virt_phys(
                    old(self).spec_arch(),
                    old(self).spec_mem(),
                    old(self).spec_dtb(),
                    (c.addr + t) as u64,
                )) matches Some(p) && p + 1 <= old(self).spec_mem().len() && final(out)@[c.offset
                    + t] == old(self).spec_mem()[p as int]),
            r is Err ==> !(old(self).spec_fully_available() && chunk_read_owed(
                old(self).spec_arch(),
                old(self).spec_mem(),
                old(self).spec_dtb(),
                c,
            )),
    {
        let tr = self.translator;
        let ghost m0 = self.mem.mem();
        let ghost mem_t = self.mem;
        proof {
            if old(self).spec_fully_available() {
                lemma_dma_fully(*old(self));
            }
        }
        let tres = tr.virt_to_phys(&mut self.mem, Address(c.addr));
        match tres {
            Err(e) => {
                proof {
                    if old(self).spec_fully_available() && chunk_read_owed(
                        tr.sys_arch,
                        m0,
                        tr.dtb.0,
                        c,
                    ) {
                        assert((c.addr + 0) as u64 == c.addr);
                        assert((spec_virt_phys(tr.sys_arch, m0, tr.dtb.0, (c.addr + 0) as u64))
                            matches Some(p) && spec_align_down(p, 4096) + 4096 <= m0.len());
                    }
                }
                return Err(e);
            },
            Ok(pa) => {
                proof {
                    assert(pa.address.0 + c.len <= u64::MAX);
                }
                let mut tmp = zero_vec(c.len);
                let ghost mem_r = self.mem;
                proof {
                    if old(self).spec_fully_available() {
                        crate::phys_mem::lemma_fully_available_frame(&mem_t, &mem_r);
                        if chunk_read_owed(tr.sys_arch, m0, tr.dtb.0, c) {
                            lemma_owed_chunk_phys(tr.sys_arch, m0, tr.dtb.0, c, pa.address.0);
                        }
                    }
                }
                let rres = match &mut self.cache {
                    Some(cch) => cch.cached_read_single(&mut self.mem, pa, &mut tmp),
                    None => phys_read_into(&mut self.mem, pa, &mut tmp),
                };
                match rres {
                    Err(e) => {
                        return Err(e);
                    },
                    Ok(()) => {
                        let ghost out_pre = out@;
                        copy_block(out, c.offset, &tmp, 0, c.len);
                        proof {
                            assert forall|t: int|
                                0 <= t < c.len implies ((#[trigger] spec_virt_phys(
                                tr.sys_arch,
                                m0,
                                tr.dtb.0,
                                (c.addr + t) as u64,
                            )) matches Some(p) && p + 1 <= m0.len() && out@[c.offset + t] == m0[p as int]) by {
                                lemma_byte_of_chunk(
                                    tr.sys_arch,
                                    m0,
                                    tr.dtb.0,
                                    c,
                                    pa.address.0,
                                    (c.addr + t) as u64,
                                );
                                assert(out@[c.offset + t] == tmp@[t]);
                            }
                        }
                        Ok(())
                    },
                }
            },
        }
    }

    /// Reads `out.len()` bytes of virtual memory at `addr`.
    ///
    /// Cache transparency: on success every byte equals the connector's
    /// byte at that virtual byte's translated physical address — the
    /// reference uncached read — whatever the cache held and whatever
    /// its mask and capacity are. The first untranslatable or unreadable
    /// chunk aborts the read with its failure.
    #[verifier::rlimit(100)]
    #[verifier::spinoff_prover]
    pub fn virt_read(&mut self, addr: Address, out: &mut Vec<u8>) -> (r: Result<(), Error>)
        requires
            old(self).wf(),
            addr.0 + old(out)@.len() <= u64::MAX,
        ensures
            final(self).wf(),
            final(self).spec_mem() == old(self).spec_mem(),
            final(self).spec_dtb() == old(self).spec_dtb(),
            final(self).spec_arch() == old(self).spec_arch(),
            forall|a: int, l: int| final(self).spec_ok_on(a, l) == old(self).spec_ok_on(a, l),
            final(out)@.len() == old(out)@.len(),
            r is Ok ==> forall|i: int|
                0 <= i < old(out)@.len() ==> ((#[trigger] spec_virt_phys(
                    old(self).spec_arch(),
                    old(self).spec_mem(),
                    old(self).spec_dtb(),
                    (addr.0 + i) as u64,
                )) matches Some(p) && p + 1 <= old(self).spec_mem().len() && final(out)@[i]
                    == old(self).spec_mem()[p as int]),
            old(self).spec_fully_available() && virt_read_owed(
                old(self).spec_arch(),
                old(self).spec_mem(),
                old(self).spec_dtb(),
                addr.0,
                old(out)@.len() as int,
            ) ==> r is Ok,
    {
        let len = out.len();
        let ghost m0 = self.mem.mem();
        let ghost arch0 = self.translator.sys_arch;
        let ghost dtb0 = self.translator.dtb.0;
        let chunks = chunk_ranges(addr.0, len, 4096);
        let mut ci: usize = 0;
        let mut failed: Option<Error> = None;
        while ci < chunks.len() && failed.is_none()
            invariant
                self.wf(),
                self.spec_mem() == m0,
                self.spec_arch() == arch0,
                self.spec_dtb() == dtb0,
                m0 == old(self).spec_mem(),
                arch0 == old(self).spec_arch(),
                dtb0 == old(self).spec_dtb(),
                old(self).spec_fully_available() == self.spec_fully_available(),
                forall|a: int, l: int| self.spec_ok_on(a, l) == old(self).spec_ok_on(a, l),
                out@.len() == len,
                addr.0 + len <= u64::MAX,
                chunks_wf(chunks@, addr.0, len, 4096),
                ci <= chunks@.len(),
                failed is Some ==> !(old(self).spec_fully_available() && virt_read_owed(
                    arch0,
                    m0,
                    dtb0,
                    addr.0,
                    len as int,
                )),
                failed is None ==> forall|i: int|
                    0 <= i < (if ci < chunks@.len() {
                        chunks@[ci as int].offset as int
                    } else {
                        len as int
                    }) ==> ((#[trigger] spec_virt_phys(arch0, m0, dtb0, (addr.0 + i) as u64))
                        matches Some(p) && p + 1 <= m0.len() && out@[i] == m0[p as int]),
            decreases chunks@.len() - ci,
        {
            let c = chunks[ci];
            proof {
                crate::page_chunks::lemma_chunk_page(
                    chunks@,
                    addr.0,
                    len,
                    4096,
                    ci as int,
                    (c.addr + c.len - 1) as u64,
                );
            }
            let ghost out_pre = out@;
            let rres = self.virt_read_chunk(c, out);
            match rres {
                Err(e) => {
                    proof {
                        if old(self).spec_fully_available() && virt_read_owed(
                            arch0,
                            m0,
                            dtb0,
                            addr.0,
                            len as int,
                        ) {
                            assert forall|t: int|
                                0 <= t < c.len implies ((#[trigger] spec_virt_phys(
                                arch0,
                                m0,
                                dtb0,
                                (c.addr + t) as u64,
                            )) matches Some(p) && spec_align_down(p, 4096) + 4096
                                <= m0.len()) by {
                                assert((c.addr + t) as u64 == (addr.0 + (c.offset + t)) as u64);
                                assert((spec_virt_phys(
                                    arch0,
                                    m0,
                                    dtb0,
                                    (addr.0 + (c.offset + t)) as u64,
                                )) matches Some(p) && spec_align_down(p, 4096) + 4096
                                    <= m0.len());
                            }
                            assert(chunk_read_owed(arch0, m0, dtb0, c));
                        }
                    }
                    failed = Some(e);
                },
                Ok(()) => {
                    proof {
                        assert forall|i: int|
                            0 <= i < c.offset + c.len implies ((#[trigger] spec_virt_phys(
                            arch0,
                            m0,
                            dtb0,
                            (addr.0 + i) as u64,
                        )) matches Some(p) && p + 1 <= m0.len() && out@[i] == m0[p as int]) by {
                            if i < c.offset {
                                assert(out@[i] == out_pre[i]);
                            } else {
                                let t = i - c.offset;
                                assert((spec_virt_phys(arch0, m0, dtb0, (c.addr + t) as u64))
                                    matches Some(p) && p + 1 <= m0.len() && out@[c.offset + t]
                                    == m0[p as int]);
                                assert((c.addr + t) as u64 == (addr.0 + i) as u64);
                            }
                        }
                        if ci + 1 < chunks@.len() {
                            assert(chunks@[ci + 1].offset == c.offset + c.len);
                        } else {
                            assert(c.offset + c.len == len);
                        }
                    }
                },
            }
            ci = ci + 1;
        }
        match failed {
            Some(e) => Err(e),
            None => Ok(()),
        }
    }

    /// Reads a heterogeneous batch of virtual ranges: each request is a
    /// virtual address with a buffer whose length is the read length.
    /// Per-request failures never abort the batch; every request comes
    /// back, in order, as its filled buffer or its failure.
    #[verifier::rlimit(100)]
    #[verifier::spinoff_prover]
    pub fn virt_read_iter(&mut self, iter: Vec<(Address, Vec<u8>)>) -> (r: Vec<
        (Address, Result<Vec<u8>, Error>),
    >)
        requires
            old(self).wf(),
            forall|k: int|
                0 <= k < iter@.len() ==> (#[trigger] iter@[k]).0.0 + iter@[k].1@.len()
                    <= u64::MAX,
        ensures
            final(self).wf(),
            final(self).spec_mem() == old(self).spec_mem(),
            final(self).spec_dtb() == old(self).spec_dtb(),
            final(self).spec_arch() == old(self).spec_arch(),
            forall|a: int, l: int| final(self).spec_ok_on(a, l) == old(self).spec_ok_on(a, l),
            r@.len() == iter@.len(),
            forall|k: int|
                0 <= k < iter@.len() ==> (#[trigger] r@[k]).0 == iter@[k].0 && match r@[k].1 {
                    Ok(buf) => buf@.len() == iter@[k].1@.len() && (forall|i: int|
                        0 <= i < buf@.len() ==> ((#[trigger] spec_virt_phys(
                            old(self).spec_arch(),
                            old(self).spec_mem(),
                            old(self).spec_dtb(),
                            (iter@[k].0.0 + i) as u64,
                        )) matches Some(p) && p + 1 <= old(self).spec_mem().len() && buf@[i]
                            == old(self).spec_mem()[p as int])),
                    Err(e) => !(old(self).spec_fully_available() && virt_read_owed(
                        old(self).spec_arch(),
                        old(self).spec_mem(),
                        old(self).spec_dtb(),
                        iter@[k].0.0,
                        iter@[k].1@.len() as int,
                    )),
                },
    {
        let n = iter.len();
        let mut iter = iter;
        let ghost iter0 = iter@;
        let mut r: Vec<(Address, Result<Vec<u8>, Error>)> = Vec::new();
        let mut k: usize = 0;
        while k < n
            invariant
                self.wf(),
                self.spec_mem() == old(self).spec_mem(),
                self.spec_dtb() == old(self).spec_dtb(),
                self.spec_arch() == old(self).spec_arch(),
                old(self).spec_fully_available() == self.spec_fully_available(),
                forall|a: int, l: int| self.spec_ok_on(a, l) == old(self).spec_ok_on(a, l),
                n == iter@.len(),
                k <= n,
                r@.len() == k,
                forall|j: int| k <= j < n ==> iter@[j] == iter0[j],
                forall|j: int|
                    0 <= j < n ==> (#[trigger] iter0[j]).0.0 + iter0[j].1@.len() <= u64::MAX,
                forall|j: int|
                    0 <= j < k ==> (#[trigger] r@[j]).0 == iter0[j].0 && match r@[j].1 {
                        Ok(buf) => buf@.len() == iter0[j].1@.len() && (forall|i: int|
                            0 <= i < buf@.len() ==> ((#[trigger] spec_virt_phys(
                                old(self).spec_arch(),
                                old(self).spec_mem(),
                                old(self).spec_dtb(),
                                (iter0[j].0.0 + i) as u64,
                            )) matches Some(p) && p + 1 <= old(self).spec_mem().len()
                                && buf@[i] == old(self).spec_mem()[p as int])),
                        Err(e) => !(old(self).spec_fully_available() && virt_read_owed(
                            old(self).spec_arch(),
                            old(self).spec_mem(),
                            old(self).spec_dtb(),
                            iter0[j].0.0,
                            iter0[j].1@.len() as int,
                        )),
                    },
            decreases n - k,
        {
            let mut entry = (Address(0), Vec::<u8>::new());
            core::mem::swap(&mut entry, &mut iter[k]);
            let (va, mut buf) = entry;
            proof {
                assert(iter0[k as int].0.0 + iter0[k as int].1@.len() <= u64::MAX);
                assert((va, buf) == iter0[k as int]);
            }
            let res = self.virt_read(va, &mut buf);
            match res {
                Ok(()) => {
                    r.push((va, Ok(buf)));
                },
                Err(e) => {
                    r.push((va, Err(e)));
                },
            }
            k = k + 1;
        }
        r
    }

    /// Writes the bytes of `data` at virtual address `addr`, through the
    /// connector, dropping every cache slot the write touches.
    ///
    /// The whole range is translated first, then written chunk by
    /// chunk, as the pipeline orders it. On success, provided no two
    /// bytes of the range translate to the same physical byte, the
    /// connector afterwards holds each byte of `data` at its translated
    /// address. A failed translation aborts before anything is written;
    /// a failed chunk write leaves the chunks before it written.
    #[verifier::rlimit(100)]
    #[verifier::spinoff_prover]
    pub fn virt_write(&mut self, addr: Address, data: &Vec<u8>) -> (r: Result<(), Error>)
        requires
            old(self).wf(),
            addr.0 + data@.len() <= u64::MAX,
        ensures
            final(self).wf(),
            final(self).spec_mem().len() == old(self).spec_mem().len(),
            final(self).spec_dtb() == old(self).spec_dtb(),
            final(self).spec_arch() == old(self).spec_arch(),
            forall|a: int, l: int| final(self).spec_ok_on(a, l) == old(self).spec_ok_on(a, l),
            r is Ok && virt_range_injective(
                old(self).spec_arch(),
                old(self).spec_mem(),
                old(self).spec_dtb(),
                addr.0,
                data@.len() as int,
            ) ==> forall|i: int|
                0 <= i < data@.len() ==> ((#[trigger] spec_virt_phys(
                    old(self).spec_arch(),
                    old(self).spec_mem(),
                    old(self).spec_dtb(),
                    (addr.0 + i) as u64,
                )) matches Some(p) && p + 1 <= old(self).spec_mem().len()
                    && final(self).spec_mem()[p as int] == data@[i]),
            old(self).spec_fully_available() && virt_read_owed(
                old(self).spec_arch(),
                old(self).spec_mem(),
                old(self).spec_dtb(),
                addr.0,
                data@.len() as int,
            ) ==> r is Ok,
    {
        let len = data.len();
        let tr = self.translator;
        let ghost m0 = self.mem.mem();
        let chunks = chunk_ranges(addr.0, len, 4096);
        // First pass: translate every chunk; nothing is written yet, so
        // every walk sees the same page tables.
        let mut phys: Vec<u64> = Vec::new();
        let mut ci: usize = 0;
        while ci < chunks.len()
            invariant
                self.wf(),
                self.translator == tr,
                tr.dtb.0 == old(self).spec_dtb(),
                tr.sys_arch == old(self).spec_arch(),
                self.mem.mem() == m0,
                m0 == old(self).spec_mem(),
                forall|a: int, l: int| self.spec_ok_on(a, l) == old(self).spec_ok_on(a, l),
                old(self).spec_fully_available() == old(self).spec_fully_available(),
                len == data@.len(),
                addr.0 + len <= u64::MAX,
                chunks_wf(chunks@, addr.0, len, 4096),
                ci <= chunks@.len(),
                phys@.len() == ci,
                forall|k: int|
                    0 <= k < ci ==> spec_virt_phys(tr.sys_arch, m0, tr.dtb.0, chunks@[k].addr)
                        == Some(#[trigger] phys@[k]) && phys@[k] < 0x0020_0000_0000_0000,
            decreases chunks@.len() - ci,
        {
            let ghost head = *self;
            let c = chunks[ci];
            let ghost mem_t = self.mem;
            let tres = tr.virt_to_phys(&mut self.mem, Address(c.addr));
            match tres {
                Err(e) => {
                    proof {
                        if old(self).spec_fully_available() {
                            lemma_dma_mem_fully(*old(self), head);
                        }
                        lemma_owed_chunk_start(tr.sys_arch, m0, tr.dtb.0, addr.0, len as int, c);
                    }
                    return Err(e);
                },
                Ok(pa) => {
                    phys.push(pa.address.0);
                },
            }
            ci = ci + 1;
        }
        // Second pass: write chunk by chunk, dropping the touched cache
        // slots.
        let mut ci: usize = 0;
        while ci < chunks.len()
            invariant
                self.wf(),
                self.translator == tr,
                tr.dtb.0 == old(self).spec_dtb(),
                tr.sys_arch == old(self).spec_arch(),
                self.mem.mem().len() == m0.len(),
                m0 == old(self).spec_mem(),
                forall|a: int, l: int| self.spec_ok_on(a, l) == old(self).spec_ok_on(a, l),
                len == data@.len(),
                addr.0 + len <= u64::MAX,
                chunks_wf(chunks@, addr.0, len, 4096),
                ci <= chunks@.len(),
                phys@.len() == chunks@.len(),
                forall|k: int|
                    0 <= k < chunks@.len() ==> spec_virt_phys(
                        tr.sys_arch,
                        m0,
                        tr.dtb.0,
                        chunks@[k].addr,
                    ) == Some(#[trigger] phys@[k]) && phys@[k] < 0x0020_0000_0000_0000,
                virt_range_injective(tr.sys_arch, m0, tr.dtb.0, addr.0, len as int)
                    ==> forall|i: int|
                    0 <= i < (if ci < chunks@.len() {
                        chunks@[ci as int].offset as int
                    } else {
                        len as int
                    }) ==> ((#[trigger] spec_virt_phys(
                        tr.sys_arch,
                        m0,
                        tr.dtb.0,
                        (addr.0 + i) as u64,
                    )) matches Some(p) && p + 1 <= m0.len() && self.spec_mem()[p as int]
                        == data@[i]),
            decreases chunks@.len() - ci,
        {
            let ghost head = *self;
            let c = chunks[ci];
            let p0 = phys[ci];
            proof {
                crate::page_chunks::lemma_chunk_page(
                    chunks@,
                    addr.0,
                    len,
                    4096,
                    ci as int,
                    (c.addr + c.len - 1) as u64,
                );
            }
            let pa = PhysicalAddress::with_address(Address(p0));
            let sub = subvec(data, c.offset, c.len);
            let ghost mem_w = self.mem;
            let ghost mem_pre = self.mem.mem();
            let wres = match &mut self.cache {
                Some(cch) => cch.cached_write(&mut self.mem, pa, &sub),
                None => phys_write_from(&mut self.mem, pa, &sub),
            };
            match wres {
                Err(e) => {
                    proof {
                        if old(self).spec_fully_available() && virt_read_owed(
                            tr.sys_arch,
                            m0,
                            tr.dtb.0,
                            addr.0,
                            len as int,
                        ) {
                            lemma_dma_mem_fully(*old(self), head);
                            assert forall|t: int|
                                0 <= t < c.len implies ((#[trigger] spec_virt_phys(
                                tr.sys_arch,
                                m0,
                                tr.dtb.0,
                                (c.addr + t) as u64,
                            )) matches Some(p) && spec_align_down(p, 4096) + 4096
                                <= m0.len()) by {
                                assert((c.addr + t) as u64 == (addr.0 + (c.offset + t)) as u64);
                                assert((spec_virt_phys(
                                    tr.sys_arch,
                                    m0,
                                    tr.dtb.0,
                                    (addr.0 + (c.offset + t)) as u64,
                                )) matches Some(p) && spec_align_down(p, 4096) + 4096
                                    <= m0.len());
                            }
                            lemma_owed_chunk_phys(tr.sys_arch, m0, tr.dtb.0, c, p0);
                        }
                    }
                    return Err(e);
                },
                Ok(()) => {
                    proof {
                        if virt_range_injective(tr.sys_arch, m0, tr.dtb.0, addr.0, len as int) {
                            assert(data@.subrange(c.offset as int, c.offset + c.len)
                                =~= spec_read_range(data@, c.offset as int, c.len as int));
                            lemma_write_chunk_progress(
                                tr.sys_arch,
                                m0,
                                tr.dtb.0,
                                addr.0,
                                len as int,
                                c,
                                p0,
                                mem_pre,
                                self.mem.mem(),
                                data@,
                            );
                        }
                        if ci + 1 < chunks@.len() {
                            assert(chunks@[ci + 1].offset == c.offset + c.len);
                        } else {
                            assert(c.offset + c.len == len);
                        }
                    }
                },
            }
            ci = ci + 1;
        }
        Ok(())
    }
}


impl Win32VirtualTranslate {
    /// Composes this translator with a connector and an optional page
    /// cache into a virtual-memory view for a process of the given
    /// architecture.
    pub fn virt_mem<T: PhysicalMemory>(
        self,
        mem: T,
        cache: Option<PageCache<DefaultCacheValidator>>,
        proc_arch: Architecture,
    ) -> (r: VirtualDma<T>)
        requires
            cache matches Some(c) ==> c.inv() && c.coherent(mem.mem()) && c.spec_page_size()
                == 4096,
        ensures
            r.wf(),
            r.spec_mem() == mem.mem(),
            r.spec_dtb() == self.dtb.0,
            r.spec_arch() == self.sys_arch,
            forall|a: int, l: int| r.spec_ok_on(a, l) == mem.ok_on(a, l),
    {
        VirtualDma { mem, translator: self, proc_arch, cache }
    }
}

/// If the whole range is owed, the chunk-start byte of any chunk of the
/// range is mapped with its full page inside the connector; so a failed
/// translation refutes the owed premise.
proof fn lemma_owed_chunk_start(
    arch: Architecture,
    m: Seq<u8>,
    dtb: u64,
    va: u64,
    len: int,
    c: crate::page_chunks::PageChunk,
)
    requires
        c.addr == va + c.offset,
        c.offset + c.len <= len,
        c.len > 0,
    ensures
        virt_read_owed(arch, m, dtb, va, len) ==> (spec_virt_phys(arch, m, dtb, c.addr) matches
            Some(p) && spec_align_down(p, 4096) + 4096 <= m.len()),
{
    if virt_read_owed(arch, m, dtb, va, len) {
        assert(spec_virt_phys(arch, m, dtb, (va + c.offset) as u64) matches Some(p)
            && spec_align_down(p, 4096) + 4096 <= m.len());
    }
}

/// A view whose connector owes success everywhere has a fully
/// available connector value.
proof fn lemma_dma_fully<T: PhysicalMemory>(s: VirtualDma<T>)
    requires
        s.spec_fully_available(),
    ensures
        fully_available(&s.mem),
{
    assert forall|a: int, l: int|
        0 <= a && 0 <= l && a + l <= s.mem.mem().len() implies s.mem.ok_on(a, l) by {
        assert(s.spec_ok_on(a, l));
    }
}

/// A view that started fully available stays so through connector
/// calls, which preserve the range and the owed-success predicate.
proof fn lemma_dma_mem_fully<T: PhysicalMemory>(orig: VirtualDma<T>, cur: VirtualDma<T>)
    requires
        orig.spec_fully_available(),
        cur.spec_mem().len() == orig.spec_mem().len(),
        forall|a: int, l: int| cur.spec_ok_on(a, l) == orig.spec_ok_on(a, l),
    ensures
        fully_available(&cur.mem),
{
    assert forall|a: int, l: int|
        0 <= a && 0 <= l && a + l <= cur.mem.mem().len() implies cur.mem.ok_on(a, l) by {
        assert(cur.spec_ok_on(a, l));
        assert(orig.spec_ok_on(a, l));
    }
}

/// When a whole single-page chunk is owed and its first byte translates
/// to `p0`, the physical span `[p0, p0 + c.len)` and the surrounding
/// pages lie inside the connector.
proof fn lemma_owed_chunk_phys(
    arch: Architecture,
    m: Seq<u8>,
    dtb: u64,
    c: crate::page_chunks::PageChunk,
    p0: u64,
)
    requires
        c.len > 0,
        c.addr + c.len <= u64::MAX,
        spec_align_down(c.addr, 4096) == spec_align_down((c.addr + c.len - 1) as u64, 4096),
        spec_virt_phys(arch, m, dtb, c.addr) == Some(p0),
        chunk_read_owed(arch, m, dtb, c),
    ensures
        p0 + c.len <= m.len(),
        spec_align_down(p0, 4096) + 4096 <= m.len(),
        spec_align_down((p0 + c.len - 1) as u64, 4096) + 4096 <= m.len(),
{
    let def = spec_def_of_arch(arch);
    crate::mmu::lemma_def_of_arch_wf(arch);
    crate::types::lemma_align_down(c.addr, 4096);
    let last = (c.addr + c.len - 1) as u64;
    // The span fits in one page, so it is at most a page long.
    crate::types::lemma_align_down(last, 4096);
    assert((c.addr + 0) as u64 == c.addr);
    assert((spec_virt_phys(arch, m, dtb, (c.addr + 0) as u64)) matches Some(p)
        && spec_align_down(p, 4096) + 4096 <= m.len());
    assert((spec_virt_phys(arch, m, dtb, (c.addr + (c.len - 1)) as u64)) matches Some(p)
        && spec_align_down(p, 4096) + 4096 <= m.len());
    assert((c.addr + (c.len - 1)) as u64 == last);
    lemma_same_page_quotient(c.addr, last);
    crate::mmu::lemma_walk_same_page(def, m, dtb, c.addr, last);
    crate::types::lemma_align_down(p0, 4096);
    let p_last = ((p0 as int) + (c.len - 1)) as u64;
    assert(spec_virt_phys(arch, m, dtb, last) == Some(p_last));
    crate::types::lemma_align_down(p_last, 4096);
}

/// Two addresses of the same 4 KiB page have the same page quotient.

proof fn lemma_same_page_quotient(a: u64, b: u64)
    requires
        spec_align_down(a, 4096) == spec_align_down(b, 4096),
    ensures
        (a as int) / (pow2(12) as int) == (b as int) / (pow2(12) as int),
{
    vstd::arithmetic::power2::lemma2_to64();
    crate::types::lemma_align_down(a, 4096);
    crate::types::lemma_align_down(b, 4096);
}

/// Every byte of a chunk translated to `p0` translates to the
/// corresponding offset from `p0`, and the chunk bytes read at `p0`
/// are those bytes of the connector.
proof fn lemma_byte_of_chunk(
    arch: Architecture,
    m: Seq<u8>,
    dtb: u64,
    c: crate::page_chunks::PageChunk,
    p0: u64,
    vb: u64,
)
    requires
        c.len > 0,
        c.addr + c.len <= u64::MAX,
        spec_align_down(c.addr, 4096) == spec_align_down((c.addr + c.len - 1) as u64, 4096),
        spec_virt_phys(arch, m, dtb, c.addr) == Some(p0),
        c.addr <= vb,
        vb < c.addr + c.len,
    ensures
        spec_virt_phys(arch, m, dtb, vb) == Some(((p0 as int) + (vb as int) - (c.addr as int))
            as u64),
{
    let def = spec_def_of_arch(arch);
    crate::mmu::lemma_def_of_arch_wf(arch);
    crate::types::lemma_align_down(c.addr, 4096);
    crate::types::lemma_align_down((c.addr + c.len - 1) as u64, 4096);
    crate::types::lemma_align_down_monotonic(c.addr, vb, 4096);
    crate::types::lemma_align_down_monotonic(vb, (c.addr + c.len - 1) as u64, 4096);
    lemma_same_page_quotient(c.addr, vb);
    crate::mmu::lemma_walk_same_page(def, m, dtb, c.addr, vb);
}

/// After one chunk write on top of `pre`, every byte of the chunk sits
/// at its translated address, and — the range being injective — every
/// previously written byte keeps its value.
proof fn lemma_write_chunk_progress(
    arch: Architecture,
    m0: Seq<u8>,
    dtb: u64,
    va: u64,
    len: int,
    c: crate::page_chunks::PageChunk,
    p0: u64,
    pre: Seq<u8>,
    post: Seq<u8>,
    data: Seq<u8>,
)
    requires
        virt_range_injective(arch, m0, dtb, va, len),
        c.addr == va + c.offset,
        c.offset + c.len <= len,
        c.len > 0,
        c.len <= data.len(),
        len == data.len(),
        va + len <= u64::MAX,
        spec_align_down(c.addr, 4096) == spec_align_down((c.addr + c.len - 1) as u64, 4096),
        spec_virt_phys(arch, m0, dtb, c.addr) == Some(p0),
        p0 + c.len <= pre.len(),
        p0 + c.len <= u64::MAX,
        post == spec_write_bytes(
            pre,
            p0 as int,
            spec_read_range(data, c.offset as int, c.len as int),
        ),
        pre.len() == m0.len(),
        forall|i: int|
            0 <= i < c.offset ==> ((#[trigger] spec_virt_phys(arch, m0, dtb, (va + i) as u64))
                matches Some(p) && p + 1 <= m0.len() && pre[p as int] == data[i]),
    ensures
        forall|i: int|
            0 <= i < c.offset + c.len ==> ((#[trigger] spec_virt_phys(
                arch,
                m0,
                dtb,
                (va + i) as u64,
            )) matches Some(p) && p + 1 <= m0.len() && post[p as int] == data[i]),
{
    assert forall|i: int|
        0 <= i < c.offset + c.len implies (#[trigger] spec_virt_phys(
        arch,
        m0,
        dtb,
        (va + i) as u64,
    )) matches Some(p) && p + 1 <= m0.len() && post[p as int] == data[i] by {
        if i < c.offset {
            // An earlier byte: its physical target differs from every
            // physical byte the chunk wrote, by injectivity.
            assert(spec_virt_phys(arch, m0, dtb, (va + i) as u64) matches Some(p) && p + 1
                <= m0.len() && pre[p as int] == data[i]);
            let p = spec_virt_phys(arch, m0, dtb, (va + i) as u64)->Some_0;
            if p0 <= p < p0 + c.len {
                let t = p - p0;
                lemma_byte_of_chunk(arch, m0, dtb, c, p0, (c.addr + t) as u64);
                assert((va + (c.offset + t)) as u64 == (c.addr + t) as u64);
                assert(spec_virt_phys(arch, m0, dtb, (va + (c.offset + t)) as u64) == Some(p));
                assert(spec_virt_phys(arch, m0, dtb, (va + i) as u64) != spec_virt_phys(
                    arch,
                    m0,
                    dtb,
                    (va + (c.offset + t)) as u64,
                ) || spec_virt_phys(arch, m0, dtb, (va + i) as u64) is None);
                assert(false);
            }
            assert(post[p as int] == pre[p as int]);
        } else {
            let t = i - c.offset;
            lemma_byte_of_chunk(arch, m0, dtb, c, p0, (c.addr + t) as u64);
            assert((va + i) as u64 == (c.addr + t) as u64);
            assert(spec_virt_phys(arch, m0, dtb, (va + i) as u64) == Some(((p0 + t) as u64)));
            assert(post[p0 + t] == spec_read_range(data, c.offset as int, c.len as int)[t]);
        }
    }
}

} // verus!
