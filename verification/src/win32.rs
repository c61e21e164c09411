//! The OS front-end: a handle on a located kernel and the walk of its
//! process list.
//!
//! Finding the kernel and interpreting processes is specified only by
//! interface; this module walks the process links with the verified
//! translator and connector, one pointer-sized virtual read per step.

use vstd::prelude::*;
use crate::architecture::Architecture;
use crate::mmu::{spec_def_of_arch, spec_le_bytes, spec_walk, WalkResult};
use crate::offsets::Win32OffsetsData;
use crate::phys_mem::{fully_available, phys_read_into, PhysicalMemory};
use crate::translate::{VirtualTranslate3, Win32VirtualTranslate};
use crate::types::{Address, PhysicalAddress};

verus! {

/// Where the kernel's world starts: the architecture and the kernel
/// page-table base, with the virtual address the scan found them at.
#[derive(Clone, Copy, Debug, PartialEq, Eq, Structural)]
pub struct StartBlock {
    /// The system architecture.
    pub arch: Architecture,
    /// Virtual address the scan matched at.
    pub va: Address,
    /// The kernel's directory table base.
    pub dtb: Address,
}

/// A located kernel: the connector, where its world starts, and the
/// struct offsets that make its lists walkable.
pub struct Windows<T: PhysicalMemory> {
    /// The physical connector.
    pub mem: T,
    /// Architecture and kernel page-table base.
    pub start_block: StartBlock,
    /// Virtual base of the kernel image.
    pub kernel_base: Address,
    /// Virtual address of the first process structure.
    pub eprocess_base: Address,
    /// The kernel's struct offsets.
    pub offsets: Win32OffsetsData,
}

/// The process link of `cur`: the pointer-sized little-endian value at
/// virtual `cur + eproc_link`, read at its translated physical address;
/// nothing when the link is untranslatable or out of range.
pub open spec fn spec_next_link(
    arch: Architecture,
    m: Seq<u8>,
    dtb: u64,
    offs: Win32OffsetsData,
    cur: u64,
) -> Option<u64> {
    let ptr_size: int = if arch.spec_bits() == 64 {
        8
    } else {
        4
    };
    if cur + offs.eproc_link > u64::MAX {
        None
    } else {
        match spec_walk(spec_def_of_arch(arch), m, dtb, (cur + offs.eproc_link) as u64) {
            WalkResult::Mapped(p, pg) => if p + ptr_size <= m.len() {
                Some(spec_le_bytes(m, p as int, ptr_size) as u64)
            } else {
                None
            },
            WalkResult::NotPresent => None,
            WalkResult::OutOfBounds => None,
        }
    }
}

/// The process chain from `cur`, `fuel` steps at most: each process,
/// then the one its forward link points at, until the link is gone,
/// null, malformed, or back at `base`.
pub open spec fn spec_process_chain(
    arch: Architecture,
    m: Seq<u8>,
    dtb: u64,
    offs: Win32OffsetsData,
    base: u64,
    cur: u64,
    fuel: nat,
) -> Seq<u64>
    decreases fuel,
{
    if fuel == 0 {
        Seq::empty()
    } else {
        seq![cur] + (match spec_next_link(arch, m, dtb, offs, cur) {
            None => Seq::empty(),
            Some(flink) => {
                if flink == 0 || flink < offs.eproc_link {
                    Seq::empty()
                } else {
                    let nxt = (flink - offs.eproc_link) as u64;
                    if nxt == base {
                        Seq::empty()
                    } else {
                        spec_process_chain(arch, m, dtb, offs, base, nxt, (fuel - 1) as nat)
                    }
                }
            },
        })
    }
}

impl<T: PhysicalMemory> Windows<T> {
    /// Walks the process list from the first process, following each
    /// forward link, and returns the process addresses in walk order.
    ///
    /// The walk stops at a null, missing or malformed link, when it
    /// comes back to the first process, and in any case after a bounded
    /// number of steps. On a fully available connector the result is
    /// exactly the mathematical chain.
    #[verifier::rlimit(100)]
    #[verifier::spinoff_prover]
    pub fn process_iter(&mut self) -> (r: Vec<Address>)
        ensures
            final(self).mem.mem() == old(self).mem.mem(),
            forall|a: int, l: int| final(self).mem.ok_on(a, l) == old(self).mem.ok_on(a, l),
            final(self).start_block == old(self).start_block,
            final(self).kernel_base == old(self).kernel_base,
            final(self).eprocess_base == old(self).eprocess_base,
            final(self).offsets == old(self).offsets,
            r@.len() <= 4096,
            fully_available(&old(self).mem) ==> {
                let chain = spec_process_chain(
                    old(self).start_block.arch,
                    old(self).mem.mem(),
                    old(self).start_block.dtb.0,
                    old(self).offsets,
                    old(self).eprocess_base.0,
                    old(self).eprocess_base.0,
                    4096nat,
                );
                r@.len() == chain.len() && (forall|i: int|
                    0 <= i < r@.len() ==> (#[trigger] r@[i]).0 == chain[i])
            },
    {
        let tr = Win32VirtualTranslate {
            sys_arch: self.start_block.arch,
            dtb: self.start_block.dtb,
        };
        let ghost m0 = self.mem.mem();
        let ghost offs = self.offsets;
        let ghost base = self.eprocess_base.0;
        let ghost chain = spec_process_chain(
            tr.sys_arch,
            m0,
            tr.dtb.0,
            offs,
            base,
            base,
            4096nat,
        );
        let ptr_size: usize = if self.start_block.arch.bits() == 64 {
            8
        } else {
            4
        };
        let eproc_link = self.offsets.eproc_link;
        let mut r: Vec<Address> = Vec::new();
        let mut cur: u64 = self.eprocess_base.0;
        let mut fuel: usize = 4096;
        loop
            invariant_except_break
                fully_available(&old(self).mem) ==> {
                    &&& chain.len() == r@.len() + spec_process_chain(
                        tr.sys_arch,
                        m0,
                        tr.dtb.0,
                        offs,
                        base,
                        cur,
                        fuel as nat,
                    ).len()
                    &&& (forall|i: int| 0 <= i < r@.len() ==> (#[trigger] r@[i]).0 == chain[i])
                    &&& (forall|i: int|
                        r@.len() <= i < chain.len() ==> chain[i] == spec_process_chain(
                            tr.sys_arch,
                            m0,
                            tr.dtb.0,
                            offs,
                            base,
                            cur,
                            fuel as nat,
                        )[i - r@.len()])
                },
            invariant
                self.start_block == old(self).start_block,
                self.kernel_base == old(self).kernel_base,
                self.eprocess_base == old(self).eprocess_base,
                self.offsets == old(self).offsets,
                tr.sys_arch == old(self).start_block.arch,
                tr.dtb == old(self).start_block.dtb,
                offs == old(self).offsets,
                base == old(self).eprocess_base.0,
                eproc_link == offs.eproc_link,
                chain == spec_process_chain(tr.sys_arch, m0, tr.dtb.0, offs, base, base, 4096nat),
                ptr_size == (if old(self).start_block.arch.spec_bits() == 64 {
                    8int
                } else {
                    4int
                }),
                self.mem.mem() == m0,
                m0 == old(self).mem.mem(),
                forall|a: int, l: int| self.mem.ok_on(a, l) == old(self).mem.ok_on(a, l),
                fuel <= 4096,
                r@.len() + fuel == 4096,
            ensures
                self.start_block == old(self).start_block,
                self.kernel_base == old(self).kernel_base,
                self.eprocess_base == old(self).eprocess_base,
                self.offsets == old(self).offsets,
                self.mem.mem() == m0,
                forall|a: int, l: int| self.mem.ok_on(a, l) == old(self).mem.ok_on(a, l),
                r@.len() <= 4096,
                fully_available(&old(self).mem) ==> chain.len() == r@.len() && (forall|i: int|
                    0 <= i < r@.len() ==> (#[trigger] r@[i]).0 == chain[i]),
            decreases fuel,
        {
            let ghost rest = spec_process_chain(
                tr.sys_arch,
                m0,
                tr.dtb.0,
                offs,
                base,
                cur,
                fuel as nat,
            );
            if fuel == 0 {
                proof {
                    assert(rest =~= Seq::<u64>::empty());
                }
                break ;
            }
            r.push(Address(cur));
            fuel = fuel - 1;
            let ghost link = spec_next_link(tr.sys_arch, m0, tr.dtb.0, offs, cur);
            let ghost tail = (match link {
                Option::None => Seq::<u64>::empty(),
                Option::Some(flink) => {
                    if flink == 0 || flink < offs.eproc_link {
                        Seq::<u64>::empty()
                    } else {
                        let nxt = (flink - offs.eproc_link) as u64;
                        if nxt == base {
                            Seq::<u64>::empty()
                        } else {
                            spec_process_chain(
                                tr.sys_arch,
                                m0,
                                tr.dtb.0,
                                offs,
                                base,
                                nxt,
                                fuel as nat,
                            )
                        }
                    }
                },
            });
            proof {
                assert(rest == seq![cur] + tail);
            }
            if cur > u64::MAX - eproc_link as u64 {
                proof {
                    assert(link is None);
                    assert(tail =~= Seq::<u64>::empty());
                }
                break ;
            }
            let link_va = cur + eproc_link as u64;
            let ghost mem_t = self.mem;
            let tres = tr.virt_to_phys(&mut self.mem, Address(link_va));
            let pa = match tres {
                Ok(pa) => pa,
                Err(_) => {
                    proof {
                        if fully_available(&old(self).mem) {
                            crate::phys_mem::lemma_fully_available_frame(
                                &old(self).mem,
                                &mem_t,
                            );
                            assert(link is None);
                            assert(tail =~= Seq::<u64>::empty());
                        }
                    }
                    break ;
                },
            };
            let mut buf = crate::buffer::zero_vec(ptr_size);
            let ghost mem_r = self.mem;
            let rres = phys_read_into(
                &mut self.mem,
                PhysicalAddress::with_address(pa.address),
                &mut buf,
            );
            match rres {
                Ok(()) => {},
                Err(_) => {
                    proof {
                        if fully_available(&old(self).mem) {
                            crate::phys_mem::lemma_fully_available_frame(
                                &old(self).mem,
                                &mem_r,
                            );
                            assert(link is None);
                            assert(tail =~= Seq::<u64>::empty());
                        }
                    }
                    break ;
                },
            }
            let flink = crate::mmu::le_value(&buf, ptr_size);
            proof {
                crate::mmu::lemma_le_bytes_shift(
                    buf@,
                    0,
                    m0,
                    pa.address.0 as int,
                    ptr_size as int,
                );
                assert(link == Some(flink));
            }
            if flink == 0 || flink < eproc_link as u64 {
                proof {
                    assert(tail =~= Seq::<u64>::empty());
                }
                break ;
            }
            let nxt = flink - eproc_link as u64;
            if nxt == self.eprocess_base.0 {
                proof {
                    assert(tail =~= Seq::<u64>::empty());
                }
                break ;
            }
            cur = nxt;
        }
        r
    }
}


} // verus!
