//! The architecture-defined multi-level page-table walk.
//!
//! A walk definition lists the table levels from root to leaf, each with
//! the virtual-address bits that index it, together with the PTE width
//! and the masks that decode a PTE. The walk itself is defined as a
//! mathematical function over the connector's bytes
//! (`spec_walk`); the executable walk is proved to follow it.

use vstd::prelude::*;
use vstd::arithmetic::power2::pow2;
use crate::architecture::Architecture;
use crate::phys_mem::PhysicalMemory;
use crate::types::{
    Address, Error, Page, PageType, PhysicalAddress, PAGE_NO_EXEC, PAGE_READ_ONLY,
    PAGE_WRITEABLE,
};

verus! {

/// One level of a page-table walk: the virtual-address bits
/// `[bit_low, bit_high)` index the table of this level. When
/// `large_page` is set, a leaf entry at this level maps a block of
/// `1 << bit_low` bytes.
#[derive(Clone, Copy, Debug, PartialEq, Eq, Structural)]
pub struct MmuLevel {
    /// Lowest virtual-address bit indexing this level.
    pub bit_low: u64,
    /// One past the highest virtual-address bit indexing this level.
    pub bit_high: u64,
    /// Whether an entry at this level may map a large page.
    pub large_page: bool,
}

/// The mathematical content of a walk definition.
pub struct MmuDefView {
    /// Levels from root to leaf.
    pub levels: Seq<MmuLevel>,
    /// Log2 of the architecture page size.
    pub page_shift: u64,
    /// Width of one page-table entry in bytes.
    pub pte_size: u64,
    /// Extracts the next table (or page base) address from an entry.
    pub addr_mask: u64,
    /// The entry is present when these bits are set.
    pub present_mask: u64,
    /// The bit that distinguishes a large-page (block) entry.
    pub large_page_mask: u64,
    /// Whether a set bit means "large page" (x86) or a clear one (Arm).
    pub large_page_when_set: bool,
    /// The bit that decides writability.
    pub writeable_mask: u64,
    /// Whether a set bit means "writeable" (x86) or "read-only" (Arm).
    pub writeable_when_set: bool,
    /// The no-execute bit.
    pub nx_mask: u64,
}

/// An architecture's page-table walk definition.
pub struct ArchMmuDef {
    /// Levels from root to leaf.
    pub levels: Vec<MmuLevel>,
    /// Log2 of the architecture page size.
    pub page_shift: u64,
    /// Width of one page-table entry in bytes.
    pub pte_size: u64,
    /// Extracts the next table (or page base) address from an entry.
    pub addr_mask: u64,
    /// The entry is present when these bits are set.
    pub present_mask: u64,
    /// The bit that distinguishes a large-page (block) entry.
    pub large_page_mask: u64,
    /// Whether a set bit means "large page" (x86) or a clear one (Arm).
    pub large_page_when_set: bool,
    /// The bit that decides writability.
    pub writeable_mask: u64,
    /// Whether a set bit means "writeable" (x86) or "read-only" (Arm).
    pub writeable_when_set: bool,
    /// The no-execute bit.
    pub nx_mask: u64,
}

impl View for ArchMmuDef {
    type V = MmuDefView;

    open spec fn view(&self) -> MmuDefView {
        MmuDefView {
            levels: self.levels@,
            page_shift: self.page_shift,
            pte_size: self.pte_size,
            addr_mask: self.addr_mask,
            present_mask: self.present_mask,
            large_page_mask: self.large_page_mask,
            large_page_when_set: self.large_page_when_set,
            writeable_mask: self.writeable_mask,
            writeable_when_set: self.writeable_when_set,
            nx_mask: self.nx_mask,
        }
    }
}

impl MmuDefView {
    /// A usable walk definition: bounded level widths and an address
    /// mask that never reaches into the page offset.
    pub open spec fn wf(self) -> bool {
        &&& 1 <= self.levels.len() <= 8
        &&& 1 <= self.pte_size <= 8
        &&& 12 <= self.page_shift <= 30
        &&& self.addr_mask <= 0x000f_ffff_ffff_f000u64
        &&& (self.addr_mask >> self.page_shift) << self.page_shift == self.addr_mask
        &&& forall|i: int|
            0 <= i < self.levels.len() ==> {
                &&& self.page_shift <= (#[trigger] self.levels[i]).bit_low
                &&& self.levels[i].bit_low < self.levels[i].bit_high
                &&& self.levels[i].bit_high <= 52
                &&& self.levels[i].bit_high - self.levels[i].bit_low <= 16
            }
    }
}

/// The outcome of a mathematical page-table walk.
pub enum WalkResult {
    /// The address maps: the physical byte and its page descriptor.
    Mapped(u64, Page),
    /// A present bit was clear at some level.
    NotPresent,
    /// A table entry would have to be read from beyond the connector's
    /// physical range.
    OutOfBounds,
}

/// The little-endian integer held by the `n` bytes of `m` at `addr`.
pub open spec fn spec_le_bytes(m: Seq<u8>, addr: int, n: int) -> int
    decreases n,
{
    if n <= 0 {
        0
    } else {
        m[addr] + 256 * spec_le_bytes(m, addr + 1, n - 1)
    }
}

/// `256 ^ n`.
pub open spec fn pow256(n: int) -> int
    decreases n,
{
    if n <= 0 {
        1
    } else {
        256 * pow256(n - 1)
    }
}

/// A little-endian value of `n` bytes is below `256 ^ n`.
pub proof fn lemma_le_bytes_bound(m: Seq<u8>, addr: int, n: int)
    requires
        0 <= addr,
        0 <= n,
        addr + n <= m.len(),
    ensures
        0 <= spec_le_bytes(m, addr, n) < pow256(n),
    decreases n,
{
    if n > 0 {
        lemma_le_bytes_bound(m, addr + 1, n - 1);
    }
}

/// Two buffers that agree on a byte range decode to the same value.
pub proof fn lemma_le_bytes_shift(s1: Seq<u8>, a1: int, s2: Seq<u8>, a2: int, n: int)
    requires
        0 <= n,
        0 <= a1,
        a1 + n <= s1.len(),
        0 <= a2,
        a2 + n <= s2.len(),
        forall|k: int| 0 <= k < n ==> #[trigger] s1[a1 + k] == s2[a2 + k],
    ensures
        spec_le_bytes(s1, a1, n) == spec_le_bytes(s2, a2, n),
    decreases n,
{
    if n > 0 {
        assert(s1[a1 + 0] == s2[a2 + 0]);
        assert forall|k: int| 0 <= k < n - 1 implies #[trigger] s1[a1 + 1 + k] == s2[a2 + 1
            + k] by {
            assert(s1[a1 + (k + 1)] == s2[a2 + (k + 1)]);
        }
        lemma_le_bytes_shift(s1, a1 + 1, s2, a2 + 1, n - 1);
    }
}

/// The index bits of `vaddr` for level `l`.
pub open spec fn spec_level_index(l: MmuLevel, vaddr: u64) -> u64 {
    (vaddr >> l.bit_low) & (((1u64 << ((l.bit_high - l.bit_low) as u64)) - 1) as u64)
}

/// Whether `pte` maps a large page (block) under this definition.
pub open spec fn spec_is_large(def: MmuDefView, pte: u64) -> bool {
    (pte & def.large_page_mask != 0) == def.large_page_when_set
}

/// The page attributes a mapping entry grants.
pub open spec fn spec_pte_page_type(def: MmuDefView, pte: u64) -> PageType {
    PageType(
        (if (pte & def.writeable_mask != 0) == def.writeable_when_set {
            PAGE_WRITEABLE
        } else {
            PAGE_READ_ONLY
        }) | (if pte & def.nx_mask != 0 {
            PAGE_NO_EXEC
        } else {
            0
        }),
    )
}

/// The walk from level `lvl` down, with the table of that level at
/// `table`: the mathematical definition the executable walk follows.
pub open spec fn spec_walk_level(
    def: MmuDefView,
    m: Seq<u8>,
    table: u64,
    vaddr: u64,
    lvl: int,
) -> WalkResult
    decreases def.levels.len() - lvl,
    when 0 <= lvl < def.levels.len()
{
    let l = def.levels[lvl];
    let idx = spec_level_index(l, vaddr);
    let pa = table + idx * def.pte_size;
    if pa + def.pte_size > m.len() {
        WalkResult::OutOfBounds
    } else {
        let pte = spec_le_bytes(m, pa as int, def.pte_size as int) as u64;
        if pte & def.present_mask == 0 {
            WalkResult::NotPresent
        } else if lvl == def.levels.len() - 1 {
            if !def.large_page_when_set && spec_is_large(def, pte) {
                // On architectures where a clear block bit marks a
                // block, a leaf entry with that bit clear is invalid.
                WalkResult::NotPresent
            } else {
                let size = 1u64 << def.page_shift;
                let base = pte & def.addr_mask;
                WalkResult::Mapped(
                    (base + vaddr % size) as u64,
                    Page {
                        page_type: spec_pte_page_type(def, pte),
                        page_size: size,
                        page_base: Address(base),
                    },
                )
            }
        } else if l.large_page && spec_is_large(def, pte) {
            let size = 1u64 << l.bit_low;
            let masked = pte & def.addr_mask;
            let base = (masked - masked % size) as u64;
            WalkResult::Mapped(
                (base + vaddr % size) as u64,
                Page {
                    page_type: spec_pte_page_type(def, pte),
                    page_size: size,
                    page_base: Address(base),
                },
            )
        } else {
            spec_walk_level(def, m, pte & def.addr_mask, vaddr, lvl + 1)
        }
    }
}

/// The whole walk of `vaddr` from the translation base `dtb` over the
/// physical bytes `m`.
pub open spec fn spec_walk(def: MmuDefView, m: Seq<u8>, dtb: u64, vaddr: u64) -> WalkResult {
    spec_walk_level(def, m, dtb & def.addr_mask, vaddr, 0)
}

/// Decodes the first `n` bytes of `bytes` as a little-endian integer.
pub(crate) fn le_value(bytes: &Vec<u8>, n: usize) -> (r: u64)
    requires
        n <= bytes@.len(),
        n <= 8,
    ensures
        r == spec_le_bytes(bytes@, 0, n as int),
{
    proof {
        lemma_le_bytes_bound(bytes@, 0, n as int);
    }
    let mut r: u64 = 0;
    let mut i: usize = n;
    while i > 0
        invariant
            i <= n,
            n <= bytes@.len(),
            n <= 8,
            r == spec_le_bytes(bytes@, i as int, (n - i) as int),
            r < pow256((n - i) as int),
        decreases i,
    {
        proof {
            lemma_le_bytes_bound(bytes@, i as int, (n - i) as int);
            assert(pow256((n - i) as int) <= pow256(7)) by {
                lemma_pow256_increases((n - i) as int, 7);
            }
            assert(pow256(7) == 0x100_0000_0000_0000) by {
                reveal_with_fuel(pow256, 9);
            }
        }
        i = i - 1;
        r = r * 256 + bytes[i] as u64;
        proof {
            assert(pow256((n - i) as int) == 256 * pow256((n - i - 1) as int));
        }
    }
    r
}

/// `pow256` is positive.
proof fn lemma_pow256_pos(n: int)
    ensures
        pow256(n) >= 1,
    decreases n,
{
    if n > 0 {
        lemma_pow256_pos(n - 1);
    }
}

/// `pow256` grows with its exponent.
proof fn lemma_pow256_increases(a: int, b: int)
    requires
        a <= b,
    ensures
        pow256(a) <= pow256(b),
    decreases b - a,
{
    if a < b {
        if b > 0 {
            lemma_pow256_increases(a, b - 1);
            lemma_pow256_pos(b - 1);
            assert(pow256(b) == 256 * pow256(b - 1));
        } else {
            assert(pow256(a) == 1);
            assert(pow256(b) == 1);
        }
    }
}

/// Walks the page tables for `vaddr` from the translation base `dtb`,
/// reading each table entry through the connector.
///
/// The result follows `spec_walk` exactly: a returned mapping is the
/// mapping of the mathematical walk, `PageNotPresent` is returned
/// exactly on a clear present bit, `OutOfBounds` when a table entry
/// lies beyond the connector's physical range, and a connector failure
/// surfaces as `ConnectorIoRead`. On a fully available connector the
/// result is the mathematical walk in every case.
pub fn walk<T: PhysicalMemory>(
    def: &ArchMmuDef,
    mem: &mut T,
    dtb: Address,
    vaddr: Address,
) -> (r: Result<PhysicalAddress, Error>)
    requires
        def@.wf(),
    ensures
        final(mem).mem() == old(mem).mem(),
        forall|a: int, l: int| final(mem).ok_on(a, l) == old(mem).ok_on(a, l),
        r matches Ok(p) ==> p.address.0 < 0x0020_0000_0000_0000,
        r matches Ok(p) ==> p.page matches Some(pg) && spec_walk(
            def@,
            old(mem).mem(),
            dtb.0,
            vaddr.0,
        ) == WalkResult::Mapped(p.address.0, pg),
        r == Err::<PhysicalAddress, Error>(Error::PageNotPresent) ==> spec_walk(
            def@,
            old(mem).mem(),
            dtb.0,
            vaddr.0,
        ) == WalkResult::NotPresent,
        r == Err::<PhysicalAddress, Error>(Error::OutOfBounds) ==> spec_walk(
            def@,
            old(mem).mem(),
            dtb.0,
            vaddr.0,
        ) == WalkResult::OutOfBounds,
        crate::phys_mem::fully_available(old(mem)) ==> match spec_walk(
            def@,
            old(mem).mem(),
            dtb.0,
            vaddr.0,
        ) {
            WalkResult::Mapped(phys, pg) => r == Ok::<PhysicalAddress, Error>(
                PhysicalAddress { address: Address(phys), page: Some(pg) },
            ),
            WalkResult::NotPresent => r == Err::<PhysicalAddress, Error>(Error::PageNotPresent),
            WalkResult::OutOfBounds => r == Err::<PhysicalAddress, Error>(Error::OutOfBounds),
        },
{
    let total = mem.metadata().size;
    proof {
        let d = dtb.0;
        let am = def.addr_mask;
        assert(d & am <= am) by (bit_vector);
    }
    let mut table: u64 = dtb.0 & def.addr_mask;
    let mut lvl: usize = 0;
    let n_levels = def.levels.len();
    loop
        invariant
            def@.wf(),
            n_levels == def@.levels.len(),
            lvl < n_levels,
            table <= def.addr_mask,
            total == old(mem).mem().len(),
            mem.mem() == old(mem).mem(),
            forall|a: int, l: int| mem.ok_on(a, l) == old(mem).ok_on(a, l),
            spec_walk(def@, old(mem).mem(), dtb.0, vaddr.0) == spec_walk_level(
                def@,
                old(mem).mem(),
                table,
                vaddr.0,
                lvl as int,
            ),
        decreases n_levels - lvl,
    {
        let l = def.levels[lvl];
        let width = l.bit_high - l.bit_low;
        proof {
            let w = width;
            let v = vaddr.0;
            let lo = l.bit_low;
            assert((v >> lo) & (((1u64 << w) - 1) as u64) < 0x10000 && 1u64 << w >= 1) by (bit_vector)
                requires
                    w <= 16,
            ;
        }
        let idx: u64 = (vaddr.0 >> l.bit_low) & ((1u64 << width) - 1);
        proof {
            assert(idx == spec_level_index(def@.levels[lvl as int], vaddr.0));
            vstd::arithmetic::mul::lemma_mul_upper_bound(
                idx as int,
                0x10000,
                def.pte_size as int,
                8,
            );
        }
        let pa: u64 = table + idx * def.pte_size;
        if pa + def.pte_size > total as u64 {
            return Err(Error::OutOfBounds);
        }
        let mut buf = crate::buffer::zero_vec(def.pte_size as usize);
        let r1 = crate::phys_mem::phys_read_into(
            mem,
            PhysicalAddress::with_address(Address(pa)),
            &mut buf,
        );
        match r1 {
            Err(_) => {
                proof {
                    assert(!old(mem).ok_on(pa as int, def.pte_size as int));
                }
                return Err(Error::ConnectorIoRead);
            },
            Ok(()) => {},
        }
        let pte = le_value(&buf, def.pte_size as usize);
        proof {
            lemma_le_bytes_shift(
                buf@,
                0,
                old(mem).mem(),
                pa as int,
                def.pte_size as int,
            );
            lemma_le_bytes_bound(old(mem).mem(), pa as int, def.pte_size as int);
            assert(pow256(8) == 0x1_0000_0000_0000_0000) by {
                reveal_with_fuel(pow256, 10);
            }
            lemma_pow256_increases(def.pte_size as int, 8);
            assert(pte == spec_le_bytes(old(mem).mem(), pa as int, def.pte_size as int) as u64);
        }
        if pte & def.present_mask == 0 {
            return Err(Error::PageNotPresent);
        }
        let large = (pte & def.large_page_mask != 0) == def.large_page_when_set;
        if lvl == n_levels - 1 {
            if !def.large_page_when_set && large {
                return Err(Error::PageNotPresent);
            }
            let size: u64 = 1u64 << def.page_shift;
            let base: u64 = pte & def.addr_mask;
            proof {
                let am = def.addr_mask;
                let p = pte;
                assert(p & am <= am) by (bit_vector);
                let sh = def.page_shift;
                assert(1u64 << sh >= 1 && 1u64 << sh <= 0x4000_0000) by (bit_vector)
                    requires
                        12 <= sh && sh <= 30,
                ;
                vstd::arithmetic::div_mod::lemma_mod_division_less_than_divisor(
                    vaddr.0 as int,
                    size as int,
                );
            }
            return Ok(
                PhysicalAddress {
                    address: Address(base + vaddr.0 % size),
                    page: Some(
                        Page {
                            page_type: pte_page_type(def, pte),
                            page_size: size,
                            page_base: Address(base),
                        },
                    ),
                },
            );
        }
        if l.large_page && large {
            let size: u64 = 1u64 << l.bit_low;
            let masked: u64 = pte & def.addr_mask;
            proof {
                let am = def.addr_mask;
                let p = pte;
                assert(p & am <= am) by (bit_vector);
                let lo = l.bit_low;
                assert(1u64 << lo >= 1 && 1u64 << lo <= 0x8_0000_0000_0000) by (bit_vector)
                    requires
                        12 <= lo && lo <= 51,
                ;
                crate::types::lemma_align_down(masked, size);
                vstd::arithmetic::div_mod::lemma_mod_division_less_than_divisor(
                    vaddr.0 as int,
                    size as int,
                );
            }
            let base: u64 = masked - masked % size;
            return Ok(
                PhysicalAddress {
                    address: Address(base + vaddr.0 % size),
                    page: Some(
                        Page {
                            page_type: pte_page_type(def, pte),
                            page_size: size,
                            page_base: Address(base),
                        },
                    ),
                },
            );
        }
        proof {
            let am = def.addr_mask;
            let p = pte;
            assert(p & am <= am) by (bit_vector);
        }
        table = pte & def.addr_mask;
        lvl = lvl + 1;
    }
}

/// The page attributes a mapping entry grants.
fn pte_page_type(def: &ArchMmuDef, pte: u64) -> (r: PageType)
    ensures
        r == spec_pte_page_type(def@, pte),
{
    let rw = if (pte & def.writeable_mask != 0) == def.writeable_when_set {
        PAGE_WRITEABLE
    } else {
        PAGE_READ_ONLY
    };
    let nx = if pte & def.nx_mask != 0 {
        PAGE_NO_EXEC
    } else {
        0
    };
    PageType(rw | nx)
}

impl ArchMmuDef {
    /// The walk definition of an architecture.
    ///
    /// x86 without extensions walks two levels of 32-bit entries; with
    /// physical address extensions, three levels of 64-bit entries; the
    /// 64-bit architectures walk four levels of 64-bit entries over 48
    /// bits of virtual address. On x86 a set bit 7 marks a large page,
    /// bit 1 writability and bit 63 no-execute; on 64-bit Arm a clear
    /// bit 1 marks a block, a set bit 7 read-only memory and bit 54
    /// no-execute.
    pub fn of_arch(arch: Architecture) -> (r: ArchMmuDef)
        ensures
            r@.wf(),
            r@ == spec_def_of_arch(arch),
    {
        let mut levels: Vec<MmuLevel> = Vec::new();
        match arch {
            Architecture::X86 => {
                levels.push(MmuLevel { bit_low: 22, bit_high: 32, large_page: true });
                levels.push(MmuLevel { bit_low: 12, bit_high: 22, large_page: false });
                let r = ArchMmuDef {
                    levels,
                    page_shift: 12,
                    pte_size: 4,
                    addr_mask: 0xffff_f000,
                    present_mask: 1,
                    large_page_mask: 0x80,
                    large_page_when_set: true,
                    writeable_mask: 2,
                    writeable_when_set: true,
                    nx_mask: 0,
                };
                proof {
                    assert(r@.levels =~= spec_def_of_arch(arch).levels);
                    let am = r.addr_mask;
                    let sh = r.page_shift;
                    assert((am >> sh) << sh == am) by (bit_vector)
                        requires
                            sh == 12u64 && (am == 0xffff_f000u64 || am
                                == 0x000f_ffff_ffff_f000u64),
                    ;
                }
                r
            },
            Architecture::X86Pae => {
                levels.push(MmuLevel { bit_low: 30, bit_high: 32, large_page: false });
                levels.push(MmuLevel { bit_low: 21, bit_high: 30, large_page: true });
                levels.push(MmuLevel { bit_low: 12, bit_high: 21, large_page: false });
                let r = ArchMmuDef {
                    levels,
                    page_shift: 12,
                    pte_size: 8,
                    addr_mask: 0x000f_ffff_ffff_f000,
                    present_mask: 1,
                    large_page_mask: 0x80,
                    large_page_when_set: true,
                    writeable_mask: 2,
                    writeable_when_set: true,
                    nx_mask: 0x8000_0000_0000_0000,
                };
                proof {
                    assert(r@.levels =~= spec_def_of_arch(arch).levels);
                    let am = r.addr_mask;
                    let sh = r.page_shift;
                    assert((am >> sh) << sh == am) by (bit_vector)
                        requires
                            sh == 12u64 && (am == 0xffff_f000u64 || am
                                == 0x000f_ffff_ffff_f000u64),
                    ;
                }
                r
            },
            Architecture::X64 => {
                levels.push(MmuLevel { bit_low: 39, bit_high: 48, large_page: false });
                levels.push(MmuLevel { bit_low: 30, bit_high: 39, large_page: true });
                levels.push(MmuLevel { bit_low: 21, bit_high: 30, large_page: true });
                levels.push(MmuLevel { bit_low: 12, bit_high: 21, large_page: false });
                let r = ArchMmuDef {
                    levels,
                    page_shift: 12,
                    pte_size: 8,
                    addr_mask: 0x000f_ffff_ffff_f000,
                    present_mask: 1,
                    large_page_mask: 0x80,
                    large_page_when_set: true,
                    writeable_mask: 2,
                    writeable_when_set: true,
                    nx_mask: 0x8000_0000_0000_0000,
                };
                proof {
                    assert(r@.levels =~= spec_def_of_arch(arch).levels);
                    let am = r.addr_mask;
                    let sh = r.page_shift;
                    assert((am >> sh) << sh == am) by (bit_vector)
                        requires
                            sh == 12u64 && (am == 0xffff_f000u64 || am
                                == 0x000f_ffff_ffff_f000u64),
                    ;
                }
                r
            },
            Architecture::AArch64 => {
                levels.push(MmuLevel { bit_low: 39, bit_high: 48, large_page: false });
                levels.push(MmuLevel { bit_low: 30, bit_high: 39, large_page: true });
                levels.push(MmuLevel { bit_low: 21, bit_high: 30, large_page: true });
                levels.push(MmuLevel { bit_low: 12, bit_high: 21, large_page: false });
                let r = ArchMmuDef {
                    levels,
                    page_shift: 12,
                    pte_size: 8,
                    addr_mask: 0x000f_ffff_ffff_f000,
                    present_mask: 1,
                    large_page_mask: 2,
                    large_page_when_set: false,
                    writeable_mask: 0x80,
                    writeable_when_set: false,
                    nx_mask: 0x0040_0000_0000_0000,
                };
                proof {
                    assert(r@.levels =~= spec_def_of_arch(arch).levels);
                    let am = r.addr_mask;
                    let sh = r.page_shift;
                    assert((am >> sh) << sh == am) by (bit_vector)
                        requires
                            sh == 12u64 && (am == 0xffff_f000u64 || am
                                == 0x000f_ffff_ffff_f000u64),
                    ;
                }
                r
            },
        }
    }
}

/// The walk definition of each architecture, as a mathematical value.
pub open spec fn spec_def_of_arch(arch: Architecture) -> MmuDefView {
    match arch {
        Architecture::X86 => MmuDefView {
            levels: seq![
                MmuLevel { bit_low: 22, bit_high: 32, large_page: true },
                MmuLevel { bit_low: 12, bit_high: 22, large_page: false },
            ],
            page_shift: 12,
            pte_size: 4,
            addr_mask: 0xffff_f000,
            present_mask: 1,
            large_page_mask: 0x80,
            large_page_when_set: true,
            writeable_mask: 2,
            writeable_when_set: true,
            nx_mask: 0,
        },
        Architecture::X86Pae => MmuDefView {
            levels: seq![
                MmuLevel { bit_low: 30, bit_high: 32, large_page: false },
                MmuLevel { bit_low: 21, bit_high: 30, large_page: true },
                MmuLevel { bit_low: 12, bit_high: 21, large_page: false },
            ],
            page_shift: 12,
            pte_size: 8,
            addr_mask: 0x000f_ffff_ffff_f000,
            present_mask: 1,
            large_page_mask: 0x80,
            large_page_when_set: true,
            writeable_mask: 2,
            writeable_when_set: true,
            nx_mask: 0x8000_0000_0000_0000,
        },
        Architecture::X64 => MmuDefView {
            levels: seq![
                MmuLevel { bit_low: 39, bit_high: 48, large_page: false },
                MmuLevel { bit_low: 30, bit_high: 39, large_page: true },
                MmuLevel { bit_low: 21, bit_high: 30, large_page: true },
                MmuLevel { bit_low: 12, bit_high: 21, large_page: false },
            ],
            page_shift: 12,
            pte_size: 8,
            addr_mask: 0x000f_ffff_ffff_f000,
            present_mask: 1,
            large_page_mask: 0x80,
            large_page_when_set: true,
            writeable_mask: 2,
            writeable_when_set: true,
            nx_mask: 0x8000_0000_0000_0000,
        },
        Architecture::AArch64 => MmuDefView {
            levels: seq![
                MmuLevel { bit_low: 39, bit_high: 48, large_page: false },
                MmuLevel { bit_low: 30, bit_high: 39, large_page: true },
                MmuLevel { bit_low: 21, bit_high: 30, large_page: true },
                MmuLevel { bit_low: 12, bit_high: 21, large_page: false },
            ],
            page_shift: 12,
            pte_size: 8,
            addr_mask: 0x000f_ffff_ffff_f000,
            present_mask: 1,
            large_page_mask: 2,
            large_page_when_set: false,
            writeable_mask: 0x80,
            writeable_when_set: false,
            nx_mask: 0x0040_0000_0000_0000,
        },
    }
}

/// Shifting two addresses of the same `2^sh` block right by any
/// `lo >= sh` gives the same value.
proof fn lemma_same_block_same_shr(va1: u64, va2: u64, sh: u64, lo: u64)
    requires
        sh <= lo < 64,
        (va1 as int) / (pow2(sh as nat) as int) == (va2 as int) / (pow2(sh as nat) as int),
    ensures
        va1 >> lo == va2 >> lo,
{
    vstd::bits::lemma_u64_shr_is_div(va1, lo);
    vstd::bits::lemma_u64_shr_is_div(va2, lo);
    vstd::arithmetic::power2::lemma_pow2_pos(sh as nat);
    vstd::arithmetic::power2::lemma_pow2_pos((lo - sh) as nat);
    vstd::arithmetic::power2::lemma_pow2_adds(sh as nat, (lo - sh) as nat);
    vstd::arithmetic::div_mod::lemma_div_denominator(
        va1 as int,
        pow2(sh as nat) as int,
        pow2((lo - sh) as nat) as int,
    );
    vstd::arithmetic::div_mod::lemma_div_denominator(
        va2 as int,
        pow2(sh as nat) as int,
        pow2((lo - sh) as nat) as int,
    );
}

/// Two addresses of the same `2^sh` block keep their distance under
/// `mod 2^lo` for any `lo >= sh`.
proof fn lemma_same_block_mod(va1: u64, va2: u64, sh: u64, lo: u64)
    requires
        sh <= lo < 64,
        (va1 as int) / (pow2(sh as nat) as int) == (va2 as int) / (pow2(sh as nat) as int),
    ensures
        (va2 as int) % (pow2(lo as nat) as int) - (va1 as int) % (pow2(lo as nat) as int)
            == va2 - va1,
{
    vstd::arithmetic::power2::lemma_pow2_pos(sh as nat);
    vstd::arithmetic::power2::lemma_pow2_pos(lo as nat);
    vstd::arithmetic::power2::lemma_pow2_pos((lo - sh) as nat);
    vstd::arithmetic::power2::lemma_pow2_adds(sh as nat, (lo - sh) as nat);
    vstd::arithmetic::div_mod::lemma_div_denominator(
        va1 as int,
        pow2(sh as nat) as int,
        pow2((lo - sh) as nat) as int,
    );
    vstd::arithmetic::div_mod::lemma_div_denominator(
        va2 as int,
        pow2(sh as nat) as int,
        pow2((lo - sh) as nat) as int,
    );
    vstd::arithmetic::div_mod::lemma_fundamental_div_mod(va1 as int, pow2(lo as nat) as int);
    vstd::arithmetic::div_mod::lemma_fundamental_div_mod(va2 as int, pow2(lo as nat) as int);
}

/// `1 << sh` is `pow2(sh)` for shifts that fit.
proof fn lemma_shl1_is_pow2(sh: u64)
    requires
        sh < 64,
    ensures
        (1u64 << sh) as int == pow2(sh as nat) as int,
{
    vstd::arithmetic::power2::lemma2_to64();
    vstd::arithmetic::power2::lemma2_to64_rest();
    if sh < 63 {
        vstd::arithmetic::power2::lemma_pow2_strictly_increases(sh as nat, 63);
    }
    vstd::bits::lemma_u64_shl_is_mul(1u64, sh);
}

/// Law (translation is linear within a page): two virtual addresses of
/// the same page walk to the same outcome, and when mapped, to physical
/// addresses exactly as far apart as the virtual ones. Reading a span
/// that lies within one page at the physical address of its first byte
/// therefore reads every byte of the span correctly.
pub proof fn lemma_walk_level_same_page(
    def: MmuDefView,
    m: Seq<u8>,
    table: u64,
    va1: u64,
    va2: u64,
    lvl: int,
)
    requires
        def.wf(),
        0 <= lvl < def.levels.len(),
        (va1 as int) / (pow2(def.page_shift as nat) as int) == (va2 as int) / (pow2(
            def.page_shift as nat,
        ) as int),
    ensures
        match spec_walk_level(def, m, table, va1, lvl) {
            WalkResult::Mapped(p1, pg) => spec_walk_level(def, m, table, va2, lvl)
                == WalkResult::Mapped(((p1 as int) + (va2 as int) - (va1 as int)) as u64, pg),
            WalkResult::NotPresent => spec_walk_level(def, m, table, va2, lvl)
                == WalkResult::NotPresent,
            WalkResult::OutOfBounds => spec_walk_level(def, m, table, va2, lvl)
                == WalkResult::OutOfBounds,
        },
    decreases def.levels.len() - lvl,
{
    let l = def.levels[lvl];
    let sh = def.page_shift;
    lemma_same_block_same_shr(va1, va2, sh, l.bit_low);
    assert(spec_level_index(l, va1) == spec_level_index(l, va2));
    let idx = spec_level_index(l, va1);
    let pa = table + idx * def.pte_size;
    if pa + def.pte_size > m.len() {
    } else {
        let pte = spec_le_bytes(m, pa as int, def.pte_size as int) as u64;
        if pte & def.present_mask == 0 {
        } else if lvl == def.levels.len() - 1 {
            if !def.large_page_when_set && spec_is_large(def, pte) {
            } else {
                let am = def.addr_mask;
                let p = pte;
                assert(p & am <= am) by (bit_vector);
                assert(1u64 << sh <= 0x4000_0000 && 1u64 << sh >= 1) by (bit_vector)
                    requires
                        sh <= 30,
                ;
                let size = 1u64 << sh;
                lemma_shl1_is_pow2(sh);
                lemma_same_block_mod(va1, va2, sh, sh);
                vstd::arithmetic::div_mod::lemma_mod_division_less_than_divisor(
                    va1 as int,
                    size as int,
                );
                vstd::arithmetic::div_mod::lemma_mod_division_less_than_divisor(
                    va2 as int,
                    size as int,
                );
                assert((va2 as int) % (size as int) - (va1 as int) % (size as int) == va2
                    - va1);
                assert(spec_walk_level(def, m, table, va2, lvl) == WalkResult::Mapped(
                    ((((p & am) + va1 % size) as u64) as int + (va2 as int) - (va1 as int))
                        as u64,
                    Page {
                        page_type: spec_pte_page_type(def, pte),
                        page_size: size,
                        page_base: Address(p & am),
                    },
                ));
            }
        } else if l.large_page && spec_is_large(def, pte) {
            let am = def.addr_mask;
            let p = pte;
            assert(p & am <= am) by (bit_vector);
            let lo = l.bit_low;
            assert(1u64 << lo <= 0x8_0000_0000_0000 && 1u64 << lo >= 1) by (bit_vector)
                requires
                    lo <= 51,
            ;
            let size = 1u64 << lo;
            lemma_shl1_is_pow2(lo);
            lemma_same_block_mod(va1, va2, sh, lo);
            vstd::arithmetic::div_mod::lemma_mod_division_less_than_divisor(
                va1 as int,
                size as int,
            );
            vstd::arithmetic::div_mod::lemma_mod_division_less_than_divisor(
                va2 as int,
                size as int,
            );
            vstd::arithmetic::div_mod::lemma_mod_division_less_than_divisor(
                (p & am) as int,
                size as int,
            );
            vstd::arithmetic::div_mod::lemma_mod_decreases((p & am) as nat, size as nat);
            assert((va2 as int) % (size as int) - (va1 as int) % (size as int) == va2 - va1);
            let masked = p & am;
            let base2 = (masked - masked % size) as u64;
            assert(spec_walk_level(def, m, table, va2, lvl) == WalkResult::Mapped(
                (((base2 + va1 % size) as u64) as int + (va2 as int) - (va1 as int)) as u64,
                Page {
                    page_type: spec_pte_page_type(def, pte),
                    page_size: size,
                    page_base: Address(base2),
                },
            ));
        } else {
            lemma_walk_level_same_page(def, m, pte & def.addr_mask, va1, va2, lvl + 1);
            assert(spec_walk_level(def, m, table, va1, lvl) == spec_walk_level(
                def,
                m,
                pte & def.addr_mask,
                va1,
                lvl + 1,
            ));
            assert(spec_walk_level(def, m, table, va2, lvl) == spec_walk_level(
                def,
                m,
                pte & def.addr_mask,
                va2,
                lvl + 1,
            ));
        }
    }
}

/// The whole-walk form of the same-page law, from the translation base.
pub proof fn lemma_walk_same_page(def: MmuDefView, m: Seq<u8>, dtb: u64, va1: u64, va2: u64)
    requires
        def.wf(),
        (va1 as int) / (pow2(def.page_shift as nat) as int) == (va2 as int) / (pow2(
            def.page_shift as nat,
        ) as int),
    ensures
        match spec_walk(def, m, dtb, va1) {
            WalkResult::Mapped(p1, pg) => spec_walk(def, m, dtb, va2) == WalkResult::Mapped(
                ((p1 as int) + (va2 as int) - (va1 as int)) as u64,
                pg,
            ),
            WalkResult::NotPresent => spec_walk(def, m, dtb, va2) == WalkResult::NotPresent,
            WalkResult::OutOfBounds => spec_walk(def, m, dtb, va2) == WalkResult::OutOfBounds,
        },
{
    lemma_walk_level_same_page(def, m, dtb & def.addr_mask, va1, va2, 0);
}


/// The walk definition of every supported architecture is well formed.
pub proof fn lemma_def_of_arch_wf(arch: Architecture)
    ensures
        spec_def_of_arch(arch).wf(),
{
    let d = spec_def_of_arch(arch);
    assert((0xffff_f000u64 >> 12u64) << 12u64 == 0xffff_f000u64) by (bit_vector);
    assert((0x000f_ffff_ffff_f000u64 >> 12u64) << 12u64 == 0x000f_ffff_ffff_f000u64)
        by (bit_vector);
    match arch {
        Architecture::X86 => {
            assert forall|i: int| 0 <= i < d.levels.len() implies {
                &&& d.page_shift <= (#[trigger] d.levels[i]).bit_low
                &&& d.levels[i].bit_low < d.levels[i].bit_high
                &&& d.levels[i].bit_high <= 52
                &&& d.levels[i].bit_high - d.levels[i].bit_low <= 16
            } by {
                if i == 0 {
                } else {
                    assert(i == 1);
                }
            }
        },
        Architecture::X86Pae => {
            assert forall|i: int| 0 <= i < d.levels.len() implies {
                &&& d.page_shift <= (#[trigger] d.levels[i]).bit_low
                &&& d.levels[i].bit_low < d.levels[i].bit_high
                &&& d.levels[i].bit_high <= 52
                &&& d.levels[i].bit_high - d.levels[i].bit_low <= 16
            } by {
                if i == 0 {
                } else if i == 1 {
                } else {
                    assert(i == 2);
                }
            }
        },
        Architecture::X64 => {
            assert forall|i: int| 0 <= i < d.levels.len() implies {
                &&& d.page_shift <= (#[trigger] d.levels[i]).bit_low
                &&& d.levels[i].bit_low < d.levels[i].bit_high
                &&& d.levels[i].bit_high <= 52
                &&& d.levels[i].bit_high - d.levels[i].bit_low <= 16
            } by {
                if i == 0 {
                } else if i == 1 {
                } else if i == 2 {
                } else {
                    assert(i == 3);
                }
            }
        },
        Architecture::AArch64 => {
            assert forall|i: int| 0 <= i < d.levels.len() implies {
                &&& d.page_shift <= (#[trigger] d.levels[i]).bit_low
                &&& d.levels[i].bit_low < d.levels[i].bit_high
                &&& d.levels[i].bit_high <= 52
                &&& d.levels[i].bit_high - d.levels[i].bit_low <= 16
            } by {
                if i == 0 {
                } else if i == 1 {
                } else if i == 2 {
                } else {
                    assert(i == 3);
                }
            }
        },
    }
}


} // verus!
