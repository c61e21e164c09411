//! The direct-mapped physical page cache with its two-phase validation
//! protocol, and the validator policy objects that track per-slot
//! validity.
//!
//! Slot `i` of the cache holds one page-aligned page-sized buffer. An
//! address maps to slot `page_index(a) = (a / page_size) mod slot_count`.
//! A slot can be *reserved* for an in-flight fill through the pending
//! address (`address_once_validated`); a second request for a different
//! page that collides on the same slot is told to bypass the cache, which
//! keeps in-flight fills from aliasing one another.

use vstd::prelude::*;
use vstd::arithmetic::div_mod::lemma_mod_division_less_than_divisor;
use crate::architecture::Architecture;
use crate::buffer::zero_vec;
use crate::phys_mem::{PhysicalMemory, PhysicalReadData, PhysicalReadType};
use crate::types::{spec_align_down, Address, Error, Page, PageType, PhysicalAddress, INVALID_ADDRESS};

verus! {

/// Per-slot validity policy: which slots currently hold trustworthy data.
///
/// Callers may bring their own policy (for example one driven by a
/// deadline), so the policy is a trait; the crate ships a per-slot flag
/// implementation and a generation counter that drops every slot at
/// once.
pub trait CacheValidator: Sized {
    /// How many slots the policy tracks.
    spec fn slot_count(&self) -> int;

    /// Whether slot `i` is currently valid.
    spec fn slot_valid(&self, i: int) -> bool;

    /// Resizes the policy to `slot_count` slots, all invalid.
    fn allocate_slots(&mut self, slot_count: usize)
        ensures
            final(self).slot_count() == slot_count,
            forall|i: int| !final(self).slot_valid(i),
    ;

    /// Reads the validity of slot `idx`.
    fn is_slot_valid(&self, idx: usize) -> (r: bool)
        requires
            idx < self.slot_count(),
        ensures
            r == self.slot_valid(idx as int),
    ;

    /// Marks slot `idx` valid, leaving every other slot unchanged.
    fn validate_slot(&mut self, idx: usize)
        requires
            idx < old(self).slot_count(),
        ensures
            final(self).slot_count() == old(self).slot_count(),
            forall|i: int|
                final(self).slot_valid(i) == (i == idx as int || old(self).slot_valid(i)),
    ;

    /// Marks slot `idx` invalid, leaving every other slot unchanged.
    fn invalidate_slot(&mut self, idx: usize)
        requires
            idx < old(self).slot_count(),
        ensures
            final(self).slot_count() == old(self).slot_count(),
            forall|i: int|
                final(self).slot_valid(i) == (i != idx as int && old(self).slot_valid(i)),
    ;
}

/// The plain validator: one flag per slot.
pub struct DefaultCacheValidator {
    valid: Vec<bool>,
}

impl DefaultCacheValidator {
    /// A policy with no slots; `allocate_slots` sizes it.
    pub fn new() -> (r: DefaultCacheValidator)
        ensures
            r.slot_count() == 0,
            forall|i: int| !r.slot_valid(i),
    {
        DefaultCacheValidator { valid: Vec::new() }
    }
}

impl CacheValidator for DefaultCacheValidator {
    closed spec fn slot_count(&self) -> int {
        self.valid@.len() as int
    }

    closed spec fn slot_valid(&self, i: int) -> bool {
        0 <= i < self.valid@.len() && self.valid@[i]
    }

    fn allocate_slots(&mut self, slot_count: usize) {
        let mut v: Vec<bool> = Vec::new();
        let mut i: usize = 0;
        while i < slot_count
            invariant
                i <= slot_count,
                v@.len() == i,
                forall|k: int| 0 <= k < i ==> !v@[k],
            decreases slot_count - i,
        {
            v.push(false);
            i = i + 1;
        }
        self.valid = v;
    }

    fn is_slot_valid(&self, idx: usize) -> (r: bool) {
        self.valid[idx]
    }

    fn validate_slot(&mut self, idx: usize) {
        self.valid[idx] = true;
    }

    fn invalidate_slot(&mut self, idx: usize) {
        self.valid[idx] = false;
    }
}

/// The generation validator: a slot is valid while its stamp matches
/// the current generation, so one bump drops every slot at once, the
/// way a translation-lookaside buffer is flushed.
pub struct TlbCacheValidator {
    generation: u64,
    stamps: Vec<u64>,
}

impl TlbCacheValidator {
    /// No stamp is ever ahead of the current generation, and the
    /// generation counter never rests at zero, the stamp of a dropped
    /// slot.
    #[verifier::type_invariant]
    closed spec fn stamps_behind(&self) -> bool {
        &&& self.generation >= 1
        &&& forall|i: int|
            0 <= i < self.stamps@.len() ==> #[trigger] self.stamps@[i] <= self.generation
    }

    /// A policy with no slots; `allocate_slots` sizes it.
    pub fn new() -> (r: TlbCacheValidator)
        ensures
            r.slot_count() == 0,
            forall|i: int| !r.slot_valid(i),
    {
        TlbCacheValidator { generation: 1, stamps: Vec::new() }
    }

    /// Starts a new generation: every slot becomes invalid at once, at
    /// constant cost.
    pub fn bump_generation(&mut self)
        ensures
            final(self).slot_count() == old(self).slot_count(),
            forall|i: int| !final(self).slot_valid(i),
    {
        proof {
            use_type_invariant(&*self);
        }
        if self.generation == u64::MAX {
            // The stamps can no longer be outrun; drop them instead.
            let n = self.stamps.len();
            let mut v: Vec<u64> = Vec::new();
            let mut i: usize = 0;
            while i < n
                invariant
                    i <= n,
                    v@.len() == i,
                    forall|k: int| 0 <= k < i ==> #[trigger] v@[k] == 0u64,
                decreases n - i,
            {
                v.push(0);
                i = i + 1;
            }
            self.stamps = v;
            self.generation = 1;
        } else {
            self.generation = self.generation + 1;
        }
    }
}

impl CacheValidator for TlbCacheValidator {
    closed spec fn slot_count(&self) -> int {
        self.stamps@.len() as int
    }

    closed spec fn slot_valid(&self, i: int) -> bool {
        0 <= i < self.stamps@.len() && self.stamps@[i] == self.generation
            && self.generation >= 1
    }

    fn allocate_slots(&mut self, slot_count: usize) {
        proof {
            use_type_invariant(&*self);
        }
        let mut v: Vec<u64> = Vec::new();
        let mut i: usize = 0;
        while i < slot_count
            invariant
                i <= slot_count,
                v@.len() == i,
                forall|k: int| 0 <= k < i ==> #[trigger] v@[k] == 0u64,
            decreases slot_count - i,
        {
            v.push(0);
            i = i + 1;
        }
        self.stamps = v;
    }

    fn is_slot_valid(&self, idx: usize) -> (r: bool) {
        proof {
            use_type_invariant(&*self);
        }
        self.stamps[idx] == self.generation
    }

    fn validate_slot(&mut self, idx: usize) {
        proof {
            use_type_invariant(&*self);
        }
        let generation = self.generation;
        let mut stamps: Vec<u64> = Vec::new();
        core::mem::swap(&mut stamps, &mut self.stamps);
        stamps[idx] = generation;
        core::mem::swap(&mut stamps, &mut self.stamps);
    }

    fn invalidate_slot(&mut self, idx: usize) {
        proof {
            use_type_invariant(&*self);
        }
        let mut stamps: Vec<u64> = Vec::new();
        core::mem::swap(&mut stamps, &mut self.stamps);
        stamps[idx] = 0;
        core::mem::swap(&mut stamps, &mut self.stamps);
    }
}

/// What the cache answers when asked for a page: a copy of the slot's
/// bytes together with the verdict of the two-phase protocol.
pub struct CacheEntry {
    /// The slot holds this very page and the validator vouches for it.
    pub valid: bool,
    /// The slot is reserved for this page: the caller should fill and
    /// validate it. When neither this nor `valid` is set, the caller must
    /// bypass the cache for this request.
    pub should_validate: bool,
    /// The page-aligned address of the requested page.
    pub address: Address,
    /// The current bytes of the slot.
    pub buf: Vec<u8>,
}

impl CacheEntry {
    /// Builds an entry from its parts.
    pub fn with(valid: bool, should_validate: bool, address: Address, buf: Vec<u8>) -> (r:
        CacheEntry)
        ensures
            r.valid == valid,
            r.should_validate == should_validate,
            r.address == address,
            r.buf == buf,
    {
        CacheEntry { valid, should_validate, address, buf }
    }

    /// Whether the entry's bytes are the requested page.
    pub fn is_valid(&self) -> (r: bool)
        ensures
            r == self.valid,
    {
        self.valid
    }

    /// The page-aligned address of the requested page.
    pub fn address(&self) -> (r: Address)
        ensures
            r == self.address,
    {
        self.address
    }

    /// Whether the caller should fill and validate the slot.
    pub fn should_validate(&self) -> (r: bool)
        ensures
            r == self.should_validate,
    {
        self.should_validate
    }
}

/// The direct-mapped page cache. Each slot holds one page; only pages
/// whose type is a subset of `page_type_mask` ever occupy a slot.
pub struct PageCache<T: CacheValidator> {
    address: Vec<u64>,
    slots: Vec<Vec<u8>>,
    address_once_validated: Vec<u64>,
    page_size: usize,
    page_type_mask: PageType,
    validator: T,
}

impl<T: CacheValidator> PageCache<T> {
    /// Number of slots.
    pub closed spec fn spec_num_slots(&self) -> int {
        self.address@.len() as int
    }

    /// Page size in bytes.
    pub closed spec fn spec_page_size(&self) -> int {
        self.page_size as int
    }

    /// The page-type mask: only pages whose type is a subset are cached.
    pub closed spec fn spec_mask(&self) -> PageType {
        self.page_type_mask
    }

    /// The page-aligned address slot `i` claims to hold.
    pub closed spec fn spec_slot_addr(&self, i: int) -> u64 {
        self.address@[i]
    }

    /// The address slot `i` is reserved for, or `INVALID_ADDRESS`.
    pub closed spec fn spec_pending(&self, i: int) -> u64 {
        self.address_once_validated@[i]
    }

    /// The bytes of slot `i`.
    pub closed spec fn spec_slot_data(&self, i: int) -> Seq<u8> {
        self.slots@[i]@
    }

    /// Whether the validator vouches for slot `i`.
    pub closed spec fn spec_slot_valid(&self, i: int) -> bool {
        self.validator.slot_valid(i)
    }

    /// All internal vectors and the validator agree on the slot count.
    pub closed spec fn lens_ok(&self) -> bool {
        &&& self.slots@.len() == self.address@.len()
        &&& self.address_once_validated@.len() == self.address@.len()
        &&& self.validator.slot_count() == self.address@.len()
    }

    /// The slot an address maps to: `(a / page_size) mod slot_count`.
    pub open spec fn spec_page_index(&self, a: u64) -> int {
        ((a as int) / self.spec_page_size()) % self.spec_num_slots()
    }

    /// `a` aligned down to this cache's page size.
    pub open spec fn spec_aligned(&self, a: u64) -> u64 {
        spec_align_down(a, self.spec_page_size() as u64)
    }

    /// Law (direct mapping): the slot of an address is the slot of its
    /// page-aligned start, `(aligned(a) / page_size) mod slot_count`;
    /// aligning does not change the page number, so the two index
    /// formulas agree.
    pub proof fn lemma_page_index_direct_mapping(&self, a: u64)
        requires
            self.spec_page_size() >= 1,
            self.spec_num_slots() >= 1,
        ensures
            self.spec_page_index(a) == ((self.spec_aligned(a) as int) / self.spec_page_size())
                % self.spec_num_slots(),
            self.spec_page_index(a) == self.spec_page_index(self.spec_aligned(a)),
            0 <= self.spec_page_index(a) < self.spec_num_slots(),
    {
        crate::types::lemma_align_down(a, self.spec_page_size() as u64);
        lemma_mod_division_less_than_divisor(
            (a as int) / self.spec_page_size(),
            self.spec_num_slots(),
        );
    }

    /// Structural well-formedness: consistent lengths, at least one slot,
    /// and every slot buffer exactly one page long.
    pub open spec fn wf(&self) -> bool {
        &&& self.lens_ok()
        &&& self.spec_num_slots() >= 1
        &&& 1 <= self.spec_page_size() <= u64::MAX
        &&& forall|i: int|
            0 <= i < self.spec_num_slots() ==> self.spec_slot_data(i).len()
                == self.spec_page_size()
    }

    /// `a` is a page-aligned address that maps to slot `i`.
    pub open spec fn addr_consistent(&self, a: u64, i: int) -> bool {
        &&& self.spec_aligned(a) == a
        &&& self.spec_page_index(a) == i
    }

    /// The cache invariant: well-formed, every validator-valid slot holds
    /// a page-aligned address that maps to that very slot, and every
    /// reserved (pending) address is page-aligned and maps to its slot.
    pub open spec fn inv(&self) -> bool {
        &&& self.wf()
        &&& forall|i: int|
            0 <= i < self.spec_num_slots() && self.spec_slot_valid(i) ==> self.addr_consistent(
                #[trigger] self.spec_slot_addr(i),
                i,
            )
        &&& forall|i: int|
            0 <= i < self.spec_num_slots() && self.spec_pending(i) != INVALID_ADDRESS
                ==> self.addr_consistent(#[trigger] self.spec_pending(i), i)
    }

    /// Every validator-valid slot stores exactly the physical bytes at its
    /// address: the cache is a transparent copy of `m`.
    pub open spec fn coherent(&self, m: Seq<u8>) -> bool {
        forall|i: int|
            0 <= i < self.spec_num_slots() && self.spec_slot_valid(i) ==> {
                &&& #[trigger] self.spec_slot_addr(i) + self.spec_page_size() <= m.len()
                &&& self.spec_slot_data(i) == crate::buffer::spec_read_range(
                    m,
                    self.spec_slot_addr(i) as int,
                    self.spec_page_size(),
                )
            }
    }

    /// The two caches are observationally equal: same geometry and the
    /// same per-slot address, pending address, validity and bytes.
    pub open spec fn equiv(&self, o: &Self) -> bool {
        &&& o.spec_num_slots() == self.spec_num_slots()
        &&& o.spec_page_size() == self.spec_page_size()
        &&& o.spec_mask() == self.spec_mask()
        &&& forall|j: int|
            0 <= j < self.spec_num_slots() ==> #[trigger] o.spec_slot_addr(j)
                == self.spec_slot_addr(j)
        &&& forall|j: int|
            0 <= j < self.spec_num_slots() ==> #[trigger] o.spec_pending(j) == self.spec_pending(
                j,
            )
        &&& forall|j: int|
            0 <= j < self.spec_num_slots() ==> #[trigger] o.spec_slot_valid(j)
                == self.spec_slot_valid(j)
        &&& forall|j: int|
            0 <= j < self.spec_num_slots() ==> #[trigger] o.spec_slot_data(j)
                == self.spec_slot_data(j)
    }

    /// Slot `i` is unchanged between the two states: claimed address,
    /// reservation, validity and bytes.
    pub open spec fn slot_untouched(self, post: Self, i: int) -> bool {
        &&& post.spec_slot_addr(i) == self.spec_slot_addr(i)
        &&& post.spec_pending(i) == self.spec_pending(i)
        &&& post.spec_slot_valid(i) == self.spec_slot_valid(i)
        &&& post.spec_slot_data(i) == self.spec_slot_data(i)
    }

    /// At most slot `i`'s reservation moved: its claimed address,
    /// validity and bytes are unchanged.
    pub open spec fn slot_reserved_only(self, post: Self, i: int) -> bool {
        &&& post.spec_slot_addr(i) == self.spec_slot_addr(i)
        &&& post.spec_slot_valid(i) == self.spec_slot_valid(i)
        &&& post.spec_slot_data(i) == self.spec_slot_data(i)
    }

    /// Slot `i` validly holds the whole page at `al` exactly as the
    /// physical bytes `m` have it.
    pub open spec fn slot_holds_page(self, i: int, al: u64, m: Seq<u8>) -> bool {
        &&& self.spec_slot_addr(i) == al
        &&& self.spec_slot_valid(i)
        &&& al + self.spec_page_size() <= m.len()
        &&& self.spec_slot_data(i) == crate::buffer::spec_read_range(
            m,
            al as int,
            self.spec_page_size(),
        )
    }

    /// The page chunks of the span `[a, a + len)` under this cache's
    /// page size.
    pub open spec fn spec_span_chunks(self, a: u64, len: int) -> Seq<
        crate::page_chunks::PageChunk,
    > {
        crate::page_chunks::spec_chunks(a, len, self.spec_page_size() as u64)
    }

    /// Whether some chunk of the span maps to slot `i`.
    pub open spec fn span_touches_slot(self, a: u64, len: int, i: int) -> bool {
        exists|k: int|
            0 <= k < self.spec_span_chunks(a, len).len() && self.spec_page_index(
                (#[trigger] self.spec_span_chunks(a, len)[k]).addr,
            ) == i
    }

    /// The page of `a` is a hit: its slot claims exactly that page and
    /// the validator vouches for it.
    pub open spec fn chunk_hit(self, a: u64) -> bool {
        &&& self.spec_slot_addr(self.spec_page_index(a)) == self.spec_aligned(a)
        &&& self.spec_slot_valid(self.spec_page_index(a))
    }

    /// The slot of `a`'s page is free for `a`: unreserved, or already
    /// reserved for that very page.
    pub open spec fn chunk_reservable(self, a: u64) -> bool {
        ||| self.spec_pending(self.spec_page_index(a)) == INVALID_ADDRESS
        ||| self.spec_pending(self.spec_page_index(a)) == self.spec_aligned(a)
    }

    /// What one chunk costs the connector: nothing on a hit, one whole
    /// page read on a fillable miss, the chunk itself when it has to go
    /// past the cache.
    pub open spec fn chunk_read_trace(self, c: crate::page_chunks::PageChunk) -> Seq<
        (u64, int),
    > {
        if self.chunk_hit(c.addr) {
            Seq::empty()
        } else if self.chunk_reservable(c.addr) {
            seq![(self.spec_aligned(c.addr), self.spec_page_size())]
        } else {
            seq![(c.addr, c.len as int)]
        }
    }

    /// Chunk `k` of the span is the only chunk mapping to its slot; a
    /// span of at most `slot_count` pages has only such chunks.
    pub open spec fn span_chunk_unique(self, a: u64, len: int, k: int) -> bool {
        forall|k2: int|
            0 <= k2 < self.spec_span_chunks(a, len).len() && k2 != k ==> self.spec_page_index(
                (#[trigger] self.spec_span_chunks(a, len)[k2]).addr,
            ) != self.spec_page_index(self.spec_span_chunks(a, len)[k].addr)
    }

    /// Every chunk of the span is a hit: the whole read can be served
    /// from the slots without the connector.
    pub open spec fn spec_all_hits(self, a: u64, len: int) -> bool {
        forall|k: int|
            0 <= k < self.spec_span_chunks(a, len).len() ==> self.chunk_hit(
                (#[trigger] self.spec_span_chunks(a, len)[k]).addr,
            )
    }

    /// Geometry (slot count, page size, mask) is unchanged.
    pub open spec fn same_geometry(&self, o: &Self) -> bool {
        &&& o.spec_num_slots() == self.spec_num_slots()
        &&& o.spec_page_size() == self.spec_page_size()
        &&& o.spec_mask() == self.spec_mask()
    }

    /// The exact effect of `cached_page_mut(a)` returning `e`: no slot
    /// changes except possibly the pending address of `a`'s slot, and the
    /// verdict follows the two-phase protocol.
    pub open spec fn cached_page_post(self, post: Self, a: u64, e: CacheEntry) -> bool {
        let al = self.spec_aligned(a);
        let i = self.spec_page_index(a);
        &&& self.same_geometry(&post)
        &&& forall|j: int|
            0 <= j < self.spec_num_slots() ==> #[trigger] post.spec_slot_addr(j)
                == self.spec_slot_addr(j)
        &&& forall|j: int|
            0 <= j < self.spec_num_slots() ==> #[trigger] post.spec_slot_valid(j)
                == self.spec_slot_valid(j)
        &&& forall|j: int|
            0 <= j < self.spec_num_slots() ==> #[trigger] post.spec_slot_data(j)
                == self.spec_slot_data(j)
        &&& forall|j: int|
            0 <= j < self.spec_num_slots() && j != i ==> #[trigger] post.spec_pending(j)
                == self.spec_pending(j)
        &&& e.address.0 == al
        &&& e.buf@ == self.spec_slot_data(i)
        &&& if self.spec_slot_addr(i) == al && self.spec_slot_valid(i) {
            &&& e.valid
            &&& !e.should_validate
            &&& post.spec_pending(i) == self.spec_pending(i)
        } else if self.spec_pending(i) == INVALID_ADDRESS {
            &&& !e.valid
            &&& e.should_validate
            &&& post.spec_pending(i) == al
        } else {
            &&& !e.valid
            &&& e.should_validate == (al == self.spec_pending(i))
            &&& post.spec_pending(i) == self.spec_pending(i)
        }
    }

    /// The exact effect of `validate_page(a, pt)`: when `pt` is within the
    /// mask, `a`'s slot now claims `a`'s page, is validator-valid and has
    /// its reservation cleared; otherwise nothing changes. Slot bytes are
    /// never touched.
    pub open spec fn validate_page_post(self, post: Self, a: u64, pt: PageType) -> bool {
        let al = self.spec_aligned(a);
        let i = self.spec_page_index(a);
        if self.spec_mask().spec_contains(pt) {
            &&& self.same_geometry(&post)
            &&& forall|j: int|
                0 <= j < self.spec_num_slots() ==> #[trigger] post.spec_slot_addr(j) == if j == i {
                    al
                } else {
                    self.spec_slot_addr(j)
                }
            &&& forall|j: int|
                0 <= j < self.spec_num_slots() ==> #[trigger] post.spec_slot_valid(j) == (j == i
                    || self.spec_slot_valid(j))
            &&& forall|j: int|
                0 <= j < self.spec_num_slots() ==> #[trigger] post.spec_pending(j) == if j == i {
                    INVALID_ADDRESS
                } else {
                    self.spec_pending(j)
                }
            &&& forall|j: int|
                0 <= j < self.spec_num_slots() ==> #[trigger] post.spec_slot_data(j)
                    == self.spec_slot_data(j)
        } else {
            self.equiv(&post)
        }
    }

    /// The exact effect of `invalidate_page(a, pt)`: when `pt` is within
    /// the mask, `a`'s slot claims the null address, is validator-invalid
    /// and has its reservation cleared; otherwise nothing changes.
    pub open spec fn invalidate_page_post(self, post: Self, a: u64, pt: PageType) -> bool {
        let i = self.spec_page_index(a);
        if self.spec_mask().spec_contains(pt) {
            &&& self.same_geometry(&post)
            &&& forall|j: int|
                0 <= j < self.spec_num_slots() ==> #[trigger] post.spec_slot_addr(j) == if j == i {
                    0u64
                } else {
                    self.spec_slot_addr(j)
                }
            &&& forall|j: int|
                0 <= j < self.spec_num_slots() ==> #[trigger] post.spec_slot_valid(j) == (j != i
                    && self.spec_slot_valid(j))
            &&& forall|j: int|
                0 <= j < self.spec_num_slots() ==> #[trigger] post.spec_pending(j) == if j == i {
                    INVALID_ADDRESS
                } else {
                    self.spec_pending(j)
                }
            &&& forall|j: int|
                0 <= j < self.spec_num_slots() ==> #[trigger] post.spec_slot_data(j)
                    == self.spec_slot_data(j)
        } else {
            self.equiv(&post)
        }
    }

    /// Bridges the closed per-slot accessors of two cache values that
    /// share the corresponding fields.
    proof fn lemma_frame(pre: Self, post: Self)
        ensures
            pre.slots == post.slots ==> forall|i: int|
                #[trigger] post.spec_slot_data(i) == pre.spec_slot_data(i),
            pre.address == post.address ==> forall|i: int|
                #[trigger] post.spec_slot_addr(i) == pre.spec_slot_addr(i),
            pre.address_once_validated == post.address_once_validated ==> forall|i: int|
                #[trigger] post.spec_pending(i) == pre.spec_pending(i),
            pre.validator == post.validator ==> forall|i: int|
                #[trigger] post.spec_slot_valid(i) == pre.spec_slot_valid(i),
    {
        if pre.slots == post.slots {
            assert forall|i: int| #[trigger] post.spec_slot_data(i) == pre.spec_slot_data(i) by {
                assert(post.slots@ == pre.slots@);
            }
        }
        if pre.address == post.address {
            assert forall|i: int| #[trigger] post.spec_slot_addr(i) == pre.spec_slot_addr(i) by {
                assert(post.address@ == pre.address@);
            }
        }
        if pre.address_once_validated == post.address_once_validated {
            assert forall|i: int| #[trigger] post.spec_pending(i) == pre.spec_pending(i) by {
                assert(post.address_once_validated@ == pre.address_once_validated@);
            }
        }
        if pre.validator == post.validator {
            assert forall|i: int| #[trigger] post.spec_slot_valid(i) == pre.spec_slot_valid(
                i,
            ) by {
                assert(post.validator == pre.validator);
            }
        }
    }

    /// A cache of `size / arch.page_size()` zero-filled slots, nothing
    /// claimed, nothing reserved, nothing valid.
    pub fn new(arch: Architecture, size: usize, page_type_mask: PageType, validator: T) -> (r:
        Self)
        requires
            size >= 4096,
        ensures
            r.inv(),
            r.spec_num_slots() == size as int / 4096,
            r.spec_page_size() == 4096,
            r.spec_mask() == page_type_mask,
            forall|i: int| 0 <= i < r.spec_num_slots() ==> !r.spec_slot_valid(i),
            forall|i: int|
                0 <= i < r.spec_num_slots() ==> #[trigger] r.spec_slot_addr(i) == INVALID_ADDRESS,
            forall|i: int|
                0 <= i < r.spec_num_slots() ==> #[trigger] r.spec_pending(i) == INVALID_ADDRESS,
            forall|i: int|
                0 <= i < r.spec_num_slots() ==> #[trigger] r.spec_slot_data(i) == Seq::new(
                    4096nat,
                    |k: int| 0u8,
                ),
            forall|m: Seq<u8>| r.coherent(m),
    {
        let page_size = arch.page_size();
        let cache_entries = size / page_size;
        let mut validator = validator;
        validator.allocate_slots(cache_entries);
        let mut address: Vec<u64> = Vec::new();
        let mut slots: Vec<Vec<u8>> = Vec::new();
        let mut address_once_validated: Vec<u64> = Vec::new();
        let mut i: usize = 0;
        while i < cache_entries
            invariant
                i <= cache_entries,
                address@.len() == i,
                slots@.len() == i,
                address_once_validated@.len() == i,
                forall|k: int| 0 <= k < i ==> address@[k] == INVALID_ADDRESS,
                forall|k: int| 0 <= k < i ==> address_once_validated@[k] == INVALID_ADDRESS,
                forall|k: int|
                    0 <= k < i ==> (#[trigger] slots@[k])@ == Seq::new(4096nat, |j: int| 0u8),
            decreases cache_entries - i,
        {
            address.push(INVALID_ADDRESS);
            address_once_validated.push(INVALID_ADDRESS);
            slots.push(zero_vec(4096));
            i = i + 1;
        }
        PageCache {
            address,
            slots,
            address_once_validated,
            page_size,
            page_type_mask,
            validator,
        }
    }

    /// The page size of this cache in bytes.
    pub fn page_size(&self) -> (r: usize)
        ensures
            r == self.spec_page_size(),
    {
        self.page_size
    }

    /// Number of slots of this cache.
    pub fn num_slots(&self) -> (r: usize)
        requires
            self.wf(),
        ensures
            r == self.spec_num_slots(),
    {
        self.address.len()
    }

    /// Whether pages of type `page_type` are cacheable under this cache's
    /// mask.
    pub fn is_cached_page_type(&self, page_type: PageType) -> (r: bool)
        ensures
            r == self.spec_mask().spec_contains(page_type),
    {
        self.page_type_mask.contains(page_type)
    }

    /// The slot `addr` maps to.
    fn page_index(&self, addr: u64) -> (r: usize)
        requires
            self.wf(),
        ensures
            r == self.spec_page_index(addr),
            r < self.spec_num_slots(),
    {
        let ps = self.page_size as u64;
        let n = self.address.len() as u64;
        proof {
            lemma_mod_division_less_than_divisor((addr / ps) as int, n as int);
        }
        ((addr / ps) % n) as usize
    }

    /// Asks the cache for the page of `addr`, following the two-phase
    /// validation protocol.
    ///
    /// A hit returns the slot bytes with `valid` set. A miss on a free
    /// slot reserves the slot for this page and asks the caller to fill
    /// and validate it; a miss on a slot already reserved for the same
    /// page joins that fill; a miss on a slot reserved for a *different*
    /// page returns neither flag: the caller must satisfy that request
    /// past the cache.
    pub fn cached_page_mut(&mut self, addr: Address) -> (r: CacheEntry)
        requires
            old(self).wf(),
        ensures
            final(self).wf(),
            old(self).inv() ==> final(self).inv(),
            old(self).cached_page_post(*final(self), addr.0, r),
            r.buf@.len() == old(self).spec_page_size(),
            forall|m: Seq<u8>| old(self).coherent(m) ==> final(self).coherent(m),
    {
        let ps = self.page_size as u64;
        proof {
            crate::types::lemma_align_down(addr.0, ps);
        }
        let aligned = addr.0 - addr.0 % ps;
        let idx = self.page_index(addr.0);
        let hit = self.address[idx] == aligned && self.validator.is_slot_valid(idx);
        proof {
            assert(self.spec_slot_data(idx as int).len() == self.spec_page_size());
        }
        if hit {
            let buf = crate::buffer::subvec(&self.slots[idx], 0, self.page_size);
            proof {
                assert(buf@ =~= self.spec_slot_data(idx as int));
            }
            CacheEntry { valid: true, should_validate: false, address: Address(aligned), buf }
        } else {
            let buf = crate::buffer::subvec(&self.slots[idx], 0, self.page_size);
            if self.address_once_validated[idx] == INVALID_ADDRESS {
                self.address_once_validated[idx] = aligned;
            }
            let should_validate = aligned == self.address_once_validated[idx];
            proof {
                let pre = *old(self);
                Self::lemma_frame(pre, *self);
                assert forall|j: int|
                    0 <= j < pre.spec_num_slots() && j != idx as int implies #[trigger] self
                    .spec_pending(j) == pre.spec_pending(j) by {
                    assert(self.address_once_validated@[j] == pre.address_once_validated@[j]);
                }
                assert(buf@ =~= self.spec_slot_data(idx as int));
                assert(self.spec_pending(idx as int) == if pre.spec_pending(idx as int)
                    == INVALID_ADDRESS {
                    spec_align_down(addr.0, ps)
                } else {
                    pre.spec_pending(idx as int)
                });
                if pre.inv() {
                    assert(self.inv());
                }
                assert forall|m: Seq<u8>| pre.coherent(m) implies self.coherent(m) by {
                    assert forall|i: int|
                        0 <= i < self.spec_num_slots() && self.spec_slot_valid(
                            i,
                        ) implies #[trigger] self.spec_slot_addr(i) + self.spec_page_size()
                        <= m.len() && self.spec_slot_data(i) == crate::buffer::spec_read_range(
                        m,
                        self.spec_slot_addr(i) as int,
                        self.spec_page_size(),
                    ) by {
                        assert(pre.spec_slot_valid(i));
                        assert(self.spec_slot_addr(i) == pre.spec_slot_addr(i));
                        assert(self.spec_slot_data(i) == pre.spec_slot_data(i));
                    }
                }
            }
            CacheEntry { valid: false, should_validate, address: Address(aligned), buf }
        }
    }

    /// Marks the slot of `addr` as holding `addr`'s page, provided the
    /// page type is cacheable; clears the slot's reservation.
    pub fn validate_page(&mut self, addr: Address, page_type: PageType)
        requires
            old(self).wf(),
        ensures
            final(self).wf(),
            old(self).inv() ==> final(self).inv(),
            old(self).validate_page_post(*final(self), addr.0, page_type),
    {
        if self.page_type_mask.contains(page_type) {
            let ps = self.page_size as u64;
            proof {
                crate::types::lemma_align_down(addr.0, ps);
            }
            let idx = self.page_index(addr.0);
            let aligned = addr.0 - addr.0 % ps;
            self.address[idx] = aligned;
            self.validator.validate_slot(idx);
            self.address_once_validated[idx] = INVALID_ADDRESS;
            proof {
                let pre = *old(self);
                Self::lemma_frame(pre, *self);
                assert forall|j: int| 0 <= j < pre.spec_num_slots() implies #[trigger] self
                    .spec_slot_addr(j) == if j == idx as int {
                    aligned
                } else {
                    pre.spec_slot_addr(j)
                } by {
                    assert(self.address@ == pre.address@.update(idx as int, aligned));
                }
                assert forall|j: int| 0 <= j < pre.spec_num_slots() implies #[trigger] self
                    .spec_pending(j) == if j == idx as int {
                    INVALID_ADDRESS
                } else {
                    pre.spec_pending(j)
                } by {
                    assert(self.address_once_validated@ == pre.address_once_validated@.update(
                        idx as int,
                        INVALID_ADDRESS,
                    ));
                }
                assert forall|j: int| 0 <= j < pre.spec_num_slots() implies #[trigger] self
                    .spec_slot_valid(j) == (j == idx as int || pre.spec_slot_valid(j)) by {}
                if pre.inv() {
                    assert(self.inv());
                }
            }
        }
    }

    /// Marks the slot of `addr` as holding nothing, provided the page
    /// type is cacheable; clears the slot's reservation.
    pub fn invalidate_page(&mut self, addr: Address, page_type: PageType)
        requires
            old(self).wf(),
        ensures
            final(self).wf(),
            old(self).inv() ==> final(self).inv(),
            old(self).invalidate_page_post(*final(self), addr.0, page_type),
            forall|m: Seq<u8>| old(self).coherent(m) ==> final(self).coherent(m),
    {
        if self.page_type_mask.contains(page_type) {
            let idx = self.page_index(addr.0);
            self.address[idx] = 0;
            self.validator.invalidate_slot(idx);
            self.address_once_validated[idx] = INVALID_ADDRESS;
            proof {
                let pre = *old(self);
                Self::lemma_frame(pre, *self);
                assert forall|j: int| 0 <= j < pre.spec_num_slots() implies #[trigger] self
                    .spec_slot_addr(j) == if j == idx as int {
                    0u64
                } else {
                    pre.spec_slot_addr(j)
                } by {
                    assert(self.address@ == pre.address@.update(idx as int, 0u64));
                }
                assert forall|j: int| 0 <= j < pre.spec_num_slots() implies #[trigger] self
                    .spec_pending(j) == if j == idx as int {
                    INVALID_ADDRESS
                } else {
                    pre.spec_pending(j)
                } by {
                    assert(self.address_once_validated@ == pre.address_once_validated@.update(
                        idx as int,
                        INVALID_ADDRESS,
                    ));
                }
                assert forall|j: int| 0 <= j < pre.spec_num_slots() implies #[trigger] self
                    .spec_slot_valid(j) == (j != idx as int && pre.spec_slot_valid(j)) by {}
                if pre.inv() {
                    assert(self.inv());
                }
                assert forall|m: Seq<u8>| pre.coherent(m) implies self.coherent(m) by {
                    assert forall|i: int|
                        0 <= i < self.spec_num_slots() && self.spec_slot_valid(
                            i,
                        ) implies #[trigger] self.spec_slot_addr(i) + self.spec_page_size()
                        <= m.len() && self.spec_slot_data(i) == crate::buffer::spec_read_range(
                        m,
                        self.spec_slot_addr(i) as int,
                        self.spec_page_size(),
                    ) by {
                        assert(pre.spec_slot_valid(i));
                        assert(self.spec_slot_addr(i) == pre.spec_slot_addr(i));
                        assert(self.spec_slot_data(i) == pre.spec_slot_data(i));
                    }
                }
            }
        }
    }

    /// Stores a freshly read page into its slot and marks it valid; the
    /// internal second phase of a fill started by `cached_page_mut`.
    fn fill_page(&mut self, addr: u64, buf: Vec<u8>)
        requires
            old(self).wf(),
            buf@.len() == old(self).spec_page_size(),
        ensures
            final(self).wf(),
            old(self).same_geometry(final(self)),
            forall|j: int|
                0 <= j < old(self).spec_num_slots() ==> #[trigger] final(self).spec_slot_addr(j)
                    == if j == old(self).spec_page_index(addr) {
                    old(self).spec_aligned(addr)
                } else {
                    old(self).spec_slot_addr(j)
                },
            forall|j: int|
                0 <= j < old(self).spec_num_slots() ==> #[trigger] final(self).spec_slot_valid(j)
                    == (j == old(self).spec_page_index(addr) || old(self).spec_slot_valid(j)),
            forall|j: int|
                0 <= j < old(self).spec_num_slots() ==> #[trigger] final(self).spec_pending(j)
                    == if j == old(self).spec_page_index(addr) {
                    INVALID_ADDRESS
                } else {
                    old(self).spec_pending(j)
                },
            forall|j: int|
                0 <= j < old(self).spec_num_slots() ==> #[trigger] final(self).spec_slot_data(j)
                    == if j == old(self).spec_page_index(addr) {
                    buf@
                } else {
                    old(self).spec_slot_data(j)
                },
            old(self).inv() ==> final(self).inv(),
    {
        let ps = self.page_size as u64;
        proof {
            crate::types::lemma_align_down(addr, ps);
        }
        let idx = self.page_index(addr);
        let aligned = addr - addr % ps;
        self.address[idx] = aligned;
        self.slots[idx] = buf;
        self.validator.validate_slot(idx);
        self.address_once_validated[idx] = INVALID_ADDRESS;
        proof {
            let pre = *old(self);
            Self::lemma_frame(pre, *self);
            assert forall|j: int| 0 <= j < pre.spec_num_slots() implies #[trigger] self
                .spec_slot_addr(j) == if j == idx as int {
                aligned
            } else {
                pre.spec_slot_addr(j)
            } by {
                assert(self.address@ == pre.address@.update(idx as int, aligned));
            }
            assert forall|j: int| 0 <= j < pre.spec_num_slots() implies #[trigger] self
                .spec_pending(j) == if j == idx as int {
                INVALID_ADDRESS
            } else {
                pre.spec_pending(j)
            } by {
                assert(self.address_once_validated@ == pre.address_once_validated@.update(
                    idx as int,
                    INVALID_ADDRESS,
                ));
            }
            assert forall|j: int| 0 <= j < pre.spec_num_slots() implies #[trigger] self
                .spec_slot_data(j) == if j == idx as int {
                buf@
            } else {
                pre.spec_slot_data(j)
            } by {
                assert(self.slots@ == pre.slots@.update(idx as int, buf));
            }
            assert forall|j: int| 0 <= j < pre.spec_num_slots() implies #[trigger] self
                .spec_slot_valid(j) == (j == idx as int || pre.spec_slot_valid(j)) by {}
            if pre.inv() {
                assert(self.inv());
            }
        }
    }

    /// Drops whatever page the slot of `addr` holds, regardless of page
    /// type: used by the write path to keep the cache a transparent copy
    /// of physical memory.
    fn drop_page(&mut self, addr: u64)
        requires
            old(self).wf(),
        ensures
            final(self).wf(),
            old(self).same_geometry(final(self)),
            forall|j: int|
                0 <= j < old(self).spec_num_slots() ==> #[trigger] final(self).spec_slot_addr(j)
                    == old(self).spec_slot_addr(j),
            forall|j: int|
                0 <= j < old(self).spec_num_slots() ==> #[trigger] final(self).spec_slot_data(j)
                    == old(self).spec_slot_data(j),
            forall|j: int|
                0 <= j < old(self).spec_num_slots() ==> #[trigger] final(self).spec_pending(j)
                    == old(self).spec_pending(j),
            forall|j: int|
                0 <= j < old(self).spec_num_slots() ==> #[trigger] final(self).spec_slot_valid(j)
                    == (j != old(self).spec_page_index(addr) && old(self).spec_slot_valid(j)),
            old(self).inv() ==> final(self).inv(),
    {
        let idx = self.page_index(addr);
        self.validator.invalidate_slot(idx);
        proof {
            let pre = *old(self);
            Self::lemma_frame(pre, *self);
            assert forall|j: int| 0 <= j < pre.spec_num_slots() implies #[trigger] self
                .spec_slot_valid(j) == (j != idx as int && pre.spec_slot_valid(j)) by {}
            if pre.inv() {
                assert(self.inv());
            }
        }
    }

    /// The connector covers a single cached read: it is fully available
    /// and the touched range — whole pages for a cacheable request, the
    /// exact span otherwise — lies inside its physical bytes. A request
    /// without page information never fails (it is a no-op).
    pub open spec fn single_read_covered<F: PhysicalMemory>(
        self,
        mem: F,
        addr: PhysicalAddress,
        len: int,
    ) -> bool {
        match addr.page {
            Option::None => true,
            Option::Some(p) => crate::phys_mem::fully_available(&mem) && (if self
                .spec_mask()
                .spec_contains(p.page_type) {
                len == 0 || spec_align_down(
                    (addr.address.0 + len - 1) as u64,
                    self.spec_page_size() as u64,
                ) + self.spec_page_size() <= mem.mem().len()
            } else {
                addr.address.0 + len <= mem.mem().len()
            }),
        }
    }

    /// When a single cached read owes success: the connector covers it,
    /// or every chunk is already a hit, so that no connector call is
    /// needed at all.
    pub open spec fn single_read_owed<F: PhysicalMemory>(
        self,
        mem: F,
        addr: PhysicalAddress,
        len: int,
    ) -> bool {
        ||| self.single_read_covered(mem, addr, len)
        ||| (addr.page matches Some(p) && self.spec_mask().spec_contains(p.page_type)
            && self.spec_all_hits(addr.address.0, len))
    }

    /// Satisfies one single-page chunk of a cacheable read: copies from
    /// the slot on a hit, fills the reserved slot with one whole-page
    /// connector read on a miss, and reads past the cache when the slot
    /// is reserved for a different in-flight page.
    fn read_chunk<F: PhysicalMemory>(
        &mut self,
        mem: &mut F,
        page: Page,
        c: crate::page_chunks::PageChunk,
        out: &mut Vec<u8>,
    ) -> (r: Result<(), Error>)
        requires
            old(self).inv(),
            old(self).coherent(old(mem).mem()),
            old(self).spec_mask().spec_contains(page.page_type),
            c.offset + c.len <= old(out)@.len(),
            c.len > 0,
            c.addr + c.len <= u64::MAX,
            spec_align_down(c.addr, old(self).spec_page_size() as u64) == spec_align_down(
                (c.addr + c.len - 1) as u64,
                old(self).spec_page_size() as u64,
            ),
        ensures
            final(self).inv(),
            old(self).same_geometry(final(self)),
            final(mem).mem() == old(mem).mem(),
            forall|a: int, l: int| final(mem).ok_on(a, l) == old(mem).ok_on(a, l),
            final(self).coherent(old(mem).mem()),
            final(out)@.len() == old(out)@.len(),
            r is Ok ==> final(out)@ == crate::buffer::spec_write_bytes(
                old(out)@,
                c.offset as int,
                crate::buffer::spec_read_range(old(mem).mem(), c.addr as int, c.len as int),
            ),
            r is Ok ==> c.addr + c.len <= old(mem).mem().len(),
            crate::phys_mem::fully_available(old(mem)) && spec_align_down(
                c.addr,
                old(self).spec_page_size() as u64,
            ) + old(self).spec_page_size() <= old(mem).mem().len() ==> r is Ok,
            forall|i: int|
                0 <= i < old(self).spec_num_slots() && i != old(self).spec_page_index(c.addr)
                    ==> #[trigger] old(self).slot_untouched(*final(self), i),
            old(self).chunk_hit(c.addr) ==> r is Ok && old(self).equiv(final(self))
                && *final(mem) == *old(mem),
            r is Ok ==> {
                let i = old(self).spec_page_index(c.addr);
                if old(self).chunk_hit(c.addr) {
                    old(self).slot_untouched(*final(self), i)
                } else if old(self).chunk_reservable(c.addr) {
                    final(self).slot_holds_page(
                        i,
                        old(self).spec_aligned(c.addr),
                        old(mem).mem(),
                    ) && final(self).spec_pending(i) == INVALID_ADDRESS
                } else {
                    old(self).slot_untouched(*final(self), i)
                }
            },
            r is Err ==> old(self).slot_reserved_only(
                *final(self),
                old(self).spec_page_index(c.addr),
            ),
            final(mem).spec_reads() == old(mem).spec_reads() + old(self).chunk_read_trace(c),
    {
        let ps64 = self.page_size as u64;
        proof {
            crate::types::lemma_align_down(c.addr, ps64);
            crate::types::lemma_align_down((c.addr + c.len - 1) as u64, ps64);
        }
        let e = self.cached_page_mut(Address(c.addr));
        let CacheEntry { valid, should_validate, address: ea, buf: ebuf } = e;
        let start = (c.addr - ea.0) as usize;
        proof {
            // The whole chunk lies in the page that starts at the
            // entry's aligned address.
            assert(ea.0 == spec_align_down(c.addr, ps64));
            assert(c.addr + c.len <= ea.0 + ps64);
            let pre = *old(self);
            let i0 = pre.spec_page_index(c.addr);
            assert(valid == pre.chunk_hit(c.addr));
            assert forall|i: int|
                0 <= i < pre.spec_num_slots() && i != i0 implies #[trigger] pre.slot_untouched(
                *self,
                i,
            ) by {}
            if valid {
                assert(pre.slot_untouched(*self, i0));
                assert(pre.equiv(self));
            }
            if !valid && pre.chunk_reservable(c.addr) {
                assert(should_validate);
            }
            if !valid && !should_validate {
                assert(pre.slot_untouched(*self, i0));
            }
        }
        if valid {
            crate::buffer::copy_block(out, c.offset, &ebuf, start, c.len);
            proof {
                assert(crate::buffer::spec_read_range(self.spec_slot_data(
                    old(self).spec_page_index(c.addr)), start as int, c.len as int)
                    =~= crate::buffer::spec_read_range(
                    old(mem).mem(),
                    c.addr as int,
                    c.len as int,
                ));
                assert(mem.spec_reads() + old(self).chunk_read_trace(c) =~= mem.spec_reads());
            }
            Ok(())
        } else if should_validate {
            let mut page_buf = ebuf;
            let r1 = crate::phys_mem::phys_read_into(
                mem,
                PhysicalAddress::with_address(ea),
                &mut page_buf,
            );
            proof {
                assert(!old(self).chunk_hit(c.addr) && old(self).chunk_reservable(c.addr));
                assert(mem.spec_reads() =~= old(mem).spec_reads() + old(self).chunk_read_trace(
                    c,
                ));
            }
            match r1 {
                Err(er) => {
                    return Err(er);
                },
                Ok(()) => {},
            }
            crate::buffer::copy_block(out, c.offset, &page_buf, start, c.len);
            proof {
                assert(crate::buffer::spec_read_range(page_buf@, start as int, c.len as int)
                    =~= crate::buffer::spec_read_range(
                    old(mem).mem(),
                    c.addr as int,
                    c.len as int,
                ));
            }
            let ghost pre_fill = *self;
            self.fill_page(c.addr, page_buf);
            proof {
                assert forall|j: int|
                    0 <= j < self.spec_num_slots() && self.spec_slot_valid(
                        j,
                    ) implies #[trigger] self.spec_slot_addr(j) + self.spec_page_size() <= old(
                    mem,
                ).mem().len() && self.spec_slot_data(j) == crate::buffer::spec_read_range(
                    old(mem).mem(),
                    self.spec_slot_addr(j) as int,
                    self.spec_page_size(),
                ) by {
                    if j == pre_fill.spec_page_index(c.addr) {
                        assert(self.spec_slot_addr(j) == ea.0);
                    } else {
                        assert(pre_fill.spec_slot_valid(j));
                        assert(self.spec_slot_addr(j) == pre_fill.spec_slot_addr(j));
                        assert(self.spec_slot_data(j) == pre_fill.spec_slot_data(j));
                    }
                }
                let pre = *old(self);
                let i0 = pre.spec_page_index(c.addr);
                assert forall|i: int|
                    0 <= i < pre.spec_num_slots() && i != i0 implies #[trigger] pre
                    .slot_untouched(*self, i) by {
                    assert(pre_fill.spec_slot_addr(i) == pre.spec_slot_addr(i));
                    assert(pre_fill.spec_pending(i) == pre.spec_pending(i));
                    assert(pre_fill.spec_slot_valid(i) == pre.spec_slot_valid(i));
                    assert(pre_fill.spec_slot_data(i) == pre.spec_slot_data(i));
                }
                assert(self.slot_holds_page(i0, pre.spec_aligned(c.addr), old(mem).mem()));
            }
            Ok(())
        } else {
            // Collision bypass: the slot is reserved for a different
            // in-flight page, so this chunk is satisfied past the cache.
            let mut tmp = crate::buffer::zero_vec(c.len);
            let r1 = crate::phys_mem::phys_read_into(
                mem,
                PhysicalAddress { address: Address(c.addr), page: Some(page) },
                &mut tmp,
            );
            proof {
                assert(!old(self).chunk_hit(c.addr) && !old(self).chunk_reservable(c.addr));
                assert(mem.spec_reads() =~= old(mem).spec_reads() + old(self).chunk_read_trace(
                    c,
                ));
            }
            match r1 {
                Err(er) => {
                    return Err(er);
                },
                Ok(()) => {},
            }
            crate::buffer::copy_block(out, c.offset, &tmp, 0, c.len);
            proof {
                assert(crate::buffer::spec_read_range(tmp@, 0, c.len as int)
                    =~= crate::buffer::spec_read_range(
                    old(mem).mem(),
                    c.addr as int,
                    c.len as int,
                ));
            }
            Ok(())
        }
    }

    /// One chunk step of a span read, carrying the span's folded
    /// framing from `ci` to `ci + 1` chunks done.
    #[verifier::rlimit(100)]
    #[verifier::spinoff_prover]
    fn read_span_chunk<F: PhysicalMemory>(
        &mut self,
        mem: &mut F,
        page: Page,
        span_len: usize,
        chunk: crate::page_chunks::PageChunk,
        out: &mut Vec<u8>,
        Ghost(entry): Ghost<PageCache<T>>,
        Ghost(a0): Ghost<u64>,
        Ghost(ci): Ghost<int>,
    ) -> (r: Result<(), Error>)
        requires
            old(self).inv(),
            old(self).coherent(old(mem).mem()),
            old(self).spec_mask().spec_contains(page.page_type),
            entry.same_geometry(old(self)),
            entry.spec_num_slots() >= 1,
            entry.spec_page_size() >= 1,
            entry.spec_page_size() == old(self).spec_page_size(),
            a0 + span_len <= u64::MAX,
            crate::page_chunks::chunks_wf(
                entry.spec_span_chunks(a0, span_len as int),
                a0,
                span_len,
                entry.spec_page_size() as u64,
            ),
            0 <= ci < entry.spec_span_chunks(a0, span_len as int).len(),
            chunk == entry.spec_span_chunks(a0, span_len as int)[ci],
            old(out)@.len() == span_len,
            span_read_inv(entry, *old(self), a0, span_len as int, ci, true, old(mem).mem()),
            span_out_inv(
                old(mem).mem(),
                a0,
                span_len,
                entry.spec_span_chunks(a0, span_len as int),
                ci,
                old(out)@,
            ),
            entry.spec_all_hits(a0, span_len as int) ==> span_quiet(entry, *old(self)),
        ensures
            final(self).inv(),
            old(self).same_geometry(final(self)),
            final(mem).mem() == old(mem).mem(),
            forall|a: int, l: int| final(mem).ok_on(a, l) == old(mem).ok_on(a, l),
            final(self).coherent(old(mem).mem()),
            final(out)@.len() == old(out)@.len(),
            span_read_inv(
                entry,
                *final(self),
                a0,
                span_len as int,
                ci + 1,
                r is Ok,
                old(mem).mem(),
            ),
            r is Ok ==> span_out_inv(
                old(mem).mem(),
                a0,
                span_len,
                entry.spec_span_chunks(a0, span_len as int),
                ci + 1,
                final(out)@,
            ),
            r is Err ==> !(crate::phys_mem::fully_available(old(mem)) && spec_align_down(
                (a0 + span_len - 1) as u64,
                entry.spec_page_size() as u64,
            ) + entry.spec_page_size() <= old(mem).mem().len()),
            entry.spec_all_hits(a0, span_len as int) ==> r is Ok && span_quiet(
                entry,
                *final(self),
            ) && *final(mem) == *old(mem),
            final(mem).spec_reads() == old(mem).spec_reads() + old(self).chunk_read_trace(
                chunk,
            ),
    {
        let ps64 = self.page_size as u64;
        proof {
            reveal(span_out_inv);
            crate::page_chunks::lemma_chunk_page(
                entry.spec_span_chunks(a0, span_len as int),
                a0,
                span_len,
                ps64,
                ci,
                (chunk.addr + chunk.len - 1) as u64,
            );
            if entry.spec_all_hits(a0, span_len as int) {
                assert(entry.chunk_hit(chunk.addr));
                lemma_quiet_hit(entry, *old(self), chunk.addr);
            }
        }
        let ghost pre_c = *old(self);
        let ghost out_pre = out@;
        let r1 = self.read_chunk(mem, page, chunk, out);
        proof {
            assert forall|i: int|
                0 <= i < entry.spec_num_slots() && i != entry.spec_page_index(
                    entry.spec_span_chunks(a0, span_len as int)[ci].addr,
                ) implies #[trigger] pre_c.slot_untouched(*self, i) by {}
            lemma_span_step(
                entry,
                pre_c,
                *self,
                a0,
                span_len as int,
                ci,
                old(mem).mem(),
                r1 is Ok,
            );
            if entry.spec_all_hits(a0, span_len as int) {
                lemma_quiet_step(entry, pre_c, *self);
            }
            let cs = entry.spec_span_chunks(a0, span_len as int);
            if r1 is Ok {
                let m = old(mem).mem();
                assert forall|b: int|
                    0 <= b < chunk.offset + chunk.len implies out@[b] == m[a0 + b] by {
                    if b < chunk.offset {
                        assert(out@[b] == out_pre[b]);
                    } else {
                        assert(out@[b] == crate::buffer::spec_read_range(
                            m,
                            chunk.addr as int,
                            chunk.len as int,
                        )[b - chunk.offset]);
                    }
                }
                if ci + 1 < cs.len() {
                    assert(cs[ci + 1].offset == chunk.offset + chunk.len);
                } else {
                    assert(chunk.offset + chunk.len == span_len);
                }
            } else {
                if crate::phys_mem::fully_available(old(mem)) && spec_align_down(
                    (a0 + span_len - 1) as u64,
                    ps64,
                ) + ps64 <= old(mem).mem().len() {
                    crate::types::lemma_align_down_monotonic(
                        chunk.addr,
                        (a0 + span_len - 1) as u64,
                        ps64,
                    );
                }
            }
        }
        r1
    }

    /// The cacheable read path of `cached_read_single`: the span split
    /// into page chunks, each served through its slot.
    #[verifier::rlimit(100)]
    #[verifier::spinoff_prover]
    fn read_cacheable_span<F: PhysicalMemory>(
        &mut self,
        mem: &mut F,
        addr: PhysicalAddress,
        page: Page,
        out: &mut Vec<u8>,
    ) -> (r: Result<(), Error>)
        requires
            old(self).inv(),
            old(self).coherent(old(mem).mem()),
            addr.page == Some(page),
            old(self).spec_mask().spec_contains(page.page_type),
            addr.address.0 + old(out)@.len() <= u64::MAX,
        ensures
            final(self).inv(),
            old(self).same_geometry(final(self)),
            final(mem).mem() == old(mem).mem(),
            forall|a: int, l: int| final(mem).ok_on(a, l) == old(mem).ok_on(a, l),
            final(self).coherent(old(mem).mem()),
            final(out)@.len() == old(out)@.len(),
            old(out)@.len() == 0 ==> final(out)@ == old(out)@,
            r is Ok && old(out)@.len() > 0 ==> final(out)@ == crate::buffer::spec_read_range(
                old(mem).mem(),
                addr.address.0 as int,
                old(out)@.len() as int,
            ),
            r is Ok && old(out)@.len() > 0 ==> addr.address.0 + old(out)@.len() <= old(
                mem,
            ).mem().len(),
            old(out)@.len() == 0 || old(self).spec_all_hits(
                addr.address.0,
                old(out)@.len() as int,
            ) || (crate::phys_mem::fully_available(old(mem)) && spec_align_down(
                (addr.address.0 + old(out)@.len() - 1) as u64,
                old(self).spec_page_size() as u64,
            ) + old(self).spec_page_size() <= old(mem).mem().len()) ==> r is Ok,
            r is Ok ==> span_read_inv(
                *old(self),
                *final(self),
                addr.address.0,
                old(out)@.len() as int,
                old(self).spec_span_chunks(addr.address.0, old(out)@.len() as int).len() as int,
                true,
                old(mem).mem(),
            ),
            r is Err ==> exists|dd: int|
                0 <= dd && #[trigger] span_read_inv(
                    *old(self),
                    *final(self),
                    addr.address.0,
                    old(out)@.len() as int,
                    dd,
                    false,
                    old(mem).mem(),
                ),
            old(self).spec_all_hits(addr.address.0, old(out)@.len() as int) ==> r is Ok
                && span_quiet(*old(self), *final(self)) && *final(mem) == *old(mem),
            old(self).spec_span_chunks(addr.address.0, old(out)@.len() as int).len() == 1
                ==> final(mem).spec_reads() == old(mem).spec_reads() + old(
                self,
            ).chunk_read_trace(
                old(self).spec_span_chunks(addr.address.0, old(out)@.len() as int)[0],
            ),
    {
        let len = out.len();
        let ps64 = self.page_size as u64;
        let a0 = addr.address.0;
        let chunks = crate::page_chunks::chunk_ranges(a0, len, ps64);
        proof {
            assert(chunks@ == old(self).spec_span_chunks(a0, len as int));
            lemma_span_init(*old(self), a0, len as int, old(mem).mem());
            lemma_quiet_init(*old(self));
        }
        let mut ci: usize = 0;
        let mut failed: Option<Error> = None;
        proof {
            lemma_span_out_init(old(mem).mem(), a0, len, chunks@, out@);
        }
        while ci < chunks.len() && failed.is_none()
            invariant
                self.inv(),
                old(self).same_geometry(self),
                self.spec_page_size() == ps64,
                1 <= ps64,
                self.spec_mask().spec_contains(page.page_type),
                self.coherent(old(mem).mem()),
                mem.mem() == old(mem).mem(),
                forall|a: int, l: int| mem.ok_on(a, l) == old(mem).ok_on(a, l),
                out@.len() == len,
                a0 + len <= u64::MAX,
                crate::page_chunks::chunks_wf(chunks@, a0, len, ps64),
                chunks@ == old(self).spec_span_chunks(a0, len as int),
                ci <= chunks@.len(),
                failed is Some ==> ci > 0,
                failed is Some ==> !(crate::phys_mem::fully_available(old(mem))
                    && (len == 0 || spec_align_down((a0 + len - 1) as u64, ps64)
                    + ps64 <= old(mem).mem().len())),
                failed is None ==> span_out_inv(
                    old(mem).mem(),
                    a0,
                    len,
                    chunks@,
                    ci as int,
                    out@,
                ),
                span_read_inv(
                    *old(self),
                    *self,
                    a0,
                    len as int,
                    ci as int,
                    failed is None,
                    old(mem).mem(),
                ),
                old(self).spec_all_hits(a0, len as int) ==> failed is None
                    && span_quiet(*old(self), *self) && *mem == *old(mem),
                ci == 0 ==> *self == *old(self) && *mem == *old(mem),
                chunks@.len() == 1 && ci > 0 ==> mem.spec_reads() == old(
                    mem,
                ).spec_reads() + old(self).chunk_read_trace(chunks@[0]),
            decreases chunks@.len() - ci,
        {
            let c = chunks[ci];
            let r1 = self.read_span_chunk(
                mem,
                page,
                len,
                c,
                out,
                Ghost(*old(self)),
                Ghost(a0),
                Ghost(ci as int),
            );
            match r1 {
                Err(er) => {
                    failed = Some(er);
                },
                Ok(()) => {},
            }
            ci = ci + 1;
        }
        match failed {
            Some(er) => {
                proof {
                    assert(span_read_inv(
                        *old(self),
                        *self,
                        a0,
                        len as int,
                        ci as int,
                        false,
                        old(mem).mem(),
                    ));
                }
                Err(er)
            },
            None => {
                proof {
                    lemma_span_out_conclude(
                        old(mem).mem(),
                        a0,
                        len,
                        chunks@,
                        ci as int,
                        out@,
                    );
                    if len == 0 {
                        assert(out@ =~= old(out)@);
                    } else {
                        assert(out@ =~= crate::buffer::spec_read_range(
                            old(mem).mem(),
                            a0 as int,
                            len as int,
                        ));
                    }
                }
                Ok(())
            },
        }
    }

    /// Reads `out.len()` bytes of physical memory at `addr` through the
    /// cache: page chunks already cached are copied from their slots,
    /// misses fill the reserved slot with one whole-page connector read,
    /// and chunks whose slot is reserved for a different in-flight page
    /// fall back to a direct uncached read of just that chunk.
    ///
    /// Cache transparency: whatever the cache held, on success `out` is
    /// byte-for-byte the uncached physical read of the same range.
    /// Requests whose physical address carries no page descriptor are
    /// not touched at all, as in a raw physical probe. The slot effects
    /// are pinned too: slots outside the span's pages never change; a
    /// touched slot either keeps its claim, bytes and validity (at most
    /// its reservation moves) or ends up validly holding one of the
    /// span's pages; a chunk that alone maps to its slot leaves a hit
    /// untouched and turns a free (reservable) slot into a valid copy
    /// of its page; and when every chunk hits, nothing changes at all
    /// and the connector is never called.
    #[verifier::rlimit(100)]
    #[verifier::spinoff_prover]
    pub fn cached_read_single<F: PhysicalMemory>(
        &mut self,
        mem: &mut F,
        addr: PhysicalAddress,
        out: &mut Vec<u8>,
    ) -> (r: Result<(), Error>)
        requires
            old(self).inv(),
            old(self).coherent(old(mem).mem()),
            addr.address.0 + old(out)@.len() <= u64::MAX,
        ensures
            final(self).inv(),
            old(self).same_geometry(final(self)),
            final(mem).mem() == old(mem).mem(),
            forall|a: int, l: int| final(mem).ok_on(a, l) == old(mem).ok_on(a, l),
            final(self).coherent(old(mem).mem()),
            final(out)@.len() == old(out)@.len(),
            addr.page is None ==> r is Ok && final(out)@ == old(out)@ && old(self).equiv(
                final(self),
            ) && *final(mem) == *old(mem),
            (addr.page matches Some(p) && !old(self).spec_mask().spec_contains(p.page_type))
                ==> old(self).equiv(final(self)),
            old(out)@.len() == 0 ==> final(out)@ == old(out)@,
            r is Ok && addr.page is Some && old(out)@.len() > 0 ==> final(out)@
                == crate::buffer::spec_read_range(
                old(mem).mem(),
                addr.address.0 as int,
                old(out)@.len() as int,
            ),
            r is Ok && addr.page is Some && old(out)@.len() > 0 ==> addr.address.0 + old(
                out,
            )@.len() <= old(mem).mem().len(),
            old(self).single_read_owed(*old(mem), addr, old(out)@.len() as int) ==> r is Ok,
            (addr.page matches Some(p) && old(self).spec_mask().spec_contains(p.page_type))
                ==> forall|i: int|
                0 <= i < old(self).spec_num_slots() && !old(self).span_touches_slot(
                    addr.address.0,
                    old(out)@.len() as int,
                    i,
                ) ==> #[trigger] old(self).slot_untouched(*final(self), i),
            (addr.page matches Some(p) && old(self).spec_mask().spec_contains(p.page_type))
                ==> forall|i: int|
                0 <= i < old(self).spec_num_slots() ==> #[trigger] old(self).slot_reserved_only(
                    *final(self),
                    i,
                ) || (exists|k: int|
                    0 <= k < old(self).spec_span_chunks(
                        addr.address.0,
                        old(out)@.len() as int,
                    ).len() && old(self).spec_page_index(
                        (#[trigger] old(self).spec_span_chunks(
                            addr.address.0,
                            old(out)@.len() as int,
                        )[k]).addr,
                    ) == i && final(self).slot_holds_page(
                        i,
                        old(self).spec_aligned(
                            old(self).spec_span_chunks(
                                addr.address.0,
                                old(out)@.len() as int,
                            )[k].addr,
                        ),
                        old(mem).mem(),
                    )),
            r is Ok && (addr.page matches Some(p) && old(self).spec_mask().spec_contains(
                p.page_type,
            )) ==> forall|k: int|
                0 <= k < old(self).spec_span_chunks(addr.address.0, old(out)@.len() as int).len()
                    && #[trigger] old(self).span_chunk_unique(
                    addr.address.0,
                    old(out)@.len() as int,
                    k,
                ) ==> {
                    let c = old(self).spec_span_chunks(addr.address.0, old(out)@.len() as int)[k];
                    let i = old(self).spec_page_index(c.addr);
                    &&& (old(self).chunk_hit(c.addr) ==> old(self).slot_untouched(
                        *final(self),
                        i,
                    ))
                    &&& (!old(self).chunk_hit(c.addr) && old(self).chunk_reservable(c.addr)
                        ==> final(self).slot_holds_page(
                        i,
                        old(self).spec_aligned(c.addr),
                        old(mem).mem(),
                    ))
                },
            (addr.page matches Some(p) && old(self).spec_mask().spec_contains(p.page_type)
                && old(self).spec_all_hits(addr.address.0, old(out)@.len() as int)) ==> r is Ok
                && old(self).equiv(final(self)) && *final(mem) == *old(mem),
            (addr.page matches Some(p) && old(self).spec_mask().spec_contains(p.page_type)
                && old(self).spec_span_chunks(addr.address.0, old(out)@.len() as int).len()
                == 1) ==> final(mem).spec_reads() == old(mem).spec_reads() + old(
                self,
            ).chunk_read_trace(
                old(self).spec_span_chunks(addr.address.0, old(out)@.len() as int)[0],
            ),
            (addr.page matches Some(p) && !old(self).spec_mask().spec_contains(p.page_type))
                ==> final(mem).spec_reads() == old(mem).spec_reads() + seq![
                (addr.address.0, old(out)@.len() as int),
            ],
    {
        let len = out.len();
        match addr.page {
            None => Ok(()),
            Some(page) => {
                if self.is_cached_page_type(page.page_type) {
                    let r1 = self.read_cacheable_span(mem, addr, page, out);
                    proof {
                        let a0 = addr.address.0;
                        let cs = old(self).spec_span_chunks(a0, len as int);
                        if r1 is Ok {
                            lemma_span_unfold(
                                *old(self),
                                *self,
                                a0,
                                len as int,
                                cs.len() as int,
                                true,
                                old(mem).mem(),
                            );
                        } else {
                            let dd = choose|dd: int|
                                0 <= dd && #[trigger] span_read_inv(
                                    *old(self),
                                    *self,
                                    a0,
                                    len as int,
                                    dd,
                                    false,
                                    old(mem).mem(),
                                );
                            lemma_span_unfold(
                                *old(self),
                                *self,
                                a0,
                                len as int,
                                dd,
                                false,
                                old(mem).mem(),
                            );
                        }
                        if old(self).spec_all_hits(a0, len as int) {
                            lemma_quiet_unfold(*old(self), *self);
                        }
                    }
                    r1
                } else {
                    let r1 = crate::phys_mem::phys_read_into(mem, addr, out);
                    proof {
                        if len == 0 {
                            assert(out@ =~= old(out)@);
                        }
                    }
                    r1
                }
            },
        }
    }

    /// Runs a batch of work items through the cache. Finished (`Done`)
    /// items pass through untouched; `ToDo` items without page
    /// information or with an uncacheable page type are forwarded
    /// unchanged for the connector; cacheable `ToDo` items are satisfied
    /// through the cache and come back as `Done` — with the exact
    /// uncached bytes on success, or as the failure the connector
    /// reported. Slots no item's span touches never change; every slot
    /// is at most re-reserved unless it validly holds a page of some
    /// item's span; and a batch of pass-through and all-hit items
    /// leaves both the cache and the connector exactly as they were.
    pub fn cached_read<F: PhysicalMemory>(
        &mut self,
        mem: &mut F,
        iter: Vec<PhysicalReadType>,
    ) -> (r: Vec<PhysicalReadType>)
        requires
            old(self).inv(),
            old(self).coherent(old(mem).mem()),
            forall|i: int|
                0 <= i < iter@.len() ==> todo_addr(#[trigger] iter@[i]) + todo_len(iter@[i])
                    <= u64::MAX,
        ensures
            final(self).inv(),
            old(self).same_geometry(final(self)),
            final(mem).mem() == old(mem).mem(),
            forall|a: int, l: int| final(mem).ok_on(a, l) == old(mem).ok_on(a, l),
            final(self).coherent(old(mem).mem()),
            r@.len() == iter@.len(),
            forall|i: int| 0 <= i < iter@.len() ==> cached_read_item_post(
                *old(self),
                *old(mem),
                #[trigger] iter@[i],
                r@[i],
            ),
            forall|i: int|
                0 <= i < old(self).spec_num_slots() && !(exists|k: int|
                    0 <= k < iter@.len() && item_touches(*old(self), #[trigger] iter@[k], i))
                    ==> #[trigger] old(self).slot_untouched(*final(self), i),
            forall|i: int|
                0 <= i < old(self).spec_num_slots() ==> #[trigger] old(self).slot_reserved_only(
                    *final(self),
                    i,
                ) || (exists|k: int|
                    0 <= k < iter@.len() && item_fills(
                        *old(self),
                        *final(self),
                        #[trigger] iter@[k],
                        i,
                        old(mem).mem(),
                    )),
            batch_all_quiet(*old(self), iter@) ==> old(self).equiv(final(self)) && *final(mem)
                == *old(mem),
    {
        let n = iter.len();
        let mut iter = iter;
        let ghost iter0 = iter@;
        proof {
            lemma_batch_init(*old(self), iter0, old(mem).mem());
            lemma_quiet_init(*old(self));
        }
        let mut out_items: Vec<PhysicalReadType> = Vec::new();
        let mut i: usize = 0;
        while i < n
            invariant
                self.inv(),
                old(self).same_geometry(self),
                self.spec_mask() == old(self).spec_mask(),
                self.spec_page_size() == old(self).spec_page_size(),
                self.coherent(old(mem).mem()),
                mem.mem() == old(mem).mem(),
                forall|a: int, l: int| mem.ok_on(a, l) == old(mem).ok_on(a, l),
                n == iter@.len(),
                iter0.len() == n,
                i <= n,
                out_items@.len() == i,
                forall|k: int| i <= k < n ==> iter@[k] == iter0[k],
                forall|k: int|
                    0 <= k < n ==> todo_addr(#[trigger] iter0[k]) + todo_len(iter0[k])
                        <= u64::MAX,
                forall|k: int| 0 <= k < i ==> cached_read_item_post(
                    *old(self),
                    *old(mem),
                    #[trigger] iter0[k],
                    out_items@[k],
                ),
                old(self).spec_num_slots() >= 1,
                old(self).spec_page_size() >= 1,
                batch_read_inv(*old(self), *self, iter0, old(mem).mem()),
                batch_all_quiet(*old(self), iter0) ==> span_quiet(*old(self), *self) && *mem
                    == *old(mem),
            decreases n - i,
        {
            let mut it = PhysicalReadType::Done(Err(Error::NotFound));
            core::mem::swap(&mut it, &mut iter[i]);
            match it {
                PhysicalReadType::Done(x) => {
                    out_items.push(PhysicalReadType::Done(x));
                },
                PhysicalReadType::ToDo(d) => {
                    let mut forward = d.addr.page.is_none();
                    if let Some(pg) = d.addr.page {
                        if !self.is_cached_page_type(pg.page_type) {
                            forward = true;
                        }
                    }
                    if forward {
                        out_items.push(PhysicalReadType::ToDo(d));
                    } else {
                        let mut d = d;
                        proof {
                            assert(iter0[i as int] matches PhysicalReadType::ToDo(d0)
                                && d0.addr == d.addr && d0.buf@.len() == d.buf@.len());
                            assert(todo_addr(iter0[i as int]) + todo_len(iter0[i as int])
                                <= u64::MAX);
                        }
                        let ghost pre_i = *self;
                        let ghost a0i = d.addr.address.0;
                        let ghost leni = d.buf@.len() as int;
                        proof {
                            if batch_all_quiet(*old(self), iter0) {
                                assert(item_passthrough(*old(self), iter0[i as int]) || (
                                iter0[i as int] matches PhysicalReadType::ToDo(d0) && old(
                                    self,
                                ).spec_all_hits(d0.addr.address.0, d0.buf@.len() as int)));
                                assert(!item_passthrough(*old(self), iter0[i as int]));
                                assert(old(self).spec_all_hits(a0i, leni));
                                lemma_quiet_all_hits(*old(self), pre_i, a0i, leni);
                            }
                        }
                        let r1 = self.cached_read_single(mem, d.addr, &mut d.buf);
                        proof {
                            lemma_batch_step_item(
                                *old(self),
                                pre_i,
                                *self,
                                iter0,
                                i as int,
                                a0i,
                                leni,
                                old(mem).mem(),
                            );
                            if batch_all_quiet(*old(self), iter0) {
                                lemma_quiet_step(*old(self), pre_i, *self);
                            }
                        }
                        match r1 {
                            Ok(()) => {
                                out_items.push(PhysicalReadType::Done(Ok(d)));
                            },
                            Err(er) => {
                                out_items.push(PhysicalReadType::Done(Err(er)));
                            },
                        }
                    }
                },
            }
            i = i + 1;
        }
        proof {
            lemma_batch_unfold(*old(self), *self, iter0, old(mem).mem());
            if batch_all_quiet(*old(self), iter0) {
                lemma_quiet_unfold(*old(self), *self);
            }
        }
        out_items
    }

    /// Splits one `ToDo` work item into per-page `ToDo` items.
    ///
    /// The sub-buffers concatenate, in order and without gaps, to the
    /// original buffer; each sub-item lies within one page and keeps the
    /// original page descriptor; sub-item addresses strictly increase.
    /// `Done` items never reach a splitter: upstream stages hand over
    /// only work still to do.
    #[verifier::rlimit(100)]
    #[verifier::spinoff_prover]
    pub fn split_to_chunks(iter_elem: PhysicalReadType, page_size: u64) -> (r: Vec<
        PhysicalReadType,
    >)
        requires
            page_size > 0,
            iter_elem is ToDo,
            (iter_elem matches PhysicalReadType::ToDo(d) ==> d.addr.address.0 + d.buf@.len()
                <= u64::MAX),
        ensures
            iter_elem matches PhysicalReadType::ToDo(d) ==> split_items_wf(
                r@,
                d.addr,
                d.buf@,
                page_size,
            ),
    {
        match iter_elem {
            PhysicalReadType::Done(x) => {
                // Unreachable under the precondition; kept total so the
                // item is never lost.
                let mut r: Vec<PhysicalReadType> = Vec::new();
                r.push(PhysicalReadType::Done(x));
                r
            },
            PhysicalReadType::ToDo(d) => {
                let n = d.buf.len();
                let chunks = crate::page_chunks::chunk_ranges(d.addr.address.0, n, page_size);
                let mut r: Vec<PhysicalReadType> = Vec::new();
                let mut k: usize = 0;
                while k < chunks.len()
                    invariant
                        page_size > 0,
                        d.addr.address.0 + n <= u64::MAX,
                        n == d.buf@.len(),
                        crate::page_chunks::chunks_wf(chunks@, d.addr.address.0, n, page_size),
                        k <= chunks@.len(),
                        r@.len() == k,
                        forall|j: int|
                            0 <= j < k ==> ((#[trigger] r@[j]) matches PhysicalReadType::ToDo(dj)
                                && dj.addr.page == d.addr.page && dj.addr.address.0
                                == chunks@[j].addr && dj.buf@.len() == chunks@[j].len && dj.buf@
                                == d.buf@.subrange(
                                chunks@[j].offset as int,
                                chunks@[j].offset + chunks@[j].len,
                            )),
                    decreases chunks@.len() - k,
                {
                    let c = chunks[k];
                    let sub = crate::buffer::subvec(&d.buf, c.offset, c.len);
                    r.push(
                        PhysicalReadType::ToDo(
                            PhysicalReadData {
                                addr: PhysicalAddress {
                                    address: Address(c.addr),
                                    page: d.addr.page,
                                },
                                buf: sub,
                            },
                        ),
                    );
                    k = k + 1;
                }
                proof {
                    assert forall|j: int| 0 <= j < r@.len() implies split_item_ok(
                        r@,
                        d.addr,
                        d.buf@,
                        page_size,
                        j,
                    ) by {
                        assert(r@[j] matches PhysicalReadType::ToDo(dj) && dj.addr.address.0
                            == chunks@[j].addr);
                    }
                }
                r
            },
        }
    }

    /// Writes `data` at physical address `addr` through the connector and
    /// drops every cache slot whose page the write touches, so that the
    /// cache stays a transparent copy of physical memory.
    ///
    /// On failure nothing is written and nothing is read back wrongly:
    /// the touched slots are merely dropped.
    pub fn cached_write<F: PhysicalMemory>(
        &mut self,
        mem: &mut F,
        addr: PhysicalAddress,
        data: &Vec<u8>,
    ) -> (r: Result<(), Error>)
        requires
            old(self).inv(),
            old(self).coherent(old(mem).mem()),
            addr.address.0 + data@.len() <= u64::MAX,
        ensures
            final(self).inv(),
            old(self).same_geometry(final(self)),
            forall|a: int, l: int| final(mem).ok_on(a, l) == old(mem).ok_on(a, l),
            final(self).coherent(final(mem).mem()),
            r is Ok ==> final(mem).mem() == crate::buffer::spec_write_bytes(
                old(mem).mem(),
                addr.address.0 as int,
                data@,
            ),
            r is Ok && data@.len() > 0 ==> addr.address.0 + data@.len() <= old(mem).mem().len(),
            r is Err ==> final(mem).mem() == old(mem).mem(),
            crate::phys_mem::fully_available(old(mem)) && addr.address.0 + data@.len() <= old(
                mem,
            ).mem().len() ==> r is Ok,
    {
        let ps = self.page_size as u64;
        let n = self.num_slots();
        let dlen = data.len();
        let chunks = crate::page_chunks::chunk_ranges(addr.address.0, dlen, ps);
        let mut ci: usize = 0;
        while ci < chunks.len()
            invariant
                self.inv(),
                old(self).same_geometry(self),
                self.spec_page_size() == ps,
                self.spec_num_slots() == n,
                self.coherent(old(mem).mem()),
                mem == old(mem),
                crate::page_chunks::chunks_wf(chunks@, addr.address.0, dlen, ps),
                dlen == data@.len(),
                ci <= chunks@.len(),
                forall|k: int|
                    0 <= k < ci ==> !self.spec_slot_valid(
                        ((#[trigger] chunks@[k].addr as int) / (ps as int)) % (n as int),
                    ),
            decreases chunks@.len() - ci,
        {
            let c = chunks[ci];
            let ghost pre_d = *self;
            self.drop_page(c.addr);
            proof {
                assert forall|i: int|
                    0 <= i < self.spec_num_slots() && self.spec_slot_valid(
                        i,
                    ) implies #[trigger] self.spec_slot_addr(i) + self.spec_page_size() <= old(
                    mem,
                ).mem().len() && self.spec_slot_data(i) == crate::buffer::spec_read_range(
                    old(mem).mem(),
                    self.spec_slot_addr(i) as int,
                    self.spec_page_size(),
                ) by {
                    assert(pre_d.spec_slot_valid(i));
                    assert(self.spec_slot_addr(i) == pre_d.spec_slot_addr(i));
                    assert(self.spec_slot_data(i) == pre_d.spec_slot_data(i));
                }
            }
            ci = ci + 1;
        }
        let r = crate::phys_mem::phys_write_from(mem, addr, data);
        proof {
            if r is Ok {
                let m0 = old(mem).mem();
                let m1 = mem.mem();
                let psi = ps as int;
                let ni = n as int;
                assert forall|i: int|
                    0 <= i < self.spec_num_slots() && self.spec_slot_valid(
                        i,
                    ) implies #[trigger] self.spec_slot_addr(i) + self.spec_page_size()
                    <= m1.len() && self.spec_slot_data(i) == crate::buffer::spec_read_range(
                    m1,
                    self.spec_slot_addr(i) as int,
                    self.spec_page_size(),
                ) by {
                    let sa = self.spec_slot_addr(i);
                    // The slot's page is untouched by the write: every
                    // written page is either this very page, whose slot
                    // the loop dropped, or another page-aligned page,
                    // whose bytes do not overlap this one.
                    assert(self.addr_consistent(sa, i));
                    assert(ps >= 1);
                    crate::types::lemma_align_down(sa, ps);
                    assert((sa as int) % (ps as int) == 0);
                    assert forall|k: int|
                        0 <= k < chunks@.len() implies ((#[trigger] chunks@[k].addr as int)
                        / psi) % ni != i by {
                        if ((chunks@[k].addr as int) / psi) % ni == i {
                            assert(!self.spec_slot_valid(i));
                        }
                    }
                    lemma_written_range_misses_page(chunks@, addr.address.0, dlen, ps, sa, ni, i);
                    assert(crate::buffer::spec_read_range(m1, sa as int, psi)
                        =~= crate::buffer::spec_read_range(m0, sa as int, psi));
                }
            }
        }
        r
    }
}

/// What one batch item becomes under `cached_read`: finished and
/// non-cacheable items pass through unchanged; a cacheable item comes
/// back `Done` with the exact uncached bytes, or as a failure only when
/// success was not owed.
pub open spec fn cached_read_item_post<T: CacheValidator, F: PhysicalMemory>(
    pre: PageCache<T>,
    mem: F,
    input: PhysicalReadType,
    output: PhysicalReadType,
) -> bool {
    match input {
        PhysicalReadType::Done(_) => output == input,
        PhysicalReadType::ToDo(d) => match d.addr.page {
            Option::None => output == input,
            Option::Some(pg) => if !pre.spec_mask().spec_contains(pg.page_type) {
                output == input
            } else {
                ||| (output matches PhysicalReadType::Done(Ok(d2)) && d2.addr == d.addr
                    && d2.buf@.len() == d.buf@.len() && (d.buf@.len() > 0 ==> d2.buf@
                    == crate::buffer::spec_read_range(
                    mem.mem(),
                    d.addr.address.0 as int,
                    d.buf@.len() as int,
                )) && (d.buf@.len() == 0 ==> d2.buf@ == d.buf@))
                ||| (output matches PhysicalReadType::Done(Err(e))
                    && !pre.single_read_covered(mem, d.addr, d.buf@.len() as int))
            },
        },
    }
}

/// The address of a `ToDo` work item (zero for finished items).
pub open spec fn todo_addr(it: PhysicalReadType) -> u64 {
    match it {
        PhysicalReadType::ToDo(d) => d.addr.address.0,
        PhysicalReadType::Done(_) => 0,
    }
}

/// The buffer length of a `ToDo` work item (zero for finished items).
pub open spec fn todo_len(it: PhysicalReadType) -> int {
    match it {
        PhysicalReadType::ToDo(d) => d.buf@.len() as int,
        PhysicalReadType::Done(_) => 0,
    }
}

/// The buffer bytes of a `ToDo` work item.
pub open spec fn todo_bytes(it: PhysicalReadType) -> Seq<u8> {
    match it {
        PhysicalReadType::ToDo(d) => d.buf@,
        PhysicalReadType::Done(_) => Seq::empty(),
    }
}

/// The page descriptor of a `ToDo` work item.
pub open spec fn todo_page(it: PhysicalReadType) -> Option<Page> {
    match it {
        PhysicalReadType::ToDo(d) => d.addr.page,
        PhysicalReadType::Done(_) => None,
    }
}

/// Item `j` of a split: a non-empty `ToDo` sub-span of the original
/// buffer, lying within one page, carrying the original page descriptor,
/// starting exactly where the previous item ended, with inner boundaries
/// on page boundaries.
pub open spec fn split_item_ok(
    r: Seq<PhysicalReadType>,
    a: PhysicalAddress,
    buf: Seq<u8>,
    ps: u64,
    j: int,
) -> bool {
    let start = a.address.0;
    let off = todo_addr(r[j]) - start;
    &&& r[j] is ToDo
    &&& todo_page(r[j]) == a.page
    &&& todo_len(r[j]) > 0
    &&& start <= todo_addr(r[j])
    &&& off + todo_len(r[j]) <= buf.len()
    &&& todo_bytes(r[j]) == buf.subrange(off, off + todo_len(r[j]))
    &&& spec_align_down(todo_addr(r[j]), ps) == spec_align_down(
        (todo_addr(r[j]) + todo_len(r[j]) - 1) as u64,
        ps,
    )
    &&& (0 < j ==> todo_addr(r[j]) == todo_addr(r[j - 1]) + todo_len(r[j - 1]) && (todo_addr(
        r[j],
    ) as int) % (ps as int) == 0)
    &&& (j < r.len() - 1 ==> ((todo_addr(r[j]) + todo_len(r[j])) as int) % (ps as int) == 0)
}

/// A whole split: the sub-buffers partition the original buffer in
/// address order.
pub open spec fn split_items_wf(
    r: Seq<PhysicalReadType>,
    a: PhysicalAddress,
    buf: Seq<u8>,
    ps: u64,
) -> bool {
    &&& forall|j: int| 0 <= j < r.len() ==> #[trigger] split_item_ok(r, a, buf, ps, j)
    &&& (buf.len() == 0 ==> r.len() == 0)
    &&& (buf.len() > 0 ==> r.len() > 0 && todo_addr(r[0]) == a.address.0 && todo_addr(
        r[r.len() - 1],
    ) + todo_len(r[r.len() - 1]) == a.address.0 + buf.len())
}

/// Observational equality of caches is transitive.
proof fn lemma_equiv_trans<T: CacheValidator>(a: PageCache<T>, b: PageCache<T>, c: PageCache<T>)
    requires
        a.equiv(&b),
        b.equiv(&c),
    ensures
        a.equiv(&c),
{
    assert forall|j: int| 0 <= j < a.spec_num_slots() implies #[trigger] c.spec_slot_addr(j)
        == a.spec_slot_addr(j) by {
        assert(b.spec_slot_addr(j) == a.spec_slot_addr(j));
    }
    assert forall|j: int| 0 <= j < a.spec_num_slots() implies #[trigger] c.spec_pending(j)
        == a.spec_pending(j) by {
        assert(b.spec_pending(j) == a.spec_pending(j));
    }
    assert forall|j: int| 0 <= j < a.spec_num_slots() implies #[trigger] c.spec_slot_valid(j)
        == a.spec_slot_valid(j) by {
        assert(b.spec_slot_valid(j) == a.spec_slot_valid(j));
    }
    assert forall|j: int| 0 <= j < a.spec_num_slots() implies #[trigger] c.spec_slot_data(j)
        == a.spec_slot_data(j) by {
        assert(b.spec_slot_data(j) == a.spec_slot_data(j));
    }
}

/// A span read over nothing but hits leaves the cache as it was; the
/// folded form keeps the loop reasoning small.
#[verifier::opaque]
pub open spec fn span_quiet<T: CacheValidator>(entry: PageCache<T>, cur: PageCache<T>) -> bool {
    entry.equiv(&cur)
}

/// Quietness starts reflexively.
proof fn lemma_quiet_init<T: CacheValidator>(entry: PageCache<T>)
    ensures
        span_quiet(entry, entry),
{
    reveal(span_quiet);
}

/// A page that hits at entry still hits in a quiet state.
proof fn lemma_quiet_hit<T: CacheValidator>(entry: PageCache<T>, cur: PageCache<T>, a: u64)
    requires
        entry.spec_num_slots() >= 1,
        entry.spec_page_size() >= 1,
        span_quiet(entry, cur),
        entry.chunk_hit(a),
    ensures
        cur.chunk_hit(a),
{
    reveal(span_quiet);
    lemma_mod_division_less_than_divisor(
        (a as int) / entry.spec_page_size(),
        entry.spec_num_slots(),
    );
    let i = entry.spec_page_index(a);
    assert(cur.spec_slot_addr(i) == entry.spec_slot_addr(i));
    assert(cur.spec_slot_valid(i) == entry.spec_slot_valid(i));
}

/// Quietness survives a step that changes nothing.
proof fn lemma_quiet_step<T: CacheValidator>(
    entry: PageCache<T>,
    pre: PageCache<T>,
    post: PageCache<T>,
)
    requires
        span_quiet(entry, pre),
        pre.equiv(&post),
    ensures
        span_quiet(entry, post),
{
    reveal(span_quiet);
    lemma_equiv_trans(entry, pre, post);
}

/// Quietness is observational equality.
proof fn lemma_quiet_unfold<T: CacheValidator>(entry: PageCache<T>, cur: PageCache<T>)
    requires
        span_quiet(entry, cur),
    ensures
        entry.equiv(&cur),
{
    reveal(span_quiet);
}

/// The output bytes a span read has settled after `done` chunks: the
/// prefix up to the next chunk's offset equals the physical bytes, and
/// the settled prefix lies inside the connector range.
#[verifier::opaque]
pub open spec fn span_out_inv(
    m0: Seq<u8>,
    a0: u64,
    span_len: usize,
    cs: Seq<crate::page_chunks::PageChunk>,
    done: int,
    o: Seq<u8>,
) -> bool {
    &&& o.len() == span_len
    &&& (forall|b: int|
        0 <= b < (if done < cs.len() {
            cs[done].offset as int
        } else {
            span_len as int
        }) ==> o[b] == m0[a0 + b])
    &&& (done > 0 ==> a0 + (if done < cs.len() {
        cs[done].offset as int
    } else {
        span_len as int
    }) <= m0.len())
}

/// A span read starts with nothing settled.
proof fn lemma_span_out_init(
    m0: Seq<u8>,
    a0: u64,
    span_len: usize,
    cs: Seq<crate::page_chunks::PageChunk>,
    o: Seq<u8>,
)
    requires
        o.len() == span_len,
        cs.len() > 0 ==> cs[0].offset == 0,
        cs.len() == 0 ==> span_len == 0,
    ensures
        span_out_inv(m0, a0, span_len, cs, 0, o),
{
    reveal(span_out_inv);
}

/// After the last chunk the whole span is settled.
proof fn lemma_span_out_conclude(
    m0: Seq<u8>,
    a0: u64,
    span_len: usize,
    cs: Seq<crate::page_chunks::PageChunk>,
    done: int,
    o: Seq<u8>,
)
    requires
        span_out_inv(m0, a0, span_len, cs, done, o),
        done >= cs.len(),
    ensures
        o.len() == span_len,
        forall|b: int| 0 <= b < span_len ==> o[b] == m0[a0 + b],
        done > 0 ==> a0 + span_len <= m0.len(),
{
    reveal(span_out_inv);
}

/// The item does not go through the cache: already finished, no page
/// information, or a page type outside the mask.
pub open spec fn item_passthrough<T: CacheValidator>(
    pre: PageCache<T>,
    it: PhysicalReadType,
) -> bool {
    match it {
        PhysicalReadType::Done(_) => true,
        PhysicalReadType::ToDo(d) => match d.addr.page {
            Option::None => true,
            Option::Some(p) => !pre.spec_mask().spec_contains(p.page_type),
        },
    }
}

/// Whether the item is served through the cache and its span touches
/// slot `i`.
pub open spec fn item_touches<T: CacheValidator>(
    pre: PageCache<T>,
    it: PhysicalReadType,
    i: int,
) -> bool {
    &&& !item_passthrough(pre, it)
    &&& (it matches PhysicalReadType::ToDo(d) && pre.span_touches_slot(
        d.addr.address.0,
        d.buf@.len() as int,
        i,
    ))
}

/// Whether slot `i` of `cur` validly holds one of the pages of the
/// item's span.
pub open spec fn item_fills<T: CacheValidator>(
    pre: PageCache<T>,
    cur: PageCache<T>,
    it: PhysicalReadType,
    i: int,
    m0: Seq<u8>,
) -> bool {
    &&& !item_passthrough(pre, it)
    &&& (it matches PhysicalReadType::ToDo(d) && exists|k: int|
        0 <= k < pre.spec_span_chunks(d.addr.address.0, d.buf@.len() as int).len()
            && pre.spec_page_index(
            (#[trigger] pre.spec_span_chunks(d.addr.address.0, d.buf@.len() as int)[k]).addr,
        ) == i && cur.slot_holds_page(
            i,
            pre.spec_aligned(
                pre.spec_span_chunks(d.addr.address.0, d.buf@.len() as int)[k].addr,
            ),
            m0,
        ))
}

/// Every item of the batch either passes the cache by or reads nothing
/// but hits: the whole batch leaves cache and connector alone.
pub open spec fn batch_all_quiet<T: CacheValidator>(
    entry: PageCache<T>,
    items: Seq<PhysicalReadType>,
) -> bool {
    forall|k: int|
        0 <= k < items.len() ==> item_passthrough(entry, #[trigger] items[k]) || (
        items[k] matches PhysicalReadType::ToDo(d) && entry.spec_all_hits(
            d.addr.address.0,
            d.buf@.len() as int,
        ))
}

/// The slot framing a batch read maintains after `done` items: slots no
/// item's span touches are unchanged, and every slot is at most
/// re-reserved unless it validly holds a page of some item's span.
#[verifier::opaque]
pub open spec fn batch_read_inv<T: CacheValidator>(
    entry: PageCache<T>,
    cur: PageCache<T>,
    items: Seq<PhysicalReadType>,
    m0: Seq<u8>,
) -> bool {
    &&& (forall|i: int|
        0 <= i < entry.spec_num_slots() && !(exists|k: int|
            0 <= k < items.len() && item_touches(entry, #[trigger] items[k], i))
            ==> #[trigger] entry.slot_untouched(cur, i))
    &&& (forall|i: int|
        0 <= i < entry.spec_num_slots() ==> #[trigger] entry.slot_reserved_only(cur, i) || (
        exists|k: int|
            0 <= k < items.len() && item_fills(entry, cur, #[trigger] items[k], i, m0)))
}

/// A batch read starts with its framing trivially true.
proof fn lemma_batch_init<T: CacheValidator>(
    entry: PageCache<T>,
    items: Seq<PhysicalReadType>,
    m0: Seq<u8>,
)
    ensures
        batch_read_inv(entry, entry, items, m0),
{
    reveal(batch_read_inv);
}

/// One cache-served item keeps the batch framing, given the item's own
/// span framing.
proof fn lemma_batch_step_item<T: CacheValidator>(
    entry: PageCache<T>,
    pre: PageCache<T>,
    post: PageCache<T>,
    items: Seq<PhysicalReadType>,
    kk: int,
    a0: u64,
    len: int,
    m0: Seq<u8>,
)
    requires
        batch_read_inv(entry, pre, items, m0),
        entry.same_geometry(&pre),
        entry.same_geometry(&post),
        0 <= kk < items.len(),
        !item_passthrough(entry, items[kk]),
        items[kk] matches PhysicalReadType::ToDo(d) && d.addr.address.0 == a0 && d.buf@.len()
            == len,
        forall|i: int|
            0 <= i < pre.spec_num_slots() && !pre.span_touches_slot(a0, len, i)
                ==> #[trigger] pre.slot_untouched(post, i),
        forall|i: int|
            0 <= i < pre.spec_num_slots() ==> #[trigger] pre.slot_reserved_only(post, i) || (
            exists|k: int|
                0 <= k < pre.spec_span_chunks(a0, len).len() && pre.spec_page_index(
                    (#[trigger] pre.spec_span_chunks(a0, len)[k]).addr,
                ) == i && post.slot_holds_page(
                    i,
                    pre.spec_aligned(pre.spec_span_chunks(a0, len)[k].addr),
                    m0,
                )),
    ensures
        batch_read_inv(entry, post, items, m0),
{
    reveal(batch_read_inv);
    assert(pre.spec_span_chunks(a0, len) == entry.spec_span_chunks(a0, len));
    assert forall|i: int|
        0 <= i < entry.spec_num_slots() && !(exists|k: int|
            0 <= k < items.len() && item_touches(entry, #[trigger] items[k], i))
            implies #[trigger] entry.slot_untouched(post, i) by {
        assert(entry.slot_untouched(pre, i));
        assert(!item_touches(entry, items[kk], i));
        assert(!entry.span_touches_slot(a0, len, i));
        assert(!pre.span_touches_slot(a0, len, i));
        assert(pre.slot_untouched(post, i));
    }
    assert forall|i: int|
        0 <= i < entry.spec_num_slots() implies #[trigger] entry.slot_reserved_only(post, i)
        || (exists|k: int|
        0 <= k < items.len() && item_fills(entry, post, #[trigger] items[k], i, m0)) by {
        if pre.slot_reserved_only(post, i) {
            if !entry.slot_reserved_only(pre, i) {
                let k = choose|k: int|
                    0 <= k < items.len() && item_fills(entry, pre, #[trigger] items[k], i, m0);
                assert(item_fills(entry, post, items[k], i, m0));
            }
        } else {
            let kc = choose|k: int|
                0 <= k < pre.spec_span_chunks(a0, len).len() && pre.spec_page_index(
                    (#[trigger] pre.spec_span_chunks(a0, len)[k]).addr,
                ) == i && post.slot_holds_page(
                    i,
                    pre.spec_aligned(pre.spec_span_chunks(a0, len)[k].addr),
                    m0,
                );
            assert(entry.spec_page_index(entry.spec_span_chunks(a0, len)[kc].addr) == i);
            assert(post.slot_holds_page(
                i,
                entry.spec_aligned(entry.spec_span_chunks(a0, len)[kc].addr),
                m0,
            ));
            assert(item_fills(entry, post, items[kk], i, m0));
        }
    }
}

/// Reading the batch framing back out of its folded form.
proof fn lemma_batch_unfold<T: CacheValidator>(
    entry: PageCache<T>,
    cur: PageCache<T>,
    items: Seq<PhysicalReadType>,
    m0: Seq<u8>,
)
    requires
        batch_read_inv(entry, cur, items, m0),
    ensures
        forall|i: int|
            0 <= i < entry.spec_num_slots() && !(exists|k: int|
                0 <= k < items.len() && item_touches(entry, #[trigger] items[k], i))
                ==> #[trigger] entry.slot_untouched(cur, i),
        forall|i: int|
            0 <= i < entry.spec_num_slots() ==> #[trigger] entry.slot_reserved_only(cur, i) || (
            exists|k: int|
                0 <= k < items.len() && item_fills(entry, cur, #[trigger] items[k], i, m0)),
{
    reveal(batch_read_inv);
}

/// Every page of a span that is all hits still hits through a quiet
/// state.
proof fn lemma_quiet_all_hits<T: CacheValidator>(
    entry: PageCache<T>,
    cur: PageCache<T>,
    a0: u64,
    len: int,
)
    requires
        entry.spec_num_slots() >= 1,
        entry.spec_page_size() >= 1,
        span_quiet(entry, cur),
        entry.spec_all_hits(a0, len),
        entry.same_geometry(&cur),
    ensures
        cur.spec_all_hits(a0, len),
{
    reveal(span_quiet);
    assert forall|k: int|
        0 <= k < cur.spec_span_chunks(a0, len).len() implies cur.chunk_hit(
        (#[trigger] cur.spec_span_chunks(a0, len)[k]).addr,
    ) by {
        assert(cur.spec_span_chunks(a0, len) == entry.spec_span_chunks(a0, len));
        let a = entry.spec_span_chunks(a0, len)[k].addr;
        assert(entry.chunk_hit(a));
        lemma_mod_division_less_than_divisor(
            (a as int) / entry.spec_page_size(),
            entry.spec_num_slots(),
        );
        let i = entry.spec_page_index(a);
        assert(cur.spec_slot_addr(i) == entry.spec_slot_addr(i));
        assert(cur.spec_slot_valid(i) == entry.spec_slot_valid(i));
    }
}

/// The slot framing a span read maintains after `done` chunks: slots of
/// untouched pages unchanged, every slot at most re-reserved unless it
/// validly holds one of the span's pages, chunks not yet processed see
/// their (uniquely owned) slots as at entry, and — while nothing failed
/// — each processed uniquely-slotted chunk left a hit alone and turned a
/// free slot into a valid copy of its page.
#[verifier::opaque]
pub open spec fn span_read_inv<T: CacheValidator>(
    entry: PageCache<T>,
    cur: PageCache<T>,
    a0: u64,
    len: int,
    done: int,
    settled: bool,
    m0: Seq<u8>,
) -> bool {
    &&& (forall|i: int|
        0 <= i < entry.spec_num_slots() && !entry.span_touches_slot(a0, len, i)
            ==> #[trigger] entry.slot_untouched(cur, i))
    &&& (forall|i: int|
        0 <= i < entry.spec_num_slots() ==> #[trigger] entry.slot_reserved_only(cur, i) || (
        exists|k: int|
            0 <= k < entry.spec_span_chunks(a0, len).len() && entry.spec_page_index(
                (#[trigger] entry.spec_span_chunks(a0, len)[k]).addr,
            ) == i && cur.slot_holds_page(
                i,
                entry.spec_aligned(entry.spec_span_chunks(a0, len)[k].addr),
                m0,
            )))
    &&& (forall|k: int|
        done <= k < entry.spec_span_chunks(a0, len).len() && #[trigger] entry.span_chunk_unique(
            a0,
            len,
            k,
        ) ==> entry.slot_untouched(
            cur,
            entry.spec_page_index(entry.spec_span_chunks(a0, len)[k].addr),
        ))
    &&& (settled ==> forall|k: int|
        0 <= k < done && #[trigger] entry.span_chunk_unique(a0, len, k) ==> ({
            let c = entry.spec_span_chunks(a0, len)[k];
            let i = entry.spec_page_index(c.addr);
            &&& (entry.chunk_hit(c.addr) ==> entry.slot_untouched(cur, i))
            &&& (!entry.chunk_hit(c.addr) && entry.chunk_reservable(c.addr)
                ==> cur.slot_holds_page(i, entry.spec_aligned(c.addr), m0))
        }))
}

/// A span read starts with its framing trivially true.
proof fn lemma_span_init<T: CacheValidator>(entry: PageCache<T>, a0: u64, len: int, m0: Seq<u8>)
    ensures
        span_read_inv(entry, entry, a0, len, 0, true, m0),
{
    reveal(span_read_inv);
}

/// One chunk step keeps the span framing: the chunk's own slot follows
/// the chunk verdict, every other slot is untouched by the step.
proof fn lemma_span_step<T: CacheValidator>(
    entry: PageCache<T>,
    pre: PageCache<T>,
    post: PageCache<T>,
    a0: u64,
    len: int,
    ci: int,
    m0: Seq<u8>,
    ok: bool,
)
    requires
        entry.spec_num_slots() >= 1,
        entry.spec_page_size() >= 1,
        entry.same_geometry(&pre),
        entry.same_geometry(&post),
        0 <= ci < entry.spec_span_chunks(a0, len).len(),
        span_read_inv(entry, pre, a0, len, ci, true, m0),
        forall|i: int|
            0 <= i < entry.spec_num_slots() && i != entry.spec_page_index(
                entry.spec_span_chunks(a0, len)[ci].addr,
            ) ==> #[trigger] pre.slot_untouched(post, i),
        ok ==> ({
            let c = entry.spec_span_chunks(a0, len)[ci];
            let i = entry.spec_page_index(c.addr);
            if pre.chunk_hit(c.addr) {
                pre.slot_untouched(post, i)
            } else if pre.chunk_reservable(c.addr) {
                post.slot_holds_page(i, entry.spec_aligned(c.addr), m0)
            } else {
                pre.slot_untouched(post, i)
            }
        }),
        !ok ==> pre.slot_reserved_only(
            post,
            entry.spec_page_index(entry.spec_span_chunks(a0, len)[ci].addr),
        ),
    ensures
        span_read_inv(entry, post, a0, len, ci + 1, ok, m0),
{
    reveal(span_read_inv);
    let cs = entry.spec_span_chunks(a0, len);
    let ic = entry.spec_page_index(cs[ci].addr);
    assert forall|k: int| 0 <= k < cs.len() implies 0 <= entry.spec_page_index(
        (#[trigger] cs[k]).addr,
    ) < entry.spec_num_slots() by {
        lemma_mod_division_less_than_divisor(
            (cs[k].addr as int) / entry.spec_page_size(),
            entry.spec_num_slots(),
        );
    }
    // Frame: slots outside the span stay untouched.
    assert forall|i: int|
        0 <= i < entry.spec_num_slots() && !entry.span_touches_slot(a0, len, i)
            implies #[trigger] entry.slot_untouched(post, i) by {
        assert(entry.slot_untouched(pre, i));
        assert(i != ic);
        assert(pre.slot_untouched(post, i));
    }
    // Per-slot outcome: at most the reservation moved, or some chunk's
    // page now validly sits there.
    assert forall|i: int|
        0 <= i < entry.spec_num_slots() implies #[trigger] entry.slot_reserved_only(post, i) || (
        exists|k: int|
            0 <= k < cs.len() && entry.spec_page_index((#[trigger] cs[k]).addr) == i
                && post.slot_holds_page(i, entry.spec_aligned(cs[k].addr), m0)) by {
        if i != ic {
            assert(pre.slot_untouched(post, i));
            if entry.slot_reserved_only(pre, i) {
                assert(entry.slot_reserved_only(post, i));
            }
        } else {
            if ok {
                let c = cs[ci];
                if pre.chunk_hit(c.addr) || !(pre.chunk_hit(c.addr) || pre.chunk_reservable(
                    c.addr,
                )) {
                    assert(pre.slot_untouched(post, i));
                    if entry.slot_reserved_only(pre, i) {
                        assert(entry.slot_reserved_only(post, i));
                    }
                } else {
                    assert(post.slot_holds_page(i, entry.spec_aligned(c.addr), m0));
                    assert(entry.spec_page_index((cs[ci]).addr) == i);
                }
            } else {
                assert(pre.slot_reserved_only(post, i));
                if entry.slot_reserved_only(pre, i) {
                    assert(entry.slot_reserved_only(post, i));
                }
            }
        }
    }
    // Untouched slots of chunks not processed yet.
    assert forall|k: int|
        ci + 1 <= k < cs.len() && #[trigger] entry.span_chunk_unique(a0, len, k)
            implies entry.slot_untouched(post, entry.spec_page_index(cs[k].addr)) by {
        let i = entry.spec_page_index(cs[k].addr);
        assert(entry.slot_untouched(pre, i));
        assert(entry.spec_page_index((cs[ci]).addr) != i);
        assert(pre.slot_untouched(post, i));
    }
    // Settled outcomes of processed chunks, the current one included.
    if ok {
        assert forall|k: int|
            0 <= k < ci + 1 && #[trigger] entry.span_chunk_unique(a0, len, k) implies ({
                let c = cs[k];
                let i = entry.spec_page_index(c.addr);
                &&& (entry.chunk_hit(c.addr) ==> entry.slot_untouched(post, i))
                &&& (!entry.chunk_hit(c.addr) && entry.chunk_reservable(c.addr)
                    ==> post.slot_holds_page(i, entry.spec_aligned(c.addr), m0))
            }) by {
            let c = cs[k];
            let i = entry.spec_page_index(c.addr);
            if k < ci {
                assert(entry.spec_page_index((cs[ci]).addr) != i);
                assert(pre.slot_untouched(post, i));
            } else {
                // The current chunk alone maps to its slot, so the slot
                // still shows the entry state, and the chunk verdict
                // settles it.
                assert(entry.slot_untouched(pre, i));
                assert(pre.chunk_hit(c.addr) == entry.chunk_hit(c.addr));
                assert(pre.chunk_reservable(c.addr) == entry.chunk_reservable(c.addr));
                if entry.chunk_hit(c.addr) {
                    assert(pre.slot_untouched(post, i));
                } else if entry.chunk_reservable(c.addr) {
                    assert(post.slot_holds_page(i, entry.spec_aligned(c.addr), m0));
                }
            }
        }
    }
}

/// Reading the span framing back out of its folded form.
proof fn lemma_span_unfold<T: CacheValidator>(
    entry: PageCache<T>,
    cur: PageCache<T>,
    a0: u64,
    len: int,
    done: int,
    settled: bool,
    m0: Seq<u8>,
)
    requires
        span_read_inv(entry, cur, a0, len, done, settled, m0),
    ensures
        forall|i: int|
            0 <= i < entry.spec_num_slots() && !entry.span_touches_slot(a0, len, i)
                ==> #[trigger] entry.slot_untouched(cur, i),
        forall|i: int|
            0 <= i < entry.spec_num_slots() ==> #[trigger] entry.slot_reserved_only(cur, i) || (
            exists|k: int|
                0 <= k < entry.spec_span_chunks(a0, len).len() && entry.spec_page_index(
                    (#[trigger] entry.spec_span_chunks(a0, len)[k]).addr,
                ) == i && cur.slot_holds_page(
                    i,
                    entry.spec_aligned(entry.spec_span_chunks(a0, len)[k].addr),
                    m0,
                )),
        settled && done >= entry.spec_span_chunks(a0, len).len() ==> forall|k: int|
            0 <= k < entry.spec_span_chunks(a0, len).len()
                && #[trigger] entry.span_chunk_unique(a0, len, k) ==> ({
                let c = entry.spec_span_chunks(a0, len)[k];
                let i = entry.spec_page_index(c.addr);
                &&& (entry.chunk_hit(c.addr) ==> entry.slot_untouched(cur, i))
                &&& (!entry.chunk_hit(c.addr) && entry.chunk_reservable(c.addr)
                    ==> cur.slot_holds_page(i, entry.spec_aligned(c.addr), m0))
            }),
{
    reveal(span_read_inv);
}

/// A page-aligned page `[sa, sa + ps)` whose slot index differs from the
/// slot index of every written chunk is untouched by the write
/// `[a0, a0 + len)`.
proof fn lemma_written_range_misses_page(
    chunks: Seq<crate::page_chunks::PageChunk>,
    a0: u64,
    len: usize,
    ps: u64,
    sa: u64,
    n: int,
    i: int,
)
    requires
        ps > 0,
        n > 0,
        a0 + len <= u64::MAX,
        crate::page_chunks::chunks_wf(chunks, a0, len, ps),
        (sa as int) % (ps as int) == 0,
        ((sa as int) / (ps as int)) % n == i,
        forall|k: int|
            0 <= k < chunks.len() ==> ((#[trigger] chunks[k].addr as int) / (ps as int)) % n
                != i,
    ensures
        len == 0 || sa + ps <= a0 || a0 + len <= sa,
{
    if len > 0 && !(sa + ps <= a0) && !(a0 + len <= sa) {
        // The intervals overlap: their later start is a common point.
        let y: int = if a0 >= sa {
            a0 as int
        } else {
            sa as int
        };
        assert(a0 <= y < a0 + len);
        assert(sa <= y < sa + ps);
        crate::page_chunks::lemma_chunks_cover(chunks, a0, len, ps, y - a0);
        let j = choose|j: int|
            0 <= j < chunks.len() && (#[trigger] chunks[j]).offset <= y - a0 < chunks[j].offset
                + chunks[j].len;
        let yu = y as u64;
        crate::page_chunks::lemma_chunk_page(chunks, a0, len, ps, j, yu);
        crate::types::lemma_align_down(sa, ps);
        crate::page_chunks::lemma_align_same_page(sa, yu, ps);
        // Both the slot's page and the chunk's page are the page of `y`,
        // so the chunk maps to the slot of `sa` after all.
        assert(spec_align_down(chunks[j].addr, ps) == sa);
        crate::types::lemma_align_down(chunks[j].addr, ps);
        assert(((chunks[j].addr as int) / (ps as int)) % n == i);
    }
}

/// Law: the cache invariant survives any `cached_page_mut` step.
///
/// Together with the two lemmas below: for any sequence of
/// `cached_page_mut`, `validate_page` and `invalidate_page` calls, the
/// invariant holds after every step.
pub proof fn lemma_cached_page_preserves_inv<T: CacheValidator>(
    pre: PageCache<T>,
    post: PageCache<T>,
    a: u64,
    e: CacheEntry,
)
    requires
        post.wf(),
        pre.inv(),
        pre.cached_page_post(post, a, e),
    ensures
        post.inv(),
{
    let ps = pre.spec_page_size() as u64;
    crate::types::lemma_align_down(a, ps);
    crate::types::lemma_align_down(pre.spec_aligned(a), ps);
    lemma_mod_division_less_than_divisor((a as int) / (ps as int), pre.spec_num_slots());
}

/// Law: the cache invariant survives any `validate_page` step.
pub proof fn lemma_validate_preserves_inv<T: CacheValidator>(
    pre: PageCache<T>,
    post: PageCache<T>,
    a: u64,
    pt: PageType,
)
    requires
        post.wf(),
        pre.inv(),
        pre.validate_page_post(post, a, pt),
    ensures
        post.inv(),
{
    let ps = pre.spec_page_size() as u64;
    crate::types::lemma_align_down(a, ps);
    crate::types::lemma_align_down(pre.spec_aligned(a), ps);
    lemma_mod_division_less_than_divisor((a as int) / (ps as int), pre.spec_num_slots());
}

/// Law: the cache invariant survives any `invalidate_page` step.
pub proof fn lemma_invalidate_preserves_inv<T: CacheValidator>(
    pre: PageCache<T>,
    post: PageCache<T>,
    a: u64,
    pt: PageType,
)
    requires
        post.wf(),
        pre.inv(),
        pre.invalidate_page_post(post, a, pt),
    ensures
        post.inv(),
{
}

/// Law (idempotent validate): validating the same page twice leaves the
/// cache exactly as validating it once.
pub proof fn lemma_validate_idempotent<T: CacheValidator>(
    s0: PageCache<T>,
    s1: PageCache<T>,
    s2: PageCache<T>,
    a: u64,
    pt: PageType,
)
    requires
        s0.wf(),
        s0.validate_page_post(s1, a, pt),
        s1.validate_page_post(s2, a, pt),
    ensures
        s1.equiv(&s2),
{
}

/// Law (idempotent invalidate): invalidating the same page twice leaves
/// the cache exactly as invalidating it once.
pub proof fn lemma_invalidate_idempotent<T: CacheValidator>(
    s0: PageCache<T>,
    s1: PageCache<T>,
    s2: PageCache<T>,
    a: u64,
    pt: PageType,
)
    requires
        s0.wf(),
        s0.invalidate_page_post(s1, a, pt),
        s1.invalidate_page_post(s2, a, pt),
    ensures
        s1.equiv(&s2),
{
}

/// Law (aliasing safety): when two requests for *different* pages collide
/// on the same slot, at most one of them is told to fill that slot. The
/// first entry's `should_validate` reserves the slot, so the second
/// request is refused both flags and must bypass the cache.
///
/// The hypothesis that `a`'s page is not the all-ones sentinel excludes
/// addresses of the very last page of the 64-bit space, whose reservation
/// cannot be told apart from "no reservation".
pub proof fn lemma_aliasing_safety<T: CacheValidator>(
    s0: PageCache<T>,
    s1: PageCache<T>,
    s2: PageCache<T>,
    a: u64,
    b: u64,
    ea: CacheEntry,
    eb: CacheEntry,
)
    requires
        s0.wf(),
        s0.cached_page_post(s1, a, ea),
        s1.cached_page_post(s2, b, eb),
        s0.spec_page_index(a) == s0.spec_page_index(b),
        s0.spec_aligned(a) != s0.spec_aligned(b),
        s0.spec_aligned(a) != INVALID_ADDRESS,
        ea.should_validate,
    ensures
        !eb.should_validate,
{
    let i = s0.spec_page_index(a);
    assert(s1.spec_pending(i) == s0.spec_aligned(a));
}

} // verus!
