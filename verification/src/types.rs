//! Plain value types shared by the whole pipeline: addresses, page
//! descriptors, page-type masks and the error kinds.

use vstd::prelude::*;

verus! {

/// All-ones sentinel for "no address" (`Address::invalid`).
pub const INVALID_ADDRESS: u64 = 0xffff_ffff_ffff_ffff;

/// Bit of the page-type mask for read-only pages.
pub const PAGE_READ_ONLY: u8 = 1;

/// Bit of the page-type mask for writeable pages.
pub const PAGE_WRITEABLE: u8 = 2;

/// Bit of the page-type mask for non-executable pages.
pub const PAGE_NO_EXEC: u8 = 4;

/// Bit of the page-type mask for pages that hold page-table entries.
pub const PAGE_PAGE_TABLE: u8 = 8;

/// A 64-bit address with a reserved all-ones `invalid` sentinel and a zero
/// `null` sentinel.
#[derive(Clone, Copy, Debug, PartialEq, Eq, Structural)]
pub struct Address(pub u64);

/// `a` aligned down to the previous multiple of `page_size`.
pub open spec fn spec_align_down(a: u64, page_size: u64) -> u64
    recommends
        page_size > 0,
{
    ((a as int) - ((a as int) % (page_size as int))) as u64
}

/// The basic facts about aligning down: the result is the largest
/// multiple of `ps` not above `a`, aligning is idempotent, and aligning
/// does not change the page number `a / ps`.
pub proof fn lemma_align_down(a: u64, ps: u64)
    requires
        ps > 0,
    ensures
        0 <= (a as int) % (ps as int) <= a,
        spec_align_down(a, ps) <= a,
        a < spec_align_down(a, ps) + ps,
        (spec_align_down(a, ps) as int) % (ps as int) == 0,
        spec_align_down(spec_align_down(a, ps), ps) == spec_align_down(a, ps),
        (spec_align_down(a, ps) as int) / (ps as int) == (a as int) / (ps as int),
{
    let ai = a as int;
    let psi = ps as int;
    vstd::arithmetic::div_mod::lemma_fundamental_div_mod(ai, psi);
    vstd::arithmetic::div_mod::lemma_mod_division_less_than_divisor(ai, psi);
    let q = ai / psi;
    assert(ai - ai % psi == psi * q);
    vstd::arithmetic::div_mod::lemma_mod_multiples_basic(q, psi);
    assert((q * psi) % psi == 0);
    assert(psi * q == q * psi) by {
        vstd::arithmetic::mul::lemma_mul_is_commutative(psi, q);
    }
    vstd::arithmetic::div_mod::lemma_div_multiples_vanish(q, psi);
    assert((psi * q) / psi == q);
}

/// Aligning down is monotonic.
pub proof fn lemma_align_down_monotonic(a: u64, b: u64, ps: u64)
    requires
        ps > 0,
        a <= b,
    ensures
        spec_align_down(a, ps) <= spec_align_down(b, ps),
{
    lemma_align_down(a, ps);
    lemma_align_down(b, ps);
    let psi = ps as int;
    vstd::arithmetic::div_mod::lemma_div_is_ordered(a as int, b as int, psi);
    vstd::arithmetic::div_mod::lemma_fundamental_div_mod(a as int, psi);
    vstd::arithmetic::div_mod::lemma_fundamental_div_mod(b as int, psi);
    vstd::arithmetic::mul::lemma_mul_inequality((a as int) / psi, (b as int) / psi, psi);
}


impl Address {
    /// The zero address.
    pub fn null() -> (r: Address)
        ensures
            r.0 == 0,
    {
        Address(0)
    }

    /// The all-ones "no address" sentinel.
    pub fn invalid() -> (r: Address)
        ensures
            r.0 == INVALID_ADDRESS,
    {
        Address(INVALID_ADDRESS)
    }

    /// The raw 64-bit value.
    pub fn as_u64(self) -> (r: u64)
        ensures
            r == self.0,
    {
        self.0
    }

    /// This address aligned down to the page boundary below it.
    pub fn as_page_aligned(self, page_size: u64) -> (r: Address)
        requires
            page_size > 0,
        ensures
            r.0 == spec_align_down(self.0, page_size),
    {
        proof {
            vstd::arithmetic::div_mod::lemma_mod_decreases(self.0 as nat, page_size as nat);
        }
        Address(self.0 - self.0 % page_size)
    }
}

/// A set of page attributes, encoded as a bitmask over the `PAGE_*` bits.
///
/// The cache stores one as its `page_type_mask`; only pages whose type is a
/// subset of the mask are cacheable.
#[derive(Clone, Copy, Debug, PartialEq, Eq, Structural)]
pub struct PageType(pub u8);

impl PageType {
    /// The empty attribute set.
    pub fn none() -> (r: PageType)
        ensures
            r.0 == 0,
    {
        PageType(0)
    }

    /// The read-only attribute alone.
    pub fn read_only() -> (r: PageType)
        ensures
            r.0 == PAGE_READ_ONLY,
    {
        PageType(PAGE_READ_ONLY)
    }

    /// The writeable attribute alone.
    pub fn writeable() -> (r: PageType)
        ensures
            r.0 == PAGE_WRITEABLE,
    {
        PageType(PAGE_WRITEABLE)
    }

    /// The page-table attribute alone.
    pub fn page_table() -> (r: PageType)
        ensures
            r.0 == PAGE_PAGE_TABLE,
    {
        PageType(PAGE_PAGE_TABLE)
    }

    /// Subset test: every attribute of `other` is also set in `self`.
    pub open spec fn spec_contains(self, other: PageType) -> bool {
        self.0 & other.0 == other.0
    }

    /// Subset test: every attribute of `other` is also set in `self`.
    pub fn contains(self, other: PageType) -> (r: bool)
        ensures
            r == self.spec_contains(other),
    {
        self.0 & other.0 == other.0
    }

    /// The union of the two attribute sets.
    pub fn union(self, other: PageType) -> (r: PageType)
        ensures
            r.0 == (self.0 | other.0),
    {
        PageType(self.0 | other.0)
    }
}

/// What is known about the page a physical address belongs to.
#[derive(Clone, Copy, Debug, PartialEq, Eq, Structural)]
pub struct Page {
    /// Attributes of the page.
    pub page_type: PageType,
    /// Size of the page in bytes.
    pub page_size: u64,
    /// Physical address of the first byte of the page.
    pub page_base: Address,
}

/// A physical address, together with the page descriptor the translator
/// found for it. `page == None` means the address is a raw physical probe
/// not known to correspond to a mapped page.
#[derive(Clone, Copy, Debug, PartialEq, Eq, Structural)]
pub struct PhysicalAddress {
    /// The physical byte address.
    pub address: Address,
    /// The page the address was resolved through, if any.
    pub page: Option<Page>,
}

impl PhysicalAddress {
    /// A raw physical address with no page information.
    pub fn with_address(address: Address) -> (r: PhysicalAddress)
        ensures
            r.address == address,
            r.page is None,
    {
        PhysicalAddress { address, page: None }
    }

    /// The physical byte address.
    pub fn as_u64(self) -> (r: u64)
        ensures
            r == self.address.0,
    {
        self.address.0
    }
}

/// The mutually exclusive failure kinds of the pipeline.
#[derive(Clone, Copy, Debug, PartialEq, Eq, Structural)]
pub enum Error {
    /// A page-table entry had its `present` bit clear during a walk.
    PageNotPresent,
    /// The translation base matches none of the configured architectures.
    InvalidArchitecture,
    /// An address was rejected by a memory map or lies outside the
    /// connector's physical range.
    OutOfBounds,
    /// The connector failed while seeking.
    ConnectorIoSeek,
    /// The connector failed while reading.
    ConnectorIoRead,
    /// The connector failed while writing.
    ConnectorIoWrite,
    /// The connector failed while mapping.
    ConnectorIoMap,
    /// A symbol, process or module lookup found nothing.
    NotFound,
    /// A debug-symbol database was missing a struct or a field.
    Pdb,
}

} // verus!
