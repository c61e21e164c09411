//! Architecture descriptors: bitness, endianness, page size, pointer size
//! and address-space width for the supported architectures.
//!
//! The page-table walk definition each architecture contributes lives in
//! the MMU module.

use vstd::prelude::*;

verus! {

/// Identifies the byte order of an architecture.
#[derive(Clone, Copy, Debug, PartialEq, Eq, Structural)]
pub enum Endianess {
    /// Least significant byte first.
    LittleEndian,
    /// Most significant byte first.
    BigEndian,
}

/// A machine-readable identifier of an architecture, as found in configs
/// or handed over process boundaries.
#[derive(Clone, Copy, Debug, PartialEq, Eq, Structural)]
pub enum ArchitectureIdent {
    /// An architecture this crate cannot instantiate.
    Unknown,
    /// X86 with the given bitness and whether address extensions are on
    /// (PAE on 32 bit; 57-bit addressing on 64 bit, which is unsupported).
    X86(u8, bool),
    /// 64-bit Arm with the given page size; only 4 KiB pages are
    /// supported.
    AArch64(usize),
}

/// An immutable architecture descriptor. All four supported architectures
/// use 4 KiB pages.
#[derive(Clone, Copy, Debug, PartialEq, Eq, Structural)]
pub enum Architecture {
    /// 32-bit x86 without physical address extensions: 2-level walk.
    X86,
    /// 32-bit x86 with physical address extensions: 3-level walk.
    X86Pae,
    /// 64-bit x86: 4-level walk over 48 bits of virtual address.
    X64,
    /// 64-bit Arm with 4 KiB granule: 4-level walk over 48 bits.
    AArch64,
}

/// The historical name for a value-level architecture handle.
pub type ArchitectureObj = Architecture;

impl Architecture {
    /// Pointer width in bits.
    pub open spec fn spec_bits(self) -> u8 {
        match self {
            Architecture::X86 => 32,
            Architecture::X86Pae => 32,
            Architecture::X64 => 64,
            Architecture::AArch64 => 64,
        }
    }

    /// Pointer width in bits.
    pub fn bits(self) -> (r: u8)
        ensures
            r == self.spec_bits(),
    {
        match self {
            Architecture::X86 => 32,
            Architecture::X86Pae => 32,
            Architecture::X64 => 64,
            Architecture::AArch64 => 64,
        }
    }

    /// Byte order; all supported architectures run little-endian.
    pub fn endianess(self) -> (r: Endianess)
        ensures
            r == Endianess::LittleEndian,
    {
        Endianess::LittleEndian
    }

    /// Smallest page size in bytes; 4 KiB on all supported architectures.
    pub open spec fn spec_page_size(self) -> usize {
        4096
    }

    /// Smallest page size in bytes.
    pub fn page_size(self) -> (r: usize)
        ensures
            r == self.spec_page_size(),
    {
        4096
    }

    /// Pointer width in bytes.
    pub fn size_addr(self) -> (r: usize)
        ensures
            r == self.spec_bits() / 8,
    {
        match self {
            Architecture::X86 => 4,
            Architecture::X86Pae => 4,
            Architecture::X64 => 8,
            Architecture::AArch64 => 8,
        }
    }

    /// Width of the physical address space in bits.
    pub open spec fn spec_address_space_bits(self) -> u8 {
        match self {
            Architecture::X86 => 32,
            Architecture::X86Pae => 36,
            Architecture::X64 => 52,
            Architecture::AArch64 => 52,
        }
    }

    /// Width of the physical address space in bits.
    pub fn address_space_bits(self) -> (r: u8)
        ensures
            r == self.spec_address_space_bits(),
    {
        match self {
            Architecture::X86 => 32,
            Architecture::X86Pae => 36,
            Architecture::X64 => 52,
            Architecture::AArch64 => 52,
        }
    }

    /// The identifier this descriptor answers to.
    pub fn ident(self) -> (r: ArchitectureIdent)
        ensures
            r == match self {
                Architecture::X86 => ArchitectureIdent::X86(32, false),
                Architecture::X86Pae => ArchitectureIdent::X86(32, true),
                Architecture::X64 => ArchitectureIdent::X86(64, false),
                Architecture::AArch64 => ArchitectureIdent::AArch64(4096usize),
            },
    {
        match self {
            Architecture::X86 => ArchitectureIdent::X86(32, false),
            Architecture::X86Pae => ArchitectureIdent::X86(32, true),
            Architecture::X64 => ArchitectureIdent::X86(64, false),
            Architecture::AArch64 => ArchitectureIdent::AArch64(4096),
        }
    }
}

impl ArchitectureIdent {
    /// The identifiers that name an architecture this crate can
    /// instantiate.
    pub open spec fn spec_supported(self) -> bool {
        match self {
            ArchitectureIdent::X86(32u8, _) => true,
            ArchitectureIdent::X86(64u8, false) => true,
            ArchitectureIdent::AArch64(4096usize) => true,
            _ => false,
        }
    }

    /// The descriptor this identifier names.
    pub open spec fn spec_into_obj(self) -> Architecture {
        match self {
            ArchitectureIdent::X86(32u8, false) => Architecture::X86,
            ArchitectureIdent::X86(32u8, true) => Architecture::X86Pae,
            ArchitectureIdent::X86(64u8, false) => Architecture::X64,
            ArchitectureIdent::AArch64(4096usize) => Architecture::AArch64,
            _ => Architecture::X64,
        }
    }

    /// Resolves the identifier to its architecture descriptor.
    ///
    /// Identifiers of unsupported architectures are excluded: a caller
    /// that cannot guarantee one checks `supported` first, or uses the
    /// fallible translator constructor.
    pub fn into_obj(self) -> (r: Architecture)
        requires
            self.spec_supported(),
        ensures
            r == self.spec_into_obj(),
    {
        match self {
            ArchitectureIdent::X86(32, false) => Architecture::X86,
            ArchitectureIdent::X86(32, true) => Architecture::X86Pae,
            ArchitectureIdent::X86(64, false) => Architecture::X64,
            _ => Architecture::AArch64,
        }
    }

    /// Whether this identifier names a supported architecture.
    pub fn supported(self) -> (r: bool)
        ensures
            r == self.spec_supported(),
    {
        match self {
            ArchitectureIdent::X86(32, _) => true,
            ArchitectureIdent::X86(64, false) => true,
            ArchitectureIdent::AArch64(ps) => ps == 4096,
            _ => false,
        }
    }
}

} // verus!
