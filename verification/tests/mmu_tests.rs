use memflow::architecture::{Architecture, ArchitectureIdent, Endianess};
use memflow::phys_mem::BufferMemory;
use memflow::translate::{VirtualTranslate3, Win32VirtualTranslate};
use memflow::types::{Address, Error, PAGE_WRITEABLE};

fn put_u64(buf: &mut Vec<u8>, at: usize, v: u64) {
    let b = v.to_le_bytes();
    buf[at..at + 8].copy_from_slice(&b);
}

/// Page tables for 64-bit x86: the directory table base at physical
/// 0x1000, one table chain down to a writeable large page mapping the
/// first 2 MiB onto themselves.
fn identity_2m_tables() -> Vec<u8> {
    let mut buf = vec![0u8; 0x4000];
    // Top level entry 0 -> next table at 0x2000, present and writeable.
    put_u64(&mut buf, 0x1000, 0x2000 | 0x3);
    // Next level entry 0 -> directory at 0x3000.
    put_u64(&mut buf, 0x2000, 0x3000 | 0x3);
    // Directory entry 0: large (2 MiB) page at 0, present and writeable.
    put_u64(&mut buf, 0x3000, 0x83);
    buf
}

#[test]
fn identity_walk_x64() {
    // An identity-mapped first 2 MiB: the walk of 0x12345 lands on
    // physical 0x12345 in a writeable 2 MiB page.
    let mut mem = BufferMemory::with_bytes(identity_2m_tables());
    let tr = Win32VirtualTranslate::new(ArchitectureIdent::X86(64, false), Address(0x1000));
    let pa = tr.virt_to_phys(&mut mem, Address(0x12345)).unwrap();
    assert_eq!(pa.address.0, 0x12345);
    let page = pa.page.unwrap();
    assert_eq!(page.page_size, 0x20_0000);
    assert_eq!(page.page_base.0, 0);
    assert_eq!(page.page_type.0 & PAGE_WRITEABLE, PAGE_WRITEABLE);
}

#[test]
fn missing_entry_sinks_into_failures() {
    // The entry for virtual 0x4000_0000 is absent, so its walk fails
    // with a missing page, while a walk of 0x1000 in the same batch
    // succeeds.
    let mut mem = BufferMemory::with_bytes(identity_2m_tables());
    let tr = Win32VirtualTranslate::new(ArchitectureIdent::X86(64, false), Address(0x1000));

    let addrs: Vec<(Address, u32)> = vec![(Address(0x40001000), 7u32), (Address(0x1000), 9u32)];
    let mut out: Vec<(memflow::types::PhysicalAddress, u32)> = Vec::new();
    let mut out_fail: Vec<(Error, Address, u32)> = Vec::new();
    tr.virt_to_phys_iter(&mut mem, addrs, &mut out, &mut out_fail);

    assert_eq!(out.len(), 1);
    assert_eq!(out[0].0.address.0, 0x1000);
    assert_eq!(out[0].1, 9);

    assert_eq!(out_fail.len(), 1);
    assert_eq!(out_fail[0].0, Error::PageNotPresent);
    assert_eq!(out_fail[0].1 .0, 0x40001000);
    assert_eq!(out_fail[0].2, 7);
}

#[test]
fn walk_of_unreachable_table_is_out_of_bounds() {
    // A top-level entry pointing past the connector's physical range
    // makes the next table read out of bounds.
    let mut buf = vec![0u8; 0x2000];
    put_u64(&mut buf, 0x1000, 0x10_0000 | 0x3);
    let mut mem = BufferMemory::with_bytes(buf);
    let tr = Win32VirtualTranslate::new(ArchitectureIdent::X86(64, false), Address(0x1000));
    let r = tr.virt_to_phys(&mut mem, Address(0x1000));
    assert_eq!(r, Err(Error::OutOfBounds));
}

#[test]
fn four_kib_leaf_walk_x64() {
    let mut buf = vec![0u8; 0x6000];
    put_u64(&mut buf, 0x1000, 0x2000 | 0x3);
    put_u64(&mut buf, 0x2000, 0x3000 | 0x3);
    put_u64(&mut buf, 0x3000, 0x4000 | 0x3);
    // Leaf table: virtual page 3 -> physical page at 0x5000.
    put_u64(&mut buf, 0x4000 + 3 * 8, 0x5000 | 0x3);
    let mut mem = BufferMemory::with_bytes(buf);
    let tr = Win32VirtualTranslate::new(ArchitectureIdent::X86(64, false), Address(0x1000));
    let pa = tr.virt_to_phys(&mut mem, Address(0x3abc)).unwrap();
    assert_eq!(pa.address.0, 0x5abc);
    assert_eq!(pa.page.unwrap().page_size, 4096);
}

#[test]
fn translation_table_id_is_dtb_page() {
    let tr = Win32VirtualTranslate::new(ArchitectureIdent::X86(64, false), Address(0x1000));
    assert_eq!(tr.translation_table_id(Address(0)), 1);
    assert_eq!(tr.arch(), Architecture::X64);
}

#[test]
fn architecture_descriptors() {
    assert_eq!(Architecture::X64.bits(), 64);
    assert_eq!(Architecture::X86.bits(), 32);
    assert_eq!(Architecture::X86Pae.bits(), 32);
    assert_eq!(Architecture::AArch64.bits(), 64);
    assert_eq!(Architecture::X64.page_size(), 4096);
    assert_eq!(Architecture::X64.size_addr(), 8);
    assert_eq!(Architecture::X86.size_addr(), 4);
    assert_eq!(Architecture::X86Pae.address_space_bits(), 36);
    assert_eq!(Architecture::X64.endianess(), Endianess::LittleEndian);
    assert_eq!(
        Architecture::X64.ident(),
        ArchitectureIdent::X86(64, false)
    );
}

#[test]
fn ident_resolution() {
    assert!(ArchitectureIdent::X86(64, false).supported());
    assert!(ArchitectureIdent::X86(32, true).supported());
    assert!(ArchitectureIdent::AArch64(4096).supported());
    assert!(!ArchitectureIdent::AArch64(16384).supported());
    assert!(!ArchitectureIdent::X86(64, true).supported());
    assert!(!ArchitectureIdent::Unknown.supported());
    assert_eq!(
        ArchitectureIdent::X86(32, false).into_obj(),
        Architecture::X86
    );
    assert_eq!(
        ArchitectureIdent::X86(32, true).into_obj(),
        Architecture::X86Pae
    );
    assert_eq!(
        ArchitectureIdent::X86(64, false).into_obj(),
        Architecture::X64
    );
    assert_eq!(
        ArchitectureIdent::AArch64(4096).into_obj(),
        Architecture::AArch64
    );
}

fn put_u32(buf: &mut Vec<u8>, at: usize, v: u32) {
    let b = v.to_le_bytes();
    buf[at..at + 4].copy_from_slice(&b);
}

#[test]
fn walk_x86_32_small_and_large_pages() {
    // Two-level walk with 32-bit entries: directory index 1 covers
    // virtual 0x0040_0000 and up.
    let mut buf = vec![0u8; 0x4000];
    // Directory entry 1 -> table at 0x2000.
    put_u32(&mut buf, 0x1000 + 4, 0x2000 | 0x3);
    // Table entry 1 -> page at 0x5000.
    put_u32(&mut buf, 0x2000 + 4, 0x5000 | 0x3);
    // Directory entry 2: a large (4 MiB) page at 0x0080_0000.
    put_u32(&mut buf, 0x1000 + 8, 0x0080_0000 | 0x83);
    let mut mem = BufferMemory::with_bytes(buf);
    let tr = Win32VirtualTranslate::new(ArchitectureIdent::X86(32, false), Address(0x1000));

    let pa = tr.virt_to_phys(&mut mem, Address(0x0040_1234)).unwrap();
    assert_eq!(pa.address.0, 0x5234);
    assert_eq!(pa.page.unwrap().page_size, 4096);

    let pa = tr.virt_to_phys(&mut mem, Address(0x0092_3456)).unwrap();
    assert_eq!(pa.address.0, 0x0092_3456);
    assert_eq!(pa.page.unwrap().page_size, 0x40_0000);
}

#[test]
fn walk_x86_pae() {
    // Three-level walk with 64-bit entries.
    let mut buf = vec![0u8; 0x4000];
    put_u64(&mut buf, 0x1000, 0x2000 | 0x1);
    put_u64(&mut buf, 0x2000, 0x3000 | 0x3);
    put_u64(&mut buf, 0x3000, 0x6000 | 0x3);
    let mut mem = BufferMemory::with_bytes(buf);
    let tr = Win32VirtualTranslate::new(ArchitectureIdent::X86(32, true), Address(0x1000));
    let pa = tr.virt_to_phys(&mut mem, Address(0x234)).unwrap();
    assert_eq!(pa.address.0, 0x6234);
    assert_eq!(pa.page.unwrap().page_size, 4096);
}

#[test]
fn walk_aarch64_block_and_page() {
    // Four-level walk; a clear second bit marks a block, a set seventh
    // bit read-only memory.
    let mut buf = vec![0u8; 0x6000];
    put_u64(&mut buf, 0x1000, 0x2000 | 0x3);
    put_u64(&mut buf, 0x2000, 0x3000 | 0x3);
    // Level-two entry 0: a 2 MiB block at 0, present, writeable.
    put_u64(&mut buf, 0x3000, 0x1);
    // Level-two entry 1: a table down to 4 KiB pages.
    put_u64(&mut buf, 0x3000 + 8, 0x4000 | 0x3);
    // Level-three entry 3: a read-only page at 0x5000.
    put_u64(&mut buf, 0x4000 + 3 * 8, 0x5000 | 0x3 | 0x80);
    let mut mem = BufferMemory::with_bytes(buf);
    let tr = Win32VirtualTranslate::new(ArchitectureIdent::AArch64(4096), Address(0x1000));

    let pa = tr.virt_to_phys(&mut mem, Address(0x12345)).unwrap();
    assert_eq!(pa.address.0, 0x12345);
    let page = pa.page.unwrap();
    assert_eq!(page.page_size, 0x20_0000);
    assert_eq!(page.page_type.0 & PAGE_WRITEABLE, PAGE_WRITEABLE);

    // 2 MiB + page 3 + 0xbc lands in the read-only leaf page.
    let pa = tr.virt_to_phys(&mut mem, Address(0x20_0000 + 0x3000 + 0xbc)).unwrap();
    assert_eq!(pa.address.0, 0x50bc);
    let page = pa.page.unwrap();
    assert_eq!(page.page_size, 4096);
    assert_eq!(page.page_type.0 & PAGE_WRITEABLE, 0);
}

#[test]
fn unsupported_architecture_fails_fast() {
    let r = Win32VirtualTranslate::try_new(ArchitectureIdent::Unknown, Address(0x1000));
    assert_eq!(r.err(), Some(Error::InvalidArchitecture));
    let r = Win32VirtualTranslate::try_new(ArchitectureIdent::X86(64, true), Address(0x1000));
    assert_eq!(r.err(), Some(Error::InvalidArchitecture));
    let t = Win32VirtualTranslate::try_new(ArchitectureIdent::AArch64(4096), Address(0x1000))
        .unwrap();
    assert_eq!(t.sys_arch, Architecture::AArch64);
}
