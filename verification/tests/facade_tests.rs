use memflow::architecture::{Architecture, ArchitectureIdent};
use memflow::cache::{DefaultCacheValidator, PageCache};
use memflow::phys_mem::BufferMemory;
use memflow::translate::Win32VirtualTranslate;
use memflow::types::{Address, Error, PageType, PAGE_WRITEABLE};

fn put_u64(buf: &mut Vec<u8>, at: usize, v: u64) {
    let b = v.to_le_bytes();
    buf[at..at + 8].copy_from_slice(&b);
}

/// 64-bit x86 tables at physical 0x1000 identity-mapping the first
/// 2 MiB with one writeable large page.
fn identity_memory() -> Vec<u8> {
    let mut buf = vec![0u8; 0x20_0000];
    put_u64(&mut buf, 0x1000, 0x2000 | 0x3);
    put_u64(&mut buf, 0x2000, 0x3000 | 0x3);
    put_u64(&mut buf, 0x3000, 0x83);
    for i in 0..0x1000 {
        buf[0x10_0000 + i] = (i % 241) as u8;
    }
    buf
}

fn make_view(
    with_cache: bool,
) -> memflow::virt_mem::VirtualDma<BufferMemory> {
    let mem = BufferMemory::with_bytes(identity_memory());
    let tr = Win32VirtualTranslate::new(ArchitectureIdent::X86(64, false), Address(0x1000));
    let cache = if with_cache {
        Some(PageCache::new(
            Architecture::X64,
            4 * 4096,
            PageType(PAGE_WRITEABLE),
            DefaultCacheValidator::new(),
        ))
    } else {
        None
    };
    tr.virt_mem(mem, cache, Architecture::X64)
}

#[test]
fn facade_write_then_read_round_trip() {
    // Write a pattern at a virtual address through the cached view,
    // then read it back: the bytes come back unchanged.
    let mut view = make_view(true);
    let data = vec![0xAAu8; 32];
    view.virt_write(Address(0x10_0400), &data).unwrap();
    let mut out = vec![0u8; 32];
    view.virt_read(Address(0x10_0400), &mut out).unwrap();
    assert_eq!(out, data);
}

#[test]
fn cache_transparency() {
    // The same virtual reads through a cached and an uncached view are
    // byte-for-byte equal, including reads that span a page boundary
    // and repeated reads that hit the cache.
    let mut cached = make_view(true);
    let mut direct = make_view(false);
    for &(addr, len) in &[
        (0x10_0000u64, 64usize),
        (0x10_0ff8, 16),
        (0x10_0000, 64),
        (0x10_0123, 300),
    ] {
        let mut a = vec![0u8; len];
        let mut b = vec![0u8; len];
        cached.virt_read(Address(addr), &mut a).unwrap();
        direct.virt_read(Address(addr), &mut b).unwrap();
        assert_eq!(a, b);
    }
}

#[test]
fn unmapped_virtual_read_fails() {
    let mut view = make_view(true);
    let mut out = vec![0u8; 8];
    let r = view.virt_read(Address(0x4000_0000), &mut out);
    assert_eq!(r, Err(Error::PageNotPresent));
}

#[test]
fn facade_read_crossing_pages() {
    let mut view = make_view(false);
    let mut out = vec![0u8; 32];
    // 16 bytes before and after the boundary of two data pages.
    view.virt_read(Address(0x10_0ff0), &mut out).unwrap();
    let reference = identity_memory();
    assert_eq!(&out[..], &reference[0x10_0ff0..0x10_1010]);
}

#[test]
fn facade_batched_reads() {
    let mut view = make_view(true);
    let reference = identity_memory();
    let reqs = vec![
        (Address(0x10_0000), vec![0u8; 16]),
        (Address(0x4000_0000), vec![0u8; 4]),
        (Address(0x10_0ff8), vec![0u8; 16]),
    ];
    let results = view.virt_read_iter(reqs);
    assert_eq!(results.len(), 3);
    assert_eq!(results[0].0 .0, 0x10_0000);
    assert_eq!(
        results[0].1.as_ref().unwrap()[..],
        reference[0x10_0000..0x10_0010]
    );
    // The unmapped request fails without aborting the batch.
    assert_eq!(results[1].1, Err(Error::PageNotPresent));
    assert_eq!(
        results[2].1.as_ref().unwrap()[..],
        reference[0x10_0ff8..0x10_1008]
    );
}
