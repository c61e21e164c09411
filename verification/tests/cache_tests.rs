use memflow::architecture::Architecture;
use memflow::cache::{CacheEntry, CacheValidator, DefaultCacheValidator, PageCache, TlbCacheValidator};
use memflow::page_chunks::chunk_ranges;
use memflow::phys_mem::{BufferMemory, PhysicalReadData, PhysicalReadType};
use memflow::types::{Address, Error, Page, PageType, PhysicalAddress, PAGE_WRITEABLE};

fn writeable_page(base: u64) -> PhysicalAddress {
    PhysicalAddress {
        address: Address(base),
        page: Some(Page {
            page_type: PageType(PAGE_WRITEABLE),
            page_size: 4096,
            page_base: Address(base & !0xfff),
        }),
    }
}

fn patterned_memory(size: usize) -> Vec<u8> {
    let mut buf = vec![0u8; size];
    for (i, b) in buf.iter_mut().enumerate() {
        *b = (i % 251) as u8;
    }
    buf
}

#[test]
fn cache_hit_uses_one_page_read() {
    // A cache with 4 slots of 4096 bytes and a writeable-only mask: two
    // small reads of the same page cost the connector exactly one
    // 4096-byte read.
    let bytes = patterned_memory(0x8000);
    let mut mem = BufferMemory::with_bytes(bytes.clone());
    let mut cache = PageCache::new(
        Architecture::X64,
        4 * 4096,
        PageType(PAGE_WRITEABLE),
        DefaultCacheValidator::new(),
    );

    let mut out = vec![0u8; 8];
    cache
        .cached_read_single(&mut mem, writeable_page(0x2000), &mut out)
        .unwrap();
    assert_eq!(&out[..], &bytes[0x2000..0x2008]);

    let mut out2 = vec![0u8; 8];
    cache
        .cached_read_single(&mut mem, writeable_page(0x2010), &mut out2)
        .unwrap();
    assert_eq!(&out2[..], &bytes[0x2010..0x2018]);

    assert_eq!(mem.read_requests(), 1);
    assert_eq!(mem.read_bytes(), 4096);
}

#[test]
fn collision_bypass() {
    // Two slots, page size 4096: after a first request reserves slot 0
    // for page 0x0000, a second request for page 0x2000 (same slot,
    // different page) gets neither flag and must bypass the cache.
    let mut cache = PageCache::new(
        Architecture::X64,
        2 * 4096,
        PageType(PAGE_WRITEABLE),
        DefaultCacheValidator::new(),
    );

    let first = cache.cached_page_mut(Address(0x0000));
    assert!(!first.is_valid());
    assert!(first.should_validate());

    let second = cache.cached_page_mut(Address(0x2000));
    assert!(!second.is_valid());
    assert!(!second.should_validate());
}

#[test]
fn two_phase_validation() {
    let mut cache = PageCache::new(
        Architecture::X64,
        4 * 4096,
        PageType(PAGE_WRITEABLE),
        DefaultCacheValidator::new(),
    );

    // A fresh slot is not valid; its buffer reads as zeros.
    let e = cache.cached_page_mut(Address(0x3000));
    assert!(!e.is_valid());
    assert!(e.should_validate());
    assert_eq!(e.address().as_u64(), 0x3000);
    assert!(e.buf.iter().all(|b| *b == 0));

    // A second request for the same page joins the in-flight fill.
    let again = cache.cached_page_mut(Address(0x3008));
    assert!(!again.is_valid());
    assert!(again.should_validate());

    // After validation the slot answers as a hit.
    cache.validate_page(Address(0x3000), PageType(PAGE_WRITEABLE));
    let hit = cache.cached_page_mut(Address(0x3000));
    assert!(hit.is_valid());
    assert!(!hit.should_validate());
}

#[test]
fn validate_and_invalidate_are_idempotent() {
    let mut cache = PageCache::new(
        Architecture::X64,
        4 * 4096,
        PageType(PAGE_WRITEABLE),
        DefaultCacheValidator::new(),
    );

    cache.validate_page(Address(0x5000), PageType(PAGE_WRITEABLE));
    cache.validate_page(Address(0x5000), PageType(PAGE_WRITEABLE));
    let hit = cache.cached_page_mut(Address(0x5000));
    assert!(hit.is_valid());

    cache.invalidate_page(Address(0x5000), PageType(PAGE_WRITEABLE));
    cache.invalidate_page(Address(0x5000), PageType(PAGE_WRITEABLE));
    let miss = cache.cached_page_mut(Address(0x5000));
    assert!(!miss.is_valid());
}

#[test]
fn mask_gates_validation() {
    let mut cache = PageCache::new(
        Architecture::X64,
        4 * 4096,
        PageType(PAGE_WRITEABLE),
        DefaultCacheValidator::new(),
    );
    assert!(cache.is_cached_page_type(PageType(PAGE_WRITEABLE)));
    assert!(!cache.is_cached_page_type(PageType(4)));

    // Validating with a page type outside the mask changes nothing.
    cache.validate_page(Address(0x1000), PageType(4));
    let miss = cache.cached_page_mut(Address(0x1000));
    assert!(!miss.is_valid());
}

#[test]
fn write_then_read_round_trip() {
    // A physical write followed by a read of the same range returns a
    // prefix of the written bytes, through the cache.
    let mut mem = BufferMemory::new(0x8000);
    let mut cache = PageCache::new(
        Architecture::X64,
        4 * 4096,
        PageType(PAGE_WRITEABLE),
        DefaultCacheValidator::new(),
    );

    let data = vec![0xAAu8; 32];
    cache
        .cached_write(&mut mem, writeable_page(0x4000), &data)
        .unwrap();

    let mut out = vec![0u8; 16];
    cache
        .cached_read_single(&mut mem, writeable_page(0x4000), &mut out)
        .unwrap();
    assert_eq!(&out[..], &data[..16]);
}

#[test]
fn cached_read_batch() {
    let bytes = patterned_memory(0x8000);
    let mut mem = BufferMemory::with_bytes(bytes.clone());
    let mut cache = PageCache::new(
        Architecture::X64,
        4 * 4096,
        PageType(PAGE_WRITEABLE),
        DefaultCacheValidator::new(),
    );

    let items = vec![
        PhysicalReadType::ToDo(PhysicalReadData {
            addr: writeable_page(0x1000),
            buf: vec![0u8; 8],
        }),
        // No page information: forwarded untouched.
        PhysicalReadType::ToDo(PhysicalReadData {
            addr: PhysicalAddress::with_address(Address(0x2000)),
            buf: vec![0u8; 8],
        }),
    ];
    let out = cache.cached_read(&mut mem, items);
    assert_eq!(out.len(), 2);
    match &out[0] {
        PhysicalReadType::Done(Ok(d)) => {
            assert_eq!(d.addr.address.0, 0x1000);
            assert_eq!(&d.buf[..], &bytes[0x1000..0x1008]);
        }
        _ => panic!("first item should be satisfied"),
    }
    match &out[1] {
        PhysicalReadType::ToDo(d) => assert_eq!(d.addr.address.0, 0x2000),
        _ => panic!("second item should be forwarded"),
    }
}

#[test]
fn chunk_splitter_exact_ranges() {
    // A 10000-byte span starting at 4090 with 4096-byte pages splits
    // into lengths 6, 4096, 4096 and 1802 at 4090, 4096, 8192, 12288:
    // a first short piece up to the page boundary, two whole pages, and
    // the 1802 bytes that remain of the 10000.
    let chunks = chunk_ranges(4090, 10000, 4096);
    let lens: Vec<usize> = chunks.iter().map(|c| c.len).collect();
    let addrs: Vec<u64> = chunks.iter().map(|c| c.addr).collect();
    assert_eq!(lens.iter().sum::<usize>(), 10000);
    assert_eq!(lens, vec![6, 4096, 4096, 1802]);
    assert_eq!(addrs, vec![4090, 4096, 8192, 12288]);
}

#[test]
fn split_to_chunks_concatenates() {
    let buf: Vec<u8> = (0..10000u32).map(|i| (i % 256) as u8).collect();
    let item = PhysicalReadType::ToDo(PhysicalReadData {
        addr: writeable_page(4090),
        buf: buf.clone(),
    });
    let parts = PageCache::<DefaultCacheValidator>::split_to_chunks(item, 4096);
    assert_eq!(parts.len(), 4);
    let mut joined: Vec<u8> = Vec::new();
    let mut prev_addr: Option<u64> = None;
    for p in &parts {
        match p {
            PhysicalReadType::ToDo(d) => {
                if let Some(a) = prev_addr {
                    assert!(d.addr.address.0 > a);
                }
                prev_addr = Some(d.addr.address.0);
                joined.extend_from_slice(&d.buf);
            }
            _ => panic!("split items are work to do"),
        }
    }
    assert_eq!(joined, buf);
}

#[test]
fn cache_entry_accessors() {
    let e = CacheEntry::with(true, false, Address(0x7000), vec![1, 2, 3]);
    assert!(e.is_valid());
    assert!(!e.should_validate());
    assert_eq!(e.address().as_u64(), 0x7000);
    assert_eq!(e.buf, vec![1, 2, 3]);
}

#[test]
fn out_of_bounds_read_fails() {
    let mut mem = BufferMemory::new(0x1000);
    let mut out = vec![0u8; 8];
    let r = memflow::phys_mem::phys_read_into(
        &mut mem,
        PhysicalAddress::with_address(Address(0x10000)),
        &mut out,
    );
    assert_eq!(r, Err(Error::OutOfBounds));
}

#[test]
fn generation_validator_flushes_at_once() {
    let mut v = TlbCacheValidator::new();
    v.allocate_slots(4);
    assert!(!v.is_slot_valid(0));
    v.validate_slot(0);
    v.validate_slot(2);
    assert!(v.is_slot_valid(0));
    assert!(!v.is_slot_valid(1));
    assert!(v.is_slot_valid(2));
    v.invalidate_slot(2);
    assert!(!v.is_slot_valid(2));

    // One generation bump drops every slot at once.
    v.validate_slot(1);
    v.bump_generation();
    for i in 0..4 {
        assert!(!v.is_slot_valid(i));
    }

    // The cache works with the generation policy too.
    let mut mem = BufferMemory::with_bytes(patterned_memory(0x8000));
    let mut cache = PageCache::new(
        Architecture::X64,
        4 * 4096,
        PageType(PAGE_WRITEABLE),
        TlbCacheValidator::new(),
    );
    let mut out = vec![0u8; 8];
    cache
        .cached_read_single(&mut mem, writeable_page(0x1000), &mut out)
        .unwrap();
    assert_eq!(&out[..], &patterned_memory(0x8000)[0x1000..0x1008]);
}

#[test]
fn passthrough_batch_leaves_connector_alone() {
    // Finished items, items without page information and items of an
    // uncacheable page type all pass the batch read by without a
    // single connector request.
    let mut mem = BufferMemory::with_bytes(patterned_memory(0x4000));
    let mut cache = PageCache::new(
        Architecture::X64,
        4 * 4096,
        PageType(PAGE_WRITEABLE),
        DefaultCacheValidator::new(),
    );
    let uncacheable = PhysicalAddress {
        address: Address(0x1000),
        page: Some(Page {
            page_type: PageType(4),
            page_size: 4096,
            page_base: Address(0x1000),
        }),
    };
    let items = vec![
        PhysicalReadType::Done(Err(Error::PageNotPresent)),
        PhysicalReadType::ToDo(PhysicalReadData {
            addr: PhysicalAddress::with_address(Address(0x2000)),
            buf: vec![0u8; 8],
        }),
        PhysicalReadType::ToDo(PhysicalReadData {
            addr: uncacheable,
            buf: vec![0u8; 8],
        }),
    ];
    let out = cache.cached_read(&mut mem, items);
    assert_eq!(out.len(), 3);
    assert!(matches!(out[0], PhysicalReadType::Done(Err(Error::PageNotPresent))));
    assert!(matches!(out[1], PhysicalReadType::ToDo(_)));
    assert!(matches!(out[2], PhysicalReadType::ToDo(_)));
    assert_eq!(mem.read_requests(), 0);
}
