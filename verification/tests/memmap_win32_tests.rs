use memflow::architecture::Architecture;
use memflow::mem_map::MemoryMap;
use memflow::offsets::Win32OffsetsData;
use memflow::phys_mem::{BufferMemory, PhysicalMemory};
use memflow::types::{Address, Error, INVALID_ADDRESS, PAGE_WRITEABLE};
use memflow::win32::{StartBlock, Windows};

#[test]
fn memory_map_lookup() {
    let mut map = MemoryMap::new();
    map.push(0x1000, 0x1000, 0x0).unwrap();
    map.push(0x4000, 0x2000, 0x1000).unwrap();

    assert_eq!(map.map_address(0x0fff), None);
    assert_eq!(map.map_address(0x1000), Some(0x0));
    assert_eq!(map.map_address(0x1fff), Some(0xfff));
    assert_eq!(map.map_address(0x2000), None);
    assert_eq!(map.map_address(0x4000), Some(0x1000));
    assert_eq!(map.map_address(0x5fff), Some(0x2fff));
    assert_eq!(map.max_address(), 0x6000);
}

#[test]
fn memory_map_merges_contiguous_ranges() {
    let mut map = MemoryMap::new();
    map.push(0x1000, 0x1000, 0x0).unwrap();
    // Continues the previous range on both sides: coalesced.
    map.push(0x2000, 0x1000, 0x1000).unwrap();
    assert_eq!(map.map_address(0x2800), Some(0x1800));
    assert_eq!(map.max_address(), 0x3000);
}

#[test]
fn memory_map_rejects_bad_ranges() {
    let mut map = MemoryMap::new();
    assert_eq!(map.push(0x1000, 0, 0), Err(Error::OutOfBounds));
    map.push(0x4000, 0x1000, 0).unwrap();
    // Overlapping or out-of-order ranges are refused.
    assert_eq!(map.push(0x4800, 0x1000, 0x5000), Err(Error::OutOfBounds));
    assert_eq!(map.push(0x0, 0x1000, 0x5000), Err(Error::OutOfBounds));
}

#[test]
fn memory_map_span() {
    let mut map = MemoryMap::new();
    map.push(0x1000, 0x2000, 0x8000).unwrap();
    assert_eq!(map.map_span(0x1800, 0x100), Some(0x8800));
    // A span straddling the end of the range does not map as a whole.
    assert_eq!(map.map_span(0x2f00, 0x200), None);
}

fn put_u64(buf: &mut Vec<u8>, at: usize, v: u64) {
    let b = v.to_le_bytes();
    buf[at..at + 8].copy_from_slice(&b);
}

#[test]
fn process_list_walk() {
    // Identity-map the first 2 MiB, then lay out two process
    // structures whose forward links point at each other; the walk
    // visits both and stops when it comes back to the first.
    let mut buf = vec![0u8; 0x20_0000];
    put_u64(&mut buf, 0x1000, 0x2000 | 0x3);
    put_u64(&mut buf, 0x2000, 0x3000 | 0x3);
    put_u64(&mut buf, 0x3000, 0x83);

    let eproc_link = 392usize;
    let e1 = 0x10_0000u64;
    let e2 = 0x11_0000u64;
    // Each link field holds the address of the next link field.
    put_u64(&mut buf, (e1 + eproc_link as u64) as usize, e2 + eproc_link as u64);
    put_u64(&mut buf, (e2 + eproc_link as u64) as usize, e1 + eproc_link as u64);

    let offsets = Win32OffsetsData {
        list_blink: 8,
        eproc_link,
        kproc_dtb: 40,
        eproc_pid: 384,
        eproc_name: 736,
        eproc_peb: 824,
        eproc_thread_list: 776,
        eproc_wow64: 800,
        kthread_teb: 184,
        ethread_list_entry: 1056,
        teb_peb: 96,
        teb_peb_x86: 48,
    };
    let mut win = Windows {
        mem: BufferMemory::with_bytes(buf),
        start_block: StartBlock {
            arch: Architecture::X64,
            va: Address(0),
            dtb: Address(0x1000),
        },
        kernel_base: Address(0x10_0000),
        eprocess_base: Address(e1),
        offsets,
    };
    let procs = win.process_iter();
    assert_eq!(procs.len(), 2);
    assert_eq!(procs[0].0, e1);
    assert_eq!(procs[1].0, e2);
}

#[test]
fn address_and_page_type_basics() {
    assert_eq!(Address::invalid().as_u64(), INVALID_ADDRESS);
    assert_eq!(Address::null().as_u64(), 0);
    assert_eq!(Address(0x12345).as_page_aligned(4096).as_u64(), 0x12000);

    let mask = memflow::types::PageType(PAGE_WRITEABLE | 1);
    assert!(mask.contains(memflow::types::PageType(PAGE_WRITEABLE)));
    assert!(!mask.contains(memflow::types::PageType(4)));
    assert_eq!(
        memflow::types::PageType::read_only()
            .union(memflow::types::PageType::writeable())
            .0,
        3
    );
    assert_eq!(memflow::types::PageType::page_table().0, 8);
    assert_eq!(memflow::types::PageType::none().0, 0);
}

#[test]
fn buffer_memory_metadata() {
    let mem = BufferMemory::new(0x4000);
    let md = mem.metadata();
    assert_eq!(md.size, 0x4000);
    assert!(!md.readonly);
}
