use memflow::offsets::{
    PdbField, PdbStruct, PdbSymbols, SymbolStore, Win32GUID, Win32OffsetBuilder, Win32Offsets,
    Win32OffsetsData, Win32OffsetsFile, Win32Version,
};
use memflow::types::Error;

fn field(name: &str, offset: usize) -> PdbField {
    PdbField {
        name: name.to_string(),
        offset,
    }
}

fn pdb_struct(name: &str, fields: Vec<PdbField>) -> PdbStruct {
    PdbStruct {
        name: name.to_string(),
        fields,
    }
}

/// The parsed kernel symbol database the store hands out for the
/// well-known kernel symbol file.
fn kernel_symbols() -> PdbSymbols {
    let mut db = PdbSymbols::new();
    db.push_struct(pdb_struct("_LIST_ENTRY", vec![field("Flink", 0), field("Blink", 8)]));
    db.push_struct(pdb_struct("_KPROCESS", vec![field("DirectoryTableBase", 40)]));
    db.push_struct(pdb_struct(
        "_EPROCESS",
        vec![
            field("UniqueProcessId", 384),
            field("ActiveProcessLinks", 392),
            field("ImageFileName", 736),
            field("ThreadListHead", 776),
            field("WoW64Process", 800),
            field("Peb", 824),
        ],
    ));
    db.push_struct(pdb_struct("_KTHREAD", vec![field("Teb", 184)]));
    db.push_struct(pdb_struct("_ETHREAD", vec![field("ThreadListEntry", 1056)]));
    db.push_struct(pdb_struct("_TEB", vec![field("ProcessEnvironmentBlock", 96)]));
    db.push_struct(pdb_struct("_TEB32", vec![field("ProcessEnvironmentBlock", 48)]));
    db
}

#[test]
fn download_pdb() {
    let guid = Win32GUID {
        file_name: "ntkrnlmp.pdb".to_string(),
        guid: "3844DBB920174967BE7AA4A2C20430FA2".to_string(),
    };
    let mut store = SymbolStore::new();
    store.add(
        Win32GUID {
            file_name: "ntkrnlmp.pdb".to_string(),
            guid: "3844DBB920174967BE7AA4A2C20430FA2".to_string(),
        },
        kernel_symbols(),
    );
    let offsets = Win32Offsets::builder()
        .symbol_store(store)
        .guid(guid)
        .build()
        .unwrap();

    assert_eq!(offsets.0.list_blink, 8);
    assert_eq!(offsets.0.eproc_link, 392);

    assert_eq!(offsets.0.kproc_dtb, 40);

    assert_eq!(offsets.0.eproc_pid, 384);
    assert_eq!(offsets.0.eproc_name, 736);
    assert_eq!(offsets.0.eproc_peb, 824);
    assert_eq!(offsets.0.eproc_thread_list, 776);
    assert_eq!(offsets.0.eproc_wow64, 800);

    assert_eq!(offsets.0.kthread_teb, 184);
    assert_eq!(offsets.0.ethread_list_entry, 1056);
    assert_eq!(offsets.0.teb_peb, 96);
    assert_eq!(offsets.0.teb_peb_x86, 48);
}

#[test]
fn missing_struct_is_a_symbol_error() {
    let mut db = PdbSymbols::new();
    db.push_struct(pdb_struct("_LIST_ENTRY", vec![field("Blink", 8)]));
    assert_eq!(Win32Offsets::from_pdb_slice(&db).err(), Some(Error::Pdb));
}

#[test]
fn wow64_fallback_spelling() {
    // An older kernel spells the field with a lower case w; a kernel
    // without the field gets zero.
    let mut db = kernel_symbols();
    let r = Win32Offsets::from_pdb_slice(&db).unwrap();
    assert_eq!(r.0.eproc_wow64, 800);

    db = PdbSymbols::new();
    db.push_struct(pdb_struct("_LIST_ENTRY", vec![field("Blink", 8)]));
    db.push_struct(pdb_struct("_KPROCESS", vec![field("DirectoryTableBase", 40)]));
    db.push_struct(pdb_struct(
        "_EPROCESS",
        vec![
            field("UniqueProcessId", 384),
            field("ActiveProcessLinks", 392),
            field("ImageFileName", 736),
            field("ThreadListHead", 776),
            field("Wow64Process", 700),
            field("Peb", 824),
        ],
    ));
    db.push_struct(pdb_struct("_KTHREAD", vec![field("Teb", 184)]));
    db.push_struct(pdb_struct("_ETHREAD", vec![field("ThreadListEntry", 1056)]));
    db.push_struct(pdb_struct("_TEB", vec![field("ProcessEnvironmentBlock", 96)]));
    let r = Win32Offsets::from_pdb_slice(&db).unwrap();
    assert_eq!(r.0.eproc_wow64, 700);
    // Without a 32-bit thread block the 32-bit offset is zero.
    assert_eq!(r.0.teb_peb_x86, 0);
}

fn record(name: &str, guid: &str, major: u32, minor: u32, build: u32, blink: usize) -> Win32OffsetsFile {
    Win32OffsetsFile {
        pdb_file_name: name.to_string(),
        pdb_guid: guid.to_string(),
        nt_major_version: major,
        nt_minor_version: minor,
        nt_build_number: build,
        offsets: Win32OffsetsData {
            list_blink: blink,
            eproc_link: 0,
            kproc_dtb: 0,
            eproc_pid: 0,
            eproc_name: 0,
            eproc_peb: 0,
            eproc_thread_list: 0,
            eproc_wow64: 0,
            kthread_teb: 0,
            ethread_list_entry: 0,
            teb_peb: 0,
            teb_peb_x86: 0,
        },
    }
}

#[test]
fn offset_list_exact_guid_match() {
    let list = vec![
        record("a.pdb", "AAAA", 10, 0, 19041, 1),
        record("b.pdb", "BBBB", 10, 0, 18363, 2),
    ];
    let offs = Win32OffsetBuilder::new()
        .offset_list(list)
        .guid(Win32GUID {
            file_name: "b.pdb".to_string(),
            guid: "BBBB".to_string(),
        })
        .build()
        .unwrap();
    assert_eq!(offs.0.list_blink, 2);
}

#[test]
fn offset_list_closest_build() {
    // The newest record of the version's line that is not newer than
    // the kernel's build wins.
    let list = vec![
        record("a.pdb", "AAAA", 10, 0, 17763, 1),
        record("b.pdb", "BBBB", 10, 0, 18362, 2),
        record("c.pdb", "CCCC", 10, 0, 19041, 3),
        record("d.pdb", "DDDD", 6, 1, 7601, 4),
    ];
    let offs = Win32OffsetBuilder::new()
        .offset_list(list)
        .winver(Win32Version {
            nt_major_version: 10,
            nt_minor_version: 0,
            nt_build_number: 18500,
        })
        .build()
        .unwrap();
    assert_eq!(offs.0.list_blink, 2);
}

#[test]
fn builder_needs_guid_or_winver() {
    let r = Win32OffsetBuilder::new().build();
    assert_eq!(r.err(), Some(Error::NotFound));
}

#[test]
fn store_miss_is_not_found() {
    let store = SymbolStore::new();
    let g = Win32GUID {
        file_name: "x.pdb".to_string(),
        guid: "XXXX".to_string(),
    };
    assert_eq!(store.load(&g).err(), Some(Error::NotFound));
    let r = Win32Offsets::builder()
        .symbol_store(SymbolStore::new())
        .no_symbol_store()
        .guid(g)
        .build();
    assert_eq!(r.err(), Some(Error::NotFound));
}

#[test]
fn builder_takes_kernel_info() {
    let wv = Win32Version {
        nt_major_version: 10,
        nt_minor_version: 0,
        nt_build_number: 19041,
    };
    let b = Win32OffsetBuilder::new().kernel_info(memflow::offsets::KernelInfo {
        kernel_guid: None,
        kernel_winver: Some(wv),
    });
    assert_eq!(b.winver, Some(wv));
    assert_eq!(wv.major_version(), 10);
    assert_eq!(wv.minor_version(), 0);
    assert_eq!(wv.build_number(), 19041);
}

#[test]
fn offsets_record_decode() {
    // Twelve little-endian 32-bit fields decode in order; a short
    // buffer decodes to nothing.
    let mut bytes: Vec<u8> = Vec::new();
    for v in [8u32, 392, 40, 384, 736, 824, 776, 800, 184, 1056, 96, 48] {
        bytes.extend_from_slice(&v.to_le_bytes());
    }
    let d = Win32OffsetsData::decode(&bytes, 0).unwrap();
    assert_eq!(d.list_blink, 8);
    assert_eq!(d.eproc_link, 392);
    assert_eq!(d.kproc_dtb, 40);
    assert_eq!(d.eproc_pid, 384);
    assert_eq!(d.eproc_name, 736);
    assert_eq!(d.eproc_peb, 824);
    assert_eq!(d.eproc_thread_list, 776);
    assert_eq!(d.eproc_wow64, 800);
    assert_eq!(d.kthread_teb, 184);
    assert_eq!(d.ethread_list_entry, 1056);
    assert_eq!(d.teb_peb, 96);
    assert_eq!(d.teb_peb_x86, 48);
    assert!(Win32OffsetsData::decode(&bytes, 4).is_none());
}
