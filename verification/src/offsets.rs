//! Kernel struct offsets: the flat offset record the OS front-end works
//! with, the lookups that build it from parsed debug symbols, and the
//! builder that picks the right record for a kernel by debug-symbol
//! identity or by version.

use vstd::prelude::*;
use crate::types::Error;

verus! {

/// Identity of a kernel's debug-symbol file: its name and its unique id.
#[derive(Clone, Debug)]
pub struct Win32GUID {
    /// Name of the symbol file.
    pub file_name: String,
    /// The unique id string of the symbol file.
    pub guid: String,
}

/// A kernel version triple.
#[derive(Clone, Copy, Debug, PartialEq, Eq, Structural)]
pub struct Win32Version {
    /// Major version.
    pub nt_major_version: u32,
    /// Minor version.
    pub nt_minor_version: u32,
    /// Build number.
    pub nt_build_number: u32,
}

impl Win32Version {
    /// The major version.
    pub fn major_version(&self) -> (r: u32)
        ensures
            r == self.nt_major_version,
    {
        self.nt_major_version
    }

    /// The minor version.
    pub fn minor_version(&self) -> (r: u32)
        ensures
            r == self.nt_minor_version,
    {
        self.nt_minor_version
    }

    /// The build number.
    pub fn build_number(&self) -> (r: u32)
        ensures
            r == self.nt_build_number,
    {
        self.nt_build_number
    }
}

/// What a kernel scan found: the kernel's symbol identity and version,
/// where known.
#[derive(Clone, Debug)]
pub struct KernelInfo {
    /// The kernel's debug-symbol identity.
    pub kernel_guid: Option<Win32GUID>,
    /// The kernel's version.
    pub kernel_winver: Option<Win32Version>,
}

/// One field of a parsed debug-symbol struct: its name and byte offset.
#[derive(Clone, Debug)]
pub struct PdbField {
    /// Field name.
    pub name: String,
    /// Byte offset of the field inside its struct.
    pub offset: usize,
}

/// One struct of a parsed debug-symbol database.
#[derive(Clone, Debug)]
pub struct PdbStruct {
    /// Struct name.
    pub name: String,
    /// The struct's fields.
    pub fields: Vec<PdbField>,
}

/// The byte offset of the first field called `name`, if any.
pub open spec fn spec_find_field(fields: Seq<PdbField>, name: Seq<char>) -> Option<usize>
    decreases fields.len(),
{
    if fields.len() == 0 {
        None
    } else if fields[0].name@ == name {
        Some(fields[0].offset)
    } else {
        spec_find_field(fields.skip(1), name)
    }
}

impl PdbStruct {
    /// The byte offset of the first field called `name`, if any.
    pub fn find_field(&self, name: &String) -> (r: Option<usize>)
        ensures
            r == spec_find_field(self.fields@, name@),
    {
        let n = self.fields.len();
        proof {
            assert(self.fields@.skip(0) =~= self.fields@);
        }
        let mut i: usize = 0;
        while i < n
            invariant
                n == self.fields@.len(),
                i <= n,
                spec_find_field(self.fields@, name@) == spec_find_field(
                    self.fields@.skip(i as int),
                    name@,
                ),
            decreases n - i,
        {
            proof {
                assert(self.fields@.skip(i as int)[0] == self.fields@[i as int]);
                assert(self.fields@.skip(i as int).skip(1) =~= self.fields@.skip(i + 1));
            }
            if self.fields[i].name == *name {
                return Some(self.fields[i].offset);
            }
            i = i + 1;
        }
        proof {
            assert(self.fields@.skip(n as int) =~= Seq::<PdbField>::empty());
        }
        None
    }
}

/// A parsed debug-symbol database: the structs of one symbol file.
///
/// Parsing the symbol file itself is an external collaborator's work;
/// this crate takes the parsed structs and fields as plain values.
#[derive(Clone, Debug)]
pub struct PdbSymbols {
    /// The parsed structs.
    pub structs: Vec<PdbStruct>,
}

/// The first struct called `name`, if any.
pub open spec fn spec_find_struct(db: Seq<PdbStruct>, name: Seq<char>) -> Option<PdbStruct>
    decreases db.len(),
{
    if db.len() == 0 {
        None
    } else if db[0].name@ == name {
        Some(db[0])
    } else {
        spec_find_struct(db.skip(1), name)
    }
}

/// The offset of field `fname` of the first struct called `sname`.
pub open spec fn spec_field(db: Seq<PdbStruct>, sname: Seq<char>, fname: Seq<char>) -> Option<
    usize,
> {
    match spec_find_struct(db, sname) {
        Some(s) => spec_find_field(s.fields@, fname),
        None => None,
    }
}

impl PdbSymbols {
    /// An empty database.
    pub fn new() -> (r: PdbSymbols)
        ensures
            r.structs@.len() == 0,
    {
        PdbSymbols { structs: Vec::new() }
    }

    /// Adds a parsed struct at the end.
    pub fn push_struct(&mut self, s: PdbStruct)
        ensures
            final(self).structs@ == old(self).structs@.push(s),
    {
        self.structs.push(s);
    }

    /// A reference to the first struct called `name`, if any.
    pub fn with(&self, name: &String) -> (r: Option<&PdbStruct>)
        ensures
            match r {
                Some(s) => spec_find_struct(self.structs@, name@) == Some(*s),
                None => spec_find_struct(self.structs@, name@) is None,
            },
    {
        let n = self.structs.len();
        proof {
            assert(self.structs@.skip(0) =~= self.structs@);
        }
        let mut i: usize = 0;
        while i < n
            invariant
                n == self.structs@.len(),
                i <= n,
                spec_find_struct(self.structs@, name@) == spec_find_struct(
                    self.structs@.skip(i as int),
                    name@,
                ),
            decreases n - i,
        {
            proof {
                assert(self.structs@.skip(i as int)[0] == self.structs@[i as int]);
                assert(self.structs@.skip(i as int).skip(1) =~= self.structs@.skip(i + 1));
            }
            if self.structs[i].name == *name {
                return Some(&self.structs[i]);
            }
            i = i + 1;
        }
        proof {
            assert(self.structs@.skip(n as int) =~= Seq::<PdbStruct>::empty());
        }
        None
    }
}

/// The flat offset record: byte offsets of the kernel structures the
/// front-end walks.
#[derive(Clone, Copy, Debug, PartialEq, Eq, Structural)]
pub struct Win32OffsetsData {
    /// Offset of the backward link in a doubly linked list entry.
    pub list_blink: usize,
    /// Offset of the process links inside the process structure.
    pub eproc_link: usize,
    /// Offset of the directory table base inside the kernel process.
    pub kproc_dtb: usize,
    /// Offset of the process id.
    pub eproc_pid: usize,
    /// Offset of the image file name.
    pub eproc_name: usize,
    /// Offset of the process environment block pointer.
    pub eproc_peb: usize,
    /// Offset of the thread list head.
    pub eproc_thread_list: usize,
    /// Offset of the 32-bit-on-64-bit process pointer; zero when the
    /// kernel has none.
    pub eproc_wow64: usize,
    /// Offset of the thread environment block pointer.
    pub kthread_teb: usize,
    /// Offset of the thread list entry.
    pub ethread_list_entry: usize,
    /// Offset of the environment block inside the thread block.
    pub teb_peb: usize,
    /// The same offset for 32-bit thread blocks; zero when absent.
    pub teb_peb_x86: usize,
}

/// One persisted offset record: the symbol identity and version it
/// applies to, and the offsets themselves.
#[derive(Clone, Debug)]
pub struct Win32OffsetsFile {
    /// Name of the symbol file the record was built from.
    pub pdb_file_name: String,
    /// Unique id of the symbol file.
    pub pdb_guid: String,
    /// Major version the record applies to.
    pub nt_major_version: u32,
    /// Minor version the record applies to.
    pub nt_minor_version: u32,
    /// Build number the record was built from.
    pub nt_build_number: u32,
    /// The offsets.
    pub offsets: Win32OffsetsData,
}

/// The offset record, wrapped as the front-end hands it around.
#[derive(Clone, Copy, Debug, PartialEq, Eq, Structural)]
pub struct Win32Offsets(pub Win32OffsetsData);

/// What `from_pdb_slice` computes from a parsed symbol database, when
/// every required struct and field is present; `None` means the
/// database is missing one of them.
pub open spec fn spec_offsets_of_pdb(db: Seq<PdbStruct>) -> Option<Win32OffsetsData> {
    if {
        &&& spec_field(db, "_LIST_ENTRY"@, "Blink"@) is Some
        &&& spec_field(db, "_KPROCESS"@, "DirectoryTableBase"@) is Some
        &&& spec_field(db, "_EPROCESS"@, "ActiveProcessLinks"@) is Some
        &&& spec_field(db, "_EPROCESS"@, "UniqueProcessId"@) is Some
        &&& spec_field(db, "_EPROCESS"@, "ImageFileName"@) is Some
        &&& spec_field(db, "_EPROCESS"@, "Peb"@) is Some
        &&& spec_field(db, "_EPROCESS"@, "ThreadListHead"@) is Some
        &&& spec_field(db, "_KTHREAD"@, "Teb"@) is Some
        &&& spec_field(db, "_ETHREAD"@, "ThreadListEntry"@) is Some
        &&& spec_field(db, "_TEB"@, "ProcessEnvironmentBlock"@) is Some
        &&& spec_find_struct(db, "_LIST_ENTRY"@) is Some
        &&& spec_find_struct(db, "_KPROCESS"@) is Some
        &&& spec_find_struct(db, "_EPROCESS"@) is Some
        &&& spec_find_struct(db, "_ETHREAD"@) is Some
        &&& spec_find_struct(db, "_KTHREAD"@) is Some
        &&& spec_find_struct(db, "_TEB"@) is Some
        &&& (spec_find_struct(db, "_TEB32"@) is Some ==> spec_field(
            db,
            "_TEB32"@,
            "ProcessEnvironmentBlock"@,
        ) is Some)
    } {
        Some(
            Win32OffsetsData {
                list_blink: spec_field(db, "_LIST_ENTRY"@, "Blink"@)->Some_0,
                eproc_link: spec_field(db, "_EPROCESS"@, "ActiveProcessLinks"@)->Some_0,
                kproc_dtb: spec_field(db, "_KPROCESS"@, "DirectoryTableBase"@)->Some_0,
                eproc_pid: spec_field(db, "_EPROCESS"@, "UniqueProcessId"@)->Some_0,
                eproc_name: spec_field(db, "_EPROCESS"@, "ImageFileName"@)->Some_0,
                eproc_peb: spec_field(db, "_EPROCESS"@, "Peb"@)->Some_0,
                eproc_thread_list: spec_field(db, "_EPROCESS"@, "ThreadListHead"@)->Some_0,
                eproc_wow64: match spec_field(db, "_EPROCESS"@, "WoW64Process"@) {
                    Some(o) => o,
                    None => match spec_field(db, "_EPROCESS"@, "Wow64Process"@) {
                        Some(o) => o,
                        None => 0,
                    },
                },
                kthread_teb: spec_field(db, "_KTHREAD"@, "Teb"@)->Some_0,
                ethread_list_entry: spec_field(db, "_ETHREAD"@, "ThreadListEntry"@)->Some_0,
                teb_peb: spec_field(db, "_TEB"@, "ProcessEnvironmentBlock"@)->Some_0,
                teb_peb_x86: if spec_find_struct(db, "_TEB32"@) is Some {
                    spec_field(db, "_TEB32"@, "ProcessEnvironmentBlock"@)->Some_0
                } else {
                    0
                },
            },
        )
    } else {
        None
    }
}

impl Win32Offsets {
    /// Pulls the offset record out of a parsed symbol database, exactly
    /// as `spec_offsets_of_pdb` defines it: the lookup fails — with the
    /// symbol error — precisely when a required struct or field is
    /// missing.
    pub fn from_pdb_slice(pdb: &PdbSymbols) -> (r: Result<Win32Offsets, Error>)
        ensures
            match r {
                Ok(offs) => spec_offsets_of_pdb(pdb.structs@) == Some(offs.0),
                Err(e) => spec_offsets_of_pdb(pdb.structs@) is None && e == Error::Pdb,
            },
    {
        let list = match pdb.with(&("_LIST_ENTRY".to_owned())) {
            Some(s) => s,
            None => {
                return Err(Error::Pdb);
            },
        };
        let kproc = match pdb.with(&("_KPROCESS".to_owned())) {
            Some(s) => s,
            None => {
                return Err(Error::Pdb);
            },
        };
        let eproc = match pdb.with(&("_EPROCESS".to_owned())) {
            Some(s) => s,
            None => {
                return Err(Error::Pdb);
            },
        };
        let ethread = match pdb.with(&("_ETHREAD".to_owned())) {
            Some(s) => s,
            None => {
                return Err(Error::Pdb);
            },
        };
        let kthread = match pdb.with(&("_KTHREAD".to_owned())) {
            Some(s) => s,
            None => {
                return Err(Error::Pdb);
            },
        };
        let teb = match pdb.with(&("_TEB".to_owned())) {
            Some(s) => s,
            None => {
                return Err(Error::Pdb);
            },
        };
        let list_blink = match list.find_field(&("Blink".to_owned())) {
            Some(o) => o,
            None => {
                return Err(Error::Pdb);
            },
        };
        let eproc_link = match eproc.find_field(&("ActiveProcessLinks".to_owned())) {
            Some(o) => o,
            None => {
                return Err(Error::Pdb);
            },
        };
        let kproc_dtb = match kproc.find_field(&("DirectoryTableBase".to_owned())) {
            Some(o) => o,
            None => {
                return Err(Error::Pdb);
            },
        };
        let eproc_pid = match eproc.find_field(&("UniqueProcessId".to_owned())) {
            Some(o) => o,
            None => {
                return Err(Error::Pdb);
            },
        };
        let eproc_name = match eproc.find_field(&("ImageFileName".to_owned())) {
            Some(o) => o,
            None => {
                return Err(Error::Pdb);
            },
        };
        let eproc_peb = match eproc.find_field(&("Peb".to_owned())) {
            Some(o) => o,
            None => {
                return Err(Error::Pdb);
            },
        };
        let eproc_thread_list = match eproc.find_field(&("ThreadListHead".to_owned())) {
            Some(o) => o,
            None => {
                return Err(Error::Pdb);
            },
        };
        // Newer kernels spell the 32-bit-on-64-bit field with an upper
        // case W, older ones with a lower case one; kernels without it
        // get zero.
        let eproc_wow64 = match eproc.find_field(&("WoW64Process".to_owned())) {
            Some(o) => o,
            None => match eproc.find_field(&("Wow64Process".to_owned())) {
                Some(o) => o,
                None => 0,
            },
        };
        let kthread_teb = match kthread.find_field(&("Teb".to_owned())) {
            Some(o) => o,
            None => {
                return Err(Error::Pdb);
            },
        };
        let ethread_list_entry = match ethread.find_field(&("ThreadListEntry".to_owned())) {
            Some(o) => o,
            None => {
                return Err(Error::Pdb);
            },
        };
        let teb_peb = match teb.find_field(&("ProcessEnvironmentBlock".to_owned())) {
            Some(o) => o,
            None => {
                return Err(Error::Pdb);
            },
        };
        let teb_peb_x86 = match pdb.with(&("_TEB32".to_owned())) {
            Some(teb32) => match teb32.find_field(&("ProcessEnvironmentBlock".to_owned())) {
                Some(o) => o,
                None => {
                    return Err(Error::Pdb);
                },
            },
            None => 0,
        };
        Ok(
            Win32Offsets(
                Win32OffsetsData {
                    list_blink,
                    eproc_link,
                    kproc_dtb,
                    eproc_pid,
                    eproc_name,
                    eproc_peb,
                    eproc_thread_list,
                    eproc_wow64,
                    kthread_teb,
                    ethread_list_entry,
                    teb_peb,
                    teb_peb_x86,
                },
            ),
        )
    }

    /// A fresh builder.
    pub fn builder() -> (r: Win32OffsetBuilder)
        ensures
            r.symbol_store is None,
            r.offset_list@.len() == 0,
            r.guid is None,
            r.winver is None,
    {
        Win32OffsetBuilder::new()
    }
}

/// A local store of parsed symbol databases, keyed by symbol identity.
///
/// Fetching and parsing symbol files is an external collaborator's
/// work; the store holds what that work produced.
#[derive(Clone, Debug)]
pub struct SymbolStore {
    entries: Vec<(Win32GUID, PdbSymbols)>,
}

/// The first stored database whose identity matches `g`.
pub open spec fn spec_store_find(
    entries: Seq<(Win32GUID, PdbSymbols)>,
    file_name: Seq<char>,
    guid: Seq<char>,
) -> Option<PdbSymbols>
    decreases entries.len(),
{
    if entries.len() == 0 {
        None
    } else if entries[0].0.file_name@ == file_name && entries[0].0.guid@ == guid {
        Some(entries[0].1)
    } else {
        spec_store_find(entries.skip(1), file_name, guid)
    }
}

impl SymbolStore {
    /// An empty store.
    pub fn new() -> (r: SymbolStore)
        ensures
            r.spec_entries().len() == 0,
    {
        SymbolStore { entries: Vec::new() }
    }

    /// The stored databases.
    pub closed spec fn spec_entries(&self) -> Seq<(Win32GUID, PdbSymbols)> {
        self.entries@
    }

    /// Stores a database under a symbol identity.
    pub fn add(&mut self, guid: Win32GUID, symbols: PdbSymbols)
        ensures
            final(self).spec_entries() == old(self).spec_entries().push((guid, symbols)),
    {
        self.entries.push((guid, symbols));
    }

    /// Looks a database up by symbol identity.
    pub fn load(&self, guid: &Win32GUID) -> (r: Result<&PdbSymbols, Error>)
        ensures
            match r {
                Ok(s) => spec_store_find(self.spec_entries(), guid.file_name@, guid.guid@)
                    == Some(*s),
                Err(e) => spec_store_find(self.spec_entries(), guid.file_name@, guid.guid@)
                    is None && e == Error::NotFound,
            },
    {
        let n = self.entries.len();
        proof {
            assert(self.entries@.skip(0) =~= self.entries@);
        }
        let mut i: usize = 0;
        while i < n
            invariant
                n == self.entries@.len(),
                i <= n,
                spec_store_find(self.entries@, guid.file_name@, guid.guid@) == spec_store_find(
                    self.entries@.skip(i as int),
                    guid.file_name@,
                    guid.guid@,
                ),
            decreases n - i,
        {
            proof {
                assert(self.entries@.skip(i as int)[0] == self.entries@[i as int]);
                assert(self.entries@.skip(i as int).skip(1) =~= self.entries@.skip(i + 1));
            }
            if self.entries[i].0.file_name == guid.file_name && self.entries[i].0.guid
                == guid.guid {
                return Ok(&self.entries[i].1);
            }
            i = i + 1;
        }
        proof {
            assert(self.entries@.skip(n as int) =~= Seq::<(Win32GUID, PdbSymbols)>::empty());
        }
        Err(Error::NotFound)
    }
}

/// Builds an offset record for a kernel, from a symbol store or from a
/// persisted offset list.
#[derive(Clone, Debug)]
pub struct Win32OffsetBuilder {
    /// The symbol store to resolve the identity against, if any.
    pub symbol_store: Option<SymbolStore>,
    /// The persisted offset records to fall back to.
    pub offset_list: Vec<Win32OffsetsFile>,
    /// The kernel's symbol identity, if known.
    pub guid: Option<Win32GUID>,
    /// The kernel's version, if known.
    pub winver: Option<Win32Version>,
}

/// The first record of the list that matches the symbol identity
/// exactly.
pub open spec fn spec_find_exact(
    list: Seq<Win32OffsetsFile>,
    file_name: Seq<char>,
    guid: Seq<char>,
) -> Option<Win32OffsetsData>
    decreases list.len(),
{
    if list.len() == 0 {
        None
    } else if list[0].pdb_file_name@ == file_name && list[0].pdb_guid@ == guid {
        Some(list[0].offsets)
    } else {
        spec_find_exact(list.skip(1), file_name, guid)
    }
}

/// The scan for the newest record of the version's line that is not
/// newer than the version itself: the record picked from the first `n`
/// entries, and the best build number so far.
pub open spec fn spec_closest(list: Seq<Win32OffsetsFile>, wv: Win32Version, n: int) -> (
    Option<Win32OffsetsData>,
    u32,
)
    decreases n,
{
    if n <= 0 {
        (None, 0u32)
    } else {
        let (acc, prev) = spec_closest(list, wv, n - 1);
        let rec = list[n - 1];
        if wv.nt_major_version == rec.nt_major_version && wv.nt_minor_version
            == rec.nt_minor_version && wv.nt_build_number >= rec.nt_build_number && prev
            <= rec.nt_build_number {
            (Some(rec.offsets), rec.nt_build_number)
        } else {
            (acc, prev)
        }
    }
}

/// What `build_with_offset_list` returns: the exact symbol-identity
/// match when the identity is known and listed, else the closest
/// version match when the version is known, else nothing.
pub open spec fn spec_pick_from_list(
    list: Seq<Win32OffsetsFile>,
    guid: Option<Win32GUID>,
    winver: Option<Win32Version>,
) -> Option<Win32OffsetsData> {
    let exact = match guid {
        Some(g) => spec_find_exact(list, g.file_name@, g.guid@),
        None => None,
    };
    match exact {
        Some(d) => Some(d),
        None => match winver {
            Some(wv) => spec_closest(list, wv, list.len() as int).0,
            None => None,
        },
    }
}

impl Default for Win32OffsetBuilder {
    /// A fresh builder, as `new` makes it.
    fn default() -> (r: Self)
        ensures
            r.symbol_store is None,
            r.offset_list@.len() == 0,
            r.guid is None,
            r.winver is None,
    {
        Win32OffsetBuilder {
            symbol_store: None,
            offset_list: Vec::new(),
            guid: None,
            winver: None,
        }
    }
}

impl Win32OffsetBuilder {
    /// A fresh builder: no store, no records, nothing known about the
    /// kernel.
    pub fn new() -> (r: Win32OffsetBuilder)
        ensures
            r.symbol_store is None,
            r.offset_list@.len() == 0,
            r.guid is None,
            r.winver is None,
    {
        Win32OffsetBuilder {
            symbol_store: None,
            offset_list: Vec::new(),
            guid: None,
            winver: None,
        }
    }

    /// Builds the offset record: first from the symbol store, then from
    /// the persisted offset list; knowing neither the symbol identity
    /// nor the version fails at once.
    pub fn build(self) -> (r: Result<Win32Offsets, Error>)
        ensures
            self.guid is None && self.winver is None ==> r == Err::<Win32Offsets, Error>(
                Error::NotFound,
            ),
            r matches Ok(offs) ==> spec_build_result(self) == Some(offs.0),
            (self.guid is Some || self.winver is Some) ==> match spec_build_result(self) {
                Some(d) => r == Ok::<Win32Offsets, Error>(Win32Offsets(d)),
                None => r == Err::<Win32Offsets, Error>(Error::NotFound),
            },
    {
        if self.guid.is_none() && self.winver.is_none() {
            return Err(Error::NotFound);
        }
        match self.build_with_symbol_store() {
            Ok(offs) => {
                return Ok(offs);
            },
            Err(_) => {},
        }
        match self.build_with_offset_list() {
            Ok(offs) => {
                return Ok(offs);
            },
            Err(_) => {},
        }
        Err(Error::NotFound)
    }

    /// Looks the symbol identity up in the store and pulls the offsets
    /// out of the stored database.
    pub fn build_with_symbol_store(&self) -> (r: Result<Win32Offsets, Error>)
        ensures
            match r {
                Ok(offs) => spec_store_result(*self) == Some(offs.0),
                Err(_) => spec_store_result(*self) is None,
            },
    {
        match &self.symbol_store {
            Some(store) => match &self.guid {
                Some(g) => {
                    let pdb = match store.load(g) {
                        Ok(p) => p,
                        Err(e) => {
                            return Err(e);
                        },
                    };
                    Win32Offsets::from_pdb_slice(pdb)
                },
                None => Err(Error::NotFound),
            },
            None => Err(Error::NotFound),
        }
    }

    /// Scans the persisted offset list: the exact symbol-identity match
    /// first, else the newest record of the version's line that is not
    /// newer than the version.
    pub fn build_with_offset_list(&self) -> (r: Result<Win32Offsets, Error>)
        ensures
            match r {
                Ok(offs) => spec_pick_from_list(self.offset_list@, self.guid, self.winver)
                    == Some(offs.0),
                Err(e) => spec_pick_from_list(self.offset_list@, self.guid, self.winver)
                    is None && e == Error::NotFound,
            },
    {
        let n = self.offset_list.len();
        match &self.guid {
            Some(g) => {
                proof {
                    assert(self.offset_list@.skip(0) =~= self.offset_list@);
                }
                let mut i: usize = 0;
                while i < n
                    invariant
                        n == self.offset_list@.len(),
                        i <= n,
                        self.guid matches Some(gg) && gg.file_name@ == g.file_name@
                            && gg.guid@ == g.guid@,
                        spec_find_exact(self.offset_list@, g.file_name@, g.guid@)
                            == spec_find_exact(
                            self.offset_list@.skip(i as int),
                            g.file_name@,
                            g.guid@,
                        ),
                    decreases n - i,
                {
                    proof {
                        assert(self.offset_list@.skip(i as int)[0] == self.offset_list@[
                            i as int]);
                        assert(self.offset_list@.skip(i as int).skip(1)
                            =~= self.offset_list@.skip(i + 1));
                    }
                    if self.offset_list[i].pdb_file_name == g.file_name
                        && self.offset_list[i].pdb_guid == g.guid {
                        return Ok(Win32Offsets(self.offset_list[i].offsets));
                    }
                    i = i + 1;
                }
                proof {
                    assert(self.offset_list@.skip(n as int)
                        =~= Seq::<Win32OffsetsFile>::empty());
                }
                self.build_closest()
            },
            None => self.build_closest(),
        }
    }

    /// The version-line scan shared by the offset-list paths.
    fn build_closest(&self) -> (r: Result<Win32Offsets, Error>)
        ensures
            match r {
                Ok(offs) => (match self.winver {
                    Some(wv) => spec_closest(
                        self.offset_list@,
                        wv,
                        self.offset_list@.len() as int,
                    ).0,
                    None => None,
                }) == Some(offs.0),
                Err(e) => (match self.winver {
                    Some(wv) => spec_closest(
                        self.offset_list@,
                        wv,
                        self.offset_list@.len() as int,
                    ).0,
                    None => None,
                }) is None && e == Error::NotFound,
            },
    {
        let n = self.offset_list.len();
        match &self.winver {
            Some(wv) => {
                let mut closest: Option<Win32OffsetsData> = None;
                let mut prev_build: u32 = 0;
                let mut i: usize = 0;
                while i < n
                    invariant
                        n == self.offset_list@.len(),
                        i <= n,
                        self.winver == Some(*wv),
                        (closest, prev_build) == spec_closest(self.offset_list@, *wv, i as int),
                    decreases n - i,
                {
                    let rec = &self.offset_list[i];
                    if wv.nt_major_version == rec.nt_major_version && wv.nt_minor_version
                        == rec.nt_minor_version && wv.nt_build_number >= rec.nt_build_number
                        && prev_build <= rec.nt_build_number {
                        prev_build = rec.nt_build_number;
                        closest = Some(rec.offsets);
                    }
                    i = i + 1;
                }
                match closest {
                    Some(d) => Ok(Win32Offsets(d)),
                    None => Err(Error::NotFound),
                }
            },
            None => Err(Error::NotFound),
        }
    }

    /// Uses this symbol store.
    pub fn symbol_store(self, symbol_store: SymbolStore) -> (r: Self)
        ensures
            r.symbol_store == Some(symbol_store),
            r.offset_list == self.offset_list,
            r.guid == self.guid,
            r.winver == self.winver,
    {
        Win32OffsetBuilder { symbol_store: Some(symbol_store), ..self }
    }

    /// Uses no symbol store.
    pub fn no_symbol_store(self) -> (r: Self)
        ensures
            r.symbol_store is None,
            r.offset_list == self.offset_list,
            r.guid == self.guid,
            r.winver == self.winver,
    {
        Win32OffsetBuilder { symbol_store: None, ..self }
    }

    /// Uses this persisted offset list.
    pub fn offset_list(self, offset_list: Vec<Win32OffsetsFile>) -> (r: Self)
        ensures
            r.symbol_store == self.symbol_store,
            r.offset_list == offset_list,
            r.guid == self.guid,
            r.winver == self.winver,
    {
        Win32OffsetBuilder { offset_list, ..self }
    }

    /// Sets the kernel's symbol identity.
    pub fn guid(self, guid: Win32GUID) -> (r: Self)
        ensures
            r.symbol_store == self.symbol_store,
            r.offset_list == self.offset_list,
            r.guid == Some(guid),
            r.winver == self.winver,
    {
        Win32OffsetBuilder { guid: Some(guid), ..self }
    }

    /// Sets the kernel's version.
    pub fn winver(self, winver: Win32Version) -> (r: Self)
        ensures
            r.symbol_store == self.symbol_store,
            r.offset_list == self.offset_list,
            r.guid == self.guid,
            r.winver == Some(winver),
    {
        Win32OffsetBuilder { winver: Some(winver), ..self }
    }

    /// Takes whatever a kernel scan learnt, where the builder does not
    /// know better already.
    pub fn kernel_info(self, kernel_info: KernelInfo) -> (r: Self)
        ensures
            r.symbol_store == self.symbol_store,
            r.offset_list == self.offset_list,
            r.guid == if self.guid is None {
                kernel_info.kernel_guid
            } else {
                self.guid
            },
            r.winver == if self.winver is None {
                kernel_info.kernel_winver
            } else {
                self.winver
            },
    {
        let mut r = self;
        let KernelInfo { kernel_guid, kernel_winver } = kernel_info;
        if r.guid.is_none() {
            r.guid = kernel_guid;
        }
        if r.winver.is_none() {
            r.winver = kernel_winver;
        }
        r
    }
}

impl Win32OffsetsData {
    /// Decodes the twelve offsets of one persisted record from its
    /// little-endian 32-bit fields at `at`; nothing when the record
    /// would run past the buffer.
    pub fn decode(bytes: &Vec<u8>, at: usize) -> (r: Option<Win32OffsetsData>)
        ensures
            match r {
                Some(d) => {
                    &&& at + 48 <= bytes@.len()
                    &&& d.list_blink == crate::mmu::spec_le_bytes(bytes@, at as int, 4)
                    &&& d.eproc_link == crate::mmu::spec_le_bytes(bytes@, at + 4, 4)
                    &&& d.kproc_dtb == crate::mmu::spec_le_bytes(bytes@, at + 8, 4)
                    &&& d.eproc_pid == crate::mmu::spec_le_bytes(bytes@, at + 12, 4)
                    &&& d.eproc_name == crate::mmu::spec_le_bytes(bytes@, at + 16, 4)
                    &&& d.eproc_peb == crate::mmu::spec_le_bytes(bytes@, at + 20, 4)
                    &&& d.eproc_thread_list == crate::mmu::spec_le_bytes(bytes@, at + 24, 4)
                    &&& d.eproc_wow64 == crate::mmu::spec_le_bytes(bytes@, at + 28, 4)
                    &&& d.kthread_teb == crate::mmu::spec_le_bytes(bytes@, at + 32, 4)
                    &&& d.ethread_list_entry == crate::mmu::spec_le_bytes(bytes@, at + 36, 4)
                    &&& d.teb_peb == crate::mmu::spec_le_bytes(bytes@, at + 40, 4)
                    &&& d.teb_peb_x86 == crate::mmu::spec_le_bytes(bytes@, at + 44, 4)
                },
                None => at + 48 > bytes@.len(),
            },
    {
        if at > bytes.len() || bytes.len() - at < 48 {
            return None;
        }
        Some(
            Win32OffsetsData {
                list_blink: read_le32(bytes, at) as usize,
                eproc_link: read_le32(bytes, at + 4) as usize,
                kproc_dtb: read_le32(bytes, at + 8) as usize,
                eproc_pid: read_le32(bytes, at + 12) as usize,
                eproc_name: read_le32(bytes, at + 16) as usize,
                eproc_peb: read_le32(bytes, at + 20) as usize,
                eproc_thread_list: read_le32(bytes, at + 24) as usize,
                eproc_wow64: read_le32(bytes, at + 28) as usize,
                kthread_teb: read_le32(bytes, at + 32) as usize,
                ethread_list_entry: read_le32(bytes, at + 36) as usize,
                teb_peb: read_le32(bytes, at + 40) as usize,
                teb_peb_x86: read_le32(bytes, at + 44) as usize,
            },
        )
    }
}

/// The little-endian 32-bit value at `at`.
fn read_le32(bytes: &Vec<u8>, at: usize) -> (r: u32)
    requires
        at + 4 <= bytes@.len(),
    ensures
        r == crate::mmu::spec_le_bytes(bytes@, at as int, 4),
{
    let n = bytes.len();
    proof {
        reveal_with_fuel(crate::mmu::spec_le_bytes, 6);
    }
    bytes[at] as u32 + 256 * (bytes[at + 1] as u32 + 256 * (bytes[at + 2] as u32 + 256 * (
    bytes[at + 3] as u32)))
}

/// What the symbol-store path of `build` yields: the offsets of the
/// stored database of the builder's symbol identity.
pub open spec fn spec_store_result(b: Win32OffsetBuilder) -> Option<Win32OffsetsData> {
    match b.symbol_store {
        Some(store) => match b.guid {
            Some(g) => match spec_store_find(store.spec_entries(), g.file_name@, g.guid@) {
                Some(db) => spec_offsets_of_pdb(db.structs@),
                None => None,
            },
            None => None,
        },
        None => None,
    }
}

/// What `build` yields: the symbol-store result first, then the offset
/// list.
pub open spec fn spec_build_result(b: Win32OffsetBuilder) -> Option<Win32OffsetsData> {
    match spec_store_result(b) {
        Some(d) => Some(d),
        None => spec_pick_from_list(b.offset_list@, b.guid, b.winver),
    }
}

} // verus!
