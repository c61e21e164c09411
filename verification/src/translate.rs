//! Virtual-to-physical translation: the translator capability and the
//! page-table translation handle that carries an architecture and a
//! directory table base.

use vstd::prelude::*;
use crate::architecture::{Architecture, ArchitectureIdent, ArchitectureObj};
use crate::mmu::{spec_def_of_arch, spec_walk, ArchMmuDef, MmuDefView, WalkResult};
use crate::phys_mem::{fully_available, PhysicalMemory};
use crate::types::{Address, Error, PhysicalAddress};

verus! {

/// The successes and failures of translating a batch of tagged virtual
/// addresses, in input order, as the mathematical walk decides them.
pub open spec fn spec_translate_lists<B>(
    def: MmuDefView,
    m: Seq<u8>,
    dtb: u64,
    addrs: Seq<(Address, B)>,
) -> (Seq<(PhysicalAddress, B)>, Seq<(Error, Address, B)>)
    decreases addrs.len(),
{
    if addrs.len() == 0 {
        (Seq::empty(), Seq::empty())
    } else {
        let (va, b) = addrs[0];
        let rest = spec_translate_lists(def, m, dtb, addrs.skip(1));
        match spec_walk(def, m, dtb, va.0) {
            WalkResult::Mapped(phys, pg) => (
                seq![(PhysicalAddress { address: Address(phys), page: Some(pg) }, b)] + rest.0,
                rest.1,
            ),
            WalkResult::NotPresent => (rest.0, seq![(Error::PageNotPresent, va, b)] + rest.1),
            WalkResult::OutOfBounds => (rest.0, seq![(Error::OutOfBounds, va, b)] + rest.1),
        }
    }
}

/// Translates virtual addresses to physical ones within one virtual
/// address space, walking that space's page tables through a connector.
///
/// The framework's users bring their own translators for exotic address
/// spaces; this crate ships the architecture-defined page-table walk
/// (`Win32VirtualTranslate`), whose contract ties every answer to the
/// mathematical walk of its architecture and translation base.
pub trait VirtualTranslate3: Sized + Clone + Copy {
    /// The architecture whose page-table layout the walk follows.
    spec fn spec_arch(&self) -> Architecture;

    /// The translation base the walk starts from.
    spec fn spec_dtb(&self) -> u64;

    /// Translates a single virtual address.
    fn virt_to_phys<T: PhysicalMemory>(&self, mem: &mut T, addr: Address) -> (r: Result<
        PhysicalAddress,
        Error,
    >)
        ensures
            final(mem).mem() == old(mem).mem(),
            forall|a: int, l: int| final(mem).ok_on(a, l) == old(mem).ok_on(a, l),
            r matches Ok(p) ==> p.address.0 < 0x0020_0000_0000_0000,
            r matches Ok(p) ==> p.page matches Some(pg) && spec_walk(
                spec_def_of_arch(self.spec_arch()),
                old(mem).mem(),
                self.spec_dtb(),
                addr.0,
            ) == WalkResult::Mapped(p.address.0, pg),
            r == Err::<PhysicalAddress, Error>(Error::PageNotPresent) ==> spec_walk(
                spec_def_of_arch(self.spec_arch()),
                old(mem).mem(),
                self.spec_dtb(),
                addr.0,
            ) == WalkResult::NotPresent,
            r == Err::<PhysicalAddress, Error>(Error::OutOfBounds) ==> spec_walk(
                spec_def_of_arch(self.spec_arch()),
                old(mem).mem(),
                self.spec_dtb(),
                addr.0,
            ) == WalkResult::OutOfBounds,
            fully_available(old(mem)) ==> match spec_walk(
                spec_def_of_arch(self.spec_arch()),
                old(mem).mem(),
                self.spec_dtb(),
                addr.0,
            ) {
                WalkResult::Mapped(phys, pg) => r == Ok::<PhysicalAddress, Error>(
                    PhysicalAddress { address: Address(phys), page: Some(pg) },
                ),
                WalkResult::NotPresent => r == Err::<PhysicalAddress, Error>(
                    Error::PageNotPresent,
                ),
                WalkResult::OutOfBounds => r == Err::<PhysicalAddress, Error>(
                    Error::OutOfBounds,
                ),
            },
    ;

    /// Translates a batch of tagged virtual addresses, extending `out`
    /// with the successes and `out_fail` with the failures. Per-entry
    /// failures never abort the batch.
    fn virt_to_phys_iter<T: PhysicalMemory, B>(
        &self,
        mem: &mut T,
        addrs: Vec<(Address, B)>,
        out: &mut Vec<(PhysicalAddress, B)>,
        out_fail: &mut Vec<(Error, Address, B)>,
    )
        ensures
            final(mem).mem() == old(mem).mem(),
            forall|a: int, l: int| final(mem).ok_on(a, l) == old(mem).ok_on(a, l),
            final(out)@.len() >= old(out)@.len(),
            final(out_fail)@.len() >= old(out_fail)@.len(),
            forall|j: int| 0 <= j < old(out)@.len() ==> #[trigger] final(out)@[j] == old(
                out,
            )@[j],
            forall|j: int|
                0 <= j < old(out_fail)@.len() ==> #[trigger] final(out_fail)@[j] == old(
                    out_fail,
                )@[j],
            final(out)@.len() - old(out)@.len() + final(out_fail)@.len() - old(
                out_fail,
            )@.len() == addrs@.len(),
            fully_available(old(mem)) ==> {
                let lists = spec_translate_lists(
                    spec_def_of_arch(self.spec_arch()),
                    old(mem).mem(),
                    self.spec_dtb(),
                    addrs@,
                );
                final(out)@ == old(out)@ + lists.0 && final(out_fail)@ == old(out_fail)@
                    + lists.1
            },
    ;

    /// An identifier of the translated address space, stable per
    /// translation base.
    fn translation_table_id(&self, address: Address) -> (r: u64)
        ensures
            r == self.spec_dtb() >> 12u64,
    ;

    /// The architecture of this translator.
    fn arch(&self) -> (r: ArchitectureObj)
        ensures
            r == self.spec_arch(),
    ;
}

/// A translation handle for one address space: the system architecture
/// and the directory table base of the space's page tables.
#[derive(Debug, Clone, Copy, PartialEq, Eq, Structural)]
pub struct Win32VirtualTranslate {
    /// The architecture whose walk layout applies.
    pub sys_arch: ArchitectureObj,
    /// Root physical address of the page tables.
    pub dtb: Address,
}

impl Win32VirtualTranslate {
    /// A handle for the given architecture identifier and translation
    /// base. Identifiers of unsupported architectures are excluded, as
    /// for `ArchitectureIdent::into_obj`; `try_new` checks instead.
    pub fn new(arch: ArchitectureIdent, dtb: Address) -> (r: Win32VirtualTranslate)
        requires
            arch.spec_supported(),
        ensures
            r.sys_arch == arch.spec_into_obj(),
            r.dtb == dtb,
    {
        Win32VirtualTranslate { sys_arch: arch.into_obj(), dtb }
    }

    /// A handle for the given architecture identifier and translation
    /// base, failing fast on an identifier no configured walk fits.
    pub fn try_new(arch: ArchitectureIdent, dtb: Address) -> (r: Result<
        Win32VirtualTranslate,
        Error,
    >)
        ensures
            match r {
                Ok(t) => arch.spec_supported() && t.sys_arch == arch.spec_into_obj() && t.dtb
                    == dtb,
                Err(e) => !arch.spec_supported() && e == Error::InvalidArchitecture,
            },
    {
        if arch.supported() {
            Ok(Win32VirtualTranslate { sys_arch: arch.into_obj(), dtb })
        } else {
            Err(Error::InvalidArchitecture)
        }
    }
}

impl VirtualTranslate3 for Win32VirtualTranslate {
    open spec fn spec_arch(&self) -> Architecture {
        self.sys_arch
    }

    open spec fn spec_dtb(&self) -> u64 {
        self.dtb.0
    }

    fn virt_to_phys<T: PhysicalMemory>(&self, mem: &mut T, addr: Address) -> (r: Result<
        PhysicalAddress,
        Error,
    >) {
        let def = ArchMmuDef::of_arch(self.sys_arch);
        crate::mmu::walk(&def, mem, self.dtb, addr)
    }

    fn virt_to_phys_iter<T: PhysicalMemory, B>(
        &self,
        mem: &mut T,
        addrs: Vec<(Address, B)>,
        out: &mut Vec<(PhysicalAddress, B)>,
        out_fail: &mut Vec<(Error, Address, B)>,
    ) {
        let def = ArchMmuDef::of_arch(self.sys_arch);
        let ghost m0 = mem.mem();
        let mut addrs = addrs;
        let ghost addrs0 = addrs@;
        let n = addrs.len();
        let ghost out0 = out@;
        let ghost fail0 = out_fail@;
        // Reverse once, so that popping yields the entries in input
        // order while letting each entry be moved out of the vector.
        let mut rest = addrs;
        let mut rev: Vec<(Address, B)> = Vec::new();
        while rest.len() > 0
            invariant
                rev@.len() + rest@.len() == addrs0.len(),
                forall|j: int| 0 <= j < rest@.len() ==> rest@[j] == addrs0[j],
                forall|j: int|
                    0 <= j < rev@.len() ==> #[trigger] rev@[j] == addrs0[addrs0.len() - 1 - j],
            decreases rest@.len(),
        {
            rev.push(rest.pop().unwrap());
        }
        while rev.len() > 0
            invariant
                def@ == spec_def_of_arch(self.sys_arch),
                def@.wf(),
                mem.mem() == m0,
                forall|a: int, l: int| mem.ok_on(a, l) == old(mem).ok_on(a, l),
                m0 == old(mem).mem(),
                rev@.len() <= addrs0.len(),
                forall|j: int|
                    0 <= j < rev@.len() ==> #[trigger] rev@[j] == addrs0[addrs0.len() - 1 - j],
                out@.len() >= out0.len(),
                out_fail@.len() >= fail0.len(),
                forall|j: int| 0 <= j < out0.len() ==> #[trigger] out@[j] == out0[j],
                forall|j: int| 0 <= j < fail0.len() ==> #[trigger] out_fail@[j] == fail0[j],
                out@.len() - out0.len() + out_fail@.len() - fail0.len() == addrs0.len()
                    - rev@.len(),
                fully_available(old(mem)) ==> {
                    let lists = spec_translate_lists(
                        def@,
                        m0,
                        self.dtb.0,
                        addrs0.take(addrs0.len() - rev@.len()),
                    );
                    out@ == out0 + lists.0 && out_fail@ == fail0 + lists.1
                },
            decreases rev@.len(),
        {
            let (va, b) = rev.pop().unwrap();
            let ghost done_before = addrs0.take(addrs0.len() - rev@.len() - 1);
            let r = crate::mmu::walk(&def, mem, self.dtb, va);
            match r {
                Ok(p) => {
                    out.push((p, b));
                },
                Err(e) => {
                    out_fail.push((e, va, b));
                },
            }
            proof {
                if fully_available(old(mem)) {
                    lemma_translate_lists_snoc(def@, m0, self.dtb.0, done_before, va, b);
                    assert(addrs0.take(addrs0.len() - rev@.len()) =~= done_before.push(
                        (va, b),
                    ));
                }
            }
        }
        proof {
            if fully_available(old(mem)) {
                assert(addrs0.take(addrs0.len() as int) =~= addrs0);
            }
        }
    }

    fn translation_table_id(&self, address: Address) -> (r: u64) {
        self.dtb.0 >> 12u64
    }

    fn arch(&self) -> (r: ArchitectureObj) {
        self.sys_arch
    }
}

/// Adding one entry at the end of a batch appends its outcome to the
/// matching list.
proof fn lemma_translate_lists_snoc<B>(
    def: MmuDefView,
    m: Seq<u8>,
    dtb: u64,
    addrs: Seq<(Address, B)>,
    va: Address,
    b: B,
)
    ensures
        ({
            let whole = spec_translate_lists(def, m, dtb, addrs.push((va, b)));
            let front = spec_translate_lists(def, m, dtb, addrs);
            match spec_walk(def, m, dtb, va.0) {
                WalkResult::Mapped(phys, pg) => whole.0 == front.0.push(
                    (PhysicalAddress { address: Address(phys), page: Some(pg) }, b),
                ) && whole.1 == front.1,
                WalkResult::NotPresent => whole.0 == front.0 && whole.1 == front.1.push(
                    (Error::PageNotPresent, va, b),
                ),
                WalkResult::OutOfBounds => whole.0 == front.0 && whole.1 == front.1.push(
                    (Error::OutOfBounds, va, b),
                ),
            }
        }),
    decreases addrs.len(),
{
    let whole_in = addrs.push((va, b));
    if addrs.len() == 0 {
        assert(whole_in.skip(1) =~= Seq::<(Address, B)>::empty());
        assert(spec_translate_lists(def, m, dtb, whole_in.skip(1)) == (
            Seq::<(PhysicalAddress, B)>::empty(),
            Seq::<(Error, Address, B)>::empty(),
        ));
        match spec_walk(def, m, dtb, va.0) {
            WalkResult::Mapped(phys, pg) => {
                assert(spec_translate_lists(def, m, dtb, whole_in).0 =~= spec_translate_lists(
                    def,
                    m,
                    dtb,
                    addrs,
                ).0.push((PhysicalAddress { address: Address(phys), page: Some(pg) }, b)));
                assert(spec_translate_lists(def, m, dtb, whole_in).1 =~= spec_translate_lists(
                    def,
                    m,
                    dtb,
                    addrs,
                ).1);
            },
            WalkResult::NotPresent => {
                assert(spec_translate_lists(def, m, dtb, whole_in).1 =~= spec_translate_lists(
                    def,
                    m,
                    dtb,
                    addrs,
                ).1.push((Error::PageNotPresent, va, b)));
                assert(spec_translate_lists(def, m, dtb, whole_in).0 =~= spec_translate_lists(
                    def,
                    m,
                    dtb,
                    addrs,
                ).0);
            },
            WalkResult::OutOfBounds => {
                assert(spec_translate_lists(def, m, dtb, whole_in).1 =~= spec_translate_lists(
                    def,
                    m,
                    dtb,
                    addrs,
                ).1.push((Error::OutOfBounds, va, b)));
                assert(spec_translate_lists(def, m, dtb, whole_in).0 =~= spec_translate_lists(
                    def,
                    m,
                    dtb,
                    addrs,
                ).0);
            },
        }
    } else {
        assert(whole_in.skip(1) =~= addrs.skip(1).push((va, b)));
        lemma_translate_lists_snoc(def, m, dtb, addrs.skip(1), va, b);
        let front_rest = spec_translate_lists(def, m, dtb, addrs.skip(1));
        let whole_rest = spec_translate_lists(def, m, dtb, whole_in.skip(1));
        assert(addrs[0] == whole_in[0]);
        match spec_walk(def, m, dtb, va.0) {
            WalkResult::Mapped(phys, pg) => {
                match spec_walk(def, m, dtb, addrs[0].0.0) {
                    WalkResult::Mapped(p2, pg2) => {
                        assert(spec_translate_lists(def, m, dtb, whole_in).0
                            =~= spec_translate_lists(def, m, dtb, addrs).0.push(
                            (PhysicalAddress { address: Address(phys), page: Some(pg) }, b),
                        ));
                    },
                    _ => {
                        assert(spec_translate_lists(def, m, dtb, whole_in).0
                            =~= spec_translate_lists(def, m, dtb, addrs).0.push(
                            (PhysicalAddress { address: Address(phys), page: Some(pg) }, b),
                        ));
                        assert(spec_translate_lists(def, m, dtb, whole_in).1
                            =~= spec_translate_lists(def, m, dtb, addrs).1);
                    },
                }
                assert(spec_translate_lists(def, m, dtb, whole_in).1 =~= spec_translate_lists(
                    def,
                    m,
                    dtb,
                    addrs,
                ).1);
            },
            WalkResult::NotPresent => {
                assert(spec_translate_lists(def, m, dtb, whole_in).0 =~= spec_translate_lists(
                    def,
                    m,
                    dtb,
                    addrs,
                ).0);
                assert(spec_translate_lists(def, m, dtb, whole_in).1 =~= spec_translate_lists(
                    def,
                    m,
                    dtb,
                    addrs,
                ).1.push((Error::PageNotPresent, va, b)));
            },
            WalkResult::OutOfBounds => {
                assert(spec_translate_lists(def, m, dtb, whole_in).0 =~= spec_translate_lists(
                    def,
                    m,
                    dtb,
                    addrs,
                ).0);
                assert(spec_translate_lists(def, m, dtb, whole_in).1 =~= spec_translate_lists(
                    def,
                    m,
                    dtb,
                    addrs,
                ).1.push((Error::OutOfBounds, va, b)));
            },
        }
    }
}

} // verus!
