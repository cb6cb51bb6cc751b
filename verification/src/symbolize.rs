//! Address-to-symbol resolution.
//!
//! A [`Symbolizer`] holds the loaded-module inventory and, for each module,
//! the captured bytes of its container file.  Resolving an address finds
//! the owning module — the first library, in inventory order, one of whose
//! relocated segments contains the address — subtracts the module's bias to
//! obtain the stated (file-relative) address, and looks up the nearest
//! symbol at or below it in the module's symbol table.
//!
//! An address owned by no module, or by a module whose container does not
//! parse, or below every symbol, resolves to nothing: the result is empty,
//! never an error and never a fabricated symbol.
//!
//! Parsed containers are cached per module.  The cache is invisible in the
//! contracts: what [`Symbolizer::resolve`] returns is a function of the
//! inventory and the container bytes alone, so clearing the cache — which
//! callers do after unloading a module — can never change a result, only
//! force a re-parse.

use crate::inventory::Library;
use crate::inventory::LibraryView;
use crate::object::parse_object;
use crate::object::spec_parse_object;
use crate::object::ObjectFile;
use crate::object::SymbolEntryView;
use crate::trace::Frame;
use vstd::pervasive::VecAdditionalExecFns;
use vstd::prelude::*;
use vstd::wrapping::usize_specs;

verus! {

/// Resolved debug information for one address.
#[derive(Clone, Debug)]
pub struct Symbol {
    /// The raw (possibly mangled) symbol name, when one was found.
    pub name: Option<Vec<u8>>,
    /// Source file of the address, when line information is present.
    pub filename: Option<Vec<u8>>,
    /// Source line, when line information is present.
    pub line: Option<u32>,
    /// Source column, when line information is present.
    pub column: Option<u32>,
    /// The stated address the symbol starts at, when known.
    pub address_range: Option<u64>,
}

/// The mathematical content of a [`Symbol`].
pub struct SymbolView {
    /// Name bytes, when found.
    pub name: Option<Seq<u8>>,
    /// Source file bytes, when present.
    pub filename: Option<Seq<u8>>,
    /// Source line, when present.
    pub line: Option<u32>,
    /// Source column, when present.
    pub column: Option<u32>,
    /// Stated start address, when known.
    pub address_range: Option<u64>,
}

impl View for Symbol {
    type V = SymbolView;

    open spec fn view(&self) -> SymbolView {
        SymbolView {
            name: match &self.name {
                Some(v) => Some(v@),
                None => None,
            },
            filename: match &self.filename {
                Some(v) => Some(v@),
                None => None,
            },
            line: self.line,
            column: self.column,
            address_range: self.address_range,
        }
    }
}

/// The inventory entries as mathematical values.
pub open spec fn lib_views(s: Seq<Library>) -> Seq<LibraryView> {
    s.map_values(|x: Library| x@)
}

/// The symbol-table entries as mathematical values.
pub open spec fn sym_entry_views(s: Seq<crate::object::SymbolEntry>) -> Seq<SymbolEntryView> {
    s.map_values(|x: crate::object::SymbolEntry| x@)
}

/// The container byte buffers as mathematical values.
pub open spec fn image_views(s: Seq<Vec<u8>>) -> Seq<Seq<u8>> {
    s.map_values(|x: Vec<u8>| x@)
}

/// The resolved symbols as mathematical values.
pub open spec fn symbol_views(s: Seq<Symbol>) -> Seq<SymbolView> {
    s.map_values(|x: Symbol| x@)
}

/// The first library, from index `i` on, that owns the address.
pub open spec fn spec_find_library(libs: Seq<LibraryView>, addr: usize, i: int) -> Option<int>
    decreases libs.len() - i,
    when 0 <= i
{
    if i >= libs.len() {
        None
    } else if libs[i].owns(addr) {
        Some(i)
    } else {
        spec_find_library(libs, addr, i + 1)
    }
}

/// True when entry `k` is the nearest symbol at or below `addr`: no entry
/// at or below `addr` lies above it, and no earlier entry ties with it.
pub open spec fn is_nearest_symbol(syms: Seq<SymbolEntryView>, addr: u64, k: int) -> bool {
    &&& 0 <= k < syms.len()
    &&& syms[k].address <= addr
    &&& forall|j: int|
        0 <= j < syms.len() && (#[trigger] syms[j]).address <= addr ==> syms[j].address
            <= syms[k].address
    &&& forall|j: int| 0 <= j < k ==> (#[trigger] syms[j]).address != syms[k].address
}

/// The symbol value reported for one matched table entry.
pub open spec fn spec_symbol_of(entry: SymbolEntryView) -> SymbolView {
    SymbolView {
        name: if entry.name.len() > 0 {
            Some(entry.name)
        } else {
            None
        },
        filename: None,
        line: None,
        column: None,
        address_range: Some(entry.address),
    }
}

/// The resolution relation: what resolving `addr` against the given
/// inventory and container bytes must yield.  The outcome is empty exactly
/// when no library owns the address, or the owning library's container
/// does not parse, or the stated address lies below every symbol of its
/// table; otherwise it is the one symbol nearest at or below the stated
/// address.  The relation mentions no cache: resolution is a function of
/// inventory and container bytes alone.
pub open spec fn resolves_to(
    libs: Seq<LibraryView>,
    images: Seq<Seq<u8>>,
    addr: usize,
    out: Seq<SymbolView>,
) -> bool {
    match spec_find_library(libs, addr, 0) {
        None => out == Seq::<SymbolView>::empty(),
        Some(i) => {
            if i >= images.len() {
                out == Seq::<SymbolView>::empty()
            } else {
                match spec_parse_object(images[i]) {
                    None => out == Seq::<SymbolView>::empty(),
                    Some(obj) => {
                        let stated = usize_specs::wrapping_sub(addr, libs[i].bias) as u64;
                        if exists|k: int| is_nearest_symbol(obj.symbols, stated, k) {
                            exists|k: int|
                                #[trigger]
                                is_nearest_symbol(obj.symbols, stated, k) && out == seq![
                                    spec_symbol_of(obj.symbols[k]),
                                ]
                        } else {
                            out == Seq::<SymbolView>::empty()
                        }
                    },
                }
            }
        },
    }
}

/// The resolution relation is a function: the same inventory, container
/// bytes and address admit only one outcome.  In particular, resolving
/// again after the parse cache is cleared yields the same result as the
/// first resolution.
pub proof fn lemma_resolution_deterministic(
    libs: Seq<LibraryView>,
    images: Seq<Seq<u8>>,
    addr: usize,
    out1: Seq<SymbolView>,
    out2: Seq<SymbolView>,
)
    requires
        resolves_to(libs, images, addr, out1),
        resolves_to(libs, images, addr, out2),
    ensures
        out1 == out2,
{
    match spec_find_library(libs, addr, 0) {
        None => {},
        Some(i) => {
            if i < images.len() {
                match spec_parse_object(images[i]) {
                    None => {},
                    Some(obj) => {
                        let stated = usize_specs::wrapping_sub(addr, libs[i].bias) as u64;
                        if exists|k: int| is_nearest_symbol(obj.symbols, stated, k) {
                            let k1 = choose|k1: int|
                                #[trigger]
                                is_nearest_symbol(obj.symbols, stated, k1) && out1 == seq![
                                    spec_symbol_of(obj.symbols[k1]),
                                ];
                            let k2 = choose|k2: int|
                                #[trigger]
                                is_nearest_symbol(obj.symbols, stated, k2) && out2 == seq![
                                    spec_symbol_of(obj.symbols[k2]),
                                ];
                            lemma_nearest_symbol_unique(obj.symbols, stated, k1, k2);
                        }
                    },
                }
            }
        },
    }
}

/// Only one table entry can be the nearest symbol for a given address.
pub proof fn lemma_nearest_symbol_unique(syms: Seq<SymbolEntryView>, addr: u64, k1: int, k2: int)
    requires
        is_nearest_symbol(syms, addr, k1),
        is_nearest_symbol(syms, addr, k2),
    ensures
        k1 == k2,
{
    if k1 < k2 {
        assert(syms[k1].address <= syms[k2].address);
        assert(syms[k2].address <= syms[k1].address);
        assert(syms[k1].address != syms[k2].address);
    } else if k2 < k1 {
        assert(syms[k1].address <= syms[k2].address);
        assert(syms[k2].address <= syms[k1].address);
        assert(syms[k2].address != syms[k1].address);
    }
}

/// Find the first library in inventory order that owns the address.
pub fn find_library(libs: &Vec<Library>, addr: usize) -> (r: Option<usize>)
    ensures
        match r {
            Some(i) => i < libs@.len() && Some(i as int) == spec_find_library(
                lib_views(libs@),
                addr,
                0,
            ),
            None => spec_find_library(lib_views(libs@), addr, 0) is None,
        },
{
    let ghost lv = lib_views(libs@);
    let n = libs.len();
    let mut i: usize = 0;
    while i < n
        invariant
            i <= n,
            n == libs@.len(),
            lv == lib_views(libs@),
            spec_find_library(lv, addr, 0) == spec_find_library(lv, addr, i as int),
        decreases n - i,
    {
        if libs[i].owns(addr) {
            return Some(i);
        }
        i = i + 1;
    }
    None
}

/// Find the nearest symbol at or below `addr`: the greatest symbol address
/// not above it, earliest table entry among ties.
pub fn nearest_symbol(syms: &Vec<crate::object::SymbolEntry>, addr: u64) -> (r: Option<usize>)
    ensures
        ({
            let sv = sym_entry_views(syms@);
            match r {
                Some(k) => is_nearest_symbol(sv, addr, k as int),
                None => !(exists|k: int| is_nearest_symbol(sv, addr, k)) && forall|j: int|
                    0 <= j < sv.len() ==> (#[trigger] sv[j]).address > addr,
            }
        }),
{
    let ghost sv = sym_entry_views(syms@);
    let n = syms.len();
    let mut best: Option<usize> = None;
    let mut i: usize = 0;
    while i < n
        invariant
            i <= n,
            n == syms@.len(),
            sv == sym_entry_views(syms@),
            match best {
                Some(b) => {
                    &&& b < i
                    &&& sv[b as int].address <= addr
                    &&& forall|j: int|
                        0 <= j < i && (#[trigger] sv[j]).address <= addr ==> sv[j].address
                            <= sv[b as int].address
                    &&& forall|j: int|
                        0 <= j < b ==> (#[trigger] sv[j]).address != sv[b as int].address
                },
                None => forall|j: int| 0 <= j < i ==> (#[trigger] sv[j]).address > addr,
            },
        decreases n - i,
    {
        let a = syms[i].address;
        if a <= addr {
            match best {
                None => {
                    best = Some(i);
                },
                Some(b) => {
                    if a > syms[b].address {
                        best = Some(i);
                    }
                },
            }
        }
        i = i + 1;
    }
    proof {
        if best is None {
            assert forall|k: int| !is_nearest_symbol(sv, addr, k) by {
                if 0 <= k < sv.len() {
                    assert(sv[k].address > addr);
                }
            }
        }
    }
    best
}

/// The symbolization engine: the inventory, each module's container bytes,
/// and the per-module parse cache.
pub struct Symbolizer {
    /// The loaded-module inventory, in enumeration order.
    pub libraries: Vec<Library>,
    /// For each library, the captured bytes of its container file.
    pub images: Vec<Vec<u8>>,
    /// Parsed containers, filled on demand; never consulted for anything
    /// the contracts speak about.  Well-formedness ties every filled slot
    /// to the parse of its image.
    pub cache: Vec<Option<ObjectFile>>,
}

impl Symbolizer {
    /// The inventory as mathematical values.
    pub open spec fn libs_view(&self) -> Seq<LibraryView> {
        lib_views(self.libraries@)
    }

    /// The container bytes as mathematical values.
    pub open spec fn images_view(&self) -> Seq<Seq<u8>> {
        image_views(self.images@)
    }

    /// Well-formedness: one image and one cache slot per library, and
    /// every filled cache slot holds exactly the parse of its image.
    pub open spec fn wf(&self) -> bool {
        &&& self.images@.len() == self.libraries@.len()
        &&& self.cache@.len() == self.libraries@.len()
        &&& forall|i: int|
            0 <= i < self.cache@.len() ==> ((#[trigger] self.cache@[i]) matches Some(o)
                ==> spec_parse_object(self.images@[i]@) == Some(o@))
    }

    /// Build a symbolizer over an inventory and the matching container
    /// bytes, one image per library.
    pub fn new(libraries: Vec<Library>, images: Vec<Vec<u8>>) -> (r: Symbolizer)
        requires
            libraries@.len() == images@.len(),
        ensures
            r.wf(),
            r.libraries@ == libraries@,
            r.images@ == images@,
    {
        let n = libraries.len();
        let mut cache: Vec<Option<ObjectFile>> = Vec::new();
        let mut i: usize = 0;
        while i < n
            invariant
                i <= n,
                cache@.len() == i,
                forall|j: int| 0 <= j < i ==> (#[trigger] cache@[j]) is None,
            decreases n - i,
        {
            cache.push(None);
            i = i + 1;
        }
        Symbolizer { libraries, images, cache }
    }

    /// Drop all cached per-module parse state: afterwards every cache slot
    /// is empty.  The inventory and the container bytes — everything
    /// resolution depends on — are unchanged.
    pub fn clear_symbol_cache(&mut self)
        requires
            old(self).wf(),
        ensures
            final(self).wf(),
            final(self).libraries@ == old(self).libraries@,
            final(self).images@ == old(self).images@,
            final(self).cache@.len() == old(self).cache@.len(),
            forall|i: int|
                0 <= i < final(self).cache@.len() ==> (#[trigger] final(self).cache@[i]) is None,
    {
        let n = self.cache.len();
        let mut fresh: Vec<Option<ObjectFile>> = Vec::new();
        let mut i: usize = 0;
        while i < n
            invariant
                i <= n,
                fresh@.len() == i,
                forall|j: int| 0 <= j < i ==> (#[trigger] fresh@[j]) is None,
            decreases n - i,
        {
            fresh.push(None);
            i = i + 1;
        }
        self.cache = fresh;
    }

    /// Resolve one raw address to its symbol, if the inventory and the
    /// owning module's container yield one.  The callback-free form: the
    /// result holds zero symbols — no owning module, unparseable
    /// container, or no symbol at or below the address — or the one
    /// nearest symbol.  What comes back is exactly [`resolves_to`], a
    /// function of inventory and container bytes alone, never of the
    /// cache.
    pub fn resolve(&mut self, addr: usize) -> (r: Vec<Symbol>)
        requires
            old(self).wf(),
        ensures
            final(self).wf(),
            final(self).libraries@ == old(self).libraries@,
            final(self).images@ == old(self).images@,
            resolves_to(
                old(self).libs_view(),
                old(self).images_view(),
                addr,
                symbol_views(r@),
            ),
            r@.len() <= 1,
    {
        let found = find_library(&self.libraries, addr);
        match found {
            None => {
                let out: Vec<Symbol> = Vec::new();
                proof {
                    assert(symbol_views(out@) =~= Seq::<SymbolView>::empty());
                }
                out
            },
            Some(i) => {
                proof {
                    assert(self.libs_view()[i as int] == self.libraries@[i as int]@);
                }
                if self.cache[i].is_none() {
                    let parsed = parse_object(self.images[i].as_slice());
                    match parsed {
                        None => {
                            proof {
                                assert(spec_parse_object(self.images_view()[i as int]) is None);
                            }
                            let out: Vec<Symbol> = Vec::new();
                            proof {
                                assert(symbol_views(out@) =~= Seq::<SymbolView>::empty());
                            }
                            return out;
                        },
                        Some(o) => {
                            self.cache.set(i, Some(o));
                            proof {
                                assert forall|j: int|
                                    0 <= j < self.cache@.len() implies ((
                                #[trigger] self.cache@[j]) matches Some(ob)
                                    ==> spec_parse_object(self.images@[j]@) == Some(ob@)) by {
                                    if j != i as int {
                                        assert(self.cache@[j] == old(self).cache@[j]);
                                    }
                                }
                                assert(self.wf());
                            }
                        },
                    }
                }
                proof {
                    assert(self.wf());
                    assert(self.cache@[i as int] is Some);
                }
                let stated = addr.wrapping_sub(self.libraries[i].bias) as u64;
                match &self.cache[i] {
                    None => {
                        // unreachable: the slot was just filled
                        proof {
                            assert(false);
                        }
                        Vec::new()
                    },
                    Some(obj) => {
                        let ghost sv = sym_entry_views(obj.symbols@);
                        proof {
                            assert(obj@.symbols =~= sv);
                            assert(spec_parse_object(old(self).images_view()[i as int])
                                == Some(obj@));
                        }
                        let k = nearest_symbol(&obj.symbols, stated);
                        match k {
                            None => {
                                let out: Vec<Symbol> = Vec::new();
                                proof {
                                    assert(symbol_views(out@) =~= Seq::<SymbolView>::empty());
                                    assert(!(exists|j: int|
                                        is_nearest_symbol(obj@.symbols, stated, j)));
                                    assert(resolves_to(
                                        old(self).libs_view(),
                                        old(self).images_view(),
                                        addr,
                                        symbol_views(out@),
                                    ));
                                }
                                out
                            },
                            Some(k) => {
                                let entry = &obj.symbols[k];
                                let name = if entry.name.len() > 0 {
                                    Some(crate::bytes::copy_range(
                                        entry.name.as_slice(),
                                        0,
                                        entry.name.len(),
                                    ))
                                } else {
                                    None
                                };
                                let sym = Symbol {
                                    name,
                                    filename: None,
                                    line: None,
                                    column: None,
                                    address_range: Some(entry.address),
                                };
                                proof {
                                    assert(entry.name@.subrange(0, entry.name@.len() as int)
                                        =~= entry.name@);
                                    assert(sv[k as int] == entry@);
                                    assert(sym@ == spec_symbol_of(sv[k as int]));
                                }
                                let mut out: Vec<Symbol> = Vec::new();
                                out.push(sym);
                                proof {
                                    assert(symbol_views(out@) =~= seq![
                                        spec_symbol_of(sv[k as int]),
                                    ]);
                                    let libsv = old(self).libs_view();
                                    let imgsv = old(self).images_view();
                                    assert(spec_find_library(libsv, addr, 0) == Some(i as int));
                                    assert(spec_parse_object(imgsv[i as int]) == Some(obj@));
                                    let objspec = spec_parse_object(imgsv[i as int])->Some_0;
                                    assert(objspec == obj@);
                                    let statedspec = usize_specs::wrapping_sub(
                                        addr,
                                        libsv[i as int].bias,
                                    ) as u64;
                                    assert(statedspec == stated);
                                    assert(is_nearest_symbol(objspec.symbols, statedspec, k as int));
                                    assert(symbol_views(out@) == seq![
                                        spec_symbol_of(objspec.symbols[k as int]),
                                    ]);
                                    assert(resolves_to(
                                        old(self).libs_view(),
                                        old(self).images_view(),
                                        addr,
                                        symbol_views(out@),
                                    ));
                                }
                                out
                            },
                        }
                    },
                }
            },
        }
    }

    /// Resolve the symbol-lookup address of a captured frame.
    pub fn resolve_frame(&mut self, frame: &Frame) -> (r: Vec<Symbol>)
        requires
            old(self).wf(),
        ensures
            final(self).wf(),
            final(self).libraries@ == old(self).libraries@,
            final(self).images@ == old(self).images@,
            resolves_to(
                old(self).libs_view(),
                old(self).images_view(),
                frame.symbol_address,
                symbol_views(r@),
            ),
            r@.len() <= 1,
    {
        self.resolve(frame.symbol_address)
    }
}

} // verus!
