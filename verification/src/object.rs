//! Object-container reader: segment ranges and the symbol table.
//!
//! The reader parses an in-memory image of a module file — an XCOFF-style
//! big-endian container — into the text section's address range and file
//! offset, and the symbol table with names resolved through the string
//! table.  Truncated or corrupt headers fail that module's parse, never the
//! caller: every access is bounds-checked, a bad magic or missing text
//! section yields `None`, and a truncated symbol table yields the entries
//! that lie before the truncation.
//!
//! Layout, all fields big-endian:
//!
//! * file header, 24 bytes: magic `u16`, section count `u16`, timestamp
//!   `u32`, symbol-table offset `u64`, symbol count `u32`, optional-header
//!   length `u16`, flags `u16`;
//! * section headers, 72 bytes each, after the optional header: name (8
//!   bytes), physical and virtual addresses `u64`, size `u64`, file offset
//!   `u64`, relocation and line-number fields, flags `u32` at offset 64 —
//!   the text section carries flag bit `0x20`;
//! * symbol entries, 18 bytes each: value `u64`, string-table offset
//!   `u32`, section number `u16`, type `u16`, storage class `u8`, auxiliary
//!   entry count `u8`; the string table follows the symbol table and its
//!   first four bytes hold its length.

use crate::bytes::be_u16_at;
use crate::bytes::be_u32_at;
use crate::bytes::be_u64_at;
use crate::bytes::copy_range;
use crate::bytes::find_nul;
use crate::bytes::find_nul_from;
use crate::bytes::read_be_u16;
use crate::bytes::read_be_u32;
use crate::bytes::read_be_u64;
use vstd::prelude::*;

verus! {

/// Magic number of the container format accepted here.
pub const OBJECT_MAGIC: u16 = 0x01F7;

/// Length of the file header.
pub const FILE_HEADER_LEN: usize = 24;

/// Length of one section header.
pub const SECTION_HEADER_LEN: usize = 72;

/// Length of one symbol-table entry.
pub const SYMBOL_ENTRY_LEN: usize = 18;

/// Section flag bit marking the text section.
pub const SECTION_FLAG_TEXT: u32 = 0x20;

/// The text segment of a parsed image: its stated (pre-relocation) base
/// address, its size, and its offset within the container file.
#[derive(Clone, Copy, Debug)]
pub struct ImageInfo {
    /// Stated virtual address of the text section.
    pub base: usize,
    /// Size of the text section in bytes.
    pub size: usize,
    /// File offset of the text section within the container.
    pub offset: usize,
}

impl ImageInfo {
    /// Well-formedness: the stated address range does not wrap.
    pub open spec fn wf(&self) -> bool {
        self.base + self.size <= usize::MAX
    }
}

/// One symbol: its stated address and its name bytes.
#[derive(Clone, Debug)]
pub struct SymbolEntry {
    /// The symbol's stated (pre-relocation) address.
    pub address: u64,
    /// The symbol's name; empty when the string table does not resolve it.
    pub name: Vec<u8>,
}

/// The mathematical content of a [`SymbolEntry`].
pub struct SymbolEntryView {
    /// The symbol's stated address.
    pub address: u64,
    /// The symbol's name bytes.
    pub name: Seq<u8>,
}

impl View for SymbolEntry {
    type V = SymbolEntryView;

    open spec fn view(&self) -> SymbolEntryView {
        SymbolEntryView { address: self.address, name: self.name@ }
    }
}

/// A parsed object: the text segment and the text symbols.
pub struct ObjectFile {
    /// The text segment.
    pub image: ImageInfo,
    /// The text symbols, in symbol-table order.
    pub symbols: Vec<SymbolEntry>,
}

/// The mathematical content of an [`ObjectFile`].
pub struct ObjectFileView {
    /// The text segment.
    pub image: ImageInfo,
    /// The text symbols, in symbol-table order.
    pub symbols: Seq<SymbolEntryView>,
}

impl View for ObjectFile {
    type V = ObjectFileView;

    open spec fn view(&self) -> ObjectFileView {
        ObjectFileView { image: self.image, symbols: self.symbols@.map_values(|x: SymbolEntry| x@) }
    }
}

/// The index of the first section whose flags carry the text bit, among
/// sections `i..nscns` with headers starting at `shdr`.
pub open spec fn spec_find_text_section(s: Seq<u8>, shdr: int, nscns: int, i: int) -> Option<int>
    decreases nscns - i,
    when 0 <= i
{
    if i >= nscns {
        None
    } else if be_u32_at(s, shdr + SECTION_HEADER_LEN * i + 64) & SECTION_FLAG_TEXT != 0 {
        Some(i)
    } else {
        spec_find_text_section(s, shdr, nscns, i + 1)
    }
}

/// The name that string-table offset `noff` resolves to: the bytes from
/// `strtab + noff` up to the first NUL, or empty when the offset lies
/// before the length field or outside the buffer.
pub open spec fn spec_symbol_name(s: Seq<u8>, strtab: int, noff: int) -> Seq<u8> {
    if noff < 4 || strtab + noff >= s.len() {
        Seq::empty()
    } else {
        s.subrange(strtab + noff, find_nul_from(s, strtab + noff))
    }
}

/// The text symbols of the table entries `i..nsyms`: entries whose section
/// number field names the text section, with names resolved through the
/// string table at `strtab`, auxiliary entries skipped, and the table
/// truncated at the first entry that does not fit in the buffer.
pub open spec fn spec_symbols_from(
    s: Seq<u8>,
    symptr: int,
    nsyms: int,
    strtab: int,
    text_scn: u16,
    i: int,
) -> Seq<SymbolEntryView>
    decreases nsyms - i,
    when 0 <= i
{
    if i >= nsyms {
        Seq::empty()
    } else {
        let ent = symptr + SYMBOL_ENTRY_LEN * i;
        if ent < 0 || ent + SYMBOL_ENTRY_LEN > s.len() {
            Seq::empty()
        } else {
            let naux = s[ent + 17] as int;
            let ni = if i + 1 + naux > nsyms {
                nsyms as int
            } else {
                i + 1 + naux
            };
            let rest = spec_symbols_from(s, symptr, nsyms, strtab, text_scn, ni);
            if be_u16_at(s, ent + 12) == text_scn {
                seq![
                    SymbolEntryView {
                        address: be_u64_at(s, ent),
                        name: spec_symbol_name(s, strtab, be_u32_at(s, ent + 8) as int),
                    },
                ] + rest
            } else {
                rest
            }
        }
    }
}

/// What parsing the whole container yields: `None` for a truncated or
/// foreign header or a missing or unrepresentable text section, and
/// otherwise the text segment together with the text symbols.
pub open spec fn spec_parse_object(s: Seq<u8>) -> Option<ObjectFileView> {
    if s.len() < FILE_HEADER_LEN || be_u16_at(s, 0) != OBJECT_MAGIC {
        None
    } else {
        let nscns = be_u16_at(s, 2) as int;
        let opthdr = be_u16_at(s, 20) as int;
        let shdr = FILE_HEADER_LEN + opthdr;
        if shdr + SECTION_HEADER_LEN * nscns > s.len() {
            None
        } else {
            match spec_find_text_section(s, shdr, nscns, 0) {
                None => None,
                Some(k) => {
                    let h = shdr + SECTION_HEADER_LEN * k;
                    let vaddr = be_u64_at(s, h + 16);
                    let size = be_u64_at(s, h + 24);
                    let scnptr = be_u64_at(s, h + 32);
                    if vaddr as int + size as int <= usize::MAX && scnptr <= usize::MAX {
                        let image = ImageInfo {
                            base: vaddr as usize,
                            size: size as usize,
                            offset: scnptr as usize,
                        };
                        let symptr = be_u64_at(s, 8) as int;
                        let nsyms = be_u32_at(s, 16) as int;
                        let strtab = symptr + SYMBOL_ENTRY_LEN * nsyms;
                        Some(
                            ObjectFileView {
                                image,
                                symbols: spec_symbols_from(
                                    s,
                                    symptr,
                                    nsyms,
                                    strtab,
                                    (k + 1) as u16,
                                    0,
                                ),
                            },
                        )
                    } else {
                        None
                    }
                },
            }
        }
    }
}

/// Parse an in-memory container image into its text segment and text
/// symbols; returns exactly what [`spec_parse_object`] states, and a
/// well-formed text range on success.
pub fn parse_object(data: &[u8]) -> (r: Option<ObjectFile>)
    ensures
        r is Some <==> spec_parse_object(data@) is Some,
        r matches Some(obj) ==> Some(obj@) == spec_parse_object(data@) && obj.image.wf(),
{
    let n = data.len();
    if n < FILE_HEADER_LEN {
        return None;
    }
    if read_be_u16(data, 0) != OBJECT_MAGIC {
        return None;
    }
    let nscns = read_be_u16(data, 2) as usize;
    let opthdr = read_be_u16(data, 20) as usize;
    let shdr = FILE_HEADER_LEN + opthdr;
    let table_end = match SECTION_HEADER_LEN.checked_mul(nscns) {
        Some(t) => match t.checked_add(shdr) {
            Some(e) => e,
            None => {
                return None;
            },
        },
        None => {
            return None;
        },
    };
    if table_end > n {
        return None;
    }
    let text = find_text_section(data, shdr, nscns);
    match text {
        None => None,
        Some(k) => {
            proof {
                assert(SECTION_HEADER_LEN * (k as int) + SECTION_HEADER_LEN <= SECTION_HEADER_LEN
                    * (nscns as int)) by (nonlinear_arith)
                    requires
                        (k as int) < (nscns as int),
                ;
            }
            let h = shdr + SECTION_HEADER_LEN * k;
            let vaddr = read_be_u64(data, h + 16);
            let size = read_be_u64(data, h + 24);
            let scnptr = read_be_u64(data, h + 32);
            if !(vaddr <= usize::MAX as u64 && size <= usize::MAX as u64 && vaddr
                <= usize::MAX as u64 - size && scnptr <= usize::MAX as u64) {
                return None;
            }
            let image = ImageInfo {
                base: vaddr as usize,
                size: size as usize,
                offset: scnptr as usize,
            };
            let symptr = read_be_u64(data, 8);
            let nsyms = read_be_u32(data, 16);
            proof {
                assert(k + 1 <= 0xFFFF);
            }
            let symbols = parse_symbols(data, symptr, nsyms, (k + 1) as u16);
            Some(ObjectFile { image, symbols })
        },
    }
}

/// Find the first section with the text flag set.
fn find_text_section(data: &[u8], shdr: usize, nscns: usize) -> (r: Option<usize>)
    requires
        shdr + SECTION_HEADER_LEN * nscns <= data@.len(),
    ensures
        match r {
            Some(k) => k < nscns && Some(k as int) == spec_find_text_section(
                data@,
                shdr as int,
                nscns as int,
                0,
            ),
            None => spec_find_text_section(data@, shdr as int, nscns as int, 0) is None,
        },
{
    let n: usize = data.len();
    let mut i: usize = 0;
    while i < nscns
        invariant
            i <= nscns,
            n == data@.len(),
            shdr + SECTION_HEADER_LEN * nscns <= data@.len(),
            spec_find_text_section(data@, shdr as int, nscns as int, 0)
                == spec_find_text_section(data@, shdr as int, nscns as int, i as int),
        decreases nscns - i,
    {
        proof {
            assert(SECTION_HEADER_LEN * i as int + SECTION_HEADER_LEN <= SECTION_HEADER_LEN * (
            nscns as int)) by (nonlinear_arith)
                requires
                    i < nscns,
            ;
        }
        let flags = read_be_u32(data, shdr + SECTION_HEADER_LEN * i + 64);
        if flags & SECTION_FLAG_TEXT != 0 {
            return Some(i);
        }
        i = i + 1;
    }
    None
}

/// Walk the symbol table, collecting the text symbols and skipping
/// auxiliary entries; a truncated table yields the entries before the
/// truncation.
fn parse_symbols(data: &[u8], symptr: u64, nsyms: u32, text_scn: u16) -> (r: Vec<SymbolEntry>)
    ensures
        r@.map_values(|x: SymbolEntry| x@) == spec_symbols_from(
            data@,
            symptr as int,
            nsyms as int,
            symptr as int + SYMBOL_ENTRY_LEN * nsyms as int,
            text_scn,
            0,
        ),
{
    let n = data.len();
    let ghost strtab_i = symptr as int + SYMBOL_ENTRY_LEN * nsyms as int;
    let mut out: Vec<SymbolEntry> = Vec::new();
    let mut i: u64 = 0;
    let mut alive: bool = true;
    while alive && i < nsyms as u64
        invariant
            i <= nsyms as u64,
            n == data@.len(),
            strtab_i == symptr as int + SYMBOL_ENTRY_LEN * nsyms as int,
            alive ==> spec_symbols_from(data@, symptr as int, nsyms as int, strtab_i, text_scn, 0)
                =~= out@.map_values(|x: SymbolEntry| x@) + spec_symbols_from(
                data@,
                symptr as int,
                nsyms as int,
                strtab_i,
                text_scn,
                i as int,
            ),
            !alive ==> spec_symbols_from(data@, symptr as int, nsyms as int, strtab_i, text_scn, 0)
                =~= out@.map_values(|x: SymbolEntry| x@),
        decreases nsyms as int - i as int, (if alive { 1int } else { 0int }),
    {
        let ghost i0 = i as int;
        let ghost prefix = out@.map_values(|x: SymbolEntry| x@);
        let ent128: u64 = SYMBOL_ENTRY_LEN as u64 * i;
        let ent_u64 = match symptr.checked_add(ent128) {
            Some(e) => e,
            None => {
                proof {
                    assert(symptr as int + SYMBOL_ENTRY_LEN * i0 + SYMBOL_ENTRY_LEN
                        > data@.len());
                }
                alive = false;
                continue
            },
        };
        if ent_u64 > n as u64 || n as u64 - ent_u64 < SYMBOL_ENTRY_LEN as u64 {
            proof {
                assert(symptr as int + SYMBOL_ENTRY_LEN * i0 + SYMBOL_ENTRY_LEN > data@.len());
            }
            alive = false;
            continue
        }
        let ent = ent_u64 as usize;
        let naux = data[ent + 17];
        let scnum = read_be_u16(data, ent + 12);
        if scnum == text_scn {
            let address = read_be_u64(data, ent);
            let noff = read_be_u32(data, ent + 8);
            let name = read_symbol_name(data, symptr, nsyms, noff);
            let sym = SymbolEntry { address, name };
            proof {
                assert(sym@.address == be_u64_at(data@, ent as int));
                assert(sym@.name == spec_symbol_name(data@, strtab_i, noff as int));
                assert(sym@ == SymbolEntryView {
                    address: be_u64_at(data@, ent as int),
                    name: spec_symbol_name(data@, strtab_i, noff as int),
                });
            }
            out.push(sym);
            proof {
                assert(out@.map_values(|x: SymbolEntry| x@) =~= prefix + seq![
                    SymbolEntryView {
                        address: be_u64_at(data@, ent as int),
                        name: spec_symbol_name(data@, strtab_i, noff as int),
                    },
                ]);
            }
        }
        let step: u64 = 1 + naux as u64;
        let ni: u64 = if nsyms as u64 - i < step {
            nsyms as u64
        } else {
            i + step
        };
        proof {
            assert(ni as int == (if i0 + 1 + (naux as int) > nsyms as int {
                nsyms as int
            } else {
                i0 + 1 + naux as int
            }));
        }
        i = ni;
    }
    out
}

/// Resolve one string-table offset to name bytes; out-of-range offsets
/// yield the empty name.
fn read_symbol_name(data: &[u8], symptr: u64, nsyms: u32, noff: u32) -> (r: Vec<u8>)
    ensures
        r@ == spec_symbol_name(
            data@,
            symptr as int + SYMBOL_ENTRY_LEN * nsyms as int,
            noff as int,
        ),
{
    let n = data.len();
    let ghost strtab_i = symptr as int + SYMBOL_ENTRY_LEN * nsyms as int;
    if noff < 4 {
        return Vec::new();
    }
    let start_u64 = match symptr.checked_add(SYMBOL_ENTRY_LEN as u64 * nsyms as u64) {
        Some(st) => match st.checked_add(noff as u64) {
            Some(v) => v,
            None => {
                proof {
                    assert(strtab_i + noff as int >= data@.len());
                }
                return Vec::new();
            },
        },
        None => {
            proof {
                assert(strtab_i + noff as int >= data@.len());
            }
            return Vec::new();
        },
    };
    if start_u64 >= n as u64 {
        return Vec::new();
    }
    let start = start_u64 as usize;
    let end = find_nul(data, start);
    copy_range(data, start, end)
}

} // verus!
