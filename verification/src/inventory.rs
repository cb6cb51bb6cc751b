//! The loaded-module inventory.
//!
//! A [`Library`] describes one loaded executable or shared-object image: its
//! path, its member name when the image lives inside an archive, the address
//! ranges its own headers state, and the bias — the offset between a stated
//! address and where the image actually sits at runtime.  Within one library
//! the segments never overlap, and rebasing is an exact round trip: adding
//! the bias to a stated address and subtracting it again gives the stated
//! address back.
//!
//! The inventory is built from a load-record buffer that the caller obtains
//! from the OS in one query: a chain of records, each holding the offset of
//! the next record, the runtime text base, and two NUL-terminated names.
//! [`parse_load_records`] walks that chain arena-style — by offset, bounds
//! checked, never following raw pointers — and stops at the first malformed
//! record rather than walking into garbage.

use crate::bytes::be_u32_at;
use crate::bytes::be_u64_at;
use crate::bytes::copy_range;
use crate::bytes::find_nul;
use crate::bytes::find_nul_from;
use crate::bytes::read_be_u32;
use crate::bytes::read_be_u64;
use crate::object::ImageInfo;
use vstd::prelude::*;
use vstd::wrapping::usize_specs;

verus! {

/// The runtime text base at which the main executable image is mapped on
/// the platform this load-record format comes from; a record with this text
/// base is the executable itself, whose loader-provided name is replaced by
/// the true executable path when one is known.
pub const EXE_IMAGE_BASE: u64 = 0x1_0000_0000;

/// Byte offset of the runtime text base within a load record.
pub const RECORD_TEXT_ORG_OFFSET: usize = 8;

/// Byte offset of the first NUL-terminated name within a load record.
pub const RECORD_NAMES_OFFSET: usize = 40;

/// Starting size of the load-record query buffer.
pub const INITIAL_QUERY_BUFFER_LEN: usize = 0x1000;

/// Ceiling on the load-record query buffer: growth stops here, and the
/// enumeration then degrades to an empty inventory rather than retrying
/// forever.
pub const MAX_QUERY_BUFFER_LEN: usize = 0x100_0000;

/// The next buffer size after the OS reported the query buffer too small:
/// double it, capped at [`MAX_QUERY_BUFFER_LEN`]; a buffer already at the
/// ceiling is not grown again, and the caller gives up with an empty
/// inventory.  Any error other than an insufficient buffer is not retried
/// at all.
pub fn grow_query_buffer(len: usize) -> (r: Option<usize>)
    ensures
        len >= MAX_QUERY_BUFFER_LEN ==> r is None,
        len < MAX_QUERY_BUFFER_LEN ==> r == Some(
            if 2 * len <= MAX_QUERY_BUFFER_LEN && len >= 1 {
                (2 * len) as usize
            } else if len < 1 {
                1usize
            } else {
                MAX_QUERY_BUFFER_LEN
            },
        ),
{
    if len >= MAX_QUERY_BUFFER_LEN {
        None
    } else if len < 1 {
        Some(1)
    } else if len <= MAX_QUERY_BUFFER_LEN / 2 {
        Some(2 * len)
    } else {
        Some(MAX_QUERY_BUFFER_LEN)
    }
}

/// How one load-record query attempt failed.
#[derive(Clone, Copy, Debug, PartialEq, Eq, Structural)]
pub enum QueryFailure {
    /// The OS reported the buffer too small for the record chain.
    BufferTooSmall,
    /// Any other error.
    Other,
}

/// Decide what follows a failed query attempt: only an insufficient
/// buffer is retried, with the buffer grown by [`grow_query_buffer`]; any
/// other error — and a buffer already at the ceiling — gives up, and the
/// enumeration degrades to an empty inventory.
pub fn next_query_attempt(buffer_len: usize, failure: QueryFailure) -> (r: Option<usize>)
    ensures
        failure is Other ==> r is None,
        failure is BufferTooSmall && buffer_len >= MAX_QUERY_BUFFER_LEN ==> r is None,
        failure is BufferTooSmall && buffer_len < MAX_QUERY_BUFFER_LEN ==> r is Some && r->Some_0
            > buffer_len && r->Some_0 <= MAX_QUERY_BUFFER_LEN,
{
    match failure {
        QueryFailure::BufferTooSmall => grow_query_buffer(buffer_len),
        QueryFailure::Other => None,
    }
}

/// One address range as stated in a module's own headers, before
/// relocation.
#[derive(Clone, Copy, Debug)]
pub struct LibrarySegment {
    /// The stated (pre-relocation) start address.
    pub stated_virtual_memory_address: usize,
    /// The length of the range in bytes.
    pub len: usize,
}

impl LibrarySegment {
    /// Well-formedness: the range does not wrap around the address space.
    pub open spec fn wf(&self) -> bool {
        self.stated_virtual_memory_address + self.len <= usize::MAX
    }

    /// Whether the stated address `addr` lies in this range.
    pub open spec fn spec_contains(&self, addr: usize) -> bool {
        self.stated_virtual_memory_address <= addr < self.stated_virtual_memory_address + self.len
    }
}

/// True when two segments share no address.
pub open spec fn segments_disjoint(a: LibrarySegment, b: LibrarySegment) -> bool {
    ||| a.stated_virtual_memory_address + a.len <= b.stated_virtual_memory_address
    ||| b.stated_virtual_memory_address + b.len <= a.stated_virtual_memory_address
}

/// One loaded module.
#[derive(Clone, Debug)]
pub struct Library {
    /// Filesystem path of the module, as raw path bytes.
    pub name: Vec<u8>,
    /// Name of the member within an archive container; empty for a plain
    /// object file.
    pub member_name: Vec<u8>,
    /// The address ranges stated in the module's own headers.
    pub segments: Vec<LibrarySegment>,
    /// Runtime load address minus stated address, as a wrapped machine
    /// word; constant for the module's lifetime.
    pub bias: usize,
}

/// The mathematical content of a [`Library`].
pub struct LibraryView {
    /// Path bytes.
    pub name: Seq<u8>,
    /// Archive member name bytes.
    pub member_name: Seq<u8>,
    /// Stated address ranges.
    pub segments: Seq<LibrarySegment>,
    /// The relocation bias.
    pub bias: usize,
}

impl View for Library {
    type V = LibraryView;

    open spec fn view(&self) -> LibraryView {
        LibraryView {
            name: self.name@,
            member_name: self.member_name@,
            segments: self.segments@,
            bias: self.bias,
        }
    }
}

impl LibraryView {
    /// Well-formedness: every segment is a non-wrapping range and no two
    /// segments overlap.
    pub open spec fn wf(&self) -> bool {
        &&& forall|i: int| 0 <= i < self.segments.len() ==> (#[trigger] self.segments[i]).wf()
        &&& forall|i: int, j: int|
            0 <= i < j < self.segments.len() ==> segments_disjoint(
                #[trigger] self.segments[i],
                #[trigger] self.segments[j],
            )
    }

    /// Whether the stated (file-relative) address lies in one of the
    /// segments.
    pub open spec fn contains_stated(&self, addr: usize) -> bool {
        exists|i: int| 0 <= i < self.segments.len() && (#[trigger] self.segments[i]).spec_contains(
            addr,
        )
    }

    /// Whether the runtime address belongs to this module: subtracting the
    /// bias lands in a stated segment.
    pub open spec fn owns(&self, addr: usize) -> bool {
        self.contains_stated(usize_specs::wrapping_sub(addr, self.bias))
    }
}

impl Library {
    /// Well-formedness of the underlying view.
    pub open spec fn wf(&self) -> bool {
        self@.wf()
    }

    /// Whether the stated address lies in one of this library's segments.
    pub fn contains_stated(&self, addr: usize) -> (r: bool)
        ensures
            r == self@.contains_stated(addr),
    {
        let n = self.segments.len();
        for i in 0..n
            invariant
                n == self.segments@.len(),
                forall|j: int|
                    0 <= j < i ==> !(#[trigger] self.segments@[j]).spec_contains(addr),
        {
            let seg = self.segments[i];
            if seg.stated_virtual_memory_address <= addr && addr
                - seg.stated_virtual_memory_address < seg.len {
                assert(self@.segments[i as int].spec_contains(addr));
                return true;
            }
        }
        false
    }

    /// Whether the runtime address belongs to this module.
    pub fn owns(&self, addr: usize) -> (r: bool)
        ensures
            r == self@.owns(addr),
    {
        self.contains_stated(addr.wrapping_sub(self.bias))
    }
}

/// One record of the load-record chain: the runtime text base and the two
/// names the OS reported for the image.
#[derive(Clone, Debug)]
pub struct LoadRecord {
    /// Runtime address of the image's text.
    pub text_org: u64,
    /// Path bytes of the image file.
    pub filename: Vec<u8>,
    /// Archive member name bytes; empty for a plain object.
    pub member_name: Vec<u8>,
}

/// The mathematical content of a [`LoadRecord`].
pub struct LoadRecordView {
    /// Runtime address of the image's text.
    pub text_org: u64,
    /// Path bytes.
    pub filename: Seq<u8>,
    /// Archive member name bytes.
    pub member_name: Seq<u8>,
}

impl View for LoadRecord {
    type V = LoadRecordView;

    open spec fn view(&self) -> LoadRecordView {
        LoadRecordView {
            text_org: self.text_org,
            filename: self.filename@,
            member_name: self.member_name@,
        }
    }
}

/// True when a whole load record sits at `off`: the fixed header fits and
/// both NUL-terminated names end before the buffer does.
pub open spec fn record_wf_at(s: Seq<u8>, off: int) -> bool {
    &&& 0 <= off
    &&& off + RECORD_NAMES_OFFSET <= s.len()
    &&& find_nul_from(s, off + RECORD_NAMES_OFFSET) < s.len()
    &&& find_nul_from(s, find_nul_from(s, off + RECORD_NAMES_OFFSET) + 1) < s.len()
}

/// The load record at `off`.
pub open spec fn record_at(s: Seq<u8>, off: int) -> LoadRecordView
    recommends
        record_wf_at(s, off),
{
    let f = find_nul_from(s, off + RECORD_NAMES_OFFSET);
    let m = find_nul_from(s, f + 1);
    LoadRecordView {
        text_org: be_u64_at(s, off + RECORD_TEXT_ORG_OFFSET),
        filename: s.subrange(off + RECORD_NAMES_OFFSET, f),
        member_name: s.subrange(f + 1, m),
    }
}

/// The chain of well-formed load records starting at `off`: each record
/// names the offset of the next in its first field; a zero offset ends the
/// chain, and a malformed record or a non-advancing or out-of-bounds next
/// offset truncates it.
pub open spec fn spec_parse_chain(s: Seq<u8>, off: int) -> Seq<LoadRecordView>
    decreases s.len() - off,
    when 0 <= off <= s.len()
{
    if !record_wf_at(s, off) {
        Seq::empty()
    } else {
        let rec = record_at(s, off);
        let next = be_u32_at(s, off) as int;
        if next < RECORD_NAMES_OFFSET || off + next > s.len() {
            seq![rec]
        } else {
            seq![rec] + spec_parse_chain(s, off + next)
        }
    }
}

/// Walk the load-record chain in the captured buffer, collecting every
/// well-formed record and stopping — rather than walking into garbage — at
/// the first malformed one.
pub fn parse_load_records(buf: &[u8]) -> (r: Vec<LoadRecord>)
    ensures
        r@.map_values(|x: LoadRecord| x@) == spec_parse_chain(buf@, 0),
{
    let n = buf.len();
    let mut out: Vec<LoadRecord> = Vec::new();
    let mut off: usize = 0;
    let mut alive: bool = true;
    while alive
        invariant
            off <= n,
            n == buf@.len(),
            alive ==> spec_parse_chain(buf@, 0) =~= out@.map_values(|x: LoadRecord| x@)
                + spec_parse_chain(buf@, off as int),
            !alive ==> spec_parse_chain(buf@, 0) =~= out@.map_values(|x: LoadRecord| x@),
        decreases n - off, (if alive { 1int } else { 0int }),
    {
        let ghost off0 = off as int;
        let ghost prefix = out@.map_values(|x: LoadRecord| x@);
        if n - off < RECORD_NAMES_OFFSET {
            assert(!record_wf_at(buf@, off0));
            alive = false;
        } else {
            let f = find_nul(buf, off + RECORD_NAMES_OFFSET);
            if f >= n {
                assert(!record_wf_at(buf@, off0));
                alive = false;
            } else {
                let m = find_nul(buf, f + 1);
                if m >= n {
                    assert(!record_wf_at(buf@, off0));
                    alive = false;
                } else {
                    assert(record_wf_at(buf@, off0));
                    let text_org = read_be_u64(buf, off + RECORD_TEXT_ORG_OFFSET);
                    let filename = copy_range(buf, off + RECORD_NAMES_OFFSET, f);
                    let member_name = copy_range(buf, f + 1, m);
                    let rec = LoadRecord { text_org, filename, member_name };
                    proof {
                        assert(rec@ == record_at(buf@, off0));
                    }
                    out.push(rec);
                    proof {
                        assert(out@.map_values(|x: LoadRecord| x@) =~= prefix + seq![
                            record_at(buf@, off0),
                        ]);
                    }
                    let next = read_be_u32(buf, off) as usize;
                    if next < RECORD_NAMES_OFFSET || next > n - off {
                        proof {
                            assert(spec_parse_chain(buf@, off0) =~= seq![record_at(buf@, off0)]);
                        }
                        alive = false;
                    } else {
                        proof {
                            assert(spec_parse_chain(buf@, off0) =~= seq![record_at(buf@, off0)]
                                + spec_parse_chain(buf@, off0 + next as int));
                        }
                        off = off + next;
                    }
                }
            }
        }
    }
    out
}

/// Build one inventory entry from a load record's fields and its parsed
/// text segment.  The bias is the wrapped difference between where the
/// text actually sits (runtime base plus the text's file offset) and the
/// address the headers state.
pub fn build_library(
    name: Vec<u8>,
    member_name: Vec<u8>,
    text_org: usize,
    image: ImageInfo,
) -> (r: Library)
    requires
        image.wf(),
    ensures
        r.wf(),
        r@.name == name@,
        r@.member_name == member_name@,
        r@.segments.len() == 1,
        r@.segments[0].stated_virtual_memory_address == image.base,
        r@.segments[0].len == image.size,
        r@.bias == usize_specs::wrapping_sub(
            usize_specs::wrapping_add(text_org, image.offset),
            image.base,
        ),
{
    let bias = text_org.wrapping_add(image.offset).wrapping_sub(image.base);
    let mut segments: Vec<LibrarySegment> = Vec::new();
    segments.push(
        LibrarySegment { stated_virtual_memory_address: image.base, len: image.size },
    );
    Library { name, member_name, segments, bias }
}

/// The inventory entries as mathematical values.
pub open spec fn library_views(s: Seq<Library>) -> Seq<LibraryView> {
    s.map_values(|x: Library| x@)
}

/// The load records as mathematical values.
pub open spec fn record_views(s: Seq<LoadRecord>) -> Seq<LoadRecordView> {
    s.map_values(|x: LoadRecord| x@)
}

/// The optional true executable path as a mathematical value.
pub open spec fn exe_name_view(exe_name: Option<Vec<u8>>) -> Option<Seq<u8>> {
    match exe_name {
        Some(v) => Some(v@),
        None => None,
    }
}

/// The name an inventory entry gets: a record whose text base is the
/// well-known executable image base is the main executable, whose
/// loader-provided name is replaced by the true executable path when the
/// caller knows it.
pub open spec fn spec_library_name(rec: LoadRecordView, exe_name: Option<Seq<u8>>) -> Seq<u8> {
    if rec.text_org == EXE_IMAGE_BASE && exe_name is Some {
        exe_name->Some_0
    } else {
        rec.filename
    }
}

/// The inventory built from records `i..` and their parsed images: one
/// entry per record whose image parsed to a representable text segment,
/// with the single text segment as its stated range and the bias computed
/// from the runtime text base, the text's file offset and its stated base.
pub open spec fn spec_build_inventory(
    recs: Seq<LoadRecordView>,
    images: Seq<Option<ImageInfo>>,
    exe_name: Option<Seq<u8>>,
    i: int,
) -> Seq<LibraryView>
    decreases recs.len() - i,
    when 0 <= i
{
    if i >= recs.len() || i >= images.len() {
        Seq::empty()
    } else {
        let rest = spec_build_inventory(recs, images, exe_name, i + 1);
        match images[i] {
            Some(img) => {
                if img.wf() && recs[i].text_org <= usize::MAX {
                    seq![
                        LibraryView {
                            name: spec_library_name(recs[i], exe_name),
                            member_name: recs[i].member_name,
                            segments: seq![
                                LibrarySegment {
                                    stated_virtual_memory_address: img.base,
                                    len: img.size,
                                },
                            ],
                            bias: usize_specs::wrapping_sub(
                                usize_specs::wrapping_add(recs[i].text_org as usize, img.offset),
                                img.base,
                            ),
                        },
                    ] + rest
                } else {
                    rest
                }
            },
            None => rest,
        }
    }
}

/// Build the inventory from parsed load records and, for each, the parse
/// of its image's container — the caller reads and parses each named
/// container and passes the results in record order.  Records without a
/// usable image are skipped; every entry built is well-formed.
pub fn build_inventory(
    records: &Vec<LoadRecord>,
    images: &Vec<Option<ImageInfo>>,
    exe_name: &Option<Vec<u8>>,
) -> (r: Vec<Library>)
    ensures
        library_views(r@) == spec_build_inventory(
            record_views(records@),
            images@,
            exe_name_view(*exe_name),
            0,
        ),
        forall|i: int| 0 <= i < r@.len() ==> (#[trigger] r@[i]).wf(),
{
    let ghost recv = record_views(records@);
    let ghost imgv = images@;
    let ghost exev = exe_name_view(*exe_name);
    let nrecs = records.len();
    let nimgs = images.len();
    let bound = if nrecs < nimgs {
        nrecs
    } else {
        nimgs
    };
    let mut out: Vec<Library> = Vec::new();
    let mut i: usize = 0;
    while i < bound
        invariant
            i <= bound,
            bound == (if nrecs < nimgs {
                nrecs as int
            } else {
                nimgs as int
            }),
            nrecs == records@.len(),
            nimgs == images@.len(),
            recv == record_views(records@),
            imgv == images@,
            exev == exe_name_view(*exe_name),
            spec_build_inventory(recv, imgv, exev, 0) =~= library_views(out@)
                + spec_build_inventory(recv, imgv, exev, i as int),
            forall|j: int| 0 <= j < out@.len() ==> (#[trigger] out@[j]).wf(),
        decreases bound - i,
    {
        let ghost gi = i as int;
        let ghost prefix = library_views(out@);
        match &images[i] {
            None => {},
            Some(img) => {
                let rec = &records[i];
                if img.base <= usize::MAX - img.size && rec.text_org <= usize::MAX as u64 {
                    let name: Vec<u8> = if rec.text_org == EXE_IMAGE_BASE {
                        match exe_name {
                            Some(exe) => copy_range(exe.as_slice(), 0, exe.len()),
                            None => copy_range(rec.filename.as_slice(), 0, rec.filename.len()),
                        }
                    } else {
                        copy_range(rec.filename.as_slice(), 0, rec.filename.len())
                    };
                    let member_name = copy_range(
                        rec.member_name.as_slice(),
                        0,
                        rec.member_name.len(),
                    );
                    proof {
                        assert(name@ == spec_library_name(recv[gi], exev));
                        assert(member_name@ == recv[gi].member_name);
                    }
                    let lib = build_library(name, member_name, rec.text_org as usize, *img);
                    proof {
                        assert(lib@.segments =~= seq![
                            LibrarySegment {
                                stated_virtual_memory_address: img.base,
                                len: img.size,
                            },
                        ]);
                        assert(lib@ == LibraryView {
                            name: spec_library_name(recv[gi], exev),
                            member_name: recv[gi].member_name,
                            segments: seq![
                                LibrarySegment {
                                    stated_virtual_memory_address: img.base,
                                    len: img.size,
                                },
                            ],
                            bias: usize_specs::wrapping_sub(
                                usize_specs::wrapping_add(recv[gi].text_org as usize, img.offset),
                                img.base,
                            ),
                        });
                    }
                    out.push(lib);
                    proof {
                        assert(library_views(out@) =~= prefix + seq![lib@]);
                    }
                }
            },
        }
        i = i + 1;
    }
    proof {
        assert(spec_build_inventory(recv, imgv, exev, bound as int) =~= Seq::<LibraryView>::empty());
    }
    out
}

/// Segments of a well-formed library are non-overlapping: a stated address
/// contained in one segment is contained in no other.
pub proof fn lemma_segments_non_overlapping(lib: LibraryView, addr: usize, i: int, j: int)
    requires
        lib.wf(),
        0 <= i < lib.segments.len(),
        0 <= j < lib.segments.len(),
        i != j,
        lib.segments[i].spec_contains(addr),
    ensures
        !lib.segments[j].spec_contains(addr),
{
    if i < j {
        assert(segments_disjoint(lib.segments[i], lib.segments[j]));
    } else {
        assert(segments_disjoint(lib.segments[j], lib.segments[i]));
    }
}

/// The bias round trip: relocating a stated segment address by the bias
/// and unbiasing the resulting runtime address gives the stated address
/// back, inside the segment it came from — so the library owns every
/// runtime address of its relocated segments.
pub proof fn lemma_bias_round_trip(lib: LibraryView, i: int, off: usize)
    requires
        lib.wf(),
        0 <= i < lib.segments.len(),
        off < lib.segments[i].len,
    ensures
        ({
            let stated = (lib.segments[i].stated_virtual_memory_address + off) as usize;
            let runtime = usize_specs::wrapping_add(stated, lib.bias);
            &&& usize_specs::wrapping_sub(runtime, lib.bias) == stated
            &&& lib.segments[i].spec_contains(stated)
            &&& lib.owns(runtime)
        }),
{
    let stated = (lib.segments[i].stated_virtual_memory_address + off) as usize;
    let runtime = usize_specs::wrapping_add(stated, lib.bias);
    assert(usize_specs::wrapping_sub(runtime, lib.bias) == stated);
    assert(lib.segments[i].spec_contains(stated));
}

} // verus!
