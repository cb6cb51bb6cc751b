use backtrace::capture::capture;
use backtrace::capture::PrintFmt;
use backtrace::inventory::build_inventory;
use backtrace::inventory::grow_query_buffer;
use backtrace::inventory::next_query_attempt;
use backtrace::inventory::QueryFailure;
use backtrace::inventory::INITIAL_QUERY_BUFFER_LEN;
use backtrace::inventory::MAX_QUERY_BUFFER_LEN;
use backtrace::inventory::build_library;
use backtrace::inventory::parse_load_records;
use backtrace::object::parse_object;
use backtrace::symbolize::Symbolizer;
use backtrace::trace::trace_from;
use backtrace::trace::UnwindContext;

fn push_be16(out: &mut Vec<u8>, v: u16) {
    out.extend_from_slice(&v.to_be_bytes());
}

fn push_be32(out: &mut Vec<u8>, v: u32) {
    out.extend_from_slice(&v.to_be_bytes());
}

fn push_be64(out: &mut Vec<u8>, v: u64) {
    out.extend_from_slice(&v.to_be_bytes());
}

/// Build a minimal container image: one text section and the given
/// symbols, each placed in the text section.
fn build_image(vaddr: u64, size: u64, symbols: &[(u64, &str)]) -> Vec<u8> {
    let nsyms = symbols.len() as u32;
    let symptr: u64 = 24 + 72;
    let mut out = Vec::new();
    // file header
    push_be16(&mut out, 0x01F7);
    push_be16(&mut out, 1); // one section
    push_be32(&mut out, 0); // timestamp
    push_be64(&mut out, symptr);
    push_be32(&mut out, nsyms);
    push_be16(&mut out, 0); // no optional header
    push_be16(&mut out, 0); // flags
    assert_eq!(out.len(), 24);
    // section header: the text section
    out.extend_from_slice(b".text\0\0\0");
    push_be64(&mut out, vaddr); // physical address
    push_be64(&mut out, vaddr); // virtual address
    push_be64(&mut out, size);
    push_be64(&mut out, symptr); // file offset of the section
    push_be64(&mut out, 0); // relocations
    push_be64(&mut out, 0); // line numbers
    push_be32(&mut out, 0); // relocation count
    push_be32(&mut out, 0); // line-number count
    push_be32(&mut out, 0x20); // flags: text
    push_be32(&mut out, 0); // padding
    assert_eq!(out.len() as u64, symptr);
    // symbol table
    let mut name_off: u32 = 4;
    for (addr, name) in symbols {
        push_be64(&mut out, *addr);
        push_be32(&mut out, name_off);
        push_be16(&mut out, 1); // section number of the text section
        push_be16(&mut out, 0); // type
        out.push(2); // storage class
        out.push(0); // no auxiliary entries
        name_off += name.len() as u32 + 1;
    }
    // string table: length word, then the names
    push_be32(&mut out, name_off);
    for (_, name) in symbols {
        out.extend_from_slice(name.as_bytes());
        out.push(0);
    }
    out
}

#[test]
fn object_reader_finds_text_and_symbols() {
    let image = build_image(0x1000, 0x300, &[(0x1000, "h"), (0x1100, "g"), (0x1200, "f")]);
    let obj = parse_object(&image).expect("the image parses");
    assert_eq!(obj.image.base, 0x1000);
    assert_eq!(obj.image.size, 0x300);
    assert_eq!(obj.image.offset, 96);
    assert_eq!(obj.symbols.len(), 3);
    assert_eq!(obj.symbols[0].name, b"h".to_vec());
    assert_eq!(obj.symbols[1].address, 0x1100);
}

#[test]
fn object_reader_rejects_foreign_magic() {
    let mut image = build_image(0x1000, 0x300, &[(0x1000, "h")]);
    image[0] = 0x7f;
    image[1] = 0x45;
    assert!(parse_object(&image).is_none());
}

#[test]
fn object_reader_tolerates_truncation() {
    let image = build_image(0x1000, 0x300, &[(0x1000, "h")]);
    // cut into the file header: the parse fails, it does not crash
    assert!(parse_object(&image[0..10]).is_none());
}

/// The walk starts at the context and ascends the chain.
#[test]
fn trace_first_frame_is_context() {
    let stack: Vec<usize> = vec![2, 0x5010, 4, 0x5020, 6, 0];
    let ctx = UnwindContext { instruction_pointer: 0x5000, stack_pointer: 0, frame_pointer: 0 };
    let frames = trace_from(&stack, ctx, 64);
    assert_eq!(frames[0].instruction_pointer, 0x5000);
    assert_eq!(frames[0].symbol_address, 0x5000);
    assert_eq!(frames.len(), 3);
    assert_eq!(frames[1].instruction_pointer, 0x5010);
    assert_eq!(frames[1].symbol_address, 0x500f);
    assert_eq!(frames[2].instruction_pointer, 0x5020);
}

/// A descending (corrupt) chain ends the walk instead of looping.
#[test]
fn trace_stops_on_cyclic_chain() {
    let stack: Vec<usize> = vec![0, 0x5010];
    let ctx = UnwindContext { instruction_pointer: 0x5000, stack_pointer: 0, frame_pointer: 0 };
    let frames = trace_from(&stack, ctx, 64);
    assert_eq!(frames.len(), 1);
}

/// The frame budget bounds the walk.
#[test]
fn trace_respects_max_frames() {
    let stack: Vec<usize> = vec![2, 0x5010, 4, 0x5020, 6, 0];
    let ctx = UnwindContext { instruction_pointer: 0x5000, stack_pointer: 0, frame_pointer: 0 };
    let frames = trace_from(&stack, ctx, 2);
    assert_eq!(frames.len(), 2);
}

fn three_level_symbolizer() -> (Symbolizer, usize) {
    let image = build_image(0x1000, 0x300, &[(0x1000, "h"), (0x1100, "g"), (0x1200, "f")]);
    let info = parse_object(&image).unwrap().image;
    let text_org: usize = 0x50_0000;
    let lib = build_library(b"/opt/app/main".to_vec(), Vec::new(), text_org, info);
    let bias = lib.bias;
    (Symbolizer::new(vec![lib], vec![image]), bias)
}

/// An address with no owning module resolves to nothing: the callback
/// side sees zero symbols, no error and no fabricated name.
#[test]
fn resolve_unknown_address_yields_nothing() {
    let (mut symbolizer, _bias) = three_level_symbolizer();
    let out = symbolizer.resolve(0x10);
    assert_eq!(out.len(), 0);
}

/// Clearing the symbol cache never changes what resolution returns.
#[test]
fn clear_symbol_cache_is_idempotent() {
    let (mut symbolizer, bias) = three_level_symbolizer();
    let addr = bias.wrapping_add(0x1105);
    let first = symbolizer.resolve(addr);
    symbolizer.clear_symbol_cache();
    let second = symbolizer.resolve(addr);
    assert_eq!(first.len(), 1);
    assert_eq!(second.len(), 1);
    assert_eq!(first[0].name, second[0].name);
    assert_eq!(first[0].address_range, second[0].address_range);
    assert_eq!(first[0].name, Some(b"g".to_vec()));
}

/// The bias round trip on a concrete library: relocating a stated address
/// and unbiasing it lands back in the recorded segment.
#[test]
fn bias_round_trip_on_known_symbol() {
    let (mut symbolizer, bias) = three_level_symbolizer();
    let stated: usize = 0x1200;
    let runtime = stated.wrapping_add(bias);
    let unbiased = runtime.wrapping_sub(bias);
    assert_eq!(unbiased, stated);
    assert!(symbolizer.libraries[0].contains_stated(unbiased));
    let out = symbolizer.resolve(runtime);
    assert_eq!(out[0].name, Some(b"f".to_vec()));
}

/// End to end: a three-level call chain captures as at least three frames
/// whose resolved names come innermost first.
#[test]
fn capture_three_level_chain() {
    let (mut symbolizer, bias) = three_level_symbolizer();
    let h_ip = bias.wrapping_add(0x1010);
    let g_ret = bias.wrapping_add(0x1110);
    let f_ret = bias.wrapping_add(0x1210);
    let stack: Vec<usize> = vec![2, g_ret, 4, f_ret, 6, 0];
    let ctx = UnwindContext { instruction_pointer: h_ip, stack_pointer: 0, frame_pointer: 0 };
    let bt = capture(&stack, ctx, 64, &mut symbolizer);
    assert!(bt.frame_count() >= 3);
    let names: Vec<Vec<u8>> = bt
        .frames
        .iter()
        .map(|f| f.symbols[0].name.clone().unwrap())
        .collect();
    assert_eq!(names[0], b"h".to_vec());
    assert_eq!(names[1], b"g".to_vec());
    assert_eq!(names[2], b"f".to_vec());
    let text = bt.render(PrintFmt::Short);
    let listing = String::from_utf8(text).unwrap();
    assert!(listing.contains(" - h\n"));
    assert!(listing.contains(" - g\n"));
    assert!(listing.contains(" - f\n"));
    let full = bt.render(PrintFmt::Full);
    assert!(full.len() > bt.render(PrintFmt::Short).len());
}

fn push_record(out: &mut Vec<u8>, text_org: u64, filename: &[u8], member: &[u8], last: bool) {
    let names = filename.len() + 1 + member.len() + 1;
    let next = if last { 0 } else { (40 + names) as u32 };
    push_be32(out, next);
    push_be32(out, 0); // descriptor
    push_be64(out, text_org);
    out.extend_from_slice(&[0u8; 24]); // sizes and data origin
    out.extend_from_slice(filename);
    out.push(0);
    out.extend_from_slice(member);
    out.push(0);
}

/// End to end: a freshly loaded module shows up in the next inventory,
/// with a non-zero segment and a bias distinct from the executable's.
#[test]
fn inventory_sees_newly_loaded_module() {
    let mut buf = Vec::new();
    push_record(&mut buf, 0x1_0000_0000, b"a.out", b"", false);
    push_record(&mut buf, 0x7000_0000, b"/opt/lib/plugin.so", b"", true);
    let records = parse_load_records(&buf);
    assert_eq!(records.len(), 2);
    assert_eq!(records[1].filename, b"/opt/lib/plugin.so".to_vec());

    let exe_image = build_image(0x1000, 0x200, &[(0x1000, "main")]);
    let plugin_image = build_image(0x2000, 0x400, &[(0x2000, "plugin_entry")]);
    let images = vec![
        parse_object(&exe_image).map(|o| o.image),
        parse_object(&plugin_image).map(|o| o.image),
    ];
    let exe_name = Some(b"/proc/1234/object/a.out".to_vec());
    let libs = build_inventory(&records, &images, &exe_name);
    assert_eq!(libs.len(), 2);
    // the executable record takes the true executable path
    assert_eq!(libs[0].name, b"/proc/1234/object/a.out".to_vec());
    assert_eq!(libs[1].name, b"/opt/lib/plugin.so".to_vec());
    assert!(libs[1].segments[0].len != 0);
    assert_ne!(libs[0].bias, libs[1].bias);
}

/// A chain whose next offset runs past the buffer stops at the damage.
#[test]
fn inventory_truncates_malformed_chain() {
    let mut buf = Vec::new();
    push_record(&mut buf, 0x7000_0000, b"lib.so", b"", false);
    // the second record claims a next offset far beyond the buffer
    let base = buf.len();
    push_record(&mut buf, 0x7100_0000, b"other.so", b"", true);
    buf[base] = 0xff;
    buf[base + 1] = 0xff;
    buf[base + 2] = 0xff;
    buf[base + 3] = 0xff;
    let records = parse_load_records(&buf);
    assert_eq!(records.len(), 2);
    assert_eq!(records[0].filename, b"lib.so".to_vec());
}

/// Archive members keep their member name.
#[test]
fn inventory_keeps_member_names() {
    let mut buf = Vec::new();
    push_record(&mut buf, 0x7000_0000, b"/usr/lib/libc.a", b"shr_64.o", true);
    let records = parse_load_records(&buf);
    assert_eq!(records.len(), 1);
    assert_eq!(records[0].member_name, b"shr_64.o".to_vec());
}

/// The query buffer doubles on an insufficient-buffer failure and gives
/// up at the ceiling.
#[test]
fn query_buffer_growth_is_bounded() {
    assert_eq!(grow_query_buffer(INITIAL_QUERY_BUFFER_LEN), Some(2 * INITIAL_QUERY_BUFFER_LEN));
    let mut len = INITIAL_QUERY_BUFFER_LEN;
    let mut steps = 0;
    while let Some(next) = grow_query_buffer(len) {
        assert!(next > len);
        assert!(next <= MAX_QUERY_BUFFER_LEN);
        len = next;
        steps += 1;
        assert!(steps < 64);
    }
    assert_eq!(len, MAX_QUERY_BUFFER_LEN);
    assert_eq!(grow_query_buffer(MAX_QUERY_BUFFER_LEN), None);
}

/// Only the insufficient-buffer failure is retried; anything else gives
/// up at once.
#[test]
fn retry_only_on_insufficient_buffer() {
    assert_eq!(next_query_attempt(INITIAL_QUERY_BUFFER_LEN, QueryFailure::Other), None);
    let grown = next_query_attempt(INITIAL_QUERY_BUFFER_LEN, QueryFailure::BufferTooSmall);
    assert_eq!(grown, Some(2 * INITIAL_QUERY_BUFFER_LEN));
    assert_eq!(next_query_attempt(MAX_QUERY_BUFFER_LEN, QueryFailure::BufferTooSmall), None);
}
