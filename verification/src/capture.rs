//! Owned backtrace snapshots.
//!
//! A [`Backtrace`] is a fully materialized capture: the frames of one walk,
//! each paired with its resolved symbols, deep-copied so the value outlives
//! the snapshot and the modules it came from.  Capturing composes the
//! unwinder and the symbolizer; the contracts carry both parts exactly:
//! the frames are the walk of the snapshot, and each frame's symbols are
//! its resolution against the inventory.
//!
//! Rendering produces the textual listing as bytes, one line per frame:
//! two spaces, the frame index, `: 0x`, the instruction pointer in hex,
//! ` - ` and the symbol name (`???` when none resolved), and — in the full
//! style — the lookup address in parentheses.

use crate::symbolize::resolves_to;
use crate::symbolize::symbol_views;
use crate::symbolize::Symbol;
use crate::symbolize::SymbolView;
use crate::symbolize::Symbolizer;
use crate::trace::spec_walk;
use crate::trace::trace_from;
use crate::trace::Frame;
use crate::trace::UnwindContext;
use vstd::prelude::*;

verus! {

/// The rendering style: with or without raw lookup addresses.
#[derive(Clone, Copy, Debug, PartialEq, Eq, Structural)]
pub enum PrintFmt {
    /// One line per frame, names only.
    Short,
    /// One line per frame, names and raw lookup addresses.
    Full,
}

/// One captured frame with its resolved symbols.
pub struct BacktraceFrame {
    /// The raw frame.
    pub frame: Frame,
    /// The symbols resolved for the frame's lookup address, deep-copied.
    pub symbols: Vec<Symbol>,
}

/// The mathematical content of a [`BacktraceFrame`].
pub struct BacktraceFrameView {
    /// The raw frame.
    pub frame: Frame,
    /// The resolved symbols.
    pub symbols: Seq<SymbolView>,
}

impl View for BacktraceFrame {
    type V = BacktraceFrameView;

    open spec fn view(&self) -> BacktraceFrameView {
        BacktraceFrameView { frame: self.frame, symbols: symbol_views(self.symbols@) }
    }
}

/// The captured-frame views of a frame vector.
pub open spec fn bt_frame_views(s: Seq<BacktraceFrame>) -> Seq<BacktraceFrameView> {
    s.map_values(|x: BacktraceFrame| x@)
}

/// An owned, self-contained backtrace snapshot.
pub struct Backtrace {
    /// The captured frames, innermost first.
    pub frames: Vec<BacktraceFrame>,
}

impl View for Backtrace {
    type V = Seq<BacktraceFrameView>;

    open spec fn view(&self) -> Seq<BacktraceFrameView> {
        bt_frame_views(self.frames@)
    }
}

/// Capture an owned backtrace: walk the stack snapshot from the context,
/// resolving every frame's lookup address on the way.  The frames are
/// exactly the walk, in order, and each frame's symbols are exactly its
/// resolution against the symbolizer's inventory and container bytes.
pub fn capture(
    stack: &[usize],
    ctx: UnwindContext,
    max_frames: usize,
    symbolizer: &mut Symbolizer,
) -> (r: Backtrace)
    requires
        old(symbolizer).wf(),
    ensures
        final(symbolizer).wf(),
        final(symbolizer).libraries@ == old(symbolizer).libraries@,
        final(symbolizer).images@ == old(symbolizer).images@,
        ({
            let walk = spec_walk(
                stack@,
                ctx.instruction_pointer,
                ctx.instruction_pointer,
                ctx.stack_pointer,
                ctx.frame_pointer as int,
                max_frames as int,
            );
            &&& r@.len() == walk.len()
            &&& forall|i: int|
                0 <= i < walk.len() ==> (#[trigger] r@[i]).frame == walk[i] && resolves_to(
                    old(symbolizer).libs_view(),
                    old(symbolizer).images_view(),
                    walk[i].symbol_address,
                    r@[i].symbols,
                )
        }),
{
    let ghost walk = spec_walk(
        stack@,
        ctx.instruction_pointer,
        ctx.instruction_pointer,
        ctx.stack_pointer,
        ctx.frame_pointer as int,
        max_frames as int,
    );
    let raw = trace_from(stack, ctx, max_frames);
    let n = raw.len();
    let mut frames: Vec<BacktraceFrame> = Vec::new();
    let mut i: usize = 0;
    while i < n
        invariant
            i <= n,
            n == raw@.len(),
            raw@ == walk,
            old(symbolizer).wf(),
            symbolizer.wf(),
            symbolizer.libraries@ == old(symbolizer).libraries@,
            symbolizer.images@ == old(symbolizer).images@,
            frames@.len() == i,
            forall|j: int|
                0 <= j < i ==> (#[trigger] bt_frame_views(frames@)[j]).frame == walk[j]
                    && resolves_to(
                    old(symbolizer).libs_view(),
                    old(symbolizer).images_view(),
                    walk[j].symbol_address,
                    bt_frame_views(frames@)[j].symbols,
                ),
        decreases n - i,
    {
        let frame = raw[i];
        proof {
            assert(symbolizer.libs_view() == old(symbolizer).libs_view());
            assert(symbolizer.images_view() == old(symbolizer).images_view());
        }
        let symbols = symbolizer.resolve(frame.symbol_address);
        let ghost symsv = symbol_views(symbols@);
        let ghost pre = frames@;
        frames.push(BacktraceFrame { frame, symbols });
        proof {
            assert(frames@.len() == i + 1);
            assert(frames@[i as int].frame == walk[i as int]);
            assert(bt_frame_views(frames@)[i as int].frame == walk[i as int]);
            assert(bt_frame_views(frames@)[i as int].symbols == symsv);
            assert(forall|j: int| 0 <= j < i ==> frames@[j] == pre[j]);
            assert(forall|j: int|
                0 <= j < i ==> #[trigger] bt_frame_views(frames@)[j] == bt_frame_views(pre)[j]);
        }
        i = i + 1;
    }
    Backtrace { frames }
}

/// The decimal digits of a non-negative number, most significant first.
pub open spec fn spec_dec_bytes(v: int) -> Seq<u8>
    decreases v,
    when v >= 0
{
    if v < 10 {
        seq![(0x30 + v) as u8]
    } else {
        spec_dec_bytes(v / 10) + seq![(0x30 + v % 10) as u8]
    }
}

/// One lowercase hexadecimal digit.
pub open spec fn spec_hex_digit(d: int) -> u8
    recommends
        0 <= d < 16,
{
    if d < 10 {
        (0x30 + d) as u8
    } else {
        (0x57 + d) as u8
    }
}

/// The hexadecimal digits of a non-negative number, most significant
/// first.
pub open spec fn spec_hex_bytes(v: int) -> Seq<u8>
    decreases v,
    when v >= 0
{
    if v < 16 {
        seq![spec_hex_digit(v)]
    } else {
        spec_hex_bytes(v / 16) + seq![spec_hex_digit(v % 16)]
    }
}

/// The symbol part of a frame line: ` - ` and the resolved name, or ` - `
/// and `???` when no symbol or no name was resolved.
pub open spec fn spec_render_symbol_part(syms: Seq<SymbolView>) -> Seq<u8> {
    if syms.len() == 0 {
        seq![0x20u8, 0x2du8, 0x20u8, 0x3fu8, 0x3fu8, 0x3fu8]
    } else {
        match syms[0].name {
            Some(nm) => seq![0x20u8, 0x2du8, 0x20u8] + nm,
            None => seq![0x20u8, 0x2du8, 0x20u8, 0x3fu8, 0x3fu8, 0x3fu8],
        }
    }
}

/// One rendered frame line.
pub open spec fn spec_render_frame(idx: int, f: BacktraceFrameView, fmt: PrintFmt) -> Seq<u8> {
    seq![0x20u8, 0x20u8] + spec_dec_bytes(idx) + seq![0x3au8, 0x20u8, 0x30u8, 0x78u8]
        + spec_hex_bytes(f.frame.instruction_pointer as int) + spec_render_symbol_part(f.symbols)
        + (if fmt is Full {
        seq![0x20u8, 0x28u8, 0x30u8, 0x78u8] + spec_hex_bytes(f.frame.symbol_address as int)
            + seq![0x29u8]
    } else {
        Seq::<u8>::empty()
    }) + seq![0x0au8]
}

/// The rendered listing of the frames from index `i` on.
pub open spec fn spec_render(frames: Seq<BacktraceFrameView>, fmt: PrintFmt, i: int) -> Seq<u8>
    decreases frames.len() - i,
    when 0 <= i
{
    if i >= frames.len() {
        Seq::empty()
    } else {
        spec_render_frame(i, frames[i], fmt) + spec_render(frames, fmt, i + 1)
    }
}

/// Append the decimal digits of `v`.
fn push_dec(out: &mut Vec<u8>, v: usize)
    ensures
        final(out)@ == old(out)@ + spec_dec_bytes(v as int),
    decreases v,
{
    if v < 10 {
        out.push(0x30 + v as u8);
        proof {
            assert(out@ =~= old(out)@ + spec_dec_bytes(v as int));
        }
    } else {
        push_dec(out, v / 10);
        out.push(0x30 + (v % 10) as u8);
        proof {
            assert(out@ =~= old(out)@ + spec_dec_bytes(v as int));
        }
    }
}

/// Append the hexadecimal digits of `v`.
fn push_hex(out: &mut Vec<u8>, v: usize)
    ensures
        final(out)@ == old(out)@ + spec_hex_bytes(v as int),
    decreases v,
{
    if v < 16 {
        let d = if v < 10 {
            0x30 + v as u8
        } else {
            0x57 + v as u8
        };
        out.push(d);
        proof {
            assert(out@ =~= old(out)@ + spec_hex_bytes(v as int));
        }
    } else {
        push_hex(out, v / 16);
        let r = v % 16;
        let d = if r < 10 {
            0x30 + r as u8
        } else {
            0x57 + r as u8
        };
        out.push(d);
        proof {
            assert(out@ =~= old(out)@ + spec_hex_bytes(v as int));
        }
    }
}

impl Backtrace {
    /// How many frames were captured.
    pub fn frame_count(&self) -> (r: usize)
        ensures
            r == self@.len(),
    {
        self.frames.len()
    }

    /// Render the listing, one line per frame.
    #[verifier::rlimit(60)]
    pub fn render(&self, fmt: PrintFmt) -> (r: Vec<u8>)
        ensures
            r@ == spec_render(self@, fmt, 0),
    {
        let n = self.frames.len();
        let mut out: Vec<u8> = Vec::new();
        let mut i: usize = 0;
        while i < n
            invariant
                i <= n,
                n == self.frames@.len(),
                spec_render(self@, fmt, 0) =~= out@ + spec_render(self@, fmt, i as int),
            decreases n - i,
        {
            let ghost pre = out@;
            let ghost fv = self@[i as int];
            out.push(0x20);
            out.push(0x20);
            push_dec(&mut out, i);
            out.push(0x3a);
            out.push(0x20);
            out.push(0x30);
            out.push(0x78);
            push_hex(&mut out, self.frames[i].frame.instruction_pointer);
            let f = &self.frames[i];
            if f.symbols.len() == 0 {
                out.push(0x20);
                out.push(0x2d);
                out.push(0x20);
                out.push(0x3f);
                out.push(0x3f);
                out.push(0x3f);
            } else {
                match &f.symbols[0].name {
                    Some(nm) => {
                        out.push(0x20);
                        out.push(0x2d);
                        out.push(0x20);
                        let ghost before = out@;
                        out.extend_from_slice(nm.as_slice());
                        proof {
                            assert(out@ =~= before + nm@);
                        }
                    },
                    None => {
                        out.push(0x20);
                        out.push(0x2d);
                        out.push(0x20);
                        out.push(0x3f);
                        out.push(0x3f);
                        out.push(0x3f);
                    },
                }
            }
            proof {
                assert(symbol_views(f.symbols@) == fv.symbols);
                if fv.symbols.len() != 0 {
                    assert(fv.symbols[0] == f.symbols@[0]@);
                }
                assert(out@ =~= pre + seq![0x20u8, 0x20u8] + spec_dec_bytes(i as int) + seq![
                    0x3au8,
                    0x20u8,
                    0x30u8,
                    0x78u8,
                ] + spec_hex_bytes(fv.frame.instruction_pointer as int) + spec_render_symbol_part(
                    fv.symbols,
                ));
            }
            match fmt {
                PrintFmt::Full => {
                    out.push(0x20);
                    out.push(0x28);
                    out.push(0x30);
                    out.push(0x78);
                    push_hex(&mut out, self.frames[i].frame.symbol_address);
                    out.push(0x29);
                },
                PrintFmt::Short => {},
            }
            out.push(0x0a);
            proof {
                assert(out@ =~= pre + spec_render_frame(i as int, fv, fmt));
                assert(spec_render(self@, fmt, i as int) == spec_render_frame(i as int, fv, fmt)
                    + spec_render(self@, fmt, i + 1));
            }
            i = i + 1;
        }
        out
    }
}

} // verus!
