//! The unwinder: walking a captured stack snapshot frame by frame.
//!
//! Unwinding never chases live memory here.  The caller captures the stack
//! once, as an array of machine words, together with the starting context —
//! the arena style: every step indexes into the snapshot with bounds checks.
//! A frame record inside the snapshot holds, at the frame-pointer index, the
//! caller's frame-pointer index followed by the return address.
//!
//! The walk stops at the first of: the frame budget is exhausted; the
//! frame-pointer index leaves the snapshot; a zero return address marks the
//! top of the stack; or the chain fails to ascend — frame pointers must
//! strictly increase, so a cyclic or descending (corrupt) chain ends the
//! trace instead of looping or walking into garbage.  A truncated trace is
//! the failure mode; frames are never guessed.

use vstd::prelude::*;

verus! {

/// One stack activation record captured during unwinding.
#[derive(Clone, Copy, Debug, PartialEq, Eq, Structural)]
pub struct Frame {
    /// Raw return or current address.
    pub instruction_pointer: usize,
    /// The frame's stack pointer at capture time; in the snapshot model,
    /// the frame's index into the captured words.
    pub stack_pointer: usize,
    /// The address to use for symbol lookup: the instruction pointer for
    /// the innermost frame, the return address minus one for the callers,
    /// so that the lookup lands inside the call instruction.
    pub symbol_address: usize,
    /// The load base of the owning module when the capturer knew it
    /// without an inventory scan.
    pub module_base_address: Option<usize>,
}

/// The starting context of a walk: where execution stood when the snapshot
/// was captured.
#[derive(Clone, Copy, Debug)]
pub struct UnwindContext {
    /// The instruction pointer at capture time.
    pub instruction_pointer: usize,
    /// The stack pointer at capture time.
    pub stack_pointer: usize,
    /// The index of the innermost frame record within the snapshot.
    pub frame_pointer: usize,
}

/// The frames that walking the snapshot yields, starting from the given
/// instruction pointer, symbol address, stack pointer and frame-pointer
/// index, with at most `max` frames.
pub open spec fn spec_walk(
    stack: Seq<usize>,
    ip: usize,
    symaddr: usize,
    sp: usize,
    fp: int,
    max: int,
) -> Seq<Frame>
    decreases max,
    when max >= 0
{
    if max <= 0 {
        Seq::empty()
    } else {
        let frame = Frame {
            instruction_pointer: ip,
            stack_pointer: sp,
            symbol_address: symaddr,
            module_base_address: None,
        };
        if !(0 <= fp && fp + 1 < stack.len()) {
            seq![frame]
        } else {
            let next_fp = stack[fp] as int;
            let ret = stack[fp + 1];
            if ret == 0 || next_fp <= fp {
                seq![frame]
            } else {
                seq![frame] + spec_walk(
                    stack,
                    ret,
                    (ret - 1) as usize,
                    stack[fp],
                    next_fp,
                    max - 1,
                )
            }
        }
    }
}

/// A walk never yields more than `max` frames.
pub proof fn lemma_spec_walk_len(
    stack: Seq<usize>,
    ip: usize,
    symaddr: usize,
    sp: usize,
    fp: int,
    max: int,
)
    requires
        max >= 0,
    ensures
        spec_walk(stack, ip, symaddr, sp, fp, max).len() <= max,
    decreases max,
{
    if max > 0 && 0 <= fp && fp + 1 < stack.len() {
        let next_fp = stack[fp] as int;
        let ret = stack[fp + 1];
        if ret != 0 && next_fp > fp {
            lemma_spec_walk_len(stack, ret, (ret - 1) as usize, stack[fp], next_fp, max - 1);
        }
    }
}

/// Walk the captured stack from the given context, yielding at most
/// `max_frames` frames.  The walk is exactly [`spec_walk`]; in particular,
/// whenever any frame budget is given, the first frame is the starting
/// context itself.
pub fn trace_from(stack: &[usize], ctx: UnwindContext, max_frames: usize) -> (r: Vec<Frame>)
    ensures
        r@ == spec_walk(
            stack@,
            ctx.instruction_pointer,
            ctx.instruction_pointer,
            ctx.stack_pointer,
            ctx.frame_pointer as int,
            max_frames as int,
        ),
        r@.len() <= max_frames,
        max_frames > 0 ==> r@.len() >= 1 && r@[0] == (Frame {
            instruction_pointer: ctx.instruction_pointer,
            stack_pointer: ctx.stack_pointer,
            symbol_address: ctx.instruction_pointer,
            module_base_address: None,
        }),
{
    proof {
        lemma_spec_walk_len(
            stack@,
            ctx.instruction_pointer,
            ctx.instruction_pointer,
            ctx.stack_pointer,
            ctx.frame_pointer as int,
            max_frames as int,
        );
    }
    let n = stack.len();
    let mut out: Vec<Frame> = Vec::new();
    let mut ip = ctx.instruction_pointer;
    let mut symaddr = ctx.instruction_pointer;
    let mut sp = ctx.stack_pointer;
    let mut fp = ctx.frame_pointer;
    let mut remaining = max_frames;
    let mut alive: bool = true;
    while alive && remaining > 0
        invariant
            n == stack@.len(),
            alive ==> spec_walk(
                stack@,
                ctx.instruction_pointer,
                ctx.instruction_pointer,
                ctx.stack_pointer,
                ctx.frame_pointer as int,
                max_frames as int,
            ) =~= out@ + spec_walk(stack@, ip, symaddr, sp, fp as int, remaining as int),
            !alive ==> spec_walk(
                stack@,
                ctx.instruction_pointer,
                ctx.instruction_pointer,
                ctx.stack_pointer,
                ctx.frame_pointer as int,
                max_frames as int,
            ) =~= out@,
        decreases remaining, (if alive { 1int } else { 0int }),
    {
        let frame = Frame {
            instruction_pointer: ip,
            stack_pointer: sp,
            symbol_address: symaddr,
            module_base_address: None,
        };
        out.push(frame);
        if fp >= n || fp + 1 >= n {
            proof {
                assert(spec_walk(stack@, ip, symaddr, sp, fp as int, remaining as int) =~= seq![
                    frame,
                ]);
            }
            alive = false;
        } else {
            let next_fp = stack[fp];
            let ret = stack[fp + 1];
            if ret == 0 || next_fp <= fp {
                proof {
                    assert(spec_walk(stack@, ip, symaddr, sp, fp as int, remaining as int) =~= seq![
                        frame,
                    ]);
                }
                alive = false;
            } else {
                proof {
                    assert(spec_walk(stack@, ip, symaddr, sp, fp as int, remaining as int) =~= seq![
                        frame,
                    ] + spec_walk(
                        stack@,
                        ret,
                        (ret - 1) as usize,
                        next_fp,
                        next_fp as int,
                        remaining as int - 1,
                    ));
                }
                ip = ret;
                symaddr = ret - 1;
                sp = next_fp;
                fp = next_fp;
            }
        }
        remaining = remaining - 1;
    }
    proof {
        if alive {
            assert(spec_walk(stack@, ip, symaddr, sp, fp as int, 0int) =~= Seq::<Frame>::empty());
        }
    }
    out
}

} // verus!
