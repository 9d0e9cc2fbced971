//! The mathematical model of an execution: the engine state, the sparse-tape
//! read, cell arithmetic, bracket matching by nesting depth, the one-step
//! transition relation, and multi-step reachability, together with the laws
//! the engine obeys.

use vstd::prelude::*;
use crate::command::Command;

verus! {

/// The state of a run: data pointer, program counter, the written cells of
/// the tape, and the pending input queue. The program itself is fixed for a
/// run and passed separately.
#[verifier::ext_equal]
pub ghost struct MState {
    pub ptr: i64,
    pub pc: int,
    pub tape: Map<i64, u32>,
    pub input: Seq<char>,
}

/// What a tape address holds: the written value, or zero where nothing was
/// ever written (the sparse-tape default).
pub open spec fn cell_read(tape: Map<i64, u32>, addr: i64) -> u32 {
    if tape.dom().contains(addr) {
        tape[addr]
    } else {
        0u32
    }
}

/// Increment with wraparound at the cell width.
pub open spec fn wrap_inc(v: u32) -> u32 {
    if v == u32::MAX {
        0u32
    } else {
        (v + 1) as u32
    }
}

/// Decrement with wraparound at the cell width.
pub open spec fn wrap_dec(v: u32) -> u32 {
    if v == 0 {
        u32::MAX
    } else {
        (v - 1) as u32
    }
}

/// Cell values that denote a character: no surrogate, within the Unicode
/// range. Anything else makes `Output` a fatal fault.
pub open spec fn valid_output(v: u32) -> bool {
    v < 0xD800 || (0xE000 <= v && v <= 0x10FFFF)
}

/// The nesting contribution of one command: `JumpForward` opens a level,
/// `JumpBack` closes one, everything else is neutral.
pub open spec fn bracket_delta(cmd: Command) -> int {
    match cmd {
        Command::JumpForward => 1,
        Command::JumpBack => -1,
        _ => 0,
    }
}

/// Net bracket nesting over the half-open index range `[lo, hi)`.
pub open spec fn net_depth(prog: Seq<Command>, lo: int, hi: int) -> int
    decreases hi - lo,
{
    if lo >= hi {
        0
    } else {
        net_depth(prog, lo, hi - 1) + bracket_delta(prog[hi - 1])
    }
}

pub proof fn lemma_net_depth_unfold_left(prog: Seq<Command>, lo: int, hi: int)
    requires
        0 <= lo < hi <= prog.len(),
    ensures
        net_depth(prog, lo, hi) == bracket_delta(prog[lo]) + net_depth(prog, lo + 1, hi),
    decreases hi - lo,
{
    if lo + 1 < hi {
        lemma_net_depth_unfold_left(prog, lo, hi - 1);
    } else {
        assert(net_depth(prog, lo, lo) == 0);
        assert(net_depth(prog, lo + 1, hi) == 0);
    }
}

pub proof fn lemma_net_depth_bounds(prog: Seq<Command>, lo: int, hi: int)
    requires
        lo <= hi,
    ensures
        -(hi - lo) <= net_depth(prog, lo, hi) <= hi - lo,
    decreases hi - lo,
{
    if lo < hi {
        lemma_net_depth_bounds(prog, lo, hi - 1);
    }
}

/// `close_at` is the bracket matching an opening bracket at `open_at`: the
/// first following `JumpBack` that stands at the same nesting depth.
pub open spec fn is_forward_match(prog: Seq<Command>, open_at: int, close_at: int) -> bool {
    &&& 0 <= open_at < close_at < prog.len()
    &&& prog[open_at] is JumpForward
    &&& prog[close_at] is JumpBack
    &&& net_depth(prog, open_at + 1, close_at) == 0
    &&& forall|k: int|
        open_at < k < close_at && prog[k] is JumpBack ==> net_depth(prog, open_at + 1, k) > 0
}

/// `open_at` is the bracket matching a closing bracket at `close_at`: the
/// nearest preceding `JumpForward` that stands at the same nesting depth.
pub open spec fn is_backward_match(prog: Seq<Command>, close_at: int, open_at: int) -> bool {
    &&& 0 <= open_at < close_at < prog.len()
    &&& prog[open_at] is JumpForward
    &&& prog[close_at] is JumpBack
    &&& net_depth(prog, open_at + 1, close_at) == 0
    &&& forall|k: int|
        open_at < k < close_at && prog[k] is JumpForward ==> net_depth(prog, k + 1, close_at) < 0
}

/// Brackets pair by nesting depth, so an opening bracket has at most one
/// match: the pairing is a function of the program, not of which `JumpBack`
/// happens to stand nearest.
pub proof fn lemma_forward_match_unique(prog: Seq<Command>, open_at: int, c1: int, c2: int)
    requires
        is_forward_match(prog, open_at, c1),
        is_forward_match(prog, open_at, c2),
    ensures
        c1 == c2,
{
    if c1 < c2 {
        assert(net_depth(prog, open_at + 1, c1) > 0);
    } else if c2 < c1 {
        assert(net_depth(prog, open_at + 1, c2) > 0);
    }
}

/// Net nesting adds over adjacent ranges.
proof fn lemma_net_depth_split(prog: Seq<Command>, lo: int, mid: int, hi: int)
    requires
        lo <= mid <= hi,
    ensures
        net_depth(prog, lo, hi) == net_depth(prog, lo, mid) + net_depth(prog, mid, hi),
    decreases hi - mid,
{
    if mid < hi {
        lemma_net_depth_split(prog, lo, mid, hi - 1);
    }
}

/// Within a matched pair, no prefix of the enclosed range closes more
/// brackets than it opens.
proof fn lemma_forward_match_prefix_nonneg(
    prog: Seq<Command>,
    open_at: int,
    close_at: int,
    k: int,
)
    requires
        is_forward_match(prog, open_at, close_at),
        open_at < k <= close_at,
    ensures
        net_depth(prog, open_at + 1, k) >= 0,
    decreases k - open_at,
{
    if k > open_at + 1 {
        lemma_forward_match_prefix_nonneg(prog, open_at, close_at, k - 1);
        if prog[k - 1] is JumpBack {
            assert(net_depth(prog, open_at + 1, k - 1) > 0);
        }
    }
}

/// Within a matched pair, no suffix of the enclosed range opens more
/// brackets than it closes.
proof fn lemma_backward_match_suffix_nonpos(
    prog: Seq<Command>,
    close_at: int,
    open_at: int,
    k: int,
)
    requires
        is_backward_match(prog, close_at, open_at),
        open_at < k <= close_at,
    ensures
        net_depth(prog, k, close_at) <= 0,
    decreases close_at - k,
{
    if k < close_at {
        lemma_backward_match_suffix_nonpos(prog, close_at, open_at, k + 1);
        lemma_net_depth_unfold_left(prog, k, close_at);
        if prog[k] is JumpForward {
            assert(net_depth(prog, k + 1, close_at) < 0);
        }
    }
}

/// The two scans agree: brackets pair by nesting depth from either side, so
/// the `JumpBack` a forward skip lands on is exactly the `JumpBack` whose
/// own back-jump returns to that `JumpForward`, however deeply the pair is
/// nested.
pub proof fn lemma_match_symmetric(prog: Seq<Command>, open_at: int, close_at: int)
    ensures
        is_forward_match(prog, open_at, close_at) <==> is_backward_match(prog, close_at, open_at),
{
    if is_forward_match(prog, open_at, close_at) {
        assert forall|k: int|
            open_at < k < close_at && prog[k] is JumpForward implies net_depth(
            prog,
            k + 1,
            close_at,
        ) < 0 by {
            lemma_forward_match_prefix_nonneg(prog, open_at, close_at, k);
            lemma_net_depth_split(prog, open_at + 1, k, close_at);
            lemma_net_depth_unfold_left(prog, k, close_at);
        }
    }
    if is_backward_match(prog, close_at, open_at) {
        assert forall|k: int|
            open_at < k < close_at && prog[k] is JumpBack implies net_depth(
            prog,
            open_at + 1,
            k,
        ) > 0 by {
            lemma_backward_match_suffix_nonpos(prog, close_at, open_at, k + 1);
            lemma_net_depth_split(prog, open_at + 1, k, close_at);
            lemma_net_depth_unfold_left(prog, k, close_at);
        }
    }
}

/// The depth-matching opening bracket of a `JumpBack` is unique as well.
pub proof fn lemma_backward_match_unique(prog: Seq<Command>, close_at: int, o1: int, o2: int)
    requires
        is_backward_match(prog, close_at, o1),
        is_backward_match(prog, close_at, o2),
    ensures
        o1 == o2,
{
    if o1 < o2 {
        assert(net_depth(prog, o2 + 1, close_at) < 0);
    } else if o2 < o1 {
        assert(net_depth(prog, o1 + 1, close_at) < 0);
    }
}

/// The engine stands at an `Input` command with nothing buffered: the next
/// step needs outside input.
pub open spec fn awaiting_input(prog: Seq<Command>, s: MState) -> bool {
    &&& 0 <= s.pc < prog.len()
    &&& prog[s.pc] is Input
    &&& s.input.len() == 0
}

/// A line of outside input as it enters the pending queue: one trailing
/// newline is stripped, and after it one trailing carriage return, so both
/// bare and carriage-return line endings disappear.
pub open spec fn strip_line_ending(s: Seq<char>) -> Seq<char> {
    let t = if s.len() > 0 && s.last() == '\n' {
        s.drop_last()
    } else {
        s
    };
    if t.len() > 0 && t.last() == '\r' {
        t.drop_last()
    } else {
        t
    }
}

/// The two states agree on every component.
pub open spec fn unchanged_state(pre: MState, post: MState) -> bool {
    &&& post.ptr == pre.ptr
    &&& post.pc == pre.pc
    &&& post.tape == pre.tape
    &&& post.input == pre.input
}

/// The one-step transition relation of the engine: `post` is the state after
/// executing the command at `pre.pc`, and `emitted` holds the characters
/// written to the output by that step (one for `Output`, none otherwise).
pub open spec fn step_ok(prog: Seq<Command>, pre: MState, post: MState, emitted: Seq<char>) -> bool {
    &&& 0 <= pre.pc < prog.len()
    &&& match prog[pre.pc] {
        Command::MoveLeft => {
            &&& i64::MIN < pre.ptr
            &&& post.ptr as int == pre.ptr - 1
            &&& post.pc == pre.pc + 1
            &&& post.tape == pre.tape
            &&& post.input == pre.input
            &&& emitted == Seq::<char>::empty()
        },
        Command::MoveRight => {
            &&& pre.ptr < i64::MAX
            &&& post.ptr as int == pre.ptr + 1
            &&& post.pc == pre.pc + 1
            &&& post.tape == pre.tape
            &&& post.input == pre.input
            &&& emitted == Seq::<char>::empty()
        },
        Command::AddOne => {
            &&& post.tape == pre.tape.insert(pre.ptr, wrap_inc(cell_read(pre.tape, pre.ptr)))
            &&& post.ptr == pre.ptr
            &&& post.pc == pre.pc + 1
            &&& post.input == pre.input
            &&& emitted == Seq::<char>::empty()
        },
        Command::SubOne => {
            &&& post.tape == pre.tape.insert(pre.ptr, wrap_dec(cell_read(pre.tape, pre.ptr)))
            &&& post.ptr == pre.ptr
            &&& post.pc == pre.pc + 1
            &&& post.input == pre.input
            &&& emitted == Seq::<char>::empty()
        },
        Command::Output => {
            &&& valid_output(cell_read(pre.tape, pre.ptr))
            &&& emitted.len() == 1
            &&& emitted[0] as u32 == cell_read(pre.tape, pre.ptr)
            &&& post.ptr == pre.ptr
            &&& post.pc == pre.pc + 1
            &&& post.tape == pre.tape
            &&& post.input == pre.input
        },
        Command::Input => {
            &&& pre.input.len() > 0
            &&& post.tape == pre.tape.insert(pre.ptr, pre.input[0] as u32)
            &&& post.input == pre.input.subrange(1, pre.input.len() as int)
            &&& post.ptr == pre.ptr
            &&& post.pc == pre.pc + 1
            &&& emitted == Seq::<char>::empty()
        },
        Command::JumpForward => {
            &&& if cell_read(pre.tape, pre.ptr) == 0 {
                exists|c: int|
                    #[trigger] is_forward_match(prog, pre.pc, c) && post.pc == c + 1
            } else {
                post.pc == pre.pc + 1
            }
            &&& post.ptr == pre.ptr
            &&& post.tape == pre.tape
            &&& post.input == pre.input
            &&& emitted == Seq::<char>::empty()
        },
        Command::JumpBack => {
            &&& if cell_read(pre.tape, pre.ptr) != 0 {
                exists|o: int|
                    #[trigger] is_backward_match(prog, pre.pc, o) && post.pc == o + 1
            } else {
                post.pc == pre.pc + 1
            }
            &&& post.ptr == pre.ptr
            &&& post.tape == pre.tape
            &&& post.input == pre.input
            &&& emitted == Seq::<char>::empty()
        },
    }
}

/// `post` arises from `pre` by exactly `n` engine steps that together emit
/// `emitted`.
pub open spec fn reaches(
    prog: Seq<Command>,
    pre: MState,
    post: MState,
    emitted: Seq<char>,
    n: nat,
) -> bool
    decreases n,
{
    if n == 0 {
        unchanged_state(pre, post) && emitted == Seq::<char>::empty()
    } else {
        exists|mid: MState, e1: Seq<char>, e2: Seq<char>|
            {
                &&& reaches(prog, pre, mid, e1, (n - 1) as nat)
                &&& step_ok(prog, mid, post, e2)
                &&& emitted == e1 + e2
            }
    }
}

pub proof fn lemma_reaches_snoc(
    prog: Seq<Command>,
    pre: MState,
    mid: MState,
    post: MState,
    e1: Seq<char>,
    e2: Seq<char>,
    n: nat,
)
    requires
        reaches(prog, pre, mid, e1, n),
        step_ok(prog, mid, post, e2),
    ensures
        reaches(prog, pre, post, e1 + e2, (n + 1) as nat),
{
    let n1: nat = (n + 1) as nat;
    assert(reaches(prog, pre, post, e1 + e2, n1)) by {
        assert(reaches(prog, pre, mid, e1, (n1 - 1) as nat));
        assert(step_ok(prog, mid, post, e2));
    }
}

/// Sparse-tape default: reading an address that was never written yields
/// zero.
pub proof fn lemma_unwritten_reads_zero(tape: Map<i64, u32>, addr: i64)
    requires
        !tape.dom().contains(addr),
    ensures
        cell_read(tape, addr) == 0,
{
}

/// An `AddOne` immediately followed by a `SubOne`, with no pointer movement
/// in between, returns every cell to its prior value — across the
/// wraparound boundary too — and leaves pointer and input as they were.
pub proof fn lemma_add_one_sub_one_inverse(
    prog: Seq<Command>,
    s0: MState,
    s1: MState,
    s2: MState,
    e1: Seq<char>,
    e2: Seq<char>,
)
    requires
        prog[s0.pc] is AddOne,
        prog[s0.pc + 1] is SubOne,
        step_ok(prog, s0, s1, e1),
        step_ok(prog, s1, s2, e2),
    ensures
        s2.ptr == s0.ptr,
        s2.pc == s0.pc + 2,
        s2.input == s0.input,
        forall|addr: i64| cell_read(s2.tape, addr) == cell_read(s0.tape, addr),
{
    let p = s0.ptr;
    let v = cell_read(s0.tape, p);
    assert(cell_read(s1.tape, p) == wrap_inc(v));
    assert(wrap_dec(wrap_inc(v)) == v);
    assert forall|addr: i64| cell_read(s2.tape, addr) == cell_read(s0.tape, addr) by {
        if addr == p {
            assert(cell_read(s2.tape, addr) == wrap_dec(wrap_inc(v)));
        } else {
            assert(cell_read(s2.tape, addr) == cell_read(s1.tape, addr));
            assert(cell_read(s1.tape, addr) == cell_read(s0.tape, addr));
        }
    }
}

/// A `JumpForward` whose guard cell is zero executes nothing of the loop
/// body: the step changes no cell, no pointer and no input, emits nothing,
/// and control resumes exactly at the instruction following the matching
/// `JumpBack`.
pub proof fn lemma_zero_guard_skips_loop(
    prog: Seq<Command>,
    pre: MState,
    post: MState,
    e: Seq<char>,
    close_at: int,
)
    requires
        step_ok(prog, pre, post, e),
        prog[pre.pc] is JumpForward,
        cell_read(pre.tape, pre.ptr) == 0,
        is_forward_match(prog, pre.pc, close_at),
    ensures
        post.pc == close_at + 1,
        post.tape == pre.tape,
        post.ptr == pre.ptr,
        post.input == pre.input,
        e == Seq::<char>::empty(),
{
    let c = choose|c: int| #[trigger] is_forward_match(prog, pre.pc, c) && post.pc == c + 1;
    lemma_forward_match_unique(prog, pre.pc, c, close_at);
}

} // verus!
