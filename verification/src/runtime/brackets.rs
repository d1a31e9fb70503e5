//! Laws of the bracket search: in a program whose brackets are balanced,
//! every search ends just behind the partner of the bracket it started from.

use vstd::prelude::*;

use crate::runtime::context::{CellType, RuntimeContext};
use crate::runtime::{
    backward_target, finds_backward, finds_forward, forward_target, scan_backward, scan_forward,
    Instruction, Script, StepOutcome,
};

verus! {

/// What an instruction adds to the nesting depth: an opening bracket one, a
/// closing bracket minus one, anything else nothing.
pub open spec fn bracket_weight(instruction: Instruction) -> int {
    match instruction {
        Instruction::JumpForwardsIfZero => 1,
        Instruction::JumpBackwardsIfNonzero => -1,
        _ => 0,
    }
}

/// Brackets opened minus brackets closed among the instructions at the
/// positions `from..to`.
pub open spec fn depth_between(code: Seq<Instruction>, from: int, to: int) -> int
    decreases to - from,
{
    if from >= to {
        0
    } else {
        depth_between(code, from, to - 1) + bracket_weight(code[to - 1])
    }
}

/// Every closing bracket closes a bracket opened before it, and none stays
/// open at the end.
pub open spec fn balanced(code: Seq<Instruction>) -> bool {
    &&& depth_between(code, 0, code.len() as int) == 0
    &&& forall|k: int| 0 <= k <= code.len() ==> depth_between(code, 0, k) >= 0
}

/// The brackets at `open` and `close` belong together: what lies between
/// them is balanced in itself.
pub open spec fn partners(code: Seq<Instruction>, open: int, close: int) -> bool {
    let inside = open + 1;
    &&& 0 <= open < close < code.len()
    &&& code[open] == Instruction::JumpForwardsIfZero
    &&& code[close] == Instruction::JumpBackwardsIfNonzero
    &&& depth_between(code, inside, close) == 0
    &&& forall|k: int| inside <= k <= close ==> depth_between(code, inside, k) >= 0
}

/// The depth of a stretch is the sum of the depths of its two parts.
pub proof fn lemma_depth_split(code: Seq<Instruction>, from: int, mid: int, to: int)
    requires
        from <= mid <= to,
    ensures
        depth_between(code, from, to) == depth_between(code, from, mid) + depth_between(
            code,
            mid,
            to,
        ),
    decreases to - mid,
{
    if mid < to {
        lemma_depth_split(code, from, mid, to - 1);
    }
}

/// A forward search that stands at `pos`, with everything since `inside`
/// accounted for in its depth, ends just behind the first bracket that
/// closes more than was opened since `inside`.
proof fn lemma_forward_search(code: Seq<Instruction>, inside: int, pos: int) -> (close: int)
    requires
        0 <= inside <= pos <= code.len(),
        depth_between(code, inside, code.len() as int) < 0,
        forall|k: int| inside <= k <= pos ==> depth_between(code, inside, k) >= 0,
    ensures
        pos <= close < code.len(),
        code[close] == Instruction::JumpBackwardsIfNonzero,
        depth_between(code, inside, close) == 0,
        forall|k: int| inside <= k <= close ==> depth_between(code, inside, k) >= 0,
        scan_forward(code, pos, depth_between(code, inside, pos) as nat) == close + 1,
        finds_forward(code, pos, depth_between(code, inside, pos) as nat),
    decreases code.len() - pos,
{
    let depth = depth_between(code, inside, pos);
    assert(depth_between(code, inside, pos + 1) == depth + bracket_weight(code[pos]));
    if code[pos] == Instruction::JumpBackwardsIfNonzero && depth == 0 {
        pos
    } else {
        lemma_forward_search(code, inside, pos + 1)
    }
}

/// The depth of a stretch is the weight of its first instruction plus the
/// depth of the rest.
proof fn lemma_depth_first(code: Seq<Instruction>, from: int, to: int)
    requires
        from < to,
    ensures
        depth_between(code, from, to) == bracket_weight(code[from]) + depth_between(
            code,
            from + 1,
            to,
        ),
{
    lemma_depth_split(code, from, from + 1, to);
    assert(depth_between(code, from, from + 1) == depth_between(code, from, from) + bracket_weight(
        code[from],
    ));
}

/// A backward search that stands at `pos`, with everything up to `close`
/// accounted for in its depth, ends just behind the first bracket that opens
/// more than is closed up to `close`.
proof fn lemma_backward_search(code: Seq<Instruction>, close: int, pos: int) -> (open: int)
    requires
        -1 <= pos < close <= code.len(),
        depth_between(code, 0, close) > 0,
        forall|k: int| pos < k <= close ==> depth_between(code, k, close) <= 0,
    ensures
        0 <= open <= pos,
        code[open] == Instruction::JumpForwardsIfZero,
        depth_between(code, open + 1, close) == 0,
        forall|k: int| open < k <= close ==> depth_between(code, k, close) <= 0,
        scan_backward(code, pos, (-depth_between(code, pos + 1, close)) as nat) == open + 1,
        finds_backward(code, pos, (-depth_between(code, pos + 1, close)) as nat),
    decreases pos + 1,
{
    if pos < 0 {
        assert(false);
        0
    } else {
        let depth = -depth_between(code, pos + 1, close);
        lemma_depth_first(code, pos, close);
        if code[pos] == Instruction::JumpForwardsIfZero && depth == 0 {
            pos
        } else {
            lemma_backward_search(code, close, pos - 1)
        }
    }
}

/// In a balanced program the forward search from an opening bracket finds
/// the bracket's partner and ends just behind it.
pub proof fn lemma_forward_finds_partner(code: Seq<Instruction>, open: int) -> (close: int)
    requires
        balanced(code),
        0 <= open < code.len(),
        code[open] == Instruction::JumpForwardsIfZero,
    ensures
        partners(code, open, close),
        forward_target(code, open) == close + 1,
        finds_forward(code, open + 1, 0),
{
    let end = code.len() as int;
    lemma_depth_split(code, 0, open + 1, end);
    assert(depth_between(code, 0, open + 1) == depth_between(code, 0, open) + 1);
    lemma_forward_search(code, open + 1, open + 1)
}

/// In a balanced program the backward search from a closing bracket finds
/// the bracket's partner and ends just behind it.
pub proof fn lemma_backward_finds_partner(code: Seq<Instruction>, close: int) -> (open: int)
    requires
        balanced(code),
        0 <= close < code.len(),
        code[close] == Instruction::JumpBackwardsIfNonzero,
    ensures
        partners(code, open, close),
        backward_target(code, close) == open + 1,
        finds_backward(code, close - 1, 0),
{
    assert(depth_between(code, 0, close + 1) == depth_between(code, 0, close) - 1);
    let open = lemma_backward_search(code, close, close - 1);
    let inside = open + 1;
    assert forall|k: int| inside <= k <= close implies depth_between(code, inside, k) >= 0 by {
        lemma_depth_split(code, inside, k, close);
    }
    open
}

/// A search never leaves the program: it ends at a position between zero
/// and the number of instructions.
pub proof fn lemma_search_stays_in_program(code: Seq<Instruction>, pos: int, depth: nat)
    ensures
        0 <= scan_forward(code, pos, depth) <= code.len(),
        0 <= scan_backward(code, pos, depth) <= code.len(),
        0 <= pos <= code.len() ==> scan_forward(code, pos, depth) >= pos,
        -1 <= pos < code.len() ==> scan_backward(code, pos, depth) <= pos + 1,
    decreases code.len() - pos,
{
    if 0 <= pos < code.len() {
        lemma_search_stays_in_program(code, pos + 1, depth);
        lemma_search_stays_in_program(code, pos + 1, depth + 1);
        lemma_search_stays_in_program(code, pos + 1, (depth - 1) as nat);
    }
    lemma_scan_backward_bounds(code, pos, depth);
}

proof fn lemma_scan_backward_bounds(code: Seq<Instruction>, pos: int, depth: nat)
    ensures
        0 <= scan_backward(code, pos, depth) <= code.len(),
        -1 <= pos < code.len() ==> scan_backward(code, pos, depth) <= pos + 1,
    decreases pos + 1,
{
    if 0 <= pos < code.len() {
        lemma_scan_backward_bounds(code, pos - 1, depth);
        lemma_scan_backward_bounds(code, pos - 1, depth + 1);
        lemma_scan_backward_bounds(code, pos - 1, (depth - 1) as nat);
    }
}

/// An instruction pointer that stands inside the program, or at its end,
/// still does so after a step.
pub proof fn lemma_step_stays_in_program<T: CellType>(
    script: &Script,
    context: &RuntimeContext<T>,
    input: T,
    next: &Script,
    next_context: &RuntimeContext<T>,
    outcome: StepOutcome<T>,
)
    requires
        script.steps_to(context, input, next, next_context, outcome),
        script.instruction_pointer <= script.code().len(),
    ensures
        next.instruction_pointer <= next.code().len(),
{
    let code = script.code();
    let at = script.instruction_pointer as int;
    if at < code.len() {
        lemma_search_stays_in_program(code, at + 1, 0);
        lemma_search_stays_in_program(code, at - 1, 0);
    }
}

} // verus!
