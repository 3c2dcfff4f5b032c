//! Bracket matching: which `]` closes a `[`, and which `[` a `]` goes back to.
//!
//! Nothing is computed ahead of time. A scan starts at a bracket with a nesting
//! counter of one, walks away from it, counts brackets of its own kind up and
//! those of the other kind down, and stops where the counter reaches zero.

use vstd::prelude::*;
use crate::instruction::Instruction;

verus! {

/// What an instruction adds to the nesting level: one for `[`, minus one for
/// `]`, nothing otherwise.
pub open spec fn weight(instruction: Instruction) -> int {
    match instruction {
        Instruction::JmpForwardIfZero => 1,
        Instruction::JmpBackwardIfNonZero => -1,
        _ => 0,
    }
}

/// The net nesting of `program[from..to)`: its `[` minus its `]`.
pub open spec fn nesting(program: Seq<Instruction>, from: int, to: int) -> int
    decreases to - from,
{
    if to <= from {
        0
    } else {
        nesting(program, from, to - 1) + weight(program[to - 1])
    }
}

/// The counter of a forward scan from `start`, once it has examined position `at`.
pub open spec fn forward_depth(program: Seq<Instruction>, start: int, at: int) -> int {
    1 + nesting(program, start + 1, at + 1)
}

/// The counter of a backward scan from `start`, once it has examined position `at`.
pub open spec fn backward_depth(program: Seq<Instruction>, start: int, at: int) -> int {
    1 - nesting(program, at, start)
}

/// A forward scan from `start` stops at `close`: the first position after
/// `start` where its counter is zero.
pub open spec fn is_forward_match(program: Seq<Instruction>, start: int, close: int) -> bool {
    &&& 0 <= start < close < program.len()
    &&& forward_depth(program, start, close) == 0
    &&& forall|k: int| start < k < close ==> #[trigger] forward_depth(program, start, k) != 0
}

/// A backward scan from `start` stops at `open`: the first position before
/// `start` where its counter is zero.
pub open spec fn is_backward_match(program: Seq<Instruction>, start: int, open: int) -> bool {
    &&& 0 <= open < start < program.len()
    &&& backward_depth(program, start, open) == 0
    &&& forall|k: int| open < k < start ==> #[trigger] backward_depth(program, start, k) != 0
}

/// Where a forward scan from `start` stops, if it stops inside the program.
pub open spec fn forward_match(program: Seq<Instruction>, start: int) -> Option<int> {
    if exists|close: int| is_forward_match(program, start, close) {
        Some(choose|close: int| is_forward_match(program, start, close))
    } else {
        None
    }
}

/// Where a backward scan from `start` stops, if it stops inside the program.
pub open spec fn backward_match(program: Seq<Instruction>, start: int) -> Option<int> {
    if exists|open: int| is_backward_match(program, start, open) {
        Some(choose|open: int| is_backward_match(program, start, open))
    } else {
        None
    }
}

/// Scans forward from `start` for the position that brings the nesting
/// counter back to zero. `None` when the scan runs off the end.
pub fn find_forward_match(program: &[Instruction], start: usize) -> (found: Option<usize>)
    ensures
        match found {
            Some(close) => is_forward_match(program@, start as int, close as int)
                && forward_match(program@, start as int) == Some(close as int),
            None => forward_match(program@, start as int) is None
                && forall|close: int| !is_forward_match(program@, start as int, close),
        },
{
    if start >= program.len() {
        return None;
    }
    let mut position: usize = start;
    let mut depth: usize = 1;
    loop
        invariant
            start <= position < program.len(),
            1 <= depth <= position - start + 1,
            depth == forward_depth(program@, start as int, position as int),
            forall|k: int|
                start < k <= position ==> #[trigger] forward_depth(program@, start as int, k) != 0,
        decreases program.len() - position,
    {
        position = position + 1;
        if position >= program.len() {
            return None;
        }
        match program[position] {
            Instruction::JmpForwardIfZero => {
                depth = depth + 1;
            },
            Instruction::JmpBackwardIfNonZero => {
                depth = depth - 1;
            },
            _ => {},
        }
        if depth == 0 {
            proof {
                lemma_forward_match_unique(program@, start as int, position as int);
            }
            return Some(position);
        }
    }
}

/// Scans backward from `start` for the position that brings the nesting
/// counter back to zero. `None` when the scan runs off the beginning.
pub fn find_backward_match(program: &[Instruction], start: usize) -> (found: Option<usize>)
    ensures
        match found {
            Some(open) => is_backward_match(program@, start as int, open as int)
                && backward_match(program@, start as int) == Some(open as int),
            None => backward_match(program@, start as int) is None
                && forall|open: int| !is_backward_match(program@, start as int, open),
        },
{
    if start >= program.len() {
        return None;
    }
    let mut position: usize = start;
    let mut depth: usize = 1;
    loop
        invariant
            position <= start < program.len(),
            1 <= depth <= start - position + 1,
            depth == backward_depth(program@, start as int, position as int),
            forall|k: int|
                position <= k < start ==> #[trigger] backward_depth(program@, start as int, k) != 0,
        decreases position,
    {
        if position == 0 {
            return None;
        }
        proof {
            lemma_nesting_first(program@, position as int - 1, start as int);
        }
        position = position - 1;
        match program[position] {
            Instruction::JmpForwardIfZero => {
                depth = depth - 1;
            },
            Instruction::JmpBackwardIfNonZero => {
                depth = depth + 1;
            },
            _ => {},
        }
        if depth == 0 {
            proof {
                lemma_backward_match_unique(program@, start as int, position as int);
            }
            return Some(position);
        }
    }
}

/// Nesting adds up over adjoining ranges.
pub proof fn lemma_nesting_split(program: Seq<Instruction>, from: int, mid: int, to: int)
    requires
        from <= mid <= to,
    ensures
        nesting(program, from, to) == nesting(program, from, mid) + nesting(program, mid, to),
    decreases to - mid,
{
    if mid < to {
        lemma_nesting_split(program, from, mid, to - 1);
    }
}

/// Nesting can be counted from the front as well as from the back.
pub proof fn lemma_nesting_first(program: Seq<Instruction>, from: int, to: int)
    requires
        from < to,
    ensures
        nesting(program, from, to) == weight(program[from]) + nesting(program, from + 1, to),
{
    lemma_nesting_split(program, from, from + 1, to);
    assert(nesting(program, from, from + 1) == weight(program[from])) by {
        reveal_with_fuel(nesting, 2);
    }
}

/// A forward scan stops at no more than one position.
pub proof fn lemma_forward_match_unique(program: Seq<Instruction>, start: int, close: int)
    requires
        is_forward_match(program, start, close),
    ensures
        forall|other: int| is_forward_match(program, start, other) ==> other == close,
        forward_match(program, start) == Some(close),
{
    assert forall|other: int| is_forward_match(program, start, other) implies other == close by {
        if other < close {
            assert(forward_depth(program, start, other) != 0);
        } else if close < other {
            assert(forward_depth(program, start, close) != 0);
        }
    }
}

/// A backward scan stops at no more than one position.
pub proof fn lemma_backward_match_unique(program: Seq<Instruction>, start: int, open: int)
    requires
        is_backward_match(program, start, open),
    ensures
        forall|other: int| is_backward_match(program, start, other) ==> other == open,
        backward_match(program, start) == Some(open),
{
    assert forall|other: int| is_backward_match(program, start, other) implies other == open by {
        if other < open {
            assert(backward_depth(program, start, open) != 0);
        } else if open < other {
            assert(backward_depth(program, start, other) != 0);
        }
    }
}

/// Until a forward scan stops, its counter stays positive.
pub proof fn lemma_forward_depth_positive(
    program: Seq<Instruction>,
    start: int,
    close: int,
    at: int,
)
    requires
        is_forward_match(program, start, close),
        start <= at < close,
    ensures
        forward_depth(program, start, at) > 0,
    decreases at - start,
{
    if at > start {
        lemma_forward_depth_positive(program, start, close, at - 1);
        assert(forward_depth(program, start, at) != 0);
    }
}

/// Until a backward scan stops, its counter stays positive.
pub proof fn lemma_backward_depth_positive(
    program: Seq<Instruction>,
    start: int,
    open: int,
    at: int,
)
    requires
        is_backward_match(program, start, open),
        open < at <= start,
    ensures
        backward_depth(program, start, at) > 0,
    decreases start - at,
{
    if at < start {
        lemma_backward_depth_positive(program, start, open, at + 1);
        lemma_nesting_first(program, at, start);
        assert(backward_depth(program, start, at) != 0);
    }
}

/// A forward scan stops on a `]`.
pub proof fn lemma_forward_match_is_close(program: Seq<Instruction>, start: int, close: int)
    requires
        is_forward_match(program, start, close),
    ensures
        program[close] == Instruction::JmpBackwardIfNonZero,
        nesting(program, start + 1, close) == 0,
{
    lemma_forward_depth_positive(program, start, close, close - 1);
}

/// A backward scan stops on a `[`.
pub proof fn lemma_backward_match_is_open(program: Seq<Instruction>, start: int, open: int)
    requires
        is_backward_match(program, start, open),
    ensures
        program[open] == Instruction::JmpForwardIfZero,
        nesting(program, open + 1, start) == 0,
{
    lemma_backward_depth_positive(program, start, open, open + 1);
    lemma_nesting_first(program, open, start);
}

/// Matching is mutual, from the `[`: the `]` that closes a `[` goes back to
/// that same `[`.
pub proof fn lemma_forward_match_goes_back(program: Seq<Instruction>, open: int, close: int)
    requires
        program[open] == Instruction::JmpForwardIfZero,
        is_forward_match(program, open, close),
    ensures
        program[close] == Instruction::JmpBackwardIfNonZero,
        is_backward_match(program, close, open),
        backward_match(program, close) == Some(open),
{
    lemma_forward_match_is_close(program, open, close);
    lemma_nesting_first(program, open, close);
    assert forall|k: int| open < k < close implies #[trigger] backward_depth(program, close, k)
        != 0 by {
        lemma_nesting_split(program, open + 1, k, close);
        lemma_forward_depth_positive(program, open, close, k - 1);
    }
    lemma_backward_match_unique(program, close, open);
}

/// Matching is mutual, from the `]`: the `[` that a `]` goes back to is
/// closed by that same `]`.
pub proof fn lemma_backward_match_comes_forth(program: Seq<Instruction>, close: int, open: int)
    requires
        program[close] == Instruction::JmpBackwardIfNonZero,
        is_backward_match(program, close, open),
    ensures
        program[open] == Instruction::JmpForwardIfZero,
        is_forward_match(program, open, close),
        forward_match(program, open) == Some(close),
{
    lemma_backward_match_is_open(program, close, open);
    assert forall|k: int| open < k < close implies #[trigger] forward_depth(program, open, k)
        != 0 by {
        lemma_nesting_split(program, open + 1, k + 1, close);
        lemma_backward_depth_positive(program, close, open, k + 1);
    }
    lemma_forward_match_unique(program, open, close);
}

/// A `[` with no `]` anywhere after it is unmatched.
pub proof fn lemma_no_close_no_forward_match(program: Seq<Instruction>, start: int)
    requires
        forall|k: int|
            start < k < program.len() ==> #[trigger] program[k]
                != Instruction::JmpBackwardIfNonZero,
    ensures
        forward_match(program, start) is None,
{
    assert forall|close: int| !is_forward_match(program, start, close) by {
        if is_forward_match(program, start, close) {
            lemma_forward_match_is_close(program, start, close);
        }
    }
}

/// A `]` with no `[` anywhere before it is unmatched.
pub proof fn lemma_no_open_no_backward_match(program: Seq<Instruction>, start: int)
    requires
        forall|k: int| 0 <= k < start ==> #[trigger] program[k] != Instruction::JmpForwardIfZero,
    ensures
        backward_match(program, start) is None,
{
    assert forall|open: int| !is_backward_match(program, start, open) by {
        if is_backward_match(program, start, open) {
            lemma_backward_match_is_open(program, start, open);
        }
    }
}

} // verus!
