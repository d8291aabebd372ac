//! The hunks of a comparison, as a mathematical definition: which lines are
//! shown, where hunks begin and end, and what each hunk holds.

use vstd::prelude::*;
use crate::model::{is_change, HunkView, OpView};

verus! {

/// Some change lies at most `context` lines away from line `i`, before or
/// after it (a change is near itself).
pub open spec fn near_change(ops: Seq<OpView>, context: nat, i: int) -> bool {
    exists|j: int|
        0 <= j < ops.len() && i - context <= j <= i + context && is_change(#[trigger] ops[j])
}

/// Line `i` of the comparison is shown in some hunk.
pub open spec fn retained(ops: Seq<OpView>, context: nat, i: int) -> bool {
    0 <= i < ops.len() && near_change(ops, context, i)
}

/// The number of lines of the left text among the first `k` lines of the
/// comparison.
pub open spec fn left_count(ops: Seq<OpView>, k: int) -> nat
    decreases k,
{
    if k <= 0 {
        0
    } else if ops[k - 1] is Added {
        left_count(ops, k - 1)
    } else {
        left_count(ops, k - 1) + 1
    }
}

/// The number of lines of the right text among the first `k` lines of the
/// comparison.
pub open spec fn right_count(ops: Seq<OpView>, k: int) -> nat
    decreases k,
{
    if k <= 0 {
        0
    } else if ops[k - 1] is Removed {
        right_count(ops, k - 1)
    } else {
        right_count(ops, k - 1) + 1
    }
}

/// Line `i` is shown and the line before it, if there is one, is not: a hunk
/// begins at `i`.
pub open spec fn starts_hunk(ops: Seq<OpView>, context: nat, i: int) -> bool {
    retained(ops, context, i) && !retained(ops, context, i - 1)
}

/// The positions among the first `k` lines at which a hunk begins, ascending.
pub open spec fn hunk_starts(ops: Seq<OpView>, context: nat, k: int) -> Seq<int>
    decreases k,
{
    if k <= 0 {
        Seq::empty()
    } else if starts_hunk(ops, context, k - 1) {
        hunk_starts(ops, context, k - 1).push(k - 1)
    } else {
        hunk_starts(ops, context, k - 1)
    }
}

/// The first position from `a` on that is not shown: where the hunk that
/// holds line `a` ends.
pub open spec fn hunk_end(ops: Seq<OpView>, context: nat, a: int) -> int
    decreases ops.len() - a,
{
    if retained(ops, context, a) {
        hunk_end(ops, context, a + 1)
    } else {
        a
    }
}

/// The hunk that begins at position `a`: its anchors count the lines of each
/// text up to and including line `a`, and it holds the lines from `a` up to
/// where the hunk ends.
pub open spec fn hunk_at(ops: Seq<OpView>, context: nat, a: int) -> HunkView {
    HunkView {
        start_left: left_count(ops, a + 1),
        start_right: right_count(ops, a + 1),
        ops: ops.subrange(a, hunk_end(ops, context, a)),
    }
}

/// The hunks that begin at the given positions.
pub open spec fn hunks_at(ops: Seq<OpView>, context: nat, starts: Seq<int>) -> Seq<HunkView> {
    Seq::new(starts.len(), |k: int| hunk_at(ops, context, starts[k]))
}

/// The hunks of a comparison: one for each maximal run of shown lines, in
/// document order.
pub open spec fn extract_hunks(ops: Seq<OpView>, context: nat) -> Seq<HunkView> {
    hunks_at(ops, context, hunk_starts(ops, context, ops.len() as int))
}

/// The number of hunks of a comparison.
pub open spec fn hunk_count(ops: Seq<OpView>, context: nat) -> nat {
    hunk_starts(ops, context, ops.len() as int).len()
}

/// The position in the comparison of the first line of hunk `k`.
pub open spec fn hunk_start(ops: Seq<OpView>, context: nat, k: int) -> int {
    hunk_starts(ops, context, ops.len() as int)[k]
}

/// The position in the comparison just after the last line of hunk `k`.
pub open spec fn hunk_stop(ops: Seq<OpView>, context: nat, k: int) -> int {
    hunk_end(ops, context, hunk_start(ops, context, k))
}

} // verus!
