//! Grouping a comparison into hunks: every change, with up to a given number
//! of unchanged lines before and after it.

use vstd::prelude::*;
use crate::grouping::{
    extract_hunks, hunk_starts, hunks_at, left_count, retained, right_count, starts_hunk,
};
use crate::laws::{
    lemma_counts_bounded, lemma_hunk_end, lemma_hunk_nonempty, lemma_hunks_iff_change,
};
use crate::model::{
    has_change, is_change, is_different, Diff, Hunk, HunkDiff, HunkView, LineOp, OpView,
};

verus! {

/// Tells whether any line of `diff` from `from` up to, not including, `to` is
/// a change.
fn any_different(diff: &Diff, from: usize, to: usize) -> (found: bool)
    requires
        from <= to <= diff.len(),
    ensures
        found == exists|j: int| from <= j < to && is_change(#[trigger] diff.deep_view()[j]),
{
    let mut at: usize = from;
    while at < to
        invariant
            from <= at <= to <= diff.len(),
            forall|j: int| from <= j < at ==> !is_change(#[trigger] diff.deep_view()[j]),
        decreases to - at,
    {
        if is_different(&diff[at]) {
            assert(is_change(diff.deep_view()[at as int]));
            return true;
        }
        at += 1;
    }
    false
}

/// Appends a line to the hunk in progress, or begins a hunk with it, anchored
/// at the given line counts, where none is in progress.
fn push_line(current: Option<Hunk>, left: usize, right: usize, op: LineOp) -> (hunk: Hunk)
    ensures
        hunk@ == match current {
            Some(open) => HunkView { ops: open@.ops.push(op@), ..open@ },
            None => HunkView { start_left: left as nat, start_right: right as nat, ops: seq![op@] },
        },
{
    let mut hunk = match current {
        Some(open) => open,
        None => Hunk { start_left: left, start_right: right, ops: Vec::new() },
    };
    let ghost before = hunk.ops.deep_view();
    hunk.ops.push(op);
    assert(hunk.ops.deep_view() =~= before.push(op@));
    assert(current is None ==> before =~= Seq::<OpView>::empty());
    hunk
}

/// What holds between two steps of [`hunkify_diff`], when the first `p` lines
/// are done: the counters, the closed hunks and the hunk in progress.
spec fn progress(
    ops: Seq<OpView>,
    context: nat,
    p: int,
    left: nat,
    right: nat,
    closed: Seq<HunkView>,
    current: Option<HunkView>,
) -> bool {
    let starts = hunk_starts(ops, context, p);
    &&& left == left_count(ops, p)
    &&& right == right_count(ops, p)
    &&& match current {
        None => {
            &&& !retained(ops, context, p - 1)
            &&& closed == hunks_at(ops, context, starts)
        },
        Some(open) => {
            &&& starts.len() > 0
            &&& 0 <= starts.last() < p
            &&& forall|i: int| starts.last() <= i < p ==> retained(ops, context, i)
            &&& open == HunkView {
                start_left: left_count(ops, starts.last() + 1),
                start_right: right_count(ops, starts.last() + 1),
                ops: ops.subrange(starts.last(), p),
            }
            &&& closed == hunks_at(ops, context, starts.drop_last())
        },
    }
}

/// Groups a comparison into hunks.
///
/// A line is shown when it is a change, or when a change lies at most
/// `extra_lines` lines before or after it. Each maximal run of shown lines
/// becomes one hunk, anchored at the line counts of both texts up to and
/// including its first line; the other lines are dropped.
pub fn hunkify_diff(diff: Diff, extra_lines: usize) -> (hunks: HunkDiff)
    ensures
        hunks.deep_view() == extract_hunks(diff.deep_view(), extra_lines as nat),
        forall|k: int| 0 <= k < hunks.len() ==> (#[trigger] hunks[k]).well_formed(),
        hunks.len() > 0 <==> has_change(diff.deep_view()),
{
    let mut hunks: Vec<Hunk> = Vec::new();

    let mut left_line_number: usize = 0;
    let mut right_line_number: usize = 0;

    let mut current_hunk: Option<Hunk> = None;

    let ghost ops = diff.deep_view();
    let ghost context = extra_lines as nat;
    assert(hunks.deep_view() =~= hunks_at(ops, context, hunk_starts(ops, context, 0)));

    for position in 0..diff.len()
        invariant
            ops == diff.deep_view(),
            context == extra_lines as nat,
            progress(
                ops,
                context,
                position as int,
                left_line_number as nat,
                right_line_number as nat,
                hunks.deep_view(),
                match current_hunk {
                    Some(open) => Some(open@),
                    None => None,
                },
            ),
    {
        proof {
            lemma_counts_bounded(ops, position as int);
        }
        let ghost closed = hunks.deep_view();
        let ghost starts = hunk_starts(ops, context, position as int);
        let line = &diff[position];
        assert(line@ == ops[position as int]);
        match line {
            LineOp::Removed(_) => {
                left_line_number += 1;
                let grown =
                    push_line(current_hunk, left_line_number, right_line_number, line.clone());
                current_hunk = Some(grown);
                assert(retained(ops, context, position as int));
            },
            LineOp::Added(_) => {
                right_line_number += 1;
                let grown =
                    push_line(current_hunk, left_line_number, right_line_number, line.clone());
                current_hunk = Some(grown);
                assert(retained(ops, context, position as int));
            },
            LineOp::Unchanged(_, _) => {
                left_line_number += 1;
                right_line_number += 1;

                let last: usize = if extra_lines < diff.len() - 1 - position {
                    position + extra_lines
                } else {
                    diff.len() - 1
                };
                let first: usize = if extra_lines < position {
                    position - extra_lines
                } else {
                    0
                };
                if any_different(&diff, position, last + 1) {
                    // a change lies ahead: the line goes on with the hunk in
                    // progress, or begins one
                    let grown =
                        push_line(current_hunk, left_line_number, right_line_number, line.clone());
                    current_hunk = Some(grown);
                    assert(retained(ops, context, position as int));
                } else if any_different(&diff, first, position) {
                    // a change lies behind: the hunk that holds it is still
                    // in progress
                    assert(retained(ops, context, position as int));
                    assert(retained(ops, context, position as int - 1));
                    let grown =
                        push_line(current_hunk, left_line_number, right_line_number, line.clone());
                    current_hunk = Some(grown);
                } else {
                    // no change nearby: the line is dropped and ends the hunk
                    // in progress
                    assert(!retained(ops, context, position as int));
                    if let Some(hunk) = current_hunk {
                        proof {
                            lemma_hunk_end(ops, context, starts.last(), position as int);
                        }
                        hunks.push(hunk);
                        assert(hunks.deep_view() =~= closed.push(hunk@));
                        assert(closed.push(hunk@) =~= hunks_at(ops, context, starts));
                    }
                    current_hunk = None;
                }
            },
        }
        proof {
            let next = hunk_starts(ops, context, position as int + 1);
            if retained(ops, context, position as int) {
                let open = current_hunk->Some_0@;
                if starts_hunk(ops, context, position as int) {
                    assert(next.drop_last() =~= starts);
                    assert(open.ops =~= ops.subrange(position as int, position as int + 1));
                } else {
                    assert(open.ops =~= ops.subrange(starts.last(), position as int + 1));
                }
            }
        }
    }

    if let Some(hunk) = current_hunk {
        proof {
            let starts = hunk_starts(ops, context, diff.len() as int);
            lemma_hunk_end(ops, context, starts.last(), diff.len() as int);
        }
        let ghost closed = hunks.deep_view();
        hunks.push(hunk);
        assert(hunks.deep_view() =~= closed.push(hunk@));
    }

    proof {
        lemma_hunks_iff_change(ops, context);
        assert forall|k: int| 0 <= k < hunks.len() implies (#[trigger] hunks[k]).well_formed() by {
            lemma_hunk_nonempty(ops, context, k);
            assert(hunks[k]@ == hunks.deep_view()[k]);
        }
    }
    hunks
}

} // verus!
