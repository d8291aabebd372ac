//! What holds of the hunks of every comparison.

use vstd::prelude::*;
use crate::grouping::{
    extract_hunks, hunk_count, hunk_end, hunk_start, hunk_starts, hunk_stop, left_count, retained,
    right_count, starts_hunk,
};
use crate::model::{has_change, is_change, Diff, HunkDiff, HunkView, OpView};

verus! {

/// Hunk `k` holds line `i` of the comparison.
pub open spec fn holds_line(ops: Seq<OpView>, context: nat, k: int, i: int) -> bool {
    &&& 0 <= k < hunk_count(ops, context)
    &&& hunk_start(ops, context, k) <= i < hunk_stop(ops, context, k)
}

/// The index of the hunk that holds line `i`, for a line that is shown: one
/// less than the number of hunks that begin at or before `i`.
pub open spec fn hunk_of(ops: Seq<OpView>, context: nat, i: int) -> int {
    hunk_starts(ops, context, i + 1).len() - 1
}

/// The lines of the first `n` of the given hunks, one hunk after the other.
pub open spec fn joined(hunks: Seq<HunkView>, n: int) -> Seq<OpView>
    decreases n,
{
    if n <= 0 {
        Seq::empty()
    } else {
        joined(hunks, n - 1) + hunks[n - 1].ops
    }
}

/// The positions in the comparison of the lines of its first `n` hunks, one
/// hunk after the other.
pub open spec fn shown_positions(ops: Seq<OpView>, context: nat, n: int) -> Seq<int>
    decreases n,
{
    if n <= 0 {
        Seq::empty()
    } else {
        shown_positions(ops, context, n - 1) + Seq::new(
            (hunk_stop(ops, context, n - 1) - hunk_start(ops, context, n - 1)) as nat,
            |j: int| hunk_start(ops, context, n - 1) + j,
        )
    }
}

/// `part` is a subsequence of `whole`: its lines are those of `whole` at the
/// positions `at`, which ascend.
pub open spec fn embeds(part: Seq<OpView>, whole: Seq<OpView>, at: Seq<int>) -> bool {
    &&& at.len() == part.len()
    &&& forall|j: int|
        0 <= j < part.len() ==> 0 <= #[trigger] at[j] < whole.len() && part[j] == whole[at[j]]
    &&& forall|j1: int, j2: int| 0 <= j1 < j2 < at.len() ==> at[j1] < at[j2]
}

/// The number of shown lines among the first `p` lines of the comparison.
pub open spec fn retained_count(ops: Seq<OpView>, context: nat, p: int) -> nat
    decreases p,
{
    if p <= 0 {
        0
    } else if retained(ops, context, p - 1) {
        retained_count(ops, context, p - 1) + 1
    } else {
        retained_count(ops, context, p - 1)
    }
}

/// Neither count exceeds the number of lines counted over.
pub proof fn lemma_counts_bounded(ops: Seq<OpView>, k: int)
    requires
        0 <= k,
    ensures
        left_count(ops, k) <= k,
        right_count(ops, k) <= k,
    decreases k,
{
    if k > 0 {
        lemma_counts_bounded(ops, k - 1);
    }
}

/// Neither count falls as more lines are counted over.
pub proof fn lemma_counts_ascend(ops: Seq<OpView>, k1: int, k2: int)
    requires
        k1 <= k2,
    ensures
        left_count(ops, k1) <= left_count(ops, k2),
        right_count(ops, k1) <= right_count(ops, k2),
    decreases k2 - k1,
{
    if k1 < k2 {
        lemma_counts_ascend(ops, k1, k2 - 1);
    }
}

/// A hunk ends at the first line after its beginning that is not shown, or
/// at the end of the comparison.
pub proof fn lemma_hunk_end(ops: Seq<OpView>, context: nat, a: int, b: int)
    requires
        0 <= a <= b <= ops.len(),
        forall|i: int| a <= i < b ==> retained(ops, context, i),
        !retained(ops, context, b),
    ensures
        hunk_end(ops, context, a) == b,
    decreases b - a,
{
    if a < b {
        lemma_hunk_end(ops, context, a + 1, b);
    }
}

/// The hunks that begin among the first `p` lines are the first of those
/// that begin among the first `q`; the others begin from `p` on.
pub proof fn lemma_starts_extend(ops: Seq<OpView>, context: nat, p: int, q: int)
    requires
        0 <= p <= q,
    ensures
        ({
            let sp = hunk_starts(ops, context, p);
            let sq = hunk_starts(ops, context, q);
            &&& sp.len() <= sq.len()
            &&& forall|k: int| 0 <= k < sp.len() ==> #[trigger] sq[k] == sp[k]
            &&& forall|k: int|
                sp.len() <= k < sq.len() ==> p <= #[trigger] sq[k] < q && starts_hunk(
                    ops,
                    context,
                    sq[k],
                )
        }),
    decreases q - p,
{
    if p < q {
        lemma_starts_extend(ops, context, p, q - 1);
    }
}

/// The positions at which hunks begin ascend.
pub proof fn lemma_starts_ascend(ops: Seq<OpView>, context: nat, q: int)
    requires
        0 <= q,
    ensures
        forall|k1: int, k2: int|
            0 <= k1 < k2 < hunk_starts(ops, context, q).len() ==> hunk_starts(ops, context, q)[k1]
                < hunk_starts(ops, context, q)[k2],
    decreases q,
{
    if q > 0 {
        lemma_starts_ascend(ops, context, q - 1);
        lemma_starts_extend(ops, context, 0, q - 1);
    }
}

/// From a shown line on, the lines up to the end of its hunk are shown, and
/// the line at the end, if there is one, is not.
pub proof fn lemma_hunk_span(ops: Seq<OpView>, context: nat, a: int)
    requires
        retained(ops, context, a),
    ensures
        a < hunk_end(ops, context, a) <= ops.len(),
        forall|i: int| a <= i < hunk_end(ops, context, a) ==> retained(ops, context, i),
        !retained(ops, context, hunk_end(ops, context, a)),
    decreases ops.len() - a,
{
    if retained(ops, context, a + 1) {
        lemma_hunk_span(ops, context, a + 1);
    } else {
        assert(hunk_end(ops, context, a + 1) == a + 1);
    }
}

/// The last hunk to begin at or before a shown line begins a run of shown
/// lines that reaches that line.
pub proof fn lemma_latest_start(ops: Seq<OpView>, context: nat, i: int)
    requires
        retained(ops, context, i),
    ensures
        ({
            let s = hunk_starts(ops, context, i + 1);
            &&& s.len() > 0
            &&& 0 <= s.last() <= i
            &&& starts_hunk(ops, context, s.last())
            &&& forall|j: int| s.last() <= j <= i ==> retained(ops, context, j)
        }),
    decreases i,
{
    if !starts_hunk(ops, context, i) {
        lemma_latest_start(ops, context, i - 1);
    }
}

/// No hunk is empty: each begins at a shown line and ends after it, inside
/// the comparison.
pub proof fn lemma_hunk_nonempty(ops: Seq<OpView>, context: nat, k: int)
    requires
        0 <= k < hunk_count(ops, context),
    ensures
        0 <= hunk_start(ops, context, k) < hunk_stop(ops, context, k) <= ops.len(),
        starts_hunk(ops, context, hunk_start(ops, context, k)),
        extract_hunks(ops, context)[k].ops.len() > 0,
        extract_hunks(ops, context)[k].ops == ops.subrange(
            hunk_start(ops, context, k),
            hunk_stop(ops, context, k),
        ),
{
    lemma_starts_extend(ops, context, 0, ops.len() as int);
    lemma_hunk_span(ops, context, hunk_start(ops, context, k));
}

/// Hunks are disjoint and stand in document order: a hunk begins after the
/// one before it has ended, the line at which that one ended is an unchanged
/// line that was dropped, and the anchors of the later hunk are not smaller.
pub proof fn lemma_hunks_apart(ops: Seq<OpView>, context: nat, k1: int, k2: int)
    requires
        0 <= k1 < k2 < hunk_count(ops, context),
    ensures
        hunk_start(ops, context, k1) < hunk_stop(ops, context, k1) < hunk_start(ops, context, k2),
        ops[hunk_stop(ops, context, k1)] is Unchanged,
        !retained(ops, context, hunk_stop(ops, context, k1)),
        extract_hunks(ops, context)[k1].start_left <= extract_hunks(ops, context)[k2].start_left,
        extract_hunks(ops, context)[k1].start_right <= extract_hunks(
            ops,
            context,
        )[k2].start_right,
{
    lemma_starts_extend(ops, context, 0, ops.len() as int);
    lemma_starts_ascend(ops, context, ops.len() as int);
    lemma_hunk_span(ops, context, hunk_start(ops, context, k1));
    let before = hunk_start(ops, context, k2) - 1;
    assert(!retained(ops, context, before));
    lemma_counts_ascend(ops, hunk_start(ops, context, k1) + 1, hunk_start(ops, context, k2) + 1);
}

/// Every line that is shown stands in exactly one hunk, the one that
/// [`hunk_of`] names, at its own distance from the hunk's first line.
pub proof fn lemma_shown_in_one_hunk(ops: Seq<OpView>, context: nat, i: int)
    requires
        retained(ops, context, i),
    ensures
        holds_line(ops, context, hunk_of(ops, context, i), i),
        forall|k: int| holds_line(ops, context, k, i) ==> k == hunk_of(ops, context, i),
        extract_hunks(ops, context)[hunk_of(ops, context, i)].ops[i - hunk_start(
            ops,
            context,
            hunk_of(ops, context, i),
        )] == ops[i],
{
    let k0 = hunk_of(ops, context, i);
    lemma_latest_start(ops, context, i);
    lemma_starts_extend(ops, context, i + 1, ops.len() as int);
    let a = hunk_start(ops, context, k0);
    assert(a == hunk_starts(ops, context, i + 1).last());
    lemma_hunk_span(ops, context, a);
    assert(holds_line(ops, context, k0, i));
    assert forall|k: int| holds_line(ops, context, k, i) implies k == k0 by {
        if k < k0 {
            lemma_hunks_apart(ops, context, k, k0);
        } else if k0 < k {
            lemma_hunks_apart(ops, context, k0, k);
        }
    }
}

/// Every change stands in exactly one hunk.
pub proof fn lemma_change_in_one_hunk(ops: Seq<OpView>, context: nat, i: int)
    requires
        0 <= i < ops.len(),
        is_change(ops[i]),
    ensures
        holds_line(ops, context, hunk_of(ops, context, i), i),
        forall|k: int| holds_line(ops, context, k, i) ==> k == hunk_of(ops, context, i),
        extract_hunks(ops, context)[hunk_of(ops, context, i)].ops[i - hunk_start(
            ops,
            context,
            hunk_of(ops, context, i),
        )] == ops[i],
{
    assert(retained(ops, context, i));
    lemma_shown_in_one_hunk(ops, context, i);
}

/// A comparison has hunks exactly when it holds a change.
pub proof fn lemma_hunks_iff_change(ops: Seq<OpView>, context: nat)
    ensures
        hunk_count(ops, context) > 0 <==> has_change(ops),
        extract_hunks(ops, context).len() > 0 <==> has_change(ops),
{
    if has_change(ops) {
        let i = choose|i: int| 0 <= i < ops.len() && is_change(#[trigger] ops[i]);
        lemma_change_in_one_hunk(ops, context, i);
    }
    if hunk_count(ops, context) > 0 {
        lemma_hunk_nonempty(ops, context, 0);
        let a = hunk_start(ops, context, 0);
        let j = choose|j: int|
            0 <= j < ops.len() && a - context <= j <= a + context && is_change(#[trigger] ops[j]);
        assert(is_change(ops[j]));
    }
}

/// Every line that stands in a hunk is shown.
pub proof fn lemma_held_line_shown(ops: Seq<OpView>, context: nat, k: int, i: int)
    requires
        holds_line(ops, context, k, i),
    ensures
        retained(ops, context, i),
{
    lemma_hunk_nonempty(ops, context, k);
    lemma_hunk_span(ops, context, hunk_start(ops, context, k));
}

/// The lines of the first `n` hunks, one hunk after the other, are lines of
/// the comparison at ascending positions, all before the end of hunk `n - 1`.
proof fn lemma_joined_embeds(ops: Seq<OpView>, context: nat, n: int)
    requires
        0 <= n <= hunk_count(ops, context),
    ensures
        embeds(joined(extract_hunks(ops, context), n), ops, shown_positions(ops, context, n)),
        forall|j: int|
            0 <= j < shown_positions(ops, context, n).len() ==> #[trigger] shown_positions(
                ops,
                context,
                n,
            )[j] < hunk_stop(ops, context, n - 1),
    decreases n,
{
    if n > 0 {
        lemma_joined_embeds(ops, context, n - 1);
        lemma_hunk_nonempty(ops, context, n - 1);
        if n > 1 {
            lemma_hunks_apart(ops, context, n - 2, n - 1);
        }
    }
}

/// The lines of all hunks, one hunk after the other, form a subsequence of
/// the comparison that keeps the order of its lines.
pub proof fn lemma_hunks_form_subsequence(ops: Seq<OpView>, context: nat)
    ensures
        embeds(
            joined(extract_hunks(ops, context), hunk_count(ops, context) as int),
            ops,
            shown_positions(ops, context, hunk_count(ops, context) as int),
        ),
{
    lemma_joined_embeds(ops, context, hunk_count(ops, context) as int);
}

/// Where no line from `a` up to `b` is shown, the count of shown lines does
/// not grow; where all are shown, it grows by their number.
proof fn lemma_count_over(ops: Seq<OpView>, context: nat, a: int, b: int)
    requires
        0 <= a <= b,
    ensures
        (forall|i: int| a <= i < b ==> !retained(ops, context, i)) ==> retained_count(
            ops,
            context,
            b,
        ) == retained_count(ops, context, a),
        (forall|i: int| a <= i < b ==> retained(ops, context, i)) ==> retained_count(
            ops,
            context,
            b,
        ) == retained_count(ops, context, a) + (b - a),
    decreases b - a,
{
    if a < b {
        lemma_count_over(ops, context, a, b - 1);
    }
}

/// The first `n` hunks hold as many lines as are shown before the end of
/// hunk `n - 1`.
proof fn lemma_joined_count(ops: Seq<OpView>, context: nat, n: int)
    requires
        0 < n <= hunk_count(ops, context),
    ensures
        joined(extract_hunks(ops, context), n).len() == retained_count(
            ops,
            context,
            hunk_stop(ops, context, n - 1),
        ),
    decreases n,
{
    let start = hunk_start(ops, context, n - 1);
    let stop = hunk_stop(ops, context, n - 1);
    lemma_hunk_nonempty(ops, context, n - 1);
    lemma_hunk_span(ops, context, start);
    let gap_from = if n > 1 {
        hunk_stop(ops, context, n - 2)
    } else {
        0
    };
    if n > 1 {
        lemma_joined_count(ops, context, n - 1);
        lemma_hunks_apart(ops, context, n - 2, n - 1);
        lemma_hunk_nonempty(ops, context, n - 2);
    } else {
        assert(joined(extract_hunks(ops, context), 0).len() == 0);
    }
    assert forall|i: int| gap_from <= i < start implies !retained(ops, context, i) by {
        if retained(ops, context, i) {
            lemma_shown_in_one_hunk(ops, context, i);
            let k = hunk_of(ops, context, i);
            lemma_starts_ascend(ops, context, ops.len() as int);
            if k < n - 1 {
                if k < n - 2 {
                    lemma_hunks_apart(ops, context, k, n - 2);
                    lemma_hunk_nonempty(ops, context, n - 2);
                }
            }
        }
    }
    lemma_count_over(ops, context, gap_from, start);
    lemma_count_over(ops, context, start, stop);
}

/// The hunks hold exactly the lines that are shown: as many as the
/// comparison has lines with a change nearby.
pub proof fn lemma_hunks_hold_shown_lines(ops: Seq<OpView>, context: nat)
    ensures
        joined(extract_hunks(ops, context), hunk_count(ops, context) as int).len()
            == retained_count(ops, context, ops.len() as int),
{
    let n = hunk_count(ops, context) as int;
    let tail_from = if n > 0 {
        hunk_stop(ops, context, n - 1)
    } else {
        0
    };
    if n > 0 {
        lemma_joined_count(ops, context, n);
        lemma_hunk_nonempty(ops, context, n - 1);
    }
    assert forall|i: int| tail_from <= i < ops.len() implies !retained(ops, context, i) by {
        if retained(ops, context, i) {
            lemma_shown_in_one_hunk(ops, context, i);
            let k = hunk_of(ops, context, i);
            if k < n - 1 {
                lemma_hunks_apart(ops, context, k, n - 1);
                lemma_hunk_nonempty(ops, context, n - 1);
            }
        }
    }
    lemma_count_over(ops, context, tail_from, ops.len() as int);
}

/// A line shown with some context is shown with any larger context.
pub proof fn lemma_retained_with_more_context(
    ops: Seq<OpView>,
    smaller: nat,
    larger: nat,
    i: int,
)
    requires
        smaller <= larger,
        retained(ops, smaller, i),
    ensures
        retained(ops, larger, i),
{
    let j = choose|j: int|
        0 <= j < ops.len() && i - smaller <= j <= i + smaller && is_change(#[trigger] ops[j]);
    assert(0 <= j < ops.len() && i - larger <= j <= i + larger && is_change(ops[j]));
}

/// Among the first `p` lines, a larger context shows at least as many.
proof fn lemma_count_grows_with_context(ops: Seq<OpView>, smaller: nat, larger: nat, p: int)
    requires
        smaller <= larger,
    ensures
        retained_count(ops, smaller, p) <= retained_count(ops, larger, p),
    decreases p,
{
    if p > 0 {
        lemma_count_grows_with_context(ops, smaller, larger, p - 1);
        if retained(ops, smaller, p - 1) {
            lemma_retained_with_more_context(ops, smaller, larger, p - 1);
        }
    }
}

/// A larger context never lowers the number of lines that the hunks hold.
pub proof fn lemma_more_context_keeps_more(ops: Seq<OpView>, smaller: nat, larger: nat)
    requires
        smaller <= larger,
    ensures
        joined(extract_hunks(ops, smaller), hunk_count(ops, smaller) as int).len() <= joined(
            extract_hunks(ops, larger),
            hunk_count(ops, larger) as int,
        ).len(),
{
    lemma_hunks_hold_shown_lines(ops, smaller);
    lemma_hunks_hold_shown_lines(ops, larger);
    lemma_count_grows_with_context(ops, smaller, larger, ops.len() as int);
}

/// Inside every hunk made with the larger context, a hunk made with the
/// smaller context begins.
proof fn lemma_smaller_begins_inside(ops: Seq<OpView>, smaller: nat, larger: nat, k: int)
    requires
        smaller <= larger,
        0 <= k < hunk_count(ops, larger),
    ensures
        hunk_starts(ops, smaller, hunk_start(ops, larger, k)).len() < hunk_starts(
            ops,
            smaller,
            hunk_stop(ops, larger, k),
        ).len(),
{
    let a = hunk_start(ops, larger, k);
    let e = hunk_stop(ops, larger, k);
    lemma_hunk_nonempty(ops, larger, k);
    lemma_hunk_span(ops, larger, a);
    // the change that makes line `a` shown lies at or after it
    let j = choose|j: int|
        0 <= j < ops.len() && a - larger <= j <= a + larger && is_change(#[trigger] ops[j]);
    if j < a {
        assert(0 <= j < ops.len() && (a - 1) - larger <= j <= (a - 1) + larger && is_change(
            ops[j],
        ));
        assert(retained(ops, larger, a - 1));
    }
    assert forall|i: int| a <= i <= j implies retained(ops, larger, i) by {
        assert(0 <= j < ops.len() && i - larger <= j <= i + larger && is_change(ops[j]));
    }
    assert(j < e);
    // the hunk of the smaller context that holds that change begins from `a` on
    assert(retained(ops, smaller, j));
    lemma_latest_start(ops, smaller, j);
    let r = hunk_starts(ops, smaller, j + 1).last();
    if r < a {
        lemma_retained_with_more_context(ops, smaller, larger, a - 1);
    }
    lemma_starts_extend(ops, smaller, a, r);
    assert(hunk_starts(ops, smaller, r + 1) == hunk_starts(ops, smaller, r).push(r));
    lemma_starts_extend(ops, smaller, r + 1, e);
}

/// Up to the end of hunk `n - 1` of the larger context, at least `n` hunks
/// of the smaller context begin.
proof fn lemma_hunks_begun(ops: Seq<OpView>, smaller: nat, larger: nat, n: int)
    requires
        smaller <= larger,
        0 < n <= hunk_count(ops, larger),
    ensures
        hunk_starts(ops, smaller, hunk_stop(ops, larger, n - 1)).len() >= n,
    decreases n,
{
    lemma_smaller_begins_inside(ops, smaller, larger, n - 1);
    lemma_hunk_nonempty(ops, larger, n - 1);
    if n > 1 {
        lemma_hunks_begun(ops, smaller, larger, n - 1);
        lemma_hunks_apart(ops, larger, n - 2, n - 1);
        lemma_hunk_nonempty(ops, larger, n - 2);
        lemma_starts_extend(
            ops,
            smaller,
            hunk_stop(ops, larger, n - 2),
            hunk_start(ops, larger, n - 1),
        );
    }
}

/// A larger context never raises the number of hunks.
pub proof fn lemma_more_context_fewer_hunks(ops: Seq<OpView>, smaller: nat, larger: nat)
    requires
        smaller <= larger,
    ensures
        hunk_count(ops, larger) <= hunk_count(ops, smaller),
        extract_hunks(ops, larger).len() <= extract_hunks(ops, smaller).len(),
{
    let n = hunk_count(ops, larger) as int;
    if n > 0 {
        lemma_hunks_begun(ops, smaller, larger, n);
        lemma_hunk_nonempty(ops, larger, n - 1);
        lemma_starts_extend(ops, smaller, hunk_stop(ops, larger, n - 1), ops.len() as int);
    }
}

/// With no context a hunk holds changes only.
pub proof fn lemma_no_context_only_changes(ops: Seq<OpView>, k: int, j: int)
    requires
        0 <= k < hunk_count(ops, 0),
        0 <= j < extract_hunks(ops, 0)[k].ops.len(),
    ensures
        is_change(extract_hunks(ops, 0)[k].ops[j]),
{
    lemma_hunk_nonempty(ops, 0, k);
    let i = hunk_start(ops, 0, k) + j;
    assert(holds_line(ops, 0, k, i));
    lemma_held_line_shown(ops, 0, k, i);
}

/// Grouping depends on the comparison and the context alone: whatever two
/// runs of [`hunkify_diff`](crate::hunks::hunkify_diff) on the same
/// comparison with the same context return has the same value.
pub proof fn lemma_hunkify_repeatable(
    first: HunkDiff,
    second: HunkDiff,
    diff: Diff,
    extra_lines: usize,
)
    requires
        first.deep_view() == extract_hunks(diff.deep_view(), extra_lines as nat),
        second.deep_view() == extract_hunks(diff.deep_view(), extra_lines as nat),
    ensures
        first.deep_view() == second.deep_view(),
{
}

} // verus!
