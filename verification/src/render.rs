//! Laying out hunks for display: one row for each line, with the line numbers
//! of both texts in columns of one width, and a colour for each piece of a
//! row.

use vstd::prelude::*;
use vstd::string::{StrSliceExecFns, StringExecFns};
use crate::grouping::{extract_hunks, hunk_count, hunk_start, left_count, right_count};
use crate::hunks::hunkify_diff;
use crate::grouping::hunk_stop;
use crate::laws::{
    lemma_counts_ascend, lemma_counts_bounded, lemma_hunk_nonempty, lemma_hunks_apart,
};
use crate::model::{has_change, Diff, HunkView, LineOp, OpView};

verus! {

/// The colour of a piece of a row.
#[derive(Debug, Clone, Copy, PartialEq, Eq, Structural)]
pub enum Tone {
    /// No colour.
    Plain,
    /// Red, for removed lines.
    Red,
    /// Green, for added lines.
    Green,
    /// Dark grey, for the line numbers of unchanged lines.
    DarkGrey,
}

/// A piece of a row: some text and its colour.
#[derive(Debug, PartialEq, Eq)]
pub struct Span {
    pub tone: Tone,
    pub text: String,
}

/// The mathematical value of a [`Span`].
pub ghost struct SpanView {
    pub tone: Tone,
    pub text: Seq<char>,
}

impl View for Span {
    type V = SpanView;

    open spec fn view(&self) -> SpanView {
        SpanView { tone: self.tone, text: self.text@ }
    }
}

impl DeepView for Span {
    type V = SpanView;

    open spec fn deep_view(&self) -> SpanView {
        self.view()
    }
}

/// One line of output: its pieces from left to right. A row without pieces
/// is a blank line.
pub type Row = Vec<Span>;

/// The character of a decimal digit.
pub open spec fn digit_char(digit: nat) -> char {
    if digit == 0 {
        '0'
    } else if digit == 1 {
        '1'
    } else if digit == 2 {
        '2'
    } else if digit == 3 {
        '3'
    } else if digit == 4 {
        '4'
    } else if digit == 5 {
        '5'
    } else if digit == 6 {
        '6'
    } else if digit == 7 {
        '7'
    } else if digit == 8 {
        '8'
    } else {
        '9'
    }
}

/// A number in decimal, without leading zeros.
pub open spec fn decimal_text(n: nat) -> Seq<char>
    decreases n,
{
    if n < 10 {
        seq![digit_char(n)]
    } else {
        decimal_text(n / 10).push(digit_char(n % 10))
    }
}

/// A run of blanks.
pub open spec fn blanks(count: nat) -> Seq<char> {
    Seq::new(count, |i: int| ' ')
}

/// A text moved to the right end of a column of the given width: blanks are
/// put before it until it has `width` characters; a text that is as long or
/// longer stays as it is.
pub open spec fn right_aligned(text: Seq<char>, width: nat) -> Seq<char> {
    if text.len() >= width {
        text
    } else {
        blanks((width - text.len()) as nat) + text
    }
}

/// A row of three columns: a blank, the left column, a bar between blanks,
/// the right column, a bar between blanks, and the content.
pub open spec fn three_columns(left: SpanView, right: SpanView, content: SpanView) -> Seq<
    SpanView,
> {
    seq![
        SpanView { tone: Tone::Plain, text: seq![' '] },
        left,
        SpanView { tone: Tone::Plain, text: seq![' ', '|', ' '] },
        right,
        SpanView { tone: Tone::Plain, text: seq![' ', '|', ' '] },
        content,
    ]
}

/// The row of one line, given the numbers that the line has in the left and
/// in the right text and the width of the number columns.
///
/// A removed line shows its left number and its text in red, and a blank
/// right column. An added line shows a blank left column, and its right
/// number and its text in green. An unchanged line shows both numbers in dark
/// grey and its left text without colour.
pub open spec fn row_of(op: OpView, left: nat, right: nat, width: nat) -> Seq<SpanView> {
    match op {
        OpView::Removed(text) => three_columns(
            SpanView { tone: Tone::Red, text: right_aligned(decimal_text(left), width) },
            SpanView { tone: Tone::Plain, text: blanks(width) },
            SpanView { tone: Tone::Red, text: text },
        ),
        OpView::Unchanged(text, _) => three_columns(
            SpanView { tone: Tone::DarkGrey, text: right_aligned(decimal_text(left), width) },
            SpanView { tone: Tone::DarkGrey, text: right_aligned(decimal_text(right), width) },
            SpanView { tone: Tone::Plain, text: text },
        ),
        OpView::Added(text) => three_columns(
            SpanView { tone: Tone::Plain, text: blanks(width) },
            SpanView { tone: Tone::Green, text: right_aligned(decimal_text(right), width) },
            SpanView { tone: Tone::Green, text: text },
        ),
    }
}

/// The rows of the lines of a hunk. Each line is numbered by the hunk's
/// anchor plus the lines of its text in the hunk up to and including itself.
pub open spec fn hunk_rows(ops: Seq<OpView>, left: nat, right: nat, width: nat) -> Seq<
    Seq<SpanView>,
> {
    Seq::new(
        ops.len(),
        |i: int|
            row_of(ops[i], left + left_count(ops, i + 1), right + right_count(ops, i + 1), width),
    )
}

/// The rows of the first `n` hunks, each hunk followed by a blank line.
pub open spec fn separated_rows(hunks: Seq<HunkView>, n: int, width: nat) -> Seq<Seq<SpanView>>
    decreases n,
{
    if n <= 0 {
        Seq::empty()
    } else {
        separated_rows(hunks, n - 1, width) + hunk_rows(
            hunks[n - 1].ops,
            hunks[n - 1].start_left,
            hunks[n - 1].start_right,
            width,
        ) + seq![Seq::<SpanView>::empty()]
    }
}

/// The width of the number columns: the number of digits of the largest
/// anchor of the last hunk plus the number of its lines.
pub open spec fn number_width(hunks: Seq<HunkView>) -> nat {
    let last = hunks.last();
    let largest = if last.start_left >= last.start_right {
        last.start_left
    } else {
        last.start_right
    };
    decimal_text(largest + last.ops.len()).len()
}

/// The rows of a sequence of hunks that is not empty: the rows of each hunk,
/// with a blank line between one hunk and the next.
pub open spec fn diff_rows(hunks: Seq<HunkView>) -> Seq<Seq<SpanView>> {
    let width = number_width(hunks);
    separated_rows(hunks, hunks.len() - 1, width) + hunk_rows(
        hunks.last().ops,
        hunks.last().start_left,
        hunks.last().start_right,
        width,
    )
}

/// The text of the first `n` pieces of a row, without their colours.
pub open spec fn plain_text(row: Seq<SpanView>, n: int) -> Seq<char>
    decreases n,
{
    if n <= 0 {
        Seq::empty()
    } else {
        plain_text(row, n - 1) + row[n - 1].text
    }
}

/// The text of one decimal digit.
fn digit_text(digit: usize) -> (text: &'static str)
    requires
        digit < 10,
    ensures
        text@ == seq![digit_char(digit as nat)],
{
    proof {
        reveal_strlit("0");
        reveal_strlit("1");
        reveal_strlit("2");
        reveal_strlit("3");
        reveal_strlit("4");
        reveal_strlit("5");
        reveal_strlit("6");
        reveal_strlit("7");
        reveal_strlit("8");
        reveal_strlit("9");
    }
    let text = match digit {
        0 => "0",
        1 => "1",
        2 => "2",
        3 => "3",
        4 => "4",
        5 => "5",
        6 => "6",
        7 => "7",
        8 => "8",
        _ => "9",
    };
    text
}

/// Writes a number in decimal.
pub fn decimal(n: usize) -> (text: String)
    ensures
        text@ == decimal_text(n as nat),
    decreases n,
{
    let last = digit_text(n % 10);
    if n < 10 {
        last.to_owned()
    } else {
        let mut text = decimal(n / 10);
        text.append(last);
        text
    }
}

/// Moves a text to the right end of a column of the given width.
pub fn align_right(text: &str, width: usize) -> (aligned: String)
    ensures
        aligned@ == right_aligned(text@, width as nat),
{
    let length: usize = text.unicode_len();
    let mut aligned = String::new();
    let mut filled: usize = length;
    proof {
        reveal_strlit(" ");
    }
    while filled < width
        invariant
            length == text@.len(),
            length <= filled,
            filled <= width || filled == length,
            aligned@ == blanks((filled - length) as nat),
            " "@ == seq![' '],
        decreases width - filled,
    {
        aligned.append(" ");
        filled += 1;
    }
    aligned.append(text);
    aligned
}

/// The text of a row as it reads without colours.
pub fn row_text(row: &Row) -> (text: String)
    ensures
        text@ == plain_text(row.deep_view(), row.len() as int),
{
    let mut text = String::new();
    for at in 0..row.len()
        invariant
            text@ == plain_text(row.deep_view(), at as int),
    {
        text.append(row[at].text.as_str());
    }
    text
}

/// Builds a row of three columns.
fn columns(left: Span, right: Span, content: Span) -> (row: Row)
    ensures
        row.deep_view() == three_columns(left@, right@, content@),
{
    proof {
        reveal_strlit(" ");
        reveal_strlit(" | ");
    }
    let margin = Span { tone: Tone::Plain, text: " ".to_owned() };
    let first_bar = Span { tone: Tone::Plain, text: " | ".to_owned() };
    let second_bar = Span { tone: Tone::Plain, text: " | ".to_owned() };
    assert(margin@.text =~= seq![' ']);
    assert(second_bar@.text =~= seq![' ', '|', ' ']);
    let mut row: Vec<Span> = Vec::new();
    row.push(margin);
    row.push(left);
    row.push(first_bar);
    row.push(right);
    row.push(second_bar);
    row.push(content);
    row
}

/// A column of blanks.
fn blank_column(width: usize) -> (column: String)
    ensures
        column@ == blanks(width as nat),
{
    proof {
        reveal_strlit("");
    }
    let column = align_right("", width);
    column
}

/// Lays out one line with the given numbers.
fn row(op: &LineOp, left: usize, right: usize, width: usize) -> (row: Row)
    ensures
        row.deep_view() == row_of(op@, left as nat, right as nat, width as nat),
{
    match op {
        LineOp::Removed(text) => columns(
            Span { tone: Tone::Red, text: align_right(decimal(left).as_str(), width) },
            Span { tone: Tone::Plain, text: blank_column(width) },
            Span { tone: Tone::Red, text: text.clone() },
        ),
        LineOp::Unchanged(text, _) => columns(
            Span { tone: Tone::DarkGrey, text: align_right(decimal(left).as_str(), width) },
            Span { tone: Tone::DarkGrey, text: align_right(decimal(right).as_str(), width) },
            Span { tone: Tone::Plain, text: text.clone() },
        ),
        LineOp::Added(text) => columns(
            Span { tone: Tone::Plain, text: blank_column(width) },
            Span { tone: Tone::Green, text: align_right(decimal(right).as_str(), width) },
            Span { tone: Tone::Green, text: text.clone() },
        ),
    }
}

/// Appends the rows of a hunk to `rows`.
///
/// `left_line` and `right_line` are the hunk's anchors. Each line adds one to
/// the numbers of the texts it stands in, and then shows them, in columns
/// `max_digits` wide.
pub fn print_hunk(
    rows: &mut Vec<Row>,
    left_line: usize,
    right_line: usize,
    hunk: &Diff,
    max_digits: usize,
)
    requires
        left_line + left_count(hunk.deep_view(), hunk.len() as int) <= usize::MAX,
        right_line + right_count(hunk.deep_view(), hunk.len() as int) <= usize::MAX,
    ensures
        final(rows).deep_view() == old(rows).deep_view() + hunk_rows(
            hunk.deep_view(),
            left_line as nat,
            right_line as nat,
            max_digits as nat,
        ),
{
    let ghost ops = hunk.deep_view();
    let ghost before = rows.deep_view();
    let mut left: usize = left_line;
    let mut right: usize = right_line;
    for at in 0..hunk.len()
        invariant
            ops == hunk.deep_view(),
            left_line + left_count(ops, hunk.len() as int) <= usize::MAX,
            right_line + right_count(ops, hunk.len() as int) <= usize::MAX,
            left == left_line + left_count(ops, at as int),
            right == right_line + right_count(ops, at as int),
            rows.deep_view() == before + hunk_rows(
                ops,
                left_line as nat,
                right_line as nat,
                max_digits as nat,
            ).take(at as int),
    {
        let line = &hunk[at];
        proof {
            lemma_counts_ascend(ops, at as int + 1, hunk.len() as int);
        }
        match line {
            LineOp::Removed(_) => {
                left += 1;
            },
            LineOp::Unchanged(_, _) => {
                left += 1;
                right += 1;
            },
            LineOp::Added(_) => {
                right += 1;
            },
        }
        let ghost shown = rows.deep_view();
        rows.push(row(line, left, right, max_digits));
        assert(rows.deep_view() =~= shown.push(
            row_of(ops[at as int], left as nat, right as nat, max_digits as nat),
        ));
    }
}

/// The anchors of a hunk and the number of its lines add up to a `usize`;
/// then so does every number that a line of the hunk is shown with.
pub open spec fn numbers_fit(hunk: HunkView) -> bool {
    &&& hunk.start_left + hunk.ops.len() <= usize::MAX
    &&& hunk.start_right + hunk.ops.len() <= usize::MAX
}

/// The anchors of a hunk and the number of its lines add up to at most one
/// more than the comparison has lines.
proof fn lemma_hunk_bounded(ops: Seq<OpView>, context: nat, k: int)
    requires
        0 <= k < hunk_count(ops, context),
    ensures
        extract_hunks(ops, context)[k].start_left + extract_hunks(ops, context)[k].ops.len()
            <= ops.len() + 1,
        extract_hunks(ops, context)[k].start_right + extract_hunks(ops, context)[k].ops.len()
            <= ops.len() + 1,
{
    lemma_hunk_nonempty(ops, context, k);
    lemma_counts_bounded(ops, hunk_start(ops, context, k) + 1);
}

/// Lays out a comparison for display: its hunks with `extra_lines` lines of
/// context, one row for each line and a blank row between one hunk and the
/// next. The number columns are as wide as the largest number that the last
/// hunk could show has digits.
///
/// The comparison must hold a change: without one there is no hunk to show.
pub fn print_diff(diff: Diff, extra_lines: usize) -> (rows: Vec<Row>)
    requires
        has_change(diff.deep_view()),
        diff.len() < usize::MAX,
    ensures
        rows.deep_view() == diff_rows(extract_hunks(diff.deep_view(), extra_lines as nat)),
{
    let ghost ops = diff.deep_view();
    let ghost context = extra_lines as nat;
    let hunks = hunkify_diff(diff, extra_lines);
    let ghost views = hunks.deep_view();
    proof {
        assert forall|k: int| 0 <= k < views.len() implies numbers_fit(#[trigger] views[k]) by {
            lemma_hunk_bounded(ops, context, k);
        }
    }

    let last_at: usize = hunks.len() - 1;
    let last_hunk = &hunks[last_at];
    assert(last_hunk@ == views.last());
    let largest: usize = if last_hunk.start_left >= last_hunk.start_right {
        last_hunk.start_left
    } else {
        last_hunk.start_right
    };
    let max_possible_line: usize = largest + last_hunk.ops.len();
    let max_possible_digits: usize = decimal(max_possible_line).as_str().unicode_len();

    let mut rows: Vec<Row> = Vec::new();
    for at in 0..last_at
        invariant
            views == hunks.deep_view(),
            last_at == hunks.len() - 1,
            forall|k: int| 0 <= k < views.len() ==> numbers_fit(#[trigger] views[k]),
            rows.deep_view() == separated_rows(views, at as int, max_possible_digits as nat),
    {
        let hunk = &hunks[at];
        proof {
            assert(hunk@ == views[at as int]);
            lemma_counts_bounded(hunk.ops.deep_view(), hunk.ops.len() as int);
        }
        print_hunk(&mut rows, hunk.start_left, hunk.start_right, &hunk.ops, max_possible_digits);
        let blank: Row = Vec::new();
        assert(blank.deep_view() =~= Seq::<SpanView>::empty());
        rows.push(blank);
    }

    proof {
        lemma_counts_bounded(last_hunk.ops.deep_view(), last_hunk.ops.len() as int);
    }
    print_hunk(
        &mut rows,
        last_hunk.start_left,
        last_hunk.start_right,
        &last_hunk.ops,
        max_possible_digits,
    );
    rows
}

/// A larger number has at least as many digits.
pub proof fn lemma_digits_ascend(smaller: nat, larger: nat)
    requires
        smaller <= larger,
    ensures
        0 < decimal_text(smaller).len() <= decimal_text(larger).len(),
    decreases larger,
{
    if smaller >= 10 {
        lemma_digits_ascend(smaller / 10, larger / 10);
    } else if larger >= 10 {
        lemma_digits_ascend(0, larger / 10);
    }
}

/// The counts over the first `j` lines of a part of the comparison are the
/// counts up to there less the counts up to where the part begins.
proof fn lemma_counts_of_part(ops: Seq<OpView>, a: int, b: int, j: int)
    requires
        0 <= a <= b <= ops.len(),
        0 <= j <= b - a,
    ensures
        left_count(ops.subrange(a, b), j) == left_count(ops, a + j) - left_count(ops, a),
        right_count(ops.subrange(a, b), j) == right_count(ops, a + j) - right_count(ops, a),
    decreases j,
{
    if j > 0 {
        lemma_counts_of_part(ops, a, b, j - 1);
    }
}

/// The number columns are wide enough: no line of any hunk is shown with a
/// number of more digits than the width that the last hunk gives, so every
/// number column holds exactly that many characters and the rows are
/// aligned.
pub proof fn lemma_numbers_fit_columns(ops: Seq<OpView>, context: nat, k: int, j: int)
    requires
        0 <= k < hunk_count(ops, context),
        0 <= j < extract_hunks(ops, context)[k].ops.len(),
    ensures
        ({
            let hunks = extract_hunks(ops, context);
            let left = hunks[k].start_left + left_count(hunks[k].ops, j + 1);
            let right = hunks[k].start_right + right_count(hunks[k].ops, j + 1);
            let width = number_width(hunks);
            &&& decimal_text(left).len() <= width
            &&& decimal_text(right).len() <= width
            &&& right_aligned(decimal_text(left), width).len() == width
            &&& right_aligned(decimal_text(right), width).len() == width
            &&& blanks(width).len() == width
        }),
{
    let hunks = extract_hunks(ops, context);
    let n = hunk_count(ops, context) as int;
    let (a, e) = (hunk_start(ops, context, k), hunk_stop(ops, context, k));
    let (a_last, e_last) = (hunk_start(ops, context, n - 1), hunk_stop(ops, context, n - 1));
    lemma_hunk_nonempty(ops, context, k);
    lemma_hunk_nonempty(ops, context, n - 1);
    if k < n - 1 {
        lemma_hunks_apart(ops, context, k, n - 1);
    }
    // what the line is numbered with, over the whole comparison
    lemma_counts_of_part(ops, a, e, j + 1);
    lemma_counts_ascend(ops, a, a + 1);
    lemma_counts_ascend(ops, a + j + 1, e_last);
    // what the last hunk gives
    lemma_counts_ascend(ops, a_last + 1, e_last);
    lemma_counts_grow_slowly(ops, a_last + 1, e_last);
    lemma_counts_grow_slowly(ops, a, a + 1);
    let last = hunks[n - 1];
    let largest = if last.start_left >= last.start_right {
        last.start_left
    } else {
        last.start_right
    };
    let left = hunks[k].start_left + left_count(hunks[k].ops, j + 1);
    let right = hunks[k].start_right + right_count(hunks[k].ops, j + 1);
    lemma_digits_ascend(left, largest + last.ops.len());
    lemma_digits_ascend(right, largest + last.ops.len());
}

/// Over a stretch of lines neither count grows by more than the number of
/// lines in it.
proof fn lemma_counts_grow_slowly(ops: Seq<OpView>, k1: int, k2: int)
    requires
        k1 <= k2,
    ensures
        left_count(ops, k2) <= left_count(ops, k1) + (k2 - k1),
        right_count(ops, k2) <= right_count(ops, k1) + (k2 - k1),
    decreases k2 - k1,
{
    if k1 < k2 {
        lemma_counts_grow_slowly(ops, k1, k2 - 1);
    }
}

} // verus!
