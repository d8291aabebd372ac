//! Producing a comparison: the line alignment of a target text with a
//! rendered template, and the steps that lead to it.

use vstd::prelude::*;
use vstd::string::StrSliceExecFns;
use crate::model::{has_change, is_change, is_different, Diff, LineOp, OpView};

verus! {

/// The line alignment of two texts: what `diff::lines` returns for them, as
/// a value of its two arguments.
pub uninterp spec fn line_alignment(left: Seq<char>, right: Seq<char>) -> Seq<OpView>;

/// The number of newline characters in a text. A text has at most one more
/// line than this.
pub open spec fn newlines(text: Seq<char>) -> nat
    decreases text.len(),
{
    if text.len() == 0 {
        0
    } else if text.last() == '\n' {
        newlines(text.drop_last()) + 1
    } else {
        newlines(text.drop_last())
    }
}

/// The two texts are small enough to be aligned: a table with a row for each
/// line of the left text and one more, and a column for each line of the
/// right text and one more, stays well under the largest size of a vector,
/// and so does a vector with an entry for each line of both texts.
pub open spec fn alignable(left: Seq<char>, right: Seq<char>) -> bool {
    128 * ((newlines(left) + 2) * (newlines(right) + 2)) <= isize::MAX
}

/// Calls `diff::lines` and turns each fragment into a [`LineOp`]: `Left`
/// into `Removed`, `Right` into `Added`, `Both` into `Unchanged`.
///
/// Trusted: the result is the alignment that `diff::lines` computes, which
/// depends on the two texts alone. `diff::lines` splits each text into its
/// lines, fills a table of 32-bit counts with at most one more row and column
/// than the texts have lines, which it indexes by the product of the two, and
/// collects at most one fragment for each line of both texts and one more.
/// For texts that are [`alignable`] these products and sizes are in range.
#[verifier::external_body]
fn lines(left: &str, right: &str) -> (ops: Vec<LineOp>)
    requires
        alignable(left@, right@),
    ensures
        ops.deep_view() == line_alignment(left@, right@),
{
    diff::lines(left, right)
        .into_iter()
        .map(|fragment| match fragment {
            diff::Result::Left(l) => LineOp::Removed(l.to_string()),
            diff::Result::Both(l, r) => LineOp::Unchanged(l.to_string(), r.to_string()),
            diff::Result::Right(r) => LineOp::Added(r.to_string()),
        })
        .collect()
}

/// Counts the newline characters in a text.
pub fn count_newlines(text: &str) -> (count: usize)
    ensures
        count == newlines(text@),
{
    // the count stays below the number of characters, which is a `usize`
    let length: usize = text.unicode_len();
    let mut count: usize = 0;
    for c in it: text.chars()
        invariant
            it.seq() == text@,
            length == text@.len(),
            count == newlines(text@.take(it.index() as int)),
            count <= it.index(),
    {
        proof {
            let done = it.index() as int;
            assert(text@.take(done + 1).drop_last() =~= text@.take(done));
        }
        if c == '\n' {
            count += 1;
        }
    }
    assert(text@.take(text@.len() as int) =~= text@);
    count
}

/// Tells whether two texts are small enough to be aligned.
pub fn can_align(left: &str, right: &str) -> (fits: bool)
    ensures
        fits == alignable(left@, right@),
{
    let rows: usize = count_newlines(left);
    let columns: usize = count_newlines(right);
    let limit: usize = (isize::MAX as usize) / 128;
    if rows >= limit || columns >= limit {
        assert(128 * ((rows + 2) * (columns + 2)) > isize::MAX) by (nonlinear_arith)
            requires
                rows >= limit || columns >= limit,
                limit == (isize::MAX as usize) / 128,
                rows >= 0,
                columns >= 0,
        ;
        return false;
    }
    let most_rows: usize = limit / (columns + 2);
    proof {
        let a = rows + 2;
        let b = columns + 2;
        assert(most_rows * b <= limit < (most_rows + 1) * b) by (nonlinear_arith)
            requires
                most_rows == limit as int / b,
                b > 0,
                limit >= 0,
        ;
        assert((a <= most_rows) <==> a * b <= limit) by (nonlinear_arith)
            requires
                most_rows * b <= limit < (most_rows + 1) * b,
                b > 0,
                a >= 0,
        ;
    }
    rows + 2 <= most_rows
}

/// Compares a target text, as the left side, with the rendered template, as
/// the right side, line by line.
pub fn generate_diff(target_contents: &str, rendered: &str) -> (diff: Diff)
    requires
        alignable(target_contents@, rendered@),
    ensures
        diff.deep_view() == line_alignment(target_contents@, rendered@),
{
    lines(target_contents, rendered)
}

/// Tells whether the two compared texts differ: whether any line was removed
/// or added.
pub fn diff_nonempty(diff: &[LineOp]) -> (nonempty: bool)
    ensures
        nonempty == has_change(diff.deep_view()),
        !nonempty <==> forall|i: int|
            0 <= i < diff.deep_view().len() ==> #[trigger] diff.deep_view()[i] is Unchanged,
{
    let mut at: usize = 0;
    while at < diff.len()
        invariant
            at <= diff.len(),
            forall|i: int| 0 <= i < at ==> !is_change(#[trigger] diff.deep_view()[i]),
        decreases diff.len() - at,
    {
        if is_different(&diff[at]) {
            assert(is_change(diff.deep_view()[at as int]));
            return true;
        }
        at += 1;
    }
    false
}

/// One of the two files of a template.
#[derive(Debug, Clone, Copy, PartialEq, Eq, Structural)]
pub enum TemplateFile {
    /// The file that holds the template.
    Source,
    /// The file that the rendered template is compared with.
    Target,
}

/// Why no comparison was produced.
#[derive(Debug, PartialEq, Eq)]
pub enum DiffError {
    /// A file could not be read; `cause` is what the reader reported.
    Io { file: TemplateFile, cause: String },
    /// The template could not be rendered; `cause` is what the renderer
    /// reported.
    Render { cause: String },
}

impl DiffError {
    /// Names the operation that failed.
    pub fn context(&self) -> (context: &'static str)
        ensures
            context@ == match *self {
                DiffError::Io { file: TemplateFile::Source, .. } => "read template source file"@,
                DiffError::Io { file: TemplateFile::Target, .. } => "read template target file"@,
                DiffError::Render { .. } => "render template"@,
            },
    {
        match self {
            DiffError::Io { file: TemplateFile::Source, .. } => "read template source file",
            DiffError::Io { file: TemplateFile::Target, .. } => "read template target file",
            DiffError::Render { .. } => "render template",
        }
    }
}

/// Where the production of a comparison stands: what its caller is to do
/// next, or how it ended.
#[derive(Debug, PartialEq, Eq)]
pub enum Step {
    /// The source file is to be read, and the template's text actions
    /// applied to what it holds.
    ReadSource,
    /// `text` is to be rendered with the variables.
    Render { text: String },
    /// The target file is to be read; `rendered` is the rendered template.
    ReadTarget { rendered: String },
    /// Nothing is left to do.
    Done(Result<Diff, DiffError>),
}

/// Takes the outcome of what a step asked for, the text or what the failure
/// reported, and gives the next step.
///
/// The first failure ends the production with its error. After the target
/// file was read, the production ends with the comparison of its text, as the
/// left side, with the rendered template, as the right side. Once it has
/// ended, it stays as it is.
pub fn advance(step: Step, outcome: Result<String, String>) -> (next: Step)
    requires
        match (step, outcome) {
            (Step::ReadTarget { rendered }, Ok(target)) => alignable(target@, rendered@),
            _ => true,
        },
    ensures
        match step {
            Step::ReadSource => match outcome {
                Ok(text) => next == (Step::Render { text }),
                Err(cause) => next == Step::Done(
                    Err(DiffError::Io { file: TemplateFile::Source, cause }),
                ),
            },
            Step::Render { .. } => match outcome {
                Ok(rendered) => next == (Step::ReadTarget { rendered }),
                Err(cause) => next == Step::Done(Err(DiffError::Render { cause })),
            },
            Step::ReadTarget { rendered } => match outcome {
                Ok(target) => next matches Step::Done(Ok(diff)) && diff.deep_view()
                    == line_alignment(target@, rendered@),
                Err(cause) => next == Step::Done(
                    Err(DiffError::Io { file: TemplateFile::Target, cause }),
                ),
            },
            Step::Done(_) => next == step,
        },
{
    match step {
        Step::ReadSource => match outcome {
            Ok(text) => Step::Render { text },
            Err(cause) => Step::Done(Err(DiffError::Io { file: TemplateFile::Source, cause })),
        },
        Step::Render { .. } => match outcome {
            Ok(rendered) => Step::ReadTarget { rendered },
            Err(cause) => Step::Done(Err(DiffError::Render { cause })),
        },
        Step::ReadTarget { rendered } => match outcome {
            Ok(target) => Step::Done(Ok(generate_diff(target.as_str(), rendered.as_str()))),
            Err(cause) => Step::Done(Err(DiffError::Io { file: TemplateFile::Target, cause })),
        },
        Step::Done(result) => Step::Done(result),
    }
}

} // verus!
