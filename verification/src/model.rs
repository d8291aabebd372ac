//! The data of a comparison: tagged line operations and hunks.

use vstd::prelude::*;

verus! {

/// One line of a comparison between a left (base) and a right (new) text.
#[derive(Debug, PartialEq, Eq)]
pub enum LineOp {
    /// The line stands only in the left text.
    Removed(String),
    /// The line stands only in the right text.
    Added(String),
    /// The line stands in both texts; the two fields hold the left and the
    /// right copy of it.
    Unchanged(String, String),
}

/// The mathematical value of a [`LineOp`]: its tag and its text as characters.
pub ghost enum OpView {
    Removed(Seq<char>),
    Added(Seq<char>),
    Unchanged(Seq<char>, Seq<char>),
}

impl View for LineOp {
    type V = OpView;

    open spec fn view(&self) -> OpView {
        match *self {
            LineOp::Removed(text) => OpView::Removed(text@),
            LineOp::Added(text) => OpView::Added(text@),
            LineOp::Unchanged(left, right) => OpView::Unchanged(left@, right@),
        }
    }
}

impl DeepView for LineOp {
    type V = OpView;

    open spec fn deep_view(&self) -> OpView {
        self.view()
    }
}

impl Clone for LineOp {
    fn clone(&self) -> (copy: Self)
        ensures
            copy == *self,
    {
        match self {
            LineOp::Removed(text) => LineOp::Removed(text.clone()),
            LineOp::Added(text) => LineOp::Added(text.clone()),
            LineOp::Unchanged(left, right) => LineOp::Unchanged(left.clone(), right.clone()),
        }
    }
}

/// A whole comparison, in document order.
pub type Diff = Vec<LineOp>;

/// A line counts as a change when it was removed or added.
pub open spec fn is_change(op: OpView) -> bool {
    !(op is Unchanged)
}

/// Some line of the comparison is a change.
pub open spec fn has_change(ops: Seq<OpView>) -> bool {
    exists|i: int| 0 <= i < ops.len() && is_change(#[trigger] ops[i])
}

/// Tells whether a line is a change, that is, not `Unchanged`.
pub fn is_different(op: &LineOp) -> (different: bool)
    ensures
        different == is_change(op@),
{
    !matches!(op, LineOp::Unchanged(..))
}

/// A run of consecutive lines of a comparison that are shown together.
#[derive(Debug, PartialEq, Eq)]
pub struct Hunk {
    /// Lines of the left text counted up to and including the first line of
    /// the hunk.
    pub start_left: usize,
    /// Lines of the right text counted up to and including the first line of
    /// the hunk.
    pub start_right: usize,
    /// The lines of the hunk, in document order.
    pub ops: Vec<LineOp>,
}

impl Hunk {
    /// A hunk holds at least one line.
    pub open spec fn well_formed(&self) -> bool {
        self.ops.len() > 0
    }
}

/// The mathematical value of a [`Hunk`].
pub ghost struct HunkView {
    pub start_left: nat,
    pub start_right: nat,
    pub ops: Seq<OpView>,
}

impl View for Hunk {
    type V = HunkView;

    open spec fn view(&self) -> HunkView {
        HunkView {
            start_left: self.start_left as nat,
            start_right: self.start_right as nat,
            ops: self.ops.deep_view(),
        }
    }
}

impl DeepView for Hunk {
    type V = HunkView;

    open spec fn deep_view(&self) -> HunkView {
        self.view()
    }
}

/// The hunks of one comparison, in document order.
pub type HunkDiff = Vec<Hunk>;

} // verus!
