//! Line-level comparison of a rendered template with its target file,
//! grouped into hunks that keep a bounded number of unchanged lines
//! around every change.

pub mod generate;
pub mod grouping;
pub mod hunks;
pub mod laws;
pub mod model;
pub mod render;

pub use generate::{
    advance, can_align, count_newlines, diff_nonempty, generate_diff, DiffError, Step,
    TemplateFile,
};
pub use hunks::hunkify_diff;
pub use model::{is_different, Diff, Hunk, HunkDiff, HunkView, LineOp, OpView};
pub use render::{align_right, decimal, print_diff, print_hunk, row_text, Row, Span, Tone};
