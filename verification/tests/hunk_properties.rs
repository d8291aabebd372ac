use hunk_diff::{diff_nonempty, hunkify_diff, is_different, Hunk, LineOp};

/// Every comparison of up to `longest` lines over the three kinds of line;
/// line `i` holds the text `i`.
fn comparisons(longest: usize) -> Vec<Vec<LineOp>> {
    let mut all: Vec<Vec<LineOp>> = vec![Vec::new()];
    let mut last: Vec<Vec<LineOp>> = vec![Vec::new()];
    for length in 0..longest {
        let mut next = Vec::new();
        for shorter in &last {
            for kind in 0..3 {
                let text = length.to_string();
                let mut longer: Vec<LineOp> = shorter.iter().cloned().collect();
                longer.push(match kind {
                    0 => LineOp::Unchanged(text.clone(), text),
                    1 => LineOp::Removed(text),
                    _ => LineOp::Added(text),
                });
                next.push(longer);
            }
        }
        all.extend(next.iter().map(|diff| diff.iter().cloned().collect::<Vec<LineOp>>()));
        last = next;
    }
    all
}

/// The position in the comparison of a line made by `comparisons`.
fn position(op: &LineOp) -> usize {
    match op {
        LineOp::Unchanged(text, _) | LineOp::Removed(text) | LineOp::Added(text) => {
            text.parse().unwrap()
        }
    }
}

/// The hunks by a scan that looks, for each unchanged line, through the
/// window of lines after it and through the window of lines before it.
fn by_windows(diff: &[LineOp], context: usize) -> Vec<Hunk> {
    let mut hunks = Vec::new();
    let mut left = 0;
    let mut right = 0;
    let mut current: Option<Hunk> = None;
    for at in 0..diff.len() {
        let keep = match &diff[at] {
            LineOp::Removed(_) => {
                left += 1;
                true
            }
            LineOp::Added(_) => {
                right += 1;
                true
            }
            LineOp::Unchanged(_, _) => {
                left += 1;
                right += 1;
                let ahead = (at + context).min(diff.len() - 1);
                let behind = at.saturating_sub(context);
                diff[at..=ahead].iter().any(is_different)
                    || diff[behind..at].iter().any(is_different)
            }
        };
        if keep {
            let hunk = current.get_or_insert(Hunk {
                start_left: left,
                start_right: right,
                ops: Vec::new(),
            });
            hunk.ops.push(diff[at].clone());
        } else if let Some(hunk) = current.take() {
            hunks.push(hunk);
        }
    }
    hunks.extend(current);
    hunks
}

#[test]
fn agrees_with_the_windowed_scan() {
    for diff in comparisons(7) {
        for context in 0..5 {
            assert_eq!(
                hunkify_diff(diff.iter().cloned().collect(), context),
                by_windows(&diff, context)
            );
        }
    }
}

#[test]
fn nonempty_exactly_when_some_line_is_not_unchanged() {
    for diff in comparisons(6) {
        let all_unchanged = diff.iter().all(|op| matches!(op, LineOp::Unchanged(..)));
        assert_eq!(diff_nonempty(&diff), !all_unchanged);
    }
}

#[test]
fn every_change_stands_in_exactly_one_hunk() {
    for diff in comparisons(7) {
        for context in 0..4 {
            let hunks = hunkify_diff(diff.iter().cloned().collect(), context);
            for op in diff.iter().filter(|op| is_different(op)) {
                let holding = hunks
                    .iter()
                    .map(|hunk| hunk.ops.iter().filter(|held| *held == op).count())
                    .collect::<Vec<usize>>();
                assert_eq!(holding.iter().sum::<usize>(), 1);
            }
        }
    }
}

#[test]
fn hunks_are_disjoint_ordered_and_never_empty() {
    for diff in comparisons(7) {
        for context in 0..4 {
            let hunks = hunkify_diff(diff.iter().cloned().collect(), context);
            let mut next_free = 0;
            for (index, hunk) in hunks.iter().enumerate() {
                assert!(!hunk.ops.is_empty());
                let first = position(&hunk.ops[0]);
                // a dropped line lies between two hunks
                assert!(index == 0 || first > next_free);
                // the lines of a hunk are consecutive lines of the comparison
                for (offset, op) in hunk.ops.iter().enumerate() {
                    assert_eq!(op, &diff[first + offset]);
                }
                next_free = first + hunk.ops.len();
            }
            assert!(next_free <= diff.len());
        }
    }
}

#[test]
fn joined_hunks_are_a_subsequence_of_the_comparison() {
    for diff in comparisons(7) {
        for context in 0..4 {
            let hunks = hunkify_diff(diff.iter().cloned().collect(), context);
            let mut rest = diff.iter();
            for op in hunks.iter().flat_map(|hunk| hunk.ops.iter()) {
                assert!(rest.any(|line| line == op));
            }
        }
    }
}

#[test]
fn more_context_keeps_more_lines_in_fewer_hunks() {
    for diff in comparisons(7) {
        let mut kept_before = 0;
        let mut hunks_before = diff.len() + 1;
        for context in 0..6 {
            let hunks = hunkify_diff(diff.iter().cloned().collect(), context);
            let kept: usize = hunks.iter().map(|hunk| hunk.ops.len()).sum();
            assert!(kept >= kept_before);
            assert!(hunks.len() <= hunks_before);
            kept_before = kept;
            hunks_before = hunks.len();
        }
    }
}

#[test]
fn without_context_hunks_hold_changes_only() {
    for diff in comparisons(7) {
        let hunks = hunkify_diff(diff.iter().cloned().collect(), 0);
        for hunk in &hunks {
            assert!(hunk.ops.iter().all(is_different));
        }
        let changes = diff.iter().filter(|op| is_different(op)).count();
        assert_eq!(hunks.iter().map(|hunk| hunk.ops.len()).sum::<usize>(), changes);
    }
}

#[test]
fn running_twice_gives_the_same_hunks() {
    for diff in comparisons(6) {
        for context in 0..3 {
            let first = hunkify_diff(diff.iter().cloned().collect(), context);
            let second = hunkify_diff(diff.iter().cloned().collect(), context);
            assert_eq!(first, second);
        }
    }
}

#[test]
fn a_clone_equals_the_line() {
    let lines = vec![
        LineOp::Removed("r".to_string()),
        LineOp::Added("a".to_string()),
        LineOp::Unchanged("l".to_string(), "r".to_string()),
    ];
    for line in &lines {
        assert_eq!(&line.clone(), line);
    }
}
