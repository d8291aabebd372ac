use hunk_diff::{diff_nonempty, hunkify_diff, Hunk, LineOp};

fn unchanged(text: &str) -> LineOp {
    LineOp::Unchanged(text.to_string(), text.to_string())
}

fn removed(text: &str) -> LineOp {
    LineOp::Removed(text.to_string())
}

fn added(text: &str) -> LineOp {
    LineOp::Added(text.to_string())
}

fn sample() -> Vec<LineOp> {
    vec![
        unchanged("a"),
        removed("b"),
        unchanged("c"),
        unchanged("d"),
        unchanged("e"),
        added("f"),
    ]
}

#[test]
fn context_one_splits_into_two_hunks() {
    let hunks = hunkify_diff(sample(), 1);
    assert_eq!(
        hunks,
        vec![
            Hunk {
                start_left: 1,
                start_right: 1,
                ops: vec![unchanged("a"), removed("b"), unchanged("c")],
            },
            Hunk {
                start_left: 5,
                start_right: 4,
                ops: vec![unchanged("e"), added("f")],
            },
        ]
    );
}

#[test]
fn context_two_merges_into_one_hunk() {
    let hunks = hunkify_diff(sample(), 2);
    assert_eq!(
        hunks,
        vec![Hunk {
            start_left: 1,
            start_right: 1,
            ops: sample(),
        }]
    );
}

#[test]
fn all_unchanged_gives_no_hunks() {
    let diff = vec![unchanged("a"), unchanged("b"), unchanged("c")];
    assert!(!diff_nonempty(&diff));
    assert_eq!(hunkify_diff(diff, 3), Vec::<Hunk>::new());
}

#[test]
fn empty_comparison_gives_no_hunks() {
    assert!(!diff_nonempty(&[]));
    assert_eq!(hunkify_diff(Vec::new(), 0), Vec::<Hunk>::new());
    assert_eq!(hunkify_diff(Vec::new(), 5), Vec::<Hunk>::new());
}

#[test]
fn context_zero_keeps_changes_only() {
    let hunks = hunkify_diff(sample(), 0);
    assert_eq!(
        hunks,
        vec![
            Hunk {
                start_left: 2,
                start_right: 1,
                ops: vec![removed("b")],
            },
            Hunk {
                start_left: 5,
                start_right: 5,
                ops: vec![added("f")],
            },
        ]
    );
}

#[test]
fn anchors_count_the_first_line_of_the_hunk() {
    // a hunk that a removed line opens counts that line on the left only
    let diff = vec![removed("x"), unchanged("y")];
    assert_eq!(
        hunkify_diff(diff, 0),
        vec![Hunk {
            start_left: 1,
            start_right: 0,
            ops: vec![removed("x")],
        }]
    );
    // one that an added line opens counts it on the right only
    let diff = vec![added("x"), unchanged("y")];
    assert_eq!(
        hunkify_diff(diff, 0),
        vec![Hunk {
            start_left: 0,
            start_right: 1,
            ops: vec![added("x")],
        }]
    );
    // one that an unchanged line opens counts it on both sides
    let diff = vec![
        unchanged("p"),
        unchanged("q"),
        unchanged("r"),
        added("s"),
    ];
    assert_eq!(
        hunkify_diff(diff, 1),
        vec![Hunk {
            start_left: 3,
            start_right: 3,
            ops: vec![unchanged("r"), added("s")],
        }]
    );
}

#[test]
fn adjacent_changes_share_a_hunk() {
    let diff = vec![
        unchanged("a"),
        removed("b"),
        added("c"),
        removed("d"),
        unchanged("e"),
    ];
    assert_eq!(
        hunkify_diff(diff, 0),
        vec![Hunk {
            start_left: 2,
            start_right: 1,
            ops: vec![removed("b"), added("c"), removed("d")],
        }]
    );
}

#[test]
fn a_gap_of_twice_the_context_is_bridged() {
    // two unchanged lines between the changes: each is next to one of them
    let diff = vec![removed("a"), unchanged("b"), unchanged("c"), added("d")];
    assert_eq!(hunkify_diff(diff, 1).len(), 1);
    // three unchanged lines: the middle one is dropped
    let diff = vec![
        removed("a"),
        unchanged("b"),
        unchanged("c"),
        unchanged("d"),
        added("e"),
    ];
    let hunks = hunkify_diff(diff, 1);
    assert_eq!(
        hunks,
        vec![
            Hunk {
                start_left: 1,
                start_right: 0,
                ops: vec![removed("a"), unchanged("b")],
            },
            Hunk {
                start_left: 4,
                start_right: 3,
                ops: vec![unchanged("d"), added("e")],
            },
        ]
    );
}

#[test]
fn the_largest_context_keeps_every_line() {
    let hunks = hunkify_diff(sample(), usize::MAX);
    assert_eq!(
        hunks,
        vec![Hunk {
            start_left: 1,
            start_right: 1,
            ops: sample(),
        }]
    );
}

#[test]
fn the_two_copies_of_an_unchanged_line_are_kept() {
    let diff = vec![
        LineOp::Unchanged("left".to_string(), "right".to_string()),
        removed("x"),
    ];
    assert_eq!(
        hunkify_diff(diff, 1),
        vec![Hunk {
            start_left: 1,
            start_right: 1,
            ops: vec![
                LineOp::Unchanged("left".to_string(), "right".to_string()),
                removed("x"),
            ],
        }]
    );
}

#[test]
fn nonempty_when_a_line_was_removed_or_added() {
    assert!(diff_nonempty(&sample()));
    assert!(diff_nonempty(&[removed("x")]));
    assert!(diff_nonempty(&[unchanged("a"), added("x")]));
    assert!(!diff_nonempty(&[unchanged("a")]));
}
