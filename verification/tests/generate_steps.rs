use hunk_diff::{
    advance, can_align, diff_nonempty, generate_diff, DiffError, LineOp, Step, TemplateFile,
};

fn unchanged(text: &str) -> LineOp {
    LineOp::Unchanged(text.to_string(), text.to_string())
}

fn removed(text: &str) -> LineOp {
    LineOp::Removed(text.to_string())
}

fn added(text: &str) -> LineOp {
    LineOp::Added(text.to_string())
}

#[test]
fn alignment_of_two_texts() {
    let diff = generate_diff("a\nb\nc\n", "a\nc\nd\n");
    assert_eq!(
        diff,
        vec![
            unchanged("a"),
            removed("b"),
            unchanged("c"),
            added("d"),
            unchanged(""),
        ]
    );
    assert!(diff_nonempty(&diff));
}

#[test]
fn the_target_is_the_left_side() {
    assert_eq!(
        generate_diff("old", "new"),
        vec![removed("old"), added("new")]
    );
}

#[test]
fn equal_texts_have_no_change() {
    let diff = generate_diff("one\ntwo", "one\ntwo");
    assert_eq!(diff, vec![unchanged("one"), unchanged("two")]);
    assert!(!diff_nonempty(&diff));
}

#[test]
fn empty_texts_give_an_empty_comparison() {
    assert_eq!(generate_diff("", ""), Vec::<LineOp>::new());
    assert_eq!(generate_diff("", "x"), vec![added("x")]);
    assert_eq!(generate_diff("x", ""), vec![removed("x")]);
}

#[test]
fn a_final_newline_on_one_side_is_a_change() {
    assert_eq!(
        generate_diff("a\n", "a"),
        vec![unchanged("a"), removed("")]
    );
    assert_eq!(generate_diff("a", "a\n"), vec![unchanged("a"), added("")]);
}

#[test]
fn small_texts_can_be_aligned() {
    assert!(can_align("", ""));
    assert!(can_align("a\nb\nc\n", "a\nc\nd\n"));
}

#[test]
fn the_steps_lead_to_the_comparison() {
    let step = Step::ReadSource;
    let step = advance(step, Ok("Hello {{name}}".to_string()));
    assert_eq!(
        step,
        Step::Render {
            text: "Hello {{name}}".to_string()
        }
    );
    let step = advance(step, Ok("Hello world".to_string()));
    assert_eq!(
        step,
        Step::ReadTarget {
            rendered: "Hello world".to_string()
        }
    );
    let step = advance(step, Ok("Hello there".to_string()));
    assert_eq!(
        step,
        Step::Done(Ok(vec![removed("Hello there"), added("Hello world")]))
    );
}

#[test]
fn an_unreadable_source_ends_with_an_io_error() {
    let step = advance(Step::ReadSource, Err("permission denied".to_string()));
    assert_eq!(
        step,
        Step::Done(Err(DiffError::Io {
            file: TemplateFile::Source,
            cause: "permission denied".to_string()
        }))
    );
}

#[test]
fn a_failed_rendering_ends_with_a_render_error() {
    let step = advance(Step::ReadSource, Ok("{{#if}}".to_string()));
    let step = advance(step, Err("invalid template".to_string()));
    assert_eq!(
        step,
        Step::Done(Err(DiffError::Render {
            cause: "invalid template".to_string()
        }))
    );
}

#[test]
fn a_missing_target_ends_with_an_io_error_for_the_target() {
    let step = advance(Step::ReadSource, Ok("text".to_string()));
    let step = advance(step, Ok("text".to_string()));
    let step = advance(step, Err("No such file or directory".to_string()));
    assert_eq!(
        step,
        Step::Done(Err(DiffError::Io {
            file: TemplateFile::Target,
            cause: "No such file or directory".to_string()
        }))
    );
    assert!(!matches!(step, Step::Done(Ok(_))));
}

#[test]
fn a_finished_production_stays_as_it_is() {
    let done = advance(
        Step::Done(Ok(vec![added("x")])),
        Ok("ignored".to_string()),
    );
    assert_eq!(done, Step::Done(Ok(vec![added("x")])));
    let failed = advance(
        Step::Done(Err(DiffError::Render {
            cause: "bad".to_string(),
        })),
        Err("ignored".to_string()),
    );
    assert_eq!(
        failed,
        Step::Done(Err(DiffError::Render {
            cause: "bad".to_string()
        }))
    );
}

#[test]
fn errors_name_the_operation_that_failed() {
    let source = DiffError::Io {
        file: TemplateFile::Source,
        cause: String::new(),
    };
    let target = DiffError::Io {
        file: TemplateFile::Target,
        cause: String::new(),
    };
    let render = DiffError::Render {
        cause: String::new(),
    };
    assert_eq!(source.context(), "read template source file");
    assert_eq!(target.context(), "read template target file");
    assert_eq!(render.context(), "render template");
}

#[test]
fn newlines_are_counted() {
    assert_eq!(hunk_diff::count_newlines(""), 0);
    assert_eq!(hunk_diff::count_newlines("no end"), 0);
    assert_eq!(hunk_diff::count_newlines("a\nb\n"), 2);
    assert_eq!(hunk_diff::count_newlines("\n\n\n"), 3);
    assert_eq!(hunk_diff::count_newlines("é\nü"), 1);
}
