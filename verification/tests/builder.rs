use rsh::shell::builder::{BuildError, Builder};

fn word(b: &mut Builder, w: &str) {
    b.push_word(w.to_string());
}

#[test]
fn single_command_builds_one_bare_stage() {
    let mut b = Builder::new();
    word(&mut b, "ls");
    word(&mut b, "-l");
    b.semicolon();
    let (pipeline, errors) = b.finish();
    assert_eq!(pipeline.stages.len(), 1);
    assert_eq!(pipeline.stages[0].argv, vec!["ls".to_string(), "-l".to_string()]);
    assert_eq!(pipeline.stages[0].infd, None);
    assert_eq!(pipeline.stages[0].outfd, None);
    assert_eq!(pipeline.pipes.len(), 0);
    assert_eq!(errors.len(), 0);
}

#[test]
fn three_stage_chain_wires_two_pipes() {
    let mut b = Builder::new();
    word(&mut b, "a");
    b.pipe_made(3, 4);
    word(&mut b, "b");
    b.pipe_made(5, 6);
    word(&mut b, "c");
    b.semicolon();
    let (pipeline, errors) = b.finish();
    assert_eq!(errors.len(), 0);
    assert_eq!(pipeline.stages.len(), 3);
    assert_eq!(pipeline.pipes, vec![(3, 4), (5, 6)]);
    assert_eq!(pipeline.stages[0].outfd, Some(4));
    assert_eq!(pipeline.stages[0].infd, None);
    assert_eq!(pipeline.stages[1].infd, Some(3));
    assert_eq!(pipeline.stages[1].outfd, Some(6));
    assert_eq!(pipeline.stages[2].infd, Some(5));
    assert_eq!(pipeline.stages[2].outfd, None);
}

#[test]
fn wildcard_appends_one_argument_per_entry() {
    let mut b = Builder::new();
    word(&mut b, "echo");
    let entries = vec!["a.txt".to_string(), "b.txt".to_string(), "c.txt".to_string()];
    b.expand_wildcard(&entries);
    b.semicolon();
    let (pipeline, errors) = b.finish();
    assert_eq!(errors.len(), 0);
    assert_eq!(pipeline.stages.len(), 1);
    assert_eq!(pipeline.stages[0].argv.len(), 1 + entries.len());
    assert_eq!(
        pipeline.stages[0].argv,
        vec![
            "echo".to_string(),
            "a.txt".to_string(),
            "b.txt".to_string(),
            "c.txt".to_string()
        ]
    );
}

#[test]
fn wildcard_on_empty_listing_appends_nothing() {
    let mut b = Builder::new();
    word(&mut b, "echo");
    b.expand_wildcard(&Vec::new());
    b.semicolon();
    let (pipeline, _) = b.finish();
    assert_eq!(pipeline.stages[0].argv, vec!["echo".to_string()]);
}

#[test]
fn pipe_after_redirection_backpatches_the_stage_output() {
    // `a > f | b`: the redirection closes the stage out, the pipe rewires it
    let mut b = Builder::new();
    word(&mut b, "a");
    b.redirect_output(&"f".to_string(), Some(7));
    b.pipe_made(8, 9);
    word(&mut b, "bcmd");
    b.semicolon();
    let (pipeline, errors) = b.finish();
    assert_eq!(errors.len(), 0);
    assert_eq!(pipeline.stages.len(), 2);
    // the file descriptor was superseded by the pipe's write end
    assert_eq!(pipeline.stages[0].outfd, Some(9));
    assert_eq!(pipeline.stages[1].infd, Some(8));
    assert_eq!(pipeline.pipes, vec![(8, 9)]);
}

#[test]
fn input_redirection_sets_stage_input() {
    let mut b = Builder::new();
    word(&mut b, "wc");
    b.redirect_input(&"in.txt".to_string(), Some(5));
    b.semicolon();
    let (pipeline, errors) = b.finish();
    assert_eq!(errors.len(), 0);
    assert_eq!(pipeline.stages.len(), 1);
    assert_eq!(pipeline.stages[0].infd, Some(5));
    assert_eq!(pipeline.stages[0].outfd, None);
}

#[test]
fn failed_open_still_closes_the_stage_and_reports() {
    let mut b = Builder::new();
    word(&mut b, "wc");
    b.redirect_input(&"gone".to_string(), None);
    b.semicolon();
    let (pipeline, errors) = b.finish();
    assert_eq!(pipeline.stages.len(), 1);
    assert_eq!(pipeline.stages[0].infd, None);
    assert_eq!(errors.len(), 1);
    assert!(matches!(&errors[0], BuildError::OpenFailed(p) if p == "gone"));
}

#[test]
fn missing_input_target_discards_pending_arguments() {
    let mut b = Builder::new();
    word(&mut b, "wc");
    b.redirect_input_missing();
    b.semicolon();
    let (pipeline, errors) = b.finish();
    assert_eq!(pipeline.stages.len(), 0);
    assert_eq!(errors.len(), 1);
    assert!(matches!(errors[0], BuildError::MissingTarget));
}

#[test]
fn missing_output_target_keeps_pending_arguments() {
    let mut b = Builder::new();
    word(&mut b, "wc");
    b.redirect_output_missing();
    b.semicolon();
    let (pipeline, errors) = b.finish();
    assert_eq!(pipeline.stages.len(), 1);
    assert_eq!(pipeline.stages[0].argv, vec!["wc".to_string()]);
    assert_eq!(errors.len(), 1);
    assert!(matches!(errors[0], BuildError::MissingTarget));
}

#[test]
fn pipe_with_nothing_before_it_reports() {
    let mut b = Builder::new();
    b.pipe_made(3, 4);
    word(&mut b, "x");
    b.semicolon();
    let (pipeline, errors) = b.finish();
    assert_eq!(errors.len(), 1);
    assert!(matches!(errors[0], BuildError::NoCommandBeforePipe));
    // the pipe exists all the same, and the next stage reads its read end
    assert_eq!(pipeline.pipes, vec![(3, 4)]);
    assert_eq!(pipeline.stages.len(), 1);
    assert_eq!(pipeline.stages[0].infd, Some(3));
}

#[test]
fn pipe_failure_closes_the_stage_without_output() {
    let mut b = Builder::new();
    word(&mut b, "a");
    b.pipe_failed();
    word(&mut b, "bcmd");
    b.semicolon();
    let (pipeline, errors) = b.finish();
    assert_eq!(errors.len(), 1);
    assert!(matches!(errors[0], BuildError::PipeFailed));
    assert_eq!(pipeline.stages.len(), 2);
    assert_eq!(pipeline.stages[0].outfd, None);
    assert_eq!(pipeline.stages[1].infd, None);
    assert_eq!(pipeline.pipes.len(), 0);
}

#[test]
fn carried_descriptor_survives_a_semicolon() {
    // a deliberate quirk: `x | a ; b` hands the pipe's read end to both a
    // and b, because `;` does not clear the carried descriptor
    let mut b = Builder::new();
    word(&mut b, "x");
    b.pipe_made(10, 11);
    word(&mut b, "a");
    b.semicolon();
    word(&mut b, "bcmd");
    b.semicolon();
    let (pipeline, _) = b.finish();
    assert_eq!(pipeline.stages.len(), 3);
    assert_eq!(pipeline.stages[1].infd, Some(10));
    assert_eq!(pipeline.stages[2].infd, Some(10));
}

#[test]
fn cd_failure_is_recorded_and_parsing_goes_on() {
    let mut b = Builder::new();
    b.cd_result(&"/nowhere".to_string(), false);
    word(&mut b, "ls");
    b.semicolon();
    let (pipeline, errors) = b.finish();
    assert_eq!(errors.len(), 1);
    assert!(matches!(&errors[0], BuildError::CdFailed(p) if p == "/nowhere"));
    assert_eq!(pipeline.stages.len(), 1);
}

#[test]
fn cd_success_leaves_no_trace() {
    let mut b = Builder::new();
    b.cd_result(&"/tmp".to_string(), true);
    b.semicolon();
    let (pipeline, errors) = b.finish();
    assert_eq!(errors.len(), 0);
    assert_eq!(pipeline.stages.len(), 0);
}
