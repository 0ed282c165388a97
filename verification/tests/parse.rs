use nix::fcntl::{open, OFlag};
use nix::sys::stat::Mode;
use nix::unistd::{chdir, close, getcwd, read};
use rsh::shell::builder::BuildError;
use rsh::shell::Shell;

fn shell() -> Shell {
    Shell::new("/tmp".to_string(), "/".to_string())
}

fn no_entries() -> Vec<String> {
    Vec::new()
}

fn read_all(fd: i32) -> Vec<u8> {
    let mut out = Vec::new();
    let mut buf = [0u8; 256];
    loop {
        match read(fd, &mut buf) {
            Ok(0) => break,
            Ok(n) => out.extend_from_slice(&buf[..n]),
            Err(e) => panic!("read failed: {}", e),
        }
    }
    out
}

#[test]
fn single_command_has_one_stage_and_no_descriptors() {
    let (pipeline, errors) = shell().parse("echo hi".to_string(), &no_entries());
    assert_eq!(errors.len(), 0);
    assert_eq!(pipeline.stages.len(), 1);
    assert_eq!(pipeline.stages[0].argv, vec!["echo".to_string(), "hi".to_string()]);
    assert_eq!(*pipeline.stages[0].get_infd(), None);
    assert_eq!(*pipeline.stages[0].get_outfd(), None);
    assert_eq!(pipeline.pipes.len(), 0);
}

#[test]
fn three_stage_line_allocates_two_real_pipes() {
    let (pipeline, errors) = shell().parse("a | b | c".to_string(), &no_entries());
    assert_eq!(errors.len(), 0);
    assert_eq!(pipeline.stages.len(), 3);
    assert_eq!(pipeline.pipes.len(), 2);
    assert_eq!(pipeline.stages[0].outfd, Some(pipeline.pipes[0].1));
    assert_eq!(pipeline.stages[1].infd, Some(pipeline.pipes[0].0));
    assert_eq!(pipeline.stages[1].outfd, Some(pipeline.pipes[1].1));
    assert_eq!(pipeline.stages[2].infd, Some(pipeline.pipes[1].0));
    assert_eq!(pipeline.stages[2].outfd, None);
    // the descriptors are live: bytes written to stage 1's output arrive at
    // stage 2's input
    let w = pipeline.stages[0].outfd.unwrap();
    let r = pipeline.stages[1].infd.unwrap();
    assert_eq!(nix::unistd::write(w, b"ping"), Ok(4));
    close(w).unwrap();
    let mut buf = [0u8; 16];
    assert_eq!(read(r, &mut buf), Ok(4));
    assert_eq!(&buf[..4], b"ping");
    for (a, b) in &pipeline.pipes {
        let _ = close(*a);
        let _ = close(*b);
    }
}

#[test]
fn input_redirection_reads_exactly_the_file_bytes() {
    let path = "/tmp/rsh_parse_in_test.txt";
    let fd = open(path, OFlag::O_WRONLY | OFlag::O_CREAT | OFlag::O_TRUNC, Mode::from_bits_truncate(0o644)).unwrap();
    nix::unistd::write(fd, b"line one\n").unwrap();
    close(fd).unwrap();

    let line = format!("wc < {}", path);
    let (pipeline, errors) = shell().parse(line, &no_entries());
    assert_eq!(errors.len(), 0);
    assert_eq!(pipeline.stages.len(), 1);
    let infd = pipeline.stages[0].infd.expect("input descriptor missing");
    assert_eq!(read_all(infd), b"line one\n".to_vec());
    close(infd).unwrap();
}

#[test]
fn output_redirection_truncates_on_each_run() {
    let path = "/tmp/rsh_parse_out_test.txt";

    let (pipeline, errors) = shell().parse(format!("x > {}", path), &no_entries());
    assert_eq!(errors.len(), 0);
    let out1 = pipeline.stages[0].outfd.expect("output descriptor missing");
    nix::unistd::write(out1, b"the first, longer contents").unwrap();
    close(out1).unwrap();

    // the same line again: the file must hold only the second run's bytes
    let (pipeline2, errors2) = shell().parse(format!("x > {}", path), &no_entries());
    assert_eq!(errors2.len(), 0);
    let out2 = pipeline2.stages[0].outfd.expect("output descriptor missing");
    nix::unistd::write(out2, b"second").unwrap();
    close(out2).unwrap();

    let rfd = open(path, OFlag::O_RDONLY, Mode::S_IRUSR).unwrap();
    assert_eq!(read_all(rfd), b"second".to_vec());
    close(rfd).unwrap();
}

#[test]
fn unreadable_input_target_is_reported_and_stage_inherits_stdin() {
    let (pipeline, errors) = shell().parse(
        "wc < /tmp/rsh_no_such_file_anywhere".to_string(),
        &no_entries(),
    );
    assert_eq!(pipeline.stages.len(), 1);
    assert_eq!(pipeline.stages[0].infd, None);
    assert_eq!(errors.len(), 1);
    assert!(
        matches!(&errors[0], BuildError::OpenFailed(p) if p == "/tmp/rsh_no_such_file_anywhere")
    );
}

#[test]
fn redirection_without_target_is_a_usage_error() {
    let (pipeline, errors) = shell().parse("wc <".to_string(), &no_entries());
    assert_eq!(pipeline.stages.len(), 0);
    assert_eq!(errors.len(), 1);
    assert!(matches!(errors[0], BuildError::MissingTarget));
}

#[test]
fn pipe_without_preceding_command_is_reported() {
    let (pipeline, errors) = shell().parse("| wc".to_string(), &no_entries());
    assert_eq!(errors.len(), 1);
    assert!(matches!(errors[0], BuildError::NoCommandBeforePipe));
    assert_eq!(pipeline.pipes.len(), 1);
    assert_eq!(pipeline.stages.len(), 1);
    assert_eq!(pipeline.stages[0].infd, Some(pipeline.pipes[0].0));
    for (a, b) in &pipeline.pipes {
        let _ = close(*a);
        let _ = close(*b);
    }
}

#[test]
fn wildcard_expands_to_the_listing_entries() {
    let entries = vec!["notes.txt".to_string(), "todo.md".to_string()];
    let (pipeline, errors) = shell().parse("echo *".to_string(), &entries);
    assert_eq!(errors.len(), 0);
    assert_eq!(pipeline.stages.len(), 1);
    assert_eq!(
        pipeline.stages[0].argv,
        vec!["echo".to_string(), "notes.txt".to_string(), "todo.md".to_string()]
    );
}

#[test]
fn cd_changes_and_reports_in_the_shells_own_process() {
    let original = getcwd().unwrap();

    // a bare `cd` goes to the home directory
    let sh = Shell::new("/tmp".to_string(), original.display().to_string());
    let (_, errors) = sh.parse("cd".to_string(), &no_entries());
    assert_eq!(errors.len(), 0);
    assert_eq!(getcwd().unwrap().display().to_string(), "/tmp");

    // a nonexistent target is reported and the directory stays put
    let (_, errors2) = sh.parse("cd /tmp/rsh_no_such_dir_here".to_string(), &no_entries());
    assert_eq!(errors2.len(), 1);
    assert!(
        matches!(&errors2[0], BuildError::CdFailed(p) if p == "/tmp/rsh_no_such_dir_here")
    );
    assert_eq!(getcwd().unwrap().display().to_string(), "/tmp");

    // an explicit existing target works
    let (_, errors3) = sh.parse("cd /".to_string(), &no_entries());
    assert_eq!(errors3.len(), 0);
    assert_eq!(getcwd().unwrap().display().to_string(), "/");

    chdir(&original).unwrap();
}

#[test]
fn lookahead_stops_at_operators() {
    let sh = shell();
    let toks = rsh::shell::tokenizer::tokenize("cd | x");
    assert_eq!(sh.get_path(&toks, 1), None);
    assert_eq!(sh.get_path(&toks, 2), Some("x".to_string()));
    assert_eq!(sh.get_path(&toks, 99), None);
}

#[test]
fn empty_line_builds_nothing() {
    let (pipeline, errors) = shell().parse("".to_string(), &no_entries());
    assert_eq!(pipeline.stages.len(), 0);
    assert_eq!(pipeline.pipes.len(), 0);
    assert_eq!(errors.len(), 0);
}

#[test]
fn semicolon_separates_segments() {
    let (pipeline, errors) = shell().parse("a one ; b two".to_string(), &no_entries());
    assert_eq!(errors.len(), 0);
    assert_eq!(pipeline.stages.len(), 2);
    assert_eq!(pipeline.stages[0].argv, vec!["a".to_string(), "one".to_string()]);
    assert_eq!(pipeline.stages[1].argv, vec!["b".to_string(), "two".to_string()]);
}
