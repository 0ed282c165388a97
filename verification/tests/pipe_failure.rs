use nix::unistd::close;
use rsh::shell::builder::BuildError;
use rsh::shell::Shell;

#[test]
fn exhausted_descriptor_table_reports_pipe_failure() {
    // hoard pipes until the OS refuses one, so the next allocation fails
    let mut hoard: Vec<(i32, i32)> = Vec::new();
    loop {
        match nix::unistd::pipe() {
            Ok(p) => hoard.push(p),
            Err(_) => break,
        }
        if hoard.len() > 1_000_000 {
            panic!("descriptor table refuses to fill");
        }
    }

    let sh = Shell::new("/tmp".to_string(), "/".to_string());
    let (pipeline, errors) = sh.parse("a | b".to_string(), &Vec::new());

    for (r, w) in &hoard {
        let _ = close(*r);
        let _ = close(*w);
    }

    assert!(errors.iter().any(|e| matches!(e, BuildError::PipeFailed)));
    assert_eq!(pipeline.pipes.len(), 0);
    assert_eq!(pipeline.stages.len(), 2);
    assert_eq!(pipeline.stages[0].outfd, None);
    assert_eq!(pipeline.stages[1].infd, None);
}
