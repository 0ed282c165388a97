use nix::unistd::close;
use rsh::shell::command::{Command, Pipeline};
use rsh::shell::orchestrator::{execution_schedule, Op};
use rsh::shell::Shell;

fn stage(args: &[&str], infd: Option<i32>, outfd: Option<i32>) -> Command {
    Command::from_fd(args.iter().map(|a| a.to_string()).collect(), infd, outfd)
}

#[test]
fn two_stage_schedule_spawns_closes_then_waits() {
    // echo | cat over one pipe (3 = read end, 4 = write end)
    let pipeline = Pipeline {
        stages: vec![stage(&["echo", "hi"], None, Some(4)), stage(&["cat"], Some(3), None)],
        pipes: vec![(3, 4)],
    };
    let plan = execution_schedule(&pipeline);
    assert_eq!(plan.len(), 6);
    assert!(matches!(&plan[0], Op::Spawn { stage: 0, child_close } if child_close == &vec![3]));
    assert!(matches!(plan[1], Op::Close(4)));
    assert!(
        matches!(&plan[2], Op::Spawn { stage: 1, child_close } if child_close.is_empty())
    );
    assert!(matches!(plan[3], Op::Close(3)));
    assert!(matches!(plan[4], Op::Wait(0)));
    assert!(matches!(plan[5], Op::Wait(1)));
}

#[test]
fn every_pipe_end_is_closed_exactly_once() {
    let pipeline = Pipeline {
        stages: vec![
            stage(&["a"], None, Some(11)),
            stage(&["b"], Some(10), Some(13)),
            stage(&["c"], Some(12), None),
        ],
        pipes: vec![(10, 11), (12, 13)],
    };
    let plan = execution_schedule(&pipeline);
    let mut closed: Vec<i32> = plan
        .iter()
        .filter_map(|op| match op {
            Op::Close(fd) => Some(*fd),
            _ => None,
        })
        .collect();
    closed.sort();
    assert_eq!(closed, vec![10, 11, 12, 13]);
}

#[test]
fn unconsumed_pipe_ends_are_closed_before_the_waits() {
    // `| x`: the pipe exists, x reads it, nobody writes it; both ends must
    // still be reconciled, and only before any wait
    let pipeline = Pipeline {
        stages: vec![stage(&["x"], Some(20), None)],
        pipes: vec![(20, 21)],
    };
    let plan = execution_schedule(&pipeline);
    let mut closed: Vec<i32> = Vec::new();
    let mut waits: Vec<usize> = Vec::new();
    let mut first_wait_at: Option<usize> = None;
    let mut last_close_at: Option<usize> = None;
    for (at, op) in plan.iter().enumerate() {
        match op {
            Op::Close(fd) => {
                closed.push(*fd);
                last_close_at = Some(at);
            }
            Op::Wait(k) => {
                waits.push(*k);
                if first_wait_at.is_none() {
                    first_wait_at = Some(at);
                }
            }
            Op::Spawn { .. } => {}
        }
    }
    closed.sort();
    assert_eq!(closed, vec![20, 21]);
    assert_eq!(waits, vec![0]);
    assert!(last_close_at.unwrap() < first_wait_at.unwrap());
}

#[test]
fn children_close_every_open_end_they_do_not_use() {
    let pipeline = Pipeline {
        stages: vec![
            stage(&["a"], None, Some(11)),
            stage(&["b"], Some(10), Some(13)),
            stage(&["c"], Some(12), None),
        ],
        pipes: vec![(10, 11), (12, 13)],
    };
    let plan = execution_schedule(&pipeline);
    for op in &plan {
        if let Op::Spawn { stage: k, child_close } = op {
            let own = [pipeline.stages[*k].infd, pipeline.stages[*k].outfd];
            for fd in child_close {
                assert!(!own.contains(&Some(*fd)));
            }
        }
    }
    // stage 0 spawns while all four ends are open and uses only the first
    // write end: its child must close the other three
    if let Op::Spawn { stage: 0, child_close } = &plan[0] {
        let mut cc = child_close.clone();
        cc.sort();
        assert_eq!(cc, vec![10, 12, 13]);
    } else {
        panic!("plan must start by spawning stage 0");
    }
}

#[test]
fn live_pipeline_leaves_no_descriptor_open() {
    let sh = Shell::new("/tmp".to_string(), "/".to_string());
    let (pipeline, errors) = sh.parse("echo hi | cat".to_string(), &Vec::new());
    assert_eq!(errors.len(), 0);
    assert_eq!(pipeline.pipes.len(), 1);
    let plan = execution_schedule(&pipeline);
    // run only the parent-side closes of the plan: each must succeed, which
    // it can only do once per descriptor
    for op in &plan {
        if let Op::Close(fd) = op {
            close(*fd).expect("a scheduled close failed, so it was not open");
        }
    }
    // afterwards every registered pipe end is really gone from the process
    for (r, w) in &pipeline.pipes {
        assert!(close(*r).is_err());
        assert!(close(*w).is_err());
    }
}
