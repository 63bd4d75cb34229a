use citrus::engine::{Engine, EngineStep, JobFailure, JobOutcome, TaskResult};
use citrus::store::TaskStore;
use citrus::task::{tokenize, Job, Task};

fn job(name: &str, command: &str) -> Job {
    Job::new(String::from(name), String::from(command))
}

fn task(name: &str, jobs: Vec<Job>) -> Task {
    Task::new(String::from(name), jobs)
}

#[test]
fn tokenize_splits_on_whitespace() {
    let tokens = tokenize("echo hi");
    assert_eq!(tokens.len(), 2);
    assert_eq!(tokens[0], "echo");
    assert_eq!(tokens[1], "hi");
}

#[test]
fn tokenize_collapses_repeated_whitespace() {
    let tokens = tokenize("  ls \t -l  \n x ");
    assert_eq!(tokens.len(), 3);
    assert_eq!(tokens[0], "ls");
    assert_eq!(tokens[1], "-l");
    assert_eq!(tokens[2], "x");
}

#[test]
fn tokenize_empty_and_blank_commands() {
    assert_eq!(tokenize("").len(), 0);
    assert_eq!(tokenize("   \t ").len(), 0);
}

#[test]
fn run_with_outcomes_all_success() {
    let t = task("build", vec![job("compile", "echo hi"), job("test", "true")]);
    let outcomes = vec![
        JobOutcome::Ran { exit_code: 0 },
        JobOutcome::Ran { exit_code: 0 },
    ];
    let r = citrus::engine::run_with_outcomes(&t, &outcomes);
    assert!(matches!(r, TaskResult::Succeeded));
}

#[test]
fn run_with_outcomes_halts_at_first_failure() {
    let t = task(
        "mixed",
        vec![job("ok1", "true"), job("fail", "false"), job("ok2", "true")],
    );
    let outcomes = vec![
        JobOutcome::Ran { exit_code: 0 },
        JobOutcome::Ran { exit_code: 1 },
        JobOutcome::Ran { exit_code: 0 },
    ];
    let r = citrus::engine::run_with_outcomes(&t, &outcomes);
    match r {
        TaskResult::Failed {
            index,
            name,
            failure,
        } => {
            assert_eq!(index, 1);
            assert_eq!(name, "fail");
            assert!(matches!(failure, JobFailure::ExitFailure { exit_code: 1 }));
        }
        TaskResult::Succeeded => panic!("expected failure at index 1"),
    }
}

#[test]
fn engine_runs_jobs_in_order_and_succeeds() {
    let t = task("build", vec![job("compile", "echo hi"), job("test", "true")]);
    let mut engine = Engine::new(t);

    match engine.next_step() {
        EngineStep::Launch {
            index,
            program,
            args,
        } => {
            assert_eq!(index, 0);
            assert_eq!(program, "echo");
            assert_eq!(args.len(), 1);
            assert_eq!(args[0], "hi");
        }
        EngineStep::Finished { .. } => panic!("expected the first launch"),
    }
    engine.report_outcome(JobOutcome::Ran { exit_code: 0 });

    match engine.next_step() {
        EngineStep::Launch {
            index,
            program,
            args,
        } => {
            assert_eq!(index, 1);
            assert_eq!(program, "true");
            assert_eq!(args.len(), 0);
        }
        EngineStep::Finished { .. } => panic!("expected the second launch"),
    }
    engine.report_outcome(JobOutcome::Ran { exit_code: 0 });

    match engine.next_step() {
        EngineStep::Finished { result } => assert!(matches!(result, TaskResult::Succeeded)),
        EngineStep::Launch { .. } => panic!("no third job exists"),
    }
}

#[test]
fn engine_halts_on_first_failure_and_launches_nothing_more() {
    let t = task(
        "mixed",
        vec![job("ok", "true"), job("fail", "false"), job("never", "true")],
    );
    let mut engine = Engine::new(t);

    match engine.next_step() {
        EngineStep::Launch { index, .. } => assert_eq!(index, 0),
        EngineStep::Finished { .. } => panic!("expected launch of job 0"),
    }
    engine.report_outcome(JobOutcome::Ran { exit_code: 0 });

    match engine.next_step() {
        EngineStep::Launch { index, .. } => assert_eq!(index, 1),
        EngineStep::Finished { .. } => panic!("expected launch of job 1"),
    }
    engine.report_outcome(JobOutcome::Ran { exit_code: 7 });

    match engine.next_step() {
        EngineStep::Finished { result } => match result {
            TaskResult::Failed {
                index,
                name,
                failure,
            } => {
                assert_eq!(index, 1);
                assert_eq!(name, "fail");
                assert!(matches!(failure, JobFailure::ExitFailure { exit_code: 7 }));
            }
            TaskResult::Succeeded => panic!("expected a failed result"),
        },
        EngineStep::Launch { index, .. } => {
            panic!("job {} must not be launched after a failure", index)
        }
    }

    match engine.next_step() {
        EngineStep::Finished { result } => {
            assert!(matches!(result, TaskResult::Failed { index: 1, .. }))
        }
        EngineStep::Launch { .. } => panic!("a finished engine launches nothing"),
    }
}

#[test]
fn engine_scenario_single_failing_job() {
    let t = task("bad", vec![job("x", "false")]);
    let mut engine = Engine::new(t);
    match engine.next_step() {
        EngineStep::Launch { index, program, .. } => {
            assert_eq!(index, 0);
            assert_eq!(program, "false");
        }
        EngineStep::Finished { .. } => panic!("expected a launch"),
    }
    engine.report_outcome(JobOutcome::Ran { exit_code: 1 });
    match engine.next_step() {
        EngineStep::Finished { result } => match result {
            TaskResult::Failed { index, failure, .. } => {
                assert_eq!(index, 0);
                assert!(matches!(failure, JobFailure::ExitFailure { exit_code: 1 }));
            }
            TaskResult::Succeeded => panic!("expected a failed result"),
        },
        EngineStep::Launch { .. } => panic!("nothing left to launch"),
    }
}

#[test]
fn engine_rejects_blank_command_without_skipping() {
    let t = task("bad", vec![job("blank", "   "), job("after", "true")]);
    let mut engine = Engine::new(t);
    match engine.next_step() {
        EngineStep::Finished { result } => match result {
            TaskResult::Failed {
                index,
                name,
                failure,
            } => {
                assert_eq!(index, 0);
                assert_eq!(name, "blank");
                assert!(matches!(failure, JobFailure::InvalidJob));
            }
            TaskResult::Succeeded => panic!("a blank command cannot succeed"),
        },
        EngineStep::Launch { .. } => panic!("a blank command cannot be launched"),
    }
}

#[test]
fn engine_reports_launch_failures() {
    let t = task("ghost", vec![job("missing", "no-such-program-anywhere")]);
    let mut engine = Engine::new(t);
    match engine.next_step() {
        EngineStep::Launch { .. } => {}
        EngineStep::Finished { .. } => panic!("expected a launch"),
    }
    engine.report_outcome(JobOutcome::LaunchFailed {
        reason: String::from("not found"),
    });
    match engine.next_step() {
        EngineStep::Finished { result } => match result {
            TaskResult::Failed { index, failure, .. } => {
                assert_eq!(index, 0);
                match failure {
                    JobFailure::LaunchFailed { reason } => assert_eq!(reason, "not found"),
                    _ => panic!("expected a launch failure"),
                }
            }
            TaskResult::Succeeded => panic!("expected a failed result"),
        },
        EngineStep::Launch { .. } => panic!("nothing left to launch"),
    }
}

#[test]
fn engine_with_no_jobs_succeeds() {
    let t = task("empty", vec![]);
    let mut engine = Engine::new(t);
    match engine.next_step() {
        EngineStep::Finished { result } => assert!(matches!(result, TaskResult::Succeeded)),
        EngineStep::Launch { .. } => panic!("no job to launch"),
    }
}

#[test]
fn load_and_execute_missing_task_fails_not_found() {
    let store = TaskStore::new();
    let r = store.load_task("missing");
    assert!(matches!(r, Err(citrus::store::StoreError::NotFound)));
}

#[test]
fn invalid_job_is_runnable_check() {
    assert!(job("a", "echo hi").is_runnable());
    assert!(!job("b", "").is_runnable());
    assert!(!job("c", " \t ").is_runnable());
}
