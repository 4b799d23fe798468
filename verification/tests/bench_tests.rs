use benchmark_kernel::argument::parse_dgemm_arguments;
use benchmark_kernel::bench::{BenchAction, BenchRun, ExecError};
use benchmark_kernel::config::Summary;

fn run_all(run: &mut BenchRun) -> Vec<BenchAction> {
    let mut actions = Vec::new();
    loop {
        let a = run.step(Ok(()));
        actions.push(a);
        if matches!(a, BenchAction::Finish | BenchAction::Fail(_)) {
            return actions;
        }
    }
}

#[test]
fn plan_with_check() {
    let args: Vec<String> = ["lib", "--verify", "--warmup=2", "--iter=3"].iter().map(|s| s.to_string()).collect();
    let (_, t) = parse_dgemm_arguments(&args).unwrap();
    let mut run = BenchRun::new(&t);
    assert_eq!(run_all(&mut run), vec![BenchAction::Prepare, BenchAction::Check, BenchAction::Warmup, BenchAction::Warmup, BenchAction::Measure, BenchAction::Measure, BenchAction::Measure, BenchAction::Finish]);
}

#[test]
fn plan_with_defaults() {
    let args: Vec<String> = vec!["lib".to_string()];
    let (_, t) = parse_dgemm_arguments(&args).unwrap();
    assert_eq!(t.summary, Summary::Max);
    let mut run = BenchRun::new(&t);
    assert_eq!(run_all(&mut run), vec![BenchAction::Prepare, BenchAction::Measure, BenchAction::Measure, BenchAction::Measure, BenchAction::Measure, BenchAction::Measure, BenchAction::Finish]);
}

#[test]
fn failure_stops_the_run() {
    let args: Vec<String> = ["lib", "--verify"].iter().map(|s| s.to_string()).collect();
    let (_, t) = parse_dgemm_arguments(&args).unwrap();
    let mut run = BenchRun::new(&t);
    assert_eq!(run.step(Ok(())), BenchAction::Prepare);
    assert_eq!(run.step(Ok(())), BenchAction::Check);
    assert_eq!(run.step(Err(ExecError::Invalid)), BenchAction::Fail(ExecError::Invalid));
    assert!(run.finished);
}

#[test]
fn failed_preparation() {
    let args: Vec<String> = vec!["lib".to_string()];
    let (_, t) = parse_dgemm_arguments(&args).unwrap();
    let mut run = BenchRun::new(&t);
    assert_eq!(run.step(Ok(())), BenchAction::Prepare);
    assert_eq!(run.step(Err(ExecError::LibNotFound)), BenchAction::Fail(ExecError::LibNotFound));
}

#[test]
fn exec_error_messages() {
    assert_eq!(ExecError::LibNotFound.message(), "library not found");
    assert_eq!(ExecError::FunctionNotFound.message(), "kernel function not found");
    assert_eq!(ExecError::Invalid.message(), "invalid result");
    assert_eq!(ExecError::MemAllocFailed.message(), "memory allocation failed");
}

#[test]
fn summary_labels() {
    assert_eq!(Summary::Min.label(), "min");
    assert_eq!(Summary::Avg.label(), "avg");
    assert_eq!(Summary::Max.label(), "max");
}
