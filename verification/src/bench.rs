//! The course of a benchmark run: prepare the kernel, check it when asked, warm up,
//! then take the measured runs. The program performs each action and reports how it
//! went; this module decides what comes next.

use vstd::prelude::*;
use vstd::string::*;

use crate::config::TestConfig;

verus! {

/// Why a benchmark run failed.
#[derive(Debug, Clone, Copy, PartialEq, Eq, Structural)]
pub enum ExecError {
    MemAllocFailed,
    LibNotFound,
    FunctionNotFound,
    Invalid,
}

/// The message that describes an `ExecError`.
pub open spec fn exec_error_text(e: ExecError) -> Seq<char> {
    match e {
        ExecError::LibNotFound => "library not found"@,
        ExecError::FunctionNotFound => "kernel function not found"@,
        ExecError::Invalid => "invalid result"@,
        ExecError::MemAllocFailed => "memory allocation failed"@,
    }
}

impl ExecError {
    /// Describes the error.
    pub fn message(&self) -> (s: String)
        ensures
            s@ == exec_error_text(*self),
    {
        match self {
            ExecError::LibNotFound => String::from_str("library not found"),
            ExecError::FunctionNotFound => String::from_str("kernel function not found"),
            ExecError::Invalid => String::from_str("invalid result"),
            ExecError::MemAllocFailed => String::from_str("memory allocation failed"),
        }
    }
}

/// What the program does next.
#[derive(Debug, Clone, Copy, PartialEq, Eq, Structural)]
pub enum BenchAction {
    /// Load the kernel library, find the kernel and set up its operands.
    Prepare,
    /// Run the kernel once on the result test's operands and compare the result.
    Check,
    /// Run the kernel once without timing it.
    Warmup,
    /// Run the kernel once and record its time.
    Measure,
    /// Stop: the run is complete.
    Finish,
    /// Stop: the run failed.
    Fail(ExecError),
}

/// Where a benchmark run stands.
#[derive(Debug, Clone, Copy, PartialEq, Eq, Structural)]
pub struct BenchRun {
    pub prepared: bool,
    pub check_pending: bool,
    pub warmup_left: u16,
    pub measure_left: u16,
    pub finished: bool,
}

/// A run that has done nothing yet.
pub open spec fn initial_run(verify: bool, warmup: u16, iter: u16) -> BenchRun {
    BenchRun {
        prepared: false,
        check_pending: verify,
        warmup_left: warmup,
        measure_left: iter,
        finished: false,
    }
}

/// The next state and action of `s`, given how the last action went (`Ok(())` before
/// the first action): a failure ends the run with that failure; otherwise the run
/// prepares, checks if asked to, warms up, measures, and finishes.
pub open spec fn next_action(s: BenchRun, last: Result<(), ExecError>) -> (BenchRun, BenchAction) {
    match last {
        Err(e) => (BenchRun { finished: true, ..s }, BenchAction::Fail(e)),
        Ok(()) => if !s.prepared {
            (BenchRun { prepared: true, ..s }, BenchAction::Prepare)
        } else if s.check_pending {
            (BenchRun { check_pending: false, ..s }, BenchAction::Check)
        } else if s.warmup_left > 0 {
            (BenchRun { warmup_left: (s.warmup_left - 1) as u16, ..s }, BenchAction::Warmup)
        } else if s.measure_left > 0 {
            (BenchRun { measure_left: (s.measure_left - 1) as u16, ..s }, BenchAction::Measure)
        } else {
            (BenchRun { finished: true, ..s }, BenchAction::Finish)
        },
    }
}

impl BenchRun {
    /// A run of the benchmark that `test` describes.
    pub fn new(test: &TestConfig) -> (r: BenchRun)
        ensures
            r == initial_run(test.verify, test.warmup, test.iter),
    {
        BenchRun {
            prepared: false,
            check_pending: test.verify,
            warmup_left: test.warmup,
            measure_left: test.iter,
            finished: false,
        }
    }

    /// Decides the next action, given how the last one went; see `next_action`.
    pub fn step(&mut self, last: Result<(), ExecError>) -> (a: BenchAction)
        requires
            !old(self).finished,
        ensures
            (*final(self), a) == next_action(*old(self), last),
    {
        match last {
            Err(e) => {
                self.finished = true;
                BenchAction::Fail(e)
            },
            Ok(()) => {
                if !self.prepared {
                    self.prepared = true;
                    BenchAction::Prepare
                } else if self.check_pending {
                    self.check_pending = false;
                    BenchAction::Check
                } else if self.warmup_left > 0 {
                    self.warmup_left = self.warmup_left - 1;
                    BenchAction::Warmup
                } else if self.measure_left > 0 {
                    self.measure_left = self.measure_left - 1;
                    BenchAction::Measure
                } else {
                    self.finished = true;
                    BenchAction::Finish
                }
            },
        }
    }
}

/// The actions of up to `k` steps from `s` when every action succeeds, up to and
/// including the first stop.
pub open spec fn actions_when_all_succeed(s: BenchRun, k: nat) -> Seq<BenchAction>
    decreases k,
{
    if k == 0 {
        Seq::empty()
    } else {
        let (s2, a) = next_action(s, Ok(()));
        if a is Finish || a is Fail {
            seq![a]
        } else {
            seq![a] + actions_when_all_succeed(s2, (k - 1) as nat)
        }
    }
}

/// `count` copies of `a`.
pub open spec fn repeated(a: BenchAction, count: nat) -> Seq<BenchAction> {
    Seq::new(count, |i: int| a)
}

/// The actions a successful run takes: prepare, check if asked to, `warmup` warm-up
/// runs, `iter` measured runs, finish.
pub open spec fn planned_actions(verify: bool, warmup: u16, iter: u16) -> Seq<BenchAction> {
    seq![BenchAction::Prepare] + (if verify {
        seq![BenchAction::Check]
    } else {
        Seq::empty()
    }) + repeated(BenchAction::Warmup, warmup as nat) + repeated(BenchAction::Measure, iter as nat)
        + seq![BenchAction::Finish]
}

/// The number of steps a successful run takes.
pub open spec fn planned_steps(verify: bool, warmup: u16, iter: u16) -> nat {
    (2 + (if verify {
        1int
    } else {
        0int
    }) + warmup + iter) as nat
}

/// The measured part of a run: `iter` measured runs, then finish.
proof fn lemma_measure_phase(s: BenchRun, k: nat)
    requires
        s.prepared,
        !s.check_pending,
        s.warmup_left == 0,
        k >= s.measure_left + 1,
    ensures
        actions_when_all_succeed(s, k) == repeated(BenchAction::Measure, s.measure_left as nat) + seq![
            BenchAction::Finish,
        ],
    decreases s.measure_left,
{
    if s.measure_left == 0 {
        assert(actions_when_all_succeed(s, k) =~= seq![BenchAction::Finish]);
        assert(repeated(BenchAction::Measure, 0) =~= Seq::<BenchAction>::empty());
    } else {
        let s2 = next_action(s, Ok(())).0;
        lemma_measure_phase(s2, (k - 1) as nat);
        assert(repeated(BenchAction::Measure, s.measure_left as nat) =~= seq![BenchAction::Measure]
            + repeated(BenchAction::Measure, s2.measure_left as nat));
    }
}

/// The warm-up part of a run and what follows it.
proof fn lemma_warmup_phase(s: BenchRun, k: nat)
    requires
        s.prepared,
        !s.check_pending,
        k >= s.warmup_left + s.measure_left + 1,
    ensures
        actions_when_all_succeed(s, k) == repeated(BenchAction::Warmup, s.warmup_left as nat)
            + repeated(BenchAction::Measure, s.measure_left as nat) + seq![BenchAction::Finish],
    decreases s.warmup_left,
{
    if s.warmup_left == 0 {
        lemma_measure_phase(s, k);
        assert(repeated(BenchAction::Warmup, 0) =~= Seq::<BenchAction>::empty());
        assert(Seq::<BenchAction>::empty() + repeated(BenchAction::Measure, s.measure_left as nat)
            =~= repeated(BenchAction::Measure, s.measure_left as nat));
    } else {
        let s2 = next_action(s, Ok(())).0;
        lemma_warmup_phase(s2, (k - 1) as nat);
        assert(repeated(BenchAction::Warmup, s.warmup_left as nat) =~= seq![BenchAction::Warmup]
            + repeated(BenchAction::Warmup, s2.warmup_left as nat));
    }
}

/// A run in which every action succeeds takes exactly the planned actions: it
/// prepares, checks if asked to, warms up `warmup` times, measures `iter` times and
/// finishes successfully.
pub proof fn lemma_successful_run(verify: bool, warmup: u16, iter: u16)
    ensures
        actions_when_all_succeed(initial_run(verify, warmup, iter), planned_steps(verify, warmup, iter))
            == planned_actions(verify, warmup, iter),
{
    let s0 = initial_run(verify, warmup, iter);
    let k = planned_steps(verify, warmup, iter);
    let s1 = next_action(s0, Ok(())).0;
    let rest = repeated(BenchAction::Warmup, warmup as nat) + repeated(BenchAction::Measure, iter as nat)
        + seq![BenchAction::Finish];
    if verify {
        let s2 = next_action(s1, Ok(())).0;
        lemma_warmup_phase(s2, (k - 2) as nat);
        assert(actions_when_all_succeed(s1, (k - 1) as nat) =~= seq![BenchAction::Check] + rest);
        assert(actions_when_all_succeed(s0, k) =~= seq![BenchAction::Prepare] + (seq![
            BenchAction::Check,
        ] + rest));
    } else {
        lemma_warmup_phase(s1, (k - 1) as nat);
        assert(actions_when_all_succeed(s0, k) =~= seq![BenchAction::Prepare] + rest);
    }
    assert(planned_actions(verify, warmup, iter) =~= seq![BenchAction::Prepare] + (if verify {
        seq![BenchAction::Check]
    } else {
        Seq::empty()
    }) + rest);
}

/// A failed action ends the run with its error, whatever the run's state.
pub proof fn lemma_failure_ends_run(s: BenchRun, e: ExecError)
    ensures
        next_action(s, Err(e)).1 == BenchAction::Fail(e),
        next_action(s, Err(e)).0.finished,
{
}

} // verus!
