//! The execution engine: runs a task's jobs strictly in sequence and stops at
//! the first failure.  The engine itself never spawns a process; it decides,
//! step by step, which program to launch next, and is told each job's outcome.
//! The caller that owns the processes drives the loop: it asks for the next
//! step, performs the launch, and reports the outcome, until the engine is
//! finished.  Every decision — which job is next, when to halt, what the
//! terminal result is — is made here and verified.
use crate::task::{command_tokens, tokenize, JobView, Task};
use vstd::prelude::*;

verus! {

/// What happened to one job that was launched: the program ran to completion
/// with an exit code, or it could not be started at all.
pub enum JobOutcome {
    Ran { exit_code: i32 },
    LaunchFailed { reason: String },
}

/// The mathematical content of a `JobOutcome`.
pub ghost enum JobOutcomeView {
    Ran { exit_code: int },
    LaunchFailed { reason: Seq<char> },
}

impl View for JobOutcome {
    type V = JobOutcomeView;

    open spec fn view(&self) -> JobOutcomeView {
        match self {
            JobOutcome::Ran { exit_code } => JobOutcomeView::Ran { exit_code: *exit_code as int },
            JobOutcome::LaunchFailed { reason } => JobOutcomeView::LaunchFailed {
                reason: reason@,
            },
        }
    }
}

/// Why a job ended the task: its command had no token to execute, its program
/// could not be started, or it exited with a non-zero code.
pub enum JobFailure {
    InvalidJob,
    LaunchFailed { reason: String },
    ExitFailure { exit_code: i32 },
}

/// The mathematical content of a `JobFailure`.
pub ghost enum JobFailureView {
    InvalidJob,
    LaunchFailed { reason: Seq<char> },
    ExitFailure { exit_code: int },
}

impl View for JobFailure {
    type V = JobFailureView;

    open spec fn view(&self) -> JobFailureView {
        match self {
            JobFailure::InvalidJob => JobFailureView::InvalidJob,
            JobFailure::LaunchFailed { reason } => JobFailureView::LaunchFailed {
                reason: reason@,
            },
            JobFailure::ExitFailure { exit_code } => JobFailureView::ExitFailure {
                exit_code: *exit_code as int,
            },
        }
    }
}

/// The terminal outcome of a task: every job succeeded, or execution halted
/// at the first failing job, carrying that job's index, name and failure.
pub enum TaskResult {
    Succeeded,
    Failed { index: usize, name: String, failure: JobFailure },
}

/// The mathematical content of a `TaskResult`.
pub ghost enum TaskResultView {
    Succeeded,
    Failed { index: int, name: Seq<char>, failure: JobFailureView },
}

impl View for TaskResult {
    type V = TaskResultView;

    open spec fn view(&self) -> TaskResultView {
        match self {
            TaskResult::Succeeded => TaskResultView::Succeeded,
            TaskResult::Failed { index, name, failure } => TaskResultView::Failed {
                index: *index as int,
                name: name@,
                failure: failure@,
            },
        }
    }
}

/// The terminal result a job's outcome forces, if any: success is an exit
/// code of zero, everything else halts the task at this job.
pub open spec fn outcome_failure(o: JobOutcomeView) -> Option<JobFailureView> {
    match o {
        JobOutcomeView::Ran { exit_code } => if exit_code == 0 {
            None
        } else {
            Some(JobFailureView::ExitFailure { exit_code })
        },
        JobOutcomeView::LaunchFailed { reason } => Some(JobFailureView::LaunchFailed { reason }),
    }
}

/// The result of running `jobs` from index `i` on, when job `j` would get
/// outcome `outcomes[j]`: the first job from `i` on whose command has no
/// token, or whose outcome is failing, halts the run there; if none does, the
/// task succeeds.
pub open spec fn run_from(jobs: Seq<JobView>, outcomes: Seq<JobOutcomeView>, i: int) -> TaskResultView
    decreases jobs.len() - i,
{
    if i < 0 || i >= jobs.len() {
        TaskResultView::Succeeded
    } else if command_tokens(jobs[i].command).len() == 0 {
        TaskResultView::Failed { index: i, name: jobs[i].name, failure: JobFailureView::InvalidJob }
    } else {
        match outcome_failure(outcomes[i]) {
            Some(f) => TaskResultView::Failed { index: i, name: jobs[i].name, failure: f },
            None => run_from(jobs, outcomes, i + 1),
        }
    }
}

/// The terminal result of a task whose job `j` would get outcome
/// `outcomes[j]`.
pub open spec fn spec_run(jobs: Seq<JobView>, outcomes: Seq<JobOutcomeView>) -> TaskResultView {
    run_from(jobs, outcomes, 0)
}

/// Execution halts at the first failure: the result never depends on the
/// outcomes of jobs after the failing index, so a job past that index leaves
/// no trace in the result whatever its outcome would have been.
pub proof fn lemma_halt_on_first_failure(
    jobs: Seq<JobView>,
    outcomes1: Seq<JobOutcomeView>,
    outcomes2: Seq<JobOutcomeView>,
    index: int,
    name: Seq<char>,
    failure: JobFailureView,
)
    requires
        spec_run(jobs, outcomes1) == (TaskResultView::Failed { index, name, failure }),
        forall|j: int| 0 <= j <= index && j < outcomes1.len() ==> outcomes1[j] == outcomes2[j],
        outcomes1.len() >= jobs.len(),
        outcomes2.len() >= jobs.len(),
    ensures
        spec_run(jobs, outcomes2) == (TaskResultView::Failed { index, name, failure }),
{
    lemma_run_from_prefix(jobs, outcomes1, outcomes2, 0, index, name, failure);
}

proof fn lemma_run_from_prefix(
    jobs: Seq<JobView>,
    outcomes1: Seq<JobOutcomeView>,
    outcomes2: Seq<JobOutcomeView>,
    i: int,
    index: int,
    name: Seq<char>,
    failure: JobFailureView,
)
    requires
        0 <= i,
        run_from(jobs, outcomes1, i) == (TaskResultView::Failed { index, name, failure }),
        forall|j: int| 0 <= j <= index && j < outcomes1.len() ==> outcomes1[j] == outcomes2[j],
        outcomes1.len() >= jobs.len(),
        outcomes2.len() >= jobs.len(),
    ensures
        run_from(jobs, outcomes2, i) == (TaskResultView::Failed { index, name, failure }),
    decreases jobs.len() - i,
{
    if i < jobs.len() {
        if command_tokens(jobs[i].command).len() == 0 {
        } else {
            match outcome_failure(outcomes1[i]) {
                Some(_) => {
                    assert(i <= index);
                },
                None => {
                    assert(i <= index) by {
                        lemma_failed_index_ge(jobs, outcomes1, i + 1, index, name, failure);
                    }
                    lemma_run_from_prefix(jobs, outcomes1, outcomes2, i + 1, index, name, failure);
                },
            }
        }
    }
}

/// A failure reported by `run_from(jobs, outcomes, i)` lies at or after `i`.
proof fn lemma_failed_index_ge(
    jobs: Seq<JobView>,
    outcomes: Seq<JobOutcomeView>,
    i: int,
    index: int,
    name: Seq<char>,
    failure: JobFailureView,
)
    requires
        0 <= i,
        run_from(jobs, outcomes, i) == (TaskResultView::Failed { index, name, failure }),
    ensures
        index >= i,
    decreases jobs.len() - i,
{
    if i < jobs.len() {
        if command_tokens(jobs[i].command).len() == 0 {
        } else if outcome_failure(outcomes[i]) is Some {
        } else {
            lemma_failed_index_ge(jobs, outcomes, i + 1, index, name, failure);
        }
    }
}

/// Runs a task against a fixed table of job outcomes: job `j`, if it is
/// reached, is deemed to have outcome `outcomes[j]`.  This is the engine's
/// whole decision logic in one call, for a caller that already knows every
/// outcome; execution against live processes goes through `Engine` instead.
pub fn run_with_outcomes(task: &Task, outcomes: &Vec<JobOutcome>) -> (r: TaskResult)
    requires
        outcomes@.len() >= task@.jobs.len(),
    ensures
        r@ == spec_run(task@.jobs, outcomes@.map_values(|o: JobOutcome| o@)),
{
    let ghost jobs = task@.jobs;
    let ghost outs = outcomes@.map_values(|o: JobOutcome| o@);
    let mut i: usize = 0;
    while i < task.jobs.len()
        invariant
            0 <= i <= jobs.len(),
            jobs == task@.jobs,
            outs == outcomes@.map_values(|o: JobOutcome| o@),
            outs.len() >= jobs.len(),
            run_from(jobs, outs, i as int) == spec_run(jobs, outs),
        decreases jobs.len() - i,
    {
        let job = &task.jobs[i];
        assert(jobs[i as int] == task.jobs@[i as int]@);
        let tokens = tokenize(&job.command);
        assert(tokens@.len() == tokens@.map_values(|t: String| t@).len());
        if tokens.len() == 0 {
            return TaskResult::Failed {
                index: i,
                name: job.name.clone(),
                failure: JobFailure::InvalidJob,
            };
        }
        assert(outs[i as int] == outcomes@[i as int]@);
        match &outcomes[i] {
            JobOutcome::Ran { exit_code } => {
                if *exit_code != 0 {
                    return TaskResult::Failed {
                        index: i,
                        name: job.name.clone(),
                        failure: JobFailure::ExitFailure { exit_code: *exit_code },
                    };
                }
            },
            JobOutcome::LaunchFailed { reason } => {
                return TaskResult::Failed {
                    index: i,
                    name: job.name.clone(),
                    failure: JobFailure::LaunchFailed { reason: reason.clone() },
                };
            },
        }
        i = i + 1;
    }
    TaskResult::Succeeded
}

/// Job `j` of `jobs` completed successfully under the outcome log `log`: its
/// command had a token to run and it exited with code zero.
pub open spec fn job_ok(jobs: Seq<JobView>, log: Seq<JobOutcomeView>, j: int) -> bool {
    &&& command_tokens(jobs[j].command).len() > 0
    &&& log[j] == (JobOutcomeView::Ran { exit_code: 0 })
}

/// Where the engine stands between two calls.
enum Phase {
    Ready,
    Running,
    Finished,
}

/// The engine's state, as the contracts see it: about to start job `next`
/// (all earlier jobs succeeded), waiting for the outcome of job `index`, or
/// finished with a terminal result.
pub ghost enum EngineState {
    Ready { next: int },
    Running { index: int },
    Finished { result: TaskResultView },
}

/// What the caller must do next: launch the given program with the given
/// arguments as the job at `index`, or nothing — the task is finished.
pub enum EngineStep {
    Launch { index: usize, program: String, args: Vec<String> },
    Finished { result: TaskResult },
}

/// The sequential executor for one task.  `next_step` hands out at most one
/// job at a time, in index order; `report_outcome` takes the job's result and
/// either moves on or halts the task for good.  The ghost launch and outcome
/// logs pin down that no job is ever launched past a failure.
pub struct Engine {
    task: Task,
    position: usize,
    phase: Phase,
    outcome: Option<TaskResult>,
    launched: Ghost<Seq<int>>,
    reported: Ghost<Seq<JobOutcomeView>>,
}

impl Engine {
    /// The jobs this engine executes, in order.
    pub closed spec fn jobs(&self) -> Seq<JobView> {
        self.task@.jobs
    }

    /// The name of the task being executed.
    pub closed spec fn task_name(&self) -> Seq<char> {
        self.task@.name
    }

    /// The indexes of the jobs launched so far, in the order they were
    /// handed out.
    pub closed spec fn launch_log(&self) -> Seq<int> {
        self.launched@
    }

    /// The outcomes reported so far, in job order.
    pub closed spec fn outcome_log(&self) -> Seq<JobOutcomeView> {
        self.reported@
    }

    /// The engine's current state.
    pub closed spec fn state(&self) -> EngineState {
        match self.phase {
            Phase::Ready => EngineState::Ready { next: self.position as int },
            Phase::Running => EngineState::Running { index: self.position as int },
            Phase::Finished => EngineState::Finished {
                result: match self.outcome {
                    Some(r) => r@,
                    None => TaskResultView::Succeeded,
                },
            },
        }
    }

    /// Job `j` completed successfully: it had a runnable command and exited
    /// with code zero.
    pub open spec fn job_succeeded(&self, j: int) -> bool {
        job_ok(self.jobs(), self.outcome_log(), j)
    }

    /// The engine's invariant, established by `new` and preserved by every
    /// step: the state is consistent with the logs, every job before the
    /// current point succeeded, the launch log is exactly the indexes below
    /// the number of launches, and a failure at `index` means nothing past
    /// `index` was launched or reported.
    pub closed spec fn wf(&self) -> bool {
        &&& self.launched@ == Seq::new(self.launched@.len(), |j: int| j)
        &&& match self.phase {
            Phase::Ready => {
                &&& self.position <= self.jobs().len()
                &&& self.outcome is None
                &&& self.reported@.len() == self.position
                &&& self.launched@.len() == self.position
                &&& forall|j: int| 0 <= j < self.position ==> #[trigger] job_ok(self.task@.jobs, self.reported@, j)
            },
            Phase::Running => {
                &&& self.position < self.jobs().len()
                &&& self.outcome is None
                &&& self.reported@.len() == self.position
                &&& self.launched@.len() == self.position + 1
                &&& command_tokens(self.jobs()[self.position as int].command).len() > 0
                &&& forall|j: int| 0 <= j < self.position ==> #[trigger] job_ok(self.task@.jobs, self.reported@, j)
            },
            Phase::Finished => {
                &&& self.outcome is Some
                &&& match self.outcome {
                    Some(r) => match r@ {
                        TaskResultView::Succeeded => {
                            &&& self.reported@.len() == self.jobs().len()
                            &&& self.launched@.len() == self.jobs().len()
                            &&& forall|j: int| 0 <= j < self.jobs().len() ==> #[trigger] job_ok(self.task@.jobs, self.reported@, j)
                        },
                        TaskResultView::Failed { index, name, failure } => {
                            &&& 0 <= index < self.jobs().len()
                            &&& name == self.jobs()[index].name
                            &&& forall|j: int| 0 <= j < index ==> #[trigger] job_ok(self.task@.jobs, self.reported@, j)
                            &&& match failure {
                                JobFailureView::InvalidJob => {
                                    &&& command_tokens(self.jobs()[index].command).len() == 0
                                    &&& self.reported@.len() == index
                                    &&& self.launched@.len() == index
                                },
                                JobFailureView::LaunchFailed { reason } => {
                                    &&& self.reported@.len() == index + 1
                                    &&& self.launched@.len() == index + 1
                                    &&& self.reported@[index] == (JobOutcomeView::LaunchFailed {
                                        reason,
                                    })
                                },
                                JobFailureView::ExitFailure { exit_code } => {
                                    &&& exit_code != 0
                                    &&& self.reported@.len() == index + 1
                                    &&& self.launched@.len() == index + 1
                                    &&& self.reported@[index] == (JobOutcomeView::Ran { exit_code })
                                },
                            }
                        },
                    },
                    None => false,
                }
            },
        }
    }

    /// Takes ownership of a task, ready to start its first job.
    pub fn new(task: Task) -> (e: Engine)
        ensures
            e.wf(),
            e.jobs() == task@.jobs,
            e.task_name() == task@.name,
            e.state() == (EngineState::Ready { next: 0 }),
            e.launch_log() == Seq::<int>::empty(),
            e.outcome_log() == Seq::<JobOutcomeView>::empty(),
    {
        let e = Engine {
            task,
            position: 0,
            phase: Phase::Ready,
            outcome: None,
            launched: Ghost(Seq::empty()),
            reported: Ghost(Seq::empty()),
        };
        proof {
            assert(e.launched@ =~= Seq::new(0, |j: int| j));
        }
        e
    }

    /// Decides what happens next.  Before job `next`: if all jobs are done
    /// the task succeeds; if the next command has no token the task fails
    /// there with `InvalidJob` and nothing more is launched; otherwise the
    /// job is handed out for launching, split into program and arguments.
    /// After the task is finished, the terminal result is repeated.
    pub fn next_step(&mut self) -> (step: EngineStep)
        requires
            old(self).wf(),
            !(old(self).state() is Running),
        ensures
            final(self).wf(),
            final(self).jobs() == old(self).jobs(),
            final(self).task_name() == old(self).task_name(),
            final(self).outcome_log() == old(self).outcome_log(),
            match old(self).state() {
                EngineState::Ready { next } => {
                    if next == old(self).jobs().len() {
                        &&& step is Finished
                        &&& step->Finished_result@ == TaskResultView::Succeeded
                        &&& final(self).state() == (EngineState::Finished {
                            result: TaskResultView::Succeeded,
                        })
                        &&& final(self).launch_log() == old(self).launch_log()
                    } else if command_tokens(old(self).jobs()[next].command).len() == 0 {
                        &&& step is Finished
                        &&& step->Finished_result@ == (TaskResultView::Failed {
                            index: next,
                            name: old(self).jobs()[next].name,
                            failure: JobFailureView::InvalidJob,
                        })
                        &&& final(self).state() == (EngineState::Finished {
                            result: step->Finished_result@,
                        })
                        &&& final(self).launch_log() == old(self).launch_log()
                    } else {
                        &&& step is Launch
                        &&& step->Launch_index == next
                        &&& step->Launch_program@ == command_tokens(
                            old(self).jobs()[next].command,
                        )[0]
                        &&& step->Launch_args@.map_values(|a: String| a@) == command_tokens(
                            old(self).jobs()[next].command,
                        ).drop_first()
                        &&& final(self).state() == (EngineState::Running { index: next })
                        &&& final(self).launch_log() == old(self).launch_log().push(next)
                    }
                },
                EngineState::Running { .. } => false,
                EngineState::Finished { result } => {
                    &&& step is Finished
                    &&& step->Finished_result@ == result
                    &&& final(self).state() == old(self).state()
                    &&& final(self).launch_log() == old(self).launch_log()
                },
            },
    {
        match self.phase {
            Phase::Finished => {
                let r = match &self.outcome {
                    Some(r) => duplicate_result(r),
                    None => TaskResult::Succeeded,
                };
                EngineStep::Finished { result: r }
            },
            Phase::Ready | Phase::Running => {
                if self.position == self.task.jobs.len() {
                    self.phase = Phase::Finished;
                    self.outcome = Some(TaskResult::Succeeded);
                    EngineStep::Finished { result: TaskResult::Succeeded }
                } else {
                    let job = &self.task.jobs[self.position];
                    assert(self.jobs()[self.position as int] == job@);
                    let mut tokens = tokenize(&job.command);
                    assert(tokens@.len() == tokens@.map_values(|t: String| t@).len());
                    if tokens.len() == 0 {
                        let r = TaskResult::Failed {
                            index: self.position,
                            name: job.name.clone(),
                            failure: JobFailure::InvalidJob,
                        };
                        let step = EngineStep::Finished { result: duplicate_result(&r) };
                        self.phase = Phase::Finished;
                        self.outcome = Some(r);
                        step
                    } else {
                        let program = tokens.remove(0);
                        let ghost toks = command_tokens(job@.command);
                        assert(program@ == toks[0]);
                        assert(tokens@.map_values(|t: String| t@) =~= toks.drop_first());
                        let index = self.position;
                        self.phase = Phase::Running;
                        proof {
                            self.launched@ = self.launched@.push(index as int);
                            assert(self.launched@ =~= Seq::new(
                                self.launched@.len(),
                                |j: int| j,
                            ));
                        }
                        EngineStep::Launch { index, program, args: tokens }
                    }
                }
            },
        }
    }

    /// Takes the outcome of the job handed out by the last `next_step`.  An
    /// exit code of zero moves the engine on to the next job; any other
    /// outcome finishes the task as failed at this job, and no further job
    /// will ever be handed out.
    pub fn report_outcome(&mut self, outcome: JobOutcome)
        requires
            old(self).wf(),
            old(self).state() is Running,
        ensures
            final(self).wf(),
            final(self).jobs() == old(self).jobs(),
            final(self).task_name() == old(self).task_name(),
            final(self).launch_log() == old(self).launch_log(),
            final(self).outcome_log() == old(self).outcome_log().push(outcome@),
            match old(self).state() {
                EngineState::Running { index } => match outcome_failure(outcome@) {
                    None => final(self).state() == (EngineState::Ready { next: index + 1 }),
                    Some(f) => final(self).state() == (EngineState::Finished {
                        result: TaskResultView::Failed {
                            index,
                            name: old(self).jobs()[index].name,
                            failure: f,
                        },
                    }),
                },
                _ => false,
            },
    {
        let n = self.task.jobs.len();
        assert(self.position < n);
        proof {
            self.reported@ = self.reported@.push(outcome@);
            assert forall|j: int| 0 <= j < old(self).position as int implies #[trigger] job_ok(
                self.task@.jobs,
                self.reported@,
                j,
            ) by {
                assert(job_ok(old(self).task@.jobs, old(self).reported@, j));
                assert(self.reported@[j] == old(self).reported@[j]);
            }
        }
        let failed: Option<JobFailure> = match &outcome {
            JobOutcome::Ran { exit_code } => {
                if *exit_code == 0 {
                    None
                } else {
                    Some(JobFailure::ExitFailure { exit_code: *exit_code })
                }
            },
            JobOutcome::LaunchFailed { reason } => {
                Some(JobFailure::LaunchFailed { reason: reason.clone() })
            },
        };
        match failed {
            None => {
                self.phase = Phase::Ready;
                self.position = self.position + 1;
            },
            Some(failure) => {
                let job = &self.task.jobs[self.position];
                assert(self.jobs()[self.position as int] == job@);
                self.phase = Phase::Finished;
                self.outcome = Some(
                    TaskResult::Failed { index: self.position, name: job.name.clone(), failure },
                );
            },
        }
    }

    /// Once the engine has finished with a failure at some index, the launch
    /// log holds no index past it and no index twice: a job after the failing
    /// one was never handed out, in particular never launched.
    pub proof fn lemma_no_launch_after_failure(&self)
        requires
            self.wf(),
            self.state() is Finished,
            self.state()->Finished_result is Failed,
        ensures
            forall|k: int|
                0 <= k < self.launch_log().len() ==> #[trigger] self.launch_log()[k]
                    <= self.state()->Finished_result->Failed_index,
            forall|k1: int, k2: int|
                0 <= k1 < k2 < self.launch_log().len() ==> self.launch_log()[k1]
                    != self.launch_log()[k2],
    {
    }

    /// Once the engine has finished, every job before the terminal point ran
    /// in order and succeeded: the outcome log holds, for each of them, an
    /// exit with code zero.
    pub proof fn lemma_prior_jobs_succeeded(&self)
        requires
            self.wf(),
            self.state() is Finished,
        ensures
            match self.state()->Finished_result {
                TaskResultView::Succeeded => {
                    &&& self.outcome_log().len() == self.jobs().len()
                    &&& forall|j: int| 0 <= j < self.jobs().len() ==> #[trigger] self.job_succeeded(j)
                },
                TaskResultView::Failed { index, .. } => {
                    &&& forall|j: int| 0 <= j < index ==> #[trigger] self.job_succeeded(j)
                },
            },
    {
    }
}

/// Rebuilds a task result value equal to the given one.
fn duplicate_result(r: &TaskResult) -> (d: TaskResult)
    ensures
        d@ == r@,
{
    match r {
        TaskResult::Succeeded => TaskResult::Succeeded,
        TaskResult::Failed { index, name, failure } => TaskResult::Failed {
            index: *index,
            name: name.clone(),
            failure: match failure {
                JobFailure::InvalidJob => JobFailure::InvalidJob,
                JobFailure::LaunchFailed { reason } => JobFailure::LaunchFailed {
                    reason: reason.clone(),
                },
                JobFailure::ExitFailure { exit_code } => JobFailure::ExitFailure {
                    exit_code: *exit_code,
                },
            },
        },
    }
}

} // verus!
