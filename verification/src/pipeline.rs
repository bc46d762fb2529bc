//! The order in which a task is brought to run.
//!
//! A run goes through its stages one after the other and never back. The
//! caller does the work that leads out of a stage and reports whether it
//! succeeded; the first failure ends the run where it stands.

use crate::error::{TaskError, TaskErrorView};
use crate::text::same;
use vstd::prelude::*;

verus! {

/// How far a run has come.
#[derive(Clone, Copy, Debug, PartialEq, Eq, Structural)]
pub enum Stage {
    Start,
    ManifestLoaded,
    TaskResolved,
    WorkspaceBuilt,
    Compiled,
    SandboxReady,
    Executed,
    Done,
}

/// The work that leads out of a stage.
#[derive(Clone, Copy, Debug, PartialEq, Eq, Structural)]
pub enum Action {
    /// Find the project and read its manifest.
    LoadManifest,
    /// Resolve the task that was asked for.
    ResolveTask,
    /// Make the workspace.
    BuildWorkspace,
    /// Have the compiler build the task.
    Compile,
    /// Put together what the task may use.
    PrepareSandbox,
    /// Run the task in the sandbox.
    Execute,
    /// Hand the task's outcome on as the exit code.
    Report,
}

/// Where a run stands after a piece of work.
#[derive(Clone, Copy, Debug, PartialEq, Eq, Structural)]
pub enum Progress {
    /// The run has come to this stage.
    Reached(Stage),
    /// The work that leads out of this stage has failed, and the run is over.
    Aborted(Stage),
}

impl Stage {
    /// The place of the stage in the order of the stages.
    pub open spec fn rank(self) -> nat {
        match self {
            Stage::Start => 0,
            Stage::ManifestLoaded => 1,
            Stage::TaskResolved => 2,
            Stage::WorkspaceBuilt => 3,
            Stage::Compiled => 4,
            Stage::SandboxReady => 5,
            Stage::Executed => 6,
            Stage::Done => 7,
        }
    }

    /// The stage that follows, if any.
    pub open spec fn successor(self) -> Option<Stage> {
        match self {
            Stage::Start => Some(Stage::ManifestLoaded),
            Stage::ManifestLoaded => Some(Stage::TaskResolved),
            Stage::TaskResolved => Some(Stage::WorkspaceBuilt),
            Stage::WorkspaceBuilt => Some(Stage::Compiled),
            Stage::Compiled => Some(Stage::SandboxReady),
            Stage::SandboxReady => Some(Stage::Executed),
            Stage::Executed => Some(Stage::Done),
            Stage::Done => None,
        }
    }

    /// The work that leads out of the stage; none once the run is done.
    pub open spec fn work(self) -> Option<Action> {
        match self {
            Stage::Start => Some(Action::LoadManifest),
            Stage::ManifestLoaded => Some(Action::ResolveTask),
            Stage::TaskResolved => Some(Action::BuildWorkspace),
            Stage::WorkspaceBuilt => Some(Action::Compile),
            Stage::Compiled => Some(Action::PrepareSandbox),
            Stage::SandboxReady => Some(Action::Execute),
            Stage::Executed => Some(Action::Report),
            Stage::Done => None,
        }
    }

    /// The stage that follows, if any.
    pub fn next(self) -> (stage: Option<Stage>)
        ensures
            stage == self.successor(),
    {
        match self {
            Stage::Start => Some(Stage::ManifestLoaded),
            Stage::ManifestLoaded => Some(Stage::TaskResolved),
            Stage::TaskResolved => Some(Stage::WorkspaceBuilt),
            Stage::WorkspaceBuilt => Some(Stage::Compiled),
            Stage::Compiled => Some(Stage::SandboxReady),
            Stage::SandboxReady => Some(Stage::Executed),
            Stage::Executed => Some(Stage::Done),
            Stage::Done => None,
        }
    }

    /// The work that leads out of the stage; none once the run is done.
    pub fn action(self) -> (action: Option<Action>)
        ensures
            action == self.work(),
    {
        match self {
            Stage::Start => Some(Action::LoadManifest),
            Stage::ManifestLoaded => Some(Action::ResolveTask),
            Stage::TaskResolved => Some(Action::BuildWorkspace),
            Stage::WorkspaceBuilt => Some(Action::Compile),
            Stage::Compiled => Some(Action::PrepareSandbox),
            Stage::SandboxReady => Some(Action::Execute),
            Stage::Executed => Some(Action::Report),
            Stage::Done => None,
        }
    }
}

/// Where a run that stands at `stage` comes to when the work that leads out of
/// the stage has succeeded or failed. A run that is done stays done.
pub open spec fn advanced(stage: Stage, succeeded: bool) -> Progress {
    match stage.successor() {
        Some(next) => if succeeded {
            Progress::Reached(next)
        } else {
            Progress::Aborted(stage)
        },
        None => Progress::Reached(stage),
    }
}

/// Where a run that stands at `stage` comes to through the pieces of work
/// whose outcomes `outcomes` lists in order. After a failure no further work
/// is looked at.
pub open spec fn run(stage: Stage, outcomes: Seq<bool>) -> Progress
    decreases outcomes.len(),
{
    if outcomes.len() == 0 {
        Progress::Reached(stage)
    } else {
        match advanced(stage, outcomes[0]) {
            Progress::Reached(next) => run(next, outcomes.drop_first()),
            Progress::Aborted(at) => Progress::Aborted(at),
        }
    }
}

/// Takes a run one step on: to the next stage where the work that leads out of
/// `stage` has succeeded, to its end where it has failed.
pub fn advance(stage: Stage, succeeded: bool) -> (progress: Progress)
    ensures
        progress == advanced(stage, succeeded),
{
    match stage.next() {
        Some(next) => {
            if succeeded {
                Progress::Reached(next)
            } else {
                Progress::Aborted(stage)
            }
        },
        None => Progress::Reached(stage),
    }
}

/// A step leads to the stage that follows and to no other: a run never goes
/// back, never stays, and skips nothing.
pub proof fn lemma_step_goes_forward(stage: Stage, succeeded: bool)
    ensures
        match advanced(stage, succeeded) {
            Progress::Reached(next) => stage == Stage::Done && next == stage || next.rank()
                == stage.rank() + 1,
            Progress::Aborted(at) => at == stage && !succeeded,
        },
{
}

/// Wherever a run gets to, it is no earlier than where it stood; and where it
/// has been aborted, some work has failed.
pub proof fn lemma_run_goes_forward(stage: Stage, outcomes: Seq<bool>)
    ensures
        match run(stage, outcomes) {
            Progress::Reached(end) => stage.rank() <= end.rank() <= stage.rank() + outcomes.len(),
            Progress::Aborted(at) => stage.rank() <= at.rank() && outcomes.contains(false),
        },
    decreases outcomes.len(),
{
    if outcomes.len() > 0 {
        lemma_step_goes_forward(stage, outcomes[0]);
        let rest = outcomes.drop_first();
        match advanced(stage, outcomes[0]) {
            Progress::Reached(next) => {
                lemma_run_goes_forward(next, rest);
                if run(next, rest) is Aborted {
                    let i = choose|i: int| 0 <= i < rest.len() && rest[i] == false;
                    assert(outcomes[i + 1] == false);
                }
            },
            Progress::Aborted(at) => {
                assert(outcomes[0] == false);
            },
        }
    }
}

/// A run in which all work succeeds gets one stage further with each piece of
/// work until it is done: from the start it is done after seven.
pub proof fn lemma_run_of_successes(stage: Stage, outcomes: Seq<bool>)
    requires
        forall|i: int| 0 <= i < outcomes.len() ==> outcomes[i],
    ensures
        run(stage, outcomes) matches Progress::Reached(end) && end.rank() == if stage.rank()
            + outcomes.len() <= Stage::Done.rank() {
            stage.rank() + outcomes.len()
        } else {
            Stage::Done.rank()
        },
        stage == Stage::Start && outcomes.len() == 7 ==> run(stage, outcomes) == Progress::Reached(
            Stage::Done,
        ),
    decreases outcomes.len(),
{
    if outcomes.len() > 0 {
        let rest = outcomes.drop_first();
        assert(outcomes[0]);
        assert forall|i: int| 0 <= i < rest.len() implies rest[i] by {
            assert(rest[i] == outcomes[i + 1]);
        }
        match advanced(stage, true) {
            Progress::Reached(next) => {
                lemma_run_of_successes(next, rest);
            },
            Progress::Aborted(_) => {},
        }
    }
}

/// The exit code of the program after a task has run: 0 where the task
/// reports success, 1 where it reports failure.
pub fn exit_code(task_succeeded: bool) -> (code: i32)
    ensures
        code == (if task_succeeded {
            0i32
        } else {
            1i32
        }),
{
    if task_succeeded {
        0
    } else {
        1
    }
}

/// Whether the compiler has built the task: it has where it ended with the
/// exit code 0, and has not where it ended with another code or with none.
pub fn compiled(exit_status: Option<i32>) -> (ok: bool)
    ensures
        ok == (exit_status == Some(0i32)),
{
    match exit_status {
        Some(code) => code == 0,
        None => false,
    }
}

/// The word that stands in the subcommand's place when the program is started
/// by `cargo task`.
pub open spec fn subcommand() -> Seq<char> {
    "task"@
}

/// Checks that the program was started as the `task` subcommand.
pub fn check_invocation(argv0: &str) -> (r: Result<(), TaskError>)
    ensures
        argv0@ == subcommand() ==> r is Ok,
        argv0@ != subcommand() ==> r is Err && r->Err_0@ == TaskErrorView::NotSubcommand(argv0@),
{
    if same(argv0, "task") {
        Ok(())
    } else {
        Err(TaskError::NotSubcommand(argv0.to_owned()))
    }
}

} // verus!
