//! The decisions of `da deploy`: which step runs next, given where the run
//! stands and what the last step reported.
//!
//! The pipeline clears the stale local build, runs the build, packages its
//! output, connects, backs up and cleans the remote (when `clean_remote`),
//! then uploads. `--dry-run` only shows the plan. The caller performs each
//! action and feeds back what happened; this module decides.

use vstd::prelude::*;

verus! {

/// Where a deploy run stands: the step whose outcome it waits for.
#[derive(Debug, Clone, Copy, PartialEq, Eq, Structural)]
pub enum Stage {
    /// Nothing done yet; waiting to know whether the output directory exists.
    Start,
    /// The stale local build is being removed.
    ClearingLocal,
    /// The build command runs; waiting to know whether it produced the output.
    Building,
    /// The upload plan and archive are being made.
    Packaging,
    /// Connecting to the remote host.
    Connecting,
    /// The remote content is being backed up.
    BackingUp,
    /// The remote directory is being cleaned.
    Cleaning,
    /// The archive is being sent.
    Uploading,
    /// The run completed.
    Done,
    /// The run stopped on an error.
    Failed,
}

/// A deploy run: its stage and its options.
#[derive(Debug, Clone, Copy, PartialEq, Eq, Structural)]
pub struct DeployRun {
    /// Where the run stands.
    pub stage: Stage,
    /// Only show the plan.
    pub dry_run: bool,
    /// Back up and clean the remote directory before uploading.
    pub clean_remote: bool,
}

/// What the caller reports after performing an action.
#[derive(Debug, Clone, Copy, PartialEq, Eq, Structural)]
pub enum Event {
    /// The action succeeded.
    Succeeded,
    /// The action failed.
    Failed,
    /// Whether the local output directory exists (reported at the start and
    /// after the build).
    OutputExists(bool),
}

/// Why a run stops.
#[derive(Debug, Clone, Copy, PartialEq, Eq, Structural)]
pub enum Halt {
    /// The build finished but its output directory was not produced.
    OutputMissing,
    /// The last action failed.
    StepFailed,
    /// The report does not fit the stage.
    Unexpected,
}

/// What the caller must do next.
#[derive(Debug, Clone, Copy, PartialEq, Eq, Structural)]
pub enum Action {
    /// Show the plan; list the files to send when the output directory exists.
    ShowPlan(bool),
    /// Delete the stale local build.
    RemoveLocalBuild,
    /// Run the build command, then report whether the output directory exists.
    RunBuild,
    /// Make the upload plan and the archive.
    Package,
    /// Connect to the remote host.
    Connect,
    /// Save a backup of the remote content.
    BackupRemote,
    /// Clean the remote directory.
    CleanRemote,
    /// Send and unpack the archive.
    Upload,
    /// Report success.
    Finish,
    /// Report the error and stop.
    Abort(Halt),
    /// Nothing: the run is over.
    Idle,
}

/// The action changes something: the local build, the remote host or the
/// backups, or opens a connection.
pub open spec fn does_work(a: Action) -> bool {
    match a {
        Action::RemoveLocalBuild | Action::RunBuild | Action::Package | Action::Connect
        | Action::BackupRemote | Action::CleanRemote | Action::Upload => true,
        _ => false,
    }
}

/// `r` moved to stage `s`.
pub open spec fn at(r: DeployRun, s: Stage) -> DeployRun {
    DeployRun { stage: s, dry_run: r.dry_run, clean_remote: r.clean_remote }
}

/// The transition of the deploy pipeline on the report `e`.
#[verifier::opaque]
pub open spec fn next_spec(r: DeployRun, e: Event) -> (DeployRun, Action) {
    match r.stage {
        Stage::Done | Stage::Failed => (r, Action::Idle),
        Stage::Start => match e {
            Event::OutputExists(x) => if r.dry_run {
                (at(r, Stage::Done), Action::ShowPlan(x))
            } else if x {
                (at(r, Stage::ClearingLocal), Action::RemoveLocalBuild)
            } else {
                (at(r, Stage::Building), Action::RunBuild)
            },
            Event::Failed => (at(r, Stage::Failed), Action::Abort(Halt::StepFailed)),
            Event::Succeeded => (at(r, Stage::Failed), Action::Abort(Halt::Unexpected)),
        },
        Stage::Building => match e {
            Event::OutputExists(true) => (at(r, Stage::Packaging), Action::Package),
            Event::OutputExists(false) => (at(r, Stage::Failed), Action::Abort(Halt::OutputMissing)),
            Event::Failed => (at(r, Stage::Failed), Action::Abort(Halt::StepFailed)),
            Event::Succeeded => (at(r, Stage::Failed), Action::Abort(Halt::Unexpected)),
        },
        _ => match e {
            Event::Succeeded => match r.stage {
                Stage::ClearingLocal => (at(r, Stage::Building), Action::RunBuild),
                Stage::Packaging => (at(r, Stage::Connecting), Action::Connect),
                Stage::Connecting => if r.clean_remote {
                    (at(r, Stage::BackingUp), Action::BackupRemote)
                } else {
                    (at(r, Stage::Uploading), Action::Upload)
                },
                Stage::BackingUp => (at(r, Stage::Cleaning), Action::CleanRemote),
                Stage::Cleaning => (at(r, Stage::Uploading), Action::Upload),
                _ => (at(r, Stage::Done), Action::Finish),
            },
            Event::Failed => (at(r, Stage::Failed), Action::Abort(Halt::StepFailed)),
            Event::OutputExists(_) => (at(r, Stage::Failed), Action::Abort(Halt::Unexpected)),
        },
    }
}

/// The actions a run starting at `r` asks for, given the reports `evs`.
#[verifier::opaque]
pub open spec fn trace(r: DeployRun, evs: Seq<Event>) -> Seq<Action>
    decreases evs.len(),
{
    if evs.len() == 0 {
        seq![]
    } else {
        let (r2, a) = next_spec(r, evs[0]);
        seq![a] + trace(r2, evs.drop_first())
    }
}

/// A fresh run.
pub open spec fn start_spec(dry_run: bool, clean_remote: bool) -> DeployRun {
    DeployRun { stage: Stage::Start, dry_run, clean_remote }
}

impl DeployRun {
    /// A fresh run with the given options.
    pub fn start(dry_run: bool, clean_remote: bool) -> (r: DeployRun)
        ensures
            r == start_spec(dry_run, clean_remote),
    {
        DeployRun { stage: Stage::Start, dry_run, clean_remote }
    }

    /// The run is over (completed or stopped).
    pub fn finished(&self) -> (b: bool)
        ensures
            b == (self.stage == Stage::Done || self.stage == Stage::Failed),
    {
        match self.stage {
            Stage::Done | Stage::Failed => true,
            _ => false,
        }
    }

    /// The next state and action after the report `e`.
    pub fn next(self, e: Event) -> (r: (DeployRun, Action))
        ensures
            r == next_spec(self, e),
    {
        reveal(next_spec);
        let at = |s: Stage| -> (n: DeployRun)
            ensures
                n == at(self, s),
            { DeployRun { stage: s, dry_run: self.dry_run, clean_remote: self.clean_remote } };
        match self.stage {
            Stage::Done | Stage::Failed => (self, Action::Idle),
            Stage::Start => match e {
                Event::OutputExists(x) => if self.dry_run {
                    (at(Stage::Done), Action::ShowPlan(x))
                } else if x {
                    (at(Stage::ClearingLocal), Action::RemoveLocalBuild)
                } else {
                    (at(Stage::Building), Action::RunBuild)
                },
                Event::Failed => (at(Stage::Failed), Action::Abort(Halt::StepFailed)),
                Event::Succeeded => (at(Stage::Failed), Action::Abort(Halt::Unexpected)),
            },
            Stage::Building => match e {
                Event::OutputExists(true) => (at(Stage::Packaging), Action::Package),
                Event::OutputExists(false) => (at(Stage::Failed), Action::Abort(Halt::OutputMissing)),
                Event::Failed => (at(Stage::Failed), Action::Abort(Halt::StepFailed)),
                Event::Succeeded => (at(Stage::Failed), Action::Abort(Halt::Unexpected)),
            },
            _ => match e {
                Event::Succeeded => match self.stage {
                    Stage::ClearingLocal => (at(Stage::Building), Action::RunBuild),
                    Stage::Packaging => (at(Stage::Connecting), Action::Connect),
                    Stage::Connecting => if self.clean_remote {
                        (at(Stage::BackingUp), Action::BackupRemote)
                    } else {
                        (at(Stage::Uploading), Action::Upload)
                    },
                    Stage::BackingUp => (at(Stage::Cleaning), Action::CleanRemote),
                    Stage::Cleaning => (at(Stage::Uploading), Action::Upload),
                    _ => (at(Stage::Done), Action::Finish),
                },
                Event::Failed => (at(Stage::Failed), Action::Abort(Halt::StepFailed)),
                Event::OutputExists(_) => (at(Stage::Failed), Action::Abort(Halt::Unexpected)),
            },
        }
    }
}

proof fn lemma_step(r: DeployRun, e: Event)
    ensures
        ({
            let (r2, a) = next_spec(r, e);
            &&& (r.stage == Stage::Done || r.stage == Stage::Failed) ==> r2 == r && a == Action::Idle
            &&& r2.dry_run == r.dry_run && r2.clean_remote == r.clean_remote
            &&& a == Action::CleanRemote ==> r.stage == Stage::BackingUp && e == Event::Succeeded
            &&& r2.stage == Stage::BackingUp ==> a == Action::BackupRemote && r.clean_remote
            &&& r2.stage == Stage::Cleaning ==> r.stage == Stage::BackingUp
            &&& a == Action::BackupRemote ==> r.clean_remote
            &&& a == Action::Package ==> r.stage == Stage::Building && e == Event::OutputExists(true)
            &&& r2.stage == Stage::Building ==> a == Action::RunBuild
            &&& a == Action::Connect ==> r.stage == Stage::Packaging
            &&& r2.stage == Stage::Packaging ==> a == Action::Package
            &&& a is Abort ==> r2.stage == Stage::Failed
            &&& (r.dry_run && r.stage == Stage::Start) ==> (r2.stage == Stage::Done || r2.stage == Stage::Failed) && !does_work(a)
        }),
{
    reveal(next_spec);
}

proof fn lemma_trace_index(r: DeployRun, evs: Seq<Event>, i: int)
    requires
        0 < i < evs.len(),
    ensures
        trace(r, evs).len() == evs.len(),
        trace(r, evs)[i] == trace(next_spec(r, evs[0]).0, evs.drop_first())[i - 1],
        trace(r, evs)[0] == next_spec(r, evs[0]).1,
{
    reveal(trace);
    lemma_trace_len(r, evs);
}

proof fn lemma_trace_first(r: DeployRun, evs: Seq<Event>)
    requires
        0 < evs.len(),
    ensures
        trace(r, evs)[0] == next_spec(r, evs[0]).1,
{
    reveal(trace);
}

proof fn lemma_trace_len(r: DeployRun, evs: Seq<Event>)
    ensures
        trace(r, evs).len() == evs.len(),
    decreases evs.len(),
{
    reveal(trace);
    if evs.len() > 0 {
        lemma_trace_len(next_spec(r, evs[0]).0, evs.drop_first());
    }
}

proof fn lemma_over_is_idle(r: DeployRun, evs: Seq<Event>, i: int)
    requires
        r.stage == Stage::Done || r.stage == Stage::Failed,
        0 <= i < evs.len(),
    ensures
        trace(r, evs)[i] == Action::Idle,
    decreases i,
{
    lemma_step(r, evs[0]);
    if i == 0 {
        lemma_trace_first(r, evs);
    } else {
        lemma_trace_index(r, evs, i);
        lemma_over_is_idle(r, evs.drop_first(), i - 1);
    }
}

/// A dry run does nothing: whatever is reported, no action of its trace
/// touches the local build, the remote host or the backups, or connects.
pub proof fn law_dry_run_does_no_work(clean_remote: bool, evs: Seq<Event>)
    ensures
        forall|i: int| 0 <= i < trace(start_spec(true, clean_remote), evs).len() ==> !does_work(
            #[trigger] trace(start_spec(true, clean_remote), evs)[i],
        ),
{
    let r = start_spec(true, clean_remote);
    lemma_trace_len(r, evs);
    assert forall|i: int| 0 <= i < trace(r, evs).len() implies !does_work(#[trigger] trace(r, evs)[i]) by {
        lemma_step(r, evs[0]);
        if i == 0 {
            lemma_trace_first(r, evs);
        } else {
            lemma_trace_index(r, evs, i);
            lemma_over_is_idle(next_spec(r, evs[0]).0, evs.drop_first(), i - 1);
        }
    }
}

proof fn lemma_clean_follows_backup(r: DeployRun, evs: Seq<Event>, i: int)
    requires
        0 <= i < evs.len(),
        trace(r, evs)[i] == Action::CleanRemote,
    ensures
        i == 0 ==> r.stage == Stage::BackingUp,
        i > 0 ==> trace(r, evs)[i - 1] == Action::BackupRemote,
        evs[i] == Event::Succeeded,
    decreases i,
{
    lemma_step(r, evs[0]);
    lemma_trace_first(r, evs);
    if i > 0 {
        let r2 = next_spec(r, evs[0]).0;
        lemma_trace_index(r, evs, i);
        lemma_clean_follows_backup(r2, evs.drop_first(), i - 1);
        if i > 1 {
            lemma_trace_index(r, evs, i - 1);
        }
    }
}

/// The remote is backed up before it is cleaned: every `CleanRemote` comes
/// right after a `BackupRemote`.
pub proof fn law_backup_before_clean(dry_run: bool, clean_remote: bool, evs: Seq<Event>)
    ensures
        forall|i: int| 0 <= i < trace(start_spec(dry_run, clean_remote), evs).len()
            && #[trigger] trace(start_spec(dry_run, clean_remote), evs)[i] == Action::CleanRemote
            ==> i > 0 && trace(start_spec(dry_run, clean_remote), evs)[i - 1] == Action::BackupRemote,
{
    let r = start_spec(dry_run, clean_remote);
    lemma_trace_len(r, evs);
    assert forall|i: int| 0 <= i < trace(r, evs).len() && #[trigger] trace(r, evs)[i] == Action::CleanRemote
        implies i > 0 && trace(r, evs)[i - 1] == Action::BackupRemote by {
        lemma_clean_follows_backup(r, evs, i);
    }
}

/// A failed step stops the run: whatever stage a run that is not over is
/// in, a `Failed` report ends it with `Abort(StepFailed)`, and nothing of the
/// pipeline runs afterwards.
pub proof fn law_failure_aborts(r: DeployRun)
    requires
        r.stage != Stage::Done,
        r.stage != Stage::Failed,
    ensures
        next_spec(r, Event::Failed).1 == Action::Abort(Halt::StepFailed),
        next_spec(r, Event::Failed).0.stage == Stage::Failed,
{
    reveal(next_spec);
}

proof fn lemma_failed_report(r: DeployRun, evs: Seq<Event>, i: int)
    requires
        0 <= i < evs.len(),
        evs[i] == Event::Failed,
    ensures
        trace(r, evs)[i] == Action::Abort(Halt::StepFailed) || trace(r, evs)[i] == Action::Idle,
    decreases i,
{
    if i == 0 {
        lemma_trace_first(r, evs);
        reveal(next_spec);
    } else {
        lemma_trace_index(r, evs, i);
        lemma_failed_report(next_spec(r, evs[0]).0, evs.drop_first(), i - 1);
    }
}

/// Whatever was reported before, a `Failed` report is answered by
/// `Abort(StepFailed)` (or by nothing, when the run was already over): no step
/// of the pipeline follows a failure.
pub proof fn law_failed_report_stops(dry_run: bool, clean_remote: bool, evs: Seq<Event>)
    ensures
        forall|i: int| 0 <= i < evs.len() && #[trigger] evs[i] == Event::Failed ==> trace(
            start_spec(dry_run, clean_remote),
            evs,
        )[i] == Action::Abort(Halt::StepFailed) || trace(start_spec(dry_run, clean_remote), evs)[i] == Action::Idle,
{
    assert forall|i: int| 0 <= i < evs.len() && #[trigger] evs[i] == Event::Failed implies trace(
        start_spec(dry_run, clean_remote),
        evs,
    )[i] == Action::Abort(Halt::StepFailed) || trace(start_spec(dry_run, clean_remote), evs)[i] == Action::Idle by {
        lemma_failed_report(start_spec(dry_run, clean_remote), evs, i);
    }
}

/// The remote is cleaned only after a backup that succeeded: every
/// `CleanRemote` answers a `Succeeded` report to the `BackupRemote` right
/// before it, so a failed backup never leads to a deletion.
pub proof fn law_clean_only_after_good_backup(dry_run: bool, clean_remote: bool, evs: Seq<Event>)
    ensures
        forall|i: int| 0 <= i < trace(start_spec(dry_run, clean_remote), evs).len()
            && #[trigger] trace(start_spec(dry_run, clean_remote), evs)[i] == Action::CleanRemote
            ==> i > 0 && trace(start_spec(dry_run, clean_remote), evs)[i - 1] == Action::BackupRemote
                && evs[i] == Event::Succeeded,
{
    let r = start_spec(dry_run, clean_remote);
    lemma_trace_len(r, evs);
    assert forall|i: int| 0 <= i < trace(r, evs).len() && #[trigger] trace(r, evs)[i] == Action::CleanRemote
        implies i > 0 && trace(r, evs)[i - 1] == Action::BackupRemote && evs[i] == Event::Succeeded by {
        lemma_clean_follows_backup(r, evs, i);
    }
}

proof fn lemma_keep_remote(r: DeployRun, evs: Seq<Event>, i: int)
    requires
        !r.clean_remote,
        r.stage != Stage::BackingUp,
        r.stage != Stage::Cleaning,
        0 <= i < evs.len(),
    ensures
        trace(r, evs)[i] != Action::BackupRemote,
        trace(r, evs)[i] != Action::CleanRemote,
    decreases i,
{
    lemma_step(r, evs[0]);
    if i == 0 {
        lemma_trace_first(r, evs);
    } else {
        lemma_trace_index(r, evs, i);
        lemma_keep_remote(next_spec(r, evs[0]).0, evs.drop_first(), i - 1);
    }
}

/// With `clean_remote = false` nothing on the remote is deleted (and no
/// backup is taken): no `CleanRemote` and no `BackupRemote` ever.
pub proof fn law_keep_remote_without_clean(dry_run: bool, evs: Seq<Event>)
    ensures
        forall|i: int| 0 <= i < trace(start_spec(dry_run, false), evs).len()
            ==> #[trigger] trace(start_spec(dry_run, false), evs)[i] != Action::CleanRemote
            && trace(start_spec(dry_run, false), evs)[i] != Action::BackupRemote,
{
    let r = start_spec(dry_run, false);
    lemma_trace_len(r, evs);
    assert forall|i: int| 0 <= i < trace(r, evs).len() implies #[trigger] trace(r, evs)[i] != Action::CleanRemote
        && trace(r, evs)[i] != Action::BackupRemote by {
        lemma_keep_remote(r, evs, i);
    }
}

proof fn lemma_package_after_build(r: DeployRun, evs: Seq<Event>, i: int)
    requires
        0 <= i < evs.len(),
        trace(r, evs)[i] == Action::Package,
    ensures
        i == 0 ==> r.stage == Stage::Building,
        evs[i] == Event::OutputExists(true),
        i > 0 ==> trace(r, evs)[i - 1] == Action::RunBuild,
    decreases i,
{
    lemma_step(r, evs[0]);
    lemma_trace_first(r, evs);
    if i > 0 {
        let r2 = next_spec(r, evs[0]).0;
        lemma_trace_index(r, evs, i);
        lemma_package_after_build(r2, evs.drop_first(), i - 1);
        assert(evs.drop_first()[i - 1] == evs[i]);
        if i > 1 {
            lemma_trace_index(r, evs, i - 1);
        }
    }
}

proof fn lemma_connect_after_package(r: DeployRun, evs: Seq<Event>, i: int)
    requires
        0 <= i < evs.len(),
        trace(r, evs)[i] == Action::Connect,
    ensures
        i == 0 ==> r.stage == Stage::Packaging,
        i > 0 ==> trace(r, evs)[i - 1] == Action::Package,
    decreases i,
{
    lemma_step(r, evs[0]);
    lemma_trace_first(r, evs);
    if i > 0 {
        let r2 = next_spec(r, evs[0]).0;
        lemma_trace_index(r, evs, i);
        lemma_connect_after_package(r2, evs.drop_first(), i - 1);
        if i > 1 {
            lemma_trace_index(r, evs, i - 1);
        }
    }
}

proof fn lemma_connect_from_start(r: DeployRun, evs: Seq<Event>, i: int)
    requires
        r.stage == Stage::Start,
        0 <= i < evs.len(),
        trace(r, evs)[i] == Action::Connect,
    ensures
        i >= 2,
        trace(r, evs)[i - 1] == Action::Package,
        trace(r, evs)[i - 2] == Action::RunBuild,
        evs[i - 1] == Event::OutputExists(true),
{
    lemma_connect_after_package(r, evs, i);
    lemma_package_after_build(r, evs, i - 1);
}

/// The action opens the connection to the remote host.
pub open spec fn opens_connection(a: Action) -> bool {
    a == Action::Connect
}

/// The remote host is contacted only after a build that produced its output
/// and the packaging of that output: every `Connect` comes right after a
/// `Package`, which comes right after a `RunBuild` whose report was that the
/// output directory exists.
pub proof fn law_connect_only_after_good_build(dry_run: bool, clean_remote: bool, evs: Seq<Event>)
    ensures
        forall|i: int| 0 <= i < trace(start_spec(dry_run, clean_remote), evs).len()
            && #[trigger] opens_connection(trace(start_spec(dry_run, clean_remote), evs)[i])
            ==> i >= 2 && trace(start_spec(dry_run, clean_remote), evs)[i - 1] == Action::Package
            && trace(start_spec(dry_run, clean_remote), evs)[i - 2] == Action::RunBuild
            && evs[i - 1] == Event::OutputExists(true),
{
    let r = start_spec(dry_run, clean_remote);
    lemma_trace_len(r, evs);
    assert forall|i: int| 0 <= i < trace(r, evs).len() && #[trigger] opens_connection(trace(r, evs)[i])
        implies i >= 2 && trace(r, evs)[i - 1] == Action::Package && trace(r, evs)[i - 2] == Action::RunBuild
        && evs[i - 1] == Event::OutputExists(true) by {
        lemma_connect_from_start(r, evs, i);
    }
}

proof fn lemma_abort_is_final(r: DeployRun, evs: Seq<Event>, i: int, j: int)
    requires
        0 <= i < j < evs.len(),
        trace(r, evs)[i] is Abort,
    ensures
        trace(r, evs)[j] == Action::Idle,
    decreases i,
{
    lemma_step(r, evs[0]);
    lemma_trace_first(r, evs);
    let r2 = next_spec(r, evs[0]).0;
    lemma_trace_index(r, evs, j);
    if i == 0 {
        lemma_over_is_idle(r2, evs.drop_first(), j - 1);
    } else {
        lemma_trace_index(r, evs, i);
        lemma_abort_is_final(r2, evs.drop_first(), i - 1, j - 1);
    }
}

/// An error stops the pipeline: after an `Abort`, every action is `Idle`.
pub proof fn law_abort_stops_the_run(dry_run: bool, clean_remote: bool, evs: Seq<Event>)
    ensures
        forall|i: int, j: int| 0 <= i < j < trace(start_spec(dry_run, clean_remote), evs).len()
            && #[trigger] trace(start_spec(dry_run, clean_remote), evs)[i] is Abort
            ==> #[trigger] trace(start_spec(dry_run, clean_remote), evs)[j] == Action::Idle,
{
    let r = start_spec(dry_run, clean_remote);
    lemma_trace_len(r, evs);
    assert forall|i: int, j: int| 0 <= i < j < trace(r, evs).len() && #[trigger] trace(r, evs)[i] is Abort
        implies #[trigger] trace(r, evs)[j] == Action::Idle by {
        lemma_abort_is_final(r, evs, i, j);
    }
}

} // verus!
