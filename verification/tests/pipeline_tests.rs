use da::pipeline::{Action, DeployRun, Event, Halt, Stage};

fn run(dry_run: bool, clean_remote: bool, events: &[Event]) -> Vec<Action> {
    let mut r = DeployRun::start(dry_run, clean_remote);
    let mut out = Vec::new();
    for e in events {
        let (next, a) = r.next(*e);
        r = next;
        out.push(a);
    }
    out
}

#[test]
fn full_deploy_with_clean() {
    let acts = run(
        false,
        true,
        &[
            Event::OutputExists(true),
            Event::Succeeded,
            Event::OutputExists(true),
            Event::Succeeded,
            Event::Succeeded,
            Event::Succeeded,
            Event::Succeeded,
            Event::Succeeded,
        ],
    );
    assert_eq!(
        acts,
        vec![
            Action::RemoveLocalBuild,
            Action::RunBuild,
            Action::Package,
            Action::Connect,
            Action::BackupRemote,
            Action::CleanRemote,
            Action::Upload,
            Action::Finish,
        ]
    );
}

#[test]
fn deploy_without_clean_skips_backup_and_clean() {
    let acts = run(
        false,
        false,
        &[
            Event::OutputExists(false),
            Event::OutputExists(true),
            Event::Succeeded,
            Event::Succeeded,
            Event::Succeeded,
        ],
    );
    assert_eq!(
        acts,
        vec![Action::RunBuild, Action::Package, Action::Connect, Action::Upload, Action::Finish]
    );
}

#[test]
fn dry_run_only_shows_the_plan() {
    let acts = run(true, true, &[Event::OutputExists(true), Event::Succeeded]);
    assert_eq!(acts, vec![Action::ShowPlan(true), Action::Idle]);
    let acts = run(true, false, &[Event::OutputExists(false)]);
    assert_eq!(acts, vec![Action::ShowPlan(false)]);
}

#[test]
fn missing_output_after_build_aborts_before_connecting() {
    let acts = run(false, true, &[Event::OutputExists(false), Event::OutputExists(false), Event::Succeeded]);
    assert_eq!(acts, vec![Action::RunBuild, Action::Abort(Halt::OutputMissing), Action::Idle]);
}

#[test]
fn failed_build_aborts() {
    let acts = run(false, true, &[Event::OutputExists(false), Event::Failed, Event::Succeeded]);
    assert_eq!(acts, vec![Action::RunBuild, Action::Abort(Halt::StepFailed), Action::Idle]);
}

#[test]
fn unexpected_report_aborts() {
    let acts = run(false, true, &[Event::Succeeded]);
    assert_eq!(acts, vec![Action::Abort(Halt::Unexpected)]);
}

#[test]
fn finished_after_done_or_failed() {
    let r = DeployRun::start(true, true);
    assert!(!r.finished());
    let (r, _) = r.next(Event::OutputExists(true));
    assert!(r.finished());
    assert_eq!(r.stage, Stage::Done);
}
