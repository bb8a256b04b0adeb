use demoterm::error::ErrorKind;
use demoterm::handle::{decode_handle, encode_handle};
use demoterm::session::{await_release, Action, Event, Phase, SessionController, WaitStep};

fn running() -> SessionController {
    let mut c = SessionController::new(false);
    assert_eq!(c.step(Event::StartRequested), Action::Spawn);
    assert_eq!(c.step(Event::Spawned), Action::Capture);
    assert_eq!(c.phase, Phase::Running);
    assert!(c.handle_present);
    c
}

#[test]
fn start_when_handle_exists_is_refused() {
    let mut c = SessionController::new(true);
    let before = c;
    assert_eq!(c.step(Event::StartRequested), Action::Report(ErrorKind::AlreadyRunning));
    assert_eq!(c, before);
    assert!(c.handle_present);
}

#[test]
fn stop_after_subprocess_exit_still_persists_and_releases() {
    let mut c = running();
    assert_eq!(c.step(Event::StopRequested), Action::Terminate);
    assert_eq!(c.step(Event::AlreadyExited), Action::PersistFinal);
    assert_eq!(c.step(Event::Persisted), Action::RemoveHandle);
    assert_eq!(c.step(Event::HandleRemoved), Action::Finish);
    assert_eq!(c.phase, Phase::Stopped);
    assert!(!c.handle_present);
}

#[test]
fn stop_twice_reports_no_active_session() {
    let mut c = running();
    assert_eq!(c.step(Event::StopRequested), Action::Terminate);
    assert_eq!(c.step(Event::Terminated), Action::PersistFinal);
    assert_eq!(c.step(Event::Persisted), Action::RemoveHandle);
    assert_eq!(c.step(Event::HandleRemoved), Action::Finish);
    let after = c;
    assert_eq!(c.step(Event::StopRequested), Action::Report(ErrorKind::NoActiveSession));
    assert_eq!(c, after);
}

#[test]
fn stop_without_handle_is_no_active_session() {
    let mut c = SessionController::new(false);
    assert_eq!(c.step(Event::StopRequested), Action::Report(ErrorKind::NoActiveSession));
    assert_eq!(c.phase, Phase::Idle);
}

#[test]
fn spawn_failure_aborts_and_releases_handle() {
    let mut c = SessionController::new(false);
    assert_eq!(c.step(Event::StartRequested), Action::Spawn);
    assert_eq!(c.step(Event::SpawnFailed), Action::Abort(ErrorKind::SpawnFailure));
    assert_eq!(c.phase, Phase::Idle);
    assert!(!c.handle_present);
}

#[test]
fn termination_failure_keeps_handle_for_retry() {
    let mut c = running();
    assert_eq!(c.step(Event::StopRequested), Action::Terminate);
    assert_eq!(c.step(Event::TerminationFailed), Action::Report(ErrorKind::TerminationFailure));
    assert_eq!(c.phase, Phase::Running);
    assert!(c.handle_present);
    assert_eq!(c.step(Event::StopRequested), Action::Terminate);
}

#[test]
fn final_persist_failure_keeps_handle_for_retry() {
    let mut c = running();
    assert_eq!(c.step(Event::StopRequested), Action::Terminate);
    assert_eq!(c.step(Event::Terminated), Action::PersistFinal);
    assert_eq!(c.step(Event::PersistFailed), Action::Report(ErrorKind::PersistFailure));
    assert!(c.handle_present);
    assert_eq!(c.step(Event::StopRequested), Action::Terminate);
    assert_eq!(c.step(Event::AlreadyExited), Action::PersistFinal);
}

#[test]
fn out_of_order_events_change_nothing() {
    let mut c = running();
    let before = c;
    assert_eq!(c.step(Event::Persisted), Action::Nothing);
    assert_eq!(c.step(Event::HandleRemoved), Action::Nothing);
    assert_eq!(c.step(Event::Spawned), Action::Nothing);
    assert_eq!(c, before);
}

#[test]
fn waiting_for_release() {
    assert_eq!(await_release(false, 0), WaitStep::Released);
    assert_eq!(await_release(true, 3), WaitStep::Wait);
    assert_eq!(await_release(true, 0), WaitStep::GiveUp);
}

#[test]
fn handle_text_round_trips() {
    assert_eq!(encode_handle(0), "0");
    assert_eq!(encode_handle(4242), "4242");
    assert_eq!(encode_handle(u32::MAX), "4294967295");
    assert_eq!(decode_handle("4242"), Some(4242));
    assert_eq!(decode_handle("4294967295"), Some(u32::MAX));
}

#[test]
fn handle_text_rejects_other_text() {
    for t in ["", "-1", "042", "12a", "4294967296", " 7"].iter() {
        assert_eq!(decode_handle(t), None, "{}", t);
    }
}
