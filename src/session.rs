//! The session lifecycle as a state machine.
//!
//! The controller decides; the caller performs each returned action (writing
//! or removing the durable session handle, spawning or terminating the
//! subprocess, persisting the log) and hands back what came of it as the
//! next event.
use vstd::prelude::*;
use crate::error::ErrorKind;

verus! {

/// Where a session stands.
#[derive(Clone, Copy, PartialEq, Eq, Debug, Structural)]
pub enum Phase {
    Idle,
    /// The handle is written and the subprocess is being spawned.
    Starting,
    /// Capture sources, checkpointer and control loop are running.
    Running,
    /// Stopping: waiting for the subprocess to be terminated.
    Terminating,
    /// Stopping: waiting for the final persist of the log.
    Persisting,
    /// Stopping: waiting for the handle to be removed.
    Releasing,
    Stopped,
}

/// What happened, as reported to the controller.
#[derive(Clone, Copy, PartialEq, Eq, Debug, Structural)]
pub enum Event {
    StartRequested,
    Spawned,
    SpawnFailed,
    StopRequested,
    /// The subprocess was terminated.
    Terminated,
    /// The subprocess had already exited; terminating it was a no-op.
    AlreadyExited,
    TerminationFailed,
    Persisted,
    PersistFailed,
    HandleRemoved,
}

/// What the caller is to do next.
#[derive(Clone, Copy, PartialEq, Eq, Debug, Structural)]
pub enum Action {
    /// Write the session handle, then spawn the subprocess.
    Spawn,
    /// Launch the capture sources and the checkpointer, and poll for a stop.
    Capture,
    /// Terminate the subprocess and wait for it to exit.
    Terminate,
    /// Persist a final snapshot of the log, overwriting any checkpoint.
    PersistFinal,
    /// Remove the session handle from durable storage.
    RemoveHandle,
    /// The session is over: hand the persisted log on to replay.
    Finish,
    /// Remove the handle written at start and report the failure.
    Abort(ErrorKind),
    /// Report the failure; nothing else changes.
    Report(ErrorKind),
    Nothing,
}

/// The controller's state: its phase, and whether a session handle exists
/// in durable storage.
#[derive(Clone, Copy, PartialEq, Eq, Debug, Structural)]
pub struct SessionController {
    pub phase: Phase,
    pub handle_present: bool,
}

/// The transition table: the next state and the action for an event.
pub open spec fn transition(c: SessionController, ev: Event) -> (SessionController, Action) {
    let at = |p: Phase| SessionController { phase: p, handle_present: c.handle_present };
    match ev {
        Event::StartRequested => if c.handle_present {
            (c, Action::Report(ErrorKind::AlreadyRunning))
        } else if c.phase == Phase::Idle || c.phase == Phase::Stopped {
            (SessionController { phase: Phase::Starting, handle_present: true }, Action::Spawn)
        } else {
            (c, Action::Nothing)
        },
        Event::Spawned => if c.phase == Phase::Starting {
            (at(Phase::Running), Action::Capture)
        } else {
            (c, Action::Nothing)
        },
        Event::SpawnFailed => if c.phase == Phase::Starting {
            (
                SessionController { phase: Phase::Idle, handle_present: false },
                Action::Abort(ErrorKind::SpawnFailure),
            )
        } else {
            (c, Action::Nothing)
        },
        Event::StopRequested => if !c.handle_present {
            (c, Action::Report(ErrorKind::NoActiveSession))
        } else if c.phase == Phase::Running {
            (at(Phase::Terminating), Action::Terminate)
        } else {
            (c, Action::Nothing)
        },
        Event::Terminated | Event::AlreadyExited => if c.phase == Phase::Terminating {
            (at(Phase::Persisting), Action::PersistFinal)
        } else {
            (c, Action::Nothing)
        },
        Event::TerminationFailed => if c.phase == Phase::Terminating {
            (at(Phase::Running), Action::Report(ErrorKind::TerminationFailure))
        } else {
            (c, Action::Nothing)
        },
        Event::Persisted => if c.phase == Phase::Persisting {
            (at(Phase::Releasing), Action::RemoveHandle)
        } else {
            (c, Action::Nothing)
        },
        Event::PersistFailed => if c.phase == Phase::Persisting {
            (at(Phase::Running), Action::Report(ErrorKind::PersistFailure))
        } else {
            (c, Action::Nothing)
        },
        Event::HandleRemoved => if c.phase == Phase::Releasing {
            (SessionController { phase: Phase::Stopped, handle_present: false }, Action::Finish)
        } else {
            (c, Action::Nothing)
        },
    }
}

/// The state and the actions after a run of events, in order.
pub open spec fn run(c: SessionController, evs: Seq<Event>) -> (SessionController, Seq<Action>)
    decreases evs.len(),
{
    if evs.len() == 0 {
        (c, seq![])
    } else {
        let (c1, a) = transition(c, evs[0]);
        let (c2, rest) = run(c1, evs.drop_first());
        (c2, seq![a] + rest)
    }
}

impl SessionController {
    /// A controller for a new session; `handle_present` is whether a session
    /// handle already exists in durable storage.
    pub fn new(handle_present: bool) -> (r: Self)
        ensures
            r.phase == Phase::Idle,
            r.handle_present == handle_present,
    {
        SessionController { phase: Phase::Idle, handle_present }
    }

    /// Takes one event and returns the action to perform.
    pub fn step(&mut self, ev: Event) -> (r: Action)
        ensures
            (*final(self), r) == transition(*old(self), ev),
    {
        let c = *self;
        match ev {
            Event::StartRequested => {
                if c.handle_present {
                    Action::Report(ErrorKind::AlreadyRunning)
                } else if c.phase == Phase::Idle || c.phase == Phase::Stopped {
                    *self = SessionController { phase: Phase::Starting, handle_present: true };
                    Action::Spawn
                } else {
                    Action::Nothing
                }
            },
            Event::Spawned => {
                if c.phase == Phase::Starting {
                    self.phase = Phase::Running;
                    Action::Capture
                } else {
                    Action::Nothing
                }
            },
            Event::SpawnFailed => {
                if c.phase == Phase::Starting {
                    *self = SessionController { phase: Phase::Idle, handle_present: false };
                    Action::Abort(ErrorKind::SpawnFailure)
                } else {
                    Action::Nothing
                }
            },
            Event::StopRequested => {
                if !c.handle_present {
                    Action::Report(ErrorKind::NoActiveSession)
                } else if c.phase == Phase::Running {
                    self.phase = Phase::Terminating;
                    Action::Terminate
                } else {
                    Action::Nothing
                }
            },
            Event::Terminated | Event::AlreadyExited => {
                if c.phase == Phase::Terminating {
                    self.phase = Phase::Persisting;
                    Action::PersistFinal
                } else {
                    Action::Nothing
                }
            },
            Event::TerminationFailed => {
                if c.phase == Phase::Terminating {
                    self.phase = Phase::Running;
                    Action::Report(ErrorKind::TerminationFailure)
                } else {
                    Action::Nothing
                }
            },
            Event::Persisted => {
                if c.phase == Phase::Persisting {
                    self.phase = Phase::Releasing;
                    Action::RemoveHandle
                } else {
                    Action::Nothing
                }
            },
            Event::PersistFailed => {
                if c.phase == Phase::Persisting {
                    self.phase = Phase::Running;
                    Action::Report(ErrorKind::PersistFailure)
                } else {
                    Action::Nothing
                }
            },
            Event::HandleRemoved => {
                if c.phase == Phase::Releasing {
                    *self = SessionController { phase: Phase::Stopped, handle_present: false };
                    Action::Finish
                } else {
                    Action::Nothing
                }
            },
        }
    }
}

/// A start while a session handle exists is refused with `AlreadyRunning`:
/// nothing is spawned and the handle and the state stay as they were.
pub proof fn lemma_start_refused_while_handle_exists(c: SessionController)
    requires
        c.handle_present,
    ensures
        transition(c, Event::StartRequested) == (c, Action::Report(ErrorKind::AlreadyRunning)),
{
}

/// Stopping a running session whose subprocess has already exited: the
/// termination is a no-op success, the final persist still happens, and
/// the handle is removed.
pub proof fn lemma_stop_after_subprocess_exit(c: SessionController)
    requires
        c.phase == Phase::Running,
        c.handle_present,
    ensures
        run(c, seq![Event::StopRequested, Event::AlreadyExited, Event::Persisted, Event::HandleRemoved])
            == (
            SessionController { phase: Phase::Stopped, handle_present: false },
            seq![Action::Terminate, Action::PersistFinal, Action::RemoveHandle, Action::Finish],
        ),
{
    reveal_with_fuel(run, 5);
    let evs = seq![Event::StopRequested, Event::AlreadyExited, Event::Persisted, Event::HandleRemoved];
    assert(evs.drop_first() =~= seq![Event::AlreadyExited, Event::Persisted, Event::HandleRemoved]);
    assert(evs.drop_first().drop_first() =~= seq![Event::Persisted, Event::HandleRemoved]);
    assert(evs.drop_first().drop_first().drop_first() =~= seq![Event::HandleRemoved]);
    assert(evs.drop_first().drop_first().drop_first().drop_first() =~= Seq::<Event>::empty());
    assert(seq![Action::Terminate] + (seq![Action::PersistFinal] + (seq![Action::RemoveHandle] + (
    seq![Action::Finish] + Seq::<Action>::empty()))) =~= seq![
        Action::Terminate,
        Action::PersistFinal,
        Action::RemoveHandle,
        Action::Finish,
    ]);
}

/// Stopping twice in a row: the first stop of a running session completes
/// and removes the handle; the second is reported as `NoActiveSession` and
/// changes nothing.
pub proof fn lemma_stop_twice(c: SessionController, outcome: Event)
    requires
        c.phase == Phase::Running,
        c.handle_present,
        outcome == Event::Terminated || outcome == Event::AlreadyExited,
    ensures
        ({
            let (c1, acts) = run(c, seq![Event::StopRequested, outcome, Event::Persisted, Event::HandleRemoved]);
            &&& !c1.handle_present
            &&& c1.phase == Phase::Stopped
            &&& acts.last() == Action::Finish
            &&& transition(c1, Event::StopRequested) == (c1, Action::Report(ErrorKind::NoActiveSession))
        }),
{
    reveal_with_fuel(run, 5);
    let evs = seq![Event::StopRequested, outcome, Event::Persisted, Event::HandleRemoved];
    assert(evs.drop_first() =~= seq![outcome, Event::Persisted, Event::HandleRemoved]);
    assert(evs.drop_first().drop_first() =~= seq![Event::Persisted, Event::HandleRemoved]);
    assert(evs.drop_first().drop_first().drop_first() =~= seq![Event::HandleRemoved]);
    assert(evs.drop_first().drop_first().drop_first().drop_first() =~= Seq::<Event>::empty());
    let a = seq![Action::Terminate] + (seq![Action::PersistFinal] + (seq![Action::RemoveHandle] + (
    seq![Action::Finish] + Seq::<Action>::empty())));
    assert(a.last() == Action::Finish);
}

/// What the stop command does while it waits for the recorder to release
/// the session handle.
#[derive(Clone, Copy, PartialEq, Eq, Debug, Structural)]
pub enum WaitStep {
    /// The handle is gone: the session has stopped.
    Released,
    /// Sleep one poll interval and look again.
    Wait,
    /// No tries are left: report the termination as failed.
    GiveUp,
}

/// One look at the handle: released once it is gone, else wait while tries
/// are left.
pub fn await_release(handle_present: bool, tries_left: u32) -> (r: WaitStep)
    ensures
        !handle_present ==> r == WaitStep::Released,
        handle_present && tries_left > 0 ==> r == WaitStep::Wait,
        handle_present && tries_left == 0 ==> r == WaitStep::GiveUp,
{
    if !handle_present {
        WaitStep::Released
    } else if tries_left > 0 {
        WaitStep::Wait
    } else {
        WaitStep::GiveUp
    }
}

} // verus!
