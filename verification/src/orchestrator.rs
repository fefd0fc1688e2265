//! The polling state machine: wait for the device, run one pass, wait for the
//! device to leave, and again. The machine decides; its caller waits, polls
//! and runs the pass, and hands back what happened.

use vstd::prelude::*;

verus! {

/// Seconds between two polls for the device.
pub const WAIT_TIME_CONNECT_LOOP: u64 = 5;

/// Seconds between two polls for the mount path to vanish.
pub const WAIT_TIME_DISCONNECT_LOOP: u64 = 5;

/// Milliseconds to let pass after each launch of a copy.
pub const THROTTLE_MILLIS: u64 = 1000;

/// Where the machine stands.
#[derive(Debug, PartialEq, Eq)]
pub enum State {
    WaitingForConnect,
    Transferring { mount: String },
    WaitingForDisconnect { mount: String },
}

/// What the caller reports back.
#[derive(Debug, PartialEq, Eq)]
pub enum Event {
    /// A poll for the device, with the mount path if it was found.
    Located(Option<String>),
    /// The pass ended, well or not.
    PassFinished { succeeded: bool },
    /// A look at the mount path, with whether it is still there.
    Probed { present: bool },
}

/// What the caller does next.
#[derive(Debug, PartialEq, Eq)]
pub enum Action {
    /// Wait, then poll for the device.
    Locate { wait_secs: u64 },
    /// Run one pass from this source directory.
    Transfer { source_dir: String },
    /// Wait, then look whether the mount path is still there.
    Probe { mount: String, wait_secs: u64 },
    /// The event did not belong to the state: nothing to do.
    Ignored,
}

/// The state that follows `state` on `event`, and the action that goes with
/// it. An event that does not belong to the state leaves the state as it is.
pub open spec fn transition(state: State, event: Event) -> (State, Action) {
    match (state, event) {
        (State::WaitingForConnect, Event::Located(Some(mount))) => (
            State::Transferring { mount },
            Action::Transfer { source_dir: mount },
        ),
        (State::WaitingForConnect, Event::Located(None)) => (
            State::WaitingForConnect,
            Action::Locate { wait_secs: WAIT_TIME_CONNECT_LOOP },
        ),
        (State::Transferring { mount }, Event::PassFinished { succeeded }) => (
            State::WaitingForDisconnect { mount },
            Action::Probe { mount, wait_secs: 0 },
        ),
        (State::WaitingForDisconnect { mount }, Event::Probed { present }) => if present {
            (
                State::WaitingForDisconnect { mount },
                Action::Probe { mount, wait_secs: WAIT_TIME_DISCONNECT_LOOP },
            )
        } else {
            (State::WaitingForConnect, Action::Locate { wait_secs: 0 })
        },
        (state, _) => (state, Action::Ignored),
    }
}

/// The state after `events`, one after the other, from `state`.
pub open spec fn run(state: State, events: Seq<Event>) -> State
    decreases events.len(),
{
    if events.len() == 0 {
        state
    } else {
        transition(run(state, events.drop_last()), events.last()).0
    }
}

/// The number of passes that `events` start from `state`.
pub open spec fn passes_started(state: State, events: Seq<Event>) -> nat
    decreases events.len(),
{
    if events.len() == 0 {
        0
    } else {
        let earlier = passes_started(state, events.drop_last());
        if transition(run(state, events.drop_last()), events.last()).1 is Transfer {
            earlier + 1
        } else {
            earlier
        }
    }
}

/// `n` polls that do not find the device.
pub open spec fn misses(n: nat) -> Seq<Event> {
    Seq::new(n, |k: int| Event::Located(None))
}

/// `n` looks that find the mount path still there.
pub open spec fn still_there(n: nat) -> Seq<Event> {
    Seq::new(n, |k: int| Event::Probed { present: true })
}

/// What is reported while a device that mounts at `mount` comes and goes:
/// polls that miss it, the poll that finds it, the end of the pass, looks that
/// find it still there, and the look that finds it gone.
pub open spec fn connection(
    mount: String,
    succeeded: bool,
    before: nat,
    during: nat,
) -> Seq<Event> {
    misses(before).push(Event::Located(Some(mount))).push(Event::PassFinished { succeeded })
        + still_there(during).push(Event::Probed { present: false })
}

/// The machine at its start, and the first thing to do.
pub fn start() -> (out: (State, Action))
    ensures
        out == (State::WaitingForConnect, Action::Locate { wait_secs: 0 }),
{
    (State::WaitingForConnect, Action::Locate { wait_secs: 0 })
}

/// Takes one step of the machine.
pub fn step(state: State, event: Event) -> (out: (State, Action))
    ensures
        out == transition(state, event),
{
    match (state, event) {
        (State::WaitingForConnect, Event::Located(Some(mount))) => {
            let source_dir = mount.clone();
            (State::Transferring { mount }, Action::Transfer { source_dir })
        },
        (State::WaitingForConnect, Event::Located(None)) => (
            State::WaitingForConnect,
            Action::Locate { wait_secs: WAIT_TIME_CONNECT_LOOP },
        ),
        (State::Transferring { mount }, Event::PassFinished { succeeded }) => {
            let probed = mount.clone();
            (State::WaitingForDisconnect { mount }, Action::Probe { mount: probed, wait_secs: 0 })
        },
        (State::WaitingForDisconnect { mount }, Event::Probed { present }) => {
            if present {
                let probed = mount.clone();
                (
                    State::WaitingForDisconnect { mount },
                    Action::Probe { mount: probed, wait_secs: WAIT_TIME_DISCONNECT_LOOP },
                )
            } else {
                (State::WaitingForConnect, Action::Locate { wait_secs: 0 })
            }
        },
        (state, _) => (state, Action::Ignored),
    }
}

/// A pass starts on one step only: when the machine waits for the device and
/// a poll finds it. That step alone leads into `Transferring`.
pub proof fn pass_starts_on_connect_only(state: State, event: Event)
    ensures
        transition(state, event).1 is Transfer <==> (state is WaitingForConnect
            && event matches Event::Located(Some(_))),
        (transition(state, event).0 is Transferring && !(state is Transferring)) <==> (state
            is WaitingForConnect && event matches Event::Located(Some(_))),
{
}

/// The end of a pass leads to waiting for the device to leave, whether the
/// pass went well or not.
pub proof fn pass_end_waits_for_disconnect(mount: String, succeeded: bool)
    ensures
        transition(State::Transferring { mount }, Event::PassFinished { succeeded }) == (
            State::WaitingForDisconnect { mount },
            Action::Probe { mount, wait_secs: 0 },
        ),
{
}

/// Polls that miss the device leave the machine waiting for it and start no
/// pass.
proof fn lemma_misses_wait(n: nat)
    ensures
        run(State::WaitingForConnect, misses(n)) == State::WaitingForConnect,
        passes_started(State::WaitingForConnect, misses(n)) == 0,
    decreases n,
{
    if n > 0 {
        lemma_misses_wait((n - 1) as nat);
        assert(misses(n).drop_last() =~= misses((n - 1) as nat));
        assert(misses(n).last() == Event::Located(None));
    }
}

/// Looks that find the mount path still there leave the machine waiting for
/// it to vanish and start no pass.
proof fn lemma_still_there_waits(start: State, earlier: Seq<Event>, mount: String, n: nat)
    requires
        run(start, earlier) == (State::WaitingForDisconnect { mount }),
    ensures
        run(start, earlier + still_there(n)) == (State::WaitingForDisconnect { mount }),
        passes_started(start, earlier + still_there(n)) == passes_started(start, earlier),
    decreases n,
{
    let events = earlier + still_there(n);
    if n == 0 {
        assert(events =~= earlier);
    } else {
        lemma_still_there_waits(start, earlier, mount, (n - 1) as nat);
        assert(events.drop_last() =~= earlier + still_there((n - 1) as nat));
        assert(events.last() == Event::Probed { present: true });
    }
}

/// From waiting for the device, a device that comes and goes takes the machine
/// through exactly one pass and back to waiting for the device, however long
/// it was waited for, however long it stayed, and whether the pass went well
/// or not.
pub proof fn connection_runs_one_pass(mount: String, succeeded: bool, before: nat, during: nat)
    ensures
        run(State::WaitingForConnect, connection(mount, succeeded, before, during))
            == State::WaitingForConnect,
        passes_started(State::WaitingForConnect, connection(mount, succeeded, before, during))
            == 1,
{
    let origin = State::WaitingForConnect;
    let found = misses(before).push(Event::Located(Some(mount)));
    let passed = found.push(Event::PassFinished { succeeded });
    lemma_misses_wait(before);
    assert(found.drop_last() =~= misses(before));
    assert(run(origin, found) == (State::Transferring { mount }));
    assert(passes_started(origin, found) == 1);
    assert(passed.drop_last() =~= found);
    assert(run(origin, passed) == (State::WaitingForDisconnect { mount }));
    assert(passes_started(origin, passed) == 1);
    lemma_still_there_waits(origin, passed, mount, during);
    let stayed = passed + still_there(during);
    let all = connection(mount, succeeded, before, during);
    assert(all =~= stayed.push(Event::Probed { present: false }));
    assert(all.drop_last() =~= stayed);
}

} // verus!
