use media_offload::orchestrator::{
    start, step, Action, Event, State, THROTTLE_MILLIS, WAIT_TIME_CONNECT_LOOP,
    WAIT_TIME_DISCONNECT_LOOP,
};

fn mount() -> String {
    String::from("/run/mtp/003-026")
}

#[test]
fn machine_starts_waiting_for_connect() {
    assert_eq!(start(), (State::WaitingForConnect, Action::Locate { wait_secs: 0 }));
}

#[test]
fn nominal_intervals() {
    assert_eq!(WAIT_TIME_CONNECT_LOOP, 5);
    assert_eq!(WAIT_TIME_DISCONNECT_LOOP, 5);
    assert_eq!(THROTTLE_MILLIS, 1000);
}

#[test]
fn missing_device_keeps_waiting() {
    assert_eq!(
        step(State::WaitingForConnect, Event::Located(None)),
        (State::WaitingForConnect, Action::Locate { wait_secs: 5 })
    );
}

#[test]
fn found_device_starts_a_pass() {
    assert_eq!(
        step(State::WaitingForConnect, Event::Located(Some(mount()))),
        (State::Transferring { mount: mount() }, Action::Transfer { source_dir: mount() })
    );
}

#[test]
fn pass_end_waits_for_disconnect_either_way() {
    for succeeded in [true, false] {
        assert_eq!(
            step(State::Transferring { mount: mount() }, Event::PassFinished { succeeded }),
            (
                State::WaitingForDisconnect { mount: mount() },
                Action::Probe { mount: mount(), wait_secs: 0 }
            )
        );
    }
}

#[test]
fn present_mount_keeps_waiting() {
    assert_eq!(
        step(State::WaitingForDisconnect { mount: mount() }, Event::Probed { present: true }),
        (
            State::WaitingForDisconnect { mount: mount() },
            Action::Probe { mount: mount(), wait_secs: 5 }
        )
    );
}

#[test]
fn vanished_mount_returns_to_waiting_for_connect() {
    assert_eq!(
        step(State::WaitingForDisconnect { mount: mount() }, Event::Probed { present: false }),
        (State::WaitingForConnect, Action::Locate { wait_secs: 0 })
    );
}

#[test]
fn foreign_events_are_ignored() {
    assert_eq!(
        step(State::WaitingForConnect, Event::Probed { present: false }),
        (State::WaitingForConnect, Action::Ignored)
    );
    assert_eq!(
        step(State::Transferring { mount: mount() }, Event::Located(Some(mount()))),
        (State::Transferring { mount: mount() }, Action::Ignored)
    );
    assert_eq!(
        step(State::WaitingForDisconnect { mount: mount() }, Event::PassFinished { succeeded: true }),
        (State::WaitingForDisconnect { mount: mount() }, Action::Ignored)
    );
}

#[test]
fn connection_cycle_runs_one_pass() {
    for succeeded in [true, false] {
        let events = vec![
            Event::Located(None),
            Event::Located(None),
            Event::Located(Some(mount())),
            Event::PassFinished { succeeded },
            Event::Probed { present: true },
            Event::Probed { present: true },
            Event::Probed { present: false },
        ];
        let (mut state, _) = start();
        let mut passes: u32 = 0;
        let mut visits: u32 = 0;
        for event in events {
            let (next, action) = step(state, event);
            if matches!(action, Action::Transfer { .. }) {
                passes += 1;
            }
            if matches!(next, State::Transferring { .. }) {
                visits += 1;
            }
            state = next;
        }
        assert_eq!(state, State::WaitingForConnect);
        assert_eq!(passes, 1);
        assert_eq!(visits, 1);
    }
}
