use quic_telemetry::retry::{client_step, drive_client, ClientAction, ClientEvent, ClientState, ClientStep};

fn connects(actions: &[ClientAction]) -> usize {
    actions.iter().filter(|a| **a == ClientAction::Connect).count()
}

#[test]
fn three_failures_then_success_make_four_attempts() {
    let events = vec![
        ClientEvent::Started,
        ClientEvent::ConnectFailed,
        ClientEvent::RetryDelayElapsed,
        ClientEvent::ConnectFailed,
        ClientEvent::RetryDelayElapsed,
        ClientEvent::ConnectFailed,
        ClientEvent::RetryDelayElapsed,
        ClientEvent::ConnectSucceeded,
    ];
    let (state, actions) = drive_client(&events);
    assert_eq!(state, ClientState::Connected);
    assert_eq!(connects(&actions), 4);
    assert_eq!(actions.iter().filter(|a| **a == ClientAction::WaitRetryDelay).count(), 3);
    assert_eq!(actions[1], ClientAction::WaitRetryDelay);
    assert_eq!(*actions.last().unwrap(), ClientAction::OpenStream);
}

#[test]
fn failures_never_stop_the_client() {
    let mut events = vec![ClientEvent::Started];
    for _ in 0..500 {
        events.push(ClientEvent::ConnectFailed);
        events.push(ClientEvent::RetryDelayElapsed);
    }
    let (state, actions) = drive_client(&events);
    assert_eq!(state, ClientState::Disconnected);
    assert_eq!(connects(&actions), 501);
    assert_eq!(*actions.last().unwrap(), ClientAction::Connect);
}

#[test]
fn stream_open_failure_reconnects_before_next_sample() {
    let events = vec![
        ClientEvent::Started,
        ClientEvent::ConnectSucceeded,
        ClientEvent::StreamOpened,
        ClientEvent::WriteSucceeded,
        ClientEvent::FinishSucceeded,
        ClientEvent::IntervalElapsed,
        ClientEvent::StreamOpenFailed,
        ClientEvent::ConnectSucceeded,
    ];
    let (state, actions) = drive_client(&events);
    assert_eq!(state, ClientState::Connected);
    assert_eq!(
        actions,
        vec![
            ClientAction::Connect,
            ClientAction::OpenStream,
            ClientAction::WriteSample,
            ClientAction::FinishStream,
            ClientAction::WaitInterval,
            ClientAction::OpenStream,
            ClientAction::Connect,
            ClientAction::OpenStream,
        ]
    );
}

#[test]
fn write_and_finish_failures_keep_the_session() {
    let s = client_step(ClientState::Connected, ClientEvent::WriteFailed);
    assert_eq!(s, ClientStep { state: ClientState::Connected, action: ClientAction::FinishStream });
    let s = client_step(ClientState::Connected, ClientEvent::FinishFailed);
    assert_eq!(s, ClientStep { state: ClientState::Connected, action: ClientAction::WaitInterval });
    let s = client_step(ClientState::Connected, ClientEvent::StreamOpenFailed);
    assert_eq!(s, ClientStep { state: ClientState::Disconnected, action: ClientAction::Connect });
}
