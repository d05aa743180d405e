use vstd::prelude::*;

verus! {

/// The two states of the client: without a session, or with one.
#[derive(Clone, Copy, Debug, PartialEq, Eq, Structural)]
pub enum ClientState {
    Disconnected,
    Connected,
}

/// What the outside world reports back to the client after an action.
#[derive(Clone, Copy, Debug, PartialEq, Eq, Structural)]
pub enum ClientEvent {
    /// The process has just started.
    Started,
    ConnectSucceeded,
    ConnectFailed,
    RetryDelayElapsed,
    StreamOpened,
    StreamOpenFailed,
    WriteSucceeded,
    WriteFailed,
    FinishSucceeded,
    FinishFailed,
    IntervalElapsed,
}

/// What the client asks the outside world to do next.
#[derive(Clone, Copy, Debug, PartialEq, Eq, Structural)]
pub enum ClientAction {
    /// Establish a new session with the server.
    Connect,
    /// Sleep for the retry delay, then report `RetryDelayElapsed`.
    WaitRetryDelay,
    /// Draw a fresh sample and open a new outbound stream for it.
    OpenStream,
    /// Write the encoded sample to the open stream.
    WriteSample,
    /// Finish the write side of the stream.
    FinishStream,
    /// Sleep for the sample interval, then report `IntervalElapsed`.
    WaitInterval,
}

/// The state after an event, and the action to perform next.
#[derive(Clone, Copy, Debug, PartialEq, Eq, Structural)]
pub struct ClientStep {
    pub state: ClientState,
    pub action: ClientAction,
}

/// The transition relation of the client.
///
/// Without a session the client connects, and after a failed attempt waits the
/// retry delay before the next one. With a session it opens one stream per
/// sample, writes and finishes it (a failed write or finish only loses that
/// sample), and waits the interval. A failure to open a stream means the
/// session is unusable: the client drops it and connects again at once.
pub open spec fn step(s: ClientState, e: ClientEvent) -> ClientStep {
    match s {
        ClientState::Disconnected => match e {
            ClientEvent::ConnectSucceeded => ClientStep {
                state: ClientState::Connected,
                action: ClientAction::OpenStream,
            },
            ClientEvent::ConnectFailed => ClientStep {
                state: ClientState::Disconnected,
                action: ClientAction::WaitRetryDelay,
            },
            _ => ClientStep { state: ClientState::Disconnected, action: ClientAction::Connect },
        },
        ClientState::Connected => match e {
            ClientEvent::StreamOpenFailed => ClientStep {
                state: ClientState::Disconnected,
                action: ClientAction::Connect,
            },
            ClientEvent::StreamOpened => ClientStep {
                state: ClientState::Connected,
                action: ClientAction::WriteSample,
            },
            ClientEvent::WriteSucceeded | ClientEvent::WriteFailed => ClientStep {
                state: ClientState::Connected,
                action: ClientAction::FinishStream,
            },
            ClientEvent::FinishSucceeded | ClientEvent::FinishFailed => ClientStep {
                state: ClientState::Connected,
                action: ClientAction::WaitInterval,
            },
            _ => ClientStep { state: ClientState::Connected, action: ClientAction::OpenStream },
        },
    }
}

/// The final state and the actions asked for, when `events` arrive one by one
/// starting from state `s`.
pub open spec fn run(s: ClientState, events: Seq<ClientEvent>) -> (ClientState, Seq<ClientAction>)
    decreases events.len(),
{
    if events.len() == 0 {
        (s, Seq::empty())
    } else {
        let before = run(s, events.drop_last());
        let st = step(before.0, events.last());
        (st.state, before.1.push(st.action))
    }
}

/// How many times `a` occurs in `acts`.
pub open spec fn count(acts: Seq<ClientAction>, a: ClientAction) -> nat
    decreases acts.len(),
{
    if acts.len() == 0 {
        0
    } else {
        count(acts.drop_last(), a) + if acts.last() == a {
            1nat
        } else {
            0nat
        }
    }
}

/// The client starts, then fails to connect `k` times, each time waiting the
/// retry delay.
pub open spec fn failed_attempts(k: nat) -> Seq<ClientEvent>
    decreases k,
{
    if k == 0 {
        seq![ClientEvent::Started]
    } else {
        failed_attempts((k - 1) as nat).push(ClientEvent::ConnectFailed).push(
            ClientEvent::RetryDelayElapsed,
        )
    }
}

/// Computes one transition of the client.
pub fn client_step(s: ClientState, e: ClientEvent) -> (r: ClientStep)
    ensures
        r == step(s, e),
{
    match s {
        ClientState::Disconnected => match e {
            ClientEvent::ConnectSucceeded => ClientStep {
                state: ClientState::Connected,
                action: ClientAction::OpenStream,
            },
            ClientEvent::ConnectFailed => ClientStep {
                state: ClientState::Disconnected,
                action: ClientAction::WaitRetryDelay,
            },
            _ => ClientStep { state: ClientState::Disconnected, action: ClientAction::Connect },
        },
        ClientState::Connected => match e {
            ClientEvent::StreamOpenFailed => ClientStep {
                state: ClientState::Disconnected,
                action: ClientAction::Connect,
            },
            ClientEvent::StreamOpened => ClientStep {
                state: ClientState::Connected,
                action: ClientAction::WriteSample,
            },
            ClientEvent::WriteSucceeded | ClientEvent::WriteFailed => ClientStep {
                state: ClientState::Connected,
                action: ClientAction::FinishStream,
            },
            ClientEvent::FinishSucceeded | ClientEvent::FinishFailed => ClientStep {
                state: ClientState::Connected,
                action: ClientAction::WaitInterval,
            },
            _ => ClientStep { state: ClientState::Connected, action: ClientAction::OpenStream },
        },
    }
}

/// Feeds `events` to a client that starts disconnected, and returns its final
/// state and every action it asked for, in order.
pub fn drive_client(events: &Vec<ClientEvent>) -> (r: (ClientState, Vec<ClientAction>))
    ensures
        (r.0, r.1@) == run(ClientState::Disconnected, events@),
{
    let mut state = ClientState::Disconnected;
    let mut actions: Vec<ClientAction> = Vec::new();
    let mut i: usize = 0;
    while i < events.len()
        invariant
            i <= events@.len(),
            (state, actions@) == run(ClientState::Disconnected, events@.take(i as int)),
        decreases events@.len() - i,
    {
        let st = client_step(state, events[i]);
        proof {
            assert(events@.take(i as int + 1).drop_last() =~= events@.take(i as int));
        }
        state = st.state;
        actions.push(st.action);
        i = i + 1;
    }
    proof {
        assert(events@.take(i as int) =~= events@);
    }
    (state, actions)
}

proof fn lemma_run_push(s: ClientState, events: Seq<ClientEvent>, e: ClientEvent)
    ensures
        run(s, events.push(e)) == ({
            let before = run(s, events);
            let st = step(before.0, e);
            (st.state, before.1.push(st.action))
        }),
{
    assert(events.push(e).drop_last() =~= events);
}

proof fn lemma_count_push(acts: Seq<ClientAction>, a: ClientAction, b: ClientAction)
    ensures
        count(acts.push(b), a) == count(acts, a) + if b == a {
            1nat
        } else {
            0nat
        },
{
    assert(acts.push(b).drop_last() =~= acts);
}

proof fn lemma_failed_attempts(k: nat)
    ensures
        run(ClientState::Disconnected, failed_attempts(k)).0 == ClientState::Disconnected,
        count(run(ClientState::Disconnected, failed_attempts(k)).1, ClientAction::Connect) == k
            + 1,
        count(run(ClientState::Disconnected, failed_attempts(k)).1, ClientAction::WaitRetryDelay)
            == k,
        count(run(ClientState::Disconnected, failed_attempts(k)).1, ClientAction::OpenStream)
            == 0,
    decreases k,
{
    let d = ClientState::Disconnected;
    if k == 0 {
        let e = seq![ClientEvent::Started];
        lemma_run_push(d, Seq::empty(), ClientEvent::Started);
        assert(Seq::<ClientEvent>::empty().push(ClientEvent::Started) =~= e);
        let acts = run(d, e).1;
        assert(acts =~= Seq::<ClientAction>::empty().push(ClientAction::Connect));
        lemma_count_push(Seq::empty(), ClientAction::Connect, ClientAction::Connect);
        lemma_count_push(Seq::empty(), ClientAction::WaitRetryDelay, ClientAction::Connect);
        lemma_count_push(Seq::empty(), ClientAction::OpenStream, ClientAction::Connect);
    } else {
        let prev = failed_attempts((k - 1) as nat);
        lemma_failed_attempts((k - 1) as nat);
        let mid = prev.push(ClientEvent::ConnectFailed);
        lemma_run_push(d, prev, ClientEvent::ConnectFailed);
        lemma_run_push(d, mid, ClientEvent::RetryDelayElapsed);
        let a0 = run(d, prev).1;
        let a1 = run(d, mid).1;
        lemma_count_push(a0, ClientAction::Connect, ClientAction::WaitRetryDelay);
        lemma_count_push(a0, ClientAction::WaitRetryDelay, ClientAction::WaitRetryDelay);
        lemma_count_push(a0, ClientAction::OpenStream, ClientAction::WaitRetryDelay);
        lemma_count_push(a1, ClientAction::Connect, ClientAction::Connect);
        lemma_count_push(a1, ClientAction::WaitRetryDelay, ClientAction::Connect);
        lemma_count_push(a1, ClientAction::OpenStream, ClientAction::Connect);
    }
}

/// Session establishment is retried without end: after any number `k` of
/// failed attempts, each followed by the retry delay, a successful attempt
/// leaves the client connected, having made exactly `k + 1` attempts, waited
/// the retry delay `k` times, and sent no sample before the session existed.
pub proof fn lemma_retry_until_connected(k: nat)
    ensures
        ({
            let r = run(
                ClientState::Disconnected,
                failed_attempts(k).push(ClientEvent::ConnectSucceeded),
            );
            &&& r.0 == ClientState::Connected
            &&& count(r.1, ClientAction::Connect) == k + 1
            &&& count(r.1, ClientAction::WaitRetryDelay) == k
            &&& count(r.1, ClientAction::OpenStream) == 1
            &&& r.1.last() == ClientAction::OpenStream
        }),
{
    let d = ClientState::Disconnected;
    lemma_failed_attempts(k);
    lemma_run_push(d, failed_attempts(k), ClientEvent::ConnectSucceeded);
    let a = run(d, failed_attempts(k)).1;
    lemma_count_push(a, ClientAction::Connect, ClientAction::OpenStream);
    lemma_count_push(a, ClientAction::WaitRetryDelay, ClientAction::OpenStream);
    lemma_count_push(a, ClientAction::OpenStream, ClientAction::OpenStream);
}

/// A client without a session never stops and never sends: whatever happens,
/// it either connects, waits the retry delay before connecting, or becomes
/// connected; a failed attempt is always followed by the retry delay.
pub proof fn lemma_disconnected_keeps_trying(e: ClientEvent)
    ensures
        step(ClientState::Disconnected, e).action == ClientAction::Connect || step(
            ClientState::Disconnected,
            e,
        ).action == ClientAction::WaitRetryDelay || (e == ClientEvent::ConnectSucceeded
            && step(ClientState::Disconnected, e).state == ClientState::Connected),
        e == ClientEvent::ConnectFailed ==> step(ClientState::Disconnected, e)
            == (ClientStep { state: ClientState::Disconnected, action: ClientAction::WaitRetryDelay }),
        e == ClientEvent::RetryDelayElapsed ==> step(ClientState::Disconnected, e).action
            == ClientAction::Connect,
{
}

/// When a stream cannot be opened, the session is dropped and a new one is
/// established before the next sample: the client becomes disconnected and
/// connects at once, and no event but a successful connection lets a
/// disconnected client open a stream.
pub proof fn lemma_open_failure_reconnects(e: ClientEvent)
    ensures
        step(ClientState::Connected, ClientEvent::StreamOpenFailed) == (ClientStep {
            state: ClientState::Disconnected,
            action: ClientAction::Connect,
        }),
        e != ClientEvent::ConnectSucceeded ==> step(ClientState::Disconnected, e).state
            == ClientState::Disconnected && step(ClientState::Disconnected, e).action
            != ClientAction::OpenStream,
{
}

} // verus!
