use crate::codec::{expected_report, handle_payload, report_view, DecodeError, StreamReport};
use vstd::prelude::*;

verus! {

/// What the endpoint's accept loop observes.
#[derive(Clone, Copy, Debug, PartialEq, Eq, Structural)]
pub enum EndpointEvent {
    /// A peer started a session handshake.
    SessionIncoming,
    /// The endpoint was shut down: no session will come any more.
    EndpointClosed,
}

/// What the endpoint's accept loop does next.
#[derive(Clone, Copy, Debug, PartialEq, Eq, Structural)]
pub enum EndpointAction {
    /// Hand the incoming session to a task of its own, and accept again.
    SpawnSession,
    /// Leave the accept loop: the server has stopped.
    Stop,
}

/// What a session's stream-accept loop observes.
#[derive(Clone, Copy, Debug, PartialEq, Eq, Structural)]
pub enum SessionEvent {
    /// A new inbound unidirectional stream was accepted.
    StreamAccepted,
    /// Accepting failed: the session is closed or broken.
    AcceptFailed,
}

/// What a session's stream-accept loop does next.
#[derive(Clone, Copy, Debug, PartialEq, Eq, Structural)]
pub enum SessionAction {
    /// Hand the stream to a handler task of its own, and accept again at once.
    DispatchHandler,
    /// Drop the session; other sessions and the endpoint go on.
    EndSession,
}

/// Each incoming session is handed off at once; only a shut-down endpoint
/// stops the server.
pub open spec fn endpoint_step(e: EndpointEvent) -> EndpointAction {
    match e {
        EndpointEvent::SessionIncoming => EndpointAction::SpawnSession,
        EndpointEvent::EndpointClosed => EndpointAction::Stop,
    }
}

/// Each accepted stream is handed off at once; a failed accept ends the session.
pub open spec fn session_step(e: SessionEvent) -> SessionAction {
    match e {
        SessionEvent::StreamAccepted => SessionAction::DispatchHandler,
        SessionEvent::AcceptFailed => SessionAction::EndSession,
    }
}

/// The number of handlers that a session dispatches when `events` arrive,
/// and whether it has ended: it reacts to each event until the first failure,
/// and to nothing after it.
pub open spec fn session_run(events: Seq<SessionEvent>) -> (nat, bool)
    decreases events.len(),
{
    if events.len() == 0 {
        (0, false)
    } else {
        let before = session_run(events.drop_last());
        if before.1 {
            before
        } else if events.last() == SessionEvent::StreamAccepted {
            (before.0 + 1, false)
        } else {
            (before.0, true)
        }
    }
}

/// Computes the endpoint's reaction to an event.
pub fn next_endpoint_action(e: EndpointEvent) -> (r: EndpointAction)
    ensures
        r == endpoint_step(e),
{
    match e {
        EndpointEvent::SessionIncoming => EndpointAction::SpawnSession,
        EndpointEvent::EndpointClosed => EndpointAction::Stop,
    }
}

/// Computes a session's reaction to an event.
pub fn next_session_action(e: SessionEvent) -> (r: SessionAction)
    ensures
        r == session_step(e),
{
    match e {
        SessionEvent::StreamAccepted => SessionAction::DispatchHandler,
        SessionEvent::AcceptFailed => SessionAction::EndSession,
    }
}

/// Feeds `events` to a session's accept loop: how many handlers it
/// dispatched, and whether it ended.
pub fn drive_session(events: &Vec<SessionEvent>) -> (r: (u64, bool))
    requires
        events@.len() <= u64::MAX,
    ensures
        (r.0 as nat, r.1) == session_run(events@),
{
    let mut dispatched: u64 = 0;
    let mut ended = false;
    let mut i: usize = 0;
    while i < events.len()
        invariant
            i <= events@.len() <= u64::MAX,
            dispatched <= i,
            (dispatched as nat, ended) == session_run(events@.take(i as int)),
        decreases events@.len() - i,
    {
        proof {
            assert(events@.take(i as int + 1).drop_last() =~= events@.take(i as int));
        }
        if !ended {
            match next_session_action(events[i]) {
                SessionAction::DispatchHandler => {
                    dispatched = dispatched + 1;
                },
                SessionAction::EndSession => {
                    ended = true;
                },
            }
        }
        i = i + 1;
    }
    proof {
        assert(events@.take(i as int) =~= events@);
    }
    (dispatched, ended)
}

/// `n` streams that all arrive before any failure are all dispatched, each to
/// a handler of its own, and the session stays open.
pub proof fn lemma_all_streams_dispatched(n: nat)
    ensures
        session_run(Seq::new(n, |i: int| SessionEvent::StreamAccepted)) == (n, false),
    decreases n,
{
    if n > 0 {
        lemma_all_streams_dispatched((n - 1) as nat);
        assert(Seq::new(n, |i: int| SessionEvent::StreamAccepted).drop_last() =~= Seq::new(
            (n - 1) as nat,
            |i: int| SessionEvent::StreamAccepted,
        ));
    }
}

/// The byte strings that `bodies` hold.
pub open spec fn body_views(bodies: Seq<Vec<u8>>) -> Seq<Seq<u8>> {
    bodies.map_values(|b: Vec<u8>| b@)
}

/// What each report of `r` says.
pub open spec fn report_views(r: Seq<StreamReport>) -> Seq<
    Result<(Seq<char>, int), (DecodeError, Seq<char>)>,
> {
    r.map_values(|x: StreamReport| report_view(x))
}

/// The reports owed for `bodies`, one per body, in their order.
pub open spec fn owed_reports(bodies: Seq<Seq<u8>>) -> Seq<
    Result<(Seq<char>, int), (DecodeError, Seq<char>)>,
> {
    bodies.map_values(|b: Seq<u8>| expected_report(b))
}

/// Handles each stream body on its own: the report for a body depends on
/// that body alone, never on the others or on their order.
pub fn handle_streams(bodies: &Vec<Vec<u8>>) -> (r: Vec<StreamReport>)
    ensures
        r@.len() == bodies@.len(),
        forall|i: int|
            0 <= i < bodies@.len() ==> report_view(#[trigger] r@[i]) == expected_report(
                bodies@[i]@,
            ),
        report_views(r@) == owed_reports(body_views(bodies@)),
{
    let mut out: Vec<StreamReport> = Vec::new();
    let mut i: usize = 0;
    while i < bodies.len()
        invariant
            i <= bodies@.len(),
            out@.len() == i,
            forall|j: int|
                0 <= j < i ==> report_view(#[trigger] out@[j]) == expected_report(bodies@[j]@),
        decreases bodies@.len() - i,
    {
        let report = handle_payload(bodies[i].as_slice());
        out.push(report);
        i = i + 1;
    }
    assert(report_views(out@) =~= owed_reports(body_views(bodies@)));
    out
}

/// Streams may arrive in any order: when `shuffled` holds the same bodies as
/// `bodies`, each as often, in another order, the reports that
/// `handle_streams` owes for the one are those it owes for the other, each
/// as often. So every body is handled once, and identically, whatever the
/// order of arrival.
pub proof fn lemma_any_arrival_order(bodies: Seq<Seq<u8>>, shuffled: Seq<Seq<u8>>)
    requires
        shuffled.to_multiset() == bodies.to_multiset(),
    ensures
        owed_reports(shuffled).to_multiset() == owed_reports(bodies).to_multiset(),
    decreases shuffled.len(),
{
    broadcast use vstd::seq_lib::group_to_multiset_ensures;

    if shuffled.len() == 0 {
        assert(shuffled.to_multiset().len() == 0);
        assert(bodies.len() == bodies.to_multiset().len());
        assert(owed_reports(shuffled) =~= owed_reports(bodies));
    } else {
        let x = shuffled.last();
        let rest = shuffled.drop_last();
        assert(shuffled =~= rest.push(x));
        assert(shuffled.contains(x)) by {
            assert(shuffled[shuffled.len() - 1] == x);
        }
        assert(bodies.to_multiset().count(x) > 0);
        assert(bodies.contains(x));
        let j = choose|j: int| 0 <= j < bodies.len() && bodies[j] == x;
        let others = bodies.remove(j);
        assert(rest.to_multiset() =~= shuffled.to_multiset().remove(x));
        assert(others.to_multiset() =~= bodies.to_multiset().remove(x));
        lemma_any_arrival_order(others, rest);
        let fx = expected_report(x);
        assert(owed_reports(shuffled) =~= owed_reports(rest).push(fx));
        assert(owed_reports(others) =~= owed_reports(bodies).remove(j));
        assert(owed_reports(bodies)[j] == fx);
        let mb = owed_reports(bodies).to_multiset();
        assert(owed_reports(others).to_multiset() =~= mb.remove(fx));
        assert(mb.count(fx) > 0) by {
            assert(owed_reports(bodies).contains(fx));
        }
        assert(owed_reports(shuffled).to_multiset() =~= mb.remove(fx).insert(fx));
        assert(mb.remove(fx).insert(fx) =~= mb);
    }
}

} // verus!
