use quic_telemetry::codec::{encode_sample, StreamReport, TelemetrySample};
use quic_telemetry::options::GlobalOptions;
use quic_telemetry::server::{
    drive_session, handle_streams, next_endpoint_action, next_session_action, EndpointAction,
    EndpointEvent, SessionAction, SessionEvent,
};
use quic_telemetry::trust::{
    certificate_source, client_trust_policy, self_signed_identity, CertificateSource, TrustPolicy,
};

#[test]
fn every_accepted_stream_is_dispatched() {
    let events = vec![SessionEvent::StreamAccepted; 25];
    assert_eq!(drive_session(&events), (25, false));
}

#[test]
fn failed_accept_ends_only_the_session() {
    let events = vec![
        SessionEvent::StreamAccepted,
        SessionEvent::StreamAccepted,
        SessionEvent::AcceptFailed,
        SessionEvent::StreamAccepted,
    ];
    assert_eq!(drive_session(&events), (2, true));
    assert_eq!(next_session_action(SessionEvent::AcceptFailed), SessionAction::EndSession);
    assert_eq!(next_session_action(SessionEvent::StreamAccepted), SessionAction::DispatchHandler);
    assert_eq!(next_endpoint_action(EndpointEvent::SessionIncoming), EndpointAction::SpawnSession);
    assert_eq!(next_endpoint_action(EndpointEvent::EndpointClosed), EndpointAction::Stop);
}

#[test]
fn streams_in_any_order_are_each_decoded() {
    let mut bodies: Vec<Vec<u8>> = (0..8)
        .map(|i| {
            let s = TelemetrySample { sender: format!("dev{}", i), hundredths: 2000 + i as i64 };
            encode_sample(&s)
        })
        .collect();
    bodies.push(b"garbage".to_vec());
    // A fixed shuffle of the arrival order.
    let order = [5usize, 2, 8, 0, 7, 3, 1, 6, 4];
    let shuffled: Vec<Vec<u8>> = order.iter().map(|&i| bodies[i].clone()).collect();
    let reports = handle_streams(&shuffled);
    assert_eq!(reports.len(), 9);
    for (pos, &i) in order.iter().enumerate() {
        match &reports[pos] {
            StreamReport::Received(s) => {
                assert_eq!(s.sender, format!("dev{}", i));
                assert_eq!(s.hundredths, 2000 + i as i64);
            }
            StreamReport::Rejected { raw_text, .. } => {
                assert_eq!(i, 8);
                assert_eq!(raw_text, "garbage");
            }
        }
    }
}

#[test]
fn trust_policy_follows_the_authority_option() {
    assert!(matches!(client_trust_policy(None), TrustPolicy::SkipVerification));
    match client_trust_policy(Some(vec![1, 2, 3])) {
        TrustPolicy::PinnedAuthority { authority_der } => assert_eq!(authority_der, vec![1, 2, 3]),
        TrustPolicy::SkipVerification => panic!("the authority was ignored"),
    }
}

#[test]
fn certificate_source_needs_both_paths() {
    match certificate_source(Some("c.pem".to_string()), Some("k.pem".to_string())) {
        CertificateSource::Files { cert_path, key_path } => {
            assert_eq!(cert_path, "c.pem");
            assert_eq!(key_path, "k.pem");
        }
        CertificateSource::SelfSigned => panic!("the files were ignored"),
    }
    assert!(matches!(certificate_source(None, None), CertificateSource::SelfSigned));
    assert!(matches!(certificate_source(Some("c".to_string()), None), CertificateSource::SelfSigned));
}

#[test]
fn self_signed_identity_is_fresh() {
    let a = self_signed_identity(&"localhost".to_string()).ok().unwrap();
    let b = self_signed_identity(&"localhost".to_string()).ok().unwrap();
    assert!(!a.cert_der.is_empty());
    assert!(!a.key_der.is_empty());
    assert_ne!(a.key_der, b.key_der);
}

#[test]
fn options_keep_the_name() {
    assert_eq!(GlobalOptions::new("srv".to_string()).name, "srv");
}
