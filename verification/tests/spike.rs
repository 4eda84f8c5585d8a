use cloudflare_quick_tunnel::edge::{EdgeIp, EdgeSocket, SrvAnswer};
use cloudflare_quick_tunnel::quic_dial::EndpointFailure;
use cloudflare_quick_tunnel::spike::{
    build_client_config, build_endpoint, discover_edges, plan_client_config, Probe, ProbeOutcome,
    ProbeStep, SpikeError,
};

fn socket(last: u8) -> EdgeSocket {
    EdgeSocket { ip: EdgeIp::V4([198, 41, 192, last]), port: 7844 }
}

#[test]
fn every_named_edge_is_discovered() {
    let answers = vec![
        SrvAnswer { port: 7844, ips: Some(vec![EdgeIp::V4([198, 41, 192, 1])]) },
        SrvAnswer { port: 7844, ips: None },
        SrvAnswer { port: 7844, ips: Some(vec![EdgeIp::V6([1; 16])]) },
    ];
    let edges = discover_edges(Ok(answers)).unwrap();
    assert_eq!(edges, vec![socket(1), EdgeSocket { ip: EdgeIp::V6([1; 16]), port: 7844 }]);
}

#[test]
fn no_edge_is_an_error() {
    match discover_edges(Ok(vec![SrvAnswer { port: 1, ips: None }])) {
        Err(SpikeError::Message(m)) => assert_eq!(
            m,
            "SRV _v2-origintunneld._tcp.argotunnel.com resolved to zero edges"
        ),
        other => panic!("unexpected: {other:?}"),
    }
    match discover_edges(Err("down".to_string())) {
        Err(SpikeError::Context { context, cause }) => {
            assert_eq!(context, "SRV lookup for _v2-origintunneld._tcp.argotunnel.com");
            assert_eq!(cause, "down");
        }
        other => panic!("unexpected: {other:?}"),
    }
}

#[test]
fn three_edges_are_probed() {
    let edges = [socket(1), socket(2), socket(3), socket(4)];
    let (mut probe, step) = Probe::start(&edges);
    assert!(matches!(step, ProbeStep::Attempt(e) if e == edges[0]));
    let step = probe.report(ProbeOutcome::HandshakeFailed("refused".to_string()));
    assert!(matches!(step, ProbeStep::Attempt(e) if e == edges[1]));
    let step = probe.report(ProbeOutcome::HandshakeFailed("refused".to_string()));
    assert!(matches!(step, ProbeStep::Attempt(e) if e == edges[2]));
    match probe.report(ProbeOutcome::TimedOut) {
        ProbeStep::Finish(Err(SpikeError::Message(m))) => {
            assert_eq!(m, "all edges failed; last error: timeout")
        }
        _ => panic!("three edges are enough"),
    }
}

#[test]
fn probe_stops_at_the_first_handshake() {
    let (mut probe, _) = Probe::start(&[socket(1), socket(2)]);
    assert!(matches!(
        probe.report(ProbeOutcome::Connected),
        ProbeStep::Finish(Ok(()))
    ));
    match probe.report(ProbeOutcome::NotStarted("bad name".to_string())) {
        ProbeStep::Finish(Err(SpikeError::Message(m))) => assert_eq!(m, "bad name"),
        _ => panic!("a dial that cannot start ends the probe"),
    }
}

#[test]
fn probe_of_nothing_fails() {
    let (_, step) = Probe::start(&[]);
    match step {
        ProbeStep::Finish(Err(SpikeError::Message(m))) => {
            assert_eq!(m, "all edges failed; last error: <unknown>")
        }
        _ => panic!("nothing to probe"),
    }
}

#[test]
fn probe_config_wants_system_roots() {
    match build_client_config(Err("no store".to_string()), b"") {
        Err(SpikeError::Message(m)) => assert_eq!(m, "no store"),
        _ => panic!("an unreadable store is an error"),
    }
    match build_client_config(Ok(vec![]), b"-----BEGIN CERTIFICATE-----\nAAAA\n") {
        Err(SpikeError::Context { context, cause }) => {
            assert_eq!(context, "malformed CF root PEM");
            assert_eq!(cause, "section end \"CERTIFICATE\" missing");
        }
        _ => panic!("the section has no end"),
    }
    let plan = plan_client_config(Ok(vec![vec![0]]), Ok(vec![])).ok().unwrap();
    assert_eq!((plan.native_count, plan.cf_added), (0, 0));
    assert!(plan.keep_alive_interval.is_none());
    assert_eq!(plan.alpn_protocols, vec![b"argotunnel".to_vec()]);
}

#[test]
fn probe_endpoint_failures_say_what_was_done() {
    assert_eq!(build_endpoint(Ok(3u8)).unwrap(), 3);
    for (failure, text) in [
        (EndpointFailure::Crypto("x".to_string()), "rustls config not QUIC-compatible"),
        (EndpointFailure::Bind("x".to_string()), "bind UDP socket for QUIC client"),
    ] {
        match build_endpoint::<u8>(Err(failure)) {
            Err(SpikeError::Context { context, cause }) => {
                assert_eq!(context, text);
                assert_eq!(cause, "x");
            }
            other => panic!("unexpected: {other:?}"),
        }
    }
}
