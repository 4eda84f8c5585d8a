use std::time::Duration;

use cloudflare_quick_tunnel::edge::{EdgeAddr, EdgeIp, EdgeIpVersion, EdgeSocket};
use cloudflare_quick_tunnel::quic_dial::{
    build_client_config, build_endpoint, dial, dial_any, dial_request, local_bind,
    plan_client_config, DialOutcome, DialStep, EndpointFailure, ALPN,
};
use cloudflare_quick_tunnel::TunnelError;

const CERT_PEM: &str = "-----BEGIN CERTIFICATE-----\n\
MIIBfzCCASWgAwIBAgIUEHJLJt8Zwc4QUi3eLRp/LD592bgwCgYIKoZIzj0EAwIw\n\
FDESMBAGA1UEAwwJZWRnZSByb290MCAXDTI2MTExNTE1MTg1MFoYDzIxMjYxMDIy\n\
MTUxODUwWjAUMRIwEAYDVQQDDAllZGdlIHJvb3QwWTATBgcqhkjOPQIBBggqhkjO\n\
PQMBBwNCAARsvPuSi2EJhVEHhw/L8DqmraCyQ876PMhtQcmrzDaOfJ9paveI4lnV\n\
Q7x/Jnbw9Hva5w2CndtnhyMNRHcuOvCio1MwUTAdBgNVHQ4EFgQUl4DTZGi59ap/\n\
NqzkSAFwKsF3DMkwHwYDVR0jBBgwFoAUl4DTZGi59ap/NqzkSAFwKsF3DMkwDwYD\n\
VR0TAQH/BAUwAwEB/zAKBggqhkjOPQQDAgNIADBFAiBDbIImN0SdRfcxEZ2fkCH+\n\
svG7ABV/f6phdUiLbw+JegIhAIOtKv4AnnFLg7A6EK8R5oYr8iI08WFS+VozFPI4\n\
WuZR\n\
-----END CERTIFICATE-----\n";

fn edge(last: u8) -> EdgeAddr {
    EdgeAddr {
        ip: EdgeIp::V4([198, 41, 192, last]),
        port: 7844,
        version: EdgeIpVersion::V4,
    }
}

fn cert() -> Vec<u8> {
    rustls_pemfile::certs(&mut CERT_PEM.as_bytes()).next().unwrap().unwrap().to_vec()
}

#[test]
fn dial_any_empty_short_circuits() {
    let (_, step) = dial_any::<u8>(&[]);
    match step {
        DialStep::Finish(Err(TunnelError::QuicDial { attempts, last })) => {
            assert_eq!(attempts, 0);
            assert_eq!(last, "no edges provided");
        }
        _ => panic!("nothing to dial"),
    }
}

#[test]
fn dial_unreachable_addr_times_out_fast() {
    let bogus = EdgeAddr {
        ip: EdgeIp::V4([192, 0, 2, 1]),
        port: 7844,
        version: EdgeIpVersion::V4,
    };
    let (mut run, step) = dial_any::<u8>(std::slice::from_ref(&bogus));
    assert!(matches!(step, DialStep::Attempt(e) if e.ip == bogus.ip));
    match run.report(dial::<u8>(DialOutcome::TimedOut)) {
        DialStep::Finish(result) => assert!(result.is_err(), "TEST-NET should never connect"),
        DialStep::Attempt(_) => panic!("no edge is left"),
    }
}

#[test]
fn dial_request_is_the_handshake_recipe() {
    let request = dial_request(&edge(5));
    assert_eq!(request.addr, EdgeSocket { ip: EdgeIp::V4([198, 41, 192, 5]), port: 7844 });
    assert_eq!(request.server_name, "quic.cftunnel.com");
    assert_eq!(request.timeout, Duration::from_secs(10));
    assert_eq!(&ALPN, b"argotunnel");
}

#[test]
fn dial_says_what_went_wrong() {
    assert_eq!(dial(DialOutcome::Connected(7u8)).unwrap(), 7);
    assert_eq!(
        dial::<u8>(DialOutcome::NotStarted("bad name".to_string())).unwrap_err().message(),
        "QUIC dial failed after 1 attempt(s); last: connect builder: bad name"
    );
    assert_eq!(
        dial::<u8>(DialOutcome::HandshakeFailed("refused".to_string())).unwrap_err().message(),
        "QUIC dial failed after 1 attempt(s); last: handshake: refused"
    );
    assert_eq!(
        dial::<u8>(DialOutcome::TimedOut).unwrap_err().message(),
        "QUIC dial failed after 1 attempt(s); last: handshake timed out"
    );
}

#[test]
fn dial_any_stops_at_the_first_success() {
    let edges = [edge(1), edge(2), edge(3)];
    let (mut run, step) = dial_any::<u8>(&edges);
    assert!(matches!(step, DialStep::Attempt(e) if e.ip == edges[0].ip));
    let step = run.report(dial::<u8>(DialOutcome::TimedOut));
    assert!(matches!(step, DialStep::Attempt(e) if e.ip == edges[1].ip));
    let step = run.report(dial(DialOutcome::Connected(42u8)));
    assert!(matches!(step, DialStep::Finish(Ok(42))));
}

#[test]
fn dial_any_reports_the_last_failure() {
    let edges = [edge(1), edge(2)];
    let (mut run, _) = dial_any::<u8>(&edges);
    let _ = run.report(dial::<u8>(DialOutcome::TimedOut));
    match run.report(dial::<u8>(DialOutcome::HandshakeFailed("refused".to_string()))) {
        DialStep::Finish(Err(TunnelError::QuicDial { attempts, last })) => {
            assert_eq!(attempts, 2);
            assert_eq!(last, "QUIC dial failed after 1 attempt(s); last: handshake: refused");
        }
        _ => panic!("all edges have failed"),
    }
}

#[test]
fn client_config_trusts_system_and_added_roots() {
    let native = vec![cert(), b"not a certificate".to_vec(), cert()];
    let plan = build_client_config(Ok(native), CERT_PEM.as_bytes()).unwrap();
    assert_eq!(plan.native_count, 2);
    assert_eq!(plan.cf_added, 1);
    assert_eq!(plan.roots.len(), 3);
    assert_eq!(plan.alpn_protocols, vec![b"argotunnel".to_vec()]);
    assert_eq!(plan.max_idle_timeout, Duration::from_secs(30));
    assert_eq!(plan.keep_alive_interval, Some(Duration::from_secs(1)));
}

#[test]
fn client_config_does_without_system_roots() {
    let plan = build_client_config(Err("no store".to_string()), CERT_PEM.as_bytes()).unwrap();
    assert_eq!((plan.native_count, plan.cf_added, plan.roots.len()), (0, 1, 1));
}

#[test]
fn client_config_without_any_root() {
    let plan = build_client_config(Ok(vec![]), b"no sections here\n").unwrap();
    assert_eq!((plan.native_count, plan.cf_added, plan.roots.len()), (0, 0, 0));
}

#[test]
fn client_config_refuses_malformed_pem() {
    let broken = b"-----BEGIN CERTIFICATE-----\nAAAA\n";
    match build_client_config(Ok(vec![]), broken) {
        Err(TunnelError::Internal(m)) => assert_eq!(
            m,
            "CF root PEM malformed: section end \"CERTIFICATE\" missing"
        ),
        _ => panic!("the section has no end"),
    }
}

#[test]
fn plan_passes_over_bad_certificates() {
    let added = vec![b"junk".to_vec(), cert()];
    let plan = plan_client_config(Ok(vec![cert()]), Ok(added)).unwrap();
    assert_eq!((plan.native_count, plan.cf_added, plan.roots.len()), (1, 1, 2));
}

#[test]
fn plan_reports_unreadable_roots() {
    let r = plan_client_config(Ok(vec![]), Err("torn".to_string()));
    assert_eq!(
        r.err().unwrap().message(),
        "internal invariant violated: CF root PEM malformed: torn"
    );
}

#[test]
fn endpoint_failures_are_internal() {
    assert_eq!(build_endpoint(Ok(3u8)).unwrap(), 3);
    assert_eq!(
        build_endpoint::<u8>(Err(EndpointFailure::Bind("in use".to_string())))
            .unwrap_err()
            .message(),
        "internal invariant violated: Endpoint::client bind: in use"
    );
    assert_eq!(
        build_endpoint::<u8>(Err(EndpointFailure::Crypto("no suite".to_string())))
            .unwrap_err()
            .message(),
        "internal invariant violated: rustls→quinn: no suite"
    );
    assert_eq!(local_bind(), EdgeSocket { ip: EdgeIp::V4([0, 0, 0, 0]), port: 0 });
}
