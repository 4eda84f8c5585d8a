use base64::engine::general_purpose::STANDARD;
use base64::Engine;

use cloudflare_quick_tunnel::api::{
    body_snippet, deserialize, request_tunnel, tunnel_endpoint, ApiReply, QuickTunnel,
    QuickTunnelResponse, RequestStep, DEFAULT_SERVICE_URL, SNIPPET_CHARS,
};
use cloudflare_quick_tunnel::error::QuickTunnelApiError;
use cloudflare_quick_tunnel::TunnelError;

fn tunnel() -> QuickTunnel {
    QuickTunnel {
        id: "550e8400-e29b-41d4-a716-446655440000".to_string(),
        name: "qt".to_string(),
        hostname: "a-b.trycloudflare.com".to_string(),
        account_tag: "tag".to_string(),
        secret: vec![1, 2, 3],
    }
}

fn envelope(status: u16, success: bool) -> ApiReply {
    let errors = if success {
        vec![]
    } else {
        vec![QuickTunnelApiError { code: 1101, message: "no".to_string() }]
    };
    ApiReply::Envelope {
        status,
        response: QuickTunnelResponse { success, result: tunnel(), errors },
    }
}

fn non_json(status: u16) -> ApiReply {
    ApiReply::NonJson { status, body_snippet: "<html>".to_string() }
}

#[test]
fn secret_is_base64() {
    assert_eq!(deserialize("AQID").unwrap(), vec![1, 2, 3]);
    assert_eq!(deserialize("/w==").unwrap(), vec![255]);
    assert_eq!(deserialize("+/8=").unwrap(), vec![0xfb, 0xff]);
    assert_eq!(deserialize("Zm9vYmFy").unwrap(), b"foobar".to_vec());
    assert_eq!(deserialize("").unwrap(), Vec::<u8>::new());
}

#[test]
fn secret_round_trips() {
    for len in 0..70usize {
        let secret: Vec<u8> = (0..len).map(|i| (i * 37 + 11) as u8).collect();
        assert_eq!(deserialize(&STANDARD.encode(&secret)).unwrap(), secret);
    }
}

#[test]
fn secret_that_is_not_base64_is_refused() {
    assert_eq!(deserialize("AQI!").unwrap_err(), "Invalid symbol 33, offset 3.");
    assert_eq!(deserialize("AQI").unwrap_err(), "Invalid padding");
    assert_eq!(deserialize("A").unwrap_err(), "Invalid input length: 1");
    assert_eq!(deserialize("/x==").unwrap_err(), "Invalid last symbol 120, offset 1.");
    assert_eq!(deserialize("AQID\n").unwrap_err(), "Invalid symbol 10, offset 4.");
    assert!(deserialize("====").is_err());
    assert!(deserialize("AQ==AQ==").is_err());
    assert!(deserialize("_-8=").is_err());
}

#[test]
fn tunnels_are_asked_for_at_the_service() {
    assert_eq!(tunnel_endpoint(DEFAULT_SERVICE_URL), "https://api.trycloudflare.com/tunnel");
}

#[test]
fn snippet_is_the_start_of_the_body() {
    assert_eq!(body_snippet(""), "");
    assert_eq!(body_snippet("<html>"), "<html>");
    let full = "é".repeat(SNIPPET_CHARS);
    assert_eq!(body_snippet(&full), full);
    assert_eq!(body_snippet(&format!("{full}x")), full);
}

#[test]
fn made_tunnel_is_handed_out() {
    match request_tunnel(0, envelope(200, true)) {
        RequestStep::Finish(Ok(t)) => {
            assert_eq!(t.hostname, "a-b.trycloudflare.com");
            assert_eq!(t.secret, vec![1, 2, 3]);
        }
        _ => panic!("the tunnel was made"),
    }
}

#[test]
fn business_error_fails_fast() {
    match request_tunnel(0, envelope(200, false)) {
        RequestStep::Finish(Err(TunnelError::ApiBusiness(errors))) => {
            assert_eq!(errors.len(), 1);
            assert_eq!(errors[0].code, 1101);
            assert_eq!(errors[0].message, "no");
        }
        _ => panic!("a business error ends the request"),
    }
}

#[test]
fn client_error_fails_fast() {
    for status in [400, 404, 429, 499] {
        match request_tunnel(0, non_json(status)) {
            RequestStep::Finish(Err(TunnelError::ApiNonJson { status: s, body_snippet })) => {
                assert_eq!(s, status);
                assert_eq!(body_snippet, "<html>");
            }
            _ => panic!("a client error ends the request"),
        }
        assert!(matches!(
            request_tunnel(0, envelope(status, true)),
            RequestStep::Finish(Err(TunnelError::ApiBusiness(_)))
        ));
    }
}

fn delay(step: RequestStep) -> Option<u64> {
    match step {
        RequestStep::Retry { delay_secs } => Some(delay_secs),
        RequestStep::Finish(_) => None,
    }
}

#[test]
fn server_error_is_tried_again_with_growing_waits() {
    for status in [500, 503, 599] {
        let waits: Vec<_> = (0..4).map(|n| delay(request_tunnel(n, non_json(status)))).collect();
        assert_eq!(waits, vec![Some(1), Some(2), Some(4), None]);
        let waits: Vec<_> =
            (0..4).map(|n| delay(request_tunnel(n, envelope(status, true)))).collect();
        assert_eq!(waits, vec![Some(1), Some(2), Some(4), None]);
    }
    assert_eq!(delay(request_tunnel(0, non_json(600))), None);
}

#[test]
fn unreachable_service_is_tried_again() {
    let gone = || ApiReply::Unreachable("connection refused".to_string());
    let waits: Vec<_> = (0..4).map(|n| delay(request_tunnel(n, gone()))).collect();
    assert_eq!(waits, vec![Some(1), Some(2), Some(4), None]);
    match request_tunnel(3, gone()) {
        RequestStep::Finish(Err(e)) => {
            assert_eq!(e.message(), "quick-tunnel API request failed: connection refused")
        }
        _ => panic!("the retries are used up"),
    }
}
