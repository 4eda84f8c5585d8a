use cloudflare_quick_tunnel::error::QuickTunnelApiError;
use cloudflare_quick_tunnel::TunnelError;

fn api(code: i32, message: &str) -> QuickTunnelApiError {
    QuickTunnelApiError { code, message: message.to_string() }
}

#[test]
fn messages_with_one_text() {
    let x = || "x".to_string();
    assert_eq!(TunnelError::Api(x()).message(), "quick-tunnel API request failed: x");
    assert_eq!(TunnelError::Discovery(x()).message(), "edge discovery failed: x");
    assert_eq!(TunnelError::Register(x()).message(), "capnp-RPC RegisterConnection failed: x");
    assert_eq!(TunnelError::Internal(x()).message(), "internal invariant violated: x");
    assert_eq!(TunnelError::Shutdown.message(), "shutdown requested");
}

#[test]
fn messages_with_numbers() {
    let e = TunnelError::ApiNonJson { status: 502, body_snippet: "<html>".to_string() };
    assert_eq!(e.message(), "quick-tunnel API responded non-JSON (502): <html>");
    let e = TunnelError::QuicDial { attempts: usize::MAX, last: "x".to_string() };
    assert_eq!(
        e.message(),
        format!("QUIC dial failed after {} attempt(s); last: x", usize::MAX)
    );
    let e = TunnelError::QuicDial { attempts: 0, last: "".to_string() };
    assert_eq!(e.message(), "QUIC dial failed after 0 attempt(s); last: ");
    assert_eq!(
        TunnelError::PermanentFailure(1090).message(),
        "connection lost; supervisor giving up after 1090 attempts"
    );
}

#[test]
fn business_errors_are_listed() {
    for errors in [
        vec![],
        vec![api(1101, "no")],
        vec![api(-7, "say \"no\"\n"), api(i32::MIN, "ünï"), api(0, "")],
    ] {
        let expected = format!("quick-tunnel API returned business errors: {:?}", errors);
        assert_eq!(TunnelError::ApiBusiness(errors).message(), expected);
    }
    assert_eq!(
        TunnelError::ApiBusiness(vec![api(-7, "say \"no\"")]).message(),
        "quick-tunnel API returned business errors: \
         [QuickTunnelApiError { code: -7, message: \"say \\\"no\\\"\" }]"
    );
}
