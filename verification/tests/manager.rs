use std::time::Duration;

use cloudflare_quick_tunnel::api::QuickTunnel;
use cloudflare_quick_tunnel::{QuickTunnelHandle, QuickTunnelManager, TunnelMetrics};

fn tunnel(id: &str) -> QuickTunnel {
    QuickTunnel {
        id: id.to_string(),
        name: "qt".to_string(),
        hostname: "a-b.trycloudflare.com".to_string(),
        account_tag: "tag".to_string(),
        secret: vec![9; 32],
    }
}

#[test]
fn manager_defaults() {
    let m = QuickTunnelManager::new(8080);
    assert_eq!(m.local_port, 8080);
    assert_eq!(m.discovery_timeout, Duration::from_secs(30));
    assert_eq!(m.service_url, "https://api.trycloudflare.com");
    assert_eq!(m.user_agent, "cloudflared/2024.12.0");
}

#[test]
fn manager_settings_are_independent() {
    let m = QuickTunnelManager::new(1)
        .with_timeout(Duration::from_millis(1500))
        .with_service_url("http://localhost:1")
        .with_user_agent(String::from("probe/1"));
    assert_eq!(m.local_port, 1);
    assert_eq!(m.discovery_timeout, Duration::from_millis(1500));
    assert_eq!(m.service_url, "http://localhost:1");
    assert_eq!(m.user_agent, "probe/1");
    let m = m.with_user_agent("probe/2");
    assert_eq!(m.user_agent, "probe/2");
    assert_eq!(m.service_url, "http://localhost:1");
}

#[test]
fn handle_speaks_for_its_tunnel() {
    let id = "550e8400-e29b-41d4-a716-446655440000";
    let h = QuickTunnelHandle::new(tunnel(id), "bog01".to_string()).ok().unwrap();
    assert_eq!(h.url, "https://a-b.trycloudflare.com");
    assert_eq!(h.url.trim_start_matches("https://"), "a-b.trycloudflare.com");
    assert_eq!(h.tunnel_id, 0x550e8400_e29b_41d4_a716_446655440000);
    assert_eq!(h.account_tag, "tag");
    assert_eq!(h.location, "bog01");
    assert_eq!(h.metrics().streams_total, 0);
}

#[test]
fn handle_wants_a_uuid() {
    let r = QuickTunnelHandle::new(tunnel("nope"), "bog01".to_string());
    assert_eq!(
        r.err().unwrap().message(),
        "internal invariant violated: tunnel id is not a UUID: nope"
    );
    let r = QuickTunnelHandle::with_id(tunnel("nope"), Some(7), "bog01".to_string());
    assert_eq!(r.ok().unwrap().tunnel_id, 7);
    assert!(QuickTunnelHandle::with_id(tunnel("x"), None, "y".to_string()).is_err());
}

#[test]
fn metrics_start_at_zero() {
    let m = TunnelMetrics::default();
    assert_eq!((m.streams_total, m.bytes_in, m.bytes_out, m.reconnects), (0, 0, 0, 0));
}

/// One request for `/probe`, answered with `hello /probe`.
#[test]
fn metrics_count_a_request() {
    let id = "550e8400e29b41d4a716446655440000";
    let mut h = QuickTunnelHandle::new(tunnel(id), "bog01".to_string()).ok().unwrap();
    h.counters.record_stream(0, "hello /probe".len() as u64);
    h.counters.record_reconnect();
    let m = h.metrics();
    assert_eq!((m.streams_total, m.bytes_in, m.bytes_out, m.reconnects), (1, 0, 12, 1));
}

#[test]
fn metrics_wrap_around() {
    let mut m = TunnelMetrics {
        streams_total: u64::MAX,
        bytes_in: u64::MAX,
        bytes_out: 5,
        reconnects: u64::MAX,
    };
    m.record_stream(2, 3);
    m.record_reconnect();
    assert_eq!((m.streams_total, m.bytes_in, m.bytes_out, m.reconnects), (0, 1, 8, 0));
}
