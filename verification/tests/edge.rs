use std::collections::hash_map::DefaultHasher;
use std::hash::{Hash, Hasher};
use std::time::Duration;

use cloudflare_quick_tunnel::edge::{
    build_dot_resolver, discover, lookup_name, resolve_srv, shuffled, shuffled_at, CacheStep,
    DiscoverStage, DiscoverStep, EdgeAddr, EdgeIp, EdgeIpVersion, EdgeRegistry, EdgeSocket,
    IpVersionFilter, SrvAnswer, DOT_SERVER_ADDR, SRV_NAME,
};
use cloudflare_quick_tunnel::TunnelError;

fn fake(ip: u8) -> EdgeAddr {
    EdgeAddr {
        ip: EdgeIp::V4([198, 41, 192, ip]),
        port: 7844,
        version: EdgeIpVersion::V4,
    }
}

fn v6(last: u8) -> EdgeIp {
    EdgeIp::V6([0x26, 6, 0x47, 0, 0, 0xa0, 0, 0, 0, 0, 0, 0, 0, 0, 0, last])
}

fn ips(edges: &[EdgeAddr]) -> Vec<EdgeIp> {
    edges.iter().map(|e| e.ip).collect()
}

#[test]
fn filter_matches_auto() {
    let e = fake(1);
    assert!(e.matches(IpVersionFilter::Auto));
    assert!(e.matches(IpVersionFilter::V4Only));
    assert!(!e.matches(IpVersionFilter::V6Only));
}

#[test]
fn filters_split_the_versions() {
    let four = EdgeAddr::from_ip(EdgeIp::V4([198, 41, 192, 1]), 7844);
    let six = EdgeAddr::from_ip(v6(1), 7844);
    assert_eq!(four.version, EdgeIpVersion::V4);
    assert_eq!(six.version, EdgeIpVersion::V6);
    assert!(six.matches(IpVersionFilter::Auto));
    assert!(!six.matches(IpVersionFilter::V4Only));
    assert!(six.matches(IpVersionFilter::V6Only));
    assert_eq!(IpVersionFilter::default(), IpVersionFilter::Auto);
}

#[test]
fn socket_is_address_and_port() {
    assert_eq!(
        fake(9).socket(),
        EdgeSocket { ip: EdgeIp::V4([198, 41, 192, 9]), port: 7844 }
    );
}

#[test]
fn shuffle_preserves_set() {
    let input: Vec<_> = (0..8).map(fake).collect();
    let out = shuffled(&input);
    assert_eq!(out.len(), input.len());
    let mut in_ips: Vec<_> = input.iter().map(|e| e.ip).collect();
    let mut out_ips: Vec<_> = out.iter().map(|e| e.ip).collect();
    in_ips.sort();
    out_ips.sort();
    assert_eq!(in_ips, out_ips);
}

#[test]
fn shuffle_turns_by_the_hash_of_the_reading() {
    let input: Vec<_> = (0..8).map(fake).collect();
    for reading in [0u128, 41, 1_000_003, u128::MAX] {
        let mut h = DefaultHasher::new();
        reading.hash(&mut h);
        let offset = (h.finish() as usize) % 8;
        let mut expected = ips(&input[offset..]);
        expected.extend(ips(&input[..offset]));
        assert_eq!(ips(&shuffled_at(&input, reading)), expected);
    }
}

#[test]
fn shuffle_of_nothing_is_nothing() {
    assert!(shuffled(&[]).is_empty());
    assert!(shuffled_at(&[], 12345).is_empty());
}

#[test]
fn lookup_name_drops_end_dots() {
    assert_eq!(lookup_name("region1.v2.argotunnel.com."), "region1.v2.argotunnel.com");
    assert_eq!(lookup_name("a.b.."), "a.b");
    assert_eq!(lookup_name("a.b"), "a.b");
    assert_eq!(lookup_name("..."), "");
    assert_eq!(lookup_name(""), "");
}

fn answers() -> Vec<SrvAnswer> {
    vec![
        SrvAnswer { port: 7844, ips: Some(vec![EdgeIp::V4([198, 41, 192, 1]), v6(1)]) },
        SrvAnswer { port: 7844, ips: None },
        SrvAnswer { port: 7845, ips: Some(vec![v6(2), EdgeIp::V4([198, 41, 192, 2])]) },
    ]
}

#[test]
fn resolve_srv_keeps_order_and_passes_over_failures() {
    let all = resolve_srv(Ok(answers()), IpVersionFilter::Auto).unwrap();
    assert_eq!(
        ips(&all),
        vec![EdgeIp::V4([198, 41, 192, 1]), v6(1), v6(2), EdgeIp::V4([198, 41, 192, 2])]
    );
    assert_eq!(all.iter().map(|e| e.port).collect::<Vec<_>>(), vec![7844, 7844, 7845, 7845]);
}

#[test]
fn resolve_srv_filter_narrows_auto() {
    let all = resolve_srv(Ok(answers()), IpVersionFilter::Auto).unwrap();
    for filter in [IpVersionFilter::V4Only, IpVersionFilter::V6Only] {
        let some = resolve_srv(Ok(answers()), filter).unwrap();
        let kept: Vec<EdgeAddr> = all.iter().copied().filter(|e| e.matches(filter)).collect();
        assert_eq!(ips(&some), ips(&kept));
        assert_eq!(some.len(), 2);
    }
}

#[test]
fn resolve_srv_reports_the_lookup_error() {
    match resolve_srv(Err("no route".to_string()), IpVersionFilter::Auto) {
        Err(TunnelError::Discovery(m)) => {
            assert_eq!(m, "SRV _v2-origintunneld._tcp.argotunnel.com: no route")
        }
        other => panic!("unexpected: {other:?}"),
    }
}

#[test]
fn discover_stops_at_the_first_edges() {
    match discover(DiscoverStage::System, Ok(vec![fake(1)])) {
        DiscoverStep::Finish(Ok(edges)) => assert_eq!(ips(&edges), vec![fake(1).ip]),
        _ => panic!("edges end the discovery"),
    }
}

#[test]
fn discover_falls_back_without_edges() {
    let failed = Err(TunnelError::Discovery("x".to_string()));
    assert!(matches!(discover(DiscoverStage::System, Ok(vec![])), DiscoverStep::AskDot));
    assert!(matches!(discover(DiscoverStage::System, failed), DiscoverStep::AskDot));
}

#[test]
fn discover_ends_with_the_fallback() {
    match discover(DiscoverStage::Dot, Ok(vec![])) {
        DiscoverStep::Finish(Err(TunnelError::Discovery(m))) => {
            assert_eq!(m, format!("DoT fallback also returned no edges for {SRV_NAME}"))
        }
        _ => panic!("an empty fallback is an error"),
    }
    match discover(DiscoverStage::Dot, Err(TunnelError::Discovery("x".to_string()))) {
        DiscoverStep::Finish(Err(TunnelError::Discovery(m))) => assert_eq!(m, "x"),
        _ => panic!("a failed fallback is its error"),
    }
    match discover(DiscoverStage::Dot, Ok(vec![fake(3)])) {
        DiscoverStep::Finish(Ok(edges)) => assert_eq!(ips(&edges), vec![fake(3).ip]),
        _ => panic!("edges end the discovery"),
    }
}

#[test]
fn registry_serves_cached_within_ttl() {
    let mut reg = EdgeRegistry::with_ttl(Duration::from_secs(60));
    let start = Duration::from_secs(1000);
    reg.refreshed(IpVersionFilter::Auto, start, Ok(vec![fake(7), fake(8)])).unwrap();
    match reg.get_or_refresh(IpVersionFilter::Auto, start) {
        CacheStep::Hit(got) => assert_eq!(got.len(), 2),
        CacheStep::Discover => panic!("the answer counts"),
    }
}

#[test]
fn registry_forgets_after_ttl() {
    let mut reg = EdgeRegistry::with_ttl(Duration::from_secs(60));
    let start = Duration::from_secs(1000);
    reg.refreshed(IpVersionFilter::Auto, start, Ok(vec![fake(7)])).unwrap();
    let last = Duration::from_nanos(1_059_999_999_999);
    assert!(matches!(reg.get_or_refresh(IpVersionFilter::Auto, last), CacheStep::Hit(_)));
    let over = Duration::from_secs(1060);
    assert!(matches!(reg.get_or_refresh(IpVersionFilter::Auto, over), CacheStep::Discover));
}

#[test]
fn registry_keeps_one_filter() {
    let mut reg = EdgeRegistry::new();
    let now = Duration::from_secs(5);
    assert!(matches!(reg.get_or_refresh(IpVersionFilter::Auto, now), CacheStep::Discover));
    reg.refreshed(IpVersionFilter::V4Only, now, Ok(vec![fake(1)])).unwrap();
    assert!(matches!(reg.get_or_refresh(IpVersionFilter::V4Only, now), CacheStep::Hit(_)));
    assert!(matches!(reg.get_or_refresh(IpVersionFilter::Auto, now), CacheStep::Discover));
}

#[test]
fn registry_default_ttl_is_an_hour() {
    let mut reg = EdgeRegistry::default();
    reg.refreshed(IpVersionFilter::Auto, Duration::from_secs(0), Ok(vec![fake(1)])).unwrap();
    let late = Duration::from_secs(3599);
    assert!(matches!(reg.get_or_refresh(IpVersionFilter::Auto, late), CacheStep::Hit(_)));
    let over = Duration::from_secs(3600);
    assert!(matches!(reg.get_or_refresh(IpVersionFilter::Auto, over), CacheStep::Discover));
}

#[test]
fn registry_keeps_its_answer_when_discovery_fails() {
    let mut reg = EdgeRegistry::with_ttl(Duration::from_secs(60));
    let now = Duration::from_secs(1);
    reg.refreshed(IpVersionFilter::Auto, now, Ok(vec![fake(4)])).unwrap();
    let r = reg.refreshed(
        IpVersionFilter::V6Only,
        now,
        Err(TunnelError::Discovery("down".to_string())),
    );
    assert_eq!(r.unwrap_err().message(), "edge discovery failed: down");
    match reg.get_or_refresh(IpVersionFilter::Auto, now) {
        CacheStep::Hit(got) => assert_eq!(ips(&got), vec![fake(4).ip]),
        CacheStep::Discover => panic!("the answer still counts"),
    }
}

fn hit(step: CacheStep) -> Vec<EdgeAddr> {
    match step {
        CacheStep::Hit(edges) => edges,
        CacheStep::Discover => panic!("the answer counts"),
    }
}

#[test]
fn registry_changes_the_head_from_call_to_call() {
    for n in [2u8, 3, 8] {
        let mut reg = EdgeRegistry::new();
        let now = Duration::from_secs(1);
        let edges: Vec<_> = (0..n).map(fake).collect();
        let mut last = reg.refreshed(IpVersionFilter::Auto, now, Ok(edges)).unwrap()[0].ip;
        for _ in 0..100 {
            let head = hit(reg.get_or_refresh(IpVersionFilter::Auto, now))[0].ip;
            assert_ne!(head, last);
            last = head;
        }
    }
}

#[test]
fn registry_turns_one_further_where_the_reading_repeats() {
    let mut reg = EdgeRegistry::new();
    let now = Duration::from_secs(1);
    let edges: Vec<_> = (0..8).map(fake).collect();
    let reading = 41u128;
    let turned = ips(&shuffled_at(&edges, reading));
    let first = reg.refreshed_at(IpVersionFilter::Auto, now, Ok(edges.clone()), reading).unwrap();
    assert_eq!(ips(&first), turned);
    let again = hit(reg.get_or_refresh_at(IpVersionFilter::Auto, now, reading));
    let mut further = turned.clone();
    further.rotate_left(1);
    assert_eq!(ips(&again), further);
    let back = hit(reg.get_or_refresh_at(IpVersionFilter::Auto, now, reading));
    assert_eq!(ips(&back), turned);
}

#[test]
fn registry_of_one_edge_has_one_head() {
    let mut reg = EdgeRegistry::new();
    let now = Duration::from_secs(1);
    reg.refreshed(IpVersionFilter::Auto, now, Ok(vec![fake(1)])).unwrap();
    for _ in 0..3 {
        let got = hit(reg.get_or_refresh(IpVersionFilter::Auto, now));
        assert_eq!(ips(&got), vec![fake(1).ip]);
    }
}

#[test]
fn turns_differ_in_head() {
    let input: Vec<_> = (0..8).map(fake).collect();
    let heads: Vec<_> = (0..200u128).map(|n| shuffled_at(&input, n)[0].ip).collect();
    for place in &input {
        assert!(heads.contains(&place.ip));
    }
}

#[test]
fn dot_resolver_is_the_public_one() {
    let dot = build_dot_resolver();
    let servers = dot.config.name_servers();
    assert_eq!(servers.len(), 1);
    assert_eq!(servers[0].socket_addr.to_string(), DOT_SERVER_ADDR);
    assert_eq!(servers[0].tls_dns_name.as_deref(), Some("cloudflare-dns.com"));
    assert_eq!(servers[0].protocol, hickory_resolver::config::Protocol::Tls);
    assert!(servers[0].trust_negative_responses);
    assert!(dot.config.domain().is_none());
    assert!(dot.config.search().is_empty());
    assert_eq!(dot.timeout, Duration::from_secs(15));
}
