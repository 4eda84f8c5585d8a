//! Edge discovery: the SRV record of the tunnel edges, with a DNS-over-TLS
//! fallback, and an in-memory cache around both.
//!
//! A lookup yields a list of [`EdgeAddr`]s that can be dialled in order. The
//! registry hands its list out turned by an offset that the clock decides, so
//! that neighbouring processes do not all pin the same edge, and never twice in
//! a row by the same offset, so that its callers see a different head edge from
//! one call to the next.

use crate::error::TunnelError;
use crate::text::{decimal, joined};
use hickory_resolver::config::{NameServerConfigGroup, ResolverConfig};
use std::collections::hash_map::DefaultHasher;
use std::hash::Hasher;
use std::time::{Duration, Instant};
use vstd::bytes::{spec_u128_to_le_bytes, u128_to_le_bytes};
use vstd::prelude::*;
use vstd::std_specs::hash::DefaultHasherAdditionalSpecFns;

verus! {

/// SRV record that names the pool of edges.
pub const SRV_NAME: &'static str = "_v2-origintunneld._tcp.argotunnel.com";

/// Server name of the DNS-over-TLS resolver.
pub const DOT_SERVER_NAME: &'static str = "cloudflare-dns.com";

/// Endpoint of the DNS-over-TLS resolver.
pub const DOT_SERVER_ADDR: &'static str = "1.1.1.1:853";

/// IPv4 address in [`DOT_SERVER_ADDR`].
pub const DOT_SERVER_IP: [u8; 4] = [1, 1, 1, 1];

/// Port in [`DOT_SERVER_ADDR`].
pub const DOT_SERVER_PORT: u16 = 853;

/// Seconds that a query to the DNS-over-TLS resolver may take.
pub const DOT_TIMEOUT_SECS: u64 = 15;

/// Seconds for which resolved edges are kept by default.
pub const DEFAULT_CACHE_TTL_SECS: u64 = 3600;

/// Which IP versions a caller wants.
#[derive(Debug, Clone, Copy, Default, PartialEq, Eq, Structural)]
pub enum IpVersionFilter {
    #[default]
    Auto,
    V4Only,
    V6Only,
}

#[derive(Debug, Clone, Copy, PartialEq, Eq, Structural)]
pub enum EdgeIpVersion {
    V4,
    V6,
}

/// An IP address, as its octets in network order.
#[derive(Debug, Clone, Copy, PartialEq, Eq, PartialOrd, Ord)]
pub enum EdgeIp {
    V4([u8; 4]),
    V6([u8; 16]),
}

/// An address and a port to connect to.
#[derive(Debug, Clone, Copy, PartialEq, Eq)]
pub struct EdgeSocket {
    pub ip: EdgeIp,
    pub port: u16,
}

/// One edge.
#[derive(Debug, Clone, Copy)]
pub struct EdgeAddr {
    pub ip: EdgeIp,
    pub port: u16,
    pub version: EdgeIpVersion,
}

/// The IP version of an address.
pub open spec fn version_of(ip: EdgeIp) -> EdgeIpVersion {
    match ip {
        EdgeIp::V4(_) => EdgeIpVersion::V4,
        EdgeIp::V6(_) => EdgeIpVersion::V6,
    }
}

/// The edge at an address and a port.
pub open spec fn edge_at(ip: EdgeIp, port: u16) -> EdgeAddr {
    EdgeAddr { ip, port, version: version_of(ip) }
}

/// Whether a filter lets an IP version through.
pub open spec fn lets_through(filter: IpVersionFilter, version: EdgeIpVersion) -> bool {
    match filter {
        IpVersionFilter::Auto => true,
        IpVersionFilter::V4Only => version == EdgeIpVersion::V4,
        IpVersionFilter::V6Only => version == EdgeIpVersion::V6,
    }
}

impl EdgeAddr {
    /// Where to connect to.
    pub fn socket(&self) -> (r: EdgeSocket)
        ensures
            r == (EdgeSocket { ip: self.ip, port: self.port }),
    {
        EdgeSocket { ip: self.ip, port: self.port }
    }

    /// The edge at an address, with the version that the address has.
    pub fn from_ip(ip: EdgeIp, port: u16) -> (r: Self)
        ensures
            r == edge_at(ip, port),
            r.ip == ip,
            r.port == port,
            r.version == EdgeIpVersion::V4 <==> ip is V4,
            r.version == EdgeIpVersion::V6 <==> ip is V6,
    {
        let version = match ip {
            EdgeIp::V4(_) => EdgeIpVersion::V4,
            EdgeIp::V6(_) => EdgeIpVersion::V6,
        };
        EdgeAddr { ip, port, version }
    }

    /// Whether a caller with this filter wants the edge.
    pub fn matches(&self, filter: IpVersionFilter) -> (r: bool)
        ensures
            r == lets_through(filter, self.version),
            filter == IpVersionFilter::Auto ==> r,
            filter == IpVersionFilter::V4Only ==> r == (self.version == EdgeIpVersion::V4),
            filter == IpVersionFilter::V6Only ==> r == (self.version == EdgeIpVersion::V6),
    {
        match filter {
            IpVersionFilter::Auto => true,
            IpVersionFilter::V4Only => self.version == EdgeIpVersion::V4,
            IpVersionFilter::V6Only => self.version == EdgeIpVersion::V6,
        }
    }
}

/// One record of the SRV answer: the port it names, and the addresses that
/// its target resolved to, or nothing where they could not be resolved.
pub struct SrvAnswer {
    pub port: u16,
    pub ips: Option<Vec<EdgeIp>>,
}

/// `r` is `s` without the dots at its end.
pub open spec fn without_end_dots(s: Seq<char>, r: Seq<char>) -> bool {
    &&& r.is_prefix_of(s)
    &&& forall|i: int| r.len() <= i < s.len() ==> s[i] == '.'
    &&& r.len() > 0 ==> r.last() != '.'
}

/// The name under which an SRV target is looked up: the target without the
/// dots at its end.
pub fn lookup_name(target: &str) -> (r: String)
    ensures
        without_end_dots(target@, r@),
        r@.len() <= target@.len(),
        r@ == target@.take(r@.len() as int),
        forall|i: int| r@.len() <= i < target@.len() ==> target@[i] == '.',
        r@.len() > 0 ==> r@[r@.len() - 1] != '.',
{
    let mut n: usize = target.unicode_len();
    while n > 0 && target.get_char(n - 1) == '.'
        invariant
            n <= target@.len(),
            forall|i: int| n <= i < target@.len() ==> target@[i] == '.',
        decreases n,
    {
        n = n - 1;
    }
    let r = target.substring_char(0, n).to_string();
    assert(r@ =~= target@.take(n as int));
    r
}

/// The edges at some addresses that a filter lets through, in order.
pub open spec fn edges_kept(ips: Seq<EdgeIp>, port: u16, filter: IpVersionFilter) -> Seq<EdgeAddr> {
    ips.map_values(|ip: EdgeIp| edge_at(ip, port)).filter(
        |e: EdgeAddr| lets_through(filter, e.version),
    )
}

/// The edges that an SRV answer names, record by record, as far as a filter
/// lets them through. A record that could not be resolved adds none.
pub open spec fn edges_named(answers: Seq<SrvAnswer>, filter: IpVersionFilter) -> Seq<EdgeAddr>
    decreases answers.len(),
{
    if answers.len() == 0 {
        Seq::empty()
    } else {
        edges_named(answers.drop_last(), filter) + match answers.last().ips {
            Some(ips) => edges_kept(ips@, answers.last().port, filter),
            None => Seq::empty(),
        }
    }
}

/// Appends the edges at some addresses that a filter lets through.
fn push_kept(edges: &mut Vec<EdgeAddr>, ips: &Vec<EdgeIp>, port: u16, filter: IpVersionFilter)
    ensures
        final(edges)@ == old(edges)@ + edges_kept(ips@, port, filter),
{
    let ghost all = ips@.map_values(|ip: EdgeIp| edge_at(ip, port));
    let ghost wanted = |e: EdgeAddr| lets_through(filter, e.version);
    proof {
        reveal(Seq::filter);
        assert(all.take(0).filter(wanted) =~= Seq::empty());
    }
    let mut i: usize = 0;
    while i < ips.len()
        invariant
            i <= ips.len(),
            all == ips@.map_values(|ip: EdgeIp| edge_at(ip, port)),
            wanted == (|e: EdgeAddr| lets_through(filter, e.version)),
            edges@ == old(edges)@ + all.take(i as int).filter(wanted),
        decreases ips.len() - i,
    {
        let edge = EdgeAddr::from_ip(ips[i], port);
        proof {
            reveal(Seq::filter);
            assert(all.take(i + 1).drop_last() =~= all.take(i as int));
            assert(all.take(i + 1).last() == edge);
        }
        if edge.matches(filter) {
            edges.push(edge);
        }
        assert(edges@ =~= old(edges)@ + all.take(i + 1).filter(wanted));
        i = i + 1;
    }
    assert(all.take(i as int) =~= all);
}

/// Turns the outcome of the SRV lookup, and of the lookups of its targets,
/// into edges.
pub fn resolve_srv(lookup: Result<Vec<SrvAnswer>, String>, filter: IpVersionFilter) -> (r: Result<
    Vec<EdgeAddr>,
    TunnelError,
>)
    ensures
        match lookup {
            Ok(answers) => r matches Ok(edges) && edges@ == edges_named(answers@, filter),
            Err(e) => r matches Err(TunnelError::Discovery(m)) && m@ == "SRV "@ + SRV_NAME@ + ": "@
                + e@,
        },
        r matches Ok(edges) ==> forall|i: int|
            0 <= i < edges@.len() ==> (filter == IpVersionFilter::V4Only ==> (
            #[trigger] edges@[i]).version == EdgeIpVersion::V4) && (filter
                == IpVersionFilter::V6Only ==> edges@[i].version == EdgeIpVersion::V6),
{
    let answers = match lookup {
        Ok(answers) => answers,
        Err(e) => {
            let mut m = joined("SRV ", SRV_NAME);
            m.append(": ");
            m.append(e.as_str());
            return Err(TunnelError::Discovery(m));
        },
    };
    let mut edges: Vec<EdgeAddr> = Vec::new();
    let mut i: usize = 0;
    while i < answers.len()
        invariant
            i <= answers.len(),
            edges@ == edges_named(answers@.take(i as int), filter),
        decreases answers.len() - i,
    {
        proof {
            assert(answers@.take(i + 1).drop_last() =~= answers@.take(i as int));
            assert(answers@.take(i + 1).last() == answers@[i as int]);
        }
        match &answers[i].ips {
            Some(ips) => push_kept(&mut edges, ips, answers[i].port, filter),
            None => {},
        }
        assert(edges@ =~= edges_named(answers@.take(i + 1), filter));
        i = i + 1;
    }
    assert(answers@.take(i as int) =~= answers@);
    proof {
        assert forall|j: int| 0 <= j < edges@.len() implies lets_through(
            filter,
            (#[trigger] edges@[j]).version,
        ) by {
            lemma_resolved_edges_pass(answers@, filter, j);
        }
    }
    Ok(edges)
}

/// Which resolver a discovery has asked.
#[derive(Debug, Clone, Copy, PartialEq, Eq, Structural)]
pub enum DiscoverStage {
    /// The system's resolver, which is asked first.
    System,
    /// The DNS-over-TLS resolver, the fallback.
    Dot,
}

/// What a discovery does next.
pub enum DiscoverStep {
    /// Ask the DNS-over-TLS resolver.
    AskDot,
    /// Done.
    Finish(Result<Vec<EdgeAddr>, TunnelError>),
}

/// What follows when a resolver has answered: the first list with an edge in
/// it ends the discovery. Without one the system's resolver is followed by the
/// fallback, and the fallback by an error.
pub open spec fn discover_follows(
    stage: DiscoverStage,
    outcome: Result<Vec<EdgeAddr>, TunnelError>,
    step: DiscoverStep,
) -> bool {
    match (stage, outcome) {
        (DiscoverStage::System, Ok(edges)) => if edges@.len() > 0 {
            step == DiscoverStep::Finish(outcome)
        } else {
            step == DiscoverStep::AskDot
        },
        (DiscoverStage::System, Err(_)) => step == DiscoverStep::AskDot,
        (DiscoverStage::Dot, Ok(edges)) => if edges@.len() > 0 {
            step == DiscoverStep::Finish(outcome)
        } else {
            &&& step matches DiscoverStep::Finish(Err(TunnelError::Discovery(m)))
            &&& m@ == "DoT fallback also returned no edges for "@ + SRV_NAME@
        },
        (DiscoverStage::Dot, Err(_)) => step == DiscoverStep::Finish(outcome),
    }
}

/// One step of a discovery without a cache. The first stage is
/// [`DiscoverStage::System`]; where the fallback's resolver cannot be built,
/// that error is the outcome of [`DiscoverStage::Dot`].
pub fn discover(stage: DiscoverStage, outcome: Result<Vec<EdgeAddr>, TunnelError>) -> (r:
    DiscoverStep)
    ensures
        discover_follows(stage, outcome, r),
        outcome matches Ok(edges) && edges@.len() > 0 ==> r == DiscoverStep::Finish(outcome),
        stage == DiscoverStage::System && !(outcome matches Ok(edges) && edges@.len() > 0) ==> r
            == DiscoverStep::AskDot,
        stage == DiscoverStage::Dot && outcome is Err ==> r == DiscoverStep::Finish(outcome),
        stage == DiscoverStage::Dot && (outcome matches Ok(edges) && edges@.len() == 0) ==> (
        r matches DiscoverStep::Finish(Err(TunnelError::Discovery(m))) && m@
            == "DoT fallback also returned no edges for "@ + SRV_NAME@),
{
    match outcome {
        Ok(edges) => {
            if edges.len() > 0 {
                DiscoverStep::Finish(Ok(edges))
            } else if stage == DiscoverStage::System {
                DiscoverStep::AskDot
            } else {
                DiscoverStep::Finish(
                    Err(
                        TunnelError::Discovery(
                            joined("DoT fallback also returned no edges for ", SRV_NAME),
                        ),
                    ),
                )
            }
        },
        Err(e) => {
            if stage == DiscoverStage::System {
                DiscoverStep::AskDot
            } else {
                DiscoverStep::Finish(Err(e))
            }
        },
    }
}

/// A list turned so that it starts `k` places further on.
pub open spec fn turned(s: Seq<EdgeAddr>, k: int) -> Seq<EdgeAddr> {
    s.skip(k) + s.take(k)
}

/// `k` is a place in a list of `n`, or 0 where the list is empty.
pub open spec fn is_turn_for(k: int, n: nat) -> bool {
    0 <= k < n || (k == 0 && n == 0)
}

/// By how many places a list of `n` is turned at a reading of the clock: the
/// hash of the reading, modulo the length.
pub open spec fn turn_at(nanos: u128, n: nat) -> int {
    let hash = DefaultHasher::spec_finish(seq![spec_u128_to_le_bytes(nanos)]);
    (hash as usize) as int % (if n == 0 {
        1
    } else {
        n as int
    })
}

/// `r` is `s` as it is handed out at some reading of the clock.
pub open spec fn is_shuffle_of(s: Seq<EdgeAddr>, r: Seq<EdgeAddr>) -> bool {
    exists|nanos: u128| r == turned(s, #[trigger] turn_at(nanos, s.len()))
}

/// By how many places a list of `len` is turned at a reading of the clock.
fn turn_for(len: usize, nanos: u128) -> (r: usize)
    ensures
        r == turn_at(nanos, len as nat),
        is_turn_for(r as int, len as nat),
{
    let mut hasher = DefaultHasher::new();
    let reading = u128_to_le_bytes(nanos);
    hasher.write(reading.as_slice());
    let hash = hasher.finish();
    proof {
        assert(seq![spec_u128_to_le_bytes(nanos)] =~= Seq::empty().push(reading@));
    }
    let n: usize = if len == 0 {
        1
    } else {
        len
    };
    (hash as usize) % n
}

/// The edges from the place `offset` on, followed by those before it.
fn turn(input: &[EdgeAddr], offset: usize) -> (r: Vec<EdgeAddr>)
    requires
        offset <= input@.len(),
    ensures
        r@ == turned(input@, offset as int),
{
    let mut out: Vec<EdgeAddr> = Vec::with_capacity(input.len());
    let mut i: usize = offset;
    while i < input.len()
        invariant
            offset <= i <= input@.len(),
            out@ == input@.subrange(offset as int, i as int),
        decreases input.len() - i,
    {
        out.push(input[i]);
        assert(out@ =~= input@.subrange(offset as int, i + 1));
        i = i + 1;
    }
    let ghost tail = out@;
    let mut j: usize = 0;
    while j < offset
        invariant
            j <= offset,
            offset <= input@.len(),
            out@ == tail + input@.take(j as int),
        decreases offset - j,
    {
        out.push(input[j]);
        assert(out@ =~= tail + input@.take(j + 1));
        j = j + 1;
    }
    assert(out@ =~= turned(input@, offset as int));
    out
}

/// The edges, turned by an offset that a reading of the clock decides.
pub fn shuffled_at(input: &[EdgeAddr], nanos: u128) -> (r: Vec<EdgeAddr>)
    ensures
        r@ == turned(input@, turn_at(nanos, input@.len())),
        r@.len() == input@.len(),
        input@.len() > 0 ==> ({
            let n = input@.len() as int;
            let hash = DefaultHasher::spec_finish(seq![spec_u128_to_le_bytes(nanos)]);
            let k = (hash as usize) as int % n;
            &&& forall|i: int| 0 <= i < n - k ==> #[trigger] r@[i] == input@[k + i]
            &&& forall|i: int| n - k <= i < n ==> #[trigger] r@[i] == input@[k + i - n]
        }),
{
    turn(input, turn_for(input.len(), nanos))
}

/// The edges, turned by an offset that the clock decides.
pub fn shuffled(input: &[EdgeAddr]) -> (r: Vec<EdgeAddr>)
    ensures
        is_shuffle_of(input@, r@),
        r@.len() == input@.len(),
        r@.to_multiset() == input@.to_multiset(),
        input@.len() > 0 ==> exists|k: int|
            0 <= k < input@.len() && #[trigger] starts_at(input@, k, r@),
{
    let reading = Instant::now().elapsed().as_nanos();
    let out = shuffled_at(input, reading);
    proof {
        assert(out@ == turned(input@, turn_at(reading, input@.len())));
        lemma_shuffle_keeps_edges(input@, out@);
        let k = turn_at(reading, input@.len());
        lemma_turned_starts_at(input@, k);
        assert(input@.len() > 0 ==> starts_at(input@, k, out@));
    }
    out
}

/// `r` holds the edges of `s` in their order around the circle, from the place
/// `k` on.
pub open spec fn starts_at(s: Seq<EdgeAddr>, k: int, r: Seq<EdgeAddr>) -> bool {
    &&& r.len() == s.len()
    &&& forall|i: int| 0 <= i < s.len() - k ==> #[trigger] r[i] == s[k + i]
    &&& forall|i: int| s.len() - k <= i < s.len() ==> #[trigger] r[i] == s[k + i - s.len()]
}

/// A turned list: what stood at the place `k` comes first, each edge is
/// followed by the one that followed it, and the last by the first.
pub proof fn lemma_turned_starts_at(s: Seq<EdgeAddr>, k: int)
    requires
        0 <= k < s.len() || (k == 0 && s.len() == 0),
    ensures
        turned(s, k).len() == s.len(),
        forall|i: int| 0 <= i < s.len() - k ==> #[trigger] turned(s, k)[i] == s[k + i],
        forall|i: int|
            s.len() - k <= i < s.len() ==> #[trigger] turned(s, k)[i] == s[k + i - s.len()],
        starts_at(s, k, turned(s, k)),
{
}

/// The turn at a reading of the clock is a place in the list, and differs from
/// the reading's hash by a multiple of the length.
pub proof fn lemma_turn_follows_hash(nanos: u128, n: nat)
    requires
        n > 0,
    ensures
        0 <= turn_at(nanos, n) < n,
        turn_at(nanos, n) == (DefaultHasher::spec_finish(
            seq![spec_u128_to_le_bytes(nanos)],
        ) as usize) as int % (n as int),
{
}

/// Handing a list out turned neither drops, adds nor changes an edge, and
/// keeps the edges in their order around the circle.
pub proof fn lemma_shuffle_keeps_edges(s: Seq<EdgeAddr>, r: Seq<EdgeAddr>)
    requires
        is_shuffle_of(s, r),
    ensures
        exists|k: int| is_turn_for(k, s.len()) && r == #[trigger] turned(s, k),
        r.len() == s.len(),
        r.to_multiset() == s.to_multiset(),
{
    let nanos = choose|nanos: u128| r == turned(s, #[trigger] turn_at(nanos, s.len()));
    let k = turn_at(nanos, s.len());
    assert(is_turn_for(k, s.len()));
    lemma_turn_keeps_edges(s, k);
}

/// A turned list holds the edges of the list.
proof fn lemma_turn_keeps_edges(s: Seq<EdgeAddr>, k: int)
    requires
        0 <= k <= s.len(),
    ensures
        turned(s, k).len() == s.len(),
        turned(s, k).to_multiset() == s.to_multiset(),
{
    vstd::seq_lib::lemma_multiset_commutative(s.skip(k), s.take(k));
    vstd::seq_lib::lemma_multiset_commutative(s.take(k), s.skip(k));
    assert(s.take(k) + s.skip(k) =~= s);
    assert(s.skip(k).to_multiset().add(s.take(k).to_multiset()) =~= s.take(k).to_multiset().add(
        s.skip(k).to_multiset(),
    ));
}

/// Every edge of a turned list is an edge of the list.
proof fn lemma_turned_contains(s: Seq<EdgeAddr>, k: int)
    requires
        0 <= k <= s.len(),
    ensures
        forall|i: int| 0 <= i < s.len() ==> s.contains(#[trigger] turned(s, k)[i]),
{
    assert forall|i: int| 0 <= i < s.len() implies s.contains(#[trigger] turned(s, k)[i]) by {
        if i < s.len() - k {
            assert(turned(s, k)[i] == s[k + i]);
        } else {
            assert(turned(s, k)[i] == s[k + i - s.len()]);
        }
    }
}

/// Turns by different offsets put different edges at the head, where no edge
/// occurs twice.
pub proof fn lemma_turns_differ_in_head(s: Seq<EdgeAddr>, j: int, k: int)
    requires
        s.no_duplicates(),
        0 <= j < s.len(),
        0 <= k < s.len(),
        j != k,
    ensures
        turned(s, j)[0] == s[j],
        turned(s, k)[0] == s[k],
        turned(s, j)[0] != turned(s, k)[0],
{
}

/// By how many places a list of `n` is turned at a reading of the clock, when
/// it was turned by `last` places before: one place further around the circle
/// where the reading would give the same turn again.
pub open spec fn next_turn(nanos: u128, n: nat, last: int) -> int {
    let k = turn_at(nanos, n);
    if k != last {
        k
    } else if k + 1 < n {
        k + 1
    } else {
        0
    }
}

/// A remembered answer.
struct Cached {
    edges: Vec<EdgeAddr>,
    /// Reading of the clock, in nanoseconds, at which the answer stops to count.
    expires_at: u128,
    filter: IpVersionFilter,
    /// By how many places the edges were turned when they were last handed out.
    turn: usize,
}

impl Cached {
    #[verifier::type_invariant]
    spec fn turn_is_a_place(self) -> bool {
        is_turn_for(self.turn as int, self.edges@.len())
    }
}

/// A remembered answer: the edges, the reading of the clock at which they stop
/// to count, the filter they were resolved for, and by how many places they
/// were turned when they were last handed out.
pub struct CacheEntry {
    pub edges: Seq<EdgeAddr>,
    pub expires_at: nat,
    pub filter: IpVersionFilter,
    pub turn: int,
}

impl CacheEntry {
    /// Whether the answer counts for this filter at this reading of the clock.
    pub open spec fn serves(self, filter: IpVersionFilter, now: Duration) -> bool {
        self.filter == filter && self.expires_at > crate::time::nanos(now)
    }

    /// The list that was handed out last.
    pub open spec fn handed_out(self) -> Seq<EdgeAddr> {
        turned(self.edges, self.turn)
    }

    /// What is remembered once the edges have been handed out again, with this
    /// reading of the clock to decide the turn.
    pub open spec fn handed_on(self, nanos: u128) -> CacheEntry {
        CacheEntry { turn: next_turn(nanos, self.edges.len(), self.turn), ..self }
    }

    /// What is remembered of an answer that came at this reading of the clock,
    /// with another reading to decide the turn.
    pub open spec fn made(
        edges: Seq<EdgeAddr>,
        filter: IpVersionFilter,
        now: Duration,
        ttl: Duration,
        nanos: u128,
    ) -> CacheEntry {
        CacheEntry {
            edges,
            expires_at: crate::time::nanos(now) + crate::time::nanos(ttl),
            filter,
            turn: turn_at(nanos, edges.len()),
        }
    }
}

/// The edge at the head of `edges` is another than at the head of the list that
/// was handed out before, where the answer holds more than one edge and none
/// twice.
pub open spec fn changes_head(before: CacheEntry, edges: Seq<EdgeAddr>) -> bool {
    before.edges.len() > 1 && before.edges.no_duplicates() ==> edges[0] != before.handed_out()[0]
}

/// What a request to the registry leads to.
pub enum CacheStep {
    /// The remembered edges, turned by an offset that the clock decides.
    Hit(Vec<EdgeAddr>),
    /// Nothing that counts is remembered: run a discovery and report its
    /// outcome with [`EdgeRegistry::refreshed`].
    Discover,
}

/// In-memory cache around a discovery. It remembers one answer, for one
/// filter, until its time is over, and hands it out with another edge at its
/// head each time.
pub struct EdgeRegistry {
    inner: Option<Cached>,
    ttl: Duration,
}

impl EdgeRegistry {
    /// What is remembered.
    pub closed spec fn entry(&self) -> Option<CacheEntry> {
        match self.inner {
            Some(c) => Some(
                CacheEntry {
                    edges: c.edges@,
                    expires_at: c.expires_at as nat,
                    filter: c.filter,
                    turn: c.turn as int,
                },
            ),
            None => None,
        }
    }

    /// For how long an answer counts.
    pub closed spec fn ttl(&self) -> Duration {
        self.ttl
    }

    /// Whether the remembered answer counts for this filter at this reading.
    pub open spec fn serves(&self, filter: IpVersionFilter, now: Duration) -> bool {
        self.entry() matches Some(e) && e.serves(filter, now)
    }

    /// A registry that remembers nothing yet, with the default time to live.
    pub fn new() -> (r: Self)
        ensures
            r.entry() is None,
            crate::time::nanos(r.ttl()) == DEFAULT_CACHE_TTL_SECS * 1_000_000_000,
    {
        Self::with_ttl(Duration::from_secs(DEFAULT_CACHE_TTL_SECS))
    }

    /// A registry that remembers nothing yet.
    pub fn with_ttl(ttl: Duration) -> (r: Self)
        ensures
            r.entry() is None,
            r.ttl() == ttl,
    {
        EdgeRegistry { inner: None, ttl }
    }

    /// Answers from what is remembered, where it counts, with this reading of
    /// the clock to decide the turn.
    pub fn get_or_refresh_at(&mut self, filter: IpVersionFilter, now: Duration, nanos: u128) -> (r:
        CacheStep)
        ensures
            final(self).ttl() == old(self).ttl(),
            r is Hit <==> (old(self).entry() matches Some(e) && e.filter == filter
                && crate::time::nanos(now) < e.expires_at),
            r is Discover ==> final(self).entry() == old(self).entry(),
            r matches CacheStep::Hit(edges) ==> {
                &&& old(self).entry() matches Some(e)
                &&& final(self).entry() matches Some(f)
                &&& e.filter == filter
                &&& crate::time::nanos(now) < e.expires_at
                &&& f.edges == e.edges
                &&& f.filter == e.filter
                &&& f.expires_at == e.expires_at
                &&& edges@.len() == e.edges.len()
                &&& forall|i: int|
                    0 <= i < edges@.len() ==> e.edges.contains(#[trigger] edges@[i])
                &&& forall|i: int|
                    0 <= i < e.edges.len() - f.turn ==> #[trigger] edges@[i] == e.edges[f.turn + i]
                &&& forall|i: int|
                    e.edges.len() - f.turn <= i < e.edges.len() ==> #[trigger] edges@[i]
                        == e.edges[f.turn + i - e.edges.len()]
                &&& e.edges.len() > 1 ==> f.turn != e.turn
                &&& e.edges.len() > 0 ==> ({
                    let n = e.edges.len() as int;
                    let hash = DefaultHasher::spec_finish(seq![spec_u128_to_le_bytes(nanos)]);
                    let k = (hash as usize) as int % n;
                    &&& k != e.turn ==> f.turn == k
                    &&& k == e.turn && k + 1 < n ==> f.turn == k + 1
                    &&& k == e.turn && k + 1 == n ==> f.turn == 0
                })
            },
            match r {
                CacheStep::Hit(edges) => {
                    &&& old(self).serves(filter, now)
                    &&& final(self).entry() == Some(old(self).entry()->0.handed_on(nanos))
                    &&& edges@ == final(self).entry()->0.handed_out()
                    &&& edges@.to_multiset() == old(self).entry()->0.edges.to_multiset()
                    &&& changes_head(old(self).entry()->0, edges@)
                },
                CacheStep::Discover => {
                    &&& !old(self).serves(filter, now)
                    &&& final(self).entry() == old(self).entry()
                },
            },
    {
        match &mut self.inner {
            Some(c) => {
                if c.filter == filter && c.expires_at > now.as_nanos() {
                    proof {
                        use_type_invariant(&*c);
                    }
                    let len: usize = c.edges.len();
                    let mut k: usize = turn_for(len, nanos);
                    if k == c.turn {
                        k = if k + 1 < len {
                            k + 1
                        } else {
                            0
                        };
                    }
                    let out = turn(c.edges.as_slice(), k);
                    proof {
                        lemma_turn_keeps_edges(c.edges@, k as int);
                        lemma_turned_starts_at(c.edges@, k as int);
                        lemma_turned_contains(c.edges@, k as int);
                    }
                    c.turn = k;
                    CacheStep::Hit(out)
                } else {
                    CacheStep::Discover
                }
            },
            None => CacheStep::Discover,
        }
    }

    /// Answers from what is remembered, where it counts.
    pub fn get_or_refresh(&mut self, filter: IpVersionFilter, now: Duration) -> (r: CacheStep)
        ensures
            final(self).ttl() == old(self).ttl(),
            r is Hit <==> (old(self).entry() matches Some(e) && e.filter == filter
                && crate::time::nanos(now) < e.expires_at),
            r is Discover ==> final(self).entry() == old(self).entry(),
            r matches CacheStep::Hit(edges) ==> {
                &&& old(self).entry() matches Some(e)
                &&& final(self).entry() matches Some(f)
                &&& e.filter == filter
                &&& crate::time::nanos(now) < e.expires_at
                &&& f.edges == e.edges
                &&& f.filter == e.filter
                &&& f.expires_at == e.expires_at
                &&& edges@.len() == e.edges.len()
                &&& forall|i: int|
                    0 <= i < edges@.len() ==> e.edges.contains(#[trigger] edges@[i])
                &&& forall|i: int|
                    0 <= i < e.edges.len() - f.turn ==> #[trigger] edges@[i] == e.edges[f.turn + i]
                &&& forall|i: int|
                    e.edges.len() - f.turn <= i < e.edges.len() ==> #[trigger] edges@[i]
                        == e.edges[f.turn + i - e.edges.len()]
                &&& e.edges.len() > 1 ==> f.turn != e.turn
            },
            match r {
                CacheStep::Hit(edges) => {
                    &&& old(self).serves(filter, now)
                    &&& exists|nanos: u128|
                        final(self).entry() == Some(
                            #[trigger] old(self).entry()->0.handed_on(nanos),
                        )
                    &&& edges@ == final(self).entry()->0.handed_out()
                    &&& edges@.to_multiset() == old(self).entry()->0.edges.to_multiset()
                    &&& changes_head(old(self).entry()->0, edges@)
                },
                CacheStep::Discover => {
                    &&& !old(self).serves(filter, now)
                    &&& final(self).entry() == old(self).entry()
                },
            },
    {
        let reading = Instant::now().elapsed().as_nanos();
        self.get_or_refresh_at(filter, now, reading)
    }

    /// Takes in the outcome of a discovery, with this reading of the clock to
    /// decide the turn. Edges replace what is remembered and are handed out,
    /// turned; an error leaves what is remembered alone.
    pub fn refreshed_at(
        &mut self,
        filter: IpVersionFilter,
        now: Duration,
        outcome: Result<Vec<EdgeAddr>, TunnelError>,
        nanos: u128,
    ) -> (r: Result<Vec<EdgeAddr>, TunnelError>)
        ensures
            final(self).ttl() == old(self).ttl(),
            outcome is Err ==> r == outcome && final(self).entry() == old(self).entry(),
            outcome matches Ok(edges) ==> {
                &&& r matches Ok(out)
                &&& final(self).entry() matches Some(f)
                &&& f.edges == edges@
                &&& f.filter == filter
                &&& f.expires_at == crate::time::nanos(now) + crate::time::nanos(old(self).ttl())
                &&& out@.len() == edges@.len()
                &&& forall|i: int| 0 <= i < out@.len() ==> edges@.contains(#[trigger] out@[i])
                &&& forall|i: int|
                    0 <= i < edges@.len() - f.turn ==> #[trigger] out@[i] == edges@[f.turn + i]
                &&& forall|i: int|
                    edges@.len() - f.turn <= i < edges@.len() ==> #[trigger] out@[i]
                        == edges@[f.turn + i - edges@.len()]
                &&& edges@.len() > 0 ==> f.turn == (DefaultHasher::spec_finish(
                    seq![spec_u128_to_le_bytes(nanos)],
                ) as usize) as int % (edges@.len() as int)
            },
            match outcome {
                Ok(edges) => {
                    &&& r matches Ok(out)
                    &&& final(self).entry() == Some(
                        CacheEntry::made(edges@, filter, now, old(self).ttl(), nanos),
                    )
                    &&& out@ == final(self).entry()->0.handed_out()
                    &&& out@.to_multiset() == edges@.to_multiset()
                },
                Err(e) => r == outcome && final(self).entry() == old(self).entry(),
            },
    {
        match outcome {
            Ok(edges) => {
                let k: usize = turn_for(edges.len(), nanos);
                let out = turn(edges.as_slice(), k);
                proof {
                    lemma_turn_keeps_edges(edges@, k as int);
                    lemma_turned_starts_at(edges@, k as int);
                    lemma_turned_contains(edges@, k as int);
                }
                let expires_at: u128 = now.as_nanos() + self.ttl.as_nanos();
                self.inner = Some(Cached { edges, expires_at, filter, turn: k });
                Ok(out)
            },
            Err(e) => Err(e),
        }
    }

    /// Takes in the outcome of a discovery. Edges replace what is remembered
    /// and are handed out, turned; an error leaves what is remembered alone.
    pub fn refreshed(
        &mut self,
        filter: IpVersionFilter,
        now: Duration,
        outcome: Result<Vec<EdgeAddr>, TunnelError>,
    ) -> (r: Result<Vec<EdgeAddr>, TunnelError>)
        ensures
            final(self).ttl() == old(self).ttl(),
            outcome is Err ==> r == outcome && final(self).entry() == old(self).entry(),
            outcome matches Ok(edges) ==> {
                &&& r matches Ok(out)
                &&& final(self).entry() matches Some(f)
                &&& f.edges == edges@
                &&& f.filter == filter
                &&& f.expires_at == crate::time::nanos(now) + crate::time::nanos(old(self).ttl())
                &&& out@.len() == edges@.len()
                &&& forall|i: int| 0 <= i < out@.len() ==> edges@.contains(#[trigger] out@[i])
                &&& forall|i: int|
                    0 <= i < edges@.len() - f.turn ==> #[trigger] out@[i] == edges@[f.turn + i]
                &&& forall|i: int|
                    edges@.len() - f.turn <= i < edges@.len() ==> #[trigger] out@[i]
                        == edges@[f.turn + i - edges@.len()]
            },
            match outcome {
                Ok(edges) => {
                    &&& r matches Ok(out)
                    &&& exists|nanos: u128|
                        final(self).entry() == Some(
                            #[trigger] CacheEntry::made(
                                edges@,
                                filter,
                                now,
                                old(self).ttl(),
                                nanos,
                            ),
                        )
                    &&& out@ == final(self).entry()->0.handed_out()
                    &&& out@.to_multiset() == edges@.to_multiset()
                },
                Err(e) => r == outcome && final(self).entry() == old(self).entry(),
            },
    {
        let reading = Instant::now().elapsed().as_nanos();
        self.refreshed_at(filter, now, outcome, reading)
    }
}

impl Default for EdgeRegistry {
    fn default() -> (r: Self)
        ensures
            r.entry() is None,
            crate::time::nanos(r.ttl()) == DEFAULT_CACHE_TTL_SECS * 1_000_000_000,
    {
        Self::new()
    }
}

#[verifier::external_type_specification]
#[verifier::external_body]
pub struct ExResolverConfig(ResolverConfig);

/// One name server of a resolver, reached over TLS.
pub struct TlsNameServer {
    pub ip: Seq<u8>,
    pub port: u16,
    pub tls_dns_name: Seq<char>,
    pub trust_negative_responses: bool,
}

/// The name servers that a resolver configuration holds, in order.
pub uninterp spec fn name_servers(config: ResolverConfig) -> Seq<TlsNameServer>;

/// The domain that a resolver configuration takes names to be in, if any.
pub uninterp spec fn local_domain(config: ResolverConfig) -> Option<Seq<char>>;

/// The domains in which a resolver configuration has names searched, in order.
pub uninterp spec fn search_domains(config: ResolverConfig) -> Seq<Seq<char>>;

/// Calls `hickory_resolver::config::ResolverConfig::from_parts`, without a
/// domain and without search domains, on the group that
/// `NameServerConfigGroup::from_ips_tls` makes of one IPv4 address.
///
/// Claimed: the configuration holds one name server, reached over TLS, at that
/// address and port, with that name and that trust in negative responses, and
/// it holds no domain and no search domains.
#[verifier::external_body]
fn tls_resolver(ip: [u8; 4], port: u16, tls_dns_name: &str, trust: bool) -> (r: ResolverConfig)
    ensures
        name_servers(r) == seq![
            TlsNameServer {
                ip: ip@,
                port,
                tls_dns_name: tls_dns_name@,
                trust_negative_responses: trust,
            },
        ],
        local_domain(r) is None,
        search_domains(r) == Seq::<Seq<char>>::empty(),
{
    let servers =
        NameServerConfigGroup::from_ips_tls(&[ip.into()], port, tls_dns_name.to_string(), trust);
    ResolverConfig::from_parts(None, vec![], servers)
}

/// What the DNS-over-TLS resolver is made of.
pub struct DotResolver {
    pub config: ResolverConfig,
    /// How long one query may take.
    pub timeout: Duration,
}

/// Describes the DNS-over-TLS resolver that a discovery falls back to.
pub fn build_dot_resolver() -> (r: DotResolver)
    ensures
        name_servers(r.config) == seq![
            TlsNameServer {
                ip: DOT_SERVER_IP@,
                port: DOT_SERVER_PORT,
                tls_dns_name: DOT_SERVER_NAME@,
                trust_negative_responses: true,
            },
        ],
        local_domain(r.config) is None,
        search_domains(r.config) == Seq::<Seq<char>>::empty(),
        crate::time::nanos(r.timeout) == DOT_TIMEOUT_SECS * 1_000_000_000,
{
    DotResolver {
        config: tls_resolver(DOT_SERVER_IP, DOT_SERVER_PORT, DOT_SERVER_NAME, true),
        timeout: Duration::from_secs(DOT_TIMEOUT_SECS),
    }
}

/// An IPv4 address in dotted form.
pub open spec fn dotted(ip: Seq<u8>) -> Seq<char> {
    decimal(ip[0] as nat) + "."@ + decimal(ip[1] as nat) + "."@ + decimal(ip[2] as nat) + "."@
        + decimal(ip[3] as nat)
}

/// [`DOT_SERVER_ADDR`] is the text of [`DOT_SERVER_IP`] and
/// [`DOT_SERVER_PORT`].
pub proof fn lemma_dot_server_addr()
    ensures
        DOT_SERVER_ADDR@ == dotted(DOT_SERVER_IP@) + ":"@ + decimal(DOT_SERVER_PORT as nat),
{
    reveal_strlit("1.1.1.1:853");
    reveal_strlit(".");
    reveal_strlit(":");
    reveal_with_fuel(decimal, 4);
    let text = dotted(DOT_SERVER_IP@) + ":"@ + decimal(DOT_SERVER_PORT as nat);
    assert(decimal(853) =~= seq!['8', '5', '3']);
    assert(decimal(1) =~= seq!['1']);
    assert(DOT_SERVER_ADDR@ =~= text);
}

/// Every edge made from an address passes [`IpVersionFilter::Auto`] and exactly
/// one of the other two filters.
pub proof fn lemma_filters_split(ip: EdgeIp, port: u16)
    ensures
        lets_through(IpVersionFilter::Auto, edge_at(ip, port).version),
        lets_through(IpVersionFilter::V4Only, edge_at(ip, port).version) != lets_through(
            IpVersionFilter::V6Only,
            edge_at(ip, port).version,
        ),
{
}

/// Resolving for a filter gives what resolving for every version gives, less
/// the edges that the filter holds back.
pub proof fn lemma_filter_narrows(answers: Seq<SrvAnswer>, filter: IpVersionFilter)
    ensures
        edges_named(answers, filter) == edges_named(answers, IpVersionFilter::Auto).filter(
            |e: EdgeAddr| lets_through(filter, e.version),
        ),
    decreases answers.len(),
{
    let wanted = |e: EdgeAddr| lets_through(filter, e.version);
    if answers.len() == 0 {
        reveal(Seq::filter);
    } else {
        lemma_filter_narrows(answers.drop_last(), filter);
        let rest = edges_named(answers.drop_last(), IpVersionFilter::Auto);
        match answers.last().ips {
            Some(ips) => {
                let all = ips@.map_values(|ip: EdgeIp| edge_at(ip, answers.last().port));
                lemma_auto_keeps_all(all);
                Seq::filter_distributes_over_add(rest, all, wanted);
            },
            None => {
                assert(edges_named(answers, IpVersionFilter::Auto) =~= rest);
                assert(edges_named(answers, filter) =~= edges_named(answers.drop_last(), filter));
            },
        }
    }
}

/// [`IpVersionFilter::Auto`] holds nothing back.
proof fn lemma_auto_keeps_all(s: Seq<EdgeAddr>)
    ensures
        s.filter(|e: EdgeAddr| lets_through(IpVersionFilter::Auto, e.version)) == s,
    decreases s.len(),
{
    reveal(Seq::filter);
    if s.len() > 0 {
        lemma_auto_keeps_all(s.drop_last());
        assert(s.drop_last().push(s.last()) =~= s);
    }
}

/// Every edge that resolving yields passes the filter it was resolved for.
pub proof fn lemma_resolved_edges_pass(answers: Seq<SrvAnswer>, filter: IpVersionFilter, i: int)
    requires
        0 <= i < edges_named(answers, filter).len(),
    ensures
        lets_through(filter, edges_named(answers, filter)[i].version),
        filter == IpVersionFilter::V4Only ==> edges_named(answers, filter)[i].version
            == EdgeIpVersion::V4,
        filter == IpVersionFilter::V6Only ==> edges_named(answers, filter)[i].version
            == EdgeIpVersion::V6,
{
    lemma_filter_narrows(answers, filter);
    let all = edges_named(answers, IpVersionFilter::Auto);
    all.lemma_filter_pred(|e: EdgeAddr| lets_through(filter, e.version), i);
}

/// An SRV answer is taken record by record: what two answers name together is
/// what the first names, followed by what the second names.
pub proof fn lemma_records_add_up(x: Seq<SrvAnswer>, y: Seq<SrvAnswer>, filter: IpVersionFilter)
    ensures
        edges_named(x + y, filter) == edges_named(x, filter) + edges_named(y, filter),
    decreases y.len(),
{
    if y.len() == 0 {
        assert(x + y =~= x);
        assert(edges_named(x, filter) + edges_named(y, filter) =~= edges_named(x, filter));
    } else {
        assert((x + y).drop_last() =~= x + y.drop_last());
        lemma_records_add_up(x, y.drop_last(), filter);
        assert(edges_named(x + y, filter) =~= edges_named(x, filter) + edges_named(y, filter));
    }
}

/// A record is taken address by address: what it names with the addresses of
/// two lists is what it names with the first, followed by what it names with
/// the second.
pub proof fn lemma_addresses_add_up(
    port: u16,
    x: Vec<EdgeIp>,
    y: Vec<EdgeIp>,
    both: Vec<EdgeIp>,
    filter: IpVersionFilter,
)
    requires
        both@ == x@ + y@,
    ensures
        edges_named(seq![SrvAnswer { port, ips: Some(both) }], filter) == edges_named(
            seq![SrvAnswer { port, ips: Some(x) }],
            filter,
        ) + edges_named(seq![SrvAnswer { port, ips: Some(y) }], filter),
{
    lemma_one_record(SrvAnswer { port, ips: Some(x) }, filter);
    lemma_one_record(SrvAnswer { port, ips: Some(y) }, filter);
    lemma_one_record(SrvAnswer { port, ips: Some(both) }, filter);
    let at = |ip: EdgeIp| edge_at(ip, port);
    assert(both@.map_values(at) =~= x@.map_values(at) + y@.map_values(at));
    Seq::filter_distributes_over_add(
        x@.map_values(at),
        y@.map_values(at),
        |e: EdgeAddr| lets_through(filter, e.version),
    );
}

/// One address in one record names one edge: that address with the record's
/// port and the address's version. A filter for the other version holds it
/// back.
pub proof fn lemma_one_address(port: u16, ips: Vec<EdgeIp>, filter: IpVersionFilter)
    requires
        ips@.len() == 1,
    ensures
        ({
            let named = edges_named(seq![SrvAnswer { port, ips: Some(ips) }], filter);
            if filter == IpVersionFilter::Auto || (filter == IpVersionFilter::V4Only && ips@[0] is V4)
                || (filter == IpVersionFilter::V6Only && ips@[0] is V6) {
                &&& named.len() == 1
                &&& named[0].ip == ips@[0]
                &&& named[0].port == port
                &&& named[0].version == EdgeIpVersion::V4 <==> ips@[0] is V4
                &&& named[0].version == EdgeIpVersion::V6 <==> ips@[0] is V6
            } else {
                named.len() == 0
            }
        }),
{
    lemma_one_record(SrvAnswer { port, ips: Some(ips) }, filter);
    let all = ips@.map_values(|ip: EdgeIp| edge_at(ip, port));
    reveal(Seq::filter);
    assert(all.drop_last() =~= Seq::empty());
    assert(all.drop_last().filter(|e: EdgeAddr| lets_through(filter, e.version)) =~= Seq::empty());
}

/// A record without an address names no edge, whether its target had none or
/// could not be resolved.
pub proof fn lemma_no_address(rec: SrvAnswer, filter: IpVersionFilter)
    requires
        rec.ips matches Some(ips) ==> ips@.len() == 0,
    ensures
        edges_named(seq![rec], filter).len() == 0,
        edges_named(Seq::empty(), filter).len() == 0,
{
    lemma_one_record(rec, filter);
    reveal(Seq::filter);
}

/// What one record names.
proof fn lemma_one_record(rec: SrvAnswer, filter: IpVersionFilter)
    ensures
        edges_named(seq![rec], filter) == (match rec.ips {
            Some(ips) => edges_kept(ips@, rec.port, filter),
            None => Seq::empty(),
        }),
{
    let one = seq![rec];
    assert(one.drop_last() =~= Seq::empty());
    assert(edges_named(one.drop_last(), filter) =~= Seq::empty());
    assert(edges_named(one, filter) =~= match rec.ips {
        Some(ips) => edges_kept(ips@, rec.port, filter),
        None => Seq::empty(),
    });
}

/// A discovery as a whole: where the system's resolver gave edges, they are the
/// answer and the fallback is not asked. Where it gave none, or failed, the
/// fallback is asked, and its edges or an error are the answer. An answer
/// without an edge is never given.
pub proof fn lemma_discovery(
    system: Result<Vec<EdgeAddr>, TunnelError>,
    first: DiscoverStep,
    dot: Result<Vec<EdgeAddr>, TunnelError>,
    second: DiscoverStep,
)
    requires
        discover_follows(DiscoverStage::System, system, first),
        discover_follows(DiscoverStage::Dot, dot, second),
    ensures
        first == DiscoverStep::AskDot <==> !(system matches Ok(edges) && edges@.len() > 0),
        first != DiscoverStep::AskDot ==> first == DiscoverStep::Finish(system),
        second is Finish,
        dot is Err ==> second == DiscoverStep::Finish(dot),
        dot matches Ok(edges) && edges@.len() > 0 ==> second == DiscoverStep::Finish(dot),
        dot matches Ok(edges) && edges@.len() == 0 ==> (second matches DiscoverStep::Finish(
            Err(TunnelError::Discovery(_)),
        )),
        first matches DiscoverStep::Finish(Ok(edges)) ==> edges@.len() > 0,
        second matches DiscoverStep::Finish(Ok(edges)) ==> edges@.len() > 0 && dot == Ok::<
            Vec<EdgeAddr>,
            TunnelError,
        >(edges),
{
}

/// However often an answer is handed out, what is remembered of it but the turn
/// stays: its edges, its filter and the end of its time. The turn is a place in
/// the list.
pub proof fn lemma_handing_on_keeps_answer(e: CacheEntry, nanos: u128)
    ensures
        e.handed_on(nanos).edges == e.edges,
        e.handed_on(nanos).filter == e.filter,
        e.handed_on(nanos).expires_at == e.expires_at,
        is_turn_for(e.handed_on(nanos).turn, e.edges.len()),
{
}

/// An answer of more than one edge, none of them twice, is handed out with
/// another edge at its head than the time before, whatever the clock reads.
pub proof fn lemma_head_changes(e: CacheEntry, nanos: u128)
    requires
        is_turn_for(e.turn, e.edges.len()),
        e.edges.len() > 1,
        e.edges.no_duplicates(),
    ensures
        e.handed_on(nanos).handed_out()[0] != e.handed_out()[0],
{
    lemma_turns_differ_in_head(e.edges, e.turn, e.handed_on(nanos).turn);
}

/// An answer is handed out to no one who asked for something else: it serves a
/// request only for the very filter it was resolved for, so that where all its
/// edges have a version that its filter wants, all that is handed out has a
/// version that the caller wants.
pub proof fn lemma_served_edges_pass(
    e: CacheEntry,
    asked: IpVersionFilter,
    now: Duration,
    nanos: u128,
    i: int,
)
    requires
        e.serves(asked, now),
        e.filter == IpVersionFilter::V4Only ==> forall|j: int|
            0 <= j < e.edges.len() ==> (#[trigger] e.edges[j]).version == EdgeIpVersion::V4,
        e.filter == IpVersionFilter::V6Only ==> forall|j: int|
            0 <= j < e.edges.len() ==> (#[trigger] e.edges[j]).version == EdgeIpVersion::V6,
        0 <= i < e.handed_on(nanos).handed_out().len(),
    ensures
        e.filter == asked,
        crate::time::nanos(now) < e.expires_at,
        asked == IpVersionFilter::V4Only ==> e.handed_on(nanos).handed_out()[i].version
            == EdgeIpVersion::V4,
        asked == IpVersionFilter::V6Only ==> e.handed_on(nanos).handed_out()[i].version
            == EdgeIpVersion::V6,
{
    lemma_turned_contains(e.edges, e.handed_on(nanos).turn);
}

/// What is served by a registry is what its entry says, for the filter that
/// the entry was resolved for and before its time is over; a registry without
/// an entry serves nothing.
pub proof fn lemma_registry_serves(reg: EdgeRegistry, filter: IpVersionFilter, now: Duration)
    ensures
        reg.serves(filter, now) <==> (reg.entry() is Some && reg.entry()->0.filter == filter
            && crate::time::nanos(now) < reg.entry()->0.expires_at),
{
}

/// An answer counts for its own filter, and for no other, from the moment it
/// came until its time to live is over.
pub proof fn lemma_cache_window(
    edges: Seq<EdgeAddr>,
    filter: IpVersionFilter,
    asked: IpVersionFilter,
    came: Duration,
    ttl: Duration,
    now: Duration,
    nanos: u128,
)
    ensures
        CacheEntry::made(edges, filter, came, ttl, nanos).serves(asked, now) <==> (asked == filter
            && crate::time::nanos(now) < crate::time::nanos(came) + crate::time::nanos(ttl)),
{
}

} // verus!
