//! Dialling an edge over QUIC: what goes into the handshake, and which edge is
//! tried when.
//!
//! The edges want the ALPN `argotunnel`, the server name `quic.cftunnel.com`
//! (not the ALPN), and a certificate chain that ends in one of a few CAs that
//! are in no system store: the client trusts those on top of the system's.

use crate::edge::{EdgeAddr, EdgeIp, EdgeSocket};
use crate::error::TunnelError;
use crate::text::joined;
use rustls::RootCertStore;
use std::time::Duration;
use vstd::prelude::*;

verus! {

/// ALPN offered to the edge: `argotunnel`.
pub const ALPN: [u8; 10] = [97, 114, 103, 111, 116, 117, 110, 110, 101, 108];

/// Server name sent to the edge.
pub const EDGE_SNI: &'static str = "quic.cftunnel.com";

/// Seconds after which a handshake is given up.
pub const DEFAULT_HANDSHAKE_TIMEOUT_SECS: u64 = 10;

/// Seconds of silence after which a connection is dead.
pub const MAX_IDLE_TIMEOUT_SECS: u64 = 30;

/// Seconds between two keep-alive packets.
pub const KEEP_ALIVE_INTERVAL_SECS: u64 = 1;

/// How one edge is to be dialled.
pub struct DialRequest {
    pub addr: EdgeSocket,
    pub server_name: &'static str,
    pub timeout: Duration,
}

/// How an edge is dialled.
pub fn dial_request(edge: &EdgeAddr) -> (r: DialRequest)
    ensures
        r.addr == (EdgeSocket { ip: edge.ip, port: edge.port }),
        r.server_name@ == EDGE_SNI@,
        crate::time::nanos(r.timeout) == DEFAULT_HANDSHAKE_TIMEOUT_SECS * 1_000_000_000,
{
    DialRequest {
        addr: edge.socket(),
        server_name: EDGE_SNI,
        timeout: Duration::from_secs(DEFAULT_HANDSHAKE_TIMEOUT_SECS),
    }
}

/// How dialling one edge went.
pub enum DialOutcome<C> {
    /// The handshake went through.
    Connected(C),
    /// The dial could not even be started.
    NotStarted(String),
    /// The handshake failed.
    HandshakeFailed(String),
    /// The handshake took too long.
    TimedOut,
}

/// What one dial attempt gives its caller.
pub fn dial<C>(outcome: DialOutcome<C>) -> (r: Result<C, TunnelError>)
    ensures
        match outcome {
            DialOutcome::Connected(c) => r == Ok::<C, TunnelError>(c),
            DialOutcome::NotStarted(e) => {
                &&& r matches Err(TunnelError::QuicDial { attempts, last })
                &&& attempts == 1
                &&& last@ == "connect builder: "@ + e@
            },
            DialOutcome::HandshakeFailed(e) => {
                &&& r matches Err(TunnelError::QuicDial { attempts, last })
                &&& attempts == 1
                &&& last@ == "handshake: "@ + e@
            },
            DialOutcome::TimedOut => {
                &&& r matches Err(TunnelError::QuicDial { attempts, last })
                &&& attempts == 1
                &&& last@ == "handshake timed out"@
            },
        },
{
    match outcome {
        DialOutcome::Connected(c) => Ok(c),
        DialOutcome::NotStarted(e) => Err(
            TunnelError::QuicDial { attempts: 1, last: joined("connect builder: ", e.as_str()) },
        ),
        DialOutcome::HandshakeFailed(e) => Err(
            TunnelError::QuicDial { attempts: 1, last: joined("handshake: ", e.as_str()) },
        ),
        DialOutcome::TimedOut => Err(
            TunnelError::QuicDial { attempts: 1, last: "handshake timed out".to_string() },
        ),
    }
}

/// Where a run over several edges stands: the edges, how many of them were
/// tried in vain, and what the last of those failures said.
pub struct DialProgress {
    pub edges: Seq<EdgeAddr>,
    pub failed: nat,
    pub last: Seq<char>,
}

impl DialProgress {
    /// A run that has tried nothing yet.
    pub open spec fn start(edges: Seq<EdgeAddr>) -> DialProgress {
        DialProgress { edges, failed: 0, last: Seq::empty() }
    }

    /// Whether an edge is left to try.
    pub open spec fn pending(self) -> bool {
        self.failed < self.edges.len()
    }

    /// The run after one more failure.
    pub open spec fn after_failure(self, text: Seq<char>) -> DialProgress {
        DialProgress { edges: self.edges, failed: self.failed + 1, last: text }
    }

    /// The run after several failures.
    pub open spec fn after_failures(self, texts: Seq<Seq<char>>) -> DialProgress
        decreases texts.len(),
    {
        if texts.len() == 0 {
            self
        } else {
            self.after_failures(texts.drop_last()).after_failure(texts.last())
        }
    }

    /// What is to be done where the run stands, when no handshake has gone
    /// through: try the next edge, or report the failure.
    pub open spec fn demands<C>(self, step: DialStep<C>) -> bool {
        if self.pending() {
            step == DialStep::<C>::Attempt(self.edges[self.failed as int])
        } else {
            &&& step matches DialStep::Finish(Err(TunnelError::QuicDial { attempts, last }))
            &&& attempts == self.failed
            &&& last@ == (if self.edges.len() == 0 {
                "no edges provided"@
            } else {
                self.last
            })
        }
    }
}

/// What a run over several edges does next.
pub enum DialStep<C> {
    /// Dial this edge and report what came of it.
    Attempt(EdgeAddr),
    /// Done.
    Finish(Result<C, TunnelError>),
}

/// A run over several edges, in order, until one handshake goes through.
pub struct DialAny {
    edges: Vec<EdgeAddr>,
    failed: usize,
    last: String,
}

impl View for DialAny {
    type V = DialProgress;

    closed spec fn view(&self) -> DialProgress {
        DialProgress { edges: self.edges@, failed: self.failed as nat, last: self.last@ }
    }
}

/// Starts a run over some edges.
pub fn dial_any<C>(edges: &[EdgeAddr]) -> (r: (DialAny, DialStep<C>))
    ensures
        r.0@ == DialProgress::start(edges@),
        r.0@.demands(r.1),
        r.0@.edges == edges@,
        r.0@.failed == 0,
        edges@.len() > 0 ==> r.1 == DialStep::<C>::Attempt(edges@[0]),
        edges@.len() == 0 ==> {
            &&& r.1 matches DialStep::Finish(Err(TunnelError::QuicDial { attempts, last }))
            &&& attempts == 0
            &&& last@ == "no edges provided"@
        },
{
    let mut own: Vec<EdgeAddr> = Vec::new();
    own.extend_from_slice(edges);
    assert(own@ =~= edges@);
    let run = DialAny { edges: own, failed: 0, last: String::new() };
    let step = run.next_step();
    (run, step)
}

impl DialAny {
    /// What is to be done now, when no handshake has gone through.
    fn next_step<C>(&self) -> (r: DialStep<C>)
        requires
            self@.failed <= self@.edges.len(),
        ensures
            self@.demands(r),
    {
        if self.failed < self.edges.len() {
            DialStep::Attempt(self.edges[self.failed])
        } else if self.edges.len() == 0 {
            DialStep::Finish(
                Err(TunnelError::QuicDial { attempts: 0, last: "no edges provided".to_string() }),
            )
        } else {
            DialStep::Finish(
                Err(TunnelError::QuicDial { attempts: self.edges.len(), last: self.last.clone() }),
            )
        }
    }

    /// Takes in what came of the attempt that was asked for.
    pub fn report<C>(&mut self, outcome: Result<C, TunnelError>) -> (r: DialStep<C>)
        requires
            old(self)@.pending(),
        ensures
            match outcome {
                Ok(c) => r == DialStep::Finish(outcome) && final(self)@ == old(self)@,
                Err(e) => {
                    &&& final(self)@ == old(self)@.after_failure(e.text())
                    &&& final(self)@.demands(r)
                },
            },
            final(self)@.edges == old(self)@.edges,
            outcome matches Ok(c) ==> r == DialStep::Finish(outcome),
            outcome matches Err(e) ==> {
                let n = old(self)@.failed + 1;
                &&& final(self)@.failed == n
                &&& n < old(self)@.edges.len() ==> r == DialStep::<C>::Attempt(
                    old(self)@.edges[n as int],
                )
                &&& n == old(self)@.edges.len() ==> {
                    &&& r matches DialStep::Finish(Err(TunnelError::QuicDial { attempts, last }))
                    &&& attempts == old(self)@.edges.len()
                    &&& last@ == e.text()
                }
            },
    {
        match outcome {
            Ok(c) => DialStep::Finish(Ok(c)),
            Err(e) => {
                assert(self.failed < self.edges.len());
                self.failed = self.failed + 1;
                self.last = e.message();
                self.next_step()
            },
        }
    }
}

/// A run tries the edges in order, each once: after some failures, the edges
/// are as given, one is counted for each failure, and the last of them is the
/// one remembered. So the next edge tried is the one at that count, and when
/// all have failed the error counts them all.
pub proof fn lemma_dial_order(edges: Seq<EdgeAddr>, texts: Seq<Seq<char>>)
    requires
        texts.len() <= edges.len(),
    ensures
        DialProgress::start(edges).after_failures(texts) == (DialProgress {
            edges,
            failed: texts.len(),
            last: if texts.len() == 0 {
                Seq::empty()
            } else {
                texts.last()
            },
        }),
    decreases texts.len(),
{
    if texts.len() > 0 {
        lemma_dial_order(edges, texts.drop_last());
    }
}

/// While fewer handshakes have failed than there are edges, the next edge is
/// tried: the one at the count of the failures. Only when every edge has failed
/// does the run end in an error, which counts the edges and says what the last
/// failure said.
pub proof fn lemma_every_edge_is_tried<C>(
    edges: Seq<EdgeAddr>,
    texts: Seq<Seq<char>>,
    step: DialStep<C>,
)
    requires
        texts.len() <= edges.len(),
        DialProgress::start(edges).after_failures(texts).demands(step),
    ensures
        texts.len() < edges.len() ==> step == DialStep::<C>::Attempt(edges[texts.len() as int]),
        texts.len() == edges.len() ==> {
            &&& step matches DialStep::Finish(Err(TunnelError::QuicDial { attempts, last }))
            &&& attempts == edges.len()
            &&& edges.len() == 0 ==> last@ == "no edges provided"@
            &&& edges.len() > 0 ==> last@ == texts[edges.len() - 1]
        },
{
    lemma_dial_order(edges, texts);
}

#[verifier::external_type_specification]
#[verifier::external_body]
pub struct ExRootCertStore(RootCertStore);

/// What a client trusts of a CA: its name, its public key, and the names that
/// it may vouch for where its certificate limits them.
pub struct Anchor {
    pub subject: Seq<u8>,
    pub subject_public_key_info: Seq<u8>,
    pub name_constraints: Option<Seq<u8>>,
}

/// The trust anchors that a store holds, in order.
pub uninterp spec fn anchors(store: RootCertStore) -> Seq<Anchor>;

/// The trust anchor that a DER-encoded certificate makes, if it makes one.
pub uninterp spec fn anchor_of(der: Seq<u8>) -> Option<Anchor>;

/// The certificates in a PEM text, DER-encoded and in order, or what is wrong
/// with the first section that cannot be read.
pub uninterp spec fn pem_certs(pem: Seq<u8>) -> Result<Seq<Seq<u8>>, Seq<char>>;

/// `rustls::RootCertStore::empty`: a store without an anchor.
pub assume_specification[ RootCertStore::empty ]() -> (r: RootCertStore)
    ensures
        anchors(r) == Seq::<Anchor>::empty(),
;

/// `rustls::RootCertStore::len`: how many anchors a store holds.
pub assume_specification[ RootCertStore::len ](store: &RootCertStore) -> (r: usize)
    ensures
        r == anchors(*store).len(),
;

/// Calls `rustls::RootCertStore::add` with a DER-encoded certificate, and says
/// whether it was taken.
///
/// Claimed: a certificate that makes a trust anchor is taken, and the anchor
/// goes to the end of the store. Any other is refused and the store stays as
/// it was. Which certificates make an anchor is not said.
#[verifier::external_body]
fn add_root(store: &mut RootCertStore, der: &Vec<u8>) -> (r: bool)
    ensures
        r == anchor_of(der@) is Some,
        anchors(*final(store)) == (match anchor_of(der@) {
            Some(a) => anchors(*old(store)).push(a),
            None => anchors(*old(store)),
        }),
{
    store.add(rustls::pki_types::CertificateDer::from(der.clone())).is_ok()
}

/// Calls `rustls_pemfile::certs` on a PEM text and collects what it yields, up
/// to the first error.
///
/// Claimed: the certificates, or the message of that error, are `pem_certs` of
/// the text.
#[verifier::external_body]
pub(crate) fn read_pem_certs(pem: &[u8]) -> (r: Result<Vec<Vec<u8>>, String>)
    ensures
        match r {
            Ok(certs) => pem_certs(pem@) == Ok::<Seq<Seq<u8>>, Seq<char>>(certs.deep_view()),
            Err(e) => pem_certs(pem@) == Err::<Seq<Seq<u8>>, Seq<char>>(e@),
        },
{
    rustls_pemfile::certs(&mut std::io::BufReader::new(pem))
        .map(|cert| cert.map(|der| der.to_vec()))
        .collect::<Result<Vec<Vec<u8>>, std::io::Error>>()
        .map_err(|e| e.to_string())
}

/// The trust anchors that some certificates make, in order; a certificate that
/// makes none is passed over.
pub open spec fn anchors_of(ders: Seq<Seq<u8>>) -> Seq<Anchor> {
    ders.filter_map(|der: Seq<u8>| anchor_of(der))
}

/// Adds the certificates that can be added, and counts them.
fn add_roots(store: &mut RootCertStore, ders: &Vec<Vec<u8>>) -> (r: usize)
    ensures
        anchors(*final(store)) == anchors(*old(store)) + anchors_of(ders.deep_view()),
        r == anchors_of(ders.deep_view()).len(),
{
    let ghost made = |der: Seq<u8>| anchor_of(der);
    let ghost all = ders.deep_view();
    let mut added: usize = 0;
    let mut i: usize = 0;
    assert(all.take(0).filter_map(made) =~= Seq::empty());
    while i < ders.len()
        invariant
            i <= ders.len(),
            added <= i,
            made == (|der: Seq<u8>| anchor_of(der)),
            all == ders.deep_view(),
            anchors(*store) == anchors(*old(store)) + all.take(i as int).filter_map(made),
            added == all.take(i as int).filter_map(made).len(),
        decreases ders.len() - i,
    {
        if add_root(store, &ders[i]) {
            added = added + 1;
        }
        proof {
            assert(all[i as int] =~= ders@[i as int]@);
            all.lemma_filter_map_take_succ(made, i as int);
        }
        assert(anchors(*store) =~= anchors(*old(store)) + all.take(i + 1).filter_map(made));
        i = i + 1;
    }
    assert(all.take(i as int) =~= all);
    added
}

/// What the QUIC client is configured with.
pub struct ClientConfigPlan {
    /// CAs that the edge's certificate may chain to.
    pub roots: RootCertStore,
    /// How many of them are the system's.
    pub native_count: usize,
    /// How many of them were added to the system's.
    pub cf_added: usize,
    pub alpn_protocols: Vec<Vec<u8>>,
    pub max_idle_timeout: Duration,
    pub keep_alive_interval: Option<Duration>,
}

impl ClientConfigPlan {
    /// The plan trusts the anchors that these certificates make: first the
    /// system's, then the added ones. The counts say how many there are of
    /// each.
    pub open spec fn trusts(self, native: Seq<Seq<u8>>, embedded: Seq<Seq<u8>>) -> bool {
        &&& anchors(self.roots) == anchors_of(native) + anchors_of(embedded)
        &&& self.native_count == anchors_of(native).len()
        &&& self.cf_added == anchors_of(embedded).len()
    }

    /// The plan speaks the tunnel's protocol, and lets a silent connection die
    /// after the idle timeout.
    pub open spec fn speaks_tunnel(self) -> bool {
        &&& self.alpn_protocols.deep_view() == seq![ALPN@]
        &&& crate::time::nanos(self.max_idle_timeout) == MAX_IDLE_TIMEOUT_SECS * 1_000_000_000
    }
}

/// The plan that trusts these certificates, without keep-alive packets.
pub(crate) fn plan_with_roots(native: &Vec<Vec<u8>>, embedded: &Vec<Vec<u8>>) -> (r:
    ClientConfigPlan)
    ensures
        r.trusts(native.deep_view(), embedded.deep_view()),
        r.speaks_tunnel(),
        r.keep_alive_interval is None,
{
    let mut roots = RootCertStore::empty();
    let _ = add_roots(&mut roots, native);
    assert(anchors(roots) =~= anchors_of(native.deep_view()));
    let native_count = roots.len();
    let cf_added = add_roots(&mut roots, embedded);
    let mut alpn: Vec<u8> = Vec::new();
    let protocol: [u8; 10] = ALPN;
    alpn.extend_from_slice(protocol.as_slice());
    assert(alpn@ =~= ALPN@);
    let mut alpn_protocols: Vec<Vec<u8>> = Vec::new();
    alpn_protocols.push(alpn);
    assert(alpn_protocols.deep_view()[0] =~= ALPN@);
    assert(alpn_protocols.deep_view() =~= seq![ALPN@]);
    ClientConfigPlan {
        roots,
        native_count,
        cf_added,
        alpn_protocols,
        max_idle_timeout: Duration::from_secs(MAX_IDLE_TIMEOUT_SECS),
        keep_alive_interval: None,
    }
}

/// Certificates are taken one by one: the anchors that two lists make together
/// are those of the first, followed by those of the second.
pub proof fn lemma_anchors_add_up(x: Seq<Seq<u8>>, y: Seq<Seq<u8>>)
    ensures
        anchors_of(x + y) == anchors_of(x) + anchors_of(y),
    decreases y.len(),
{
    if y.len() == 0 {
        assert(x + y =~= x);
        assert(anchors_of(x) + anchors_of(y) =~= anchors_of(x));
    } else {
        assert((x + y).drop_last() =~= x + y.drop_last());
        lemma_anchors_add_up(x, y.drop_last());
        assert(anchors_of(x + y) =~= anchors_of(x) + anchors_of(y));
    }
}

/// One certificate makes the anchor that it makes, or none.
pub proof fn lemma_anchor_of_one(der: Seq<u8>)
    ensures
        anchor_of(der) matches Some(a) ==> anchors_of(seq![der]) == seq![a],
        anchor_of(der) is None ==> anchors_of(seq![der]).len() == 0,
        anchors_of(Seq::empty()).len() == 0,
{
    Seq::lemma_filter_map_singleton(der, |der: Seq<u8>| anchor_of(der));
}

/// There are as many anchors as certificates that make one, and each of these
/// certificates has its anchor among them.
proof fn lemma_anchors_are_complete(ders: Seq<Seq<u8>>)
    ensures
        anchors_of(ders).len() == ders.filter(|der: Seq<u8>| anchor_of(der) is Some).len(),
        forall|i: int|
            0 <= i < ders.len() ==> (anchor_of(#[trigger] ders[i]) matches Some(a) ==> anchors_of(
                ders,
            ).contains(a)),
        forall|i: int|
            0 <= i < anchors_of(ders).len() ==> exists|j: int|
                0 <= j < ders.len() && anchor_of(#[trigger] ders[j]) == Some(
                    #[trigger] anchors_of(ders)[i],
                ),
    decreases ders.len(),
{
    reveal(Seq::filter);
    if ders.len() > 0 {
        let rest = ders.drop_last();
        lemma_anchors_are_complete(rest);
        lemma_anchors_add_up(rest, seq![ders.last()]);
        lemma_anchor_of_one(ders.last());
        assert(rest + seq![ders.last()] =~= ders);
        assert forall|i: int| 0 <= i < ders.len() implies (anchor_of(
            #[trigger] ders[i],
        ) matches Some(a) ==> anchors_of(ders).contains(a)) by {
            if let Some(a) = anchor_of(ders[i]) {
                if i < rest.len() {
                    assert(anchor_of(rest[i]) == Some(a));
                    let k = choose|k: int|
                        0 <= k < anchors_of(rest).len() && anchors_of(rest)[k] == a;
                    assert(anchors_of(ders)[k] == a);
                } else {
                    assert(anchors_of(ders)[anchors_of(rest).len() as int] == a);
                }
            }
        }
        assert forall|i: int| 0 <= i < anchors_of(ders).len() implies exists|j: int|
            0 <= j < ders.len() && anchor_of(#[trigger] ders[j]) == Some(
                #[trigger] anchors_of(ders)[i],
            ) by {
            if i < anchors_of(rest).len() {
                assert(anchors_of(rest)[i] == anchors_of(ders)[i]);
                let j = choose|j: int|
                    0 <= j < rest.len() && anchor_of(#[trigger] rest[j]) == Some(
                        anchors_of(rest)[i],
                    );
                assert(ders[j] == rest[j]);
            } else {
                assert(anchor_of(ders[ders.len() - 1]) == Some(anchors_of(ders)[i]));
            }
        }
    }
}

/// What a plan trusts: the anchor of every certificate that makes one, of the
/// system's and of the added ones alike, and nothing else. The counts say how
/// many certificates of each made one, and together they are all there is in
/// the store.
pub proof fn lemma_plan_trusts_every_anchor(
    plan: ClientConfigPlan,
    native: Seq<Seq<u8>>,
    embedded: Seq<Seq<u8>>,
)
    requires
        plan.trusts(native, embedded),
    ensures
        forall|i: int|
            0 <= i < native.len() ==> (anchor_of(#[trigger] native[i]) matches Some(a) ==> anchors(
                plan.roots,
            ).contains(a)),
        forall|i: int|
            0 <= i < embedded.len() ==> (anchor_of(#[trigger] embedded[i]) matches Some(a)
                ==> anchors(plan.roots).contains(a)),
        forall|i: int|
            0 <= i < anchors(plan.roots).len() ==> exists|j: int|
                0 <= j < (native + embedded).len() && anchor_of(#[trigger] (native + embedded)[j])
                    == Some(#[trigger] anchors(plan.roots)[i]),
        plan.native_count == native.filter(|der: Seq<u8>| anchor_of(der) is Some).len(),
        plan.cf_added == embedded.filter(|der: Seq<u8>| anchor_of(der) is Some).len(),
        anchors(plan.roots).len() == plan.native_count + plan.cf_added,
{
    let all = native + embedded;
    lemma_anchors_are_complete(native);
    lemma_anchors_are_complete(embedded);
    lemma_anchors_are_complete(all);
    lemma_anchors_add_up(native, embedded);
    assert forall|i: int| 0 <= i < native.len() implies (anchor_of(
        #[trigger] native[i],
    ) matches Some(a) ==> anchors(plan.roots).contains(a)) by {
        assert(all[i] == native[i]);
    }
    assert forall|i: int| 0 <= i < embedded.len() implies (anchor_of(
        #[trigger] embedded[i],
    ) matches Some(a) ==> anchors(plan.roots).contains(a)) by {
        assert(all[native.len() + i] == embedded[i]);
    }
}

/// A plan's protocol is `argotunnel` and no other, and a connection that is
/// silent for half a minute is dead to it.
pub proof fn lemma_plan_speaks_argotunnel(plan: ClientConfigPlan)
    requires
        plan.speaks_tunnel(),
    ensures
        plan.alpn_protocols@.len() == 1,
        plan.alpn_protocols.deep_view()[0] == seq![97u8, 114, 103, 111, 116, 117, 110, 110, 101, 108],
        crate::time::nanos(plan.max_idle_timeout) == 30_000_000_000,
{
    assert(ALPN@ =~= seq![97u8, 114, 103, 111, 116, 117, 110, 110, 101, 108]);
    assert(plan.alpn_protocols.deep_view().len() == 1);
}

/// An unreadable system store counts as an empty one, and a readable one as all
/// that it holds.
pub proof fn lemma_readable(native: Result<Vec<Vec<u8>>, String>)
    ensures
        native is Err ==> readable(native).len() == 0,
        native matches Ok(certs) ==> readable(native) == certs.deep_view(),
{
}

/// The certificates of a system store that may not have been readable: an
/// unreadable one counts as empty.
pub open spec fn readable(native: Result<Vec<Vec<u8>>, String>) -> Seq<Seq<u8>> {
    match native {
        Ok(certs) => certs.deep_view(),
        Err(_) => Seq::empty(),
    }
}

/// Plans the client's configuration from the system's certificates and from
/// the added ones, as far as either could be read. An unreadable system store
/// is passed over; unreadable added certificates are an error.
pub fn plan_client_config(
    native: Result<Vec<Vec<u8>>, String>,
    embedded: Result<Vec<Vec<u8>>, String>,
) -> (r: Result<ClientConfigPlan, TunnelError>)
    ensures
        match embedded {
            Ok(certs) => {
                &&& r matches Ok(plan)
                &&& plan.trusts(readable(native), certs.deep_view())
                &&& plan.speaks_tunnel()
                &&& plan.keep_alive_interval matches Some(t)
                &&& crate::time::nanos(t) == KEEP_ALIVE_INTERVAL_SECS * 1_000_000_000
            },
            Err(e) => {
                &&& r matches Err(TunnelError::Internal(m))
                &&& m@ == "CF root PEM malformed: "@ + e@
            },
        },
        embedded matches Ok(certs) ==> {
            &&& r matches Ok(plan)
            &&& plan.cf_added == certs.deep_view().filter(
                |der: Seq<u8>| anchor_of(der) is Some,
            ).len()
            &&& forall|i: int|
                0 <= i < certs@.len() ==> (anchor_of(#[trigger] certs.deep_view()[i]) matches Some(a)
                    ==> anchors(plan.roots).contains(a))
        },
        r matches Ok(plan) ==> {
            &&& native matches Ok(system) ==> forall|i: int|
                0 <= i < system@.len() ==> (anchor_of(#[trigger] system.deep_view()[i]) matches Some(
                    a,
                ) ==> anchors(plan.roots).contains(a))
            &&& native matches Ok(system) ==> plan.native_count == system.deep_view().filter(
                |der: Seq<u8>| anchor_of(der) is Some,
            ).len()
            &&& native is Err ==> plan.native_count == 0
            &&& anchors(plan.roots).len() == plan.native_count + plan.cf_added
            &&& plan.alpn_protocols.deep_view() == seq![ALPN@]
            &&& crate::time::nanos(plan.max_idle_timeout) == 30_000_000_000
            &&& plan.keep_alive_interval matches Some(t)
            &&& crate::time::nanos(t) == 1_000_000_000
        },
{
    let ghost asked = native;
    let native = match native {
        Ok(certs) => certs,
        Err(_) => {
            let none: Vec<Vec<u8>> = Vec::new();
            assert(none.deep_view() =~= Seq::empty());
            none
        },
    };
    match embedded {
        Ok(certs) => {
            let mut plan = plan_with_roots(&native, &certs);
            proof {
                assert(native.deep_view() == readable(asked));
                lemma_plan_trusts_every_anchor(plan, native.deep_view(), certs.deep_view());
                reveal(Seq::filter);
            }
            plan.keep_alive_interval = Some(Duration::from_secs(KEEP_ALIVE_INTERVAL_SECS));
            Ok(plan)
        },
        Err(e) => Err(TunnelError::Internal(joined("CF root PEM malformed: ", e.as_str()))),
    }
}

/// Plans the client's configuration from the system's certificates, as far as
/// they could be read, and from a PEM text with the added ones.
pub fn build_client_config(native: Result<Vec<Vec<u8>>, String>, cf_roots_pem: &[u8]) -> (r: Result<
    ClientConfigPlan,
    TunnelError,
>)
    ensures
        match pem_certs(cf_roots_pem@) {
            Ok(certs) => {
                &&& r matches Ok(plan)
                &&& plan.trusts(readable(native), certs)
                &&& plan.speaks_tunnel()
                &&& plan.keep_alive_interval matches Some(t)
                &&& crate::time::nanos(t) == KEEP_ALIVE_INTERVAL_SECS * 1_000_000_000
            },
            Err(e) => {
                &&& r matches Err(TunnelError::Internal(m))
                &&& m@ == "CF root PEM malformed: "@ + e
            },
        },
        pem_certs(cf_roots_pem@) matches Ok(certs) ==> {
            &&& r matches Ok(plan)
            &&& plan.cf_added == certs.filter(|der: Seq<u8>| anchor_of(der) is Some).len()
            &&& forall|i: int|
                0 <= i < certs.len() ==> (anchor_of(#[trigger] certs[i]) matches Some(a) ==> anchors(
                    plan.roots,
                ).contains(a))
        },
        r matches Ok(plan) ==> {
            &&& native matches Ok(system) ==> forall|i: int|
                0 <= i < system@.len() ==> (anchor_of(#[trigger] system.deep_view()[i]) matches Some(
                    a,
                ) ==> anchors(plan.roots).contains(a))
            &&& native matches Ok(system) ==> plan.native_count == system.deep_view().filter(
                |der: Seq<u8>| anchor_of(der) is Some,
            ).len()
            &&& native is Err ==> plan.native_count == 0
            &&& anchors(plan.roots).len() == plan.native_count + plan.cf_added
            &&& plan.alpn_protocols.deep_view() == seq![ALPN@]
            &&& crate::time::nanos(plan.max_idle_timeout) == 30_000_000_000
            &&& plan.keep_alive_interval matches Some(t)
            &&& crate::time::nanos(t) == 1_000_000_000
        },
{
    plan_client_config(native, read_pem_certs(cf_roots_pem))
}

/// The local address that the client's socket is bound to: any address, any
/// free port.
pub fn local_bind() -> (r: EdgeSocket)
    ensures
        r.ip matches EdgeIp::V4(octets) && octets@ == seq![0u8, 0, 0, 0],
        r.port == 0,
{
    let any: [u8; 4] = [0, 0, 0, 0];
    assert(any@ =~= seq![0u8, 0, 0, 0]);
    EdgeSocket { ip: EdgeIp::V4(any), port: 0 }
}

/// Why the client's endpoint could not be made.
pub enum EndpointFailure {
    /// The TLS configuration cannot be used for QUIC.
    Crypto(String),
    /// The socket could not be bound.
    Bind(String),
}

/// What making the client's endpoint gives its caller.
pub fn build_endpoint<E>(made: Result<E, EndpointFailure>) -> (r: Result<E, TunnelError>)
    ensures
        match made {
            Ok(endpoint) => r == Ok::<E, TunnelError>(endpoint),
            Err(EndpointFailure::Crypto(e)) => {
                &&& r matches Err(TunnelError::Internal(m))
                &&& m@ == "rustls→quinn: "@ + e@
            },
            Err(EndpointFailure::Bind(e)) => {
                &&& r matches Err(TunnelError::Internal(m))
                &&& m@ == "Endpoint::client bind: "@ + e@
            },
        },
{
    match made {
        Ok(endpoint) => Ok(endpoint),
        Err(EndpointFailure::Crypto(e)) => Err(
            TunnelError::Internal(joined("rustls→quinn: ", e.as_str())),
        ),
        Err(EndpointFailure::Bind(e)) => Err(
            TunnelError::Internal(joined("Endpoint::client bind: ", e.as_str())),
        ),
    }
}

} // verus!
