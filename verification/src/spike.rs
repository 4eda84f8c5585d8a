//! Probe of the edges: does a handshake go through at all?
//!
//! The probe asks the default resolver only, takes every edge it names, tries
//! the first few of them, and stops at the first handshake.

use crate::edge::{
    edges_named, resolve_srv, EdgeAddr, EdgeSocket, IpVersionFilter, SrvAnswer, SRV_NAME,
};
use crate::quic_dial::{
    pem_certs, plan_with_roots, read_pem_certs, ClientConfigPlan, EndpointFailure,
};
use crate::text::joined;
use vstd::prelude::*;

verus! {

/// How many edges are tried.
pub const MAX_PROBED_EDGES: usize = 3;

/// Why a probe failed.
#[derive(Debug)]
pub enum SpikeError {
    /// Something else failed; says what was being done, and what came of it.
    Context { context: String, cause: String },
    /// The probe's own complaint, or someone else's as it is.
    Message(String),
}

/// Where the edges that an SRV answer names are.
pub open spec fn sockets_named(answers: Seq<SrvAnswer>) -> Seq<EdgeSocket> {
    edges_named(answers, IpVersionFilter::Auto).map_values(
        |e: EdgeAddr| EdgeSocket { ip: e.ip, port: e.port },
    )
}

/// Turns the outcome of the SRV lookup into the edges to probe.
pub fn discover_edges(lookup: Result<Vec<SrvAnswer>, String>) -> (r: Result<
    Vec<EdgeSocket>,
    SpikeError,
>)
    ensures
        match lookup {
            Err(e) => {
                &&& r matches Err(SpikeError::Context { context, cause })
                &&& context@ == "SRV lookup for "@ + SRV_NAME@
                &&& cause == e
            },
            Ok(answers) => if sockets_named(answers@).len() == 0 {
                &&& r matches Err(SpikeError::Message(m))
                &&& m@ == "SRV "@ + SRV_NAME@ + " resolved to zero edges"@
            } else {
                r matches Ok(edges) && edges@ == sockets_named(answers@)
            },
        },
        lookup matches Ok(answers) ==> {
            let named = edges_named(answers@, IpVersionFilter::Auto);
            &&& r is Ok <==> named.len() > 0
            &&& r matches Ok(edges) ==> edges@.len() == named.len() && forall|i: int|
                0 <= i < named.len() ==> (#[trigger] edges@[i]).ip == named[i].ip && edges@[i].port
                    == named[i].port
        },
{
    let ghost asked = lookup;
    let answers = match lookup {
        Ok(answers) => answers,
        Err(cause) => {
            return Err(SpikeError::Context { context: joined("SRV lookup for ", SRV_NAME), cause });
        },
    };
    let mut sockets: Vec<EdgeSocket> = Vec::new();
    if let Ok(edges) = resolve_srv(Ok(answers), IpVersionFilter::Auto) {
        let mut i: usize = 0;
        while i < edges.len()
            invariant
                i <= edges.len(),
                sockets@ == edges@.take(i as int).map_values(
                    |e: EdgeAddr| EdgeSocket { ip: e.ip, port: e.port },
                ),
            decreases edges.len() - i,
        {
            sockets.push(edges[i].socket());
            assert(sockets@ =~= edges@.take(i + 1).map_values(
                |e: EdgeAddr| EdgeSocket { ip: e.ip, port: e.port },
            ));
            i = i + 1;
        }
        assert(edges@.take(i as int) =~= edges@);
    }
    assert(asked matches Ok(answers) && sockets@ == sockets_named(answers@));
    if sockets.len() == 0 {
        let mut m = joined("SRV ", SRV_NAME);
        m.append(" resolved to zero edges");
        return Err(SpikeError::Message(m));
    }
    Ok(sockets)
}

/// Plans the probe's configuration. Unlike the client's, an unreadable system
/// store is an error, and there are no keep-alive packets.
pub fn plan_client_config(
    native: Result<Vec<Vec<u8>>, String>,
    embedded: Result<Vec<Vec<u8>>, String>,
) -> (r: Result<ClientConfigPlan, SpikeError>)
    ensures
        match (native, embedded) {
            (Err(e), _) => r == Err::<ClientConfigPlan, SpikeError>(SpikeError::Message(e)),
            (Ok(_), Err(e)) => {
                &&& r matches Err(SpikeError::Context { context, cause })
                &&& context@ == "malformed CF root PEM"@
                &&& cause == e
            },
            (Ok(system), Ok(certs)) => {
                &&& r matches Ok(plan)
                &&& plan.trusts(system.deep_view(), certs.deep_view())
                &&& plan.speaks_tunnel()
                &&& plan.keep_alive_interval is None
                &&& plan.alpn_protocols.deep_view() == seq![crate::quic_dial::ALPN@]
                &&& crate::time::nanos(plan.max_idle_timeout) == 30_000_000_000
            },
        },
{
    match (native, embedded) {
        (Err(e), _) => Err(SpikeError::Message(e)),
        (Ok(_), Err(cause)) => Err(
            SpikeError::Context { context: "malformed CF root PEM".to_string(), cause },
        ),
        (Ok(system), Ok(certs)) => Ok(plan_with_roots(&system, &certs)),
    }
}

/// Plans the probe's configuration from the system's certificates and a PEM
/// text with the added ones.
pub fn build_client_config(native: Result<Vec<Vec<u8>>, String>, cf_roots_pem: &[u8]) -> (r: Result<
    ClientConfigPlan,
    SpikeError,
>)
    ensures
        match (native, pem_certs(cf_roots_pem@)) {
            (Err(e), _) => r == Err::<ClientConfigPlan, SpikeError>(SpikeError::Message(e)),
            (Ok(_), Err(e)) => {
                &&& r matches Err(SpikeError::Context { context, cause })
                &&& context@ == "malformed CF root PEM"@
                &&& cause@ == e
            },
            (Ok(system), Ok(certs)) => {
                &&& r matches Ok(plan)
                &&& plan.trusts(system.deep_view(), certs)
                &&& plan.speaks_tunnel()
                &&& plan.keep_alive_interval is None
                &&& plan.alpn_protocols.deep_view() == seq![crate::quic_dial::ALPN@]
                &&& crate::time::nanos(plan.max_idle_timeout) == 30_000_000_000
            },
        },
{
    plan_client_config(native, read_pem_certs(cf_roots_pem))
}

/// What making the probe's endpoint gives its caller.
pub fn build_endpoint<E>(made: Result<E, EndpointFailure>) -> (r: Result<E, SpikeError>)
    ensures
        match made {
            Ok(endpoint) => r == Ok::<E, SpikeError>(endpoint),
            Err(EndpointFailure::Crypto(e)) => {
                &&& r matches Err(SpikeError::Context { context, cause })
                &&& context@ == "rustls config not QUIC-compatible"@
                &&& cause == e
            },
            Err(EndpointFailure::Bind(e)) => {
                &&& r matches Err(SpikeError::Context { context, cause })
                &&& context@ == "bind UDP socket for QUIC client"@
                &&& cause == e
            },
        },
{
    match made {
        Ok(endpoint) => Ok(endpoint),
        Err(EndpointFailure::Crypto(cause)) => Err(
            SpikeError::Context { context: "rustls config not QUIC-compatible".to_string(), cause },
        ),
        Err(EndpointFailure::Bind(cause)) => Err(
            SpikeError::Context { context: "bind UDP socket for QUIC client".to_string(), cause },
        ),
    }
}

/// How dialling one edge went.
pub enum ProbeOutcome {
    /// The handshake went through.
    Connected,
    /// The dial could not even be started.
    NotStarted(String),
    /// The handshake failed.
    HandshakeFailed(String),
    /// The handshake took too long.
    TimedOut,
}

/// What a probe does next.
pub enum ProbeStep {
    /// Dial this edge and report what came of it.
    Attempt(EdgeSocket),
    /// Done.
    Finish(Result<(), SpikeError>),
}

/// Where a probe stands: the edges it may try, how many handshakes have not
/// gone through, and what the last of them said.
pub struct ProbeProgress {
    pub edges: Seq<EdgeSocket>,
    pub failed: nat,
    pub last: Option<Seq<char>>,
}

impl ProbeProgress {
    /// A probe that has tried nothing yet. Only the first few edges count.
    pub open spec fn start(edges: Seq<EdgeSocket>) -> ProbeProgress {
        ProbeProgress {
            edges: if edges.len() > MAX_PROBED_EDGES {
                edges.take(MAX_PROBED_EDGES as int)
            } else {
                edges
            },
            failed: 0,
            last: None,
        }
    }

    /// Whether an edge is left to try.
    pub open spec fn pending(self) -> bool {
        self.failed < self.edges.len()
    }

    /// The probe after one more handshake that did not go through.
    pub open spec fn after_failure(self, text: Seq<char>) -> ProbeProgress {
        ProbeProgress { edges: self.edges, failed: self.failed + 1, last: Some(text) }
    }

    /// The probe after several of them.
    pub open spec fn after_failures(self, texts: Seq<Seq<char>>) -> ProbeProgress
        decreases texts.len(),
    {
        if texts.len() == 0 {
            self
        } else {
            self.after_failures(texts.drop_last()).after_failure(texts.last())
        }
    }

    /// What is to be done where the probe stands, when no handshake has gone
    /// through: try the next edge, or report the failure.
    pub open spec fn demands(self, step: ProbeStep) -> bool {
        if self.pending() {
            step == ProbeStep::Attempt(self.edges[self.failed as int])
        } else {
            &&& step matches ProbeStep::Finish(Err(SpikeError::Message(m)))
            &&& m@ == "all edges failed; last error: "@ + (match self.last {
                Some(text) => text,
                None => "<unknown>"@,
            })
        }
    }
}

/// A probe of some edges.
pub struct Probe {
    edges: Vec<EdgeSocket>,
    failed: usize,
    last: Option<String>,
}

impl View for Probe {
    type V = ProbeProgress;

    closed spec fn view(&self) -> ProbeProgress {
        ProbeProgress {
            edges: self.edges@,
            failed: self.failed as nat,
            last: match self.last {
                Some(text) => Some(text@),
                None => None,
            },
        }
    }
}

impl Probe {
    /// Starts a probe.
    pub fn start(edges: &[EdgeSocket]) -> (r: (Probe, ProbeStep))
        ensures
            r.0@ == ProbeProgress::start(edges@),
            r.0@.demands(r.1),
            r.0@.edges == (if edges@.len() > 3 {
                edges@.take(3)
            } else {
                edges@
            }),
            r.0@.failed == 0,
            edges@.len() > 0 ==> r.1 == ProbeStep::Attempt(edges@[0]),
            edges@.len() == 0 ==> {
                &&& r.1 matches ProbeStep::Finish(Err(SpikeError::Message(m)))
                &&& m@ == "all edges failed; last error: "@ + "<unknown>"@
            },
    {
        let mut own: Vec<EdgeSocket> = Vec::new();
        let mut i: usize = 0;
        while i < edges.len() && i < MAX_PROBED_EDGES
            invariant
                i <= edges@.len(),
                i <= MAX_PROBED_EDGES,
                own@ == edges@.take(i as int),
            decreases edges.len() - i,
        {
            own.push(edges[i]);
            assert(own@ =~= edges@.take(i + 1));
            i = i + 1;
        }
        assert(own@ =~= ProbeProgress::start(edges@).edges);
        let probe = Probe { edges: own, failed: 0, last: None };
        let step = probe.next_step();
        (probe, step)
    }

    /// What is to be done now, when no handshake has gone through.
    fn next_step(&self) -> (r: ProbeStep)
        ensures
            self@.demands(r),
    {
        if self.failed < self.edges.len() {
            return ProbeStep::Attempt(self.edges[self.failed]);
        }
        let m = match &self.last {
            Some(text) => joined("all edges failed; last error: ", text.as_str()),
            None => joined("all edges failed; last error: ", "<unknown>"),
        };
        ProbeStep::Finish(Err(SpikeError::Message(m)))
    }

    /// Takes in what came of the attempt that was asked for. A dial that could
    /// not be started ends the probe.
    pub fn report(&mut self, outcome: ProbeOutcome) -> (r: ProbeStep)
        requires
            old(self)@.pending(),
        ensures
            match outcome {
                ProbeOutcome::Connected => {
                    &&& r == ProbeStep::Finish(Ok(()))
                    &&& final(self)@ == old(self)@
                },
                ProbeOutcome::NotStarted(e) => {
                    &&& r == ProbeStep::Finish(Err(SpikeError::Message(e)))
                    &&& final(self)@ == old(self)@
                },
                ProbeOutcome::HandshakeFailed(e) => {
                    &&& final(self)@ == old(self)@.after_failure(e@)
                    &&& final(self)@.demands(r)
                },
                ProbeOutcome::TimedOut => {
                    &&& final(self)@ == old(self)@.after_failure("timeout"@)
                    &&& final(self)@.demands(r)
                },
            },
            final(self)@.edges == old(self)@.edges,
            outcome is HandshakeFailed || outcome is TimedOut ==> {
                let n = old(self)@.failed + 1;
                let text = match outcome {
                    ProbeOutcome::HandshakeFailed(e) => e@,
                    _ => "timeout"@,
                };
                &&& final(self)@.failed == n
                &&& n < old(self)@.edges.len() ==> r == ProbeStep::Attempt(
                    old(self)@.edges[n as int],
                )
                &&& n == old(self)@.edges.len() ==> {
                    &&& r matches ProbeStep::Finish(Err(SpikeError::Message(m)))
                    &&& m@ == "all edges failed; last error: "@ + text
                }
            },
    {
        let text = match outcome {
            ProbeOutcome::Connected => {
                return ProbeStep::Finish(Ok(()));
            },
            ProbeOutcome::NotStarted(e) => {
                return ProbeStep::Finish(Err(SpikeError::Message(e)));
            },
            ProbeOutcome::HandshakeFailed(e) => e,
            ProbeOutcome::TimedOut => "timeout".to_string(),
        };
        assert(self.failed < self.edges.len());
        self.failed = self.failed + 1;
        self.last = Some(text);
        self.next_step()
    }
}

/// A probe tries the first edges in order, each once, and no more than it may.
pub proof fn lemma_probe_order(edges: Seq<EdgeSocket>, texts: Seq<Seq<char>>)
    requires
        texts.len() <= ProbeProgress::start(edges).edges.len(),
    ensures
        ProbeProgress::start(edges).edges.is_prefix_of(edges),
        ProbeProgress::start(edges).edges.len() <= MAX_PROBED_EDGES,
        ProbeProgress::start(edges).after_failures(texts) == (ProbeProgress {
            edges: ProbeProgress::start(edges).edges,
            failed: texts.len(),
            last: if texts.len() == 0 {
                None
            } else {
                Some(texts.last())
            },
        }),
    decreases texts.len(),
{
    if texts.len() > 0 {
        lemma_probe_order(edges, texts.drop_last());
    }
}

/// While fewer handshakes have failed than there are edges, and fewer than
/// three, the next edge is tried: the one at the count of the failures. Then
/// the probe ends in an error that says what the last failure said.
pub proof fn lemma_first_edges_are_tried(
    edges: Seq<EdgeSocket>,
    texts: Seq<Seq<char>>,
    step: ProbeStep,
)
    requires
        texts.len() <= edges.len(),
        texts.len() <= 3,
        ProbeProgress::start(edges).after_failures(texts).demands(step),
    ensures
        texts.len() < edges.len() && texts.len() < 3 ==> step == ProbeStep::Attempt(
            edges[texts.len() as int],
        ),
        texts.len() == edges.len() || texts.len() == 3 ==> {
            &&& step matches ProbeStep::Finish(Err(SpikeError::Message(m)))
            &&& m@ == "all edges failed; last error: "@ + (if texts.len() == 0 {
                "<unknown>"@
            } else {
                texts[texts.len() - 1]
            })
        },
{
    lemma_probe_order(edges, texts);
}

/// The places that an SRV answer names are those of its edges, one for one and
/// of every version.
pub proof fn lemma_sockets_are_the_edges(answers: Seq<SrvAnswer>, i: int)
    requires
        0 <= i < edges_named(answers, IpVersionFilter::Auto).len(),
    ensures
        sockets_named(answers).len() == edges_named(answers, IpVersionFilter::Auto).len(),
        sockets_named(answers)[i].ip == edges_named(answers, IpVersionFilter::Auto)[i].ip,
        sockets_named(answers)[i].port == edges_named(answers, IpVersionFilter::Auto)[i].port,
{
}

} // verus!
