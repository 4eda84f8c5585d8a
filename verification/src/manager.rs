//! What a caller sets a tunnel up with, and what it holds while the tunnel is
//! up.

use crate::api::{QuickTunnel, DEFAULT_SERVICE_URL, DEFAULT_USER_AGENT};
use crate::error::TunnelError;
use crate::text::joined;
use std::time::Duration;
use vstd::prelude::*;

verus! {

/// Seconds that finding a URL and registering may take together.
pub const DEFAULT_HANDSHAKE_TIMEOUT_SECS: u64 = 30;

/// What has gone through a tunnel.
#[derive(Debug, Clone, Copy)]
pub struct TunnelMetrics {
    pub streams_total: u64,
    pub bytes_in: u64,
    pub bytes_out: u64,
    pub reconnects: u64,
}

impl Default for TunnelMetrics {
    fn default() -> (r: Self)
        ensures
            r.streams_total == 0,
            r.bytes_in == 0,
            r.bytes_out == 0,
            r.reconnects == 0,
    {
        TunnelMetrics { streams_total: 0, bytes_in: 0, bytes_out: 0, reconnects: 0 }
    }
}

impl TunnelMetrics {
    /// Counts one stream with the bytes it carried. The counters wrap around.
    pub fn record_stream(&mut self, bytes_in: u64, bytes_out: u64)
        ensures
            final(self).streams_total == (old(self).streams_total + 1) % 0x1_0000_0000_0000_0000,
            final(self).bytes_in == (old(self).bytes_in + bytes_in) % 0x1_0000_0000_0000_0000,
            final(self).bytes_out == (old(self).bytes_out + bytes_out) % 0x1_0000_0000_0000_0000,
            final(self).reconnects == old(self).reconnects,
    {
        self.streams_total = self.streams_total.wrapping_add(1);
        self.bytes_in = self.bytes_in.wrapping_add(bytes_in);
        self.bytes_out = self.bytes_out.wrapping_add(bytes_out);
    }

    /// Counts one connection that was brought back. The counter wraps around.
    pub fn record_reconnect(&mut self)
        ensures
            final(self).streams_total == old(self).streams_total,
            final(self).bytes_in == old(self).bytes_in,
            final(self).bytes_out == old(self).bytes_out,
            final(self).reconnects == (old(self).reconnects + 1) % 0x1_0000_0000_0000_0000,
    {
        self.reconnects = self.reconnects.wrapping_add(1);
    }
}

/// The number that a text names as a UUID, if it names one.
pub uninterp spec fn uuid_value(text: Seq<char>) -> Option<u128>;

/// Calls `uuid::Uuid::parse_str` and gives the UUID as the number it is.
///
/// Claimed: the number, or its absence, is `uuid_value` of the text. Which
/// texts name a UUID is not said.
#[verifier::external_body]
fn parse_uuid(text: &str) -> (r: Option<u128>)
    ensures
        r == uuid_value(text@),
{
    uuid::Uuid::parse_str(text).ok().map(|id| id.as_u128())
}

/// A tunnel that is up.
pub struct QuickTunnelHandle {
    /// Public URL of the tunnel.
    pub url: String,
    pub tunnel_id: u128,
    pub account_tag: String,
    /// Where the edge is that serves the tunnel.
    pub location: String,
    /// What has gone through the tunnel.
    pub counters: TunnelMetrics,
}

impl QuickTunnelHandle {
    /// The handle speaks for this tunnel, under this number, and nothing has
    /// gone through it yet.
    pub open spec fn speaks_for(self, tunnel: QuickTunnel, id: u128, location: String) -> bool {
        &&& self.url@ == "https://"@ + tunnel.hostname@
        &&& self.tunnel_id == id
        &&& self.account_tag == tunnel.account_tag
        &&& self.location == location
        &&& self.counters == TunnelMetrics {
            streams_total: 0,
            bytes_in: 0,
            bytes_out: 0,
            reconnects: 0,
        }
    }

    /// The handle of a tunnel that has been registered, given the number that
    /// its id names.
    pub fn with_id(tunnel: QuickTunnel, id: Option<u128>, location: String) -> (r: Result<
        Self,
        TunnelError,
    >)
        ensures
            match id {
                Some(n) => {
                    &&& r matches Ok(handle)
                    &&& handle.speaks_for(tunnel, n, location)
                    &&& handle.url@ == "https://"@ + tunnel.hostname@
                    &&& handle.tunnel_id == n
                    &&& handle.account_tag@ == tunnel.account_tag@
                    &&& handle.location@ == location@
                    &&& handle.counters.streams_total == 0
                    &&& handle.counters.bytes_in == 0
                    &&& handle.counters.bytes_out == 0
                    &&& handle.counters.reconnects == 0
                },
                None => {
                    &&& r matches Err(TunnelError::Internal(m))
                    &&& m@ == "tunnel id is not a UUID: "@ + tunnel.id@
                },
            },
    {
        match id {
            Some(tunnel_id) => Ok(
                QuickTunnelHandle {
                    url: joined("https://", tunnel.hostname.as_str()),
                    tunnel_id,
                    account_tag: tunnel.account_tag,
                    location,
                    counters: TunnelMetrics::default(),
                },
            ),
            None => Err(
                TunnelError::Internal(joined("tunnel id is not a UUID: ", tunnel.id.as_str())),
            ),
        }
    }

    /// The handle of a tunnel that has been registered.
    pub fn new(tunnel: QuickTunnel, location: String) -> (r: Result<Self, TunnelError>)
        ensures
            match uuid_value(tunnel.id@) {
                Some(n) => {
                    &&& r matches Ok(handle)
                    &&& handle.speaks_for(tunnel, n, location)
                    &&& handle.url@ == "https://"@ + tunnel.hostname@
                    &&& handle.tunnel_id == n
                    &&& handle.account_tag@ == tunnel.account_tag@
                    &&& handle.location@ == location@
                    &&& handle.counters.streams_total == 0
                    &&& handle.counters.bytes_in == 0
                    &&& handle.counters.bytes_out == 0
                    &&& handle.counters.reconnects == 0
                },
                None => {
                    &&& r matches Err(TunnelError::Internal(m))
                    &&& m@ == "tunnel id is not a UUID: "@ + tunnel.id@
                },
            },
    {
        let id = parse_uuid(tunnel.id.as_str());
        Self::with_id(tunnel, id, location)
    }

    /// What has gone through the tunnel so far.
    pub fn metrics(&self) -> (r: TunnelMetrics)
        ensures
            r == self.counters,
    {
        self.counters
    }
}

/// A handle shows the tunnel it speaks for: the URL is the hostname's, and the
/// account, the place and the number are the ones it was made with.
pub proof fn lemma_handle_shows_its_tunnel(
    handle: QuickTunnelHandle,
    tunnel: QuickTunnel,
    id: u128,
    location: String,
)
    requires
        handle.speaks_for(tunnel, id, location),
    ensures
        handle.url@ == "https://"@ + tunnel.hostname@,
        handle.tunnel_id == id,
        handle.account_tag@ == tunnel.account_tag@,
        handle.location@ == location@,
        handle.counters.streams_total == 0,
        handle.counters.bytes_in == 0,
        handle.counters.bytes_out == 0,
        handle.counters.reconnects == 0,
{
}

/// What a tunnel is started with.
pub struct QuickTunnelManager {
    /// Port of the local service that the tunnel exposes.
    pub local_port: u16,
    /// How long finding a URL and registering may take together.
    pub discovery_timeout: Duration,
    /// Where the tunnel is asked for.
    pub service_url: String,
    pub user_agent: String,
}

impl QuickTunnelManager {
    /// The defaults, for a local port.
    pub fn new(local_port: u16) -> (r: Self)
        ensures
            r.local_port == local_port,
            crate::time::nanos(r.discovery_timeout) == DEFAULT_HANDSHAKE_TIMEOUT_SECS
                * 1_000_000_000,
            r.service_url@ == DEFAULT_SERVICE_URL@,
            r.user_agent@ == DEFAULT_USER_AGENT@,
    {
        QuickTunnelManager {
            local_port,
            discovery_timeout: Duration::from_secs(DEFAULT_HANDSHAKE_TIMEOUT_SECS),
            service_url: DEFAULT_SERVICE_URL.into(),
            user_agent: DEFAULT_USER_AGENT.into(),
        }
    }

    /// The same with another timeout.
    pub fn with_timeout(self, d: Duration) -> (r: Self)
        ensures
            r == (QuickTunnelManager { discovery_timeout: d, ..self }),
    {
        let mut this = self;
        this.discovery_timeout = d;
        this
    }

    /// The same with another service.
    pub fn with_service_url<U: Into<String>>(self, url: U) -> (r: Self)
        ensures
            call_ensures(U::into, (url,), r.service_url),
            r == (QuickTunnelManager { service_url: r.service_url, ..self }),
    {
        let mut this = self;
        this.service_url = url.into();
        this
    }

    /// The same with another user agent.
    pub fn with_user_agent<U: Into<String>>(self, ua: U) -> (r: Self)
        ensures
            call_ensures(U::into, (ua,), r.user_agent),
            r == (QuickTunnelManager { user_agent: r.user_agent, ..self }),
    {
        let mut this = self;
        this.user_agent = ua.into();
        this
    }
}

} // verus!
