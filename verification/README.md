# cloudflare-quick-tunnel

Client for Cloudflare's quick tunnels (`https://*.trycloudflare.com`) with a
core that is written and proved in Verus.

- `src/` is the core. It decides: what an SRV answer names (`edge`), when a
  cached answer counts (`edge`), which edge is dialled when and with what trust
  (`quic_dial`), which idle connection is handed out (`pool`), what the
  service's reply means and whether to ask again (`api`), how long to wait for a
  lost connection and when to give up (`supervisor`), and what the caller sets
  and sees (`manager`, `error`). `spike` is a probe of the edges.
- `app/` is the client around it: DNS, HTTP, TLS, QUIC, TCP and the clock. The
  Cap'n Proto side of an edge comes in through the `EdgeSession` trait, and the
  CAs of the edges as a PEM text.
- `tests/` run the core with the real outside crates.

What the core takes on trust of outside crates stands in `src/` beside its use:
`text` and `time` (std), `edge` (hickory-resolver), `quic_dial` (rustls,
rustls-pemfile), `api` (base64) and `manager` (uuid).
