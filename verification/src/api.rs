//! Asking the service for a tunnel: what its reply means, and whether to ask
//! again.

use crate::error::{QuickTunnelApiError, TunnelError};
use crate::supervisor::{backoff, backoff_secs};
use crate::text::joined;
use base64::engine::general_purpose::STANDARD;
use base64::Engine;
use vstd::arithmetic::power2::lemma2_to64;
use vstd::prelude::*;

verus! {

/// Where tunnels are asked for by default.
pub const DEFAULT_SERVICE_URL: &'static str = "https://api.trycloudflare.com";

/// User agent that the service expects from a client of its kind.
pub const DEFAULT_USER_AGENT: &'static str = "cloudflared/2024.12.0";

/// How often a request that failed for a passing reason is made again.
pub const MAX_RETRIES: u32 = 3;

/// How many characters of an unexpected body go into an error.
pub const SNIPPET_CHARS: usize = 200;

/// The JSON envelope that the service answers with.
#[derive(Debug)]
pub struct QuickTunnelResponse {
    pub success: bool,
    pub result: QuickTunnel,
    pub errors: Vec<QuickTunnelApiError>,
}

/// The tunnel that the service hands out.
#[derive(Debug)]
pub struct QuickTunnel {
    pub id: String,
    pub name: String,
    pub hostname: String,
    pub account_tag: String,
    /// Secret that the edge shares with the client for this tunnel.
    pub secret: Vec<u8>,
}

/// The symbol that stands for six bits in base64's standard alphabet.
pub open spec fn base64_symbol(v: int) -> char {
    if v < 26 {
        (65 + v) as char
    } else if v < 52 {
        (71 + v) as char
    } else if v < 62 {
        (v - 4) as char
    } else if v == 62 {
        '+'
    } else {
        '/'
    }
}

/// Bytes in base64: the standard alphabet, padded.
pub open spec fn base64_text(bytes: Seq<u8>) -> Seq<char>
    decreases bytes.len(),
{
    let a = bytes[0] as int;
    let b = if bytes.len() > 1 {
        bytes[1] as int
    } else {
        0
    };
    let c = if bytes.len() > 2 {
        bytes[2] as int
    } else {
        0
    };
    if bytes.len() == 0 {
        Seq::empty()
    } else {
        seq![
            base64_symbol(a / 4),
            base64_symbol(a % 4 * 16 + b / 16),
            if bytes.len() > 1 {
                base64_symbol(b % 16 * 4 + c / 64)
            } else {
                '='
            },
            if bytes.len() > 2 {
                base64_symbol(c % 64)
            } else {
                '='
            },
        ] + (if bytes.len() > 3 {
            base64_text(bytes.skip(3))
        } else {
            Seq::empty()
        })
    }
}

/// What is said of a text that is not base64.
pub uninterp spec fn base64_complaint(text: Seq<char>) -> Seq<char>;

/// Calls `base64::engine::Engine::decode` on the engine
/// `base64::engine::general_purpose::STANDARD`.
///
/// Claimed: a text is decoded when it is the base64 of some bytes, and then to
/// bytes whose base64 it is. Any other text is refused: a foreign symbol,
/// padding that is missing or out of place, or bits that are left over. What
/// the refusal says has a name and no more.
#[verifier::external_body]
fn decode_base64(text: &str) -> (r: Result<Vec<u8>, String>)
    ensures
        match r {
            Ok(bytes) => text@ == base64_text(bytes@),
            Err(e) => {
                &&& e@ == base64_complaint(text@)
                &&& forall|bytes: Seq<u8>| text@ != #[trigger] base64_text(bytes)
            },
        },
{
    STANDARD.decode(text).map_err(|e| e.to_string())
}

/// What reading a text as base64 gives: bytes whose base64 it is, or, where
/// there are none, the complaint about it.
pub open spec fn reads_base64(text: Seq<char>, r: Result<Vec<u8>, String>) -> bool {
    match r {
        Ok(bytes) => text == base64_text(bytes@),
        Err(e) => {
            &&& e@ == base64_complaint(text)
            &&& forall|bytes: Seq<u8>| text != #[trigger] base64_text(bytes)
        },
    }
}

/// Reads a secret as it stands in the envelope: in base64.
pub fn deserialize(text: &str) -> (r: Result<Vec<u8>, String>)
    ensures
        reads_base64(text@, r),
        r matches Ok(bytes) ==> text@ == base64_text(bytes@),
        r matches Err(e) ==> e@ == base64_complaint(text@),
        r is Ok <==> exists|bytes: Seq<u8>| text@ == #[trigger] base64_text(bytes),
{
    decode_base64(text)
}

/// Different bytes have different base64.
pub proof fn lemma_base64_tells_apart(x: Seq<u8>, y: Seq<u8>)
    requires
        base64_text(x) == base64_text(y),
    ensures
        x == y,
    decreases x.len(),
{
    let s = base64_text(x);
    let t = base64_text(y);
    assert(x.len() > 0 ==> s.len() >= 4);
    assert(y.len() > 0 ==> t.len() >= 4);
    if x.len() == 0 || y.len() == 0 {
        assert(x =~= y);
    } else {
        assert(s[0] == t[0] && s[1] == t[1] && s[2] == t[2] && s[3] == t[3]);
        assert(x[0] == y[0]);
        if x.len() <= 3 {
            assert(s.len() == 4);
            if y.len() > 3 {
                assert(t.skip(4) =~= base64_text(y.skip(3)));
                assert(base64_text(y.skip(3)).len() >= 4);
            }
            assert(x =~= y);
        } else {
            if y.len() <= 3 {
                assert(s.skip(4) =~= base64_text(x.skip(3)));
                assert(base64_text(x.skip(3)).len() >= 4);
            }
            assert(s.skip(4) =~= base64_text(x.skip(3)));
            assert(t.skip(4) =~= base64_text(y.skip(3)));
            lemma_base64_tells_apart(x.skip(3), y.skip(3));
            assert(x =~= x.take(3) + x.skip(3));
            assert(y =~= y.take(3) + y.skip(3));
            assert(x.take(3) =~= y.take(3));
        }
    }
}

/// Reading the base64 of a secret gives the secret back: whatever `deserialize`
/// may return for that text is that secret.
pub proof fn lemma_secret_round_trip(secret: Seq<u8>, r: Result<Vec<u8>, String>)
    requires
        reads_base64(base64_text(secret), r),
    ensures
        r matches Ok(bytes) && bytes@ == secret,
{
    match r {
        Ok(bytes) => {
            lemma_base64_tells_apart(bytes@, secret);
        },
        Err(_) => {
            assert(base64_text(secret) == base64_text(secret));
        },
    }
}

/// A text that is no secret's base64 is refused, with the complaint about it.
pub proof fn lemma_other_texts_are_refused(text: Seq<char>, r: Result<Vec<u8>, String>)
    requires
        reads_base64(text, r),
        forall|secret: Seq<u8>| text != #[trigger] base64_text(secret),
    ensures
        r matches Err(e) && e@ == base64_complaint(text),
{
}

/// Base64 goes three bytes at a time: what whole groups come to stands before
/// what follows them.
pub proof fn lemma_base64_goes_by_threes(group: Seq<u8>, rest: Seq<u8>)
    requires
        group.len() == 3,
    ensures
        base64_text(group + rest) == base64_text(group) + base64_text(rest),
        base64_text(group).len() == 4,
{
    let all = group + rest;
    assert(all.skip(3) =~= rest);
    assert(base64_text(all) =~= base64_text(group) + base64_text(rest));
}

/// Where a tunnel is asked for with POST.
pub fn tunnel_endpoint(service_url: &str) -> (r: String)
    ensures
        r@ == service_url@ + "/tunnel"@,
{
    joined(service_url, "/tunnel")
}

/// What an error shows of a body that is not the envelope: its first
/// characters, or all of it where it is short.
pub fn body_snippet(body: &str) -> (r: String)
    ensures
        r@ == (if body@.len() > SNIPPET_CHARS {
            body@.take(SNIPPET_CHARS as int)
        } else {
            body@
        }),
        body@.len() <= 200 ==> r@ == body@,
        body@.len() > 200 ==> r@ == body@.take(200),
{
    let n: usize = body.unicode_len();
    if n > SNIPPET_CHARS {
        let head = body.substring_char(0, SNIPPET_CHARS);
        assert(head@ =~= body@.take(SNIPPET_CHARS as int));
        head.to_string()
    } else {
        body.to_string()
    }
}

/// What came of one request for a tunnel.
pub enum ApiReply {
    /// No answer came; holds what the transport says.
    Unreachable(String),
    /// An answer that is not the envelope.
    NonJson { status: u16, body_snippet: String },
    /// The envelope.
    Envelope { status: u16, response: QuickTunnelResponse },
}

/// What a request for a tunnel does next.
pub enum RequestStep {
    /// Wait, then ask again.
    Retry { delay_secs: u64 },
    /// Done.
    Finish(Result<QuickTunnel, TunnelError>),
}

/// Whether an HTTP status is the server's own failure.
pub open spec fn is_server_error(status: u16) -> bool {
    500 <= status < 600
}

/// Whether a reply may be different the next time: no answer came, or the
/// server failed.
pub open spec fn is_passing(reply: ApiReply) -> bool {
    match reply {
        ApiReply::Unreachable(_) => true,
        ApiReply::NonJson { status, .. } => is_server_error(status),
        ApiReply::Envelope { status, .. } => is_server_error(status),
    }
}

/// What a reply means when it is taken as it is. The tunnel counts where the
/// envelope says that it was made and the status is not an error's.
pub open spec fn means(reply: ApiReply, r: Result<QuickTunnel, TunnelError>) -> bool {
    match reply {
        ApiReply::Unreachable(e) => r == Err::<QuickTunnel, TunnelError>(TunnelError::Api(e)),
        ApiReply::NonJson { status, body_snippet } => r == Err::<QuickTunnel, TunnelError>(
            TunnelError::ApiNonJson { status, body_snippet },
        ),
        ApiReply::Envelope { status, response } => if response.success && status < 400 {
            r == Ok::<QuickTunnel, TunnelError>(response.result)
        } else {
            r == Err::<QuickTunnel, TunnelError>(TunnelError::ApiBusiness(response.errors))
        },
    }
}

/// What follows a reply when the request has been made again `retries` times
/// before it.
pub open spec fn request_follows(retries: u32, reply: ApiReply, step: RequestStep) -> bool {
    if is_passing(reply) && retries < MAX_RETRIES {
        step == RequestStep::Retry { delay_secs: backoff(retries as nat) as u64 }
    } else {
        step matches RequestStep::Finish(r) && means(reply, r)
    }
}

/// Takes in the reply to a request that has been made again `retries` times
/// before, and says what to do.
pub fn request_tunnel(retries: u32, reply: ApiReply) -> (r: RequestStep)
    ensures
        request_follows(retries, reply, r),
        reply matches ApiReply::Unreachable(e) ==> (if retries < 3 {
            r is Retry
        } else {
            r matches RequestStep::Finish(Err(TunnelError::Api(m))) && m@ == e@
        }),
        reply matches ApiReply::NonJson { status, body_snippet } ==> (if 500 <= status < 600
            && retries < 3 {
            r is Retry
        } else {
            &&& r matches RequestStep::Finish(
                Err(TunnelError::ApiNonJson { status: s, body_snippet: b }),
            )
            &&& s == status
            &&& b@ == body_snippet@
        }),
        reply matches ApiReply::Envelope { status, response } ==> (if 500 <= status < 600
            && retries < 3 {
            r is Retry
        } else if response.success && status < 400 {
            &&& r matches RequestStep::Finish(Ok(t))
            &&& t.id == response.result.id
            &&& t.name == response.result.name
            &&& t.hostname == response.result.hostname
            &&& t.account_tag == response.result.account_tag
            &&& t.secret == response.result.secret
        } else {
            &&& r matches RequestStep::Finish(Err(TunnelError::ApiBusiness(errors)))
            &&& errors@ == response.errors@
        }),
        r matches RequestStep::Retry { delay_secs } ==> {
            &&& retries == 0 ==> delay_secs == 1
            &&& retries == 1 ==> delay_secs == 2
            &&& retries == 2 ==> delay_secs == 4
        },
{
    proof {
        lemma2_to64();
    }
    let passing: bool = match &reply {
        ApiReply::Unreachable(_) => true,
        ApiReply::NonJson { status, .. } => 500 <= *status && *status < 600,
        ApiReply::Envelope { status, .. } => 500 <= *status && *status < 600,
    };
    if passing && retries < MAX_RETRIES {
        return RequestStep::Retry { delay_secs: backoff_secs(retries) };
    }
    RequestStep::Finish(
        match reply {
            ApiReply::Unreachable(e) => Err(TunnelError::Api(e)),
            ApiReply::NonJson { status, body_snippet } => Err(
                TunnelError::ApiNonJson { status, body_snippet },
            ),
            ApiReply::Envelope { status, response } => {
                if response.success && status < 400 {
                    Ok(response.result)
                } else {
                    Err(TunnelError::ApiBusiness(response.errors))
                }
            },
        },
    )
}

/// A tunnel that was made is handed out as it came: for every envelope that
/// reports success under a status that is not an error's, each field of the
/// tunnel is the field of the same name in the envelope's result.
pub proof fn lemma_tunnel_comes_as_it_is(
    retries: u32,
    status: u16,
    response: QuickTunnelResponse,
    step: RequestStep,
)
    requires
        request_follows(retries, ApiReply::Envelope { status, response }, step),
        response.success,
        status < 400,
    ensures
        step matches RequestStep::Finish(Ok(t)) && {
            &&& t.id == response.result.id
            &&& t.name == response.result.name
            &&& t.hostname == response.result.hostname
            &&& t.account_tag == response.result.account_tag
            &&& t.secret == response.result.secret
        },
{
}

/// A reply that ends a request without a tunnel is passed on whole: what the
/// transport said, the status and the body of an answer that is not the
/// envelope, or the errors in the envelope.
pub proof fn lemma_failure_is_passed_on(retries: u32, reply: ApiReply, step: RequestStep)
    requires
        request_follows(retries, reply, step),
    ensures
        step is Finish ==> match reply {
            ApiReply::Unreachable(e) => step == RequestStep::Finish(Err(TunnelError::Api(e))),
            ApiReply::NonJson { status, body_snippet } => step == RequestStep::Finish(
                Err(TunnelError::ApiNonJson { status, body_snippet }),
            ),
            ApiReply::Envelope { status, response } => !response.success || status >= 400 ==> step
                == RequestStep::Finish(Err(TunnelError::ApiBusiness(response.errors))),
        },
{
}

/// A request is made again exactly where no answer came or the server failed,
/// and it has been made again fewer than three times before; the wait doubles
/// from one second.
pub proof fn lemma_when_to_ask_again(retries: u32, reply: ApiReply, step: RequestStep)
    requires
        request_follows(retries, reply, step),
    ensures
        step is Retry <==> retries < 3 && (match reply {
            ApiReply::Unreachable(_) => true,
            ApiReply::NonJson { status, .. } => 500 <= status < 600,
            ApiReply::Envelope { status, .. } => 500 <= status < 600,
        }),
        step matches RequestStep::Retry { delay_secs } ==> delay_secs == (if retries == 0 {
            1
        } else if retries == 1 {
            2
        } else {
            4int
        }),
{
    lemma2_to64();
}

/// A request that the service refused is not made again: an answer with any
/// status but a server error's ends it at once, a client error's or a
/// business error among them, and never with a tunnel for either.
pub proof fn lemma_refusal_is_final(retries: u32, reply: ApiReply, step: RequestStep)
    requires
        request_follows(retries, reply, step),
        !is_passing(reply),
    ensures
        step is Finish,
        step matches RequestStep::Finish(Ok(_)) ==> reply matches ApiReply::Envelope {
            status,
            response,
        } && status < 400 && response.success,
{
}

/// A request is made again at most as often as it may be, whatever the replies.
pub proof fn lemma_retries_are_bounded(retries: u32, reply: ApiReply, step: RequestStep)
    requires
        request_follows(retries, reply, step),
        retries >= MAX_RETRIES,
    ensures
        step is Finish,
{
}

} // verus!
