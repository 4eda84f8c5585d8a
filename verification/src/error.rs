//! Typed error model of the tunnel client. Each variant is a distinct failure
//! that callers can act on by itself: the API said no, DNS had no answer, the
//! handshake was refused, the supervisor gave up.

use crate::text::{decimal, joined, push_decimal, push_signed, quote, quoted, signed_decimal};
use vstd::prelude::*;

verus! {

/// Business-level error inside the API's response body when `success` is
/// false.
#[derive(Debug, Clone)]
pub struct QuickTunnelApiError {
    pub code: i32,
    pub message: String,
}

#[derive(Debug)]
pub enum TunnelError {
    /// The HTTP request itself failed; holds the transport's own message.
    Api(String),
    /// The API answered, and the answer says that it failed.
    ApiBusiness(Vec<QuickTunnelApiError>),
    /// The API answered something that is not the expected envelope.
    ApiNonJson { status: u16, body_snippet: String },
    /// No edge could be found.
    Discovery(String),
    /// No edge could be dialled.
    QuicDial { attempts: usize, last: String },
    /// The edge refused to register the connection.
    Register(String),
    /// The connection was lost and could not be brought back.
    PermanentFailure(u32),
    /// The tunnel was asked to stop.
    Shutdown,
    /// Something that should not happen did.
    Internal(String),
}

/// One business error as it stands in a message.
pub open spec fn api_error_text(e: QuickTunnelApiError) -> Seq<char> {
    "QuickTunnelApiError { code: "@ + signed_decimal(e.code as int) + ", message: "@ + quoted(
        e.message@,
    ) + " }"@
}

/// Business errors one after the other, a comma and a space between them.
pub open spec fn api_errors_listed(es: Seq<QuickTunnelApiError>) -> Seq<char>
    decreases es.len(),
{
    if es.len() == 0 {
        Seq::empty()
    } else if es.len() == 1 {
        api_error_text(es[0])
    } else {
        api_errors_listed(es.drop_last()) + ", "@ + api_error_text(es.last())
    }
}

impl TunnelError {
    /// What the error says when it is shown to a user.
    pub open spec fn text(self) -> Seq<char> {
        match self {
            TunnelError::Api(e) => "quick-tunnel API request failed: "@ + e@,
            TunnelError::ApiBusiness(es) => "quick-tunnel API returned business errors: ["@
                + api_errors_listed(es@) + "]"@,
            TunnelError::ApiNonJson { status, body_snippet } =>
                "quick-tunnel API responded non-JSON ("@ + decimal(status as nat) + "): "@
                + body_snippet@,
            TunnelError::Discovery(e) => "edge discovery failed: "@ + e@,
            TunnelError::QuicDial { attempts, last } => "QUIC dial failed after "@ + decimal(
                attempts as nat,
            ) + " attempt(s); last: "@ + last@,
            TunnelError::Register(e) => "capnp-RPC RegisterConnection failed: "@ + e@,
            TunnelError::PermanentFailure(n) =>
                "connection lost; supervisor giving up after "@ + decimal(n as nat)
                + " attempts"@,
            TunnelError::Shutdown => "shutdown requested"@,
            TunnelError::Internal(e) => "internal invariant violated: "@ + e@,
        }
    }

    /// The message that the error shows to a user.
    pub fn message(&self) -> (r: String)
        ensures
            r@ == self.text(),
            self matches TunnelError::Api(e) ==> r@ == "quick-tunnel API request failed: "@ + e@,
            self matches TunnelError::ApiBusiness(es) ==> r@
                == "quick-tunnel API returned business errors: ["@ + api_errors_listed(es@) + "]"@,
            self matches TunnelError::ApiNonJson { status, body_snippet } ==> r@
                == "quick-tunnel API responded non-JSON ("@ + decimal(*status as nat) + "): "@
                + body_snippet@,
            self matches TunnelError::Discovery(e) ==> r@ == "edge discovery failed: "@ + e@,
            self matches TunnelError::QuicDial { attempts, last } ==> r@
                == "QUIC dial failed after "@ + decimal(*attempts as nat)
                + " attempt(s); last: "@ + last@,
            self matches TunnelError::Register(e) ==> r@
                == "capnp-RPC RegisterConnection failed: "@ + e@,
            self matches TunnelError::PermanentFailure(n) ==> r@
                == "connection lost; supervisor giving up after "@ + decimal(*n as nat)
                + " attempts"@,
            self is Shutdown ==> r@ == "shutdown requested"@,
            self matches TunnelError::Internal(e) ==> r@ == "internal invariant violated: "@ + e@,
    {
        match self {
            TunnelError::Api(e) => joined("quick-tunnel API request failed: ", e.as_str()),
            TunnelError::ApiBusiness(es) => {
                let mut s = "quick-tunnel API returned business errors: [".to_string();
                push_api_errors(&mut s, es);
                s.append("]");
                s
            },
            TunnelError::ApiNonJson { status, body_snippet } => {
                let mut s = "quick-tunnel API responded non-JSON (".to_string();
                push_decimal(&mut s, *status as u64);
                s.append("): ");
                s.append(body_snippet.as_str());
                s
            },
            TunnelError::Discovery(e) => joined("edge discovery failed: ", e.as_str()),
            TunnelError::QuicDial { attempts, last } => {
                let mut s = "QUIC dial failed after ".to_string();
                push_decimal(&mut s, *attempts as u64);
                s.append(" attempt(s); last: ");
                s.append(last.as_str());
                s
            },
            TunnelError::Register(e) => joined(
                "capnp-RPC RegisterConnection failed: ",
                e.as_str(),
            ),
            TunnelError::PermanentFailure(n) => {
                let mut s = "connection lost; supervisor giving up after ".to_string();
                push_decimal(&mut s, *n as u64);
                s.append(" attempts");
                s
            },
            TunnelError::Shutdown => "shutdown requested".to_string(),
            TunnelError::Internal(e) => joined("internal invariant violated: ", e.as_str()),
        }
    }
}

/// Business errors are listed in order, each once: the list of two stretches is
/// the one, a comma and a space, and the other.
pub proof fn lemma_api_errors_add_up(x: Seq<QuickTunnelApiError>, y: Seq<QuickTunnelApiError>)
    requires
        x.len() > 0,
        y.len() > 0,
    ensures
        api_errors_listed(x + y) == api_errors_listed(x) + ", "@ + api_errors_listed(y),
    decreases y.len(),
{
    let both = x + y;
    assert(both.drop_last() =~= x + y.drop_last());
    if y.len() == 1 {
        assert(x + y.drop_last() =~= x);
        assert(api_errors_listed(both) =~= api_errors_listed(x) + ", "@ + api_errors_listed(y));
    } else {
        lemma_api_errors_add_up(x, y.drop_last());
        assert(api_errors_listed(both) =~= api_errors_listed(x) + ", "@ + api_errors_listed(y));
    }
}

/// A single business error is listed with its code and its message, and none
/// as nothing.
pub proof fn lemma_one_api_error(e: QuickTunnelApiError)
    ensures
        api_errors_listed(seq![e]) == "QuickTunnelApiError { code: "@ + signed_decimal(
            e.code as int,
        ) + ", message: "@ + quoted(e.message@) + " }"@,
        api_errors_listed(Seq::empty()) == Seq::<char>::empty(),
{
}

/// Appends one business error.
fn push_api_error(s: &mut String, e: &QuickTunnelApiError)
    ensures
        final(s)@ == old(s)@ + api_error_text(*e),
{
    s.append("QuickTunnelApiError { code: ");
    push_signed(s, e.code);
    s.append(", message: ");
    s.append(quote(e.message.as_str()).as_str());
    s.append(" }");
    assert(s@ =~= old(s)@ + api_error_text(*e));
}

/// Appends business errors, a comma and a space between them.
fn push_api_errors(s: &mut String, es: &Vec<QuickTunnelApiError>)
    ensures
        final(s)@ == old(s)@ + api_errors_listed(es@),
{
    let mut i: usize = 0;
    while i < es.len()
        invariant
            i <= es.len(),
            s@ == old(s)@ + api_errors_listed(es@.take(i as int)),
        decreases es.len() - i,
    {
        if i > 0 {
            s.append(", ");
        }
        push_api_error(s, &es[i]);
        proof {
            let before = es@.take(i as int);
            let after = es@.take(i + 1);
            assert(after.drop_last() =~= before);
            assert(after.last() == es@[i as int]);
            assert(s@ =~= old(s)@ + api_errors_listed(after));
        }
        i = i + 1;
    }
    assert(es@.take(i as int) =~= es@);
}

} // verus!
