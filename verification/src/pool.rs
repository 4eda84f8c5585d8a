//! Bounded pool of idle connections to the local origin.
//!
//! Keeping connections alive saves a socket and a connect for each inbound
//! stream. Each idle connection carries the moment of its release. When the
//! pool is asked for a connection, it first drops every one that has been idle
//! for too long, so that none is handed out that the origin may have
//! half-closed already, and none takes up room.
//!
//! A connection must come back only when it is ready for the next request.

use crate::edge::{EdgeIp, EdgeSocket};
use crate::time::nanos;
use std::time::Duration;
use vstd::prelude::*;

verus! {

/// Seconds for which an idle connection is kept. Most servers close theirs
/// after 60 to 75 seconds.
pub const DEFAULT_IDLE_TTL_SECS: u64 = 30;

/// How many idle connections a pool keeps. A connection released beyond that
/// is dropped.
pub const DEFAULT_MAX_IDLE: usize = 16;

/// An idle connection and the reading of the clock at its release.
struct Idle<S> {
    stream: S,
    released_at: Duration,
}

/// Idle connections to one port of the local host. `S` is a connection.
pub struct Pool<S> {
    port: u16,
    idle_ttl: Duration,
    max_idle: usize,
    idle: Vec<Idle<S>>,
}

/// What a request for a connection leads to.
pub enum Acquired<S> {
    /// An idle connection.
    Reused(S),
    /// None is left: connect anew, to this address.
    Connect(EdgeSocket),
}

/// The address of a port of the local host.
pub open spec fn is_loopback(addr: EdgeSocket, port: u16) -> bool {
    &&& addr.ip matches EdgeIp::V4(octets)
    &&& octets@ == seq![127u8, 0, 0, 1]
    &&& addr.port == port
}

/// Whether a connection that was released at `released` (in nanoseconds) may
/// still be handed out at this reading of the clock.
pub open spec fn is_fresh(released: nat, now: Duration, ttl: Duration) -> bool {
    nanos(now) <= released + nanos(ttl)
}

/// The idle connections that may still be handed out, in order.
pub open spec fn fresh_of<S>(idle: Seq<(S, nat)>, now: Duration, ttl: Duration) -> Seq<(S, nat)> {
    idle.filter(|e: (S, nat)| is_fresh(e.1, now, ttl))
}

/// The idle connections after one more has been released.
pub open spec fn after_release<S>(
    idle: Seq<(S, nat)>,
    stream: S,
    now: Duration,
    max_idle: nat,
) -> Seq<(S, nat)> {
    if idle.len() >= max_idle {
        idle
    } else {
        idle.push((stream, nanos(now)))
    }
}

/// What a request for a connection does: it drops the connections that may no
/// longer be handed out, and hands out the last of the others. Where there is
/// none, it asks for a new connection.
pub open spec fn acquires<S>(
    before: Seq<(S, nat)>,
    port: u16,
    now: Duration,
    ttl: Duration,
    got: Acquired<S>,
    after: Seq<(S, nat)>,
) -> bool {
    let kept = fresh_of(before, now, ttl);
    match got {
        Acquired::Reused(stream) => {
            &&& kept.len() > 0
            &&& stream == kept.last().0
            &&& after == kept.drop_last()
        },
        Acquired::Connect(addr) => {
            &&& kept.len() == 0
            &&& is_loopback(addr, port)
            &&& after == Seq::<(S, nat)>::empty()
        },
    }
}

/// What the pool says of its entries.
spec fn idle_view<S>(entries: Seq<Idle<S>>) -> Seq<(S, nat)> {
    entries.map_values(|e: Idle<S>| (e.stream, nanos(e.released_at)))
}

/// Drops the entries that may no longer be handed out.
fn reap<S>(entries: &mut Vec<Idle<S>>, now: Duration, ttl: Duration)
    ensures
        idle_view(final(entries)@) == fresh_of(idle_view(old(entries)@), now, ttl),
        final(entries)@.len() <= old(entries)@.len(),
{
    let ghost before = idle_view(entries@);
    let at: u128 = now.as_nanos();
    let limit: u128 = ttl.as_nanos();
    let ghost mut seen: int = 0;
    let mut i: usize = 0;
    proof {
        reveal(Seq::filter);
        assert(before.take(0) =~= Seq::empty());
        assert(before.skip(0) =~= before);
    }
    while i < entries.len()
        invariant
            before == idle_view(old(entries)@),
            at == nanos(now),
            limit == nanos(ttl),
            0 <= seen <= before.len(),
            i == fresh_of(before.take(seen), now, ttl).len(),
            idle_view(entries@) == fresh_of(before.take(seen), now, ttl) + before.skip(seen),
            entries@.len() == i + (before.len() - seen),
            i <= seen,
        decreases entries@.len() - i,
    {
        let released: u128 = entries[i].released_at.as_nanos();
        proof {
            let kept = fresh_of(before.take(seen), now, ttl);
            assert(idle_view(entries@)[i as int] == before[seen]);
            assert(before.take(seen + 1) =~= before.take(seen).push(before[seen]));
            before.take(seen).lemma_filter_push(
                before[seen],
                |e: (S, nat)| is_fresh(e.1, now, ttl),
            );
            assert(kept.push(before[seen]) + before.skip(seen + 1) =~= kept + before.skip(seen));
        }
        if at.saturating_sub(released) <= limit {
            i = i + 1;
        } else {
            let ghost held = entries@;
            entries.remove(i);
            proof {
                assert(idle_view(entries@) =~= idle_view(held).remove(i as int));
                assert(idle_view(held).remove(i as int) =~= fresh_of(before.take(seen), now, ttl)
                    + before.skip(seen + 1));
            }
        }
        proof {
            seen = seen + 1;
        }
    }
    proof {
        assert(before.take(seen) =~= before);
        assert(before.skip(seen) =~= Seq::empty());
    }
}

impl<S> Pool<S> {
    /// The idle connections, oldest release first where the clock has not gone
    /// back, each with its release in nanoseconds.
    pub closed spec fn idle(&self) -> Seq<(S, nat)> {
        idle_view(self.idle@)
    }

    /// The port that the connections lead to.
    pub closed spec fn port(&self) -> u16 {
        self.port
    }

    /// For how long an idle connection may be handed out.
    pub closed spec fn idle_ttl(&self) -> Duration {
        self.idle_ttl
    }

    /// How many idle connections the pool keeps.
    pub closed spec fn max_idle(&self) -> nat {
        self.max_idle as nat
    }

    /// The pool keeps no more than it may.
    pub open spec fn wf(&self) -> bool {
        self.idle().len() <= self.max_idle()
    }

    /// The same of the entries, held at all times.
    #[verifier::type_invariant]
    spec fn within_bound(self) -> bool {
        self.idle@.len() <= self.max_idle
    }

    /// An empty pool for a port of the local host.
    pub fn new(port: u16) -> (r: Self)
        ensures
            r.wf(),
            r.port() == port,
            r.idle() == Seq::<(S, nat)>::empty(),
            r.max_idle() == DEFAULT_MAX_IDLE,
            nanos(r.idle_ttl()) == DEFAULT_IDLE_TTL_SECS * 1_000_000_000,
    {
        let r = Pool {
            port,
            idle_ttl: Duration::from_secs(DEFAULT_IDLE_TTL_SECS),
            max_idle: DEFAULT_MAX_IDLE,
            idle: Vec::new(),
        };
        assert(r.idle() =~= Seq::<(S, nat)>::empty());
        r
    }

    /// The same pool with another time to live for its idle connections.
    pub fn with_idle_ttl(self, ttl: Duration) -> (r: Self)
        ensures
            r.wf(),
            r.idle_ttl() == ttl,
            r.idle() == self.idle(),
            r.port() == self.port(),
            r.max_idle() == self.max_idle(),
    {
        proof {
            use_type_invariant(&self);
        }
        let mut this = self;
        this.idle_ttl = ttl;
        this
    }

    /// Drops the idle connections that may no longer be handed out, and takes
    /// the newest of the others.
    pub fn acquire(&mut self, now: Duration) -> (r: Acquired<S>)
        ensures
            acquires(
                old(self).idle(),
                old(self).port(),
                now,
                old(self).idle_ttl(),
                r,
                final(self).idle(),
            ),
            r matches Acquired::Connect(addr) ==> {
                &&& addr.port == old(self).port()
                &&& addr.ip matches EdgeIp::V4(octets)
                &&& octets@ == seq![127u8, 0, 0, 1]
                &&& forall|i: int|
                    0 <= i < old(self).idle().len() ==> nanos(now) > (
                    #[trigger] old(self).idle()[i]).1 + nanos(old(self).idle_ttl())
                &&& final(self).idle().len() == 0
            },
            r matches Acquired::Reused(stream) ==> exists|i: int|
                {
                    &&& 0 <= i < old(self).idle().len()
                    &&& (#[trigger] old(self).idle()[i]).0 == stream
                    &&& nanos(now) <= old(self).idle()[i].1 + nanos(old(self).idle_ttl())
                    &&& forall|j: int|
                        i < j < old(self).idle().len() ==> nanos(now) > (
                        #[trigger] old(self).idle()[j]).1 + nanos(old(self).idle_ttl())
                },
            forall|i: int|
                0 <= i < final(self).idle().len() ==> nanos(now) <= (
                #[trigger] final(self).idle()[i]).1 + nanos(old(self).idle_ttl()),
            final(self).wf(),
            final(self).port() == old(self).port(),
            final(self).max_idle() == old(self).max_idle(),
            final(self).idle_ttl() == old(self).idle_ttl(),
    {
        proof {
            use_type_invariant(&*self);
        }
        let mut entries: Vec<Idle<S>> = Vec::new();
        std::mem::swap(&mut entries, &mut self.idle);
        reap(&mut entries, now, self.idle_ttl);
        let newest = entries.pop();
        self.idle = entries;
        match newest {
            Some(entry) => {
                let ghost kept = fresh_of(old(self).idle(), now, old(self).idle_ttl());
                assert(self.idle() =~= kept.drop_last());
                proof {
                    lemma_acquired(
                        old(self).idle(),
                        old(self).port(),
                        now,
                        old(self).idle_ttl(),
                        Acquired::Reused(entry.stream),
                        self.idle(),
                    );
                }
                return Acquired::Reused(entry.stream);
            },
            None => {},
        }
        assert(self.idle() =~= Seq::<(S, nat)>::empty());
        let local: [u8; 4] = [127, 0, 0, 1];
        assert(local@ =~= seq![127u8, 0, 0, 1]);
        proof {
            lemma_acquired(
                old(self).idle(),
                old(self).port(),
                now,
                old(self).idle_ttl(),
                Acquired::<S>::Connect(EdgeSocket { ip: EdgeIp::V4(local), port: self.port }),
                self.idle(),
            );
        }
        Acquired::Connect(EdgeSocket { ip: EdgeIp::V4(local), port: self.port })
    }

    /// Gives a connection back. A full pool drops it.
    pub fn release(&mut self, stream: S, now: Duration)
        ensures
            final(self).idle() == after_release(
                old(self).idle(),
                stream,
                now,
                old(self).max_idle(),
            ),
            old(self).idle().len() < old(self).max_idle() ==> final(self).idle()
                == old(self).idle().push((stream, nanos(now))),
            old(self).idle().len() >= old(self).max_idle() ==> final(self).idle()
                == old(self).idle(),
            final(self).wf(),
            final(self).port() == old(self).port(),
            final(self).max_idle() == old(self).max_idle(),
            final(self).idle_ttl() == old(self).idle_ttl(),
    {
        proof {
            use_type_invariant(&*self);
        }
        if self.idle.len() >= self.max_idle {
            return;
        }
        let mut entries: Vec<Idle<S>> = Vec::new();
        std::mem::swap(&mut entries, &mut self.idle);
        entries.push(Idle { stream, released_at: now });
        self.idle = entries;
        assert(self.idle() =~= old(self).idle().push((stream, nanos(now))));
    }
}

/// The releases are in order: the oldest comes first.
pub open spec fn in_order<S>(idle: Seq<(S, nat)>) -> bool {
    forall|i: int, j: int|
        #![trigger idle[i], idle[j]]
        0 <= i <= j < idle.len() ==> idle[i].1 <= idle[j].1
}

/// A connection that is released to a pool with room, and asked for again
/// before its time is over, is the one that comes back. The pool is then left
/// as it was before the release, less the connections whose time is over.
pub proof fn lemma_release_then_acquire<S>(
    idle: Seq<(S, nat)>,
    stream: S,
    released: Duration,
    max_idle: nat,
    port: u16,
    now: Duration,
    ttl: Duration,
    got: Acquired<S>,
    after: Seq<(S, nat)>,
)
    requires
        idle.len() < max_idle,
        nanos(now) <= nanos(released) + nanos(ttl),
        acquires(after_release(idle, stream, released, max_idle), port, now, ttl, got, after),
    ensures
        got == Acquired::Reused(stream),
        after == fresh_of(idle, now, ttl),
{
    let entry = (stream, nanos(released));
    idle.lemma_filter_push(entry, |e: (S, nat)| is_fresh(e.1, now, ttl));
    assert(fresh_of(idle, now, ttl).push(entry).drop_last() =~= fresh_of(idle, now, ttl));
}

/// A request for a connection, entry by entry. A new connection is asked for
/// only where the time of every idle one is over, and then to the pool's own
/// port of the local host. Otherwise the one that comes back is the last whose
/// time is not over; the pool keeps those before it whose time is not over,
/// and no others.
pub proof fn lemma_acquired<S>(
    before: Seq<(S, nat)>,
    port: u16,
    now: Duration,
    ttl: Duration,
    got: Acquired<S>,
    after: Seq<(S, nat)>,
)
    requires
        acquires(before, port, now, ttl, got, after),
    ensures
        got matches Acquired::Connect(addr) ==> {
            &&& addr.port == port
            &&& addr.ip matches EdgeIp::V4(octets)
            &&& octets@ == seq![127u8, 0, 0, 1]
            &&& forall|i: int|
                0 <= i < before.len() ==> nanos(now) > (#[trigger] before[i]).1 + nanos(ttl)
            &&& after.len() == 0
        },
        got matches Acquired::Reused(stream) ==> exists|i: int|
            {
                &&& 0 <= i < before.len()
                &&& (#[trigger] before[i]).0 == stream
                &&& nanos(now) <= before[i].1 + nanos(ttl)
                &&& after == fresh_of(before.take(i), now, ttl)
                &&& forall|j: int|
                    i < j < before.len() ==> nanos(now) > (#[trigger] before[j]).1 + nanos(ttl)
            },
        forall|i: int|
            0 <= i < after.len() ==> nanos(now) <= (#[trigger] after[i]).1 + nanos(ttl)
                && before.contains(after[i]),
    decreases before.len(),
{
    let kept = fresh_of(before, now, ttl);
    lemma_acquire_reaps(before, port, now, ttl, got, after);
    assert forall|i: int| 0 <= i < after.len() implies nanos(now) <= (#[trigger] after[i]).1
        + nanos(ttl) && before.contains(after[i]) by {
        assert(is_fresh(after[i].1, now, ttl));
    }
    if before.len() == 0 {
        reveal(Seq::filter);
    } else {
        let rest = before.drop_last();
        lemma_fresh_add_up(rest, seq![before.last()], now, ttl);
        lemma_fresh_one(before.last(), now, ttl);
        assert(rest + seq![before.last()] =~= before);
        if is_fresh(before.last().1, now, ttl) {
            let i = before.len() - 1;
            assert(kept.drop_last() =~= fresh_of(rest, now, ttl));
            assert(before.take(i) =~= rest);
            assert(before[i] == before.last());
        } else {
            assert(kept =~= fresh_of(rest, now, ttl));
            lemma_acquired(rest, port, now, ttl, got, after);
            match got {
                Acquired::Reused(stream) => {
                    let i = choose|i: int|
                        {
                            &&& 0 <= i < rest.len()
                            &&& (#[trigger] rest[i]).0 == stream
                            &&& nanos(now) <= rest[i].1 + nanos(ttl)
                            &&& after == fresh_of(rest.take(i), now, ttl)
                            &&& forall|j: int|
                                i < j < rest.len() ==> nanos(now) > (#[trigger] rest[j]).1 + nanos(
                                    ttl,
                                )
                        };
                    assert(before[i] == rest[i]);
                    assert(before.take(i) =~= rest.take(i));
                    assert forall|j: int| i < j < before.len() implies nanos(now) > (
                    #[trigger] before[j]).1 + nanos(ttl) by {
                        if j < rest.len() {
                            assert(before[j] == rest[j]);
                        }
                    }
                },
                Acquired::Connect(_) => {
                    assert forall|j: int| 0 <= j < before.len() implies nanos(now) > (
                    #[trigger] before[j]).1 + nanos(ttl) by {
                        if j < rest.len() {
                            assert(before[j] == rest[j]);
                        }
                    }
                },
            }
        }
    }
}

/// Reaping goes entry by entry: what is left of two stretches together is what
/// is left of the first, followed by what is left of the second.
pub proof fn lemma_fresh_add_up<S>(
    x: Seq<(S, nat)>,
    y: Seq<(S, nat)>,
    now: Duration,
    ttl: Duration,
)
    ensures
        fresh_of(x + y, now, ttl) == fresh_of(x, now, ttl) + fresh_of(y, now, ttl),
{
    Seq::filter_distributes_over_add(x, y, |e: (S, nat)| is_fresh(e.1, now, ttl));
}

/// Reaping keeps a single entry, as it is, when it has been idle for no longer
/// than the time to live, and drops it otherwise.
pub proof fn lemma_fresh_one<S>(entry: (S, nat), now: Duration, ttl: Duration)
    ensures
        nanos(now) <= entry.1 + nanos(ttl) ==> fresh_of(seq![entry], now, ttl) == seq![entry],
        nanos(now) > entry.1 + nanos(ttl) ==> fresh_of(seq![entry], now, ttl).len() == 0,
        fresh_of(Seq::<(S, nat)>::empty(), now, ttl).len() == 0,
{
    reveal(Seq::filter);
    let one = seq![entry];
    assert(one.drop_last() =~= Seq::empty());
    assert(fresh_of(one.drop_last(), now, ttl) =~= Seq::empty());
    assert(Seq::<(S, nat)>::empty().push(entry) =~= one);
}

/// A release to a pool with room puts the connection last, with the reading of
/// the clock, and changes nothing else; a full pool stays as it is.
pub proof fn lemma_release_appends<S>(
    idle: Seq<(S, nat)>,
    stream: S,
    now: Duration,
    max_idle: nat,
)
    ensures
        idle.len() < max_idle ==> {
            let after = after_release(idle, stream, now, max_idle);
            &&& after.len() == idle.len() + 1
            &&& after.last() == (stream, nanos(now))
            &&& after.drop_last() == idle
        },
        idle.len() >= max_idle ==> after_release(idle, stream, now, max_idle) == idle,
{
    if idle.len() < max_idle {
        assert(idle.push((stream, nanos(now))).drop_last() =~= idle);
    }
}

/// A connection released to a full pool is not kept.
pub proof fn lemma_full_pool_drops<S>(idle: Seq<(S, nat)>, stream: S, now: Duration, max_idle: nat)
    requires
        idle.len() == max_idle,
    ensures
        after_release(idle, stream, now, max_idle) == idle,
{
}

/// A connection that is handed out was idle in the pool, and for no longer
/// than the time to live.
pub proof fn lemma_never_stale<S>(
    before: Seq<(S, nat)>,
    port: u16,
    now: Duration,
    ttl: Duration,
    stream: S,
    after: Seq<(S, nat)>,
)
    requires
        acquires(before, port, now, ttl, Acquired::Reused(stream), after),
    ensures
        exists|i: int|
            0 <= i < before.len() && (#[trigger] before[i]).0 == stream && is_fresh(
                before[i].1,
                now,
                ttl,
            ),
{
    let kept = fresh_of(before, now, ttl);
    lemma_fresh_are_fresh(before, now, ttl, kept.len() - 1);
}

/// After a request for a connection no connection is left whose time is over,
/// and every one that is left was there before.
pub proof fn lemma_acquire_reaps<S>(
    before: Seq<(S, nat)>,
    port: u16,
    now: Duration,
    ttl: Duration,
    got: Acquired<S>,
    after: Seq<(S, nat)>,
)
    requires
        acquires(before, port, now, ttl, got, after),
    ensures
        forall|i: int|
            0 <= i < after.len() ==> is_fresh((#[trigger] after[i]).1, now, ttl)
                && before.contains(after[i]),
{
    let kept = fresh_of(before, now, ttl);
    assert forall|i: int| 0 <= i < after.len() implies is_fresh((#[trigger] after[i]).1, now, ttl)
        && before.contains(after[i]) by {
        assert(after[i] == kept[i]);
        lemma_fresh_are_fresh(before, now, ttl, i);
    }
}

/// The connections that may still be handed out are fresh, and are idle
/// connections.
proof fn lemma_fresh_are_fresh<S>(idle: Seq<(S, nat)>, now: Duration, ttl: Duration, i: int)
    requires
        0 <= i < fresh_of(idle, now, ttl).len(),
    ensures
        is_fresh(fresh_of(idle, now, ttl)[i].1, now, ttl),
        idle.contains(fresh_of(idle, now, ttl)[i]),
{
    let fresh = |e: (S, nat)| is_fresh(e.1, now, ttl);
    idle.lemma_filter_pred(fresh, i);
    idle.lemma_filter_contains_rev(fresh, fresh_of(idle, now, ttl)[i]);
}

/// While the clock does not go back, releases stay in order: a request for a
/// connection keeps the order, and so does a release.
pub proof fn lemma_order_is_kept<S>(
    before: Seq<(S, nat)>,
    port: u16,
    now: Duration,
    ttl: Duration,
    got: Acquired<S>,
    after: Seq<(S, nat)>,
    stream: S,
    max_idle: nat,
)
    requires
        in_order(before),
        before.len() > 0 ==> before.last().1 <= nanos(now),
        acquires(before, port, now, ttl, got, after),
    ensures
        in_order(after),
        in_order(after_release(before, stream, now, max_idle)),
{
    lemma_fresh_in_order(before, now, ttl);
}

/// Reaping keeps the releases in order.
proof fn lemma_fresh_in_order<S>(idle: Seq<(S, nat)>, now: Duration, ttl: Duration)
    requires
        in_order(idle),
    ensures
        in_order(fresh_of(idle, now, ttl)),
    decreases idle.len(),
{
    reveal(Seq::filter);
    if idle.len() > 0 {
        let rest = idle.drop_last();
        lemma_fresh_in_order(rest, now, ttl);
        let kept = fresh_of(rest, now, ttl);
        assert forall|i: int| 0 <= i < kept.len() implies (#[trigger] kept[i]).1
            <= idle.last().1 by {
            lemma_fresh_are_fresh(rest, now, ttl, i);
        }
    }
}

/// With the releases in order, a stale newest connection means that all are
/// stale: the pool is emptied and a new connection is asked for.
pub proof fn lemma_stale_pool_empties<S>(
    before: Seq<(S, nat)>,
    port: u16,
    now: Duration,
    ttl: Duration,
    got: Acquired<S>,
    after: Seq<(S, nat)>,
)
    requires
        in_order(before),
        before.len() > 0,
        !is_fresh(before.last().1, now, ttl),
        acquires(before, port, now, ttl, got, after),
    ensures
        got is Connect,
        after.len() == 0,
{
    if fresh_of(before, now, ttl).len() > 0 {
        lemma_fresh_are_fresh(before, now, ttl, 0);
    }
}

} // verus!
