//! The idle connections of the DNS-over-TCP resolver pool: a reused
//! connection must be fresh, of the current network generation and of the
//! current tunnel session; a failed lookup evicts every idle connection so
//! a new resolver can be dialed; at most sixteen connections, at most two
//! per server, stay idle.

use vstd::prelude::*;

use std::time::Instant;

use crate::clock::{elapsed_nanos, instant_now, nanos_between};
use crate::net::SocketAddress;

verus! {

/// The most idle connections kept.
pub const MAX_IDLE: usize = 16;

/// The most idle connections kept for one server.
pub const MAX_IDLE_PER_SERVER: usize = 2;

/// An idle connection older than this, 30 s, is dropped.
pub const IDLE_TIMEOUT_NANOS: u128 = 30_000_000_000;

/// An idle DNS connection and what it was made for.
pub struct IdleStream<S> {
    pub session_generation: Option<u64>,
    pub server: SocketAddress,
    pub stream: S,
    pub used: Instant,
    pub generation: Option<u64>,
}

/// What the pool knows of an idle connection.
pub struct IdleView<S> {
    pub session_generation: Option<u64>,
    pub server: SocketAddress,
    pub used: Instant,
    pub generation: Option<u64>,
    pub stream: S,
}

impl<S> IdleStream<S> {
    pub open spec fn view(&self) -> IdleView<S> {
        IdleView {
            session_generation: self.session_generation,
            server: self.server,
            used: self.used,
            generation: self.generation,
            stream: self.stream,
        }
    }
}

/// An idle connection may still serve: fresh at `now`, of the current
/// network generation and tunnel session.
pub open spec fn still_usable<S>(
    entry: IdleView<S>,
    now: Instant,
    generation: Option<u64>,
    session_generation: Option<u64>,
) -> bool {
    &&& elapsed_nanos(now, entry.used) < IDLE_TIMEOUT_NANOS
    &&& entry.generation == generation
    &&& entry.session_generation == session_generation
}

/// The number of idle connections to `server`.
pub open spec fn server_count<S>(entries: Seq<IdleView<S>>, server: SocketAddress) -> nat
    decreases entries.len(),
{
    if entries.len() == 0 {
        0
    } else {
        server_count(entries.drop_last(), server) + if entries.last().server == server {
            1nat
        } else {
            0
        }
    }
}

/// The idle connections of the DNS-over-TCP pool.
pub struct IdleDnsPool<S> {
    entries: Vec<IdleStream<S>>,
}

impl<S> IdleDnsPool<S> {
    pub closed spec fn view(&self) -> Seq<IdleView<S>> {
        self.entries@.map_values(|entry: IdleStream<S>| entry.view())
    }

    /// At most `MAX_IDLE` connections stay idle.
    pub open spec fn well_formed(&self) -> bool {
        self.view().len() <= MAX_IDLE
    }

    pub fn new() -> (pool: Self)
        ensures
            pool.well_formed(),
            pool.view().len() == 0,
    {
        let pool = IdleDnsPool { entries: Vec::new() };
        assert(pool.view() =~= Seq::<IdleView<S>>::empty());
        pool
    }

    pub fn len(&self) -> (count: usize)
        ensures
            count == self.view().len(),
    {
        self.entries.len()
    }

    /// Drops every idle connection that can no longer serve at `now`.
    pub fn prune_at(&mut self, now: Instant, generation: Option<u64>, session_generation: Option<u64>)
        requires
            old(self).well_formed(),
        ensures
            final(self).well_formed(),
            final(self).view() == old(self).view().filter(usable_at(now, generation, session_generation)),
    {
        let ghost keep = usable_at(now, generation, session_generation);
        let ghost before = self.view();
        let mut index: usize = 0;
        let ghost mut processed: int = 0;
        while index < self.entries.len()
            invariant
                keep == usable_at::<S>(now, generation, session_generation),
                before.len() <= MAX_IDLE,
                0 <= processed <= before.len(),
                index <= self.view().len(),
                self.view().subrange(0, index as int) == before.take(processed).filter(keep),
                self.view().subrange(index as int, self.view().len() as int) == before.skip(processed),
            decreases self.entries@.len() - index,
        {
            proof {
                reveal(Seq::filter);
                assert(self.view().subrange(index as int, self.view().len() as int).len() > 0);
                assert(before.skip(processed).len() > 0);
                assert(processed < before.len());
                assert(before.take(processed + 1).drop_last() =~= before.take(processed));
                assert(self.view().subrange(index as int, self.view().len() as int)[0] == self.view()[index as int]);
                assert(before.skip(processed)[0] == before[processed]);
                assert(before.take(processed + 1).last() == before[processed]);
            }
            let ghost current = self.view();
            let ghost rest = current.subrange(index as int, current.len() as int);
            assert(rest.drop_first() =~= current.subrange(index + 1, current.len() as int));
            assert(before.skip(processed).drop_first() =~= before.skip(processed + 1));
            let usable = nanos_between(&now, &self.entries[index].used) < IDLE_TIMEOUT_NANOS
                && self.entries[index].generation == generation && self.entries[index].session_generation
                == session_generation;
            if usable {
                index = index + 1;
                proof {
                    processed = processed + 1;
                    assert(self.view().subrange(0, index as int) =~= current.subrange(0, index - 1).push(
                        current[index - 1],
                    ));
                    assert(self.view().subrange(index as int, self.view().len() as int) =~= rest.drop_first());
                }
            } else {
                self.entries.remove(index);
                proof {
                    processed = processed + 1;
                    assert(self.view() =~= current.remove(index as int));
                    assert(self.view().subrange(0, index as int) =~= current.subrange(0, index as int));
                    assert(self.view().subrange(index as int, self.view().len() as int) =~= rest.drop_first());
                }
            }
        }
        proof {
            assert(before.skip(processed).len() == 0);
            assert(before.take(processed) =~= before);
            assert(self.view().subrange(0, index as int) =~= self.view());
            before.lemma_filter_len(keep);
        }
    }

    /// The connections that can no longer serve are dropped at the current
    /// time.
    pub fn prune(&mut self, generation: Option<u64>, session_generation: Option<u64>)
        requires
            old(self).well_formed(),
        ensures
            final(self).well_formed(),
            exists|now: Instant|
                final(self).view() == old(self).view().filter(
                    #[trigger] usable_at(now, generation, session_generation),
                ),
    {
        let now = instant_now();
        self.prune_at(now, generation, session_generation);
    }

    /// An idle connection to `server` that can still serve at `now`, if
    /// any: the connections that can no longer serve are dropped, and the
    /// first one to `server` is taken out, the last one taking its place.
    /// When none is idle, every idle connection is evicted so the new one
    /// that is about to be dialed has room.
    pub fn take_for_at(
        &mut self,
        now: Instant,
        server: SocketAddress,
        generation: Option<u64>,
        session_generation: Option<u64>,
    ) -> (stream: Option<S>)
        requires
            old(self).well_formed(),
        ensures
            final(self).well_formed(),
            ({
                let pruned = old(self).view().filter(usable_at(now, generation, session_generation));
                match first_for_server(pruned, server) {
                    Some(index) => stream == Some(pruned[index].stream) && final(self).view() == pruned.update(
                        index,
                        pruned.last(),
                    ).drop_last(),
                    None => stream is None && final(self).view().len() == 0,
                }
            }),
    {
        self.prune_at(now, generation, session_generation);
        let ghost pruned = self.view();
        let mut index: usize = 0;
        while index < self.entries.len()
            invariant
                index <= self.view().len(),
                pruned == self.view(),
                pruned.len() <= MAX_IDLE,
                pruned == old(self).view().filter(usable_at(now, generation, session_generation)),
                forall|i: int| 0 <= i < index ==> (#[trigger] pruned[i]).server != server,
            decreases self.entries@.len() - index,
        {
            if self.entries[index].server == server {
                proof {
                    lemma_first_for_server_is(pruned, server, index as int);
                }
                let entry = self.entries.swap_remove(index);
                assert(self.view() =~= pruned.update(index as int, pruned.last()).drop_last());
                return Some(entry.stream);
            }
            index = index + 1;
        }
        proof {
            lemma_no_server(pruned, server);
        }
        self.entries.clear();
        assert(self.view() =~= Seq::<IdleView<S>>::empty());
        None
    }

    /// An idle connection to `server` that can still serve, as
    /// `take_for_at` finds it at the current time.
    pub fn take_for(
        &mut self,
        server: SocketAddress,
        generation: Option<u64>,
        session_generation: Option<u64>,
    ) -> (stream: Option<S>)
        requires
            old(self).well_formed(),
        ensures
            final(self).well_formed(),
            exists|now: Instant| {
                let pruned = #[trigger] old(self).view().filter(usable_at(now, generation, session_generation));
                match first_for_server(pruned, server) {
                    Some(index) => stream == Some(pruned[index].stream) && final(self).view() == pruned.update(
                        index,
                        pruned.last(),
                    ).drop_last(),
                    None => stream is None && final(self).view().len() == 0,
                }
            },
    {
        let now = instant_now();
        self.take_for_at(now, server, generation, session_generation)
    }

    /// Keeps a connection idle after a successful lookup, unless sixteen
    /// are idle or two to its server are; then it is closed.
    pub fn park(&mut self, entry: IdleStream<S>) -> (parked: bool)
        requires
            old(self).well_formed(),
        ensures
            final(self).well_formed(),
            parked == (old(self).view().len() < MAX_IDLE && server_count(old(self).view(), entry.server)
                < MAX_IDLE_PER_SERVER),
            parked ==> final(self).view() == old(self).view().push(entry.view()),
            !parked ==> final(self).view() == old(self).view(),
    {
        let ghost entry_view = entry.view();
        if self.entries.len() >= MAX_IDLE {
            return false;
        }
        let mut count: usize = 0;
        let mut index: usize = 0;
        while index < self.entries.len()
            invariant
                index <= self.view().len(),
                count == server_count(self.view().take(index as int), entry.server),
                count <= index,
            decreases self.entries@.len() - index,
        {
            proof {
                assert(self.view().take(index + 1).drop_last() =~= self.view().take(index as int));
            }
            if self.entries[index].server == entry.server {
                count = count + 1;
            }
            index = index + 1;
        }
        assert(self.view().take(self.view().len() as int) =~= self.view());
        if count >= MAX_IDLE_PER_SERVER {
            return false;
        }
        let ghost before = self.view();
        self.entries.push(entry);
        assert(self.view() =~= before.push(entry_view));
        true
    }

    /// Closes every idle connection.
    pub fn clear(&mut self)
        ensures
            final(self).well_formed(),
            final(self).view().len() == 0,
    {
        self.entries.clear();
        assert(self.view() =~= Seq::<IdleView<S>>::empty());
    }
}

/// Law: a parked connection that can still serve is reused. Once a
/// connection is parked, taking one for its server at a time when it is
/// still fresh, in the same network generation and tunnel session, hands
/// out an idle connection to that server rather than evicting the pool.
pub proof fn lemma_parked_stream_is_reused<S>(
    entries: Seq<IdleView<S>>,
    parked: IdleView<S>,
    now: Instant,
    generation: Option<u64>,
    session_generation: Option<u64>,
)
    requires
        still_usable(parked, now, generation, session_generation),
    ensures
        first_for_server(
            entries.push(parked).filter(usable_at(now, generation, session_generation)),
            parked.server,
        ) is Some,
{
    broadcast use vstd::seq_lib::group_filter_ensures;

    let all = entries.push(parked);
    let keep = usable_at::<S>(now, generation, session_generation);
    let pruned = all.filter(keep);
    assert(all[all.len() - 1] == parked);
    all.lemma_filter_contains(keep, all.len() - 1);
    assert(pruned.contains(parked));
    let i = choose|i: int| 0 <= i < pruned.len() && pruned[i] == parked;
    assert(pruned[i].server == parked.server);
}

/// The predicate of `still_usable` at fixed time, generation and session.
pub open spec fn usable_at<S>(now: Instant, generation: Option<u64>, session_generation: Option<u64>) -> spec_fn(IdleView<S>) -> bool {
    |entry: IdleView<S>| still_usable(entry, now, generation, session_generation)
}

/// The first idle connection to `server`, if any.
pub open spec fn first_for_server<S>(entries: Seq<IdleView<S>>, server: SocketAddress) -> Option<int> {
    if exists|i: int| 0 <= i < entries.len() && #[trigger] entries[i].server == server {
        Some(
            choose|i: int|
                0 <= i < entries.len() && #[trigger] entries[i].server == server && forall|j: int|
                    0 <= j < i ==> (#[trigger] entries[j]).server != server,
        )
    } else {
        None
    }
}

proof fn lemma_first_for_server_is<S>(entries: Seq<IdleView<S>>, server: SocketAddress, index: int)
    requires
        0 <= index < entries.len(),
        entries[index].server == server,
        forall|j: int| 0 <= j < index ==> (#[trigger] entries[j]).server != server,
    ensures
        first_for_server(entries, server) == Some(index),
{
    assert(entries[index].server == server);
    let chosen = choose|i: int|
        0 <= i < entries.len() && #[trigger] entries[i].server == server && forall|j: int|
            0 <= j < i ==> (#[trigger] entries[j]).server != server;
    assert(0 <= chosen < entries.len() && entries[chosen].server == server && forall|j: int|
        0 <= j < chosen ==> (#[trigger] entries[j]).server != server);
    if chosen < index {
    } else if chosen > index {
        assert(entries[index].server != server);
    }
}

proof fn lemma_no_server<S>(entries: Seq<IdleView<S>>, server: SocketAddress)
    requires
        forall|i: int| 0 <= i < entries.len() ==> (#[trigger] entries[i]).server != server,
    ensures
        first_for_server(entries, server) is None,
{
}

/// What a DNS-over-TCP query does after one exchange.
#[derive(Debug, Clone, Copy, PartialEq, Eq, Structural)]
pub enum ExchangeStep {
    /// The exchange answered; the reply is checked next.
    Answered,
    /// The exchange failed on a reused idle stream, which may have gone
    /// stale: dial a fresh stream and exchange once more.
    Redial,
    /// The exchange failed on a freshly dialed stream: the query fails.
    GiveUp,
}

/// The step after an exchange that succeeded or not, on a stream that was
/// reused from the idle pool or freshly dialed.
pub open spec fn spec_exchange_step(succeeded: bool, reused: bool) -> ExchangeStep {
    if succeeded {
        ExchangeStep::Answered
    } else if reused {
        ExchangeStep::Redial
    } else {
        ExchangeStep::GiveUp
    }
}

/// Decides the step after an exchange.
pub fn exchange_step(succeeded: bool, reused: bool) -> (step: ExchangeStep)
    ensures
        step == spec_exchange_step(succeeded, reused),
{
    if succeeded {
        ExchangeStep::Answered
    } else if reused {
        ExchangeStep::Redial
    } else {
        ExchangeStep::GiveUp
    }
}

/// Law: a query is retried at most once. Only a failure on a reused stream
/// redials, and the redialed stream is fresh, so its failure gives up.
pub proof fn lemma_at_most_one_redial(first_succeeded: bool, reused: bool, second_succeeded: bool)
    ensures
        spec_exchange_step(first_succeeded, reused) == ExchangeStep::Redial ==> spec_exchange_step(
            second_succeeded,
            false,
        ) != ExchangeStep::Redial,
{
}

/// An answer is returned only when the platform still reports the network
/// generation the query started on, and the stream belongs to the tunnel
/// session the dialer is on now; otherwise the stream was cut by a change
/// and the query fails as closed.
pub fn answer_still_current(
    started_generation: Option<u64>,
    current_generation: Option<u64>,
    stream_session: Option<u64>,
    dialer_session: Option<u64>,
) -> (current: bool)
    ensures
        current == (started_generation == current_generation && stream_session == dialer_session),
{
    let same_network = match (started_generation, current_generation) {
        (Some(started), Some(now)) => started == now,
        (None, None) => true,
        _ => false,
    };
    let same_session = match (stream_session, dialer_session) {
        (Some(stream), Some(dialer)) => stream == dialer,
        (None, None) => true,
        _ => false,
    };
    same_network && same_session
}

} // verus!
