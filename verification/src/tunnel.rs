//! The record of one tunnel on the relay: its name, its filter, its breaker
//! and the table of requests that wait for a response.
//!
//! A tunnel is one value with one owner. Whoever shares it between tasks
//! puts it behind a lock and calls in here while holding the lock; nothing
//! in here waits.

use vstd::prelude::*;
use crate::circuit_breaker::{BreakerState, CircuitBreaker};
use crate::frame::TunnelResponse;
use crate::ip_filter::IpFilter;

verus! {

#[verifier::external_type_specification]
#[verifier::external_body]
#[verifier::reject_recursive_types(K)]
#[verifier::reject_recursive_types(V)]
#[verifier::reject_recursive_types(S)]
pub struct ExDashMap<K, V, S>(dashmap::DashMap<K, V, S>);

#[verifier::external_type_specification]
#[verifier::external_body]
#[verifier::reject_recursive_types(T)]
pub struct ExOneshotSender<T>(tokio::sync::oneshot::Sender<T>);

#[verifier::external_type_specification]
#[verifier::external_body]
#[verifier::reject_recursive_types(T)]
pub struct ExMpscSender<T>(tokio::sync::mpsc::Sender<T>);

/// The ids under which a table of pending requests holds a receptacle.
pub uninterp spec fn pending_ids(
    table: dashmap::DashMap<String, tokio::sync::oneshot::Sender<TunnelResponse>>,
) -> Set<Seq<char>>;

/// `DashMap::new`: a map that holds nothing.
#[verifier::external_body]
fn table_new() -> (table: dashmap::DashMap<String, tokio::sync::oneshot::Sender<TunnelResponse>>)
    ensures
        pending_ids(table) == Set::<Seq<char>>::empty(),
{
    dashmap::DashMap::new()
}

/// `DashMap::contains_key`: whether the map holds an entry under the key.
#[verifier::external_body]
fn table_contains(
    table: &dashmap::DashMap<String, tokio::sync::oneshot::Sender<TunnelResponse>>,
    id: &str,
) -> (r: bool)
    ensures
        r == pending_ids(*table).contains(id@),
{
    table.contains_key(id)
}

/// `DashMap::insert`: puts the value under the key and hands back the value
/// that was there before, if there was one.
#[verifier::external_body]
fn table_insert(
    table: &mut dashmap::DashMap<String, tokio::sync::oneshot::Sender<TunnelResponse>>,
    id: String,
    receptacle: tokio::sync::oneshot::Sender<TunnelResponse>,
) -> (before: Option<tokio::sync::oneshot::Sender<TunnelResponse>>)
    ensures
        pending_ids(*final(table)) == pending_ids(*old(table)).insert(id@),
        before is Some <==> pending_ids(*old(table)).contains(id@),
{
    table.insert(id, receptacle)
}

/// `DashMap::remove`: takes the entry under the key out of the map and hands
/// it back, if there was one.
#[verifier::external_body]
fn table_remove(
    table: &mut dashmap::DashMap<String, tokio::sync::oneshot::Sender<TunnelResponse>>,
    id: &str,
) -> (entry: Option<(String, tokio::sync::oneshot::Sender<TunnelResponse>)>)
    ensures
        pending_ids(*final(table)) == pending_ids(*old(table)).remove(id@),
        entry is Some <==> pending_ids(*old(table)).contains(id@),
{
    table.remove(id)
}

/// `DashMap::clear`: takes every entry out of the map.
#[verifier::external_body]
fn table_clear(
    table: &mut dashmap::DashMap<String, tokio::sync::oneshot::Sender<TunnelResponse>>,
)
    ensures
        pending_ids(*final(table)) == Set::<Seq<char>>::empty(),
{
    table.clear()
}

/// `DashMap::len`: how many entries the map holds.
#[verifier::external_body]
fn table_len(
    table: &dashmap::DashMap<String, tokio::sync::oneshot::Sender<TunnelResponse>>,
) -> (n: usize)
    ensures
        pending_ids(*table).finite() ==> n == pending_ids(*table).len(),
{
    table.len()
}

/// `oneshot::Sender::send`: hands the response to the receiver of the
/// channel. Where the receiver is gone, the response comes back.
#[verifier::external_body]
fn offer(
    receptacle: tokio::sync::oneshot::Sender<TunnelResponse>,
    response: TunnelResponse,
) -> (r: Result<(), TunnelResponse>)
    ensures
        r matches Err(back) ==> back == response,
{
    receptacle.send(response)
}

/// `mpsc::Sender::is_closed`: whether the receiver of the channel is gone.
#[verifier::external_body]
fn client_closed(client: &tokio::sync::mpsc::Sender<Vec<u8>>) -> bool {
    client.is_closed()
}

/// What became of a response that arrived for a tunnel.
#[derive(Debug)]
pub enum Delivery {
    /// The response was handed to the request that waited for it.
    Delivered,
    /// No request waits under that id: the response came late or twice.
    NoWaiter,
    /// A request waited under that id but had stopped listening; the
    /// response is handed back.
    WaiterGone(TunnelResponse),
}

/// The state of a tunnel as a value.
pub struct TunnelState {
    pub subdomain: Seq<char>,
    pub created_at: u64,
    /// The ids of the requests that wait for a response.
    pub pending: Set<Seq<char>>,
    pub breaker: BreakerState,
    /// How many requests were entered into the table.
    pub dispatched: nat,
    /// How many were taken out by their response.
    pub completed: nat,
    /// How many were taken out because they timed out or failed.
    pub abandoned: nat,
    /// The primary client: the sender of the tunnel's control channel.
    pub primary: tokio::sync::mpsc::Sender<Vec<u8>>,
    /// The load-balanced clients that are connected, in the order in which
    /// they were added.
    pub clients: Seq<tokio::sync::mpsc::Sender<Vec<u8>>>,
    /// The turn of the round robin.
    pub turn: usize,
    /// The number of the next request.
    pub sequence: u64,
    /// The filter that public callers must pass.
    pub filter: IpFilter,
}

impl TunnelState {
    /// The table holds no more requests than were entered and neither
    /// completed nor abandoned.
    pub open spec fn accounted(self) -> bool {
        &&& self.pending.finite()
        &&& self.pending.len() + self.completed + self.abandoned <= self.dispatched
    }
}

/// An active tunnel.
pub struct Tunnel {
    subdomain: String,
    tx: tokio::sync::mpsc::Sender<Vec<u8>>,
    created_at: u64,
    pending_requests: dashmap::DashMap<String, tokio::sync::oneshot::Sender<TunnelResponse>>,
    ip_filter: IpFilter,
    circuit_breaker: CircuitBreaker,
    lb_clients: Vec<tokio::sync::mpsc::Sender<Vec<u8>>>,
    lb_counter: usize,
    sequence: u64,
    dispatched: Ghost<nat>,
    completed: Ghost<nat>,
    abandoned: Ghost<nat>,
}

impl View for Tunnel {
    type V = TunnelState;

    closed spec fn view(&self) -> TunnelState {
        TunnelState {
            subdomain: self.subdomain@,
            created_at: self.created_at,
            pending: pending_ids(self.pending_requests),
            breaker: self.circuit_breaker@,
            dispatched: self.dispatched@,
            completed: self.completed@,
            abandoned: self.abandoned@,
            primary: self.tx,
            clients: self.lb_clients@,
            turn: self.lb_counter,
            sequence: self.sequence,
            filter: self.ip_filter,
        }
    }
}

/// The clients that stay when those that are flagged as closed leave: the
/// clients whose flag is not set, in their order. A client without a flag
/// stays.
pub open spec fn open_clients<T>(clients: Seq<T>, closed: Seq<bool>) -> Seq<T>
    decreases clients.len(),
{
    if clients.len() == 0 {
        clients
    } else {
        let before = open_clients(clients.drop_last(), closed);
        if clients.len() - 1 < closed.len() && closed[clients.len() - 1] {
            before
        } else {
            before.push(clients.last())
        }
    }
}

/// No more clients stay than there were, and all stay where none is
/// flagged.
pub proof fn lemma_open_clients<T>(clients: Seq<T>, closed: Seq<bool>)
    ensures
        open_clients(clients, closed).len() <= clients.len(),
        (forall|i: int| 0 <= i < closed.len() ==> !closed[i]) ==> open_clients(clients, closed)
            == clients,
    decreases clients.len(),
{
    if clients.len() > 0 {
        lemma_open_clients(clients.drop_last(), closed);
        if forall|i: int| 0 <= i < closed.len() ==> !closed[i] {
            assert(clients.drop_last().push(clients.last()) == clients);
        }
    }
}

/// Which client the frame of turn `turn` goes to, where `clients` are
/// connected: `None` for the primary one, which serves while no more than
/// one client is connected, else each in its turn.
pub open spec fn client_of_turn(clients: nat, turn: usize) -> Option<int> {
    if clients <= 1 {
        None
    } else {
        Some(turn as int % clients as int)
    }
}

/// The turn after `turn`; the count starts over at the largest `usize`.
pub open spec fn next_turn(turn: usize) -> usize {
    if turn == usize::MAX {
        0
    } else {
        (turn + 1) as usize
    }
}

impl Tunnel {
    /// A tunnel with no pending request, made at `now`. Its one client is
    /// the primary one.
    pub fn new(
        subdomain: String,
        tx: tokio::sync::mpsc::Sender<Vec<u8>>,
        ip_filter: IpFilter,
        circuit_breaker: CircuitBreaker,
        now: u64,
    ) -> (t: Tunnel)
        ensures
            t@.subdomain == subdomain@,
            t@.created_at == now,
            t@.pending == Set::<Seq<char>>::empty(),
            t@.breaker == circuit_breaker@,
            t@.dispatched == 0 && t@.completed == 0 && t@.abandoned == 0,
            t@.primary == tx,
            t@.clients == Seq::<tokio::sync::mpsc::Sender<Vec<u8>>>::empty(),
            t@.turn == 0,
            t@.sequence == 0,
            t@.accounted(),
            t@.filter == ip_filter,
    {
        Tunnel {
            subdomain,
            tx,
            created_at: now,
            pending_requests: table_new(),
            ip_filter,
            circuit_breaker,
            lb_clients: Vec::new(),
            lb_counter: 0,
            sequence: 0,
            dispatched: Ghost(0),
            completed: Ghost(0),
            abandoned: Ghost(0),
        }
    }

    /// The subdomain of the tunnel.
    pub fn subdomain(&self) -> (s: &String)
        ensures
            s@ == self@.subdomain,
    {
        &self.subdomain
    }

    /// When the tunnel was made.
    pub fn created_at(&self) -> (t: u64)
        ensures
            t == self@.created_at,
    {
        self.created_at
    }

    /// The filter of the tunnel.
    pub fn ip_filter(&self) -> (f: &IpFilter)
        ensures
            *f == self@.filter,
    {
        &self.ip_filter
    }

    /// The breaker of the tunnel.
    pub fn circuit_breaker(&self) -> (b: &CircuitBreaker)
        ensures
            b@ == self@.breaker,
    {
        &self.circuit_breaker
    }

    /// The breaker of the tunnel, to record on it. Nothing else of the
    /// tunnel changes with it.
    pub fn circuit_breaker_mut(&mut self) -> (b: &mut CircuitBreaker)
        ensures
            b@ == old(self)@.breaker,
            final(self)@ == (TunnelState { breaker: final(b)@, ..old(self)@ }),
    {
        &mut self.circuit_breaker
    }

    /// The primary client, the sender of the tunnel's control channel: the
    /// one that the tunnel was made with.
    pub fn primary(&self) -> (c: &tokio::sync::mpsc::Sender<Vec<u8>>)
        ensures
            *c == self@.primary,
    {
        &self.tx
    }

    /// A load-balanced client.
    pub fn client(&self, i: usize) -> (c: Option<&tokio::sync::mpsc::Sender<Vec<u8>>>)
        ensures
            match c {
                Some(client) => i < self@.clients.len() && *client == self@.clients[i as int],
                None => i >= self@.clients.len(),
            },
    {
        if i < self.lb_clients.len() {
            Some(&self.lb_clients[i])
        } else {
            None
        }
    }

    /// Takes the turn of the next frame: which client it goes to.
    pub fn next_client(&mut self) -> (r: Option<usize>)
        ensures
            match r {
                Some(i) => client_of_turn(old(self)@.clients.len(), old(self)@.turn) == Some(
                    i as int,
                ) && i < old(self)@.clients.len(),
                None => client_of_turn(old(self)@.clients.len(), old(self)@.turn) is None,
            },
            old(self)@.clients.len() > 1 ==> final(self)@ == (TunnelState {
                turn: next_turn(old(self)@.turn),
                ..old(self)@
            }),
            old(self)@.clients.len() <= 1 ==> final(self)@ == old(self)@,
    {
        let n = self.lb_clients.len();
        if n <= 1 {
            return None;
        }
        let i = self.lb_counter % n;
        self.lb_counter = if self.lb_counter == usize::MAX {
            0
        } else {
            self.lb_counter + 1
        };
        Some(i)
    }

    /// The number that the next request gets.
    pub fn sequence(&self) -> (n: u64)
        ensures
            n == self@.sequence,
    {
        self.sequence
    }

    /// Takes the number of the next request. The numbers start over after
    /// the largest `u64`.
    pub fn next_sequence(&mut self) -> (n: u64)
        ensures
            n == old(self)@.sequence,
            final(self)@ == (TunnelState {
                sequence: if n == u64::MAX {
                    0
                } else {
                    (n + 1) as u64
                },
                ..old(self)@
            }),
    {
        let n = self.sequence;
        self.sequence = if n == u64::MAX {
            0
        } else {
            n + 1
        };
        n
    }

    /// Adds a load-balanced client.
    pub fn add_lb_client(&mut self, tx: tokio::sync::mpsc::Sender<Vec<u8>>)
        ensures
            final(self)@ == (TunnelState { clients: old(self)@.clients.push(tx), ..old(self)@ }),
    {
        self.lb_clients.push(tx);
    }

    /// Asks each load-balanced client whether its channel is closed, in the
    /// order of the clients. What each says is for its channel to say.
    pub fn closed_clients(&self) -> (closed: Vec<bool>)
        ensures
            closed@.len() == self@.clients.len(),
    {
        let mut closed: Vec<bool> = Vec::new();
        let mut i: usize = 0;
        while i < self.lb_clients.len()
            invariant
                i <= self.lb_clients@.len(),
                closed@.len() == i,
            decreases self.lb_clients@.len() - i,
        {
            closed.push(client_closed(&self.lb_clients[i]));
            i += 1;
        }
        closed
    }

    /// Takes out the load-balanced clients that are flagged as closed, the
    /// flags being in the order of the clients. The clients that stay keep
    /// their order; a client without a flag stays.
    pub fn drop_clients(&mut self, closed: &[bool])
        ensures
            final(self)@ == (TunnelState {
                clients: open_clients(old(self)@.clients, closed@),
                ..old(self)@
            }),
    {
        let ghost all = self.lb_clients@;
        let ghost tail = Seq::<tokio::sync::mpsc::Sender<Vec<u8>>>::empty();
        let mut i: usize = self.lb_clients.len();
        proof {
            assert(all.take(i as int) == all);
            assert(all.take(i as int) + tail == all);
            assert(open_clients(all.take(i as int), closed@) + tail == open_clients(
                all,
                closed@,
            ));
        }
        while i > 0
            invariant
                i <= all.len(),
                all == old(self).lb_clients@,
                self.lb_clients@ == all.take(i as int) + tail,
                open_clients(all.take(i as int), closed@) + tail == open_clients(all, closed@),
                self@ == (TunnelState { clients: self.lb_clients@, ..old(self)@ }),
            decreases i,
        {
            i -= 1;
            let leaves = i < closed.len() && closed[i];
            proof {
                let upto = all.take(i + 1);
                assert(upto.drop_last() == all.take(i as int));
                assert(upto.last() == all[i as int]);
            }
            if leaves {
                let ghost before = self.lb_clients@;
                let _ = self.lb_clients.remove(i);
                proof {
                    assert(self.lb_clients@ == before.remove(i as int));
                    assert(before.remove(i as int) == all.take(i as int) + tail);
                }
            } else {
                proof {
                    let kept = seq![all[i as int]] + tail;
                    assert(all.take(i + 1) + tail == all.take(i as int) + kept);
                    assert(open_clients(all.take(i as int), closed@).push(all[i as int]) + tail
                        == open_clients(all.take(i as int), closed@) + kept);
                    tail = kept;
                }
            }
        }
        proof {
            assert(all.take(0) + tail == tail);
            assert(open_clients(all.take(0), closed@) + tail == tail);
        }
    }

    /// Takes out the load-balanced clients whose channel is closed: asks
    /// each client, and drops those that say so. The clients that stay keep
    /// their order, and nothing else of the tunnel changes. Which channels
    /// are closed is for the channels to say.
    pub fn cleanup_lb_clients(&mut self)
        ensures
            exists|closed: Seq<bool>|
                closed.len() == old(self)@.clients.len() && final(self)@.clients
                    == #[trigger] open_clients(old(self)@.clients, closed),
            final(self)@ == (TunnelState { clients: final(self)@.clients, ..old(self)@ }),
            final(self)@.clients.len() <= old(self)@.clients.len(),
    {
        let closed = self.closed_clients();
        self.drop_clients(closed.as_slice());
        proof {
            lemma_open_clients(old(self)@.clients, closed@);
        }
    }

    /// How many requests wait for a response.
    pub fn pending_count(&self) -> (n: usize)
        ensures
            self@.pending.finite() ==> n == self@.pending.len(),
    {
        table_len(&self.pending_requests)
    }

    /// Whether a request waits under `id`.
    pub fn is_pending(&self, id: &str) -> (r: bool)
        ensures
            r == self@.pending.contains(id@),
    {
        table_contains(&self.pending_requests, id)
    }

    /// Enters a request into the table: `receptacle` will get the response
    /// that carries `id`. An id under which a request already waits is
    /// refused, and the receptacle handed back: a receptacle is never
    /// displaced.
    pub fn open_request(
        &mut self,
        id: String,
        receptacle: tokio::sync::oneshot::Sender<TunnelResponse>,
    ) -> (r: Result<(), tokio::sync::oneshot::Sender<TunnelResponse>>)
        ensures
            r is Err <==> old(self)@.pending.contains(id@),
            r is Err ==> final(self)@ == old(self)@,
            r is Ok ==> final(self)@ == (TunnelState {
                pending: old(self)@.pending.insert(id@),
                dispatched: old(self)@.dispatched + 1,
                ..old(self)@
            }),
            old(self)@.accounted() ==> final(self)@.accounted(),
    {
        if table_contains(&self.pending_requests, id.as_str()) {
            return Err(receptacle);
        }
        let _ = table_insert(&mut self.pending_requests, id, receptacle);
        proof {
            self.dispatched@ = self.dispatched@ + 1;
        }
        Ok(())
    }

    /// Hands a response to the request that waits under its id, and takes
    /// that request out of the table. The response is handed on as it is.
    pub fn complete(&mut self, response: TunnelResponse) -> (r: Delivery)
        ensures
            r is NoWaiter <==> !old(self)@.pending.contains(response.id@),
            r matches Delivery::WaiterGone(back) ==> back == response,
            r is NoWaiter ==> final(self)@ == old(self)@,
            !(r is NoWaiter) ==> final(self)@ == (TunnelState {
                pending: old(self)@.pending.remove(response.id@),
                completed: old(self)@.completed + 1,
                ..old(self)@
            }),
            old(self)@.accounted() ==> final(self)@.accounted(),
    {
        match table_remove(&mut self.pending_requests, response.id.as_str()) {
            Some(entry) => {
                proof {
                    self.completed@ = self.completed@ + 1;
                }
                match offer(entry.1, response) {
                    Ok(()) => Delivery::Delivered,
                    Err(back) => Delivery::WaiterGone(back),
                }
            },
            None => {
                assert(self@.pending =~= old(self)@.pending);
                Delivery::NoWaiter
            },
        }
    }

    /// Takes a request that will get no response out of the table: it timed
    /// out, or its frame could not be sent. Says whether it was there.
    pub fn abandon(&mut self, id: &str) -> (was_pending: bool)
        ensures
            was_pending == old(self)@.pending.contains(id@),
            !was_pending ==> final(self)@ == old(self)@,
            was_pending ==> final(self)@ == (TunnelState {
                pending: old(self)@.pending.remove(id@),
                abandoned: old(self)@.abandoned + 1,
                ..old(self)@
            }),
            old(self)@.accounted() ==> final(self)@.accounted(),
    {
        match table_remove(&mut self.pending_requests, id) {
            Some(_) => {
                proof {
                    self.abandoned@ = self.abandoned@ + 1;
                }
                true
            },
            None => {
                assert(self@.pending =~= old(self)@.pending);
                false
            },
        }
    }

    /// Cancels every request that waits: the control channel is gone. Each
    /// receptacle is dropped, which tells its request that the upstream has
    /// closed. Says how many there were.
    pub fn cancel_pending(&mut self) -> (n: usize)
        ensures
            old(self)@.pending.finite() ==> n == old(self)@.pending.len(),
            final(self)@ == (TunnelState {
                pending: Set::<Seq<char>>::empty(),
                abandoned: old(self)@.abandoned + n as nat,
                ..old(self)@
            }),
            old(self)@.accounted() ==> final(self)@.accounted(),
    {
        let n = table_len(&self.pending_requests);
        table_clear(&mut self.pending_requests);
        proof {
            self.abandoned@ = self.abandoned@ + n as nat;
        }
        n
    }
}

} // verus!
