//! Keeping connections for reuse.
//!
//! A connection that comes back fit for another request is kept and reset
//! before it is lent again. Any other is closed as it is, and its place is free
//! for a new one.

use crate::connection::{Connection, ConnectionState};
use crate::framing::frame;
use crate::message::{Response, reset_request, response_kind};
use vstd::prelude::*;

verus! {

/// The connections to one server.
#[derive(Debug)]
pub struct ConnectionPool<S> {
    max_connections: usize,
    lent: usize,
    idle: Vec<Connection<S>>,
}

/// What to do for a caller that wants a connection.
#[derive(Debug)]
pub enum Lease<S> {
    /// Write these bytes, a RESET, to this connection, and lend it if the
    /// answer is a SUCCESS.
    Reset(Connection<S>, Vec<u8>),
    /// Open a new connection.
    Open,
    /// Wait until a connection comes back.
    Exhausted,
}

/// A pool as the contracts see it.
pub struct PoolView<S> {
    /// The most connections that may exist at once.
    pub limit: nat,
    /// The connections that are out, or being opened.
    pub lent: nat,
    /// The connections that are kept, the one that waits longest first.
    pub idle: Seq<Connection<S>>,
}

impl<S> PoolView<S> {
    /// No more connections than allowed, and only reusable ones are kept.
    pub open spec fn wf(self) -> bool {
        &&& self.lent + self.idle.len() <= self.limit
        &&& forall|i: int|
            0 <= i < self.idle.len() ==> (#[trigger] self.idle[i]).state().reusable()
    }

    /// The pool after one more connection was lent or is being opened: the one
    /// that waits longest, if any is kept; else a new one, if there is room.
    pub open spec fn after_lease(self) -> PoolView<S> {
        if self.idle.len() > 0 {
            PoolView { lent: self.lent + 1, idle: self.idle.skip(1), ..self }
        } else if self.lent < self.limit {
            PoolView { lent: self.lent + 1, ..self }
        } else {
            self
        }
    }

    /// Whether that is what a caller is told.
    pub open spec fn leases(self, lease: Lease<S>) -> bool {
        match lease {
            Lease::Reset(connection, wire) => {
                &&& self.idle.len() > 0
                &&& connection.same_as(&self.idle[0])
                &&& connection.state() == self.idle[0].state().sending()
                &&& wire@ == frame(reset_request())
            },
            Lease::Open => self.idle.len() == 0 && self.lent < self.limit,
            Lease::Exhausted => self.idle.len() == 0 && self.lent == self.limit,
        }
    }

    /// The pool after a connection came back. Only a reusable one is kept.
    pub open spec fn after_return(self, connection: Connection<S>) -> PoolView<S> {
        PoolView {
            lent: (self.lent - 1) as nat,
            idle: if connection.state().reusable() {
                self.idle.push(connection)
            } else {
                self.idle
            },
            ..self
        }
    }
}

impl<S> View for ConnectionPool<S> {
    type V = PoolView<S>;

    closed spec fn view(&self) -> PoolView<S> {
        PoolView {
            limit: self.max_connections as nat,
            lent: self.lent as nat,
            idle: self.idle@,
        }
    }
}

impl<S> ConnectionPool<S> {
    /// A pool for at most `max_connections` connections.
    pub fn new(max_connections: usize) -> (pool: Self)
        ensures
            pool@ == (PoolView::<S> {
                limit: max_connections as nat,
                lent: 0,
                idle: Seq::empty(),
            }),
            pool@.wf(),
    {
        ConnectionPool { max_connections, lent: 0, idle: Vec::new() }
    }

    /// Finds a connection for a caller.
    pub fn get(&mut self) -> (lease: Lease<S>)
        requires
            old(self)@.wf(),
        ensures
            old(self)@.leases(lease),
            final(self)@ == old(self)@.after_lease(),
            final(self)@.wf(),
    {
        if self.idle.len() > 0 {
            let mut connection = self.idle.remove(0);
            assert(old(self)@.idle[0].state().reusable());
            self.lent = self.lent + 1;
            assert(self@.idle == old(self)@.idle.skip(1));
            if let Ok(wire) = connection.reset() {
                return Lease::Reset(connection, wire);
            }
            assert(false);
        }
        if self.lent < self.max_connections {
            self.lent = self.lent + 1;
            Lease::Open
        } else {
            Lease::Exhausted
        }
    }

    /// Takes a connection back. One that is not reusable is handed out again,
    /// to be closed.
    pub fn give_back(&mut self, connection: Connection<S>) -> (discarded: Option<Connection<S>>)
        requires
            old(self)@.wf(),
            old(self)@.lent > 0,
        ensures
            final(self)@ == old(self)@.after_return(connection),
            final(self)@.wf(),
            discarded == if connection.state().reusable() {
                None
            } else {
                Some(connection)
            },
    {
        self.lent = self.lent - 1;
        if connection.is_reusable() {
            self.idle.push(connection);
            None
        } else {
            Some(connection)
        }
    }

    /// Notes that the connection that was to be opened could not be.
    pub fn open_failed(&mut self)
        requires
            old(self)@.wf(),
            old(self)@.lent > 0,
        ensures
            final(self)@ == (PoolView { lent: (old(self)@.lent - 1) as nat, ..old(self)@ }),
            final(self)@.wf(),
    {
        self.lent = self.lent - 1;
    }
}

/// A connection that comes back unfit is not lent again: whatever the pool
/// keeps is what it kept before, so that no RESET is written to it. Its place
/// is free: if no other connection waits, the next caller opens a new one.
pub proof fn law_unfit_connection_is_replaced<S>(
    pool: PoolView<S>,
    connection: Connection<S>,
    lease: Lease<S>,
)
    requires
        pool.wf(),
        pool.lent > 0,
        !connection.state().reusable(),
        pool.after_return(connection).leases(lease),
    ensures
        pool.after_return(connection).wf(),
        pool.after_return(connection).idle == pool.idle,
        pool.idle.len() == 0 ==> lease is Open,
        !(lease is Exhausted),
{
}

/// A connection that comes back fit is, if no other waits, the one that the
/// next caller gets, after a RESET.
pub proof fn law_fit_connection_is_reused<S>(
    pool: PoolView<S>,
    connection: Connection<S>,
    lease: Lease<S>,
)
    requires
        pool.wf(),
        pool.lent > 0,
        pool.idle.len() == 0,
        connection.state().reusable(),
        pool.after_return(connection).leases(lease),
    ensures
        lease matches Lease::Reset(lent, wire) && lent.same_as(&connection) && wire@ == frame(
            reset_request(),
        ),
{
}

/// A RESET leaves a connection unfit until it is answered. A SUCCESS makes it
/// as good as new, and any other answer spoils it.
pub proof fn law_reset_restores_a_connection(answer: Seq<u8>)
    ensures
        !ConnectionState::fresh().sending().reusable(),
        !ConnectionState::fresh().sending().sent().reusable(),
        !ConnectionState::fresh().sending().sent().receiving().reusable(),
        if response_kind(answer) == Some(Response::Success) {
            ConnectionState::fresh().sending().sent().receiving().settled(answer)
                == ConnectionState::fresh()
        } else {
            !ConnectionState::fresh().sending().sent().receiving().settled(answer).reusable()
        },
{
}

/// A pool is in order exactly if no more connections are out or kept than
/// allowed and all that are kept are reusable.
pub proof fn law_pool_in_order<S>(pool: PoolView<S>)
    ensures
        pool.wf() <==> pool.lent + pool.idle.len() <= pool.limit && forall|i: int|
            0 <= i < pool.idle.len() ==> (#[trigger] pool.idle[i]).state().reusable(),
{
}

/// A caller gets the connection that waits longest, with a RESET to write to it
/// that is not answered yet, and all others go on waiting in their order. If
/// none waits the caller is to open one, as long as there is room; else it is to
/// wait, and nothing changes.
pub proof fn law_lease_keeps_the_others<S>(pool: PoolView<S>, lease: Lease<S>)
    requires
        pool.lent + pool.idle.len() <= pool.limit,
        forall|i: int| 0 <= i < pool.idle.len() ==> (#[trigger] pool.idle[i]).state().reusable(),
        pool.leases(lease),
    ensures
        pool.after_lease().limit == pool.limit,
        pool.idle.len() > 0 ==> {
            &&& lease matches Lease::Reset(lent, wire)
            &&& lent.peer() == pool.idle[0].peer()
            &&& lent.spoken() == pool.idle[0].spoken()
            &&& lent.state().pending == 1
            &&& lent.state().refuses_with() is Some
            &&& wire@ == seq![0u8, 2u8, 0xb0u8, 0x0fu8, 0u8, 0u8]
            &&& seq![pool.idle[0]] + pool.after_lease().idle == pool.idle
            &&& pool.after_lease().lent == pool.lent + 1
        },
        pool.idle.len() == 0 && pool.lent < pool.limit ==> {
            &&& lease is Open
            &&& pool.after_lease().idle == pool.idle
            &&& pool.after_lease().lent == pool.lent + 1
        },
        pool.idle.len() == 0 && pool.lent == pool.limit ==> {
            &&& lease is Exhausted
            &&& pool.after_lease() == pool
        },
{
    if pool.idle.len() > 0 {
        assert(pool.idle[0].state().reusable());
        assert(seq![pool.idle[0]] + pool.after_lease().idle == pool.idle);
        assert(frame(reset_request()) == seq![0u8, 2u8, 0xb0u8, 0x0fu8, 0u8, 0u8]);
    }
}

/// There is a lease for every pool that keeps to its limit, whichever it is.
pub proof fn law_every_caller_is_told_something<S>(pool: PoolView<S>)
    requires
        pool.lent <= pool.limit,
        pool.idle.len() == 0,
    ensures
        pool.leases(Lease::Open) <==> pool.lent < pool.limit,
        pool.leases(Lease::Exhausted) <==> pool.lent == pool.limit,
{
}

/// A connection that comes back leaves its place. If it is reusable it waits
/// behind all others; if it is not, the others are all that wait.
pub proof fn law_returned_connection_waits_behind_the_others<S>(
    pool: PoolView<S>,
    connection: Connection<S>,
)
    requires
        pool.lent > 0,
    ensures
        pool.after_return(connection).limit == pool.limit,
        pool.after_return(connection).lent + 1 == pool.lent,
        connection.state().reusable() ==> pool.after_return(connection).idle == pool.idle + seq![
            connection,
        ],
        !connection.state().reusable() ==> pool.after_return(connection).idle == pool.idle,
{
    assert(pool.idle.push(connection) == pool.idle + seq![connection]);
}

/// No more connections are out or kept than allowed, whoever comes and whatever
/// is given back.
pub proof fn law_pool_keeps_to_its_limit<S>(pool: PoolView<S>, connection: Connection<S>)
    requires
        pool.lent + pool.idle.len() <= pool.limit,
    ensures
        pool.after_lease().lent + pool.after_lease().idle.len() <= pool.limit,
        pool.lent > 0 ==> pool.after_return(connection).lent + pool.after_return(
            connection,
        ).idle.len() <= pool.limit,
{
}

/// The pool after connections came back, one after the other.
pub open spec fn after_returns<S>(pool: PoolView<S>, connections: Seq<Connection<S>>) -> PoolView<S>
    decreases connections.len(),
{
    if connections.len() == 0 {
        pool
    } else {
        after_returns(pool, connections.drop_last()).after_return(connections.last())
    }
}

/// The pool after as many callers came.
pub open spec fn after_leases<S>(pool: PoolView<S>, callers: nat) -> PoolView<S>
    decreases callers,
{
    if callers == 0 {
        pool
    } else {
        after_leases(pool, (callers - 1) as nat).after_lease()
    }
}

/// Fit connections that come back serve as many callers, each of them one, in
/// the order in which they came back, behind those that waited before.
pub proof fn law_fit_connections_serve_the_next_callers<S>(
    pool: PoolView<S>,
    fit: Seq<Connection<S>>,
    caller: nat,
    lease: Lease<S>,
)
    requires
        pool.lent >= fit.len(),
        forall|i: int| 0 <= i < fit.len() ==> (#[trigger] fit[i]).state().reusable(),
        caller < pool.idle.len() + fit.len(),
        after_leases(after_returns(pool, fit), caller).leases(lease),
    ensures
        lease matches Lease::Reset(lent, _) && lent.peer() == (pool.idle
            + fit)[caller as int].peer(),
{
    lemma_after_returns(pool, fit);
    lemma_after_leases(after_returns(pool, fit), caller);
}

proof fn lemma_after_returns<S>(pool: PoolView<S>, fit: Seq<Connection<S>>)
    requires
        pool.lent >= fit.len(),
        forall|i: int| 0 <= i < fit.len() ==> (#[trigger] fit[i]).state().reusable(),
    ensures
        after_returns(pool, fit).idle == pool.idle + fit,
        after_returns(pool, fit).lent == pool.lent - fit.len(),
    decreases fit.len(),
{
    if fit.len() == 0 {
        assert(pool.idle + fit == pool.idle);
    } else {
        let before = fit.drop_last();
        assert(forall|i: int| 0 <= i < before.len() ==> before[i] == fit[i]);
        assert(fit[fit.len() - 1].state().reusable());
        lemma_after_returns(pool, before);
        assert((pool.idle + before).push(fit.last()) == pool.idle + fit);
    }
}

proof fn lemma_after_leases<S>(pool: PoolView<S>, callers: nat)
    requires
        callers <= pool.idle.len(),
    ensures
        after_leases(pool, callers).idle == pool.idle.skip(callers as int),
    decreases callers,
{
    if callers == 0 {
        assert(pool.idle.skip(0) == pool.idle);
    } else {
        lemma_after_leases(pool, (callers - 1) as nat);
        assert(pool.idle.skip(callers - 1).skip(1) == pool.idle.skip(callers as int));
    }
}

} // verus!
