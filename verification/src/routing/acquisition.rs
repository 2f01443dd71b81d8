//! The course of one search for a connection.
//!
//! A search is driven from outside: each step says what to do next, and what
//! came of it goes back to the manager, which answers with the next step. The
//! functions here say which step follows which.

use super::connection_registry::{
    EntryView, RouteKey, after_table, after_unavailable, cached_servers, has_pool, known_servers,
};
use super::load_balancing::Turns;
use super::types::{
    Operation, ServerView, TableView, debug_text, resolve_table, without_address,
};
use crate::error::ErrorView;
use vstd::prelude::*;

verus! {

/// A request for a routing table, as the contracts see it.
pub struct RouteRequestView {
    pub key: RouteKey,
    pub bookmarks: Seq<Seq<char>>,
    pub router: Option<ServerView>,
}

/// A search as the contracts see it.
pub struct AcquisitionView {
    pub op: Operation,
    pub key: RouteKey,
    pub bookmarks: Seq<Seq<char>>,
    /// The servers that have not failed the search yet.
    pub servers: Seq<ServerView>,
    /// Whether the search has asked for a fresh table.
    pub refresh_attempted: bool,
}

/// A step as the contracts see it.
pub enum StepView {
    Fetch(RouteRequestView, AcquisitionView),
    Connect(ServerView, AcquisitionView),
    Fail(ErrorView),
}

/// What the searches share.
pub struct ManagerView {
    pub entries: Seq<EntryView>,
    pub turns: Turns,
}

/// The error of a search that ran out of servers.
pub open spec fn no_available_server(op: Operation) -> ErrorView {
    ErrorView::ServerUnavailableError(
        "No available "@ + op.servers_name() + " in the routing table for operation "@ + op.role(),
    )
}

/// The error of a search whose server has no pool.
pub open spec fn no_pool(server: ServerView) -> ErrorView {
    ErrorView::ServerUnavailableError(
        "No connection pool found for server: "@ + debug_text(server),
    )
}

impl ManagerView {
    /// The router to ask for a table: the one picked among all known servers,
    /// provided that there is a pool for it.
    pub open spec fn router(self) -> Option<ServerView> {
        match self.turns.router(known_servers(self.entries)) {
            Some(router) => if has_pool(self.entries, router) {
                Some(router)
            } else {
                None
            },
            None => None,
        }
    }

    /// After a router was picked.
    pub open spec fn after_router(self) -> ManagerView {
        ManagerView { turns: self.turns.after_router(known_servers(self.entries)), ..self }
    }

    /// After a server was picked for the search.
    pub open spec fn after_server(self, search: AcquisitionView) -> ManagerView {
        ManagerView { turns: self.turns.after_server(search.op, search.servers), ..self }
    }
}

/// The request that a search makes through the given router.
pub open spec fn route_request(
    search: AcquisitionView,
    router: Option<ServerView>,
) -> RouteRequestView {
    RouteRequestView { key: search.key, bookmarks: search.bookmarks, router }
}

/// Where a search goes from the servers it has: to the one picked among them;
/// if there is none to pick, to a fresh table, once; and after that nowhere.
pub open spec fn next_step(m: ManagerView, search: AcquisitionView) -> (ManagerView, StepView) {
    let picked = m.after_server(search);
    match m.turns.server(search.op, search.servers) {
        Some(server) => if has_pool(m.entries, server) {
            (picked, StepView::Connect(server, search))
        } else {
            (picked, StepView::Fail(no_pool(server)))
        },
        None => if search.refresh_attempted {
            (picked, StepView::Fail(no_available_server(search.op)))
        } else {
            let refreshing = AcquisitionView { refresh_attempted: true, ..search };
            (
                picked.after_router(),
                StepView::Fetch(route_request(refreshing, picked.router()), refreshing),
            )
        },
    }
}

/// The first step of a search. An operation that is not given is a write. A
/// router is picked in any case, and asked if no good table is at hand.
pub open spec fn first_step(
    m: ManagerView,
    op: Option<Operation>,
    key: RouteKey,
    bookmarks: Seq<Seq<char>>,
    now: nat,
) -> (ManagerView, StepView) {
    let routed = m.after_router();
    let search = AcquisitionView {
        op: if op is Some {
            op->0
        } else {
            Operation::Write
        },
        key,
        bookmarks,
        servers: Seq::empty(),
        refresh_attempted: false,
    };
    match cached_servers(m.entries, key, now) {
        Some(servers) => next_step(routed, AcquisitionView { servers, ..search }),
        None => (routed, StepView::Fetch(route_request(search, m.router()), search)),
    }
}

/// The step after a table was asked for. A table takes the place of the one at
/// hand. Without one the search goes on with no server at all.
pub open spec fn step_after_fetch(
    m: ManagerView,
    search: AcquisitionView,
    table: Option<TableView>,
    now: nat,
) -> (ManagerView, StepView) {
    match table {
        Some(table) => next_step(
            ManagerView { entries: after_table(m.entries, search.key, table, now), ..m },
            AcquisitionView { servers: resolve_table(table.servers), ..search },
        ),
        None => next_step(m, AcquisitionView { servers: Seq::empty(), ..search }),
    }
}

/// The step after a server gave no connection: it is marked unavailable and
/// the search goes on without it.
pub open spec fn step_after_refusal(
    m: ManagerView,
    server: ServerView,
    search: AcquisitionView,
) -> (ManagerView, StepView) {
    next_step(
        ManagerView { entries: after_unavailable(m.entries, server), ..m },
        AcquisitionView { servers: without_address(search.servers, server), ..search },
    )
}

} // verus!
