//! The manager that finds connections through routing tables.

use super::acquisition::{
    AcquisitionView, ManagerView, RouteRequestView, StepView, first_step, next_step,
    no_available_server, no_pool, step_after_fetch, step_after_refusal,
};
use super::connection_registry::{
    ConnectionRegistry, RouteKey, cached_servers, copy_name, strike_address,
};
use super::load_balancing::{RoundRobinStrategy, Turns, choice_view};
use super::types::{
    BoltServer, Database, ImpersonateUser, Operation, RoutingTable, ServerView, TableView,
    name_view, server_views, texts,
};
use crate::error::Error;
use backon::ExponentialBuilder;
use vstd::prelude::*;
use vstd::string::*;

verus! {

/// `backon::ExponentialBuilder`, the policy by which callers space their
/// retries. The manager only carries it.
#[verifier::external_type_specification]
#[verifier::external_body]
pub struct ExExponentialBuilder(ExponentialBuilder);

/// What to ask for a routing table.
#[derive(Debug)]
pub struct RouteRequest {
    pub db: Option<Database>,
    pub imp_user: Option<ImpersonateUser>,
    pub bookmarks: Vec<String>,
    /// The server to ask, or `None` for the seed that the driver was set up
    /// with.
    pub router: Option<BoltServer>,
}

impl View for RouteRequest {
    type V = RouteRequestView;

    open spec fn view(&self) -> RouteRequestView {
        RouteRequestView {
            key: RouteKey { db: name_view(self.db), imp_user: name_view(self.imp_user) },
            bookmarks: texts(self.bookmarks@),
            router: choice_view(self.router),
        }
    }
}

/// A search for a connection.
#[derive(Debug)]
pub struct Acquisition {
    op: Operation,
    db: Option<Database>,
    imp_user: Option<ImpersonateUser>,
    bookmarks: Vec<String>,
    servers: Vec<BoltServer>,
    refresh_attempted: bool,
}

impl View for Acquisition {
    type V = AcquisitionView;

    closed spec fn view(&self) -> AcquisitionView {
        AcquisitionView {
            op: self.op,
            key: RouteKey { db: name_view(self.db), imp_user: name_view(self.imp_user) },
            bookmarks: texts(self.bookmarks@),
            servers: server_views(self.servers@),
            refresh_attempted: self.refresh_attempted,
        }
    }
}

/// A search that waits for a routing table.
#[derive(Debug)]
pub struct PendingFetch {
    pub request: RouteRequest,
    pub acquisition: Acquisition,
}

/// A search that waits for a connection from a server's pool.
#[derive(Debug)]
pub struct PendingConnection {
    pub server: BoltServer,
    pub acquisition: Acquisition,
}

/// What a search needs next.
#[derive(Debug)]
pub enum Step {
    /// Fetch a routing table.
    Fetch(PendingFetch),
    /// Get a connection from the pool of a server.
    Connect(PendingConnection),
    /// Nothing: the search has failed.
    Fail(Error),
}

impl View for Step {
    type V = StepView;

    open spec fn view(&self) -> StepView {
        match self {
            Step::Fetch(pending) => StepView::Fetch(pending.request@, pending.acquisition@),
            Step::Connect(pending) => StepView::Connect(pending.server@, pending.acquisition@),
            Step::Fail(error) => StepView::Fail(error@),
        }
    }
}

/// How an attempt to connect took the search further.
#[derive(Debug)]
pub enum Progress<C> {
    /// The search is over: this is the connection.
    Connected(C),
    /// The search goes on.
    Next(Step),
}

/// Finds connections through routing tables, and keeps what it learns.
pub struct RoutedConnectionManager {
    load_balancing_strategy: RoundRobinStrategy,
    connection_registry: ConnectionRegistry,
    backoff: ExponentialBuilder,
}

impl View for RoutedConnectionManager {
    type V = ManagerView;

    closed spec fn view(&self) -> ManagerView {
        ManagerView { entries: self.connection_registry@, turns: self.load_balancing_strategy@ }
    }
}

fn copy_texts(strings: &[String]) -> (copies: Vec<String>)
    ensures
        texts(copies@) == texts(strings@),
{
    let mut copies: Vec<String> = Vec::new();
    let mut i: usize = 0;
    while i < strings.len()
        invariant
            i <= strings@.len(),
            copies@ == strings@.take(i as int),
        decreases strings@.len() - i,
    {
        copies.push(strings[i].clone());
        i += 1;
    }
    assert(copies@ == strings@);
    copies
}

/// The error of a search that ran out of servers.
fn no_available_error(op: Operation) -> (error: Error)
    ensures
        error@ == no_available_server(op),
{
    let mut text = "No available ".to_owned();
    text.append(op.servers_text());
    text.append(" in the routing table for operation ");
    text.append(op.role_text());
    Error::ServerUnavailableError(text)
}

/// The error of a search whose server has no pool.
fn no_pool_error(server: &BoltServer) -> (error: Error)
    ensures
        error@ == no_pool(server@),
{
    let mut text = "No connection pool found for server: ".to_owned();
    text.append(server.to_debug().as_str());
    Error::ServerUnavailableError(text)
}

/// A routing table, if that is what came back.
pub open spec fn table_view(reply: Result<RoutingTable, Error>) -> Option<TableView> {
    match reply {
        Ok(table) => Some(table@),
        Err(_) => None,
    }
}

impl RoutedConnectionManager {
    /// The policy by which callers space their retries.
    pub closed spec fn retry_policy(&self) -> ExponentialBuilder {
        self.backoff
    }

    /// A manager that knows of no server.
    pub fn new(backoff: ExponentialBuilder) -> (manager: Result<Self, Error>)
        ensures
            manager is Ok,
            manager->Ok_0@ == (ManagerView {
                entries: Seq::empty(),
                turns: Turns { reader: 0, writer: 0, router: 0 },
            }),
            manager->Ok_0.retry_policy() == backoff,
    {
        Ok(
            RoutedConnectionManager {
                load_balancing_strategy: RoundRobinStrategy::new(),
                connection_registry: ConnectionRegistry::new(),
                backoff,
            },
        )
    }

    /// The policy by which callers space their retries.
    pub fn backoff(&self) -> (backoff: ExponentialBuilder)
        ensures
            backoff == self.retry_policy(),
    {
        self.backoff
    }

    /// The servers to use for the database and user, unless a table has to be
    /// fetched.
    pub fn servers(
        &self,
        db: &Option<Database>,
        imp_user: &Option<ImpersonateUser>,
        now: u64,
    ) -> (servers: Option<Vec<BoltServer>>)
        ensures
            ({
                let key = RouteKey { db: name_view(*db), imp_user: name_view(*imp_user) };
                match servers {
                    Some(servers) => cached_servers(self@.entries, key, now as nat) == Some(server_views(servers@)),
                    None => cached_servers(self@.entries, key, now as nat) is None,
                }
            }),
    {
        self.connection_registry.servers(db, imp_user, now)
    }

    /// The next of the given servers that reads.
    pub fn select_reader(&mut self, servers: &[BoltServer]) -> (choice: Option<BoltServer>)
        ensures
            choice_view(choice) == old(self)@.turns.server(
                Operation::Read,
                server_views(servers@),
            ),
            final(self)@.turns == old(self)@.turns.after_server(
                Operation::Read,
                server_views(servers@),
            ),
            final(self)@.entries == old(self)@.entries,
            final(self).retry_policy() == old(self).retry_policy(),
    {
        self.load_balancing_strategy.select_reader(servers)
    }

    /// The next of the given servers that writes.
    pub fn select_writer(&mut self, servers: &[BoltServer]) -> (choice: Option<BoltServer>)
        ensures
            choice_view(choice) == old(self)@.turns.server(
                Operation::Write,
                server_views(servers@),
            ),
            final(self)@.turns == old(self)@.turns.after_server(
                Operation::Write,
                server_views(servers@),
            ),
            final(self)@.entries == old(self)@.entries,
            final(self).retry_policy() == old(self).retry_policy(),
    {
        self.load_balancing_strategy.select_writer(servers)
    }

    /// The next of the given servers that hands out routing tables.
    pub fn select_router(&mut self, servers: &[BoltServer]) -> (choice: Option<BoltServer>)
        ensures
            choice_view(choice) == old(self)@.turns.router(server_views(servers@)),
            final(self)@.turns == old(self)@.turns.after_router(server_views(servers@)),
            final(self)@.entries == old(self)@.entries,
            final(self).retry_policy() == old(self).retry_policy(),
    {
        self.load_balancing_strategy.select_router(servers)
    }

    /// The router to ask for a table, among all servers that are known.
    pub fn router_pool(&mut self) -> (router: Option<BoltServer>)
        ensures
            choice_view(router) == old(self)@.router(),
            final(self)@ == old(self)@.after_router(),
            final(self).retry_policy() == old(self).retry_policy(),
    {
        let servers = self.connection_registry.all_servers();
        match self.select_router(servers.as_slice()) {
            Some(router) => if self.connection_registry.has_server_pool(&router) {
                Some(router)
            } else {
                None
            },
            None => None,
        }
    }

    /// Begins a search for a connection. `now` is the time in seconds on a
    /// clock of the caller's.
    pub fn get(
        &mut self,
        operation: Option<Operation>,
        db: Option<Database>,
        imp_user: Option<ImpersonateUser>,
        bookmarks: &[String],
        now: u64,
    ) -> (step: Step)
        ensures
            (final(self)@, step@) == first_step(
                old(self)@,
                operation,
                RouteKey { db: name_view(db), imp_user: name_view(imp_user) },
                texts(bookmarks@),
                now as nat,
            ),
            final(self).retry_policy() == old(self).retry_policy(),
    {
        let op: Operation = match operation {
            Some(op) => op,
            None => Operation::Write,
        };
        // The router is picked before anything is asked of the registry.
        let router = self.router_pool();
        match self.connection_registry.servers(&db, &imp_user, now) {
            Some(servers) => {
                let acquisition = Acquisition {
                    op,
                    db,
                    imp_user,
                    bookmarks: copy_texts(bookmarks),
                    servers,
                    refresh_attempted: false,
                };
                self.advance(acquisition)
            },
            None => {
                let request = RouteRequest {
                    db: copy_name(&db),
                    imp_user: copy_name(&imp_user),
                    bookmarks: copy_texts(bookmarks),
                    router,
                };
                let servers: Vec<BoltServer> = Vec::new();
                assert(server_views(servers@) == Seq::<ServerView>::empty());
                let acquisition = Acquisition {
                    op,
                    db,
                    imp_user,
                    bookmarks: copy_texts(bookmarks),
                    servers,
                    refresh_attempted: false,
                };
                Step::Fetch(PendingFetch { request, acquisition })
            },
        }
    }

    /// Takes a search further from the servers that it has.
    fn advance(&mut self, acquisition: Acquisition) -> (step: Step)
        ensures
            (final(self)@, step@) == next_step(old(self)@, acquisition@),
            final(self).retry_policy() == old(self).retry_policy(),
    {
        let selected = match acquisition.op {
            Operation::Read => self.select_reader(acquisition.servers.as_slice()),
            Operation::Write => self.select_writer(acquisition.servers.as_slice()),
        };
        match selected {
            None => {
                if acquisition.refresh_attempted {
                    return Step::Fail(no_available_error(acquisition.op));
                }
                let request = RouteRequest {
                    db: copy_name(&acquisition.db),
                    imp_user: copy_name(&acquisition.imp_user),
                    bookmarks: copy_texts(acquisition.bookmarks.as_slice()),
                    router: self.router_pool(),
                };
                let acquisition = Acquisition { refresh_attempted: true, ..acquisition };
                Step::Fetch(PendingFetch { request, acquisition })
            },
            Some(server) => {
                if self.connection_registry.has_server_pool(&server) {
                    Step::Connect(PendingConnection { server, acquisition })
                } else {
                    Step::Fail(no_pool_error(&server))
                }
            },
        }
    }

    /// Takes a search further with the table that it asked for, or without one
    /// if that could not be had.
    pub fn fetched(
        &mut self,
        pending: PendingFetch,
        reply: Result<RoutingTable, Error>,
        now: u64,
    ) -> (step: Step)
        ensures
            (final(self)@, step@) == step_after_fetch(
                old(self)@,
                pending.acquisition@,
                table_view(reply),
                now as nat,
            ),
            final(self).retry_policy() == old(self).retry_policy(),
    {
        let acquisition = pending.acquisition;
        let servers: Vec<BoltServer> = match reply {
            Ok(table) => self.connection_registry.refresh_servers(
                &acquisition.db,
                &acquisition.imp_user,
                &table,
                now,
            ),
            Err(_) => {
                let none: Vec<BoltServer> = Vec::new();
                assert(server_views(none@) == Seq::<ServerView>::empty());
                none
            },
        };
        let acquisition = Acquisition { servers, ..acquisition };
        self.advance(acquisition)
    }

    /// Takes a search further with what the pool of its server gave: ends it
    /// with a connection, or goes on without the server.
    pub fn connected<C>(
        &mut self,
        pending: PendingConnection,
        outcome: Result<C, Error>,
    ) -> (progress: Progress<C>)
        ensures
            match outcome {
                Ok(connection) => progress == Progress::Connected(connection) && final(self)@
                    == old(self)@,
                Err(_) => match progress {
                    Progress::Next(step) => (final(self)@, step@) == step_after_refusal(
                        old(self)@,
                        pending.server@,
                        pending.acquisition@,
                    ),
                    Progress::Connected(_) => false,
                },
            },
            final(self).retry_policy() == old(self).retry_policy(),
    {
        match outcome {
            Ok(connection) => Progress::Connected(connection),
            Err(_) => {
                let mut acquisition = pending.acquisition;
                self.connection_registry.mark_unavailable(&pending.server);
                strike_address(&mut acquisition.servers, &pending.server);
                Progress::Next(self.advance(acquisition))
            },
        }
    }

    /// What to ask to learn the default database of a user.
    pub fn get_default_db(
        &mut self,
        imp_user: Option<ImpersonateUser>,
        bookmarks: &[String],
    ) -> (request: RouteRequest)
        ensures
            request@ == (RouteRequestView {
                key: RouteKey { db: None, imp_user: name_view(imp_user) },
                bookmarks: texts(bookmarks@),
                router: old(self)@.router(),
            }),
            final(self)@ == old(self)@.after_router(),
            final(self).retry_policy() == old(self).retry_policy(),
    {
        RouteRequest {
            db: None,
            imp_user,
            bookmarks: copy_texts(bookmarks),
            router: self.router_pool(),
        }
    }

    /// The default database that the answer to `get_default_db` names.
    pub fn default_db(reply: Result<RoutingTable, Error>) -> (db: Result<Option<Database>, Error>)
        ensures
            match reply {
                Ok(table) => db is Ok && name_view(db->Ok_0) == table@.db,
                Err(e) => db == Err::<Option<Database>, Error>(e),
            },
    {
        match reply {
            Ok(table) => Ok(table.db),
            Err(e) => Err(e),
        }
    }
}

/// A reply is a table exactly if it is no error, whatever the table lists.
pub proof fn law_every_table_counts(reply: Result<RoutingTable, Error>)
    ensures
        reply is Ok ==> table_view(reply) == Some(reply->Ok_0@),
        reply is Err ==> table_view(reply) is None,
{
}

/// A request is seen with the database, user, bookmarks and router that it
/// names.
pub proof fn law_request_is_seen_as_it_is(request: RouteRequest)
    ensures
        request@.key.db == name_view(request.db),
        request@.key.imp_user == name_view(request.imp_user),
        request@.bookmarks == texts(request.bookmarks@),
        request@.router is Some <==> request.router is Some,
        request.router matches Some(router) ==> request@.router == Some(router@),
{
}

/// A step is seen as what it is, with the request, the server or the error that
/// it holds.
pub proof fn law_step_is_seen_as_it_is(step: Step)
    ensures
        match step {
            Step::Fetch(pending) => step@ == StepView::Fetch(
                pending.request@,
                pending.acquisition@,
            ),
            Step::Connect(pending) => step@ == StepView::Connect(
                pending.server@,
                pending.acquisition@,
            ),
            Step::Fail(error) => step@ == StepView::Fail(error@),
        },
{
}

} // verus!
