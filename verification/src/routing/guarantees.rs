//! What a search for a connection guarantees.

use super::acquisition::{
    AcquisitionView, ManagerView, StepView, first_step, next_step, no_available_server,
    no_pool, step_after_fetch, step_after_refusal,
};
use super::connection_registry::{
    RouteKey, after_table, after_unavailable, cached_servers, entry_of, entry_place, has_pool,
    known_servers, law_known_addresses_have_pools, law_table_serves_until_it_expires,
    law_unavailable_server_is_forgotten, lemma_entry_place, lemma_entry_servers_are_known,
    lemma_known_after_unavailable,
};
use super::load_balancing::{law_router_selection, law_selection_serves_the_operation, router_role};
use super::types::{
    Operation, ServerView, TableView, debug_text, lemma_filter_members, resolve_table,
    same_address, without_address,
};
use crate::error::ErrorView;
use vstd::prelude::*;

verus! {

/// What came of a step.
pub enum Answer {
    /// The table that was asked for, if it could be had.
    Table(Option<TableView>),
    /// The server's pool gave no connection.
    Refused,
}

/// An answer as it reaches the manager. Other searches may have changed the
/// manager since the step was taken.
pub struct Input {
    pub manager: ManagerView,
    pub now: nat,
    pub answer: Answer,
}

/// Whether the answer is one to the step.
pub open spec fn fits(step: StepView, answer: Answer) -> bool {
    match step {
        StepView::Fetch(_, _) => answer is Table,
        StepView::Connect(_, _) => answer is Refused,
        StepView::Fail(_) => false,
    }
}

/// The step that follows on an answer.
pub open spec fn after_answer(step: StepView, input: Input) -> StepView {
    match (step, input.answer) {
        (StepView::Fetch(_, search), Answer::Table(table)) => step_after_fetch(
            input.manager,
            search,
            table,
            input.now,
        ).1,
        (StepView::Connect(server, search), Answer::Refused) => step_after_refusal(
            input.manager,
            server,
            search,
        ).1,
        _ => step,
    }
}

/// The manager after the answer was taken in.
pub open spec fn manager_after(step: StepView, input: Input) -> ManagerView {
    match (step, input.answer) {
        (StepView::Fetch(_, search), Answer::Table(table)) => step_after_fetch(
            input.manager,
            search,
            table,
            input.now,
        ).0,
        (StepView::Connect(server, search), Answer::Refused) => step_after_refusal(
            input.manager,
            server,
            search,
        ).0,
        _ => input.manager,
    }
}

/// Whether the answers can come one after the other in a search.
pub open spec fn is_run(step: StepView, inputs: Seq<Input>) -> bool
    decreases inputs.len(),
{
    inputs.len() > 0 ==> fits(step, inputs.first().answer) && is_run(
        after_answer(step, inputs.first()),
        inputs.drop_first(),
    )
}

/// The step at which the answers leave a search.
pub open spec fn run(step: StepView, inputs: Seq<Input>) -> StepView
    decreases inputs.len(),
{
    if inputs.len() == 0 {
        step
    } else {
        run(after_answer(step, inputs.first()), inputs.drop_first())
    }
}

/// How many of the answers are to requests for a table.
pub open spec fn fetches(inputs: Seq<Input>) -> nat
    decreases inputs.len(),
{
    if inputs.len() == 0 {
        0
    } else {
        fetches(inputs.drop_first()) + if inputs.first().answer is Table {
            1nat
        } else {
            0nat
        }
    }
}

/// The search that a step belongs to, if it goes on.
pub open spec fn search_of(step: StepView) -> Option<AcquisitionView> {
    match step {
        StepView::Fetch(_, search) => Some(search),
        StepView::Connect(_, search) => Some(search),
        StepView::Fail(_) => None,
    }
}

/// A server that is to be connected to is one of those that the search has
/// left, and in the role that the operation needs; and a request is for what
/// the search is about.
pub open spec fn is_sound(step: StepView) -> bool {
    match step {
        StepView::Fetch(request, search) => request.key == search.key && request.bookmarks
            == search.bookmarks,
        StepView::Connect(server, search) => search.servers.contains(server) && server.role
            == search.op.role(),
        StepView::Fail(_) => true,
    }
}

/// The requests for a table that a search can still make.
pub open spec fn fetches_left(step: StepView) -> nat {
    match step {
        StepView::Fetch(_, search) => if search.refresh_attempted {
            1
        } else {
            2
        },
        StepView::Connect(_, search) => if search.refresh_attempted {
            0
        } else {
            1
        },
        StepView::Fail(_) => 0,
    }
}

/// The servers that a search can still try before it needs a table.
pub open spec fn servers_left(step: StepView) -> nat {
    match step {
        StepView::Connect(_, search) => search.servers.len(),
        _ => 0,
    }
}

/// The answers that a search can still take if no table lists more than `n`
/// servers.
pub open spec fn answers_left(step: StepView, n: nat) -> nat {
    fetches_left(step) * (n + 1) + servers_left(step)
}

/// Two steps of the same search.
pub open spec fn same_errand(a: AcquisitionView, b: AcquisitionView) -> bool {
    a.op == b.op && a.key == b.key && a.bookmarks == b.bookmarks
}

proof fn lemma_next_step(m: ManagerView, search: AcquisitionView)
    ensures
        ({
            let step = next_step(m, search).1;
            &&& is_sound(step)
            &&& search_of(step) matches Some(after) ==> same_errand(after, search)
                && after.servers == search.servers
            &&& step matches StepView::Connect(server, after) ==> after == search && has_pool(
                m.entries,
                server,
            )
            &&& step is Fetch ==> !search.refresh_attempted && fetches_left(step) == 1
        }),
{
    law_selection_serves_the_operation(m.turns, search.op, search.servers);
}

proof fn lemma_without_address(servers: Seq<ServerView>, server: ServerView)
    ensures
        forall|s: ServerView| #[trigger]
            without_address(servers, server).contains(s) <==> servers.contains(s) && !same_address(
                s,
                server,
            ),
        servers.contains(server) ==> without_address(servers, server).len() < servers.len(),
    decreases servers.len(),
{
    let pred = |s: ServerView| !same_address(s, server);
    lemma_filter_members(servers, pred);
    if servers.contains(server) {
        let shorter = servers.drop_last();
        lemma_filter_members(shorter, pred);
        assert(servers == shorter.push(servers.last()));
        shorter.lemma_filter_push(servers.last(), pred);
        if same_address(servers.last(), server) {
        } else {
            let k = choose|k: int| 0 <= k < servers.len() && servers[k] == server;
            assert(shorter[k] == server);
            lemma_without_address(shorter, server);
        }
    }
}

/// The first step of a search is sound and about what was asked for, with a
/// write where no operation was given. If it goes to a server, that has a pool;
/// and it never fails.
pub proof fn law_first_step_is_sound(
    m: ManagerView,
    op: Option<Operation>,
    key: RouteKey,
    bookmarks: Seq<Seq<char>>,
    now: nat,
)
    ensures
        ({
            let step = first_step(m, op, key, bookmarks, now).1;
            &&& is_sound(step)
            &&& step matches StepView::Connect(server, _) ==> has_pool(m.entries, server)
            &&& search_of(step) matches Some(search) && search.key == key && search.bookmarks
                == bookmarks && search.op == (if op is Some {
                op->0
            } else {
                Operation::Write
            })
        }),
{
    let routed = m.after_router();
    if let Some(servers) = cached_servers(m.entries, key, now) {
        let search = AcquisitionView {
            op: if op is Some {
                op->0
            } else {
                Operation::Write
            },
            key,
            bookmarks,
            servers,
            refresh_attempted: false,
        };
        lemma_next_step(routed, search);
        law_selection_serves_the_operation(routed.turns, search.op, servers);
        lemma_entry_place(m.entries, key);
        if let Some(server) = routed.turns.server(search.op, servers) {
            lemma_entry_servers_are_known(m.entries, entry_place(m.entries, key), server);
        }
    }
}

/// Every further step is sound and of the same search, and if it goes to a
/// server, that has a pool.
pub proof fn law_later_steps_are_sound(step: StepView, input: Input)
    requires
        is_sound(step),
        fits(step, input.answer),
    ensures
        is_sound(after_answer(step, input)),
        search_of(after_answer(step, input)) matches Some(after) ==> same_errand(
            after,
            search_of(step)->0,
        ),
        after_answer(step, input) matches StepView::Connect(server, _) ==> has_pool(
            manager_after(step, input).entries,
            server,
        ),
{
    lemma_after_answer(step, input);
}

/// A search fails for one of two reasons, and says which: its server has lost
/// its pool meanwhile, or no server in the right role is left and a fresh table
/// was asked for before.
pub proof fn law_failure_has_its_reason(m: ManagerView, search: AcquisitionView, error: ErrorView)
    ensures
        next_step(m, search).1 == StepView::Fail(error) <==> {
            ||| m.turns.server(search.op, search.servers) matches Some(server) && !has_pool(
                m.entries,
                server,
            ) && error == no_pool(server)
            ||| search.refresh_attempted && (forall|i: int|
                0 <= i < search.servers.len() ==> (#[trigger] search.servers[i]).role
                    != search.op.role()) && error == no_available_server(search.op)
        },
{
    law_selection_serves_the_operation(m.turns, search.op, search.servers);
}

proof fn lemma_after_answer(step: StepView, input: Input)
    ensures
        is_sound(step) ==> is_sound(after_answer(step, input)),
        search_of(after_answer(step, input)) matches Some(after) ==> search_of(step) is Some
            && same_errand(after, search_of(step)->0),
        fits(step, input.answer) && after_answer(step, input) is Connect ==> has_pool(
            manager_after(step, input).entries,
            after_answer(step, input)->Connect_0,
        ),
        fits(step, input.answer) ==> match step {
            StepView::Fetch(_, search) => {
                let listed = listed_servers(input.answer->Table_0);
                &&& fetches_left(after_answer(step, input)) < fetches_left(step)
                &&& servers_left(after_answer(step, input)) <= listed.len()
            },
            StepView::Connect(server, search) => {
                let left = without_address(search.servers, server);
                ||| fetches_left(after_answer(step, input)) == fetches_left(step) && servers_left(
                    after_answer(step, input),
                ) <= left.len()
                ||| fetches_left(after_answer(step, input)) == 0 && servers_left(
                    after_answer(step, input),
                ) == 0
            },
            StepView::Fail(_) => false,
        },
{
    match (step, input.answer) {
        (StepView::Fetch(_, search), Answer::Table(Some(table))) => {
            lemma_next_step(
                ManagerView {
                    entries: after_table(input.manager.entries, search.key, table, input.now),
                    ..input.manager
                },
                AcquisitionView { servers: resolve_table(table.servers), ..search },
            );
        },
        (StepView::Fetch(_, search), Answer::Table(None)) => {
            let empty = AcquisitionView { servers: Seq::empty(), ..search };
            lemma_next_step(input.manager, empty);
            law_selection_serves_the_operation(input.manager.turns, search.op, empty.servers);
        },
        (StepView::Connect(server, search), Answer::Refused) => {
            lemma_next_step(
                ManagerView {
                    entries: after_unavailable(input.manager.entries, server),
                    ..input.manager
                },
                AcquisitionView { servers: without_address(search.servers, server), ..search },
            );
        },
        _ => {},
    }
}

/// The servers that a search has after it asked for a table.
pub open spec fn listed_servers(table: Option<TableView>) -> Seq<ServerView> {
    match table {
        Some(table) => resolve_table(table.servers),
        None => Seq::empty(),
    }
}

/// However it goes and whatever other searches do meanwhile, a search asks for
/// a table twice at most: once because none was at hand and once to refresh.
pub proof fn law_at_most_one_refresh(step: StepView, inputs: Seq<Input>)
    requires
        is_run(step, inputs),
    ensures
        fetches(inputs) + fetches_left(run(step, inputs)) <= fetches_left(step),
        fetches(inputs) <= 2,
    decreases inputs.len(),
{
    if inputs.len() > 0 {
        lemma_after_answer(step, inputs.first());
        law_at_most_one_refresh(after_answer(step, inputs.first()), inputs.drop_first());
    }
}

/// A search comes to an end: if no table lists more than `n` servers, it takes
/// no more answers than `answers_left` says.
pub proof fn law_search_ends(step: StepView, inputs: Seq<Input>, n: nat)
    requires
        is_run(step, inputs),
        is_sound(step),
        forall|i: int|
            0 <= i < inputs.len() ==> ((#[trigger] inputs[i]).answer matches Answer::Table(table)
                ==> listed_servers(table).len() <= n),
    ensures
        inputs.len() <= answers_left(step, n),
    decreases inputs.len(),
{
    if inputs.len() > 0 {
        let first = inputs.first();
        let rest = inputs.drop_first();
        let next = after_answer(step, first);
        assert(forall|i: int| 0 <= i < rest.len() ==> rest[i] == inputs[i + 1]);
        assert(first == inputs[0]);
        lemma_after_answer(step, first);
        law_search_ends(next, rest, n);
        assert(answers_left(next, n) < answers_left(step, n)) by {
            match step {
                StepView::Fetch(_, _) => {
                    let a = fetches_left(step) as int;
                    let b = fetches_left(next) as int;
                    assert(a * (n + 1) >= b * (n + 1) + (n + 1)) by (nonlinear_arith)
                        requires
                            a >= b + 1,
                            n >= 0,
                    ;
                },
                StepView::Connect(server, search) => {
                    lemma_without_address(search.servers, server);
                    let a = fetches_left(step) as int;
                    assert(a * (n + 1) >= 0) by (nonlinear_arith)
                        requires
                            a >= 0,
                            n >= 0,
                    ;
                    if fetches_left(next) == 0 {
                        assert(fetches_left(next) * (n + 1) == 0) by (nonlinear_arith)
                            requires
                                fetches_left(next) == 0,
                        ;
                    }
                },
                StepView::Fail(_) => {},
            }
        }
    }
}

/// A server that gave no connection has no pool any more, and until another
/// table comes the search does not go back to its address.
pub proof fn law_failed_server_is_not_tried_again(
    m: ManagerView,
    server: ServerView,
    search: AcquisitionView,
    inputs: Seq<Input>,
)
    requires
        is_run(step_after_refusal(m, server, search).1, inputs),
        fetches(inputs) == 0,
    ensures
        !has_pool(step_after_refusal(m, server, search).0.entries, server),
        run(step_after_refusal(m, server, search).1, inputs) matches StepView::Connect(next, _)
            ==> !same_address(next, server),
{
    let (after, step) = step_after_refusal(m, server, search);
    let left = AcquisitionView { servers: without_address(search.servers, server), ..search };
    law_unavailable_server_is_forgotten(m.entries, server, server, search.key, 0);
    lemma_next_step(
        ManagerView { entries: after_unavailable(m.entries, server), ..m },
        left,
    );
    lemma_without_address(search.servers, server);
    assert(lacks(step, server));
    lemma_run_lacks(step, inputs, server);
}

/// The search has no server at that address left to try.
spec fn lacks(step: StepView, server: ServerView) -> bool {
    is_sound(step) && (step matches StepView::Connect(_, search) ==> forall|s: ServerView| #[trigger]
        search.servers.contains(s) ==> !same_address(s, server))
}

proof fn lemma_run_lacks(step: StepView, inputs: Seq<Input>, server: ServerView)
    requires
        is_run(step, inputs),
        fetches(inputs) == 0,
        lacks(step, server),
    ensures
        lacks(run(step, inputs), server),
    decreases inputs.len(),
{
    if inputs.len() > 0 {
        let first = inputs.first();
        let next = after_answer(step, first);
        lemma_after_answer(step, first);
        assert(lacks(next, server)) by {
            if let StepView::Connect(refused, search) = step {
                lemma_without_address(search.servers, refused);
                lemma_next_step(
                    ManagerView {
                        entries: after_unavailable(first.manager.entries, refused),
                        ..first.manager
                    },
                    AcquisitionView { servers: without_address(search.servers, refused), ..search },
                );
            }
        }
        lemma_run_lacks(next, inputs.drop_first(), server);
    }
}

/// A router is asked for tables exactly if one is known, and it is one of the
/// known servers; otherwise the seed is asked.
pub proof fn law_seed_is_asked_only_without_a_router(m: ManagerView)
    ensures
        m.router() is Some <==> exists|i: int|
            0 <= i < known_servers(m.entries).len() && (#[trigger] known_servers(m.entries)[i]).role
                == router_role(),
        m.router() matches Some(router) ==> known_servers(m.entries).contains(router) && router.role
            == router_role(),
{
    let known = known_servers(m.entries);
    law_router_selection(m.turns, known);
    if let Some(router) = m.turns.router(known) {
        let k = choose|k: int| 0 <= k < known.len() && known[k] == router;
        assert(same_address(known[k], router));
    }
}

/// A world in which a search runs alone.
pub struct World {
    /// The addresses that accept connections.
    pub accepts: spec_fn(Seq<char>, u16) -> bool,
    /// What the first request for a table brings.
    pub first: Option<TableView>,
    /// What the refresh brings.
    pub refreshed: Option<TableView>,
}

impl World {
    /// Whether a connection to the server succeeds.
    pub open spec fn reachable(self, server: ServerView) -> bool {
        (self.accepts)(server.address, server.port)
    }

    /// Whether the server can serve the operation and be reached.
    pub open spec fn serves(self, op: Operation, server: ServerView) -> bool {
        server.role == op.role() && self.reachable(server)
    }

    /// Whether one of the servers can serve the operation and be reached.
    pub open spec fn any_serves(self, op: Operation, servers: Seq<ServerView>) -> bool {
        exists|s: ServerView| #[trigger] servers.contains(s) && self.serves(op, s)
    }
}

/// How a search ends.
pub enum Outcome {
    Connected(ServerView),
    Failed(ErrorView),
}

/// How a search ends that runs alone in the world from a step on.
pub open spec fn outcome(m: ManagerView, step: StepView, world: World, now: nat) -> Outcome
    decreases fetches_left(step), servers_left(step),
    when is_sound(step)
    via outcome_decreases
{
    match step {
        StepView::Fail(error) => Outcome::Failed(error),
        StepView::Connect(server, search) => if world.reachable(server) {
            Outcome::Connected(server)
        } else {
            let (after, next) = step_after_refusal(m, server, search);
            outcome(after, next, world, now)
        },
        StepView::Fetch(_, search) => {
            let table = if search.refresh_attempted {
                world.refreshed
            } else {
                world.first
            };
            let (after, next) = step_after_fetch(m, search, table, now);
            outcome(after, next, world, now)
        },
    }
}

#[via_fn]
proof fn outcome_decreases(m: ManagerView, step: StepView, world: World, now: nat) {
    match step {
        StepView::Fail(error) => {},
        StepView::Connect(server, search) => {
            lemma_after_answer(step, Input { manager: m, now, answer: Answer::Refused });
            lemma_without_address(search.servers, server);
        },
        StepView::Fetch(_, search) => {
            let table = if search.refresh_attempted {
                world.refreshed
            } else {
                world.first
            };
            lemma_after_answer(step, Input { manager: m, now, answer: Answer::Table(table) });
        },
    }
}

/// Every server of the list has a pool.
spec fn all_have_pools(m: ManagerView, servers: Seq<ServerView>) -> bool {
    forall|s: ServerView| #[trigger] servers.contains(s) ==> has_pool(m.entries, s)
}

/// The outcome is a connection to one of the servers, which serves.
spec fn ends_in(result: Outcome, world: World, op: Operation, servers: Seq<ServerView>) -> bool {
    result matches Outcome::Connected(server) && servers.contains(server) && world.serves(
        op,
        server,
    )
}

/// The outcome is what it should be for a search that has the servers: a
/// connection to one of them that serves; if none does, one to a server of the
/// refreshed table, unless the search has been there; else the error.
spec fn is_expected(result: Outcome, world: World, search: AcquisitionView) -> bool {
    let refreshed = listed_servers(world.refreshed);
    if world.any_serves(search.op, search.servers) {
        ends_in(result, world, search.op, search.servers)
    } else if !search.refresh_attempted && world.any_serves(search.op, refreshed) {
        ends_in(result, world, search.op, refreshed)
    } else {
        result == Outcome::Failed(no_available_server(search.op))
    }
}

/// The servers of a table that came in have pools.
proof fn lemma_listed_servers_have_pools(
    m: ManagerView,
    key: RouteKey,
    table: TableView,
    now: nat,
)
    ensures
        all_have_pools(
            ManagerView { entries: after_table(m.entries, key, table, now), ..m },
            resolve_table(table.servers),
        ),
{
    let entries = after_table(m.entries, key, table, now);
    let listed = resolve_table(table.servers);
    lemma_entry_place(m.entries, key);
    let place = if entry_place(m.entries, key) >= 0 {
        entry_place(m.entries, key)
    } else {
        m.entries.len() as int
    };
    assert(entries[place] == entry_of(key, table, now));
    assert forall|s: ServerView| #[trigger] listed.contains(s) implies has_pool(entries, s) by {
        lemma_entry_servers_are_known(entries, place, s);
    }
}

proof fn lemma_outcome(m: ManagerView, search: AcquisitionView, world: World, now: nat)
    requires
        all_have_pools(m, search.servers),
    ensures
        is_expected(
            outcome(next_step(m, search).0, next_step(m, search).1, world, now),
            world,
            search,
        ),
    decreases
            (if search.refresh_attempted {
                0int
            } else {
                1int
            }),
            search.servers.len(),
{
    let (after, step) = next_step(m, search);
    law_selection_serves_the_operation(m.turns, search.op, search.servers);
    lemma_next_step(m, search);
    match m.turns.server(search.op, search.servers) {
        None => {
            assert(!world.any_serves(search.op, search.servers)) by {
                assert forall|s: ServerView| #[trigger]
                    search.servers.contains(s) implies !world.serves(search.op, s) by {
                    let i = choose|i: int| 0 <= i < search.servers.len() && search.servers[i] == s;
                    assert(search.servers[i].role != search.op.role());
                }
            }
            if !search.refresh_attempted {
                let refreshing = AcquisitionView { refresh_attempted: true, ..search };
                let listed = AcquisitionView {
                    servers: listed_servers(world.refreshed),
                    ..refreshing
                };
                let next = match world.refreshed {
                    Some(table) => ManagerView {
                        entries: after_table(after.entries, search.key, table, now),
                        ..after
                    },
                    None => after,
                };
                if let Some(table) = world.refreshed {
                    lemma_listed_servers_have_pools(after, search.key, table, now);
                }
                lemma_outcome(next, listed, world, now);
                let (end, last) = step_after_fetch(after, refreshing, world.refreshed, now);
                assert((end, last) == next_step(next, listed));
                lemma_next_step(next, listed);
                assert(outcome(after, step, world, now) == outcome(end, last, world, now));
            }
        },
        Some(server) => {
            assert(search.servers.contains(server));
            if world.reachable(server) {
                assert(world.serves(search.op, server));
            } else {
                let next = ManagerView {
                    entries: after_unavailable(after.entries, server),
                    ..after
                };
                let left = AcquisitionView {
                    servers: without_address(search.servers, server),
                    ..search
                };
                lemma_without_address(search.servers, server);
                assert forall|s: ServerView| #[trigger]
                    left.servers.contains(s) implies has_pool(next.entries, s) by {
                    law_unavailable_server_is_forgotten(after.entries, server, s, search.key, now);
                }
                lemma_outcome(next, left, world, now);
                let (end, last) = step_after_refusal(after, server, search);
                assert((end, last) == next_step(next, left));
                lemma_next_step(next, left);
                assert(outcome(after, step, world, now) == outcome(end, last, world, now));
                assert(world.any_serves(search.op, search.servers) <==> world.any_serves(
                    search.op,
                    left.servers,
                )) by {
                    if world.any_serves(search.op, search.servers) {
                        let s = choose|s: ServerView| #[trigger]
                            search.servers.contains(s) && world.serves(search.op, s);
                        assert(left.servers.contains(s));
                    }
                    if world.any_serves(search.op, left.servers) {
                        let s = choose|s: ServerView| #[trigger]
                            left.servers.contains(s) && world.serves(search.op, s);
                        assert(search.servers.contains(s));
                    }
                }
            }
        },
    }
}

/// A search that runs alone finds a server whenever there is one to be found.
/// It ends with a connection to a server in the right role: one of the table at
/// hand, or of the first table if none is at hand, if any of those can be
/// reached; otherwise one of the refreshed table, if any of those can be
/// reached. Only if there is none in either does it fail, and says so.
pub proof fn law_search_finds_a_server(
    m: ManagerView,
    op: Option<Operation>,
    key: RouteKey,
    bookmarks: Seq<Seq<char>>,
    world: World,
    now: nat,
)
    ensures
        ({
            let (after, step) = first_step(m, op, key, bookmarks, now);
            let result = outcome(after, step, world, now);
            let need = if op is Some {
                op->0
            } else {
                Operation::Write
            };
            let at_hand = match cached_servers(m.entries, key, now) {
                Some(servers) => servers,
                None => listed_servers(world.first),
            };
            let refreshed = listed_servers(world.refreshed);
            &&& world.any_serves(need, at_hand) ==> (result matches Outcome::Connected(server)
                && at_hand.contains(server) && world.serves(need, server))
            &&& !world.any_serves(need, at_hand) && world.any_serves(need, refreshed) ==> (
            result matches Outcome::Connected(server) && refreshed.contains(server)
                && world.serves(need, server))
            &&& !world.any_serves(need, at_hand) && !world.any_serves(need, refreshed) ==> result
                == Outcome::Failed(no_available_server(need))
        }),
{
    let (after, step) = first_step(m, op, key, bookmarks, now);
    let need = if op is Some {
        op->0
    } else {
        Operation::Write
    };
    let routed = m.after_router();
    let search = AcquisitionView {
        op: need,
        key,
        bookmarks,
        servers: Seq::empty(),
        refresh_attempted: false,
    };
    match cached_servers(m.entries, key, now) {
        Some(servers) => {
            lemma_entry_place(m.entries, key);
            assert forall|s: ServerView| #[trigger] servers.contains(s) implies has_pool(
                routed.entries,
                s,
            ) by {
                lemma_entry_servers_are_known(m.entries, entry_place(m.entries, key), s);
            }
            lemma_outcome(routed, AcquisitionView { servers, ..search }, world, now);
        },
        None => {
            let next = match world.first {
                Some(table) => ManagerView {
                    entries: after_table(routed.entries, key, table, now),
                    ..routed
                },
                None => routed,
            };
            if let Some(table) = world.first {
                lemma_listed_servers_have_pools(routed, key, table, now);
            }
            let listed = AcquisitionView { servers: listed_servers(world.first), ..search };
            lemma_outcome(next, listed, world, now);
            let (end, last) = step_after_fetch(after, search, world.first, now);
            assert((end, last) == next_step(next, listed));
            lemma_next_step(next, listed);
            assert(outcome(after, step, world, now) == outcome(end, last, world, now));
        },
    }
}

/// A table that came in for a search is at hand for later searches of the same
/// database and user until it is no longer good, without being fetched again.
/// Servers that only an older table listed are not among them.
pub proof fn law_fetched_table_is_at_hand(
    m: ManagerView,
    search: AcquisitionView,
    table: TableView,
    now: nat,
    later: nat,
)
    requires
        later < now + table.ttl,
    ensures
        cached_servers(
            step_after_fetch(m, search, Some(table), now).0.entries,
            search.key,
            later,
        ) == Some(resolve_table(table.servers)),
{
    law_table_serves_until_it_expires(m.entries, search.key, table, now, search.key, later);
}

/// With a good table at hand that lists a server in the right role, a search
/// goes straight to such a server. With one that lists none, it asks for a
/// fresh one.
pub proof fn law_good_table_is_used(
    m: ManagerView,
    op: Operation,
    key: RouteKey,
    bookmarks: Seq<Seq<char>>,
    now: nat,
)
    requires
        cached_servers(m.entries, key, now) is Some,
    ensures
        ({
            let servers = cached_servers(m.entries, key, now)->0;
            let step = first_step(m, Some(op), key, bookmarks, now).1;
            if exists|i: int| 0 <= i < servers.len() && (#[trigger] servers[i]).role == op.role() {
                step matches StepView::Connect(server, search) && servers.contains(server)
                    && server.role == op.role() && search.servers == servers
            } else {
                step matches StepView::Fetch(_, search) && search.refresh_attempted
            }
        }),
{
    let servers = cached_servers(m.entries, key, now)->0;
    law_selection_serves_the_operation(m.after_router().turns, op, servers);
    lemma_entry_place(m.entries, key);
    if let Some(server) = m.after_router().turns.server(op, servers) {
        lemma_entry_servers_are_known(m.entries, entry_place(m.entries, key), server);
    }
}

/// The errors of a search say what was missing.
pub proof fn law_failures_are_put_into_words(server: ServerView)
    ensures
        no_available_server(Operation::Read) == ErrorView::ServerUnavailableError(
            "No available readers in the routing table for operation READ"@,
        ),
        no_available_server(Operation::Write) == ErrorView::ServerUnavailableError(
            "No available writers in the routing table for operation WRITE"@,
        ),
        no_pool(server) == ErrorView::ServerUnavailableError(
            "No connection pool found for server: "@ + debug_text(server),
        ),
{
    reveal_strlit("No available ");
    reveal_strlit("readers");
    reveal_strlit("writers");
    reveal_strlit(" in the routing table for operation ");
    reveal_strlit("READ");
    reveal_strlit("WRITE");
    reveal_strlit("No available readers in the routing table for operation READ");
    reveal_strlit("No available writers in the routing table for operation WRITE");
    assert("No available "@ + "readers"@ + " in the routing table for operation "@ + "READ"@
        =~= "No available readers in the routing table for operation READ"@);
    assert("No available "@ + "writers"@ + " in the routing table for operation "@ + "WRITE"@
        =~= "No available writers in the routing table for operation WRITE"@);
}

/// The router to ask is the one whose turn it is among all known servers. It is
/// found exactly if one of them has the role, and is one of those. Picking it
/// takes its turn and changes nothing that is known.
pub proof fn law_router_is_the_next_of_the_known_routers(m: ManagerView)
    ensures
        m.router() == m.turns.router(known_servers(m.entries)),
        m.router() is Some <==> exists|s: ServerView| #[trigger]
            known_servers(m.entries).contains(s) && s.role == "ROUTE"@,
        m.router() matches Some(router) ==> known_servers(m.entries).contains(router) && router.role
            == "ROUTE"@,
        m.after_router().entries == m.entries,
        m.after_router().turns == m.turns.after_router(known_servers(m.entries)),
{
    let known = known_servers(m.entries);
    law_seed_is_asked_only_without_a_router(m);
    law_router_selection(m.turns, known);
    if let Some(router) = m.turns.router(known) {
        let k = choose|k: int| 0 <= k < known.len() && known[k] == router;
        assert(same_address(known[k], router));
    }
    if exists|s: ServerView| #[trigger] known.contains(s) && s.role == "ROUTE"@ {
        let s = choose|s: ServerView| #[trigger] known.contains(s) && s.role == "ROUTE"@;
        let k = choose|k: int| 0 <= k < known.len() && known[k] == s;
        assert(known[k].role == router_role());
    }
}

/// With no good table at hand a search begins with a request for one, for the
/// database, user and bookmarks that were asked for. The request goes to the
/// router whose turn it is among all known servers, of whatever table and
/// however old; to the seed only if no known server is a router.
pub proof fn law_first_request_goes_to_a_known_router(
    m: ManagerView,
    op: Option<Operation>,
    key: RouteKey,
    bookmarks: Seq<Seq<char>>,
    now: nat,
)
    requires
        cached_servers(m.entries, key, now) is None,
    ensures
        ({
            let (after, step) = first_step(m, op, key, bookmarks, now);
            let known = known_servers(m.entries);
            &&& step matches StepView::Fetch(request, search)
            &&& request.key == key
            &&& request.bookmarks == bookmarks
            &&& request.router == m.turns.router(known)
            &&& request.router is Some <==> exists|s: ServerView| #[trigger]
                known.contains(s) && s.role == "ROUTE"@
            &&& request.router matches Some(router) ==> known.contains(router) && router.role
                == "ROUTE"@
            &&& search.key == key
            &&& search.bookmarks == bookmarks
            &&& op matches Some(op) ==> search.op == op
            &&& op is None ==> search.op == Operation::Write
            &&& search.servers.len() == 0
            &&& !search.refresh_attempted
            &&& after.entries == m.entries
            &&& after.turns == m.turns.after_router(known)
        }),
{
    law_router_is_the_next_of_the_known_routers(m);
}

/// Where a search goes from the servers that it has left. If one of them is in
/// the right role, to the one whose turn it is among those, unless that has lost
/// its pool. Else it asks once for a fresh table: the router whose turn it is
/// among all known servers, or the seed if none of them is a router. Else it
/// fails. What is known of the servers does not change.
pub proof fn law_search_goes_on_from_its_servers(m: ManagerView, search: AcquisitionView)
    ensures
        ({
            let (after, step) = next_step(m, search);
            let known = known_servers(m.entries);
            let role = if search.op == Operation::Read {
                "READ"@
            } else {
                "WRITE"@
            };
            let served = exists|s: ServerView| #[trigger]
                search.servers.contains(s) && s.role == role;
            &&& after.entries == m.entries
            &&& served ==> {
                &&& m.turns.server(search.op, search.servers) matches Some(server)
                &&& search.servers.contains(server)
                &&& server.role == role
                &&& has_pool(m.entries, server) ==> step == StepView::Connect(server, search)
                &&& !has_pool(m.entries, server) ==> step == StepView::Fail(
                    ErrorView::ServerUnavailableError(
                        "No connection pool found for server: "@ + debug_text(server),
                    ),
                )
                &&& after.turns == m.turns.after_server(search.op, search.servers)
            }
            &&& !served && !search.refresh_attempted ==> {
                &&& step matches StepView::Fetch(request, refreshing)
                &&& request.key == search.key
                &&& request.bookmarks == search.bookmarks
                &&& request.router == m.turns.router(known)
                &&& request.router is Some <==> exists|s: ServerView| #[trigger]
                    known.contains(s) && s.role == "ROUTE"@
                &&& request.router matches Some(router) ==> known.contains(router) && router.role
                    == "ROUTE"@
                &&& refreshing == AcquisitionView { refresh_attempted: true, ..search }
                &&& after.turns == m.turns.after_router(known)
            }
            &&& !served && search.refresh_attempted ==> {
                &&& step == StepView::Fail(
                    ErrorView::ServerUnavailableError(
                        if search.op == Operation::Read {
                            "No available readers in the routing table for operation READ"@
                        } else {
                            "No available writers in the routing table for operation WRITE"@
                        },
                    ),
                )
                &&& after == m
            }
        }),
{
    let servers = search.servers;
    let picked = m.after_server(search);
    law_selection_serves_the_operation(m.turns, search.op, servers);
    if exists|s: ServerView| #[trigger] servers.contains(s) && s.role == search.op.role() {
        let s = choose|s: ServerView| #[trigger] servers.contains(s) && s.role == search.op.role();
        let i = choose|i: int| 0 <= i < servers.len() && servers[i] == s;
        assert(servers[i].role == search.op.role());
        law_failures_are_put_into_words(m.turns.server(search.op, servers)->0);
    } else {
        if let Some(server) = m.turns.server(search.op, servers) {
            assert(servers.contains(server) && server.role == search.op.role());
        }
        assert(picked == m);
        law_router_is_the_next_of_the_known_routers(m);
        law_failures_are_put_into_words(
            ServerView { address: Seq::empty(), port: 0, role: Seq::empty() },
        );
    }
}

/// With a good table at hand a search goes to the server of the table in the
/// right role whose turn it is, without a request. If the table lists none, it
/// asks for a fresh one: the router behind the one whose turn it was. A router
/// has had its turn in any case.
pub proof fn law_good_table_is_served_in_turn(
    m: ManagerView,
    op: Option<Operation>,
    key: RouteKey,
    bookmarks: Seq<Seq<char>>,
    now: nat,
)
    requires
        cached_servers(m.entries, key, now) is Some,
    ensures
        ({
            let (after, step) = first_step(m, op, key, bookmarks, now);
            let servers = cached_servers(m.entries, key, now)->0;
            let known = known_servers(m.entries);
            let need = if op is Some {
                op->0
            } else {
                Operation::Write
            };
            let role = if need == Operation::Read {
                "READ"@
            } else {
                "WRITE"@
            };
            let served = exists|s: ServerView| #[trigger] servers.contains(s) && s.role == role;
            let search = AcquisitionView {
                op: need,
                key,
                bookmarks,
                servers,
                refresh_attempted: false,
            };
            &&& after.entries == m.entries
            &&& served ==> {
                &&& m.turns.server(need, servers) matches Some(server)
                &&& servers.contains(server)
                &&& server.role == role
                &&& step == StepView::Connect(server, search)
                &&& after.turns == m.turns.after_router(known).after_server(need, servers)
            }
            &&& !served ==> {
                &&& step matches StepView::Fetch(request, refreshing)
                &&& request.key == key
                &&& request.bookmarks == bookmarks
                &&& request.router == m.turns.after_router(known).router(known)
                &&& request.router is Some <==> exists|s: ServerView| #[trigger]
                    known.contains(s) && s.role == "ROUTE"@
                &&& request.router matches Some(router) ==> known.contains(router) && router.role
                    == "ROUTE"@
                &&& refreshing == AcquisitionView { refresh_attempted: true, ..search }
                &&& after.turns == m.turns.after_router(known).after_router(known)
            }
        }),
{
    let servers = cached_servers(m.entries, key, now)->0;
    let need = if op is Some {
        op->0
    } else {
        Operation::Write
    };
    let search = AcquisitionView { op: need, key, bookmarks, servers, refresh_attempted: false };
    let routed = m.after_router();
    law_search_goes_on_from_its_servers(routed, search);
    lemma_entry_place(m.entries, key);
    if let Some(server) = routed.turns.server(need, servers) {
        law_selection_serves_the_operation(routed.turns, need, servers);
        lemma_entry_servers_are_known(m.entries, entry_place(m.entries, key), server);
    }
}

/// A table that comes in is kept for its key, and the search goes to the server
/// of the table in the right role whose turn it is. If the table lists none, the
/// search asks for a fresh one unless it has done so, and fails then.
pub proof fn law_fetched_table_takes_the_search_further(
    m: ManagerView,
    search: AcquisitionView,
    table: TableView,
    now: nat,
)
    ensures
        ({
            let (after, step) = step_after_fetch(m, search, Some(table), now);
            let listed = resolve_table(table.servers);
            let known = known_servers(after.entries);
            let role = if search.op == Operation::Read {
                "READ"@
            } else {
                "WRITE"@
            };
            let served = exists|s: ServerView| #[trigger] listed.contains(s) && s.role == role;
            &&& after.entries == after_table(m.entries, search.key, table, now)
            &&& served ==> {
                &&& m.turns.server(search.op, listed) matches Some(server)
                &&& listed.contains(server)
                &&& server.role == role
                &&& step == StepView::Connect(server, AcquisitionView { servers: listed, ..search })
                &&& after.turns == m.turns.after_server(search.op, listed)
            }
            &&& !served && !search.refresh_attempted ==> {
                &&& step matches StepView::Fetch(request, refreshing)
                &&& request.key == search.key
                &&& request.bookmarks == search.bookmarks
                &&& request.router == m.turns.router(known)
                &&& request.router is Some <==> exists|s: ServerView| #[trigger]
                    known.contains(s) && s.role == "ROUTE"@
                &&& refreshing == AcquisitionView {
                    servers: listed,
                    refresh_attempted: true,
                    ..search
                }
                &&& after.turns == m.turns.after_router(known)
            }
            &&& !served && search.refresh_attempted ==> step == StepView::Fail(
                ErrorView::ServerUnavailableError(
                    if search.op == Operation::Read {
                        "No available readers in the routing table for operation READ"@
                    } else {
                        "No available writers in the routing table for operation WRITE"@
                    },
                ),
            ) && after.turns == m.turns
        }),
{
    let entries = after_table(m.entries, search.key, table, now);
    let listed = resolve_table(table.servers);
    let came = ManagerView { entries, ..m };
    let with_table = AcquisitionView { servers: listed, ..search };
    law_search_goes_on_from_its_servers(came, with_table);
    lemma_listed_servers_have_pools(m, search.key, table, now);
    law_selection_serves_the_operation(m.turns, search.op, listed);
}

/// Without the table that it asked for, a search asks once more, for a fresh
/// one, and after that fails. Nothing that is known changes.
pub proof fn law_missing_table_is_asked_for_once_more(
    m: ManagerView,
    search: AcquisitionView,
    now: nat,
)
    ensures
        ({
            let (after, step) = step_after_fetch(m, search, None, now);
            let known = known_servers(m.entries);
            &&& after.entries == m.entries
            &&& !search.refresh_attempted ==> {
                &&& step matches StepView::Fetch(request, refreshing)
                &&& request.key == search.key
                &&& request.bookmarks == search.bookmarks
                &&& request.router == m.turns.router(known)
                &&& request.router is Some <==> exists|s: ServerView| #[trigger]
                    known.contains(s) && s.role == "ROUTE"@
                &&& refreshing == AcquisitionView {
                    servers: Seq::empty(),
                    refresh_attempted: true,
                    ..search
                }
                &&& after.turns == m.turns.after_router(known)
            }
            &&& search.refresh_attempted ==> step == StepView::Fail(
                ErrorView::ServerUnavailableError(
                    if search.op == Operation::Read {
                        "No available readers in the routing table for operation READ"@
                    } else {
                        "No available writers in the routing table for operation WRITE"@
                    },
                ),
            ) && after.turns == m.turns
        }),
{
    let empty = AcquisitionView { servers: Seq::empty(), ..search };
    law_search_goes_on_from_its_servers(m, empty);
}

/// A server that gave no connection is struck from all that is known and from
/// what the search has left, in every role, and nothing else is. The search goes
/// to the one of the others in the right role whose turn it is, unless that has
/// lost its pool; if there is none, it asks for a fresh table unless it has done
/// so, and fails then.
pub proof fn law_search_goes_on_without_a_failed_server(
    m: ManagerView,
    server: ServerView,
    search: AcquisitionView,
)
    ensures
        ({
            let (after, step) = step_after_refusal(m, server, search);
            let left = search.servers.filter(
                |s: ServerView| !(s.address == server.address && s.port == server.port),
            );
            let known = known_servers(after.entries);
            let role = if search.op == Operation::Read {
                "READ"@
            } else {
                "WRITE"@
            };
            let served = exists|s: ServerView| #[trigger] left.contains(s) && s.role == role;
            &&& forall|s: ServerView| #[trigger]
                known.contains(s) <==> known_servers(m.entries).contains(s) && !(s.address
                    == server.address && s.port == server.port)
            &&& served ==> {
                &&& m.turns.server(search.op, left) matches Some(next)
                &&& left.contains(next)
                &&& next.role == role
                &&& known.contains(next) ==> step == StepView::Connect(
                    next,
                    AcquisitionView { servers: left, ..search },
                )
                &&& after.turns == m.turns.after_server(search.op, left)
            }
            &&& !served && !search.refresh_attempted ==> {
                &&& step matches StepView::Fetch(request, refreshing)
                &&& request.key == search.key
                &&& request.bookmarks == search.bookmarks
                &&& request.router == m.turns.router(known)
                &&& request.router is Some <==> exists|s: ServerView| #[trigger]
                    known.contains(s) && s.role == "ROUTE"@
                &&& refreshing == AcquisitionView {
                    servers: left,
                    refresh_attempted: true,
                    ..search
                }
                &&& after.turns == m.turns.after_router(known)
            }
            &&& !served && search.refresh_attempted ==> step == StepView::Fail(
                ErrorView::ServerUnavailableError(
                    if search.op == Operation::Read {
                        "No available readers in the routing table for operation READ"@
                    } else {
                        "No available writers in the routing table for operation WRITE"@
                    },
                ),
            ) && after.turns == m.turns
        }),
{
    let entries = after_unavailable(m.entries, server);
    let struck = ManagerView { entries, ..m };
    let left = without_address(search.servers, server);
    let literal = |s: ServerView| !(s.address == server.address && s.port == server.port);
    let pred = |s: ServerView| !same_address(s, server);
    assert(literal =~= pred);
    assert(search.servers.filter(literal) == left);
    law_search_goes_on_from_its_servers(struck, AcquisitionView { servers: left, ..search });
    assert forall|s: ServerView| #[trigger]
        known_servers(entries).contains(s) <==> known_servers(m.entries).contains(s) && !(s.address
            == server.address && s.port == server.port) by {
        lemma_known_after_unavailable(m.entries, server, s);
    }
    if let Some(next) = m.turns.server(search.op, left) {
        law_known_addresses_have_pools(entries, next);
    }
}

} // verus!
