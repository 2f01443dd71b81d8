//! Spreading operations over the servers.

use super::types::{
    BoltServer, Operation, ServerView, lemma_filter_members, server_views, with_role,
};
use vstd::prelude::*;
use vstd::string::*;

verus! {

/// Takes the servers of a role in turn. The turn of each role is counted on its
/// own.
#[derive(Debug)]
pub struct RoundRobinStrategy {
    reader: usize,
    writer: usize,
    router: usize,
}

/// Whose turn it is in each role.
pub struct Turns {
    pub reader: usize,
    pub writer: usize,
    pub router: usize,
}

/// The role of the servers that hand out routing tables.
pub open spec fn router_role() -> Seq<char> {
    "ROUTE"@
}

/// The candidate whose turn it is.
pub open spec fn pick(candidates: Seq<ServerView>, turn: usize) -> Option<ServerView> {
    if candidates.len() == 0 {
        None
    } else {
        Some(candidates[turn as int % candidates.len() as int])
    }
}

/// The turn after a pick: the next, unless there was nobody to pick.
pub open spec fn next_turn(candidates: Seq<ServerView>, turn: usize) -> usize {
    if candidates.len() == 0 {
        turn
    } else if turn == usize::MAX {
        0
    } else {
        (turn + 1) as usize
    }
}

impl Turns {
    /// The turn of the role that serves the operation.
    pub open spec fn of(self, op: Operation) -> usize {
        match op {
            Operation::Read => self.reader,
            Operation::Write => self.writer,
        }
    }

    /// The turns after a server for the operation was picked.
    pub open spec fn after_server(self, op: Operation, servers: Seq<ServerView>) -> Turns {
        let turn = next_turn(with_role(servers, op.role()), self.of(op));
        match op {
            Operation::Read => Turns { reader: turn, ..self },
            Operation::Write => Turns { writer: turn, ..self },
        }
    }

    /// The turns after a router was picked.
    pub open spec fn after_router(self, servers: Seq<ServerView>) -> Turns {
        Turns { router: next_turn(with_role(servers, router_role()), self.router), ..self }
    }

    /// The server picked for the operation.
    pub open spec fn server(self, op: Operation, servers: Seq<ServerView>) -> Option<ServerView> {
        pick(with_role(servers, op.role()), self.of(op))
    }

    /// The router picked.
    pub open spec fn router(self, servers: Seq<ServerView>) -> Option<ServerView> {
        pick(with_role(servers, router_role()), self.router)
    }
}

impl View for RoundRobinStrategy {
    type V = Turns;

    closed spec fn view(&self) -> Turns {
        Turns { reader: self.reader, writer: self.writer, router: self.router }
    }
}

/// An optional server as the contracts see it.
pub open spec fn choice_view(server: Option<BoltServer>) -> Option<ServerView> {
    match server {
        Some(server) => Some(server@),
        None => None,
    }
}

/// Picks, among the servers in that role, the one whose turn it is.
fn select(servers: &[BoltServer], role: &str, turn: &mut usize) -> (choice: Option<BoltServer>)
    ensures
        choice_view(choice) == pick(with_role(server_views(servers@), role@), *old(turn)),
        *final(turn) == next_turn(with_role(server_views(servers@), role@), *old(turn)),
{
    let role: String = role.to_owned();
    let ghost views = server_views(servers@);
    let ghost pred = |s: ServerView| s.role == role@;
    let mut places: Vec<usize> = Vec::new();
    let mut i: usize = 0;
    assert(views.take(0).filter(pred) == Seq::<ServerView>::empty()) by {
        reveal(Seq::filter);
    }
    while i < servers.len()
        invariant
            views == server_views(servers@),
            pred == (|s: ServerView| s.role == role@),
            i <= servers@.len(),
            places@.len() == views.take(i as int).filter(pred).len(),
            forall|k: int|
                0 <= k < places@.len() ==> #[trigger] places@[k] < i && views[places@[k] as int]
                    == views.take(i as int).filter(pred)[k],
        decreases servers@.len() - i,
    {
        proof {
            assert(views.take(i + 1) == views.take(i as int).push(views[i as int]));
            views.take(i as int).lemma_filter_push(views[i as int], pred);
        }
        if servers[i].has_role(&role) {
            places.push(i);
        }
        i += 1;
    }
    assert(views.take(i as int) == views);
    if places.len() == 0 {
        return None;
    }
    let used: usize = *turn % places.len();
    *turn = turn.wrapping_add(1);
    Some(servers[places[used]].clone())
}

impl RoundRobinStrategy {
    /// A strategy that starts with the first server in each role.
    pub fn new() -> (strategy: Self)
        ensures
            strategy@ == (Turns { reader: 0, writer: 0, router: 0 }),
    {
        RoundRobinStrategy { reader: 0, writer: 0, router: 0 }
    }

    /// The next server that reads.
    pub fn select_reader(&mut self, servers: &[BoltServer]) -> (choice: Option<BoltServer>)
        ensures
            choice_view(choice) == old(self)@.server(Operation::Read, server_views(servers@)),
            final(self)@ == old(self)@.after_server(Operation::Read, server_views(servers@)),
    {
        select(servers, "READ", &mut self.reader)
    }

    /// The next server that writes.
    pub fn select_writer(&mut self, servers: &[BoltServer]) -> (choice: Option<BoltServer>)
        ensures
            choice_view(choice) == old(self)@.server(Operation::Write, server_views(servers@)),
            final(self)@ == old(self)@.after_server(Operation::Write, server_views(servers@)),
    {
        select(servers, "WRITE", &mut self.writer)
    }

    /// The next server that hands out routing tables.
    pub fn select_router(&mut self, servers: &[BoltServer]) -> (choice: Option<BoltServer>)
        ensures
            choice_view(choice) == old(self)@.router(server_views(servers@)),
            final(self)@ == old(self)@.after_router(server_views(servers@)),
    {
        select(servers, "ROUTE", &mut self.router)
    }
}

/// A server is found for an operation exactly if the list has one in its role,
/// and it is one of those.
pub proof fn law_selection_serves_the_operation(
    turns: Turns,
    op: Operation,
    servers: Seq<ServerView>,
)
    ensures
        turns.server(op, servers) is Some <==> exists|i: int|
            0 <= i < servers.len() && (#[trigger] servers[i]).role == op.role(),
        turns.server(op, servers) matches Some(s) ==> servers.contains(s) && s.role == op.role(),
{
    lemma_pick(servers, op.role(), turns.of(op));
}

/// A router is found exactly if the list has one, and it is one of those.
pub proof fn law_router_selection(turns: Turns, servers: Seq<ServerView>)
    ensures
        turns.router(servers) is Some <==> exists|i: int|
            0 <= i < servers.len() && (#[trigger] servers[i]).role == router_role(),
        turns.router(servers) matches Some(s) ==> servers.contains(s) && s.role == router_role(),
{
    lemma_pick(servers, router_role(), turns.router);
}

proof fn lemma_pick(servers: Seq<ServerView>, role: Seq<char>, turn: usize)
    ensures
        pick(with_role(servers, role), turn) is Some <==> exists|i: int|
            0 <= i < servers.len() && (#[trigger] servers[i]).role == role,
        pick(with_role(servers, role), turn) matches Some(s) ==> servers.contains(s) && s.role
            == role,
{
    let pred = |s: ServerView| s.role == role;
    let found = servers.filter(pred);
    lemma_filter_members(servers, pred);
    if exists|i: int| 0 <= i < servers.len() && (#[trigger] servers[i]).role == role {
        let i = choose|i: int| 0 <= i < servers.len() && (#[trigger] servers[i]).role == role;
        assert(pred(servers[i]));
        assert(servers.contains(servers[i]));
        assert(found.contains(servers[i]));
    }
    if found.len() > 0 {
        let k = turn as int % found.len() as int;
        assert(0 <= k < found.len());
        assert(found.contains(found[k]));
    }
}

/// As many picks in a row as there are servers in the role, from the same list,
/// take each of them once. (The counter starts over after `usize::MAX`, where a
/// round may be cut short.)
pub proof fn law_every_server_gets_its_turn(candidates: Seq<ServerView>, turn: usize, place: int)
    requires
        0 <= place < candidates.len(),
        turn + candidates.len() <= usize::MAX,
    ensures
        exists|k: int|
            0 <= k < candidates.len() && #[trigger] pick(candidates, (turn + k) as usize) == Some(
                candidates[place],
            ),
        forall|t: usize|
            #![trigger next_turn(candidates, t)]
            turn <= t < turn + candidates.len() ==> next_turn(candidates, t) == t + 1,
{
    let n = candidates.len() as int;
    let at = turn as int % n;
    let k = if place >= at {
        place - at
    } else {
        place - at + n
    };
    assert((turn + k) % n == place) by {
        vstd::arithmetic::div_mod::lemma_fundamental_div_mod(turn as int, n);
        let q = turn as int / n;
        if place >= at {
            assert(turn + k == q * n + place) by {
                assert(n * q == q * n) by (nonlinear_arith);
            }
            vstd::arithmetic::div_mod::lemma_fundamental_div_mod_converse(turn + k, n, q, place);
        } else {
            assert(turn + k == (q + 1) * n + place) by {
                assert((q + 1) * n == n * q + n) by (nonlinear_arith);
            }
            vstd::arithmetic::div_mod::lemma_fundamental_div_mod_converse(
                turn + k,
                n,
                q + 1,
                place,
            );
        }
    }
    assert(pick(candidates, (turn + k) as usize) == Some(candidates[place]));
}

/// The turns after as many picks for the operation from the same list.
pub open spec fn after_picks(
    turns: Turns,
    op: Operation,
    servers: Seq<ServerView>,
    picks: nat,
) -> Turns
    decreases picks,
{
    if picks == 0 {
        turns
    } else {
        after_picks(turns, op, servers, (picks - 1) as nat).after_server(op, servers)
    }
}

/// The turns after as many picks of a router from the same list.
pub open spec fn after_router_picks(turns: Turns, servers: Seq<ServerView>, picks: nat) -> Turns
    decreases picks,
{
    if picks == 0 {
        turns
    } else {
        after_router_picks(turns, servers, (picks - 1) as nat).after_router(servers)
    }
}

/// Picks for an operation from a list go round all servers that the list has in
/// the role, in its order: each pick takes the one behind that of the pick
/// before, and the first again after the last. A new strategy starts with the
/// first. (The counter starts over after `usize::MAX`, where a round may be cut
/// short.)
pub proof fn law_picks_go_round_the_servers_of_the_role(
    turns: Turns,
    op: Operation,
    servers: Seq<ServerView>,
    picks: nat,
)
    requires
        op == Operation::Read ==> turns.reader + picks <= usize::MAX,
        op == Operation::Write ==> turns.writer + picks <= usize::MAX,
    ensures
        ({
            let role = if op == Operation::Read {
                "READ"@
            } else {
                "WRITE"@
            };
            let all = servers.filter(|s: ServerView| s.role == role);
            let start = if op == Operation::Read {
                turns.reader
            } else {
                turns.writer
            };
            let choice = after_picks(turns, op, servers, picks).server(op, servers);
            if all.len() == 0 {
                choice is None && after_picks(turns, op, servers, picks) == turns
            } else {
                choice == Some(all[(start + picks) % all.len() as int])
            }
        }),
{
    lemma_after_picks(turns, op, servers, picks);
}

proof fn lemma_after_picks(turns: Turns, op: Operation, servers: Seq<ServerView>, picks: nat)
    requires
        turns.of(op) + picks <= usize::MAX,
    ensures
        after_picks(turns, op, servers, picks).of(op) == if with_role(servers, op.role()).len()
            == 0 {
            turns.of(op) as int
        } else {
            turns.of(op) + picks
        },
        with_role(servers, op.role()).len() == 0 ==> after_picks(turns, op, servers, picks)
            == turns,
    decreases picks,
{
    if picks > 0 {
        lemma_after_picks(turns, op, servers, (picks - 1) as nat);
    }
}

/// Picks of a router from a list go round all servers that the list has in the
/// role of a router, likewise.
pub proof fn law_router_picks_go_round(turns: Turns, servers: Seq<ServerView>, picks: nat)
    requires
        turns.router + picks <= usize::MAX,
    ensures
        ({
            let all = servers.filter(|s: ServerView| s.role == "ROUTE"@);
            let choice = after_router_picks(turns, servers, picks).router(servers);
            if all.len() == 0 {
                choice is None && after_router_picks(turns, servers, picks) == turns
            } else {
                choice == Some(all[(turns.router + picks) % all.len() as int])
            }
        }),
{
    lemma_after_router_picks(turns, servers, picks);
}

proof fn lemma_after_router_picks(turns: Turns, servers: Seq<ServerView>, picks: nat)
    requires
        turns.router + picks <= usize::MAX,
    ensures
        after_router_picks(turns, servers, picks).router == if with_role(
            servers,
            router_role(),
        ).len() == 0 {
            turns.router as int
        } else {
            turns.router + picks
        },
        with_role(servers, router_role()).len() == 0 ==> after_router_picks(turns, servers, picks)
            == turns,
    decreases picks,
{
    if picks > 0 {
        lemma_after_router_picks(turns, servers, (picks - 1) as nat);
    }
}

/// As many picks in a row for an operation as the list has servers in the role
/// take every one of them: whichever server of the list is in the role, one of
/// the picks takes it.
pub proof fn law_no_server_of_the_role_is_passed_over(
    turns: Turns,
    op: Operation,
    servers: Seq<ServerView>,
    server: ServerView,
)
    requires
        servers.contains(server),
        op == Operation::Read ==> server.role == "READ"@,
        op == Operation::Write ==> server.role == "WRITE"@,
        op == Operation::Read ==> turns.reader + servers.len() <= usize::MAX,
        op == Operation::Write ==> turns.writer + servers.len() <= usize::MAX,
    ensures
        exists|k: nat|
            k < servers.filter(|s: ServerView| s.role == server.role).len()
                && #[trigger] after_picks(turns, op, servers, k).server(op, servers) == Some(
                server,
            ),
{
    let pred = |s: ServerView| s.role == op.role();
    let all = with_role(servers, op.role());
    lemma_filter_members(servers, pred);
    assert(all.contains(server));
    let place = choose|i: int| 0 <= i < all.len() && all[i] == server;
    law_every_server_gets_its_turn(all, turns.of(op), place);
    let k = choose|k: int|
        0 <= k < all.len() && #[trigger] pick(all, (turns.of(op) + k) as usize) == Some(all[place]);
    lemma_after_picks(turns, op, servers, k as nat);
    assert(after_picks(turns, op, servers, k as nat).server(op, servers) == Some(server));
    assert(servers.filter(|s: ServerView| s.role == server.role) == all);
}

/// Picks for one operation, for the other and of routers do not disturb each
/// other.
pub proof fn law_each_role_has_its_own_turn(
    turns: Turns,
    servers: Seq<ServerView>,
    others: Seq<ServerView>,
)
    ensures
        turns.after_server(Operation::Read, servers).server(Operation::Write, others)
            == turns.server(Operation::Write, others),
        turns.after_server(Operation::Read, servers).router(others) == turns.router(others),
        turns.after_server(Operation::Write, servers).server(Operation::Read, others)
            == turns.server(Operation::Read, others),
        turns.after_server(Operation::Write, servers).router(others) == turns.router(others),
        turns.after_router(servers).server(Operation::Read, others) == turns.server(
            Operation::Read,
            others,
        ),
        turns.after_router(servers).server(Operation::Write, others) == turns.server(
            Operation::Write,
            others,
        ),
        turns.after_server(Operation::Read, servers).writer == turns.writer,
        turns.after_server(Operation::Read, servers).router == turns.router,
        turns.after_server(Operation::Write, servers).reader == turns.reader,
        turns.after_server(Operation::Write, servers).router == turns.router,
        turns.after_router(servers).reader == turns.reader,
        turns.after_router(servers).writer == turns.writer,
{
}

/// A choice is seen as the server that it is, or as none.
pub proof fn law_choice_is_seen_as_it_is(choice: Option<BoltServer>)
    ensures
        choice is None <==> choice_view(choice) is None,
        choice is Some ==> choice_view(choice) == Some(choice->0@),
{
}

/// The counter of a role starts over after `usize::MAX`, and stands still where
/// the list has no server in the role.
pub proof fn law_counter_starts_over(turns: Turns, servers: Seq<ServerView>)
    ensures
        servers.filter(|s: ServerView| s.role == "READ"@).len() > 0 && turns.reader == usize::MAX
            ==> turns.after_server(Operation::Read, servers).reader == 0,
        servers.filter(|s: ServerView| s.role == "WRITE"@).len() > 0 && turns.writer == usize::MAX
            ==> turns.after_server(Operation::Write, servers).writer == 0,
        servers.filter(|s: ServerView| s.role == "ROUTE"@).len() > 0 && turns.router == usize::MAX
            ==> turns.after_router(servers).router == 0,
        servers.filter(|s: ServerView| s.role == "READ"@).len() == 0 ==> turns.after_server(
            Operation::Read,
            servers,
        ) == turns,
        servers.filter(|s: ServerView| s.role == "WRITE"@).len() == 0 ==> turns.after_server(
            Operation::Write,
            servers,
        ) == turns,
        servers.filter(|s: ServerView| s.role == "ROUTE"@).len() == 0 ==> turns.after_router(
            servers,
        ) == turns,
{
}

} // verus!
