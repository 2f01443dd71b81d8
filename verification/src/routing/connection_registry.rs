//! What is known of the servers.
//!
//! The registry keeps the servers of each routing table that was fetched, by
//! database and user, for as long as the table is good. A server whose address
//! is in one of them has a connection pool. A server that turns out to be
//! unavailable is struck from all of them.

use super::types::{
    BoltServer, Database, ImpersonateUser, RoutingTable, ServerView, TableView,
    lemma_filter_members, name_view, resolve_table, same_address, server_views, without_address,
};
use vstd::prelude::*;

verus! {

struct Entry {
    db: Option<Database>,
    imp_user: Option<ImpersonateUser>,
    servers: Vec<BoltServer>,
    fetched_at: u64,
    ttl: u64,
}

/// What a routing table is asked for by.
pub struct RouteKey {
    pub db: Option<Seq<char>>,
    pub imp_user: Option<Seq<char>>,
}

/// The servers of one routing table.
pub struct EntryView {
    pub key: RouteKey,
    pub servers: Seq<ServerView>,
    /// When the table came, in seconds.
    pub fetched_at: nat,
    /// For how many seconds it is good.
    pub ttl: nat,
}

impl View for Entry {
    type V = EntryView;

    closed spec fn view(&self) -> EntryView {
        EntryView {
            key: RouteKey { db: name_view(self.db), imp_user: name_view(self.imp_user) },
            servers: server_views(self.servers@),
            fetched_at: self.fetched_at as nat,
            ttl: self.ttl as nat,
        }
    }
}

/// The registry.
pub struct ConnectionRegistry {
    entries: Vec<Entry>,
}

impl View for ConnectionRegistry {
    type V = Seq<EntryView>;

    closed spec fn view(&self) -> Seq<EntryView> {
        self.entries@.map_values(|e: Entry| e@)
    }
}

/// The place of the entry with that key, or -1.
pub open spec fn entry_place(entries: Seq<EntryView>, key: RouteKey) -> int
    decreases entries.len(),
{
    if entries.len() == 0 {
        -1
    } else if entries.last().key == key {
        entries.len() - 1
    } else {
        entry_place(entries.drop_last(), key)
    }
}

/// Whether the entry is still good.
pub open spec fn is_good(entry: EntryView, now: nat) -> bool {
    now < entry.fetched_at + entry.ttl
}

/// The servers to use without fetching a table, if there are any such.
pub open spec fn cached_servers(
    entries: Seq<EntryView>,
    key: RouteKey,
    now: nat,
) -> Option<Seq<ServerView>> {
    let place = entry_place(entries, key);
    if place >= 0 && is_good(entries[place], now) {
        Some(entries[place].servers)
    } else {
        None
    }
}

/// The entry made from a table.
pub open spec fn entry_of(key: RouteKey, table: TableView, now: nat) -> EntryView {
    EntryView { key, servers: resolve_table(table.servers), fetched_at: now, ttl: table.ttl as nat }
}

/// The entries after a table came: in the place of the one with the same key,
/// or behind the others.
pub open spec fn after_table(
    entries: Seq<EntryView>,
    key: RouteKey,
    table: TableView,
    now: nat,
) -> Seq<EntryView> {
    let place = entry_place(entries, key);
    if place >= 0 {
        entries.update(place, entry_of(key, table, now))
    } else {
        entries.push(entry_of(key, table, now))
    }
}

/// All servers of all entries.
pub open spec fn known_servers(entries: Seq<EntryView>) -> Seq<ServerView>
    decreases entries.len(),
{
    if entries.len() == 0 {
        Seq::empty()
    } else {
        known_servers(entries.drop_last()) + entries.last().servers
    }
}

/// Whether the list has the server's address.
pub open spec fn has_address(servers: Seq<ServerView>, server: ServerView) -> bool {
    exists|i: int| 0 <= i < servers.len() && same_address(#[trigger] servers[i], server)
}

/// Whether there is a pool for the server.
pub open spec fn has_pool(entries: Seq<EntryView>, server: ServerView) -> bool {
    has_address(known_servers(entries), server)
}

/// The entries after a server was marked unavailable.
pub open spec fn after_unavailable(
    entries: Seq<EntryView>,
    server: ServerView,
) -> Seq<EntryView> {
    entries.map_values(
        |e: EntryView| EntryView { servers: without_address(e.servers, server), ..e },
    )
}

/// A copy of a name.
pub(crate) fn copy_name(name: &Option<String>) -> (copy: Option<String>)
    ensures
        name_view(copy) == name_view(*name),
{
    match name {
        Some(name) => Some(name.clone()),
        None => None,
    }
}

fn same_name(a: &Option<String>, b: &Option<String>) -> (same: bool)
    ensures
        same == (name_view(*a) == name_view(*b)),
{
    match (a, b) {
        (Some(a), Some(b)) => *a == *b,
        (None, None) => true,
        _ => false,
    }
}

/// Appends copies of `servers`.
pub(crate) fn append_servers(out: &mut Vec<BoltServer>, servers: &[BoltServer])
    ensures
        server_views(final(out)@) == server_views(old(out)@) + server_views(servers@),
{
    let mut i: usize = 0;
    assert(server_views(servers@).take(0) == Seq::<ServerView>::empty());
    while i < servers.len()
        invariant
            i <= servers@.len(),
            server_views(out@) == server_views(old(out)@) + server_views(servers@).take(i as int),
        decreases servers@.len() - i,
    {
        let ghost before = out@;
        let copy = servers[i].clone();
        out.push(copy);
        assert(server_views(out@) == server_views(before).push(copy@));
        assert(server_views(servers@).take(i + 1) == server_views(servers@).take(i as int).push(
            copy@,
        ));
        i += 1;
    }
    assert(server_views(servers@).take(i as int) == server_views(servers@));
}

/// Strikes the server's address from the list, in every role.
pub(crate) fn strike_address(servers: &mut Vec<BoltServer>, server: &BoltServer)
    ensures
        server_views(final(servers)@) == without_address(server_views(old(servers)@), server@),
{
    let ghost views = server_views(servers@);
    let ghost pred = |s: ServerView| !same_address(s, server@);
    let mut kept: Vec<BoltServer> = Vec::new();
    let mut i: usize = 0;
    assert(server_views(kept@) == views.take(0).filter(pred)) by {
        reveal(Seq::filter);
    }
    while i < servers.len()
        invariant
            servers@ == old(servers)@,
            views == server_views(servers@),
            pred == (|s: ServerView| !same_address(s, server@)),
            i <= servers@.len(),
            server_views(kept@) == views.take(i as int).filter(pred),
        decreases servers@.len() - i,
    {
        let ghost before = kept@;
        proof {
            assert(views.take(i + 1) == views.take(i as int).push(views[i as int]));
            views.take(i as int).lemma_filter_push(views[i as int], pred);
        }
        if !servers[i].has_same_address(server) {
            let copy = servers[i].clone();
            kept.push(copy);
            assert(server_views(kept@) == server_views(before).push(copy@));
        }
        i += 1;
    }
    assert(views.take(i as int) == views);
    *servers = kept;
}

impl ConnectionRegistry {
    /// A registry that knows of no server.
    pub fn new() -> (registry: Self)
        ensures
            registry@ == Seq::<EntryView>::empty(),
    {
        let registry = ConnectionRegistry { entries: Vec::new() };
        assert(registry@ == Seq::<EntryView>::empty());
        registry
    }

    fn find(&self, db: &Option<Database>, imp_user: &Option<ImpersonateUser>) -> (place: Option<
        usize,
    >)
        ensures
            ({
                let key = RouteKey { db: name_view(*db), imp_user: name_view(*imp_user) };
                match place {
                    Some(place) => entry_place(self@, key) == place && place < self@.len(),
                    None => entry_place(self@, key) < 0,
                }
            }),
    {
        let mut i: usize = self.entries.len();
        let ghost key = RouteKey { db: name_view(*db), imp_user: name_view(*imp_user) };
        assert(self@.take(i as int) == self@);
        while i > 0
            invariant
                key == (RouteKey { db: name_view(*db), imp_user: name_view(*imp_user) }),
                i <= self@.len(),
                self@.len() == self.entries@.len(),
                entry_place(self@, key) == entry_place(self@.take(i as int), key),
            decreases i,
        {
            let ghost head = self@.take(i as int);
            assert(head.drop_last() == self@.take(i - 1));
            assert(head.last() == self.entries@[i - 1]@);
            let entry = &self.entries[i - 1];
            if same_name(&entry.db, db) && same_name(&entry.imp_user, imp_user) {
                return Some(i - 1);
            }
            i -= 1;
        }
        None
    }

    /// The servers for the database and user, unless a table has to be fetched.
    pub fn servers(
        &self,
        db: &Option<Database>,
        imp_user: &Option<ImpersonateUser>,
        now: u64,
    ) -> (servers: Option<Vec<BoltServer>>)
        ensures
            ({
                let key = RouteKey { db: name_view(*db), imp_user: name_view(*imp_user) };
                match servers {
                    Some(servers) => cached_servers(self@, key, now as nat) == Some(
                        server_views(servers@),
                    ),
                    None => cached_servers(self@, key, now as nat) is None,
                }
            }),
    {
        match self.find(db, imp_user) {
            None => None,
            Some(place) => {
                let entry = &self.entries[place];
                assert(entry@ == self@[place as int]);
                if now < entry.fetched_at || now - entry.fetched_at < entry.ttl {
                    let mut servers: Vec<BoltServer> = Vec::new();
                    append_servers(&mut servers, entry.servers.as_slice());
                    assert(server_views(servers@) == entry@.servers);
                    Some(servers)
                } else {
                    None
                }
            },
        }
    }

    /// Takes in a table that was fetched, and gives its servers.
    pub fn refresh_servers(
        &mut self,
        db: &Option<Database>,
        imp_user: &Option<ImpersonateUser>,
        table: &RoutingTable,
        now: u64,
    ) -> (servers: Vec<BoltServer>)
        ensures
            server_views(servers@) == resolve_table(table@.servers),
            final(self)@ == after_table(
                old(self)@,
                RouteKey { db: name_view(*db), imp_user: name_view(*imp_user) },
                table@,
                now as nat,
            ),
    {
        let servers = BoltServer::resolve(table);
        let mut copies: Vec<BoltServer> = Vec::new();
        append_servers(&mut copies, servers.as_slice());
        assert(server_views(copies@) == server_views(servers@));
        let entry = Entry {
            db: copy_name(db),
            imp_user: copy_name(imp_user),
            servers: copies,
            fetched_at: now,
            ttl: table.ttl,
        };
        let ghost key = RouteKey { db: name_view(*db), imp_user: name_view(*imp_user) };
        assert(entry@ == entry_of(key, table@, now as nat));
        match self.find(db, imp_user) {
            Some(place) => {
                self.entries.set(place, entry);
            },
            None => {
                self.entries.push(entry);
            },
        }
        assert(self@ == after_table(old(self)@, key, table@, now as nat));
        servers
    }

    /// All servers that are known.
    pub fn all_servers(&self) -> (servers: Vec<BoltServer>)
        ensures
            server_views(servers@) == known_servers(self@),
    {
        let mut servers: Vec<BoltServer> = Vec::new();
        let mut i: usize = 0;
        assert(server_views(servers@) == known_servers(self@.take(0)));
        while i < self.entries.len()
            invariant
                i <= self@.len(),
                self@.len() == self.entries@.len(),
                server_views(servers@) == known_servers(self@.take(i as int)),
            decreases self@.len() - i,
        {
            append_servers(&mut servers, self.entries[i].servers.as_slice());
            assert(self@.take(i + 1).drop_last() == self@.take(i as int));
            assert(self@.take(i + 1).last() == self.entries@[i as int]@);
            i += 1;
        }
        assert(self@.take(i as int) == self@);
        servers
    }

    /// Whether there is a pool for the server.
    pub fn has_server_pool(&self, server: &BoltServer) -> (has: bool)
        ensures
            has == has_pool(self@, server@),
    {
        let servers = self.all_servers();
        let ghost views = known_servers(self@);
        let mut i: usize = 0;
        while i < servers.len()
            invariant
                views == server_views(servers@),
                views == known_servers(self@),
                i <= views.len(),
                forall|k: int| 0 <= k < i ==> !same_address(#[trigger] views[k], server@),
            decreases views.len() - i,
        {
            assert(views[i as int] == servers@[i as int]@);
            if servers[i].has_same_address(server) {
                return true;
            }
            i += 1;
        }
        false
    }

    /// Strikes a server that could not be reached.
    pub fn mark_unavailable(&mut self, server: &BoltServer)
        ensures
            final(self)@ == after_unavailable(old(self)@, server@),
    {
        let mut kept: Vec<Entry> = Vec::new();
        let ghost all = after_unavailable(self@, server@);
        let mut i: usize = 0;
        while i < self.entries.len()
            invariant
                self@ == old(self)@,
                self@.len() == self.entries@.len(),
                all == after_unavailable(self@, server@),
                i <= self.entries@.len(),
                kept@.len() == i,
                forall|k: int| 0 <= k < i ==> (#[trigger] kept@[k])@ == all[k],
            decreases self.entries@.len() - i,
        {
            let entry = &self.entries[i];
            let mut servers: Vec<BoltServer> = Vec::new();
            append_servers(&mut servers, entry.servers.as_slice());
            assert(server_views(servers@) == entry@.servers);
            strike_address(&mut servers, server);
            let changed = Entry {
                db: copy_name(&entry.db),
                imp_user: copy_name(&entry.imp_user),
                servers,
                fetched_at: entry.fetched_at,
                ttl: entry.ttl,
            };
            assert(changed@ == all[i as int]);
            kept.push(changed);
            i += 1;
        }
        self.entries = kept;
        assert(self@ == all);
    }
}

/// The servers of an entry are known.
pub proof fn lemma_entry_servers_are_known(entries: Seq<EntryView>, place: int, server: ServerView)
    requires
        0 <= place < entries.len(),
        entries[place].servers.contains(server),
    ensures
        known_servers(entries).contains(server),
        has_pool(entries, server),
    decreases entries.len(),
{
    let before = known_servers(entries.drop_last());
    let last = entries.last().servers;
    if place < entries.len() - 1 {
        lemma_entry_servers_are_known(entries.drop_last(), place, server);
        let k = choose|k: int| 0 <= k < before.len() && before[k] == server;
        assert((before + last)[k] == server);
    } else {
        let k = choose|k: int| 0 <= k < last.len() && last[k] == server;
        assert((before + last)[before.len() + k] == server);
    }
    let all = known_servers(entries);
    let k = choose|k: int| 0 <= k < all.len() && all[k] == server;
    assert(same_address(all[k], server));
}

/// A known server is one of an entry's.
proof fn lemma_known_server_has_an_entry(entries: Seq<EntryView>, server: ServerView) -> (place: int)
    requires
        known_servers(entries).contains(server),
    ensures
        0 <= place < entries.len(),
        entries[place].servers.contains(server),
    decreases entries.len(),
{
    let before = known_servers(entries.drop_last());
    let last = entries.last().servers;
    let k = choose|k: int| 0 <= k < (before + last).len() && (before + last)[k] == server;
    if k < before.len() {
        assert(before[k] == server);
        lemma_known_server_has_an_entry(entries.drop_last(), server)
    } else {
        assert(last[k - before.len()] == server);
        entries.len() - 1
    }
}

/// Marking a server leaves just the known servers at other addresses.
pub proof fn lemma_known_after_unavailable(
    entries: Seq<EntryView>,
    server: ServerView,
    other: ServerView,
)
    ensures
        known_servers(after_unavailable(entries, server)).contains(other) <==> known_servers(
            entries,
        ).contains(other) && !same_address(other, server),
{
    let after = after_unavailable(entries, server);
    let pred = |s: ServerView| !same_address(s, server);
    if known_servers(after).contains(other) {
        let place = lemma_known_server_has_an_entry(after, other);
        lemma_filter_members(entries[place].servers, pred);
        lemma_entry_servers_are_known(entries, place, other);
    }
    if known_servers(entries).contains(other) && !same_address(other, server) {
        let place = lemma_known_server_has_an_entry(entries, other);
        lemma_filter_members(entries[place].servers, pred);
        assert(after[place].servers.contains(other));
        lemma_entry_servers_are_known(after, place, other);
    }
}

/// A server that was marked unavailable has no pool and is served from no
/// cached table. Every other server keeps its pool.
pub proof fn law_unavailable_server_is_forgotten(
    entries: Seq<EntryView>,
    server: ServerView,
    other: ServerView,
    key: RouteKey,
    now: nat,
)
    ensures
        !has_pool(after_unavailable(entries, server), server),
        cached_servers(after_unavailable(entries, server), key, now) matches Some(servers)
            ==> !has_address(servers, server),
        !same_address(other, server) ==> (has_pool(after_unavailable(entries, server), other)
            <==> has_pool(entries, other)),
{
    let after = after_unavailable(entries, server);
    let known = known_servers(entries);
    let left = known_servers(after);
    if has_pool(after, server) {
        let i = choose|i: int| 0 <= i < left.len() && same_address(#[trigger] left[i], server);
        assert(left.contains(left[i]));
        lemma_known_after_unavailable(entries, server, left[i]);
    }
    if let Some(servers) = cached_servers(after, key, now) {
        if has_address(servers, server) {
            let i = choose|i: int|
                0 <= i < servers.len() && same_address(#[trigger] servers[i], server);
            lemma_entry_place(after, key);
            assert(servers.contains(servers[i]));
            lemma_entry_servers_are_known(after, entry_place(after, key), servers[i]);
            lemma_known_after_unavailable(entries, server, servers[i]);
        }
    }
    if !same_address(other, server) {
        if has_pool(after, other) {
            let i = choose|i: int| 0 <= i < left.len() && same_address(#[trigger] left[i], other);
            assert(left.contains(left[i]));
            lemma_known_after_unavailable(entries, server, left[i]);
            let k = choose|k: int| 0 <= k < known.len() && known[k] == left[i];
            assert(same_address(known[k], other));
        }
        if has_pool(entries, other) {
            let i = choose|i: int| 0 <= i < known.len() && same_address(#[trigger] known[i], other);
            assert(known.contains(known[i]));
            lemma_known_after_unavailable(entries, server, known[i]);
            let k = choose|k: int| 0 <= k < left.len() && left[k] == known[i];
            assert(same_address(left[k], other));
        }
    }
}

/// What the place of a key is: that of an entry with the key, and none only if
/// there is no such entry.
pub proof fn lemma_entry_place(entries: Seq<EntryView>, key: RouteKey)
    ensures
        ({
            let place = entry_place(entries, key);
            &&& place < entries.len()
            &&& place >= 0 ==> entries[place].key == key
            &&& forall|i: int|
                place < i < entries.len() && 0 <= i ==> (#[trigger] entries[i]).key != key
        }),
    decreases entries.len(),
{
    if entries.len() > 0 && entries.last().key != key {
        lemma_entry_place(entries.drop_last(), key);
        assert(forall|i: int| 0 <= i < entries.len() - 1 ==> entries.drop_last()[i] == entries[i]);
    }
}

/// No two entries have the same key.
pub open spec fn keys_are_distinct(entries: Seq<EntryView>) -> bool {
    forall|i: int, j: int|
        0 <= i < j < entries.len() ==> (#[trigger] entries[i]).key != (#[trigger] entries[j]).key
}

/// Whatever happens to a registry, it has one entry for a key at most.
pub proof fn law_one_entry_per_key(
    entries: Seq<EntryView>,
    key: RouteKey,
    table: TableView,
    now: nat,
    server: ServerView,
)
    requires
        keys_are_distinct(entries),
    ensures
        keys_are_distinct(after_table(entries, key, table, now)),
        keys_are_distinct(after_unavailable(entries, server)),
{
    lemma_entry_place(entries, key);
}

/// A table serves its key from the moment it came until it is no longer good,
/// whatever was there before, and leaves all other keys alone.
pub proof fn law_table_serves_until_it_expires(
    entries: Seq<EntryView>,
    key: RouteKey,
    table: TableView,
    now: nat,
    other: RouteKey,
    later: nat,
)
    ensures
        cached_servers(after_table(entries, key, table, now), key, later) == if later < now
            + table.ttl {
            Some(resolve_table(table.servers))
        } else {
            None
        },
        other != key ==> cached_servers(after_table(entries, key, table, now), other, later)
            == cached_servers(entries, other, later),
{
    let after = after_table(entries, key, table, now);
    lemma_entry_place(entries, key);
    lemma_entry_place(after, key);
    let at = if entry_place(entries, key) >= 0 {
        entry_place(entries, key)
    } else {
        entries.len() as int
    };
    assert(after[at].key == key);
    assert(entry_place(after, key) == at);
    if other != key {
        lemma_entry_place(entries, other);
        lemma_entry_place(after, other);
        let a = entry_place(entries, other);
        let b = entry_place(after, other);
        if a >= 0 {
            assert(after[a] == entries[a]);
        }
        if b >= 0 {
            assert(after[b] == entries[b]);
        }
    }
}

/// A server is known exactly if one of the entries has it; the known servers
/// are those of each entry in order.
pub proof fn law_all_servers_of_all_entries_are_known(
    entries: Seq<EntryView>,
    next: EntryView,
    server: ServerView,
)
    ensures
        known_servers(entries).contains(server) <==> exists|e: int|
            0 <= e < entries.len() && (#[trigger] entries[e]).servers.contains(server),
        known_servers(Seq::empty()).len() == 0,
        known_servers(entries.push(next)) == known_servers(entries) + next.servers,
{
    if known_servers(entries).contains(server) {
        let e = lemma_known_server_has_an_entry(entries, server);
        assert(entries[e].servers.contains(server));
    }
    if exists|e: int| 0 <= e < entries.len() && (#[trigger] entries[e]).servers.contains(server) {
        let e = choose|e: int|
            0 <= e < entries.len() && (#[trigger] entries[e]).servers.contains(server);
        lemma_entry_servers_are_known(entries, e, server);
    }
    assert(entries.push(next).drop_last() == entries);
}

/// There is a pool for a server exactly if a known server has its host and port.
pub proof fn law_known_addresses_have_pools(entries: Seq<EntryView>, server: ServerView)
    ensures
        has_pool(entries, server) <==> exists|s: ServerView| #[trigger]
            known_servers(entries).contains(s) && s.address == server.address && s.port
                == server.port,
{
    let known = known_servers(entries);
    if has_pool(entries, server) {
        let i = choose|i: int| 0 <= i < known.len() && same_address(#[trigger] known[i], server);
        assert(known.contains(known[i]));
    }
    if exists|s: ServerView| #[trigger]
        known.contains(s) && s.address == server.address && s.port == server.port {
        let s = choose|s: ServerView| #[trigger]
            known.contains(s) && s.address == server.address && s.port == server.port;
        let i = choose|i: int| 0 <= i < known.len() && known[i] == s;
        assert(same_address(known[i], server));
    }
}

/// Once a table came for a key, the known servers are those that it lists and
/// those of the entries for other keys. What only the former table for the key
/// listed is forgotten.
pub proof fn law_table_takes_the_place_of_the_former(
    entries: Seq<EntryView>,
    key: RouteKey,
    table: TableView,
    now: nat,
    server: ServerView,
)
    requires
        forall|i: int, j: int|
            0 <= i < j < entries.len() ==> (#[trigger] entries[i]).key
                != (#[trigger] entries[j]).key,
    ensures
        known_servers(after_table(entries, key, table, now)).contains(server) <==> {
            ||| resolve_table(table.servers).contains(server)
            ||| exists|e: int|
                0 <= e < entries.len() && (#[trigger] entries[e]).key != key
                    && entries[e].servers.contains(server)
        },
{
    let after = after_table(entries, key, table, now);
    lemma_entry_place(entries, key);
    let at = if entry_place(entries, key) >= 0 {
        entry_place(entries, key)
    } else {
        entries.len() as int
    };
    assert(after[at] == entry_of(key, table, now));
    if known_servers(after).contains(server) {
        let e = lemma_known_server_has_an_entry(after, server);
        if e != at {
            assert(after[e] == entries[e]);
            assert(entries[e].key != key);
        }
    }
    if resolve_table(table.servers).contains(server) {
        lemma_entry_servers_are_known(after, at, server);
    }
    if exists|e: int|
        0 <= e < entries.len() && (#[trigger] entries[e]).key != key
            && entries[e].servers.contains(server) {
        let e = choose|e: int|
            0 <= e < entries.len() && (#[trigger] entries[e]).key != key
                && entries[e].servers.contains(server);
        assert(e != at);
        assert(after[e] == entries[e]);
        lemma_entry_servers_are_known(after, e, server);
    }
}

/// Without a table nothing is at hand. A server that is marked unavailable is
/// struck from the servers at hand, whichever they are, and the others are at
/// hand as long as before.
pub proof fn law_unavailable_server_leaves_the_others_at_hand(
    entries: Seq<EntryView>,
    server: ServerView,
    key: RouteKey,
    now: nat,
)
    ensures
        cached_servers(Seq::empty(), key, now) is None,
        cached_servers(after_unavailable(entries, server), key, now) == match cached_servers(
            entries,
            key,
            now,
        ) {
            Some(servers) => Some(
                servers.filter(
                    |s: ServerView| !(s.address == server.address && s.port == server.port),
                ),
            ),
            None => None,
        },
{
    let after = after_unavailable(entries, server);
    lemma_entry_place(entries, key);
    lemma_entry_place(after, key);
    let a = entry_place(entries, key);
    let b = entry_place(after, key);
    if a >= 0 {
        assert(after[a].key == key);
    }
    if b >= 0 {
        assert(entries[b].key == key);
    }
    assert(a == b || (a < 0 && b < 0));
    if a >= 0 {
        let servers = entries[a].servers;
        let literal = |s: ServerView| !(s.address == server.address && s.port == server.port);
        let pred = |s: ServerView| !same_address(s, server);
        assert(literal =~= pred);
        assert(after[a].servers == without_address(servers, server));
    }
}

} // verus!
