//! Servers and routing tables.

use crate::text::{
    decimal, decimal_text, decimal_value, is_decimal, is_digit, law_decimal_reads_back,
    parse_decimal, quoted, quoted_text,
};
use vstd::prelude::*;
use vstd::string::*;

verus! {

/// The name of a database.
pub type Database = String;

/// The name of a user to act for.
pub type ImpersonateUser = String;

/// What a query does.
#[derive(Debug, Clone, Copy, PartialEq, Eq, Structural)]
pub enum Operation {
    Read,
    Write,
}

impl Operation {
    /// The role that a server needs to serve the operation, which is also how
    /// the operation is printed.
    pub open spec fn role(self) -> Seq<char> {
        match self {
            Operation::Read => "READ"@,
            Operation::Write => "WRITE"@,
        }
    }

    /// What the servers in that role are called in messages.
    pub open spec fn servers_name(self) -> Seq<char> {
        match self {
            Operation::Read => "readers"@,
            Operation::Write => "writers"@,
        }
    }

    /// The role that a server needs to serve the operation.
    pub fn role_text(self) -> (out: &'static str)
        ensures
            out@ == self.role(),
    {
        match self {
            Operation::Read => "READ",
            Operation::Write => "WRITE",
        }
    }

    /// What the servers in that role are called in messages.
    pub fn servers_text(self) -> (out: &'static str)
        ensures
            out@ == self.servers_name(),
    {
        match self {
            Operation::Read => "readers",
            Operation::Write => "writers",
        }
    }
}

/// A server in one of its roles.
#[derive(Debug, PartialEq, Eq)]
pub struct BoltServer {
    pub address: String,
    pub port: u16,
    pub role: String,
}

/// A server as the contracts see it.
pub struct ServerView {
    pub address: Seq<char>,
    pub port: u16,
    pub role: Seq<char>,
}

impl View for BoltServer {
    type V = ServerView;

    open spec fn view(&self) -> ServerView {
        ServerView { address: self.address@, port: self.port, role: self.role@ }
    }
}

/// The servers of a list, as the contracts see them.
pub open spec fn server_views(servers: Seq<BoltServer>) -> Seq<ServerView> {
    servers.map_values(|s: BoltServer| s@)
}

/// Both are the same machine and port, in whatever role.
pub open spec fn same_address(a: ServerView, b: ServerView) -> bool {
    a.address == b.address && a.port == b.port
}

/// The servers of the list in that role.
pub open spec fn with_role(servers: Seq<ServerView>, role: Seq<char>) -> Seq<ServerView> {
    servers.filter(|s: ServerView| s.role == role)
}

/// The list without the server's address, in any role.
pub open spec fn without_address(servers: Seq<ServerView>, server: ServerView) -> Seq<ServerView> {
    servers.filter(|s: ServerView| !same_address(s, server))
}

/// How a server is printed for debugging, given its texts in quotes.
pub open spec fn debug_form(address: Seq<char>, port: u16, role: Seq<char>) -> Seq<char> {
    "BoltServer { address: "@ + address + ", port: "@ + decimal_text(port as nat) + ", role: "@
        + role + " }"@
}

/// How a server is printed for debugging.
pub open spec fn debug_text(server: ServerView) -> Seq<char> {
    debug_form(quoted_text(server.address), server.port, quoted_text(server.role))
}

/// Host and port as they are written in a routing table.
pub open spec fn address_text(address: Seq<char>, port: u16) -> Seq<char> {
    address + ":"@ + decimal_text(port as nat)
}

/// The place of the last colon, or -1.
pub open spec fn last_colon(text: Seq<char>) -> int
    decreases text.len(),
{
    if text.len() == 0 {
        -1
    } else if text.last() == ':' {
        text.len() - 1
    } else {
        last_colon(text.drop_last())
    }
}

/// Host and port that the text names: all before the last colon, and the
/// decimal number behind it. `None` without such a number below 2^16.
pub open spec fn split_address(text: Seq<char>) -> Option<(Seq<char>, u16)> {
    let colon = last_colon(text);
    let digits = text.skip(colon + 1);
    if colon >= 0 && is_decimal(digits) && decimal_value(digits) <= u16::MAX {
        Some((text.take(colon), decimal_value(digits) as u16))
    } else {
        None
    }
}

impl Clone for BoltServer {
    fn clone(&self) -> (copy: Self)
        ensures
            copy@ == self@,
    {
        BoltServer { address: self.address.clone(), port: self.port, role: self.role.clone() }
    }
}

impl BoltServer {
    /// Whether both are the same machine and port, in whatever role.
    pub fn has_same_address(&self, other: &BoltServer) -> (same: bool)
        ensures
            same == same_address(self@, other@),
    {
        self.address == other.address && self.port == other.port
    }

    /// Whether the server has that role.
    pub fn has_role(&self, role: &String) -> (has: bool)
        ensures
            has == (self@.role == role@),
    {
        self.role == *role
    }

    /// The server that a routing table names by `text` in that role, if it can
    /// be made out.
    pub fn parse(text: &str, role: &String) -> (server: Option<BoltServer>)
        ensures
            match server {
                Some(server) => split_address(text@) == Some((server@.address, server@.port))
                    && server@.role == role@,
                None => split_address(text@) is None,
            },
    {
        let len: usize = text.unicode_len();
        let mut i: usize = len;
        assert(text@.take(len as int) == text@);
        while i > 0
            invariant
                len == text@.len(),
                i <= len,
                last_colon(text@) == last_colon(text@.take(i as int)),
            decreases i,
        {
            let ghost head = text@.take(i as int);
            assert(head.last() == text@[i - 1]);
            assert(head.drop_last() == text@.take(i - 1));
            if text.get_char(i - 1) == ':' {
                return match parse_decimal(text, i) {
                    Some(port) => Some(
                        BoltServer {
                            address: text.substring_char(0, i - 1).to_owned(),
                            port,
                            role: role.clone(),
                        },
                    ),
                    None => None,
                };
            }
            i -= 1;
        }
        None
    }

    /// Host and port, as they are written in a routing table.
    pub fn socket_address(&self) -> (text: String)
        ensures
            text@ == address_text(self@.address, self@.port),
    {
        let mut text = self.address.clone();
        text.append(":");
        text.append(decimal(self.port).as_str());
        text
    }

    /// The server as it is printed for debugging.
    pub fn to_debug(&self) -> (text: String)
        ensures
            text@ == debug_text(self@),
    {
        let address = quoted(self.address.as_str());
        let role = quoted(self.role.as_str());
        BoltServer::debug_parts(address.as_str(), self.port, role.as_str())
    }

    /// A server as it is printed for debugging, given its texts in quotes.
    pub fn debug_parts(address: &str, port: u16, role: &str) -> (text: String)
        ensures
            text@ == debug_form(address@, port, role@),
    {
        let mut text = "BoltServer { address: ".to_owned();
        text.append(address);
        text.append(", port: ");
        text.append(decimal(port).as_str());
        text.append(", role: ");
        text.append(role);
        text.append(" }");
        text
    }
}

/// Addresses of servers in one role, as a routing table lists them.
#[derive(Debug, Clone)]
pub struct Server {
    pub addresses: Vec<String>,
    pub role: String,
}

/// A routing table.
#[derive(Debug, Clone)]
pub struct RoutingTable {
    /// How many seconds the table stays good.
    pub ttl: u64,
    /// The database it is for.
    pub db: Option<Database>,
    pub servers: Vec<Server>,
}

/// Addresses in one role, as the contracts see them.
pub struct AddressesView {
    pub addresses: Seq<Seq<char>>,
    pub role: Seq<char>,
}

/// A routing table as the contracts see it.
pub struct TableView {
    pub ttl: u64,
    pub db: Option<Seq<char>>,
    pub servers: Seq<AddressesView>,
}

/// Texts as the contracts see them.
pub open spec fn texts(strings: Seq<String>) -> Seq<Seq<char>> {
    strings.map_values(|s: String| s@)
}

/// An optional name as the contracts see it.
pub open spec fn name_view(name: Option<String>) -> Option<Seq<char>> {
    match name {
        Some(name) => Some(name@),
        None => None,
    }
}

impl View for Server {
    type V = AddressesView;

    open spec fn view(&self) -> AddressesView {
        AddressesView { addresses: texts(self.addresses@), role: self.role@ }
    }
}

impl View for RoutingTable {
    type V = TableView;

    open spec fn view(&self) -> TableView {
        TableView {
            ttl: self.ttl,
            db: name_view(self.db),
            servers: self.servers@.map_values(|s: Server| s@),
        }
    }
}

/// The servers that the addresses name, in order. Those that cannot be made
/// out are left out.
pub open spec fn resolve_addresses(addresses: Seq<Seq<char>>, role: Seq<char>) -> Seq<ServerView>
    decreases addresses.len(),
{
    if addresses.len() == 0 {
        Seq::empty()
    } else {
        let before = resolve_addresses(addresses.drop_last(), role);
        match split_address(addresses.last()) {
            Some((address, port)) => before.push(ServerView { address, port, role }),
            None => before,
        }
    }
}

/// The servers that a routing table lists, in order.
pub open spec fn resolve_table(servers: Seq<AddressesView>) -> Seq<ServerView>
    decreases servers.len(),
{
    if servers.len() == 0 {
        Seq::empty()
    } else {
        resolve_table(servers.drop_last()) + resolve_addresses(
            servers.last().addresses,
            servers.last().role,
        )
    }
}

impl BoltServer {
    /// The servers that a routing table lists.
    pub fn resolve(table: &RoutingTable) -> (servers: Vec<BoltServer>)
        ensures
            server_views(servers@) == resolve_table(table@.servers),
    {
        let mut out: Vec<BoltServer> = Vec::new();
        let mut i: usize = 0;
        let ghost groups = table@.servers;
        assert(server_views(out@) == resolve_table(groups.take(0)));
        while i < table.servers.len()
            invariant
                groups == table@.servers,
                i <= groups.len(),
                server_views(out@) == resolve_table(groups.take(i as int)),
            decreases groups.len() - i,
        {
            let group = &table.servers[i];
            let ghost before = server_views(out@);
            let ghost addresses = texts(group.addresses@);
            let mut j: usize = 0;
            assert(before == before + resolve_addresses(addresses.take(0), group.role@));
            while j < group.addresses.len()
                invariant
                    addresses == texts(group.addresses@),
                    j <= addresses.len(),
                    server_views(out@) == before + resolve_addresses(
                        addresses.take(j as int),
                        group.role@,
                    ),
                decreases addresses.len() - j,
            {
                let ghost so_far = out@;
                assert(addresses.take(j + 1).drop_last() == addresses.take(j as int));
                if let Some(server) = BoltServer::parse(
                    group.addresses[j].as_str(),
                    &group.role,
                ) {
                    out.push(server);
                    assert(server_views(out@) == server_views(so_far).push(server@));
                }
                j += 1;
            }
            assert(addresses.take(j as int) == addresses);
            assert(groups[i as int] == group@);
            assert(groups.take(i + 1).drop_last() == groups.take(i as int));
            i += 1;
        }
        assert(groups.take(i as int) == groups);
        out
    }
}

/// A filtered list holds just the members that pass.
pub proof fn lemma_filter_members<A>(list: Seq<A>, pred: spec_fn(A) -> bool)
    ensures
        forall|x: A| #[trigger] list.filter(pred).contains(x) <==> list.contains(x) && pred(x),
        list.filter(pred).len() <= list.len(),
{
    broadcast use vstd::seq_lib::group_filter_ensures;

    let kept = list.filter(pred);
    assert forall|x: A| #[trigger] kept.contains(x) <==> list.contains(x) && pred(x) by {
        if kept.contains(x) {
            list.lemma_filter_contains_rev(pred, x);
            let k = choose|k: int| 0 <= k < kept.len() && kept[k] == x;
            assert(pred(kept[k]));
        }
        if list.contains(x) && pred(x) {
            let i = choose|i: int| 0 <= i < list.len() && list[i] == x;
            assert(kept.contains(list[i]));
        }
    }
}

/// An address written out from host and port is read back as the same host and
/// port, whatever the host is.
pub proof fn law_address_reads_back(address: Seq<char>, port: u16)
    ensures
        split_address(address_text(address, port)) == Some((address, port)),
{
    let digits = decimal_text(port as nat);
    let text = address_text(address, port);
    reveal_strlit(":");
    law_decimal_reads_back(port as nat);
    assert(text == address.push(':') + digits);
    lemma_last_colon(address.push(':'), digits);
    assert(text.skip(address.len() as int + 1) == digits);
    assert(text.take(address.len() as int) == address);
}

/// Different hosts or ports are written differently.
pub proof fn law_addresses_are_written_differently(a: ServerView, b: ServerView)
    ensures
        address_text(a.address, a.port) == address_text(b.address, b.port) <==> same_address(a, b),
{
    law_address_reads_back(a.address, a.port);
    law_address_reads_back(b.address, b.port);
}

/// Digits behind a text do not move its last colon.
proof fn lemma_last_colon(text: Seq<char>, digits: Seq<char>)
    requires
        forall|i: int| 0 <= i < digits.len() ==> is_digit(#[trigger] digits[i]),
    ensures
        last_colon(text + digits) == last_colon(text),
    decreases digits.len(),
{
    if digits.len() == 0 {
        assert(text + digits == text);
    } else {
        assert(is_digit(digits.last()));
        assert((text + digits).drop_last() == text + digits.drop_last());
        lemma_last_colon(text, digits.drop_last());
    }
}

/// The role that serves an operation, and what its servers are called.
pub proof fn law_operations_have_their_roles(op: Operation)
    ensures
        op == Operation::Read ==> op.role() == "READ"@ && op.servers_name() == "readers"@,
        op == Operation::Write ==> op.role() == "WRITE"@ && op.servers_name() == "writers"@,
        Operation::Read.role() != Operation::Write.role(),
{
    reveal_strlit("READ");
    reveal_strlit("WRITE");
    assert("READ"@.len() != "WRITE"@.len());
}

/// Two servers are at the same address exactly if host and port agree, whatever
/// their roles.
pub proof fn law_address_is_host_and_port(a: ServerView, b: ServerView)
    ensures
        same_address(a, b) <==> a.address == b.address && a.port == b.port,
{
}

/// The servers of a role are all servers of the list in that role and no
/// others, as often as the list has them and in its order: one server more at
/// the end of the list is one more at the end of them, if it has the role.
pub proof fn law_role_has_all_its_servers(
    servers: Seq<ServerView>,
    role: Seq<char>,
    server: ServerView,
)
    ensures
        with_role(servers, role).contains(server) <==> servers.contains(server) && server.role
            == role,
        with_role(Seq::empty(), role).len() == 0,
        server.role == role ==> with_role(servers.push(server), role) == with_role(
            servers,
            role,
        ).push(server),
        server.role != role ==> with_role(servers.push(server), role) == with_role(servers, role),
{
    let pred = |s: ServerView| s.role == role;
    lemma_filter_members(servers, pred);
    lemma_filter_members(Seq::<ServerView>::empty(), pred);
    servers.lemma_filter_push(server, pred);
}

/// What is left of a list without an address is all servers of the list at
/// other addresses and no others, as often as the list has them and in its
/// order.
pub proof fn law_striking_an_address_leaves_the_others(
    servers: Seq<ServerView>,
    struck: ServerView,
    server: ServerView,
)
    ensures
        ({
            let other = server.address != struck.address || server.port != struck.port;
            let left = without_address(servers, struck);
            &&& left.contains(server) <==> servers.contains(server) && other
            &&& without_address(Seq::empty(), struck).len() == 0
            &&& other ==> without_address(servers.push(server), struck) == left.push(server)
            &&& !other ==> without_address(servers.push(server), struck) == left
        }),
{
    let pred = |s: ServerView| !same_address(s, struck);
    lemma_filter_members(servers, pred);
    lemma_filter_members(Seq::<ServerView>::empty(), pred);
    servers.lemma_filter_push(server, pred);
}

/// A text names a host and a port exactly if it is the host, a colon and the
/// port in digits. The host may hold colons, and the port leading zeros.
pub proof fn law_host_and_port_are_told_by_the_last_colon(
    text: Seq<char>,
    host: Seq<char>,
    port: u16,
)
    ensures
        split_address(text) == Some((host, port)) <==> exists|digits: Seq<char>|
            {
                &&& text == host + seq![':'] + digits
                &&& digits.len() > 0
                &&& forall|i: int| 0 <= i < digits.len() ==> '0' <= #[trigger] digits[i] <= '9'
                &&& #[trigger] decimal_value(digits) == port
            },
{
    if split_address(text) == Some((host, port)) {
        let colon = last_colon(text);
        let digits = text.skip(colon + 1);
        lemma_last_colon_is_one(text);
        assert(text == host + seq![':'] + digits);
        assert forall|i: int| 0 <= i < digits.len() implies '0' <= #[trigger] digits[i] <= '9' by {
            assert(is_digit(digits[i]));
        }
        assert(decimal_value(digits) == port);
    }
    if exists|digits: Seq<char>|
        {
            &&& text == host + seq![':'] + digits
            &&& digits.len() > 0
            &&& forall|i: int| 0 <= i < digits.len() ==> '0' <= #[trigger] digits[i] <= '9'
            &&& #[trigger] decimal_value(digits) == port
        } {
        let digits = choose|digits: Seq<char>|
            {
                &&& text == host + seq![':'] + digits
                &&& digits.len() > 0
                &&& forall|i: int| 0 <= i < digits.len() ==> '0' <= #[trigger] digits[i] <= '9'
                &&& #[trigger] decimal_value(digits) == port
            };
        assert forall|i: int| 0 <= i < digits.len() implies is_digit(#[trigger] digits[i]) by {
            assert('0' <= digits[i] <= '9');
        }
        assert(text == host.push(':') + digits);
        lemma_last_colon(host.push(':'), digits);
        assert(last_colon(text) == host.len());
        assert(text.skip(host.len() as int + 1) == digits);
        assert(text.take(host.len() as int) == host);
    }
}

/// The place of the last colon holds one, if there is a place.
proof fn lemma_last_colon_is_one(text: Seq<char>)
    ensures
        last_colon(text) < text.len(),
        last_colon(text) >= 0 ==> text[last_colon(text)] == ':',
    decreases text.len(),
{
    if text.len() > 0 && text.last() != ':' {
        lemma_last_colon_is_one(text.drop_last());
    }
}

/// Host and port are written with a colon between them.
pub proof fn law_address_is_written_with_a_colon(address: Seq<char>, port: u16)
    ensures
        address_text(address, port) == address + seq![':'] + decimal_text(port as nat),
{
    reveal_strlit(":");
    assert(":"@ == seq![':']);
}

/// A table is resolved in full: a server is among its servers exactly if one of
/// its groups lists the server's host and port and is in the server's role.
pub proof fn law_table_is_resolved_in_full(groups: Seq<AddressesView>, server: ServerView)
    ensures
        resolve_table(groups).contains(server) <==> exists|g: int, a: int|
            0 <= g < groups.len() && 0 <= a < groups[g].addresses.len() && #[trigger] split_address(
                groups[g].addresses[a],
            ) == Some((server.address, server.port)) && groups[g].role == server.role,
    decreases groups.len(),
{
    if groups.len() > 0 {
        let before = groups.drop_last();
        let last = groups.last();
        let n = groups.len() - 1;
        let old_servers = resolve_table(before);
        let new_servers = resolve_addresses(last.addresses, last.role);
        law_table_is_resolved_in_full(before, server);
        lemma_resolved_addresses(last.addresses, last.role, server);
        if old_servers.contains(server) {
            let k = choose|k: int| 0 <= k < old_servers.len() && old_servers[k] == server;
            assert((old_servers + new_servers)[k] == server);
            let (g, a) = choose|g: int, a: int|
                0 <= g < before.len() && 0 <= a < before[g].addresses.len()
                    && #[trigger] split_address(before[g].addresses[a]) == Some(
                    (server.address, server.port),
                ) && before[g].role == server.role;
            assert(split_address(groups[g].addresses[a]) == Some((server.address, server.port)));
        }
        if new_servers.contains(server) {
            let k = choose|k: int| 0 <= k < new_servers.len() && new_servers[k] == server;
            assert((old_servers + new_servers)[old_servers.len() + k] == server);
            let a = choose|a: int|
                0 <= a < last.addresses.len() && #[trigger] split_address(last.addresses[a])
                    == Some((server.address, server.port)) && last.role == server.role;
            assert(split_address(groups[n].addresses[a]) == Some((server.address, server.port)));
        }
        if resolve_table(groups).contains(server) {
            let all = resolve_table(groups);
            let k = choose|k: int| 0 <= k < all.len() && all[k] == server;
            if k < old_servers.len() {
                assert(old_servers[k] == server);
            } else {
                assert(new_servers[k - old_servers.len()] == server);
            }
        }
        if exists|g: int, a: int|
            0 <= g < groups.len() && 0 <= a < groups[g].addresses.len() && #[trigger] split_address(
                groups[g].addresses[a],
            ) == Some((server.address, server.port)) && groups[g].role == server.role {
            let (g, a) = choose|g: int, a: int|
                0 <= g < groups.len() && 0 <= a < groups[g].addresses.len()
                    && #[trigger] split_address(groups[g].addresses[a]) == Some(
                    (server.address, server.port),
                ) && groups[g].role == server.role;
            if g < n {
                assert(split_address(before[g].addresses[a]) == Some(
                    (server.address, server.port),
                ));
            } else {
                assert(split_address(last.addresses[a]) == Some((server.address, server.port)));
            }
        }
    }
}

proof fn lemma_resolved_addresses(addresses: Seq<Seq<char>>, role: Seq<char>, server: ServerView)
    ensures
        resolve_addresses(addresses, role).contains(server) <==> exists|a: int|
            0 <= a < addresses.len() && #[trigger] split_address(addresses[a]) == Some(
                (server.address, server.port),
            ) && role == server.role,
    decreases addresses.len(),
{
    if addresses.len() > 0 {
        let before = addresses.drop_last();
        let n = addresses.len() - 1;
        let found = resolve_addresses(before, role);
        let all = resolve_addresses(addresses, role);
        lemma_resolved_addresses(before, role, server);
        assert(addresses.last() == addresses[n]);
        if found.contains(server) {
            let k = choose|k: int| 0 <= k < found.len() && found[k] == server;
            assert(all[k] == server);
            let a = choose|a: int|
                0 <= a < before.len() && #[trigger] split_address(before[a]) == Some(
                    (server.address, server.port),
                ) && role == server.role;
            assert(split_address(addresses[a]) == Some((server.address, server.port)));
        }
        if all.contains(server) && !found.contains(server) {
            let k = choose|k: int| 0 <= k < all.len() && all[k] == server;
            if k < found.len() {
                assert(found[k] == server);
            }
            assert(split_address(addresses[n]) == Some((server.address, server.port)));
        }
        if exists|a: int|
            0 <= a < addresses.len() && #[trigger] split_address(addresses[a]) == Some(
                (server.address, server.port),
            ) && role == server.role {
            let a = choose|a: int|
                0 <= a < addresses.len() && #[trigger] split_address(addresses[a]) == Some(
                    (server.address, server.port),
                ) && role == server.role;
            if a < n {
                assert(split_address(before[a]) == Some((server.address, server.port)));
            } else {
                assert(all[found.len() as int] == server);
            }
        }
    }
}

/// The servers of a table come in the table's order, group by group and address
/// by address, each address on its own: what two tables, or two groups of one
/// role, list one after the other is resolved to the servers of the one and then
/// those of the other, and a single address to its server, if it names one.
pub proof fn law_tables_are_resolved_part_by_part(
    a: Seq<AddressesView>,
    b: Seq<AddressesView>,
    x: Seq<Seq<char>>,
    y: Seq<Seq<char>>,
    text: Seq<char>,
    role: Seq<char>,
)
    ensures
        resolve_table(a + b) == resolve_table(a) + resolve_table(b),
        resolve_table(seq![AddressesView { addresses: x + y, role }]) == resolve_table(
            seq![AddressesView { addresses: x, role }],
        ) + resolve_table(seq![AddressesView { addresses: y, role }]),
        resolve_table(seq![AddressesView { addresses: seq![text], role }]) == match split_address(
            text,
        ) {
            Some((address, port)) => seq![ServerView { address, port, role }],
            None => Seq::<ServerView>::empty(),
        },
        resolve_table(seq![AddressesView { addresses: Seq::empty(), role }]).len() == 0,
        resolve_table(Seq::empty()).len() == 0,
{
    lemma_tables_join(a, b);
    lemma_addresses_join(x, y, role);
    lemma_single_group(x + y, role);
    lemma_single_group(x, role);
    lemma_single_group(y, role);
    lemma_single_group(seq![text], role);
    lemma_single_group(Seq::empty(), role);
    assert(seq![text].drop_last() == Seq::<Seq<char>>::empty());
    assert(resolve_addresses(Seq::<Seq<char>>::empty(), role) == Seq::<ServerView>::empty());
}

proof fn lemma_single_group(addresses: Seq<Seq<char>>, role: Seq<char>)
    ensures
        resolve_table(seq![AddressesView { addresses, role }]) == resolve_addresses(
            addresses,
            role,
        ),
{
    let groups = seq![AddressesView { addresses, role }];
    assert(groups.drop_last() == Seq::<AddressesView>::empty());
    assert(resolve_table(groups.drop_last()) == Seq::<ServerView>::empty());
    assert(resolve_table(groups) == resolve_addresses(addresses, role));
}

proof fn lemma_tables_join(a: Seq<AddressesView>, b: Seq<AddressesView>)
    ensures
        resolve_table(a + b) == resolve_table(a) + resolve_table(b),
    decreases b.len(),
{
    if b.len() == 0 {
        assert(a + b == a);
    } else {
        assert((a + b).drop_last() == a + b.drop_last());
        lemma_tables_join(a, b.drop_last());
    }
}

proof fn lemma_addresses_join(x: Seq<Seq<char>>, y: Seq<Seq<char>>, role: Seq<char>)
    ensures
        resolve_addresses(x + y, role) == resolve_addresses(x, role) + resolve_addresses(y, role),
    decreases y.len(),
{
    if y.len() == 0 {
        assert(x + y == x);
    } else {
        assert((x + y).drop_last() == x + y.drop_last());
        lemma_addresses_join(x, y.drop_last(), role);
    }
}

/// Lists of servers and of texts are seen whole and in order, a server with its
/// host, port and role; and two names are seen as the same exactly if both are
/// missing or both are given and read the same.
pub proof fn law_lists_and_names_are_seen_as_they_are(
    servers: Seq<BoltServer>,
    strings: Seq<String>,
    i: int,
    a: Option<String>,
    b: Option<String>,
)
    ensures
        server_views(servers).len() == servers.len(),
        0 <= i < servers.len() ==> server_views(servers)[i].address == servers[i].address@
            && server_views(servers)[i].port == servers[i].port && server_views(servers)[i].role
            == servers[i].role@,
        texts(strings).len() == strings.len(),
        0 <= i < strings.len() ==> texts(strings)[i] == strings[i]@,
        name_view(a) == name_view(b) <==> (a is None && b is None) || (a is Some && b is Some
            && a->0@ == b->0@),
        name_view(a) is Some <==> a is Some,
        a is Some ==> name_view(a)->0 == a->0@,
{
}

/// A routing table is seen with its time, its database and all its groups in
/// order, each with its role and all its addresses.
pub proof fn law_table_is_seen_as_it_is(table: RoutingTable, g: int, a: int)
    ensures
        table@.ttl == table.ttl,
        table@.db == name_view(table.db),
        table@.servers.len() == table.servers@.len(),
        0 <= g < table.servers@.len() ==> {
            &&& table@.servers[g].role == table.servers@[g].role@
            &&& table@.servers[g].addresses.len() == table.servers@[g].addresses@.len()
            &&& 0 <= a < table.servers@[g].addresses@.len() ==> table@.servers[g].addresses[a]
                == table.servers@[g].addresses@[a]@
        },
{
}

/// A server is printed for debugging with the names of its fields.
pub proof fn law_debug_text_names_the_fields(server: ServerView)
    ensures
        debug_text(server) == debug_form(
            quoted_text(server.address),
            server.port,
            quoted_text(server.role),
        ),
        forall|address: Seq<char>, role: Seq<char>| #[trigger]
            debug_form(address, server.port, role) == "BoltServer { address: "@ + address
                + ", port: "@ + decimal_text(server.port as nat) + ", role: "@ + role + " }"@,
{
}

} // verus!
