use bolt_routing::routing::connection_registry::ConnectionRegistry;
use bolt_routing::routing::load_balancing::RoundRobinStrategy;
use bolt_routing::routing::types::{BoltServer, RoutingTable, Server};
use bolt_routing::text::{decimal, parse_decimal};

fn server(text: &str, role: &str) -> BoltServer {
    BoltServer::parse(text, &role.to_string()).unwrap()
}

fn table(ttl: u64, addresses: &[&str], role: &str) -> RoutingTable {
    RoutingTable {
        ttl,
        db: None,
        servers: vec![Server {
            addresses: addresses.iter().map(|a| a.to_string()).collect(),
            role: role.to_string(),
        }],
    }
}

#[test]
fn decimal_numbers() {
    assert_eq!(decimal(0), "0");
    assert_eq!(decimal(7687), "7687");
    assert_eq!(decimal(65535), "65535");
    assert_eq!(parse_decimal("7687", 0), Some(7687));
    assert_eq!(parse_decimal("x042", 1), Some(42));
    assert_eq!(parse_decimal("65535", 0), Some(65535));
    assert_eq!(parse_decimal("65536", 0), None);
    assert_eq!(parse_decimal("99999999999999", 0), None);
    assert_eq!(parse_decimal("", 0), None);
    assert_eq!(parse_decimal("+1", 0), None);
    assert_eq!(parse_decimal("1 ", 0), None);
}

#[test]
fn addresses_are_split_at_the_last_colon() {
    let plain = server("db.example:7687", "READ");
    assert_eq!(plain.address, "db.example");
    assert_eq!(plain.port, 7687);
    assert_eq!(plain.role, "READ");
    let v6 = server("[::1]:7688", "WRITE");
    assert_eq!(v6.address, "[::1]");
    assert_eq!(v6.port, 7688);
    let role = "READ".to_string();
    assert_eq!(BoltServer::parse("no-port", &role), None);
    assert_eq!(BoltServer::parse("host:", &role), None);
    assert_eq!(BoltServer::parse("host:bolt", &role), None);
    assert_eq!(BoltServer::parse("host:65536", &role), None);
}

#[test]
fn written_address_is_read_back() {
    for text in ["127.0.0.1:0", "h\u{f6}st:65535", "[::1]:7687", ":1"] {
        assert_eq!(server(text, "READ").socket_address(), text);
    }
}

#[test]
fn different_addresses_are_written_differently() {
    let texts = ["a:1", "a:11", "a1:1", "a:1:1"];
    for a in texts {
        for b in texts {
            let (left, right) = (server(a, "READ"), server(b, "WRITE"));
            assert_eq!(
                left.socket_address() == right.socket_address(),
                left.has_same_address(&right)
            );
        }
    }
}

#[test]
fn debug_text_quotes_and_escapes() {
    assert_eq!(
        server("a\"b:1", "WRITE").to_debug(),
        "BoltServer { address: \"a\\\"b\", port: 1, role: \"WRITE\" }"
    );
    assert_eq!(
        server("a\"b:1", "WRITE").to_debug(),
        format!("{:?}", server("a\"b:1", "WRITE"))
    );
    assert_eq!(
        BoltServer::debug_parts("A", 12, "B"),
        "BoltServer { address: A, port: 12, role: B }"
    );
}

#[test]
fn same_address_ignores_the_role() {
    assert!(server("a:1", "READ").has_same_address(&server("a:1", "WRITE")));
    assert!(!server("a:1", "READ").has_same_address(&server("a:2", "READ")));
    assert!(!server("a:1", "READ").has_same_address(&server("b:1", "READ")));
}

#[test]
fn unreadable_addresses_are_left_out() {
    let servers = BoltServer::resolve(&table(1, &["a:1", "nonsense", "b:2"], "READ"));
    assert_eq!(servers, vec![server("a:1", "READ"), server("b:2", "READ")]);
}

#[test]
fn unavailable_server_is_forgotten_everywhere() {
    let mut registry = ConnectionRegistry::new();
    let db = Some("x".to_string());
    registry.refresh_servers(&None, &None, &table(9, &["a:1", "b:2"], "READ"), 0);
    registry.refresh_servers(&db, &None, &table(9, &["a:1"], "WRITE"), 0);
    assert_eq!(registry.all_servers().len(), 3);
    assert!(registry.has_server_pool(&server("a:1", "ROUTE")));
    registry.mark_unavailable(&server("a:1", "READ"));
    assert!(!registry.has_server_pool(&server("a:1", "WRITE")));
    assert!(registry.has_server_pool(&server("b:2", "READ")));
    assert_eq!(
        registry.servers(&None, &None, 8),
        Some(vec![server("b:2", "READ")])
    );
    assert_eq!(registry.servers(&db, &None, 8), Some(Vec::new()));
    assert_eq!(registry.servers(&None, &None, 9), None);
}

#[test]
fn newer_table_replaces_the_older() {
    let mut registry = ConnectionRegistry::new();
    registry.refresh_servers(&None, &None, &table(9, &["a:1"], "READ"), 0);
    registry.refresh_servers(&None, &None, &table(9, &["b:2"], "READ"), 5);
    assert_eq!(registry.all_servers(), vec![server("b:2", "READ")]);
    assert_eq!(
        registry.servers(&None, &None, 13),
        Some(vec![server("b:2", "READ")])
    );
}

#[test]
fn roles_take_turns_apart() {
    let mut strategy = RoundRobinStrategy::new();
    let servers = vec![
        server("a:1", "ROUTE"),
        server("b:2", "ROUTE"),
        server("c:3", "READ"),
    ];
    assert_eq!(strategy.select_writer(&servers), None);
    assert_eq!(strategy.select_reader(&servers), Some(server("c:3", "READ")));
    assert_eq!(strategy.select_router(&servers), Some(server("a:1", "ROUTE")));
    assert_eq!(strategy.select_router(&servers), Some(server("b:2", "ROUTE")));
    assert_eq!(strategy.select_router(&servers), Some(server("a:1", "ROUTE")));
}
