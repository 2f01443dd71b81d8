use backon::ExponentialBuilder;
use bolt_routing::connection::Connection;
use bolt_routing::error::Error;
use bolt_routing::message::Version;
use bolt_routing::routing::routed_connection_manager::{
    PendingConnection, Progress, RouteRequest, RoutedConnectionManager, Step,
};
use bolt_routing::routing::types::{BoltServer, Database, Operation, RoutingTable, Server};
use std::collections::VecDeque;

const BOLT_V4_4: [u8; 4] = [0, 0, 4, 4];

fn make_manager() -> RoutedConnectionManager {
    RoutedConnectionManager::new(ExponentialBuilder::default()).unwrap()
}

fn localhost(port: u16) -> String {
    format!("127.0.0.1:{port}")
}

fn routing_table(
    ttl: u64,
    readers: &[String],
    writers: &[String],
    routers: &[String],
) -> RoutingTable {
    let servers = |addresses: &[String], role: &str| Server {
        addresses: addresses.to_vec(),
        role: role.to_string(),
    };
    RoutingTable {
        ttl,
        db: Some("neo4j".into()),
        servers: [
            servers(readers, "READ"),
            servers(writers, "WRITE"),
            servers(routers, "ROUTE"),
        ]
        .into_iter()
        .filter(|s| !s.addresses.is_empty())
        .collect(),
    }
}

struct SequentialRoutingTableProvider {
    tables: VecDeque<RoutingTable>,
    fetch_count: usize,
    router_used: Vec<bool>,
}

impl SequentialRoutingTableProvider {
    fn new(tables: Vec<RoutingTable>) -> Self {
        Self {
            tables: tables.into(),
            fetch_count: 0,
            router_used: Vec::new(),
        }
    }

    fn fetch_routing_table(&mut self, request: &RouteRequest) -> Result<RoutingTable, Error> {
        self.fetch_count += 1;
        self.router_used.push(request.router.is_some());
        let table = if self.tables.len() > 1 {
            self.tables.pop_front()
        } else {
            self.tables.front().cloned()
        };
        table.ok_or_else(|| Error::RoutingTableRefreshFailed("no routing table".into()))
    }
}

/// Runs a search to its end; every server accepts but those on `dead` ports.
fn finish(
    manager: &mut RoutedConnectionManager,
    provider: &mut SequentialRoutingTableProvider,
    dead: &[u16],
    mut step: Step,
) -> Result<Connection<BoltServer>, Error> {
    loop {
        step = match step {
            Step::Fetch(pending) => {
                let reply = provider.fetch_routing_table(&pending.request);
                manager.fetched(pending, reply, 0)
            }
            Step::Connect(pending) => {
                let outcome = if dead.contains(&pending.server.port) {
                    Err(Error::ConnectionError)
                } else {
                    Version::parse(BOLT_V4_4)
                        .map(|version| Connection::create(pending.server.clone(), version))
                };
                match manager.connected(pending, outcome) {
                    Progress::Connected(connection) => return Ok(connection),
                    Progress::Next(step) => step,
                }
            }
            Step::Fail(error) => return Err(error),
        };
    }
}

fn get(
    manager: &mut RoutedConnectionManager,
    provider: &mut SequentialRoutingTableProvider,
    dead: &[u16],
    operation: Option<Operation>,
    db: Option<Database>,
) -> Result<Connection<BoltServer>, Error> {
    let step = manager.get(operation, db, None, &[], 0);
    finish(manager, provider, dead, step)
}

#[test]
fn recovers_new_writer_from_router_before_ttl_expiry() {
    let dead_writer_port = 7001;
    let new_writer_port = 7002;
    let reader_port = 7003;
    let router_port = 7004;

    let stale_table = routing_table(
        300,
        &[localhost(reader_port)],
        &[localhost(dead_writer_port)],
        &[localhost(router_port)],
    );
    let refreshed_table = routing_table(
        300,
        &[localhost(reader_port)],
        &[localhost(new_writer_port)],
        &[localhost(router_port)],
    );
    let mut provider = SequentialRoutingTableProvider::new(vec![stale_table, refreshed_table]);
    let mut manager = make_manager();

    let db = Some(Database::from("neo4j"));
    let mut connection = get(
        &mut manager,
        &mut provider,
        &[dead_writer_port],
        Some(Operation::Write),
        db.clone(),
    )
    .expect("the refreshed table advertises a reachable writer");
    assert_eq!(connection.version(), Version::V4_4);
    assert_eq!(connection.stream_mut().port, new_writer_port);
    assert_eq!(provider.fetch_count, 2);
    assert_eq!(provider.router_used, vec![false, true]);

    let cached = manager.servers(&db, &None, 0).unwrap();
    assert_eq!(provider.fetch_count, 2);
    assert!(cached
        .iter()
        .any(|s| s.role == "WRITE" && s.port == new_writer_port));
    assert!(!cached.iter().any(|s| s.port == dead_writer_port));
}

#[test]
fn falls_back_to_seed_when_no_router_remains() {
    let dead_writer_port = 7001;
    let new_writer_port = 7002;

    let stale_table = routing_table(300, &[], &[localhost(dead_writer_port)], &[]);
    let refreshed_table = routing_table(300, &[], &[localhost(new_writer_port)], &[]);
    let mut provider = SequentialRoutingTableProvider::new(vec![stale_table, refreshed_table]);
    let mut manager = make_manager();

    let db = Some(Database::from("neo4j"));
    let connection = get(
        &mut manager,
        &mut provider,
        &[dead_writer_port],
        Some(Operation::Write),
        db,
    )
    .expect("the refreshed table advertises a reachable writer");
    assert_eq!(connection.version(), Version::V4_4);
    assert_eq!(provider.fetch_count, 2);
    assert_eq!(provider.router_used, vec![false, false]);
}

#[test]
fn writerless_table_does_not_cause_infinite_refresh() {
    let reader_port = 7003;
    let router_port = 7004;
    let writerless = routing_table(
        300,
        &[localhost(reader_port)],
        &[],
        &[localhost(router_port)],
    );
    let mut provider = SequentialRoutingTableProvider::new(vec![writerless]);
    let mut manager = make_manager();

    let db = Some(Database::from("neo4j"));
    let result = get(
        &mut manager,
        &mut provider,
        &[],
        Some(Operation::Write),
        db.clone(),
    );

    let Err(err) = result else {
        panic!("a writerless table must fail a WRITE operation");
    };
    match err {
        Error::ServerUnavailableError(msg) => {
            assert!(msg.contains("writers"), "unexpected message: {msg}");
            assert_eq!(
                msg,
                "No available writers in the routing table for operation WRITE"
            );
        }
        e => panic!("expected ServerUnavailableError, got {e:?}"),
    }
    assert_eq!(provider.fetch_count, 2);
    assert_eq!(provider.router_used, vec![false, true]);

    let result = get(
        &mut manager,
        &mut provider,
        &[],
        Some(Operation::Write),
        db,
    );
    assert!(matches!(result, Err(Error::ServerUnavailableError(_))));
    assert_eq!(provider.fetch_count, 3);
}

fn expect_connect(step: Step) -> PendingConnection {
    match step {
        Step::Connect(pending) => pending,
        other => panic!("unexpected {other:?}"),
    }
}

#[test]
fn operation_is_a_write_unless_given() {
    let table = routing_table(300, &[localhost(1)], &[localhost(2)], &[]);
    let mut provider = SequentialRoutingTableProvider::new(vec![table]);
    let mut manager = make_manager();
    let mut written = get(&mut manager, &mut provider, &[], None, None).unwrap();
    assert_eq!(written.stream_mut().port, 2);
    let mut read = get(&mut manager, &mut provider, &[], Some(Operation::Read), None).unwrap();
    assert_eq!(read.stream_mut().port, 1);
    assert_eq!(provider.fetch_count, 1);
}

#[test]
fn every_reader_is_tried_once_before_the_refresh_and_once_after() {
    let readers = [localhost(1), localhost(2), localhost(3)];
    let table = routing_table(300, &readers, &[localhost(4)], &[]);
    let mut provider = SequentialRoutingTableProvider::new(vec![table]);
    let mut manager = make_manager();
    let mut tried: Vec<u16> = Vec::new();
    let mut step = manager.get(Some(Operation::Read), None, None, &[], 0);
    let error = loop {
        step = match step {
            Step::Fetch(pending) => {
                let reply = provider.fetch_routing_table(&pending.request);
                manager.fetched(pending, reply, 0)
            }
            Step::Connect(pending) => {
                tried.push(pending.server.port);
                let outcome: Result<(), Error> = Err(Error::ConnectionTimedOut);
                match manager.connected(pending, outcome) {
                    Progress::Connected(_) => unreachable!("it was refused"),
                    Progress::Next(step) => step,
                }
            }
            Step::Fail(error) => break error,
        };
    };
    assert_eq!(
        error,
        Error::ServerUnavailableError(
            "No available readers in the routing table for operation READ".into()
        )
    );
    assert_eq!(provider.fetch_count, 2);
    assert_eq!(tried.len(), 6);
    let (before, after) = tried.split_at_mut(3);
    before.sort();
    after.sort();
    assert_eq!(before, [1, 2, 3]);
    assert_eq!(after, [1, 2, 3]);
}

#[test]
fn failed_fetch_leaves_no_server_and_is_tried_once_more() {
    let mut provider = SequentialRoutingTableProvider::new(Vec::new());
    let mut manager = make_manager();
    let result = get(&mut manager, &mut provider, &[], Some(Operation::Read), None);
    assert!(matches!(result, Err(Error::ServerUnavailableError(_))));
    assert_eq!(provider.fetch_count, 2);
    assert_eq!(provider.router_used, vec![false, false]);
    assert_eq!(manager.servers(&None, &None, 0), None);
}

#[test]
fn requests_carry_database_user_and_bookmarks() {
    let mut manager = make_manager();
    let bookmarks = vec!["a".to_string(), "b".to_string()];
    let db = Some(Database::from("movies"));
    let user = Some("jane".to_string());
    let step = manager.get(None, db.clone(), user.clone(), &bookmarks, 0);
    let Step::Fetch(first) = step else {
        panic!("no table is at hand");
    };
    assert_eq!(first.request.db, db);
    assert_eq!(first.request.imp_user, user);
    assert_eq!(first.request.bookmarks, bookmarks);
    assert_eq!(first.request.router, None);
    let table = routing_table(300, &[], &[], &[localhost(9)]);
    let Step::Fetch(second) = manager.fetched(first, Ok(table), 0) else {
        panic!("the table lists no writer");
    };
    assert_eq!(second.request.db, db);
    assert_eq!(second.request.imp_user, user);
    assert_eq!(second.request.bookmarks, bookmarks);
    assert_eq!(second.request.router.map(|s| s.port), Some(9));
}

#[test]
fn table_serves_its_own_database_and_user_until_it_expires() {
    let mut manager = make_manager();
    let db = Some(Database::from("neo4j"));
    let Step::Fetch(pending) = manager.get(None, db.clone(), None, &[], 100) else {
        panic!("no table is at hand");
    };
    let table = routing_table(300, &[], &[localhost(5)], &[]);
    expect_connect(manager.fetched(pending, Ok(table), 100));
    assert!(manager.servers(&db, &None, 399).is_some());
    assert!(manager.servers(&db, &None, 400).is_none());
    assert!(manager.servers(&None, &None, 100).is_none());
    assert!(manager.servers(&db, &Some("jane".to_string()), 100).is_none());
}

#[test]
fn server_that_lost_its_pool_fails_the_search() {
    let mut manager = make_manager();
    let Step::Fetch(pending) = manager.get(None, None, None, &[], 0) else {
        panic!("no table is at hand");
    };
    let table = routing_table(300, &[], &[localhost(1), localhost(2)], &[]);
    let one = expect_connect(manager.fetched(pending, Ok(table), 0));
    let two = expect_connect(manager.get(None, None, None, &[], 0));
    assert_eq!(one.server.port, 1);
    assert_eq!(two.server.port, 2);
    let refused: Result<(), Error> = Err(Error::ConnectionError);
    let Progress::Next(next) = manager.connected(two, refused) else {
        panic!("it was refused");
    };
    assert_eq!(expect_connect(next).server.port, 1);
    let refused: Result<(), Error> = Err(Error::ConnectionError);
    let Progress::Next(Step::Fail(error)) = manager.connected(one, refused) else {
        panic!("no server is left that has a pool");
    };
    assert_eq!(
        error,
        Error::ServerUnavailableError(
            "No connection pool found for server: \
             BoltServer { address: \"127.0.0.1\", port: 2, role: \"WRITE\" }"
                .into()
        )
    );
}

#[test]
fn servers_take_turns() {
    let mut manager = make_manager();
    let servers: Vec<BoltServer> = [("a:1", "READ"), ("b:2", "WRITE"), ("c:3", "READ")]
        .iter()
        .map(|(text, role)| BoltServer::parse(text, &role.to_string()).unwrap())
        .collect();
    let picked: Vec<u16> = (0..5)
        .map(|_| manager.select_reader(&servers).unwrap().port)
        .collect();
    assert_eq!(picked, vec![1, 3, 1, 3, 1]);
    assert_eq!(manager.select_writer(&servers).unwrap().port, 2);
    assert_eq!(manager.select_writer(&servers).unwrap().port, 2);
    assert_eq!(manager.select_router(&servers), None);
}

#[test]
fn default_database_is_what_the_table_names() {
    let mut manager = make_manager();
    let request = manager.get_default_db(Some("jane".to_string()), &["x".to_string()]);
    assert_eq!(request.db, None);
    assert_eq!(request.imp_user, Some("jane".to_string()));
    assert_eq!(request.bookmarks, vec!["x".to_string()]);
    assert_eq!(request.router, None);
    let table = routing_table(300, &[], &[], &[]);
    assert_eq!(
        RoutedConnectionManager::default_db(Ok(table)),
        Ok(Some(Database::from("neo4j")))
    );
    assert_eq!(
        RoutedConnectionManager::default_db(Err(Error::RoutingTableRefreshFailed("x".into()))),
        Err(Error::RoutingTableRefreshFailed("x".into()))
    );
}

#[test]
fn retry_policy_is_handed_through() {
    let policy = ExponentialBuilder::default().with_max_times(7);
    let manager = RoutedConnectionManager::new(policy).unwrap();
    assert_eq!(format!("{:?}", manager.backoff()), format!("{:?}", policy));
}
