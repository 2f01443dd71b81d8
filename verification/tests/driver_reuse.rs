use bolt_routing::connection::{Connection, ReceiveFailure};
use bolt_routing::error::Error;
use bolt_routing::framing::{read_chunked_message, write_chunked_message};
use bolt_routing::message::{BoltRequest, Response, Version, HANDSHAKE_LEN};
use bolt_routing::pool::{ConnectionPool, Lease};

/// Both directions of a stream, and what the server has seen on it.
#[derive(Debug)]
struct Socket {
    to_server: Vec<u8>,
    to_client: Vec<u8>,
    seen: Vec<u8>,
}

fn message(socket: &mut Socket) -> Vec<u8> {
    let (body, used) = read_chunked_message(&socket.to_server).unwrap();
    socket.to_server.drain(..used);
    socket.seen.push(body[1]);
    body
}

fn send(socket: &mut Socket, bytes: &[u8]) {
    socket.to_client.extend(write_chunked_message(bytes));
}

/// The server's side of opening a connection.
fn hello(socket: &mut Socket) {
    socket.to_server.drain(..HANDSHAKE_LEN);
    socket.to_client.extend([0, 0, 4, 4]);
    assert_eq!(message(socket)[1], 0x01);
    send(
        socket,
        b"\xb1\x70\xa2\x86server\x89Neo4j/4.4\x8dconnection_id\x84test",
    );
}

fn open() -> Connection<Socket> {
    let socket = Socket {
        to_server: vec![0; HANDSHAKE_LEN],
        to_client: Vec::new(),
        seen: Vec::new(),
    };
    let mut connection = Connection::create(socket, Version::V4_4);
    request(&mut connection, 0x01).unwrap();
    hello(connection.stream_mut());
    let choice: Vec<u8> = connection.stream_mut().to_client.drain(..4).collect();
    assert_eq!(
        Version::parse([choice[0], choice[1], choice[2], choice[3]]),
        Ok(connection.version())
    );
    connection.begin_receive().unwrap();
    let (body, used) = read_chunked_message(&connection.stream_mut().to_client).unwrap();
    connection.stream_mut().to_client.drain(..used);
    connection.complete_hello(&body).unwrap();
    assert!(connection.is_reusable());
    connection
}

fn receive(connection: &mut Connection<Socket>) -> Result<(Response, Vec<u8>), Error> {
    connection.begin_receive()?;
    match read_chunked_message(&connection.stream_mut().to_client) {
        Some((body, used)) => {
            connection.stream_mut().to_client.drain(..used);
            Ok((connection.finish_receive(&body)?, body))
        }
        None => Err(connection.receive_failed(ReceiveFailure::TimedOut)),
    }
}

fn request(connection: &mut Connection<Socket>, signature: u8) -> Result<(), Error> {
    let wire = connection.send(&BoltRequest::encoded(vec![0xb1, signature, 0xa0]))?;
    connection.stream_mut().to_server.extend(wire);
    connection.finish_send();
    Ok(())
}

fn lend(pool: &mut ConnectionPool<Socket>) -> Connection<Socket> {
    match pool.get() {
        Lease::Open => open(),
        Lease::Reset(mut connection, wire) => {
            connection.stream_mut().to_server.extend(wire);
            connection.finish_send();
            assert_eq!(message(connection.stream_mut())[1], 0x0f);
            send(connection.stream_mut(), &[0xb1, 0x70, 0xa0]);
            connection.begin_receive().unwrap();
            let (body, used) = read_chunked_message(&connection.stream_mut().to_client).unwrap();
            connection.stream_mut().to_client.drain(..used);
            connection.complete_reset(&body).unwrap();
            connection
        }
        Lease::Exhausted => panic!("the only place must be free"),
    }
}

#[derive(Clone, Copy)]
enum Failure {
    Cancel,
    ReceiveTimeout,
}

fn scenario(failure: Failure) {
    let mut pool: ConnectionPool<Socket> = ConnectionPool::new(1);

    let mut broken = lend(&mut pool);
    request(&mut broken, 0x10).unwrap();
    assert_eq!(message(broken.stream_mut())[1], 0x10);
    match failure {
        Failure::Cancel => broken.begin_receive().unwrap(),
        Failure::ReceiveTimeout => assert!(matches!(
            receive(&mut broken),
            Err(Error::ConnectionTimedOut)
        )),
    }
    let mut closed = pool.give_back(broken).expect("it must be discarded");
    assert!(closed.stream_mut().to_server.is_empty());
    assert_eq!(
        closed.stream_mut().seen,
        vec![0x01, 0x10],
        "Unfinished connection must close without sending RESET"
    );

    for iteration in 0..2 {
        let mut fresh = lend(&mut pool);
        request(&mut fresh, 0x10).unwrap();
        assert_eq!(message(fresh.stream_mut())[1], 0x10);
        send(fresh.stream_mut(), b"\xb1\x70\xa1\x86fields\x91\x83one");
        assert_eq!(receive(&mut fresh).unwrap().0, Response::Success);
        request(&mut fresh, 0x3f).unwrap();
        assert_eq!(message(fresh.stream_mut())[1], 0x3f);
        send(fresh.stream_mut(), &[0xb1, 0x71, 0x91, 0x01]);
        send(fresh.stream_mut(), b"\xb1\x70\xa1\x84type\x81r");
        let (kind, body) = receive(&mut fresh).unwrap();
        assert_eq!(kind, Response::Record);
        assert_eq!(body[3], 1);
        assert!(!fresh.is_reusable());
        assert_eq!(receive(&mut fresh).unwrap().0, Response::Success);
        let expected = if iteration == 0 {
            vec![0x01, 0x10, 0x3f]
        } else {
            vec![0x01, 0x10, 0x3f, 0x0f, 0x10, 0x3f]
        };
        assert_eq!(fresh.stream_mut().seen, expected);
        assert!(pool.give_back(fresh).is_none());
    }
}

#[test]
fn cancelled_exchange_is_discarded_but_healthy_connection_is_reused() {
    scenario(Failure::Cancel);
}

#[test]
fn internally_timed_out_exchange_is_discarded_before_next_query() {
    scenario(Failure::ReceiveTimeout);
}

#[test]
fn pool_lends_no_more_than_it_may() {
    let mut pool: ConnectionPool<u8> = ConnectionPool::new(2);
    assert!(matches!(pool.get(), Lease::Open));
    assert!(matches!(pool.get(), Lease::Open));
    assert!(matches!(pool.get(), Lease::Exhausted));
    pool.open_failed();
    assert!(matches!(pool.get(), Lease::Open));
    assert!(pool.give_back(Connection::create(1, Version::V4_4)).is_none());
    assert!(pool.give_back(Connection::create(2, Version::V4_4)).is_none());
    match pool.get() {
        Lease::Reset(mut connection, wire) => {
            assert_eq!(*connection.stream_mut(), 1);
            assert_eq!(wire, vec![0, 2, 0xb0, 0x0f, 0, 0]);
            assert!(!connection.is_reusable());
            assert_eq!(connection.version(), Version::V4_4);
        }
        other => panic!("unexpected {other:?}"),
    }
}
