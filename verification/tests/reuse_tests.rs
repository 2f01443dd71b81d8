use bolt_routing::connection::{Connection, ReceiveFailure};
use bolt_routing::error::Error;
use bolt_routing::framing::{read_chunked_message, write_chunked_message};
use bolt_routing::message::{BoltRequest, Response, Version};

/// What the peer has written and the connection has not read.
type Inbox = Vec<u8>;

fn connection() -> Connection<Inbox> {
    Connection::create(Vec::new(), Version::V4_4)
}

/// Receives a message, or times out if there is none.
fn recv(connection: &mut Connection<Inbox>) -> Result<Response, Error> {
    connection.begin_receive()?;
    match read_chunked_message(connection.stream_mut()) {
        Some((body, used)) => {
            connection.stream_mut().drain(..used);
            connection.finish_receive(&body)
        }
        None => Err(connection.receive_failed(ReceiveFailure::TimedOut)),
    }
}

/// Sends a request to a peer that does not mind what it says.
fn send(connection: &mut Connection<Inbox>, request: BoltRequest) -> Result<(), Error> {
    connection.send(&request)?;
    connection.finish_send();
    Ok(())
}

fn reset(connection: &mut Connection<Inbox>) -> Result<(), Error> {
    connection.reset()?;
    connection.finish_send();
    connection.begin_receive()?;
    match read_chunked_message(connection.stream_mut()) {
        Some((body, used)) => {
            connection.stream_mut().drain(..used);
            connection.complete_reset(&body)
        }
        None => Err(connection.receive_failed(ReceiveFailure::TimedOut)),
    }
}

fn peer_writes(connection: &mut Connection<Inbox>, body: &[u8]) {
    let wire = write_chunked_message(body);
    connection.stream_mut().extend(wire);
}

#[test]
fn record_does_not_complete_request_but_all_terminal_summaries_do() {
    let mut connection = connection();
    for signature in [0x70, 0x7f, 0x7e] {
        assert!(connection.is_reusable());
        send(&mut connection, BoltRequest::reset()).unwrap();
        assert!(!connection.is_reusable());
        connection.complete_response(&[0xb1, 0x71, 0x90]).unwrap();
        assert!(!connection.is_reusable());
        connection
            .complete_response(&[0xb1, signature, 0xa0])
            .unwrap();
        assert!(connection.is_reusable());
    }
}

#[test]
fn decode_failure_leaves_connection_unusable() {
    let mut connection = connection();
    send(&mut connection, BoltRequest::reset()).unwrap();
    peer_writes(&mut connection, &[0xb1, 0xff, 0xa0]);
    assert!(recv(&mut connection).is_err());
    assert!(!connection.is_reusable());
    assert!(matches!(
        send(&mut connection, BoltRequest::reset()),
        Err(Error::ConnectionError)
    ));
}

#[test]
fn unsolicited_terminal_summary_is_not_reusable() {
    let mut connection = connection();
    peer_writes(&mut connection, &[0xb1, 0x70, 0xa0]);
    assert!(recv(&mut connection).is_err());
    assert!(!connection.is_reusable());
}

#[test]
fn externally_cancelled_receive_leaves_connection_unusable() {
    let mut connection = connection();
    send(&mut connection, BoltRequest::reset()).unwrap();
    assert!(!connection.is_reusable());
    // The receive is begun, and given up before the peer answers.
    connection.begin_receive().unwrap();
    assert!(!connection.is_reusable());
    assert!(matches!(
        send(&mut connection, BoltRequest::reset()),
        Err(Error::ConnectionError)
    ));
}

#[test]
fn receive_timeout_leaves_connection_unusable() {
    let mut connection = connection();
    assert!(matches!(
        reset(&mut connection),
        Err(Error::ConnectionTimedOut)
    ));
    assert!(!connection.is_reusable());
    assert!(matches!(
        send(&mut connection, BoltRequest::reset()),
        Err(Error::ConnectionError)
    ));
}

#[test]
fn typed_reset_receive_timeout_leaves_connection_unusable() {
    let mut connection = connection();
    assert!(matches!(
        reset(&mut connection),
        Err(Error::ConnectionTimedOut)
    ));
    assert!(!connection.is_reusable());
    assert!(matches!(
        reset(&mut connection),
        Err(Error::ConnectionError)
    ));
}

#[test]
fn each_failure_reports_its_own_error() {
    let mut undecodable = connection();
    send(&mut undecodable, BoltRequest::reset()).unwrap();
    assert_eq!(
        undecodable.complete_response(&[0xb1, 0xff, 0xa0]),
        Err(Error::UnknownMessage)
    );
    assert_eq!(
        undecodable.complete_response(&[0xb1, 0x70, 0xa0]),
        Err(Error::ConnectionError)
    );

    let mut unasked = connection();
    assert_eq!(
        unasked.complete_response(&[0xb1, 0x70, 0xa0]),
        Err(Error::UnexpectedMessage)
    );

    let mut lost = connection();
    lost.begin_receive().unwrap();
    assert_eq!(
        lost.receive_failed(ReceiveFailure::Lost),
        Error::ConnectionError
    );

    assert_eq!(Version::parse([0, 0, 4, 4]), Ok(Version::V4_4));
    assert_eq!(
        Version::parse([0, 0, 0, 5]),
        Err(Error::UnsupportedVersion)
    );
}

#[test]
fn pipelined_requests_need_one_summary_each() {
    let mut connection = connection();
    send(&mut connection, BoltRequest::reset()).unwrap();
    send(&mut connection, BoltRequest::reset()).unwrap();
    assert_eq!(
        connection.complete_response(&[0xb1, 0x70, 0xa0]),
        Ok(Response::Success)
    );
    assert!(!connection.is_reusable());
    assert_eq!(
        connection.complete_response(&[0xb1, 0x7e, 0xa0]),
        Ok(Response::Ignored)
    );
    assert!(connection.is_reusable());
}

#[test]
fn reset_is_done_only_by_a_success() {
    let mut good = connection();
    peer_writes(&mut good, &[0xb1, 0x70, 0xa0]);
    assert_eq!(reset(&mut good), Ok(()));
    assert!(good.is_reusable());

    let mut bad = connection();
    peer_writes(&mut bad, &[0xb1, 0x7f, 0xa0]);
    assert_eq!(reset(&mut bad), Err(Error::UnexpectedMessage));
    assert!(!bad.is_reusable());
}

#[test]
fn responses_are_told_apart_by_marker_and_signature() {
    assert_eq!(Response::parse(&[0xb1, 0x70]), Ok(Response::Success));
    assert_eq!(Response::parse(&[0xb0, 0x7e]), Ok(Response::Ignored));
    assert_eq!(Response::parse(&[0xbf, 0x7f]), Ok(Response::Failure));
    assert_eq!(Response::parse(&[0xb1, 0x71, 0x90]), Ok(Response::Record));
    assert_eq!(Response::parse(&[0xa1, 0x70]), Err(Error::UnknownMessage));
    assert_eq!(Response::parse(&[0xb1]), Err(Error::UnknownMessage));
    assert_eq!(Response::parse(&[]), Err(Error::UnknownMessage));
}

#[test]
fn send_that_is_given_up_leaves_connection_unusable() {
    let mut connection = connection();
    let wire = connection.send(&BoltRequest::reset()).unwrap();
    assert_eq!(wire, vec![0, 2, 0xb0, 0x0f, 0, 0]);
    assert_eq!(connection.pending_requests(), 1);
    assert!(!connection.is_reusable());
    assert_eq!(
        connection.send(&BoltRequest::reset()),
        Err(Error::ConnectionError)
    );
    assert_eq!(connection.begin_receive(), Err(Error::ConnectionError));
    assert_eq!(
        connection.complete_response(&[0xb1, 0x70, 0xa0]),
        Err(Error::ConnectionError)
    );
    connection.finish_send();
    assert!(!connection.is_reusable());
}

#[test]
fn only_success_answers_a_hello() {
    let hello = || BoltRequest::encoded(vec![0xb1, 0x01, 0xa0]);

    let mut accepted = connection();
    send(&mut accepted, hello()).unwrap();
    accepted.begin_receive().unwrap();
    assert!(!accepted.is_reusable());
    assert_eq!(accepted.complete_hello(&[0xb1, 0x70, 0xa0]), Ok(()));
    assert!(accepted.is_reusable());

    for (body, error) in [
        ([0xb1, 0x7f, 0xa0], Error::UnexpectedMessage),
        ([0xb1, 0x7e, 0xa0], Error::UnexpectedMessage),
        ([0xb1, 0x71, 0x90], Error::UnexpectedMessage),
        ([0xb1, 0xff, 0xa0], Error::UnknownMessage),
    ] {
        let mut refused = connection();
        send(&mut refused, hello()).unwrap();
        refused.begin_receive().unwrap();
        assert_eq!(refused.complete_hello(&body), Err(error));
        assert!(!refused.is_reusable());
        assert_eq!(
            send(&mut refused, BoltRequest::reset()),
            Err(Error::ConnectionError)
        );
    }

    let mut early = connection();
    send(&mut early, hello()).unwrap();
    assert_eq!(
        early.complete_hello(&[0xb1, 0x70, 0xa0]),
        Err(Error::ConnectionError)
    );
    assert!(!early.is_reusable());
}

#[test]
fn response_noted_after_a_dropped_receive_does_not_revive() {
    let mut connection = connection();
    send(&mut connection, BoltRequest::reset()).unwrap();
    connection.begin_receive().unwrap();
    assert_eq!(
        connection.complete_response(&[0xb1, 0x70, 0xa0]),
        Err(Error::ConnectionError)
    );
    assert!(!connection.is_reusable());
    assert_eq!(
        connection.finish_receive(&[0xb1, 0x70, 0xa0]),
        Err(Error::ConnectionError)
    );
    assert_eq!(
        send(&mut connection, BoltRequest::reset()),
        Err(Error::ConnectionError)
    );
    assert_eq!(reset(&mut connection), Err(Error::ConnectionError));
}

#[test]
fn reuse_follows_the_answers_over_a_run_of_calls() {
    let mut connection = connection();
    send(&mut connection, BoltRequest::reset()).unwrap();
    send(&mut connection, BoltRequest::reset()).unwrap();
    assert_eq!(connection.pending_requests(), 2);
    peer_writes(&mut connection, &[0xb1, 0x7f, 0xa0]);
    assert_eq!(recv(&mut connection), Ok(Response::Failure));
    assert!(!connection.is_reusable());
    assert_eq!(
        connection.complete_response(&[0xb1, 0x7e, 0xa0]),
        Ok(Response::Ignored)
    );
    assert!(connection.is_reusable());
    peer_writes(&mut connection, &[0xb1, 0x70, 0xa0]);
    assert_eq!(reset(&mut connection), Ok(()));
    assert!(connection.is_reusable());

    send(&mut connection, BoltRequest::reset()).unwrap();
    assert_eq!(recv(&mut connection), Err(Error::ConnectionTimedOut));
    peer_writes(&mut connection, &[0xb1, 0x70, 0xa0]);
    for _ in 0..2 {
        assert!(!connection.is_reusable());
        assert_eq!(
            send(&mut connection, BoltRequest::reset()),
            Err(Error::ConnectionError)
        );
        assert_eq!(recv(&mut connection), Err(Error::ConnectionError));
        assert_eq!(reset(&mut connection), Err(Error::ConnectionError));
        assert_eq!(
            connection.complete_response(&[0xb1, 0x70, 0xa0]),
            Err(Error::ConnectionError)
        );
    }
    assert!(!connection.is_reusable());
}
