//! Requests and responses: the part of a message that connection bookkeeping
//! looks at.

use crate::error::Error;
use vstd::prelude::*;

verus! {

/// The bytes that open a handshake: a magic number and four version offers.
pub const HANDSHAKE_LEN: usize = 20;

/// Signature of a SUCCESS summary.
pub const SUCCESS: u8 = 0x70;

/// Signature of a RECORD.
pub const RECORD: u8 = 0x71;

/// Signature of an IGNORED summary.
pub const IGNORED: u8 = 0x7e;

/// Signature of a FAILURE summary.
pub const FAILURE: u8 = 0x7f;

/// Signature of a RESET request.
pub const RESET: u8 = 0x0f;

/// The protocol versions that the driver speaks.
#[derive(Debug, Clone, Copy, PartialEq, Eq, Structural)]
pub enum Version {
    V4_4,
}

impl Version {
    /// The four bytes with which a peer chooses this version.
    pub open spec fn choice(self) -> Seq<u8> {
        match self {
            Version::V4_4 => seq![0u8, 0u8, 4u8, 4u8],
        }
    }

    /// The version that the peer's answer to the handshake chooses.
    pub fn parse(choice: [u8; 4]) -> (version: Result<Version, Error>)
        ensures
            match version {
                Ok(version) => choice@ == version.choice(),
                Err(e) => e is UnsupportedVersion && forall|v: Version| choice@ != #[trigger]
                    v.choice(),
            },
    {
        if choice[0] == 0 && choice[1] == 0 && choice[2] == 4 && choice[3] == 4 {
            assert(choice@ == Version::V4_4.choice());
            Ok(Version::V4_4)
        } else {
            proof {
                assert forall|v: Version| choice@ != #[trigger] v.choice() by {
                    let expected = v.choice();
                    assert(expected[0] == 0 && expected[1] == 0 && expected[2] == 4 && expected[3]
                        == 4);
                }
            }
            Err(Error::UnsupportedVersion)
        }
    }
}

/// The kinds of response.
#[derive(Debug, Clone, Copy, PartialEq, Eq, Structural)]
pub enum Response {
    Success,
    Failure,
    Ignored,
    Record,
}

/// The signature that marks a response of each kind.
pub open spec fn signature(response: Response) -> u8 {
    match response {
        Response::Success => SUCCESS,
        Response::Failure => FAILURE,
        Response::Ignored => IGNORED,
        Response::Record => RECORD,
    }
}

/// Whether `body` is a response of that kind: a structure marker (its high
/// half is `0xb`, the low half counts the fields), then the kind's signature.
pub open spec fn is_response(body: Seq<u8>, response: Response) -> bool {
    body.len() >= 2 && 0xb0 <= body[0] <= 0xbf && body[1] == signature(response)
}

/// The kind of response that `body` is, if it is one.
pub open spec fn response_kind(body: Seq<u8>) -> Option<Response> {
    if is_response(body, Response::Success) {
        Some(Response::Success)
    } else if is_response(body, Response::Failure) {
        Some(Response::Failure)
    } else if is_response(body, Response::Ignored) {
        Some(Response::Ignored)
    } else if is_response(body, Response::Record) {
        Some(Response::Record)
    } else {
        None
    }
}

impl Response {
    /// A summary ends the answer to a request; a record does not.
    pub open spec fn ends_request(self) -> bool {
        self != Response::Record
    }

    /// Whether the answer to a request ends with this response.
    pub fn is_summary(self) -> (ends: bool)
        ensures
            ends == self.ends_request(),
    {
        self != Response::Record
    }

    /// The kind of response that `body` is.
    pub fn parse(body: &[u8]) -> (response: Result<Response, Error>)
        ensures
            match response {
                Ok(response) => response_kind(body@) == Some(response),
                Err(e) => response_kind(body@) is None && e is UnknownMessage,
            },
    {
        if body.len() < 2 || body[0] < 0xb0 || body[0] > 0xbf {
            return Err(Error::UnknownMessage);
        }
        let mark: u8 = body[1];
        if mark == SUCCESS {
            Ok(Response::Success)
        } else if mark == FAILURE {
            Ok(Response::Failure)
        } else if mark == IGNORED {
            Ok(Response::Ignored)
        } else if mark == RECORD {
            Ok(Response::Record)
        } else {
            Err(Error::UnknownMessage)
        }
    }
}

/// A request, encoded: a structure marker, a signature and the fields.
#[derive(Debug)]
pub struct BoltRequest {
    body: Vec<u8>,
}

impl View for BoltRequest {
    type V = Seq<u8>;

    closed spec fn view(&self) -> Seq<u8> {
        self.body@
    }
}

/// The RESET request: a structure without fields.
pub open spec fn reset_request() -> Seq<u8> {
    seq![0xb0u8, RESET]
}

impl BoltRequest {
    /// A request with the given encoding.
    pub fn encoded(body: Vec<u8>) -> (request: BoltRequest)
        ensures
            request@ == body@,
    {
        BoltRequest { body }
    }

    /// The request that brings a connection back to its starting state.
    pub fn reset() -> (request: BoltRequest)
        ensures
            request@ == reset_request(),
    {
        let mut body: Vec<u8> = Vec::new();
        body.push(0xb0);
        body.push(RESET);
        BoltRequest { body }
    }

    /// The encoding.
    pub fn body(&self) -> (body: &[u8])
        ensures
            body@ == self@,
    {
        self.body.as_slice()
    }
}

/// A message is a response of at most one kind, and `response_kind` names it.
pub proof fn law_responses_have_one_kind(body: Seq<u8>, response: Response)
    ensures
        is_response(body, response) <==> response_kind(body) == Some(response),
{
}

/// The kind of a response is told by its marker and its signature alone,
/// whatever fields follow: behind a structure marker `0x70` is a SUCCESS, `0x7f`
/// a FAILURE, `0x7e` an IGNORED and `0x71` a RECORD. Nothing else is a response.
pub proof fn law_kind_is_told_by_marker_and_signature(body: Seq<u8>)
    ensures
        body.len() >= 2 && 0xb0 <= body[0] <= 0xbf ==> {
            &&& response_kind(body) == Some(Response::Success) <==> body[1] == 0x70
            &&& response_kind(body) == Some(Response::Failure) <==> body[1] == 0x7f
            &&& response_kind(body) == Some(Response::Ignored) <==> body[1] == 0x7e
            &&& response_kind(body) == Some(Response::Record) <==> body[1] == 0x71
        },
        body.len() < 2 || body[0] < 0xb0 || body[0] > 0xbf ==> response_kind(body) is None,
{
}

/// Two messages that agree in their first two bytes are of the same kind.
pub proof fn law_fields_do_not_change_the_kind(a: Seq<u8>, b: Seq<u8>)
    requires
        a.len() >= 2,
        b.len() >= 2,
        a[0] == b[0],
        a[1] == b[1],
    ensures
        response_kind(a) == response_kind(b),
{
}

/// A SUCCESS, a FAILURE and an IGNORED end the answer to a request, and a RECORD
/// does not.
pub proof fn law_summaries_end_a_request(response: Response)
    ensures
        response is Success || response is Failure || response is Ignored
            ==> response.ends_request(),
        response is Record ==> !response.ends_request(),
{
}

/// The one choice that a peer can make in the handshake is 0, 0, 4, 4, for
/// version 4.4. A handshake holds a magic number of four bytes and four offers
/// of the same size as a choice.
pub proof fn law_only_known_versions_can_be_chosen(choice: Seq<u8>)
    ensures
        choice == seq![0u8, 0u8, 4u8, 4u8] <==> exists|v: Version| #[trigger] v.choice() == choice,
        choice == seq![0u8, 0u8, 4u8, 4u8] ==> Version::V4_4.choice() == choice,
        HANDSHAKE_LEN == 4 + 4 * Version::V4_4.choice().len(),
{
    if choice == seq![0u8, 0u8, 4u8, 4u8] {
        assert(Version::V4_4.choice() == choice);
    }
}

/// A RESET is a structure without fields, signed `0x0f`, and no response.
pub proof fn law_reset_has_no_fields(body: Seq<u8>)
    ensures
        body == reset_request() <==> body.len() == 2 && body[0] == 0xb0 && body[1] == 0x0f,
        response_kind(reset_request()) is None,
{
    if body.len() == 2 && body[0] == 0xb0 && body[1] == 0x0f {
        assert(body == reset_request());
    }
}

} // verus!
