//! What can go wrong.

use vstd::prelude::*;

verus! {

/// The errors that the driver reports.
#[derive(Debug, PartialEq, Eq)]
pub enum Error {
    /// The connection is not usable, or was lost.
    ConnectionError,
    /// The peer did not answer in time.
    ConnectionTimedOut,
    /// The peer chose a protocol version that the driver does not speak.
    UnsupportedVersion,
    /// A message that is no response of the protocol.
    UnknownMessage,
    /// A response that nobody asked for, or of another kind than asked for.
    UnexpectedMessage,
    /// No server can serve the operation.
    ServerUnavailableError(String),
    /// The routing table could not be fetched.
    RoutingTableRefreshFailed(String),
}

/// An error as the contracts see it.
pub enum ErrorView {
    ConnectionError,
    ConnectionTimedOut,
    UnsupportedVersion,
    UnknownMessage,
    UnexpectedMessage,
    ServerUnavailableError(Seq<char>),
    RoutingTableRefreshFailed(Seq<char>),
}

impl View for Error {
    type V = ErrorView;

    open spec fn view(&self) -> ErrorView {
        match self {
            Error::ConnectionError => ErrorView::ConnectionError,
            Error::ConnectionTimedOut => ErrorView::ConnectionTimedOut,
            Error::UnsupportedVersion => ErrorView::UnsupportedVersion,
            Error::UnknownMessage => ErrorView::UnknownMessage,
            Error::UnexpectedMessage => ErrorView::UnexpectedMessage,
            Error::ServerUnavailableError(text) => ErrorView::ServerUnavailableError(text@),
            Error::RoutingTableRefreshFailed(text) => ErrorView::RoutingTableRefreshFailed(text@),
        }
    }
}

/// An error is seen as what it is, with its text.
pub proof fn law_errors_are_told_apart(error: Error, text: Seq<char>)
    ensures
        error@ is ConnectionError <==> error is ConnectionError,
        error@ is ConnectionTimedOut <==> error is ConnectionTimedOut,
        error@ is UnsupportedVersion <==> error is UnsupportedVersion,
        error@ is UnknownMessage <==> error is UnknownMessage,
        error@ is UnexpectedMessage <==> error is UnexpectedMessage,
        error@ == ErrorView::ServerUnavailableError(text) <==> (
        error matches Error::ServerUnavailableError(said) && said@ == text),
        error@ == ErrorView::RoutingTableRefreshFailed(text) <==> (
        error matches Error::RoutingTableRefreshFailed(said) && said@ == text),
{
}

} // verus!
