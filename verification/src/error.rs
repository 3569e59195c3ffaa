//! The ways in which a measurement can fail.
//!
//! A failure of a single stream or probe is no error: it is absorbed into the
//! result. What is left are parameters out of range, reported before anything
//! is sent, and a network that offers nothing to measure against.

use vstd::prelude::*;

verus! {

/// A parameter that is out of range.
#[derive(Clone, Copy, Debug, PartialEq, Eq, Structural)]
pub enum ValidationError {
    /// The duration is not within 5 to 300 seconds.
    Duration,
    /// The number of connections is not within 1 to 16.
    Connections,
    /// No probe was asked for.
    PacketCount,
}

/// A network that cannot be measured.
#[derive(Clone, Copy, Debug, PartialEq, Eq, Structural)]
pub enum NetworkError {
    /// The server directory did not answer.
    DirectoryUnreachable,
    /// The server directory answered with a listing that names a server
    /// twice or under an identifier that is out of range.
    DirectoryMalformed,
    /// There is no server to measure against.
    NoReachableServer,
    /// A phase was run and no stream of it delivered data.
    ConnectionRefused,
}

/// The one terminal error of a call.
#[derive(Clone, Copy, Debug, PartialEq, Eq, Structural)]
pub enum MeasureError {
    /// Rejected before any traffic.
    Validation(ValidationError),
    /// Fatal to the call.
    Network(NetworkError),
}

/// What an error says to the user.
pub open spec fn message_text(error: MeasureError) -> Seq<char> {
    match error {
        MeasureError::Validation(ValidationError::Duration) => "duration must be between 5 and 300 seconds"@,
        MeasureError::Validation(ValidationError::Connections) => "connections must be between 1 and 16"@,
        MeasureError::Validation(ValidationError::PacketCount) => "packet count must be at least 1"@,
        MeasureError::Network(NetworkError::DirectoryUnreachable) => "server directory is unreachable"@,
        MeasureError::Network(NetworkError::DirectoryMalformed) => "server directory sent an invalid listing"@,
        MeasureError::Network(NetworkError::NoReachableServer) => "no server is reachable"@,
        MeasureError::Network(NetworkError::ConnectionRefused) => "connection refused: no data was transferred"@,
    }
}

impl MeasureError {
    /// Whether the error was found in the parameters, before any traffic.
    pub fn is_validation(&self) -> (yes: bool)
        ensures
            yes == (*self is Validation),
    {
        match self {
            MeasureError::Validation(_) => true,
            MeasureError::Network(_) => false,
        }
    }

    /// Whether the error came from the network.
    pub fn is_network(&self) -> (yes: bool)
        ensures
            yes == (*self is Network),
    {
        match self {
            MeasureError::Validation(_) => false,
            MeasureError::Network(_) => true,
        }
    }

    /// The error in words.
    pub fn message(&self) -> (text: &'static str)
        ensures
            text@ == message_text(*self),
    {
        match self {
            MeasureError::Validation(ValidationError::Duration) => "duration must be between 5 and 300 seconds",
            MeasureError::Validation(ValidationError::Connections) => "connections must be between 1 and 16",
            MeasureError::Validation(ValidationError::PacketCount) => "packet count must be at least 1",
            MeasureError::Network(NetworkError::DirectoryUnreachable) => "server directory is unreachable",
            MeasureError::Network(NetworkError::DirectoryMalformed) => "server directory sent an invalid listing",
            MeasureError::Network(NetworkError::NoReachableServer) => "no server is reachable",
            MeasureError::Network(NetworkError::ConnectionRefused) => "connection refused: no data was transferred",
        }
    }
}

} // verus!
