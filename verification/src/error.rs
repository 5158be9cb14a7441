//! What can go wrong.
use crate::cells::router::routing::RoutingTableError;
use vstd::prelude::*;

verus! {

#[derive(Debug)]
pub enum Error {
    /// A packet could not be handed on.
    ChannelError(String),
    /// A configuration that makes no sense, or that nobody takes.
    ConfigError(String),
    /// A file could not be read.
    IoError(String),
    /// A routing table cannot be what it was asked to be.
    RoutingTableError(RoutingTableError),
    /// An operation on a running channel went wrong.
    RattanOpError(RattanOpError),
}

/// What can go wrong with an operation on a running channel.
#[derive(Debug, Clone, Copy, PartialEq, Eq, Structural)]
pub enum RattanOpError {
    /// The result is that of another operation.
    MismatchOpResError,
}

impl Error {
    /// The message of the error, where it is a message.
    pub open spec fn text(self) -> Seq<char> {
        match self {
            Error::ChannelError(s) => s@,
            Error::ConfigError(s) => s@,
            Error::IoError(s) => s@,
            Error::RoutingTableError(_) => Seq::empty(),
            Error::RattanOpError(_) => Seq::empty(),
        }
    }
}

/// The result of handing a packet to the data channel of a cell: `sent` tells whether the
/// channel took it.
pub fn data_channel(sent: bool) -> (r: Result<(), Error>)
    ensures
        r is Ok <==> sent,
        !sent ==> r->Err_0 is ChannelError && r->Err_0.text() == "Data channel is closed."@,
{
    if sent {
        Ok(())
    } else {
        Err(Error::ChannelError("Data channel is closed.".to_owned()))
    }
}

/// The result of handing a configuration to the control channel of a cell: `sent` tells
/// whether the channel took it.
pub fn control_channel(sent: bool) -> (r: Result<(), Error>)
    ensures
        r is Ok <==> sent,
        !sent ==> r->Err_0 is ConfigError && r->Err_0.text() == "Control channel is closed."@,
{
    if sent {
        Ok(())
    } else {
        Err(Error::ConfigError("Control channel is closed.".to_owned()))
    }
}

} // verus!
