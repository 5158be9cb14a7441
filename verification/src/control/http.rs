//! Control over HTTP.
use crate::cells::RattanNotify;
use crate::error::{Error, RattanOpError};
use vstd::prelude::*;

verus! {

/// The port where nothing else is said.
pub const DEFAULT_PORT: u16 = 8086;

#[derive(Debug, Clone, Copy, PartialEq, Eq, Structural)]
pub struct HttpConfig {
    pub enable: bool,
    pub port: u16,
}

impl HttpConfig {
    /// The server is enabled or not, on `port` if one is given.
    pub fn from_options(enable: bool, port: Option<u16>) -> (c: Self)
        ensures
            c.enable == enable,
            c.port == match port {
                Some(p) => p,
                None => DEFAULT_PORT,
            },
    {
        HttpConfig {
            enable,
            port: match port {
                Some(p) => p,
                None => DEFAULT_PORT,
            },
        }
    }
}

impl Default for HttpConfig {
    fn default() -> (c: Self)
        ensures
            !c.enable,
            c.port == DEFAULT_PORT,
    {
        HttpConfig { enable: false, port: DEFAULT_PORT }
    }
}

/// What can be asked of a running channel.
#[derive(Debug)]
pub enum RattanOp<C> {
    SendNotify(RattanNotify),
    QueryState,
    /// A device, by its name, is to be configured.
    ConfigDevice(String, C),
}

/// What comes back.
#[derive(Debug)]
pub enum RattanOpResult<S> {
    SendNotify,
    QueryState(S),
    ConfigDevice,
}

/// Where requests go: the channel that is controlled.
#[derive(Debug)]
pub struct HttpControlEndpoint<E> {
    pub op_endpoint: E,
}

impl<E> HttpControlEndpoint<E> {
    pub fn new(op_endpoint: E) -> (e: Self)
        ensures
            e.op_endpoint == op_endpoint,
    {
        HttpControlEndpoint { op_endpoint }
    }
}

/// The answer to a notification.
pub fn notify_answer<S>(result: RattanOpResult<S>) -> (r: Result<(), Error>)
    ensures
        r is Ok <==> result is SendNotify,
        r is Err ==> r->Err_0 == Error::RattanOpError(RattanOpError::MismatchOpResError),
{
    match result {
        RattanOpResult::SendNotify => Ok(()),
        _ => Err(Error::RattanOpError(RattanOpError::MismatchOpResError)),
    }
}

/// The answer to a question for the state.
pub fn state_answer<S>(result: RattanOpResult<S>) -> (r: Result<S, Error>)
    ensures
        match result {
            RattanOpResult::QueryState(state) => r == Ok::<S, Error>(state),
            _ => r == Err::<S, Error>(Error::RattanOpError(RattanOpError::MismatchOpResError)),
        },
{
    match result {
        RattanOpResult::QueryState(state) => Ok(state),
        _ => Err(Error::RattanOpError(RattanOpError::MismatchOpResError)),
    }
}

/// The answer to a configuration.
pub fn config_answer<S>(result: RattanOpResult<S>) -> (r: Result<(), Error>)
    ensures
        r is Ok <==> result is ConfigDevice,
        r is Err ==> r->Err_0 == Error::RattanOpError(RattanOpError::MismatchOpResError),
{
    match result {
        RattanOpResult::ConfigDevice => Ok(()),
        _ => Err(Error::RattanOpError(RattanOpError::MismatchOpResError)),
    }
}

} // verus!
