//! Error kinds of the session-server layer.

use vstd::prelude::*;

verus! {

/// What can go wrong at this layer, and at which scope.
///
/// `Config` and `Bootstrap` are non-fatal startup conditions,
/// `Transport` is fatal to the startup attempt, while `Protocol` and
/// `ConnectionClosed` end only the connection they occurred on.
#[derive(Clone, Copy, Debug, PartialEq, Eq, Structural)]
pub enum AdapterError {
    /// The settings blob failed to parse; defaults are used instead.
    Config,
    /// The scripting subsystem failed to initialize; the capability is absent.
    Bootstrap,
    /// Binding or connecting the transport failed.
    Transport,
    /// A malformed frame header or an invalid declared length.
    Protocol,
    /// The stream ended in the middle of a frame.
    ConnectionClosed,
}

impl AdapterError {
    /// A printable name for the error kind.
    pub fn name(&self) -> (r: &'static str)
        ensures
            *self == AdapterError::Config ==> r@ == "config error"@,
            *self == AdapterError::Bootstrap ==> r@ == "bootstrap error"@,
            *self == AdapterError::Transport ==> r@ == "transport error"@,
            *self == AdapterError::Protocol ==> r@ == "protocol error"@,
            *self == AdapterError::ConnectionClosed ==> r@ == "connection closed"@,
    {
        match self {
            AdapterError::Config => "config error",
            AdapterError::Bootstrap => "bootstrap error",
            AdapterError::Transport => "transport error",
            AdapterError::Protocol => "protocol error",
            AdapterError::ConnectionClosed => "connection closed",
        }
    }

    /// Whether the error ends only the current connection, leaving the
    /// listener loop free to continue in multi-session mode.
    pub fn is_connection_scoped(&self) -> (r: bool)
        ensures
            r == (*self == AdapterError::Protocol || *self == AdapterError::ConnectionClosed),
    {
        match self {
            AdapterError::Protocol => true,
            AdapterError::ConnectionClosed => true,
            _ => false,
        }
    }
}

} // verus!
