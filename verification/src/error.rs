use vstd::prelude::*;

verus! {

/// The errors a peer reports about its socket.
#[derive(Debug, Clone, Copy, PartialEq, Eq, Structural)]
pub enum EkkeError {
    /// A message was to be written before a connection existed.
    UseSocketBeforeConnect,
    /// The listening socket stopped before any peer connected to it.
    NoConnectionsReceived,
}

/// The text shown for each error.
pub open spec fn error_text(e: EkkeError) -> Seq<char> {
    match e {
        EkkeError::UseSocketBeforeConnect => "Cannot use socket before connecting"@,
        EkkeError::NoConnectionsReceived => "Nobody connected to the socket"@,
    }
}

impl EkkeError {
    /// The human readable description of the error.
    pub fn message(&self) -> (text: &'static str)
        ensures
            text@ == error_text(*self),
    {
        match self {
            EkkeError::UseSocketBeforeConnect => "Cannot use socket before connecting",
            EkkeError::NoConnectionsReceived => "Nobody connected to the socket",
        }
    }
}

} // verus!
