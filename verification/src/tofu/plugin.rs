//! The provider plugin server.

use vstd::prelude::*;

verus! {

/// The server side of the provider plugin protocol. It holds no state.
#[derive(Clone, Copy, Debug, PartialEq, Eq, Structural)]
pub struct ProviderServer;

impl ProviderServer {
    /// A server that has not been started.
    pub fn new() -> (r: ProviderServer)
        ensures
            r == ProviderServer,
    {
        ProviderServer
    }
}

} // verus!
