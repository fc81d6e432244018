//! Configuration of the networking side: which role this process plays
//! and where the remote host is.

use vstd::prelude::*;

verus! {

/// The remote host string given on the command line, kept verbatim.
pub struct RemoteAddress(pub String);

/// Which side of the protocol this process runs.
#[derive(Clone, Copy, Debug, PartialEq, Eq, Structural)]
pub enum HostType {
    Client,
    Server,
}

/// The networking configuration: the chosen role.
#[derive(Clone, Copy, Debug, PartialEq, Eq, Structural)]
pub struct NetworkConfig {
    pub host_type: HostType,
}

/// The networking component, carrying its configuration.
#[derive(Clone, Copy, Debug, PartialEq, Eq, Structural)]
pub struct NetworkPlugin {
    pub config: NetworkConfig,
}

impl NetworkPlugin {
    pub fn new(config: NetworkConfig) -> (r: NetworkPlugin)
        ensures
            r == (NetworkPlugin { config }),
    {
        NetworkPlugin { config }
    }
}

} // verus!
