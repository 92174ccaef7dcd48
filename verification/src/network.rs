//! The networks on which the service is deployed, and where a client finds it
//! on each.

use vstd::prelude::*;

verus! {

/// A network on which the service runs.
#[derive(Clone, Debug, PartialEq)]
pub enum Network {
    Local,
    Testnet,
    Mainnet,
}

impl Network {
    /// The address of the network's gateway.
    pub open spec fn url(&self) -> Seq<char> {
        match self {
            Network::Local => "http://127.0.0.1:4943"@,
            Network::Testnet => "https://ic0.app"@,
            Network::Mainnet => "https://ic0.app"@,
        }
    }

    /// The identifier of the service's canister on the network.
    pub open spec fn canister_id(&self) -> Seq<char> {
        match self {
            Network::Local => "rrkah-fqaaa-aaaaa-aaaaq-cai"@,
            Network::Testnet => "25x2w-paaaa-aaaab-qackq-cai"@,
            Network::Mainnet => "vyggl-hpuoy-22jqe-6povn-6glf6-z2rle-wgphx-nyv6a-xbomq-e6knd-iae"@,
        }
    }

    /// The name under which the network is shown.
    pub open spec fn name(&self) -> Seq<char> {
        match self {
            Network::Local => "Local"@,
            Network::Testnet => "Testnet"@,
            Network::Mainnet => "Mainnet"@,
        }
    }

    /// The address of the network's gateway.
    pub fn get_url(&self) -> (url: &'static str)
        ensures
            url@ == self.url(),
    {
        match self {
            Network::Local => "http://127.0.0.1:4943",
            Network::Testnet => "https://ic0.app",
            Network::Mainnet => "https://ic0.app",
        }
    }

    /// The identifier of the service's canister on the network.
    pub fn get_canister_id(&self) -> (id: &'static str)
        ensures
            id@ == self.canister_id(),
    {
        match self {
            Network::Local => "rrkah-fqaaa-aaaaa-aaaaq-cai",
            Network::Testnet => "25x2w-paaaa-aaaab-qackq-cai",
            Network::Mainnet => "vyggl-hpuoy-22jqe-6povn-6glf6-z2rle-wgphx-nyv6a-xbomq-e6knd-iae",
        }
    }

    /// The name under which the network is shown.
    pub fn display_name(&self) -> (name: &'static str)
        ensures
            name@ == self.name(),
    {
        match self {
            Network::Local => "Local",
            Network::Testnet => "Testnet",
            Network::Mainnet => "Mainnet",
        }
    }
}

} // verus!
