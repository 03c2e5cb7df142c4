//! Selection of the libfabric provider that backs the fabric.

use vstd::prelude::*;

verus! {

/// The libfabric provider to use for a fabric.
///
/// A provider is libfabric's term for a backend transport implementation. EFA
/// is the reason this transport exists, but the others are useful for
/// development and testing: `Tcp`, `Udp`, and `Shm` require no special
/// hardware.
#[derive(Debug, Clone, Copy, PartialEq, Eq, Hash)]
#[non_exhaustive]
pub enum Provider {
    /// AWS Elastic Fabric Adapter: RDMA on supported EC2 instances.
    Efa,
    /// The `tcp` provider. Works anywhere.
    Tcp,
    /// The `udp` provider. Works anywhere.
    Udp,
    /// The `verbs` provider: InfiniBand / RoCE via libibverbs.
    Verbs,
    /// The `shm` provider: intra-node shared memory.
    Shm,
}

/// The libfabric name of each provider.
pub open spec fn provider_name(provider: Provider) -> Seq<char> {
    match provider {
        Provider::Efa => "efa"@,
        Provider::Tcp => "tcp"@,
        Provider::Udp => "udp"@,
        Provider::Verbs => "verbs"@,
        Provider::Shm => "shm"@,
    }
}

impl Provider {
    /// The libfabric provider name, matched against `fi_info`'s
    /// `fabric_attr->prov_name` when selecting hardware.
    pub fn prov_name(self) -> (name: &'static str)
        ensures
            name@ == provider_name(self),
    {
        match self {
            Provider::Efa => "efa",
            Provider::Tcp => "tcp",
            Provider::Udp => "udp",
            Provider::Verbs => "verbs",
            Provider::Shm => "shm",
        }
    }
}

} // verus!
