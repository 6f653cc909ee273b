//! Static configuration of one aggregator process.  Reading it from the
//! process environment is part of the unverified surroundings; the engine
//! only consumes the plain values held here.

use vstd::prelude::*;

verus! {

/// The aggregator's configuration: cluster shape, endpoints, and the
/// credentials of the remote snapshot store.  The data pull interval is in
/// seconds.
#[derive(Debug, Clone)]
pub struct AggregatorEnvironment {
    pub plain_node_count: usize,
    pub seed_node_count: usize,
    pub producer_node_count: usize,
    pub snarker_node_count: usize,
    pub transaction_generator_node_count: usize,
    pub libp2p_ipc_encpoint: String,
    pub data_pull_interval: u64,
    pub rpc_port: u16,
    pub cluster_base_url: String,
    pub ci_api_url: String,
    pub ci_repo: String,
    pub remote_storage_url: String,
    pub remote_storage_user: String,
    pub remote_storage_password: String,
    pub remote_storage_path: String,
    pub use_internal_endpoints: bool,
    pub disable_aggregation: bool,
}

impl AggregatorEnvironment {
    /// Total number of nodes in the observed cluster.
    pub fn total_node_count(&self) -> (r: usize)
        requires
            self.seed_node_count + self.plain_node_count + self.producer_node_count
                + self.snarker_node_count + self.transaction_generator_node_count <= usize::MAX,
        ensures
            r == self.seed_node_count + self.plain_node_count + self.producer_node_count
                + self.snarker_node_count + self.transaction_generator_node_count,
    {
        self.seed_node_count + self.plain_node_count + self.producer_node_count
            + self.snarker_node_count + self.transaction_generator_node_count
    }
}

} // verus!
