//! Data model of the node side: daemon status snapshots, execution traces,
//! produced blocks, and the best-chain query shapes.

use vstd::prelude::*;

use crate::config::AggregatorEnvironment;
use crate::maps::TagMap;
use crate::text::{dec_str, has_substring, pad3, str_has_substring, usize_to_string,
    usize_to_string_pad3};

verus! {

/// Counters of one collection round: how many requests were made and how
/// many of them timed out.
#[derive(Debug, Clone, Copy, PartialEq, Eq, Structural)]
pub struct RequestStats {
    pub request_count: usize,
    pub request_timeout_count: usize,
}

impl RequestStats {
    /// The empty tally.
    pub fn new() -> (r: Self)
        ensures
            r.request_count == 0,
            r.request_timeout_count == 0,
    {
        RequestStats { request_count: 0, request_timeout_count: 0 }
    }

    /// Adds another round's tally onto this one.
    pub fn add(&mut self, other: RequestStats)
        requires
            old(self).request_count + other.request_count <= usize::MAX,
            old(self).request_timeout_count + other.request_timeout_count <= usize::MAX,
        ensures
            final(self).request_count == old(self).request_count + other.request_count,
            final(self).request_timeout_count == old(self).request_timeout_count
                + other.request_timeout_count,
    {
        self.request_count = self.request_count + other.request_count;
        self.request_timeout_count = self.request_timeout_count + other.request_timeout_count;
    }
}

/// The peer identity of a daemon.
#[derive(Debug, Clone)]
pub struct Peer {
    pub peer_id: String,
}

/// The addresses a daemon listens on.
#[derive(Debug, Clone)]
pub struct AddrsAndPorts {
    pub external_ip: String,
    pub peer: Peer,
}

/// One element of a daemon's snark pool.
#[derive(Debug, Clone)]
pub struct SnarkPoolElement {
    pub prover: String,
}

/// The metric counters a daemon reports.
#[derive(Debug, Clone, Copy, PartialEq, Eq, Structural)]
pub struct DaemonMetrics {
    pub transaction_pool_size: usize,
    pub transactions_added_to_pool: usize,
    pub transaction_pool_diff_broadcasted: usize,
    pub transaction_pool_diff_received: usize,
}

/// A daemon's status snapshot.
#[derive(Debug, Clone)]
pub struct DaemonStatus {
    pub addrs_and_ports: AddrsAndPorts,
    pub sync_status: String,
    pub metrics: DaemonMetrics,
}

/// A daemon's status snapshot with its full snark pool.
#[derive(Debug, Clone)]
pub struct DaemonStatusData {
    pub daemon_status: DaemonStatus,
    pub snark_pool: Vec<SnarkPoolElement>,
}

/// A daemon's status snapshot with the snark pool reduced to its size.
#[derive(Debug, Clone)]
pub struct DaemonStatusDataSlim {
    pub daemon_status: DaemonStatus,
    pub snark_pool: usize,
}

impl DaemonStatusData {
    /// Reduces the snapshot to the slim form: the snark pool becomes its
    /// size.
    pub fn to_slim(self) -> (r: DaemonStatusDataSlim)
        ensures
            r.daemon_status == self.daemon_status,
            r.snark_pool == self.snark_pool@.len(),
    {
        let n = self.snark_pool.len();
        DaemonStatusDataSlim { daemon_status: self.daemon_status, snark_pool: n }
    }
}

/// How a node came to know about a block: self-produced, received from a
/// peer, recovered via catch-up sync, reconstructed, or unknown.
#[derive(Debug, Clone, Copy, PartialEq, Eq, Structural)]
pub enum TraceSource {
    Internal,
    External,
    Unknown,
    Catchup,
    Reconstruct,
}

/// The outcome a trace reports for a block's processing.
#[derive(Debug, Clone, Copy, PartialEq, Eq, Structural)]
pub enum TraceStatus {
    Success,
    Failure,
    Pending,
}

/// A block a producer reports having produced.
#[derive(Debug, Clone)]
pub struct ProducedBlock {
    pub height: usize,
    pub state_hash: String,
    pub tag: String,
}

/// One node's summary trace of one block, as the trace listing reports it.
/// Times are integer microseconds.
#[derive(Debug, Clone)]
pub struct BlockTrace {
    pub source: TraceSource,
    pub blockchain_length: usize,
    pub state_hash: String,
    pub status: TraceStatus,
    pub total_time: i64,
}

/// One checkpoint of a structured trace: a name, a start offset and a
/// duration (microseconds), and nested checkpoints.
#[derive(Debug)]
pub struct BlockStructuredTraceCheckpoint {
    pub checkpoint: String,
    pub started_at: i64,
    pub duration: i64,
    pub checkpoints: Vec<BlockStructuredTraceCheckpoint>,
}

/// One section of a structured trace.
#[derive(Debug)]
pub struct BlockStructuredTraceSection {
    pub title: String,
    pub checkpoints: Vec<BlockStructuredTraceCheckpoint>,
}

/// Commands a block's construction left out.
#[derive(Debug, Clone, Copy, PartialEq, Eq, Structural)]
pub struct DiscardedCommands {
    pub insufficient_work: usize,
    pub insufficient_space: usize,
}

impl DiscardedCommands {
    /// Total number of discarded commands.
    pub fn total(&self) -> (r: usize)
        requires
            self.insufficient_space + self.insufficient_work <= usize::MAX,
        ensures
            r == self.insufficient_space + self.insufficient_work,
    {
        self.insufficient_space + self.insufficient_work
    }
}

/// One part of the staged-ledger diff log.
#[derive(Debug, Clone, Copy, PartialEq, Eq, Structural)]
pub struct DiffLogPart {
    pub discarded_commands: DiscardedCommands,
}

/// The metadata attached to a structured trace.
#[derive(Debug, Clone)]
pub struct BlockStructuredTraceMetadata {
    pub proof_count: Option<usize>,
    pub txn_count: Option<usize>,
    pub global_slot: Option<String>,
    pub creator: Option<String>,
    pub winner: Option<String>,
    pub coinbase_receiver: Option<String>,
    pub diff_log: Option<Vec<DiffLogPart>>,
}

/// One node's full structured trace of one block.  Times are integer
/// microseconds; `total_time` is the elapsed processing time and
/// `sections[0].checkpoints[0].started_at` the processing start instant.
#[derive(Debug)]
pub struct BlockStructuredTrace {
    pub source: TraceSource,
    pub blockchain_length: i64,
    pub status: TraceStatus,
    pub total_time: i64,
    pub sections: Vec<BlockStructuredTraceSection>,
    pub metadata: BlockStructuredTraceMetadata,
}

/// The consensus part of a best-chain block's protocol state.
#[derive(Debug, Clone)]
pub struct ConsensusState {
    pub block_height: String,
}

/// The protocol state of a best-chain block.
#[derive(Debug, Clone)]
pub struct ProtocolState {
    pub consensus_state: ConsensusState,
}

/// One block of the best chain, as the seed node reports it.
#[derive(Debug, Clone)]
pub struct BestChainBlock {
    pub state_hash: String,
    pub protocol_state: ProtocolState,
}


/// The envelope of every GraphQL response.
#[derive(Debug, Clone)]
pub struct GraphqlResponse<T> {
    pub data: T,
}

/// The component of a node that a collected URL addresses.
#[derive(Debug, Clone, Copy, PartialEq, Eq, Structural)]
pub enum ComponentType {
    Graphql,
    Debugger,
    InternalTracing,
}


/// The URL path component of each node service.
pub open spec fn component_path(c: ComponentType) -> Seq<char> {
    match c {
        ComponentType::Graphql => "graphql"@,
        ComponentType::Debugger => "bpf-debugger"@,
        ComponentType::InternalTracing => "internal-trace/graphql"@,
    }
}

/// The path component and port used when a node is addressed by its cluster
/// address instead of through the proxy.
pub open spec fn component_suffix(c: ComponentType) -> Seq<char> {
    match c {
        ComponentType::Graphql => "/graphql"@,
        ComponentType::Debugger => ""@,
        ComponentType::InternalTracing => "/graphql"@,
    }
}

/// The port of each service on a cluster address.
pub open spec fn component_port(c: ComponentType) -> Seq<char> {
    match c {
        ComponentType::Graphql => "3085"@,
        ComponentType::Debugger => "80"@,
        ComponentType::InternalTracing => "8000"@,
    }
}

/// A node's URL through the cluster proxy.
pub open spec fn proxy_url(base: Seq<char>, label: Seq<char>, c: ComponentType) -> Seq<char> {
    base + "/"@ + label + "/"@ + component_path(c)
}

/// A node's URL at its cluster address.
pub open spec fn cluster_ip_url(ip: Seq<char>, c: ComponentType) -> Seq<char> {
    "http://"@ + ip + ":"@ + component_port(c) + component_suffix(c)
}

/// The label of the `i`-th seed node.
pub open spec fn seed_label(i: int) -> Seq<char> {
    "seed"@ + dec_str(i)
}

/// The label of the `i`-th plain node.
pub open spec fn plain_label(i: int) -> Seq<char> {
    "node"@ + dec_str(i)
}

/// The label of the `i`-th snarker node, zero-padded as deployed.
pub open spec fn snarker_label(i: int) -> Seq<char> {
    "snarker"@ + pad3(dec_str(i))
}

/// The labels of the producer nodes; the two naming schemes coexist in the
/// deployment.
pub open spec fn producer_labels() -> Seq<Seq<char>> {
    seq!["prod01"@, "prod02"@, "prod03"@, "prod2"@, "prod3"@]
}

/// The seed labels `seed1` up to `seedN`, in order.
pub open spec fn seed_labels(n: int) -> Seq<Seq<char>>
    decreases n,
{
    if n <= 0 {
        Seq::empty()
    } else {
        seed_labels(n - 1).push(seed_label(n))
    }
}

/// The plain-node labels `node1` up to `nodeN`, in order.
pub open spec fn plain_labels(n: int) -> Seq<Seq<char>>
    decreases n,
{
    if n <= 0 {
        Seq::empty()
    } else {
        plain_labels(n - 1).push(plain_label(n))
    }
}

/// The snarker labels `snarker001` up to the padded `N`, in order.
pub open spec fn snarker_labels(n: int) -> Seq<Seq<char>>
    decreases n,
{
    if n <= 0 {
        Seq::empty()
    } else {
        snarker_labels(n - 1).push(snarker_label(n))
    }
}

/// Renders the path component of a service.
fn component_path_of(c: &ComponentType) -> (r: String)
    ensures
        r@ == component_path(*c),
{
    match c {
        ComponentType::Graphql => "graphql".to_owned(),
        ComponentType::Debugger => "bpf-debugger".to_owned(),
        ComponentType::InternalTracing => "internal-trace/graphql".to_owned(),
    }
}

/// Builds a node's URL through the cluster proxy.
fn make_proxy_url(base: &String, label: &String, c: &ComponentType) -> (r: String)
    ensures
        r@ == proxy_url(base@, label@, *c),
{
    let component = component_path_of(c);
    let r = base.clone().concat("/").concat(label.as_str()).concat("/").concat(
        component.as_str(),
    );
    proof {
        assert(r@ =~= proxy_url(base@, label@, *c));
    }
    r
}

/// Builds a node's URL at its cluster address.
fn make_cluster_ip_url(ip: &String, c: &ComponentType) -> (r: String)
    ensures
        r@ == cluster_ip_url(ip@, *c),
{
    let port: String = match c {
        ComponentType::Graphql => "3085".to_owned(),
        ComponentType::Debugger => "80".to_owned(),
        ComponentType::InternalTracing => "8000".to_owned(),
    };
    let suffix: String = match c {
        ComponentType::Graphql => "/graphql".to_owned(),
        ComponentType::Debugger => "".to_owned(),
        ComponentType::InternalTracing => "/graphql".to_owned(),
    };
    let r = "http://".to_owned().concat(ip.as_str()).concat(":").concat(port.as_str()).concat(
        suffix.as_str(),
    );
    proof {
        assert(r@ =~= cluster_ip_url(ip@, *c));
    }
    r
}

/// The label-to-URL pairs of every node in the cluster, addressed through
/// the proxy: the seeds, then the producers, then the snarkers, then the
/// plain nodes.
pub fn collect_all_urls(environment: &AggregatorEnvironment, component_type: ComponentType) -> (r:
    Vec<(String, String)>)
    ensures
        ({
            let labels = seed_labels(environment.seed_node_count as int) + producer_labels()
                + snarker_labels(environment.snarker_node_count as int) + plain_labels(
                environment.plain_node_count as int,
            );
            &&& r@.len() == labels.len()
            &&& forall|i: int|
                0 <= i < labels.len() ==> (#[trigger] r@[i]).0@ == labels[i] && r@[i].1@
                    == proxy_url(environment.cluster_base_url@, labels[i], component_type)
        }),
{
    let mut res: Vec<(String, String)> = Vec::new();
    let ghost base = environment.cluster_base_url@;

    let n = environment.seed_node_count;
    let ghost seeds = seed_labels(n as int);
    proof {
        lemma_seed_labels_len(n as int);
    }
    let mut i: usize = 0;
    while i < n
        invariant
            n == environment.seed_node_count,
            base == environment.cluster_base_url@,
            seeds == seed_labels(n as int),
            seeds.len() == n,
            i <= n,
            res@.len() == i,
            forall|l: int|
                0 <= l < i ==> (#[trigger] res@[l]).0@ == seeds[l] && res@[l].1@ == proxy_url(
                    base,
                    seeds[l],
                    component_type,
                ),
        decreases n - i,
    {
        let seed_tag = "seed".to_owned().concat(usize_to_string(i + 1).as_str());
        proof {
            assert(seed_tag@ =~= seed_label(i + 1));
            lemma_group_labels_index(n as int, i + 1);
        }
        let url = make_proxy_url(&environment.cluster_base_url, &seed_tag, &component_type);
        res.push((seed_tag, url));
        i = i + 1;
    }

    let producers = collect_producer_urls(environment, component_type);
    let ghost with_producers = seeds + producer_labels();
    let mut j: usize = 0;
    while j < producers.len()
        invariant
            base == environment.cluster_base_url@,
            seeds == seed_labels(environment.seed_node_count as int),
            with_producers == seeds + producer_labels(),
            producers@.len() == producer_labels().len(),
            forall|l: int|
                0 <= l < producer_labels().len() ==> (#[trigger] producers@[l]).0@
                    == producer_labels()[l] && producers@[l].1@ == proxy_url(
                    base,
                    producer_labels()[l],
                    component_type,
                ),
            j <= producers@.len(),
            res@.len() == seeds.len() + j,
            forall|l: int|
                0 <= l < seeds.len() + j ==> (#[trigger] res@[l]).0@ == with_producers[l]
                    && res@[l].1@ == proxy_url(base, with_producers[l], component_type),
        decreases producers@.len() - j,
    {
        let pair = (producers[j].0.clone(), producers[j].1.clone());
        res.push(pair);
        j = j + 1;
    }

    let m = environment.snarker_node_count;
    let ghost snarkers = snarker_labels(m as int);
    let ghost with_snarkers = with_producers + snarkers;
    proof {
        lemma_snarker_labels_len(m as int);
    }
    let mut i: usize = 0;
    while i < m
        invariant
            m == environment.snarker_node_count,
            base == environment.cluster_base_url@,
            with_producers == seed_labels(environment.seed_node_count as int)
                + producer_labels(),
            snarkers == snarker_labels(m as int),
            snarkers.len() == m,
            with_snarkers == with_producers + snarkers,
            i <= m,
            res@.len() == with_producers.len() + i,
            forall|l: int|
                0 <= l < with_producers.len() + i ==> (#[trigger] res@[l]).0@
                    == with_snarkers[l] && res@[l].1@ == proxy_url(
                    base,
                    with_snarkers[l],
                    component_type,
                ),
        decreases m - i,
    {
        let snarker_tag = "snarker".to_owned().concat(usize_to_string_pad3(i + 1).as_str());
        proof {
            assert(snarker_tag@ =~= snarker_label(i + 1));
            lemma_snarker_labels_index(m as int, i + 1);
        }
        let url = make_proxy_url(&environment.cluster_base_url, &snarker_tag, &component_type);
        res.push((snarker_tag, url));
        i = i + 1;
    }

    let p = environment.plain_node_count;
    let ghost plains = plain_labels(p as int);
    let ghost all = with_snarkers + plains;
    proof {
        lemma_plain_labels_len(p as int);
    }
    let mut i: usize = 0;
    while i < p
        invariant
            p == environment.plain_node_count,
            base == environment.cluster_base_url@,
            with_snarkers == seed_labels(environment.seed_node_count as int) + producer_labels()
                + snarker_labels(environment.snarker_node_count as int),
            plains == plain_labels(p as int),
            plains.len() == p,
            all == with_snarkers + plains,
            i <= p,
            res@.len() == with_snarkers.len() + i,
            forall|l: int|
                0 <= l < with_snarkers.len() + i ==> (#[trigger] res@[l]).0@ == all[l]
                    && res@[l].1@ == proxy_url(base, all[l], component_type),
        decreases p - i,
    {
        let plain_tag = "node".to_owned().concat(usize_to_string(i + 1).as_str());
        proof {
            assert(plain_tag@ =~= plain_label(i + 1));
            lemma_plain_labels_index(p as int, i + 1);
        }
        let url = make_proxy_url(&environment.cluster_base_url, &plain_tag, &component_type);
        res.push((plain_tag, url));
        i = i + 1;
    }
    res
}

/// The seed labels number `n`.
proof fn lemma_seed_labels_len(n: int)
    ensures
        seed_labels(n).len() == (if n <= 0 { 0int } else { n }),
    decreases n,
{
    if n > 0 {
        lemma_seed_labels_len(n - 1);
    }
}

/// The plain labels number `n`.
proof fn lemma_plain_labels_len(n: int)
    ensures
        plain_labels(n).len() == (if n <= 0 { 0int } else { n }),
    decreases n,
{
    if n > 0 {
        lemma_plain_labels_len(n - 1);
    }
}

/// The snarker labels number `n`.
proof fn lemma_snarker_labels_len(n: int)
    ensures
        snarker_labels(n).len() == (if n <= 0 { 0int } else { n }),
    decreases n,
{
    if n > 0 {
        lemma_snarker_labels_len(n - 1);
    }
}

/// The `i`-th seed label stands at position `i - 1`.
proof fn lemma_group_labels_index(n: int, i: int)
    requires
        1 <= i <= n,
    ensures
        seed_labels(n)[i - 1] == seed_label(i),
    decreases n,
{
    lemma_seed_labels_len(n);
    lemma_seed_labels_len(n - 1);
    if i < n {
        lemma_group_labels_index(n - 1, i);
    }
}

/// The `i`-th snarker label stands at position `i - 1`.
proof fn lemma_snarker_labels_index(n: int, i: int)
    requires
        1 <= i <= n,
    ensures
        snarker_labels(n)[i - 1] == snarker_label(i),
    decreases n,
{
    lemma_snarker_labels_len(n);
    lemma_snarker_labels_len(n - 1);
    if i < n {
        lemma_snarker_labels_index(n - 1, i);
    }
}

/// The `i`-th plain label stands at position `i - 1`.
proof fn lemma_plain_labels_index(n: int, i: int)
    requires
        1 <= i <= n,
    ensures
        plain_labels(n)[i - 1] == plain_label(i),
    decreases n,
{
    lemma_plain_labels_len(n);
    lemma_plain_labels_len(n - 1);
    if i < n {
        lemma_plain_labels_index(n - 1, i);
    }
}

/// The first seed node's URL through the proxy.
pub fn get_seed_url(environment: &AggregatorEnvironment, component_type: ComponentType) -> (r:
    String)
    ensures
        r@ == proxy_url(environment.cluster_base_url@, seed_label(1), component_type),
{
    let label = "seed".to_owned().concat("1");
    proof {
        reveal_strlit("1");
        assert(label@ =~= seed_label(1));
    }
    make_proxy_url(&environment.cluster_base_url, &label, &component_type)
}

/// The label-to-URL pairs of the producer nodes, addressed through the
/// proxy.
pub fn collect_producer_urls(
    environment: &AggregatorEnvironment,
    component: ComponentType,
) -> (r: Vec<(String, String)>)
    ensures
        r@.len() == producer_labels().len(),
        forall|i: int|
            0 <= i < producer_labels().len() ==> (#[trigger] r@[i]).0@ == producer_labels()[i]
                && r@[i].1@ == proxy_url(
                environment.cluster_base_url@,
                producer_labels()[i],
                component,
            ),
{
    let mut res: Vec<(String, String)> = Vec::new();
    let labels: [&str; 5] = ["prod01", "prod02", "prod03", "prod2", "prod3"];
    let mut i: usize = 0;
    while i < 5
        invariant
            labels@.len() == 5,
            labels@[0]@ == "prod01"@,
            labels@[1]@ == "prod02"@,
            labels@[2]@ == "prod03"@,
            labels@[3]@ == "prod2"@,
            labels@[4]@ == "prod3"@,
            i <= 5,
            res@.len() == i,
            forall|l: int|
                0 <= l < i ==> (#[trigger] res@[l]).0@ == producer_labels()[l] && res@[l].1@
                    == proxy_url(
                    environment.cluster_base_url@,
                    producer_labels()[l],
                    component,
                ),
        decreases 5 - i,
    {
        let label = labels[i].to_owned();
        let url = make_proxy_url(&environment.cluster_base_url, &label, &component);
        proof {
            assert(label@ == producer_labels()[i as int]);
        }
        res.push((label, url));
        i = i + 1;
    }
    res
}

/// The label-to-URL pairs of the producer nodes, addressed by their cluster
/// addresses: every roster entry whose tag names a producer.
pub fn collect_producer_urls_cluster_ip(
    build_nodes: &TagMap<DaemonStatusDataSlim>,
    component_type: ComponentType,
) -> (r: Vec<(String, String)>)
    requires
        build_nodes.wf(),
    ensures
        forall|i: int|
            0 <= i < r@.len() ==> ({
                let tag = (#[trigger] r@[i]).0@;
                &&& build_nodes.spec_contains(tag)
                &&& has_substring(tag, "prod"@)
                &&& r@[i].1@ == cluster_ip_url(
                    build_nodes.spec_get(
                        tag,
                    ).daemon_status.addrs_and_ports.external_ip@,
                    component_type,
                )
            }),
        forall|j: int|
            0 <= j < build_nodes.spec_len() && has_substring(
                #[trigger] build_nodes.keys_view()[j],
                "prod"@,
            ) ==> exists|i: int| 0 <= i < r@.len() && (#[trigger] r@[i]).0@
                == build_nodes.keys_view()[j],
{
    let n = build_nodes.len();
    let mut res: Vec<(String, String)> = Vec::new();
    let mut j: usize = 0;
    while j < n
        invariant
            build_nodes.wf(),
            n == build_nodes.spec_len(),
            j <= n,
            forall|i: int|
                0 <= i < res@.len() ==> ({
                    let tag = (#[trigger] res@[i]).0@;
                    &&& build_nodes.spec_contains(tag)
                    &&& has_substring(tag, "prod"@)
                    &&& res@[i].1@ == cluster_ip_url(
                        build_nodes.spec_get(
                            tag,
                        ).daemon_status.addrs_and_ports.external_ip@,
                        component_type,
                    )
                }),
            forall|l: int|
                0 <= l < j && has_substring(#[trigger] build_nodes.keys_view()[l], "prod"@)
                    ==> exists|i: int| 0 <= i < res@.len() && (#[trigger] res@[i]).0@
                    == build_nodes.keys_view()[l],
        decreases n - j,
    {
        let tag = build_nodes.key_at(j);
        if str_has_substring(tag.as_str(), "prod") {
            let data = build_nodes.val_at(j);
            let url = make_cluster_ip_url(
                &data.daemon_status.addrs_and_ports.external_ip,
                &component_type,
            );
            proof {
                crate::maps::lemma_unique_find(build_nodes.keys_view(), j as int, tag@);
            }
            let ghost prev = res@;
            res.push((tag.clone(), url));
            proof {
                assert(res@[prev.len() as int].0@ == build_nodes.keys_view()[j as int]);
                assert forall|l: int|
                    0 <= l < j + 1 && has_substring(
                        #[trigger] build_nodes.keys_view()[l],
                        "prod"@,
                    ) implies exists|i: int| 0 <= i < res@.len() && (#[trigger] res@[i]).0@
                    == build_nodes.keys_view()[l] by {
                    if l < j {
                        let i = choose|i: int|
                            0 <= i < prev.len() && (#[trigger] prev[i]).0@
                                == build_nodes.keys_view()[l];
                        assert(res@[i] == prev[i]);
                    } else {
                        assert(res@[prev.len() as int].0@ == build_nodes.keys_view()[l]);
                    }
                }
            }
        } else {
            proof {
                assert(!has_substring(build_nodes.keys_view()[j as int], "prod"@));
            }
        }
        j = j + 1;
    }
    res
}

/// The first seed node's URL at its cluster address, or the empty string
/// when the roster holds no seed yet.
pub fn get_seed_url_cluster_ip(
    build_nodes: &TagMap<DaemonStatusDataSlim>,
    component_type: ComponentType,
) -> (r: String)
    requires
        build_nodes.wf(),
    ensures
        ({
            let found = spec_first_with_substring(build_nodes.keys_view(), "seed1"@);
            if found < 0 {
                r@ == Seq::<char>::empty()
            } else {
                r@ == cluster_ip_url(
                    build_nodes.vals_seq()[found].daemon_status.addrs_and_ports.external_ip@,
                    component_type,
                )
            }
        }),
{
    let n = build_nodes.len();
    let mut j: usize = 0;
    while j < n
        invariant
            build_nodes.wf(),
            n == build_nodes.spec_len(),
            j <= n,
            forall|l: int|
                0 <= l < j ==> !has_substring(#[trigger] build_nodes.keys_view()[l], "seed1"@),
        decreases n - j,
    {
        let tag = build_nodes.key_at(j);
        if str_has_substring(tag.as_str(), "seed1") {
            proof {
                lemma_first_with_substring(build_nodes.keys_view(), "seed1"@, j as int);
            }
            let data = build_nodes.val_at(j);
            return make_cluster_ip_url(
                &data.daemon_status.addrs_and_ports.external_ip,
                &component_type,
            );
        }
        j = j + 1;
    }
    proof {
        lemma_no_substring_anywhere(build_nodes.keys_view(), "seed1"@);
    }
    String::new()
}

/// The position of the first tag containing `pat`, or `-1`.
pub open spec fn spec_first_with_substring(tags: Seq<Seq<char>>, pat: Seq<char>) -> int
    decreases tags.len(),
{
    if tags.len() == 0 {
        -1
    } else if has_substring(tags[0], pat) {
        0
    } else {
        let r = spec_first_with_substring(tags.drop_first(), pat);
        if r < 0 {
            -1
        } else {
            r + 1
        }
    }
}

/// A position whose tag matches, before which none does, is the first
/// match.
proof fn lemma_first_with_substring(tags: Seq<Seq<char>>, pat: Seq<char>, j: int)
    requires
        0 <= j < tags.len(),
        has_substring(tags[j], pat),
        forall|l: int| 0 <= l < j ==> !has_substring(#[trigger] tags[l], pat),
    ensures
        spec_first_with_substring(tags, pat) == j,
    decreases tags.len(),
{
    if j > 0 {
        assert forall|l: int| 0 <= l < j - 1 implies !has_substring(
            #[trigger] tags.drop_first()[l],
            pat,
        ) by {
            assert(tags[l + 1] == tags.drop_first()[l]);
        }
        assert(tags.drop_first()[j - 1] == tags[j]);
        lemma_first_with_substring(tags.drop_first(), pat, j - 1);
    }
}

/// With no matching tag at all, there is no first match.
proof fn lemma_no_substring_anywhere(tags: Seq<Seq<char>>, pat: Seq<char>)
    requires
        forall|l: int| 0 <= l < tags.len() ==> !has_substring(#[trigger] tags[l], pat),
    ensures
        spec_first_with_substring(tags, pat) == -1,
    decreases tags.len(),
{
    if tags.len() > 0 {
        assert forall|l: int| 0 <= l < tags.drop_first().len() implies !has_substring(
            #[trigger] tags.drop_first()[l],
            pat,
        ) by {
            assert(tags[l + 1] == tags.drop_first()[l]);
        }
        lemma_no_substring_anywhere(tags.drop_first(), pat);
    }
}

/// The label-to-URL pairs of the whole roster, addressed by cluster
/// addresses, one per roster entry in roster order.
pub fn collect_all_urls_cluster_ip(
    build_nodes: &TagMap<DaemonStatusDataSlim>,
    component_type: ComponentType,
) -> (r: Vec<(String, String)>)
    requires
        build_nodes.wf(),
    ensures
        r@.len() == build_nodes.spec_len(),
        forall|i: int|
            0 <= i < r@.len() ==> (#[trigger] r@[i]).0@ == build_nodes.keys_view()[i]
                && r@[i].1@ == cluster_ip_url(
                build_nodes.vals_seq()[i].daemon_status.addrs_and_ports.external_ip@,
                component_type,
            ),
{
    let n = build_nodes.len();
    let mut res: Vec<(String, String)> = Vec::new();
    let mut j: usize = 0;
    while j < n
        invariant
            build_nodes.wf(),
            n == build_nodes.spec_len(),
            j <= n,
            res@.len() == j,
            forall|i: int|
                0 <= i < j ==> (#[trigger] res@[i]).0@ == build_nodes.keys_view()[i]
                    && res@[i].1@ == cluster_ip_url(
                    build_nodes.vals_seq()[i].daemon_status.addrs_and_ports.external_ip@,
                    component_type,
                ),
        decreases n - j,
    {
        let tag = build_nodes.key_at(j).clone();
        let data = build_nodes.val_at(j);
        let url = make_cluster_ip_url(
            &data.daemon_status.addrs_and_ports.external_ip,
            &component_type,
        );
        res.push((tag, url));
        j = j + 1;
    }
    res
}


/// The greatest height any producer reports, or `None` with no produced
/// blocks at all.
pub open spec fn spec_highest_height(blocks: Seq<ProducedBlock>) -> Option<usize>
    decreases blocks.len(),
{
    if blocks.len() == 0 {
        None
    } else {
        match spec_highest_height(blocks.drop_last()) {
            None => Some(blocks.last().height),
            Some(m) => Some(
                if blocks.last().height > m {
                    blocks.last().height
                } else {
                    m
                },
            ),
        }
    }
}

/// The greatest height among the produced blocks, if any.  Producers may
/// briefly disagree on their most recent height; the cycle aggregates the
/// highest one.
pub fn highest_produced_height(blocks: &TagMap<ProducedBlock>) -> (r: Option<usize>)
    requires
        blocks.wf(),
    ensures
        r == spec_highest_height(blocks.vals_seq()),
{
    let n = blocks.len();
    let ghost bs = blocks.vals_seq();
    let mut best: Option<usize> = None;
    proof {
        assert(bs.take(0) =~= Seq::<ProducedBlock>::empty());
    }
    let mut i: usize = 0;
    while i < n
        invariant
            blocks.wf(),
            bs == blocks.vals_seq(),
            n == bs.len(),
            i <= n,
            best == spec_highest_height(bs.take(i as int)),
        decreases n - i,
    {
        proof {
            assert(bs.take(i + 1).drop_last() =~= bs.take(i as int));
            assert(bs.take(i + 1).last() == bs[i as int]);
        }
        let h = blocks.val_at(i).height;
        best = match best {
            None => Some(h),
            Some(m) => Some(
                if h > m {
                    h
                } else {
                    m
                },
            ),
        };
        i = i + 1;
    }
    proof {
        assert(bs.take(n as int) =~= bs);
    }
    best
}

/// The produced blocks restricted to one height, in roster order.
pub fn retain_height(blocks: &TagMap<ProducedBlock>, height: usize) -> (r: TagMap<ProducedBlock>)
    requires
        blocks.wf(),
    ensures
        r.wf(),
        forall|i: int|
            0 <= i < r.spec_len() ==> (#[trigger] r.vals_seq()[i]).height == height
                && blocks.spec_contains(r.keys_view()[i]) && blocks.spec_get(r.keys_view()[i])
                == r.vals_seq()[i],
        forall|j: int|
            0 <= j < blocks.spec_len() && (#[trigger] blocks.vals_seq()[j]).height == height
                ==> r.spec_contains(blocks.keys_view()[j]),
{
    let n = blocks.len();
    let mut out: TagMap<ProducedBlock> = TagMap::new();
    let mut j: usize = 0;
    while j < n
        invariant
            blocks.wf(),
            n == blocks.spec_len(),
            j <= n,
            out.wf(),
            forall|i: int|
                0 <= i < out.spec_len() ==> (#[trigger] out.vals_seq()[i]).height == height
                    && blocks.spec_contains(out.keys_view()[i]) && blocks.spec_get(
                    out.keys_view()[i],
                ) == out.vals_seq()[i],
            forall|l: int|
                0 <= l < j && (#[trigger] blocks.vals_seq()[l]).height == height
                    ==> out.spec_contains(blocks.keys_view()[l]),
        decreases n - j,
    {
        let b = blocks.val_at(j);
        if b.height == height {
            let entry = ProducedBlock {
                height: b.height,
                state_hash: b.state_hash.clone(),
                tag: b.tag.clone(),
            };
            proof {
                crate::maps::lemma_unique_find(
                    blocks.keys_view(),
                    j as int,
                    blocks.keys_view()[j as int],
                );
            }
            let ghost prev = out;
            out.insert(blocks.key_at(j).clone(), entry);
            proof {
                let key = blocks.keys_view()[j as int];
                assert(blocks.spec_get(key) == blocks.vals_seq()[j as int]);
                assert(entry == blocks.vals_seq()[j as int]);
                assert(blocks.keys_view().contains(key));
                assert forall|i: int|
                    0 <= i < out.spec_len() implies (#[trigger] out.vals_seq()[i]).height
                    == height && blocks.spec_contains(out.keys_view()[i]) && blocks.spec_get(
                    out.keys_view()[i],
                ) == out.vals_seq()[i] by {
                    if prev.spec_contains(key) && i == prev.spec_find(key) {
                        crate::maps::lemma_find_first(prev.keys_view(), key);
                        assert(out.keys_view()[i] == prev.keys_view()[i]);
                        assert(prev.keys_view()[i] == key);
                        assert(out.vals_seq()[i] == entry);
                    } else if !prev.spec_contains(key) && i == prev.spec_len() {
                        assert(out.keys_view()[i] == key);
                        assert(out.vals_seq()[i] == entry);
                    } else {
                        assert(out.vals_seq()[i] == prev.vals_seq()[i]);
                        assert(out.keys_view()[i] == prev.keys_view()[i]);
                    }
                }
            }
        }
        j = j + 1;
    }
    out
}

/// The peer-identity to node-tag table of the roster: every daemon's peer
/// id mapped to the tag it answers under.
pub open spec fn peer_of(infos: TagMap<DaemonStatusDataSlim>, j: int) -> Seq<char> {
    infos.vals_seq()[j].daemon_status.addrs_and_ports.peer.peer_id@
}

pub fn peer_id_to_tag_map(infos: &TagMap<DaemonStatusDataSlim>) -> (r: TagMap<String>)
    requires
        infos.wf(),
    ensures
        r.wf(),
        forall|j: int| 0 <= j < infos.spec_len() ==> r.spec_contains(#[trigger] peer_of(*infos, j)),
        (forall|a: int, b: int|
            0 <= a < b < infos.spec_len() ==> peer_of(*infos, a) != peer_of(*infos, b)) ==> forall|
            j: int,
        |
            0 <= j < infos.spec_len() ==> r.spec_get(#[trigger] peer_of(*infos, j))@
                == infos.keys_view()[j],
{
    let n = infos.len();
    let mut out: TagMap<String> = TagMap::new();
    let mut j: usize = 0;
    while j < n
        invariant
            infos.wf(),
            n == infos.spec_len(),
            j <= n,
            out.wf(),
            forall|l: int| 0 <= l < j ==> out.spec_contains(#[trigger] peer_of(*infos, l)),
            (forall|a: int, b: int|
                0 <= a < b < infos.spec_len() ==> peer_of(*infos, a) != peer_of(*infos, b))
                ==> forall|l: int|
                0 <= l < j ==> out.spec_get(#[trigger] peer_of(*infos, l))@
                    == infos.keys_view()[l],
        decreases n - j,
    {
        let info = infos.val_at(j);
        out.insert(
            info.daemon_status.addrs_and_ports.peer.peer_id.clone(),
            infos.key_at(j).clone(),
        );
        proof {
            if forall|a: int, b: int|
                0 <= a < b < infos.spec_len() ==> peer_of(*infos, a) != peer_of(*infos, b) {
                assert forall|l: int| 0 <= l < j + 1 implies out.spec_get(
                    #[trigger] peer_of(*infos, l),
                )@ == infos.keys_view()[l] by {
                    if l < j {
                        assert(peer_of(*infos, l) != peer_of(*infos, j as int));
                    }
                }
            }
        }
        j = j + 1;
    }
    out
}

/// The tag to canonical-block-hash table of one cycle: each producing tag
/// mapped to the hash of the block it most recently produced.
pub fn tag_to_block_hash_map(blocks: &TagMap<ProducedBlock>) -> (r: TagMap<String>)
    requires
        blocks.wf(),
    ensures
        r.wf(),
        forall|j: int|
            0 <= j < blocks.spec_len() ==> r.spec_contains(#[trigger] blocks.keys_view()[j])
                && r.spec_get(blocks.keys_view()[j])@ == blocks.vals_seq()[j].state_hash@,
{
    let n = blocks.len();
    let mut out: TagMap<String> = TagMap::new();
    let mut j: usize = 0;
    while j < n
        invariant
            blocks.wf(),
            n == blocks.spec_len(),
            j <= n,
            out.wf(),
            forall|l: int|
                0 <= l < j ==> out.spec_contains(#[trigger] blocks.keys_view()[l])
                    && out.spec_get(blocks.keys_view()[l])@ == blocks.vals_seq()[l].state_hash@,
        decreases n - j,
    {
        out.insert(blocks.key_at(j).clone(), blocks.val_at(j).state_hash.clone());
        proof {
            assert forall|l: int| 0 <= l < j + 1 implies out.spec_contains(
                #[trigger] blocks.keys_view()[l],
            ) && out.spec_get(blocks.keys_view()[l])@ == blocks.vals_seq()[l].state_hash@ by {
                if l < j {
                    assert(blocks.keys_view()[l] != blocks.keys_view()[j as int]);
                }
            }
        }
        j = j + 1;
    }
    out
}

/// The block the producer `tag` most recently produced, read from its trace
/// listing: among the traces at the listing's first height, the last
/// internally produced one; `None` when the producer has produced nothing
/// yet.
pub open spec fn spec_most_recent_produced(traces: Seq<BlockTrace>) -> Option<BlockTrace>
    decreases traces.len(),
{
    if traces.len() == 0 {
        None
    } else {
        let rest = spec_most_recent_produced(traces.drop_last());
        if traces.last().source == TraceSource::Internal && traces.last().blockchain_length
            == traces[0].blockchain_length {
            Some(traces.last())
        } else {
            rest
        }
    }
}

/// Reads the most recent internally produced block out of one producer's
/// trace listing.
pub fn produced_block_from_traces(tag: &String, traces: &Vec<BlockTrace>) -> (r: Option<
    ProducedBlock,
>)
    ensures
        match (r, spec_most_recent_produced(traces@)) {
            (Some(b), Some(t)) => b.height == t.blockchain_length && b.state_hash@
                == t.state_hash@ && b.tag@ == tag@,
            (None, None) => true,
            _ => false,
        },
{
    let n = traces.len();
    if n == 0 {
        return None;
    }
    let most_recent_height = traces[0].blockchain_length;
    let mut found: Option<usize> = None;
    let ghost ts = traces@;
    proof {
        assert(ts.take(0) =~= Seq::<BlockTrace>::empty());
    }
    let mut i: usize = 0;
    while i < n
        invariant
            ts == traces@,
            n == ts.len(),
            n > 0,
            most_recent_height == ts[0].blockchain_length,
            i <= n,
            match (found, spec_most_recent_produced(ts.take(i as int))) {
                (Some(k), Some(t)) => 0 <= k < i && ts[k as int] == t,
                (None, None) => true,
                _ => false,
            },
        decreases n - i,
    {
        proof {
            assert(ts.take(i + 1).drop_last() =~= ts.take(i as int));
            assert(ts.take(i + 1).last() == ts[i as int]);
            if i > 0 {
                assert(ts.take(i + 1)[0] == ts[0]);
            }
        }
        let t = &traces[i];
        if matches!(t.source, TraceSource::Internal) && t.blockchain_length
            == most_recent_height {
            found = Some(i);
        }
        i = i + 1;
    }
    proof {
        assert(ts.take(n as int) =~= ts);
    }
    match found {
        None => None,
        Some(k) => {
            let t = &traces[k];
            Some(
                ProducedBlock {
                    height: t.blockchain_length,
                    state_hash: t.state_hash.clone(),
                    tag: tag.clone(),
                },
            )
        },
    }
}

} // verus!
