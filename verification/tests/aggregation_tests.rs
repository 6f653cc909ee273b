use latency_aggregator::aggregator_ipc::{aggregate_first_receive, CpnpBlockPublication};
use latency_aggregator::block_traces::{aggregate_block_traces, AggregatedBlockTraces};
use latency_aggregator::cross_validation::{
    aggregate_cross_validations, cross_validate_ipc_with_traces,
};
use latency_aggregator::debugger_data::{
    CpnpCapturedData, CpnpEvent, CpnpMessage, EventKind, NodeAddress,
};
use latency_aggregator::error::AggregatorError;
use latency_aggregator::maps::TagMap;
use latency_aggregator::nodes::{
    AddrsAndPorts, BlockStructuredTrace, BlockStructuredTraceCheckpoint,
    BlockStructuredTraceMetadata, BlockStructuredTraceSection, DaemonMetrics, DaemonStatus,
    DaemonStatusDataSlim, Peer, TraceSource, TraceStatus,
};

fn capture(
    node_tag: &str,
    time: u64,
    kind: EventKind,
    msg_hash: &str,
    peer_id: Option<&str>,
) -> CpnpCapturedData {
    CpnpCapturedData {
        time_microseconds: time,
        real_time_microseconds: time,
        node_address: NodeAddress(format!("{}:10909", node_tag)),
        node_tag: node_tag.to_string(),
        events: vec![CpnpEvent {
            kind,
            peer_id: peer_id.map(|p| p.to_string()),
            peer_address: None,
            hash: msg_hash.to_string(),
            msg: CpnpMessage { kind: "block".to_string(), height: 5 },
        }],
    }
}

fn tag_map(pairs: &[(&str, &str)]) -> TagMap<String> {
    let mut m = TagMap::new();
    for (k, v) in pairs {
        m.insert(k.to_string(), v.to_string());
    }
    m
}

#[test]
fn gossip_aggregation_builds_graph_and_latencies() {
    let publish = capture("prod1", 1_000, EventKind::PublishGossip, "msgA", None);
    let recv_b = capture("nodeB", 1_500, EventKind::ReceivedGossip, "msgA", Some("peer-prod1"));
    let recv_c = capture("nodeC", 2_100, EventKind::ReceivedGossip, "msgA", Some("peer-nodeB"));
    let peer_map = tag_map(&[("peer-prod1", "prod1"), ("peer-nodeB", "nodeB")]);
    let hash_map = tag_map(&[("prod1", "BlockHashA")]);

    // hand the events over out of order: the scan sorts by capture time
    let data = vec![vec![recv_c, publish, recv_b]];
    let (height, by_block) = aggregate_first_receive(data, &peer_map, &hash_map).unwrap();

    assert_eq!(5, height);
    assert_eq!(1, by_block.len());
    let publication: &CpnpBlockPublication = by_block.get(&"BlockHashA".to_string()).unwrap();
    assert_eq!(1_000, publication.publish_time);
    assert_eq!("BlockHashA", publication.block_hash);

    // the publisher's own record: zero latency on both measures
    let prod = publication.node_latencies.get(&"prod1".to_string()).unwrap();
    assert_eq!(Some(0), prod.latency_since_sent);
    assert_eq!(0, prod.latency_since_block_publication);

    // the downstream records measure against upstream receive times
    let b = publication.node_latencies.get(&"nodeB".to_string()).unwrap();
    assert_eq!(Some(500), b.latency_since_sent);
    assert_eq!(500, b.latency_since_block_publication);
    assert_eq!("prod1", b.message_source);
    let c = publication.node_latencies.get(&"nodeC".to_string()).unwrap();
    assert_eq!(Some(600), c.latency_since_sent);
    assert_eq!(1_100, c.latency_since_block_publication);

    let info = publication.graph_info.as_ref().unwrap();
    assert_eq!(3, info.node_count);
    assert!(!info.is_graph_cyclic);
    assert_eq!(1, info.graph_count);
    assert_eq!(vec!["prod1".to_string()], info.source_nodes);
    assert_eq!(1, info.source_node_count);
}

#[test]
fn gossip_aggregation_is_idempotent_under_replay() {
    let publish = capture("prod1", 1_000, EventKind::PublishGossip, "msgA", None);
    let recv_b = capture("nodeB", 1_500, EventKind::ReceivedGossip, "msgA", Some("peer-prod1"));
    let peer_map = tag_map(&[("peer-prod1", "prod1")]);
    let hash_map = tag_map(&[("prod1", "BlockHashA")]);

    let once = vec![vec![publish.clone(), recv_b.clone()]];
    let twice = vec![vec![publish.clone(), recv_b.clone()], vec![publish, recv_b]];

    let (_, first) = aggregate_first_receive(once, &peer_map, &hash_map).unwrap();
    let (_, second) = aggregate_first_receive(twice, &peer_map, &hash_map).unwrap();

    let p1 = first.get(&"BlockHashA".to_string()).unwrap();
    let p2 = second.get(&"BlockHashA".to_string()).unwrap();
    assert_eq!(p1.node_latencies.len(), p2.node_latencies.len());
    let b1 = p1.node_latencies.get(&"nodeB".to_string()).unwrap();
    let b2 = p2.node_latencies.get(&"nodeB".to_string()).unwrap();
    assert_eq!(b1.receive_time, b2.receive_time);
    assert_eq!(b1.latency_since_sent, b2.latency_since_sent);
    assert_eq!(p1.graph.tags.len(), p2.graph.tags.len());
    assert_eq!(p1.graph.edges.len(), p2.graph.edges.len());
}

#[test]
fn gossip_aggregation_without_resolved_publish_is_not_ready() {
    let recv = capture("nodeB", 1_500, EventKind::ReceivedGossip, "msgA", Some("p1"));
    let peer_map = tag_map(&[]);
    let hash_map = tag_map(&[]);
    let r = aggregate_first_receive(vec![vec![recv]], &peer_map, &hash_map);
    assert!(matches!(r, Err(AggregatorError::SourceNotReady)));
}

#[test]
fn forced_back_edge_is_flagged_cyclic() {
    // nodeA is first seen only as an upstream peer; when it later reports
    // receiving from nodeB, the hop runs against the recorded order
    let publish = capture("prod1", 1_000, EventKind::PublishGossip, "msgA", None);
    let recv_b = capture("nodeB", 1_200, EventKind::ReceivedGossip, "msgA", Some("peer-nodeA"));
    let recv_a = capture("nodeA", 1_400, EventKind::ReceivedGossip, "msgA", Some("peer-nodeB"));
    let peer_map = tag_map(&[("peer-nodeA", "nodeA"), ("peer-nodeB", "nodeB")]);
    let hash_map = tag_map(&[("prod1", "BlockHashA")]);

    let (_, by_block) =
        aggregate_first_receive(vec![vec![publish, recv_b, recv_a]], &peer_map, &hash_map)
            .unwrap();
    let publication = by_block.get(&"BlockHashA".to_string()).unwrap();
    let info = publication.graph_info.as_ref().unwrap();
    assert!(info.is_graph_cyclic);
    // prod1 stands apart from the two-node loop
    assert_eq!(2, info.graph_count);
}

fn slim_status(ip: &str, peer_id: &str) -> DaemonStatusDataSlim {
    DaemonStatusDataSlim {
        daemon_status: DaemonStatus {
            addrs_and_ports: AddrsAndPorts {
                external_ip: ip.to_string(),
                peer: Peer { peer_id: peer_id.to_string() },
            },
            sync_status: "Synced".to_string(),
            metrics: DaemonMetrics {
                transaction_pool_size: 7,
                transactions_added_to_pool: 0,
                transaction_pool_diff_broadcasted: 0,
                transaction_pool_diff_received: 0,
            },
        },
        snark_pool: 3,
    }
}

fn trace(
    source: TraceSource,
    status: TraceStatus,
    started_at: i64,
    total_time: i64,
    txn_count: Option<usize>,
) -> BlockStructuredTrace {
    BlockStructuredTrace {
        source,
        blockchain_length: 5,
        status,
        total_time,
        sections: vec![BlockStructuredTraceSection {
            title: "processing".to_string(),
            checkpoints: vec![BlockStructuredTraceCheckpoint {
                checkpoint: "start".to_string(),
                started_at,
                duration: 0,
                checkpoints: vec![],
            }],
        }],
        metadata: BlockStructuredTraceMetadata {
            proof_count: None,
            txn_count,
            global_slot: Some("77".to_string()),
            creator: Some("creatorKey".to_string()),
            winner: None,
            coinbase_receiver: None,
            diff_log: None,
        },
    }
}

#[test]
fn trace_aggregation_marks_the_earliest_internal_producer() {
    let mut infos = TagMap::new();
    infos.insert("prod1".to_string(), slim_status("10.0.0.1", "p1"));
    infos.insert("node1".to_string(), slim_status("10.0.0.2", "p2"));
    infos.insert("node2".to_string(), slim_status("10.0.0.3", "p3"));

    let mut traces = TagMap::new();
    // producer: starts at 100, takes 900, completes at 1_000
    traces.insert("prod1".to_string(), trace(TraceSource::Internal, TraceStatus::Success, 100, 900, Some(42)));
    // a non-producer that started after the producer finished
    traces.insert("node1".to_string(), trace(TraceSource::External, TraceStatus::Success, 1_600, 250, None));
    // a still-pending trace: no application time yet
    traces.insert("node2".to_string(), trace(TraceSource::External, TraceStatus::Pending, 1_800, 40, None));

    let reports = aggregate_block_traces(5, "BlockHashA", &infos, traces).unwrap();
    assert_eq!(3, reports.len());

    let prod = reports.iter().find(|r| r.node == "prod1").unwrap();
    assert!(prod.is_producer);
    assert_eq!(None, prod.receive_latency);
    assert_eq!(Some(900), prod.block_application);
    assert_eq!(Some(42), prod.included_tranasction_count);
    assert_eq!("10.0.0.1", prod.node_address);
    assert_eq!("Synced", prod.sync_status);
    assert_eq!(3, prod.snark_pool_size);
    assert_eq!(7, prod.transaction_pool_size);
    assert_eq!(Some("creatorKey".to_string()), prod.block_producer);

    let n1 = reports.iter().find(|r| r.node == "node1").unwrap();
    assert!(!n1.is_producer);
    // 1_600 minus the earliest producer completion 1_000
    assert_eq!(Some(600), n1.receive_latency);
    assert_eq!(Some(250), n1.block_application);

    let n2 = reports.iter().find(|r| r.node == "node2").unwrap();
    assert_eq!(None, n2.block_application);
    assert_eq!(Some(800), n2.receive_latency);
}

#[test]
fn trace_aggregation_ties_make_producer_sets() {
    let mut infos = TagMap::new();
    infos.insert("prod1".to_string(), slim_status("10.0.0.1", "p1"));
    infos.insert("prod2".to_string(), slim_status("10.0.0.2", "p2"));
    let mut traces = TagMap::new();
    // both internal traces complete at exactly 1_000
    traces.insert("prod1".to_string(), trace(TraceSource::Internal, TraceStatus::Success, 100, 900, None));
    traces.insert("prod2".to_string(), trace(TraceSource::Internal, TraceStatus::Success, 200, 800, None));
    let reports = aggregate_block_traces(5, "BlockHashA", &infos, traces).unwrap();
    assert!(reports.iter().all(|r| r.is_producer));
}

fn simple_report(node: &str, producer: bool, date_time: Option<i64>) -> latency_aggregator::block_traces::BlockTraceAggregatorReport {
    latency_aggregator::block_traces::BlockTraceAggregatorReport {
        height: 5,
        block_hash: "BlockHashA".to_string(),
        node: node.to_string(),
        node_address: String::new(),
        date_time,
        source: None,
        sync_status: String::new(),
        snark_pool_size: 0,
        transaction_pool_size: 0,
        metrics: DaemonMetrics {
            transaction_pool_size: 0,
            transactions_added_to_pool: 0,
            transaction_pool_diff_broadcasted: 0,
            transaction_pool_diff_received: 0,
        },
        receive_latency: None,
        block_application: None,
        is_producer: producer,
        block_producer: None,
        global_slot: None,
        included_tranasction_count: None,
    }
}

#[test]
fn cross_validation_compares_both_sources() {
    // capture side: records for prod1 and node1
    let publish = capture("prod1", 1_000, EventKind::PublishGossip, "msgA", None);
    let recv = capture("node1", 1_500, EventKind::ReceivedGossip, "msgA", Some("peer-prod1"));
    let peer_map = tag_map(&[("peer-prod1", "prod1")]);
    let hash_map = tag_map(&[("prod1", "BlockHashA")]);
    let (_, ipc) =
        aggregate_first_receive(vec![vec![publish, recv]], &peer_map, &hash_map).unwrap();

    // trace side: the same two nodes plus one the capture never saw
    let mut traces = AggregatedBlockTraces::new();
    traces.insert(
        "BlockHashA".to_string(),
        vec![
            simple_report("prod1", true, Some(900)),
            simple_report("node1", false, Some(1_650)),
            simple_report("node9", false, Some(2_000)),
        ],
    );

    let verdicts = cross_validate_ipc_with_traces(&traces, &ipc, 5);
    assert_eq!(1, verdicts.len());
    let v = verdicts.get(&"BlockHashA".to_string()).unwrap();
    assert_eq!(5, v.height);
    // three reports against two capture records
    assert!(!v.all_nodes_present);
    assert_eq!(vec!["node9".to_string()], v.missing_nodes);
    assert_eq!(vec!["prod1".to_string()], v.producer_nodes);
    // trace start 1_650 minus capture receive 1_500
    assert_eq!(Some(&150), v.received_time_comparison.get(&"node1".to_string()));

    // with the unseen node dropped, both sources agree on the node set
    let mut matching = AggregatedBlockTraces::new();
    matching.insert(
        "BlockHashA".to_string(),
        vec![simple_report("prod1", true, Some(900)), simple_report("node1", false, Some(1_650))],
    );
    let verdicts = cross_validate_ipc_with_traces(&matching, &ipc, 5);
    let v = verdicts.get(&"BlockHashA".to_string()).unwrap();
    assert!(v.all_nodes_present);
}

#[test]
fn rolling_aggregation_tracks_extremes_per_node() {
    let publish = capture("prod1", 1_000, EventKind::PublishGossip, "msgA", None);
    let recv = capture("node1", 1_500, EventKind::ReceivedGossip, "msgA", Some("peer-prod1"));
    let peer_map = tag_map(&[("peer-prod1", "prod1")]);
    let hash_map = tag_map(&[("prod1", "BlockHashA")]);
    let (_, ipc) =
        aggregate_first_receive(vec![vec![publish, recv]], &peer_map, &hash_map).unwrap();

    let mut early = AggregatedBlockTraces::new();
    early.insert(
        "BlockHashA".to_string(),
        vec![simple_report("prod1", true, Some(900)), simple_report("node1", false, Some(1_400))],
    );
    let mut late = AggregatedBlockTraces::new();
    late.insert(
        "BlockHashA".to_string(),
        vec![simple_report("prod1", true, Some(900)), simple_report("node1", false, Some(1_900))],
    );

    let first = cross_validate_ipc_with_traces(&early, &ipc, 5);
    let second = cross_validate_ipc_with_traces(&late, &ipc, 6);
    let aggregate = aggregate_cross_validations(vec![first, second]);

    assert_eq!(2, aggregate.total_heights_checked);
    assert_eq!(2, aggregate.total_blocks_checked);
    assert_eq!(Some(5), aggregate.height_start);
    assert_eq!(Some(6), aggregate.height_end);
    assert_eq!(Some(true), aggregate.all_nodes_present);
    let min = aggregate.min_recevied_time_comparison.unwrap();
    let max = aggregate.max_recevied_time_comparison.unwrap();
    // deltas were -100 and +400 against the capture receive time 1_500
    assert_eq!(Some(&-100), min.get(&"node1".to_string()));
    assert_eq!(Some(&400), max.get(&"node1".to_string()));
}
