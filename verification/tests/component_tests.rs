use latency_aggregator::debugger_data::{
    CpnpCapturedData, DebuggerLatency, DebuggerTime, EventKind, NodeAddress,
};
use latency_aggregator::error::AggregatorError;
use latency_aggregator::events::sort_events_by_time;
use latency_aggregator::executor::deployment_ready;
use latency_aggregator::graph::PropagationGraph;
use latency_aggregator::locked_btree_map::LockedBTreeMap;
use latency_aggregator::maps::{HeightMap, TagMap};
use latency_aggregator::nodes::{DaemonStatus, DaemonStatusData, DiscardedCommands, Peer};
use latency_aggregator::nodes::{AddrsAndPorts, DaemonMetrics, SnarkPoolElement};
use latency_aggregator::remote::RemoteStorage;
use latency_aggregator::rpc::BuildsQueryOptions;
use latency_aggregator::aggregator_ipc::aggregate_first_receive;
use latency_aggregator::config::AggregatorEnvironment;
use latency_aggregator::debugger_data::{CpnpEvent, CpnpMessage};
use latency_aggregator::nodes::{
    highest_produced_height, produced_block_from_traces, retain_height, BlockTrace,
    ProducedBlock, TraceSource, TraceStatus,
};
use latency_aggregator::storage::{BuildInfoExpanded, StageInfo, StepInfo};

#[test]
fn node_address_splits_host_and_port() {
    let addr = NodeAddress("10.0.0.7:10909".to_string());
    assert_eq!("10.0.0.7", addr.ip());
    assert_eq!("10909", addr.port());
    let bare = NodeAddress("localhost".to_string());
    assert_eq!("localhost", bare.ip());
    assert_eq!("localhost", bare.port());
}

#[test]
fn debugger_times_convert_to_nanoseconds() {
    let t = DebuggerTime { secs_since_epoch: 2, nanos_since_epoch: 5 };
    assert_eq!(2_000_000_005, t.to_nanoseconds());
    let l = DebuggerLatency { secs: 1, nanos: 250 };
    assert_eq!(1_000_000_250, l.to_nanoseconds());
}

#[test]
fn event_kinds_decode_from_capture_tags() {
    assert_eq!(EventKind::PublishGossip, EventKind::parse("publish_gossip"));
    assert_eq!(EventKind::ReceivedGossip, EventKind::parse("received_gossip"));
    assert_eq!(EventKind::Unknown, EventKind::parse("subscribe"));
}

#[test]
fn events_sort_stably_by_capture_time() {
    fn ev(tag: &str, t: u64) -> CpnpCapturedData {
        CpnpCapturedData {
            time_microseconds: t,
            real_time_microseconds: t,
            node_address: NodeAddress("x:1".to_string()),
            node_tag: tag.to_string(),
            events: vec![],
        }
    }
    let sorted = sort_events_by_time(vec![ev("c", 30), ev("a", 10), ev("b", 10), ev("d", 20)]);
    let tags: Vec<&str> = sorted.iter().map(|e| e.node_tag.as_str()).collect();
    assert_eq!(vec!["a", "b", "d", "c"], tags);
}

#[test]
fn tag_map_keeps_first_insertion_order_and_replaces_values() {
    let mut m: TagMap<usize> = TagMap::new();
    m.insert("one".to_string(), 1);
    m.insert("two".to_string(), 2);
    m.insert("one".to_string(), 11);
    assert_eq!(2, m.len());
    assert_eq!(Some(&11), m.get(&"one".to_string()));
    assert_eq!(Some(&2), m.get(&"two".to_string()));
    assert_eq!(None, m.get(&"three".to_string()));
    assert_eq!("one", m.key_at(0).as_str());
    assert_eq!("two", m.key_at(1).as_str());
}

#[test]
fn height_map_keeps_keys_sorted() {
    let mut m: HeightMap<&str> = HeightMap::new();
    m.insert(5, "five");
    m.insert(2, "two");
    m.insert(9, "nine");
    assert_eq!(3, m.len());
    assert_eq!(2, m.key_at(0));
    assert_eq!(5, m.key_at(1));
    assert_eq!(9, m.key_at(2));
    assert_eq!(Some((9, &"nine")), m.last_entry());
}

#[test]
fn locked_map_serves_the_storage_api() {
    let mut m: LockedBTreeMap<String> = LockedBTreeMap::new();
    m.insert(3, "third".to_string()).unwrap();
    m.insert(1, "first".to_string()).unwrap();
    m.insert(2, "second".to_string()).unwrap();
    assert_eq!(3, m.get_count().unwrap());
    assert_eq!(Some(&"second".to_string()), m.get(2).unwrap());
    assert_eq!(None, m.get(9).unwrap());
    assert_eq!(Some(3), m.get_latest_key().unwrap());
    assert_eq!(Some(&"third".to_string()), m.get_latest_value().unwrap());
    let latest_two = m.get_latest_n_values(2).unwrap();
    assert_eq!(vec![&"third".to_string(), &"second".to_string()], latest_two);
    let values = m.get_values().unwrap();
    assert_eq!(vec![&"first".to_string(), &"second".to_string(), &"third".to_string()], values);
    let entries = m.to_btreemap().unwrap();
    assert_eq!(3, entries.len());
    assert_eq!((1, &"first".to_string()), entries[0]);
}

#[test]
fn propagation_graph_interns_tags_and_updates_edges() {
    let mut g = PropagationGraph::new();
    let a = g.add_node("a".to_string());
    let b = g.add_node("b".to_string());
    assert_eq!(2, g.node_count());
    let again = g.find_or_add_node(&"a".to_string());
    assert_eq!(a, again);
    g.update_edge(a, b, 100);
    g.update_edge(a, b, 70);
    assert_eq!(1, g.edges.len());
    assert_eq!(70, g.edges[0].weight);
    assert_eq!(vec!["a".to_string()], g.source_nodes());
}

#[test]
fn snark_pool_reduces_to_its_size() {
    let data = DaemonStatusData {
        daemon_status: DaemonStatus {
            addrs_and_ports: AddrsAndPorts {
                external_ip: "10.0.0.1".to_string(),
                peer: Peer { peer_id: "p1".to_string() },
            },
            sync_status: "Synced".to_string(),
            metrics: DaemonMetrics {
                transaction_pool_size: 0,
                transactions_added_to_pool: 0,
                transaction_pool_diff_broadcasted: 0,
                transaction_pool_diff_received: 0,
            },
        },
        snark_pool: vec![
            SnarkPoolElement { prover: "x".to_string() },
            SnarkPoolElement { prover: "y".to_string() },
        ],
    };
    assert_eq!(2, data.to_slim().snark_pool);
}

#[test]
fn discarded_commands_total_both_reasons() {
    let d = DiscardedCommands { insufficient_work: 3, insufficient_space: 4 };
    assert_eq!(7, d.total());
}

#[test]
fn total_node_count_sums_the_roster() {
    let env = AggregatorEnvironment {
        plain_node_count: 2,
        seed_node_count: 1,
        producer_node_count: 3,
        snarker_node_count: 4,
        transaction_generator_node_count: 1,
        libp2p_ipc_encpoint: "libp2p_ipc/block".to_string(),
        data_pull_interval: 10,
        rpc_port: 8000,
        cluster_base_url: String::new(),
        ci_api_url: String::new(),
        ci_repo: String::new(),
        remote_storage_url: String::new(),
        remote_storage_user: String::new(),
        remote_storage_password: String::new(),
        remote_storage_path: String::new(),
        use_internal_endpoints: false,
        disable_aggregation: false,
    };
    assert_eq!(11, env.total_node_count());
}

#[test]
fn remote_storage_lowercases_the_path() {
    let r = RemoteStorage::new("host:22", "user", "pw", "/Home/Storage.JSON");
    assert_eq!("host:22", r.url);
    assert_eq!("/home/storage.json", r.file_path);
}

#[test]
fn status_filters_split_on_commas() {
    let opts = BuildsQueryOptions { status: Some("success,running".to_string()), compare_to: None };
    assert_eq!(
        Some(vec!["success".to_string(), "running".to_string()]),
        opts.status_filters()
    );
    let none = BuildsQueryOptions { status: None, compare_to: None };
    assert_eq!(None, none.status_filters());
}

#[test]
fn deployment_readiness_follows_the_deploy_step() {
    fn build(status: &str, step_status: &str) -> BuildInfoExpanded {
        BuildInfoExpanded {
            status: status.to_string(),
            stages: vec![
                StageInfo {
                    name: "lint".to_string(),
                    number: 1,
                    status: "success".to_string(),
                    steps: None,
                },
                StageInfo {
                    name: "deploy-to-cluster".to_string(),
                    number: 2,
                    status: "running".to_string(),
                    steps: Some(vec![StepInfo {
                        name: "deploy-nodes".to_string(),
                        number: 1,
                        status: step_status.to_string(),
                    }]),
                },
            ],
        }
    }
    assert!(deployment_ready(&build("running", "success")));
    assert!(!deployment_ready(&build("running", "running")));
    assert!(!deployment_ready(&build("success", "success")));
}

#[test]
fn error_messages_name_their_condition() {
    assert_eq!("Producer node not seen yet!", AggregatorError::SourceNotReady.message());
    assert_eq!(
        "Nodes have not produced any traces yet!",
        AggregatorError::NoTracesYet.message()
    );
    let e = AggregatorError::StorageError { reason: "poisoned".to_string() };
    assert_eq!("Error while accessing storage, reason: poisoned", e.message());
}

#[test]
fn collected_urls_cover_the_roster_groups() {
    let env = AggregatorEnvironment {
        plain_node_count: 1,
        seed_node_count: 2,
        producer_node_count: 5,
        snarker_node_count: 1,
        transaction_generator_node_count: 0,
        libp2p_ipc_encpoint: "libp2p_ipc/block".to_string(),
        data_pull_interval: 10,
        rpc_port: 8000,
        cluster_base_url: "http://cluster".to_string(),
        ci_api_url: String::new(),
        ci_repo: String::new(),
        remote_storage_url: String::new(),
        remote_storage_user: String::new(),
        remote_storage_password: String::new(),
        remote_storage_path: String::new(),
        use_internal_endpoints: false,
        disable_aggregation: false,
    };
    let urls = latency_aggregator::nodes::collect_all_urls(
        &env,
        latency_aggregator::nodes::ComponentType::Graphql,
    );
    let labels: Vec<&str> = urls.iter().map(|(l, _)| l.as_str()).collect();
    assert_eq!(
        vec!["seed1", "seed2", "prod01", "prod02", "prod03", "prod2", "prod3", "snarker001", "node1"],
        labels
    );
    assert_eq!("http://cluster/seed1/graphql", urls[0].1);
    assert_eq!("http://cluster/snarker001/graphql", urls[7].1);
    assert_eq!(
        "http://cluster/seed1/graphql",
        latency_aggregator::nodes::get_seed_url(
            &env,
            latency_aggregator::nodes::ComponentType::Graphql
        )
    );
    let debuggers = latency_aggregator::nodes::collect_producer_urls(
        &env,
        latency_aggregator::nodes::ComponentType::Debugger,
    );
    assert_eq!("http://cluster/prod01/bpf-debugger", debuggers[0].1);
}

fn roster_entry(ip: &str) -> latency_aggregator::nodes::DaemonStatusDataSlim {
    latency_aggregator::nodes::DaemonStatusDataSlim {
        daemon_status: DaemonStatus {
            addrs_and_ports: AddrsAndPorts {
                external_ip: ip.to_string(),
                peer: Peer { peer_id: "p".to_string() },
            },
            sync_status: "Synced".to_string(),
            metrics: DaemonMetrics {
                transaction_pool_size: 0,
                transactions_added_to_pool: 0,
                transaction_pool_diff_broadcasted: 0,
                transaction_pool_diff_received: 0,
            },
        },
        snark_pool: 0,
    }
}

#[test]
fn cluster_address_urls_follow_the_roster() {
    let mut roster = TagMap::new();
    roster.insert("prod01".to_string(), roster_entry("10.0.0.1"));
    roster.insert("seed1".to_string(), roster_entry("10.0.0.2"));
    roster.insert("node1".to_string(), roster_entry("10.0.0.3"));

    let all = latency_aggregator::nodes::collect_all_urls_cluster_ip(
        &roster,
        latency_aggregator::nodes::ComponentType::InternalTracing,
    );
    assert_eq!(3, all.len());
    assert_eq!(("prod01".to_string(), "http://10.0.0.1:8000/graphql".to_string()), all[0]);

    let producers = latency_aggregator::nodes::collect_producer_urls_cluster_ip(
        &roster,
        latency_aggregator::nodes::ComponentType::InternalTracing,
    );
    assert_eq!(1, producers.len());
    assert_eq!("prod01", producers[0].0);

    let seed = latency_aggregator::nodes::get_seed_url_cluster_ip(
        &roster,
        latency_aggregator::nodes::ComponentType::Graphql,
    );
    assert_eq!("http://10.0.0.2:3085/graphql", seed);
}

#[test]
fn produced_blocks_come_from_the_latest_internal_traces() {
    fn t(source: TraceSource, height: usize, hash: &str) -> BlockTrace {
        BlockTrace {
            source,
            blockchain_length: height,
            state_hash: hash.to_string(),
            status: TraceStatus::Success,
            total_time: 1_000,
        }
    }
    // the listing leads with its most recent height; only internal traces
    // at that height count, and the last one wins
    let traces = vec![
        t(TraceSource::External, 9, "E9"),
        t(TraceSource::Internal, 9, "A9"),
        t(TraceSource::Internal, 9, "B9"),
        t(TraceSource::Internal, 8, "C8"),
    ];
    let block = produced_block_from_traces(&"prod1".to_string(), &traces).unwrap();
    assert_eq!(9, block.height);
    assert_eq!("B9", block.state_hash);
    assert_eq!("prod1", block.tag);
    assert!(produced_block_from_traces(&"prod1".to_string(), &vec![]).is_none());

    let mut produced = TagMap::new();
    produced.insert("prod1".to_string(), block);
    produced.insert(
        "prod2".to_string(),
        ProducedBlock { height: 8, state_hash: "C8".to_string(), tag: "prod2".to_string() },
    );
    assert_eq!(Some(9), highest_produced_height(&produced));
    let at_nine = retain_height(&produced, 9);
    assert_eq!(1, at_nine.len());
    assert!(at_nine.get(&"prod1".to_string()).is_some());
}

#[test]
fn flattened_publications_keep_their_records() {
    let publish = CpnpCapturedData {
        time_microseconds: 1_000,
        real_time_microseconds: 1_000,
        node_address: NodeAddress("prod1:1".to_string()),
        node_tag: "prod1".to_string(),
        events: vec![CpnpEvent {
            kind: EventKind::PublishGossip,
            peer_id: None,
            peer_address: None,
            hash: "msgA".to_string(),
            msg: CpnpMessage { kind: "block".to_string(), height: 4 },
        }],
    };
    let mut hash_map = TagMap::new();
    hash_map.insert("prod1".to_string(), "H".to_string());
    let peer_map = TagMap::new();
    let (_, by_block) = aggregate_first_receive(vec![vec![publish]], &peer_map, &hash_map).unwrap();
    let flat = by_block.get(&"H".to_string()).unwrap().flattened();
    assert_eq!(4, flat.height);
    assert_eq!("H", flat.block_hash);
    assert_eq!(1_000, flat.publish_time);
    assert_eq!(1, flat.node_latencies.len());
    assert_eq!("prod1", flat.node_latencies[0].node_tag);
    assert!(flat.graph_info.is_some());
}
