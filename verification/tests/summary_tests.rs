use latency_aggregator::block_traces::{AggregatedBlockTraces, BlockTraceAggregatorReport};
use latency_aggregator::maps::TagMap;
use latency_aggregator::nodes::{DaemonMetrics, RequestStats};
use latency_aggregator::storage::{BuildStorage, BuildSummaryHelpers};

fn metrics() -> DaemonMetrics {
    DaemonMetrics {
        transaction_pool_size: 0,
        transactions_added_to_pool: 0,
        transaction_pool_diff_broadcasted: 0,
        transaction_pool_diff_received: 0,
    }
}

fn report(
    height: usize,
    node: &str,
    block_hash: &str,
    is_producer: bool,
    receive_latency: Option<i64>,
    block_application: Option<i64>,
    tx_count: Option<usize>,
) -> BlockTraceAggregatorReport {
    BlockTraceAggregatorReport {
        height,
        block_hash: block_hash.to_string(),
        node: node.to_string(),
        node_address: String::new(),
        date_time: None,
        source: None,
        sync_status: String::new(),
        snark_pool_size: 0,
        transaction_pool_size: 0,
        metrics: metrics(),
        receive_latency,
        block_application,
        is_producer,
        block_producer: None,
        global_slot: None,
        included_tranasction_count: tx_count,
    }
}

#[test]
fn test_summary_update_one_block() {
    let mut storage = BuildStorage::new();
    let height = 1;
    let block_hash = "Height1Block1".to_string();

    // times in microseconds: 20.40 s, 12.40 s, 8.40 s and so on
    let trace_1 = report(height, "prod1", &block_hash, true, Some(-20_400_000), Some(20_400_000), Some(128));
    let trace_2 = report(height, "node1", &block_hash, false, Some(1_200_000), Some(12_400_000), None);
    let trace_3 = report(height, "node2", &block_hash, false, Some(2_200_000), Some(8_400_000), None);

    let mut block_traces = AggregatedBlockTraces::new();
    block_traces.insert(block_hash.clone(), vec![trace_1, trace_2, trace_3]);

    storage.best_chain.insert(1, "Height1Block1".to_string());
    storage.update_summary(height, &block_traces, RequestStats::new());

    // production times: only one block produced, all three agree
    let expected = Some(20_400_000);
    assert_eq!(expected, storage.build_summary.block_production_min);
    assert_eq!(expected, storage.build_summary.block_production_max);
    assert_eq!(expected, storage.build_summary.block_production_avg);

    // application times: the production time does not influence them
    assert_eq!(Some(8_400_000), storage.build_summary.block_application_min);
    assert_eq!(Some(12_400_000), storage.build_summary.block_application_max);
    assert_eq!(Some(10_400_000), storage.build_summary.block_application_avg);

    // receive latencies: the producer's negative latency is excluded
    assert_eq!(Some(1_200_000), storage.build_summary.receive_latency_min);
    assert_eq!(Some(2_200_000), storage.build_summary.receive_latency_max);
    assert_eq!(Some(1_700_000), storage.build_summary.receive_latency_avg);

    // transaction count
    assert_eq!(128, storage.build_summary.tx_count);

    // block counts; +2 to include the real network's blocks at the first
    // two heights, which never yield traces
    assert_eq!(1, storage.build_summary.block_count);
    assert_eq!(1 + 2, storage.build_summary.cannonical_block_count);

    storage.store_data(height, block_traces, TagMap::new(), TagMap::new());
}

#[test]
fn test_summary_update_multiple_blocks_one_per_height() {
    let mut storage = BuildStorage::new();

    let height = 1;
    let block_hash = "Height1Block1".to_string();
    let trace_1 = report(height, "prod1", &block_hash, true, Some(-20_400_000), Some(20_400_000), Some(128));
    let trace_2 = report(height, "node1", &block_hash, false, Some(1_200_000), Some(12_400_000), None);
    let trace_3 = report(height, "node2", &block_hash, false, Some(2_200_000), Some(8_400_000), None);
    let mut block_traces = AggregatedBlockTraces::new();
    block_traces.insert(block_hash, vec![trace_1, trace_2, trace_3]);
    storage.update_summary(height, &block_traces, RequestStats::new());
    storage.store_data(height, block_traces, TagMap::new(), TagMap::new());

    let height = 2;
    let block_hash = "Height2Block1".to_string();
    let trace_1 = report(height, "prod1", &block_hash, true, Some(-21_600_000), Some(21_600_000), Some(55));
    let trace_2 = report(height, "node1", &block_hash, false, Some(200_000), Some(1_400_000), None);
    let trace_3 = report(height, "node2", &block_hash, false, Some(234_000), Some(3_000_000), None);

    storage.best_chain.insert(1, "Height1Block1".to_string());
    storage.best_chain.insert(2, "Height2Block1".to_string());

    let mut block_traces = AggregatedBlockTraces::new();
    block_traces.insert(block_hash, vec![trace_1, trace_2, trace_3]);
    storage.update_summary(height, &block_traces, RequestStats::new());

    // production times
    assert_eq!(Some(20_400_000), storage.build_summary.block_production_min);
    assert_eq!(Some(21_600_000), storage.build_summary.block_production_max);
    assert_eq!(Some(21_000_000), storage.build_summary.block_production_avg);

    // application times
    assert_eq!(Some(1_400_000), storage.build_summary.block_application_min);
    assert_eq!(Some(12_400_000), storage.build_summary.block_application_max);
    assert_eq!(Some(6_300_000), storage.build_summary.block_application_avg);

    // receive latencies
    assert_eq!(Some(200_000), storage.build_summary.receive_latency_min);
    assert_eq!(Some(2_200_000), storage.build_summary.receive_latency_max);
    assert_eq!(Some(958_500), storage.build_summary.receive_latency_avg);

    // transaction count
    assert_eq!(183, storage.build_summary.tx_count);

    // block counts
    assert_eq!(2, storage.build_summary.block_count);
    assert_eq!(2 + 2, storage.build_summary.cannonical_block_count);

    storage.store_data(height, block_traces, TagMap::new(), TagMap::new());
}

#[test]
fn test_summary_update_multiple_blocks_multiple_per_height() {
    let mut storage = BuildStorage::new();

    let height = 1;
    let block_hash = "Height1Block1".to_string();
    let trace_1 = report(height, "prod1", &block_hash, true, Some(-20_400_000), Some(20_400_000), Some(128));
    let trace_2 = report(height, "node1", &block_hash, false, Some(1_200_000), Some(12_400_000), None);
    let trace_3 = report(height, "node2", &block_hash, false, Some(2_200_000), Some(8_400_000), None);
    let trace_4 = report(height, "prod2", &block_hash, false, Some(2_600_000), Some(12_000_000), None);
    let mut block_traces = AggregatedBlockTraces::new();
    block_traces.insert(block_hash, vec![trace_1, trace_2, trace_3, trace_4]);
    storage.update_summary(height, &block_traces, RequestStats::new());
    storage.store_data(height, block_traces, TagMap::new(), TagMap::new());

    let height = 2;
    let block_hash = "Height2Block1".to_string();
    let trace_1 = report(height, "prod1", &block_hash, true, Some(-21_600_000), Some(21_600_000), Some(120));
    let trace_2 = report(height, "node1", &block_hash, false, Some(200_000), Some(1_400_000), None);
    let trace_3 = report(height, "node2", &block_hash, false, Some(234_000), Some(3_000_000), None);
    let trace_4 = report(height, "prod2", &block_hash, false, Some(1_600_000), Some(10_000_000), None);
    let mut block_traces = AggregatedBlockTraces::new();
    block_traces.insert(block_hash, vec![trace_1, trace_2, trace_3, trace_4]);

    let block_hash = "Height2Block2".to_string();
    let trace_1 = report(height, "prod1", &block_hash, false, Some(500_000), Some(1_500_000), None);
    let trace_2 = report(height, "node1", &block_hash, false, Some(800_000), Some(1_900_000), None);
    let trace_3 = report(height, "node2", &block_hash, false, Some(444_000), Some(3_900_000), None);
    let trace_4 = report(height, "prod2", &block_hash, true, Some(-32_100_000), Some(32_100_000), Some(55));
    block_traces.insert(block_hash, vec![trace_1, trace_2, trace_3, trace_4]);

    storage.best_chain.insert(1, "Height1Block1".to_string());
    storage.best_chain.insert(2, "Height2Block2".to_string());

    storage.update_summary(height, &block_traces, RequestStats::new());

    // production times
    assert_eq!(Some(20_400_000), storage.build_summary.block_production_min);
    assert_eq!(Some(32_100_000), storage.build_summary.block_production_max);
    assert_eq!(Some(24_700_000), storage.build_summary.block_production_avg);

    // application times; 54.5 s over 9 measurements, truncated
    assert_eq!(Some(1_400_000), storage.build_summary.block_application_min);
    assert_eq!(Some(12_400_000), storage.build_summary.block_application_max);
    assert_eq!(Some(6_055_555), storage.build_summary.block_application_avg);

    // receive latencies; 9.778 s over 9 measurements, truncated
    assert_eq!(Some(200_000), storage.build_summary.receive_latency_min);
    assert_eq!(Some(2_600_000), storage.build_summary.receive_latency_max);
    assert_eq!(Some(1_086_444), storage.build_summary.receive_latency_avg);

    // transaction count: the losing fork's 120 transactions do not count
    assert_eq!(183, storage.build_summary.tx_count);

    // block counts
    assert_eq!(3, storage.build_summary.block_count);
    assert_eq!(height + 2, storage.build_summary.cannonical_block_count);

    storage.store_data(height, block_traces, TagMap::new(), TagMap::new());
}

#[test]
fn losing_fork_never_inflates_the_transaction_total() {
    let mut storage = BuildStorage::new();
    let loser = report(1, "prod1", "LoserBlock", true, None, Some(5_000_000), Some(999));
    let winner = report(1, "prod2", "WinnerBlock", true, None, Some(6_000_000), Some(5));
    let mut block_traces = AggregatedBlockTraces::new();
    block_traces.insert("LoserBlock".to_string(), vec![loser]);
    block_traces.insert("WinnerBlock".to_string(), vec![winner]);
    storage.best_chain.insert(1, "WinnerBlock".to_string());
    storage.update_summary(1, &block_traces, RequestStats::new());
    assert_eq!(5, storage.build_summary.tx_count);
}

#[test]
fn dump_round_trip_preserves_aggregates() {
    let mut storage = BuildStorage::new();
    let height = 1;
    let block_hash = "Height1Block1".to_string();
    let trace_1 = report(height, "prod1", &block_hash, true, Some(-20_400_000), Some(20_400_000), Some(128));
    let trace_2 = report(height, "node1", &block_hash, false, Some(1_200_000), Some(12_400_000), None);
    let mut block_traces = AggregatedBlockTraces::new();
    block_traces.insert(block_hash, vec![trace_1, trace_2]);
    storage.best_chain.insert(1, "Height1Block1".to_string());
    storage.update_summary(height, &block_traces, RequestStats::new());
    storage.store_data(height, block_traces, TagMap::new(), TagMap::new());

    let expected_summary = storage.build_summary.clone();
    let dump = storage.to_dump();
    let restored = BuildStorage::from_dump(dump);

    assert_eq!(expected_summary.block_application_min, restored.build_summary.block_application_min);
    assert_eq!(expected_summary.block_application_max, restored.build_summary.block_application_max);
    assert_eq!(expected_summary.block_application_avg, restored.build_summary.block_application_avg);
    assert_eq!(expected_summary.receive_latency_avg, restored.build_summary.receive_latency_avg);
    assert_eq!(expected_summary.tx_count, restored.build_summary.tx_count);
    assert_eq!(expected_summary.block_count, restored.build_summary.block_count);
    assert_eq!(1, restored.helpers.application_times.len());
    assert_eq!(1, restored.block_summaries.len());
    assert_eq!(1, restored.trace_storage.len());
}

#[test]
fn deltas_compare_against_the_other_build() {
    let mut current = BuildStorage::new();
    let mut comparison = BuildStorage::new();

    let a = report(1, "prod1", "A", true, None, Some(10_000_000), None);
    let b = report(1, "node1", "A", false, Some(1_000_000), Some(4_000_000), None);
    let mut traces = AggregatedBlockTraces::new();
    traces.insert("A".to_string(), vec![a, b]);
    current.update_summary(1, &traces, RequestStats::new());

    let c = report(1, "prod1", "B", true, None, Some(14_000_000), None);
    let d = report(1, "node1", "B", false, Some(2_000_000), Some(6_000_000), None);
    let mut traces = AggregatedBlockTraces::new();
    traces.insert("B".to_string(), vec![c, d]);
    comparison.update_summary(1, &traces, RequestStats::new());

    current.include_times();
    comparison.include_times();
    current.calculate_deltas(&comparison);

    // comparison minus current: 6.0 s - 4.0 s of application time
    assert_eq!(Some(2_000_000), current.build_summary.block_application_max_delta);
    assert_eq!(Some(4_000_000), current.build_summary.block_production_max_delta);
    assert!(current.build_summary.block_application_regression);
    assert_eq!(vec![4_000_000i64], current.build_summary.application_times);
    assert_eq!(vec![6_000_000i64], current.build_summary.application_times_previous);
}

#[test]
fn helpers_average_is_none_before_any_measurement() {
    let helpers = BuildSummaryHelpers::new();
    assert_eq!(None, helpers.get_application_average());
    assert_eq!(None, helpers.get_production_average());
    assert_eq!(None, helpers.get_latencies_average());
}
