//! Per-build storage: streaming statistical rollups over block heights,
//! canonical-chain-filtered transaction counts, and inter-build deltas.
//!
//! All times are integer microseconds (`i64`); running sums are kept in
//! `i128` so that a sum over any number of heights fits as long as the total
//! number of retained samples stays below `u64::MAX`, which the storage's
//! well-formedness pins down.  Running minima and maxima use an explicit
//! uninitialized state (`None`) — a latency of zero or below is a legitimate
//! sample, not a sentinel.

use vstd::prelude::*;

use crate::block_traces::{blocks_app_times, blocks_nonproducer_count, blocks_prod_times, blocks_producer_count, blocks_recv_latencies, blocks_tx_keys, blocks_tx_vals, spec_block_summary_ok, AggregatedBlockTraces};
use crate::aggregator_ipc::CpnpBlockPublication;
use crate::cross_validation::ValidationReport;
use crate::maps::{HeightMap, TagMap};
use crate::nodes::RequestStats;

verus! {

/// Sum of a sequence of samples.
pub open spec fn seq_i64_sum(s: Seq<i64>) -> int
    decreases s.len(),
{
    if s.len() == 0 {
        0
    } else {
        seq_i64_sum(s.drop_last()) + s.last()
    }
}

/// Sum of a sequence of per-height totals.
pub open spec fn seq_i128_sum(s: Seq<i128>) -> int
    decreases s.len(),
{
    if s.len() == 0 {
        0
    } else {
        seq_i128_sum(s.drop_last()) + s.last()
    }
}

/// Sum of a sequence of counts.
pub open spec fn seq_usize_sum(s: Seq<usize>) -> nat
    decreases s.len(),
{
    if s.len() == 0 {
        0
    } else {
        seq_usize_sum(s.drop_last()) + s.last() as nat
    }
}

/// Total number of samples over a sequence of per-height sample vectors.
pub open spec fn seq_len_total(s: Seq<Vec<i64>>) -> nat
    decreases s.len(),
{
    if s.len() == 0 {
        0
    } else {
        seq_len_total(s.drop_last()) + s.last()@.len()
    }
}

/// All samples of a sequence of per-height sample vectors, height by height.
pub open spec fn seq_concat(s: Seq<Vec<i64>>) -> Seq<i64>
    decreases s.len(),
{
    if s.len() == 0 {
        Seq::empty()
    } else {
        seq_concat(s.drop_last()) + s.last()@
    }
}

/// Minimum of a sequence of samples, if any.
pub open spec fn seq_i64_min(s: Seq<i64>) -> Option<i64>
    decreases s.len(),
{
    if s.len() == 0 {
        None
    } else {
        match seq_i64_min(s.drop_last()) {
            None => Some(s.last()),
            Some(m) => Some(
                if s.last() < m {
                    s.last()
                } else {
                    m
                },
            ),
        }
    }
}

/// Maximum of a sequence of samples, if any.
pub open spec fn seq_i64_max(s: Seq<i64>) -> Option<i64>
    decreases s.len(),
{
    if s.len() == 0 {
        None
    } else {
        match seq_i64_max(s.drop_last()) {
            None => Some(s.last()),
            Some(m) => Some(
                if s.last() > m {
                    s.last()
                } else {
                    m
                },
            ),
        }
    }
}

/// Integer division truncating toward zero, as the machine division does.
pub open spec fn div_trunc(a: int, b: int) -> int {
    if a >= 0 {
        a / b
    } else {
        -((-a) / b)
    }
}

/// The streaming average over a family: the sum of the per-height totals
/// divided by the sum of the per-height counts, `None` while nothing has
/// been measured.
pub open spec fn spec_family_average(totals: Seq<i128>, counts: Seq<usize>) -> Option<i64> {
    if seq_usize_sum(counts) == 0 {
        None
    } else {
        Some(div_trunc(seq_i128_sum(totals), seq_usize_sum(counts) as int) as i64)
    }
}

/// The merge of a running extreme with the extreme of a new sample batch:
/// the first real value initializes, later batches combine, an empty batch
/// changes nothing.
pub open spec fn merge_min(old: Option<i64>, new: Option<i64>) -> Option<i64> {
    match (old, new) {
        (None, None) => None,
        (None, Some(m)) => Some(m),
        (Some(o), None) => Some(o),
        (Some(o), Some(m)) => Some(
            if m < o {
                m
            } else {
                o
            },
        ),
    }
}

/// Counterpart of `merge_min` for maxima.
pub open spec fn merge_max(old: Option<i64>, new: Option<i64>) -> Option<i64> {
    match (old, new) {
        (None, None) => None,
        (None, Some(m)) => Some(m),
        (Some(o), None) => Some(o),
        (Some(o), Some(m)) => Some(
            if m > o {
                m
            } else {
                o
            },
        ),
    }
}

/// One peer's timing entry of a block summary.
#[derive(Debug, Clone)]
pub struct PeerTiming {
    pub node: String,
    pub block_processing_time: Option<i64>,
    pub receive_latency: Option<i64>,
}

/// Summary of one block: its identity, producers, and per-peer timings.
#[derive(Debug, Clone)]
pub struct BlockSummary {
    pub height: usize,
    pub block_hash: String,
    pub global_slot: Option<String>,
    pub tx_count: Option<usize>,
    pub max_receive_latency: i64,
    pub date_time: Option<i64>,
    pub block_producer: Option<String>,
    pub block_producer_nodes: Vec<String>,
    pub peer_timings: Vec<PeerTiming>,
}

/// The per-build rollup a dashboard consumes.  Extremes and averages are
/// `None` until the first sample; deltas are `None` until compared against
/// another build.
#[derive(Debug, Clone)]
pub struct BuildSummary {
    pub block_count: usize,
    pub cannonical_block_count: usize,
    pub tx_count: usize,
    pub block_production_min: Option<i64>,
    pub block_production_avg: Option<i64>,
    pub block_production_max: Option<i64>,
    pub block_application_min: Option<i64>,
    pub block_application_avg: Option<i64>,
    pub block_application_max: Option<i64>,
    pub receive_latency_min: Option<i64>,
    pub receive_latency_avg: Option<i64>,
    pub receive_latency_max: Option<i64>,
    pub application_times: Vec<i64>,
    pub production_times: Vec<i64>,
    pub receive_latencies: Vec<i64>,
    pub block_production_min_delta: Option<i128>,
    pub block_production_avg_delta: Option<i128>,
    pub block_production_max_delta: Option<i128>,
    pub block_application_min_delta: Option<i128>,
    pub block_application_avg_delta: Option<i128>,
    pub block_application_max_delta: Option<i128>,
    pub receive_latency_min_delta: Option<i128>,
    pub receive_latency_avg_delta: Option<i128>,
    pub receive_latency_max_delta: Option<i128>,
    pub application_times_previous: Vec<i64>,
    pub production_times_previous: Vec<i64>,
    pub receive_latencies_previous: Vec<i64>,
    pub block_production_regression: bool,
    pub block_application_regression: bool,
    pub receive_latency_regression: bool,
    pub request_count: usize,
    pub request_timeout_count: usize,
}

impl BuildSummary {
    /// The all-empty summary.
    pub fn new() -> (r: Self)
        ensures
            r.block_count == 0,
            r.cannonical_block_count == 0,
            r.tx_count == 0,
            r.block_production_min is None,
            r.block_production_avg is None,
            r.block_production_max is None,
            r.block_application_min is None,
            r.block_application_avg is None,
            r.block_application_max is None,
            r.receive_latency_min is None,
            r.receive_latency_avg is None,
            r.receive_latency_max is None,
            r.application_times@ == Seq::<i64>::empty(),
            r.production_times@ == Seq::<i64>::empty(),
            r.receive_latencies@ == Seq::<i64>::empty(),
            r.block_production_min_delta is None,
            r.block_production_avg_delta is None,
            r.block_production_max_delta is None,
            r.block_application_min_delta is None,
            r.block_application_avg_delta is None,
            r.block_application_max_delta is None,
            r.receive_latency_min_delta is None,
            r.receive_latency_avg_delta is None,
            r.receive_latency_max_delta is None,
            r.application_times_previous@ == Seq::<i64>::empty(),
            r.production_times_previous@ == Seq::<i64>::empty(),
            r.receive_latencies_previous@ == Seq::<i64>::empty(),
            !r.block_production_regression,
            !r.block_application_regression,
            !r.receive_latency_regression,
            r.request_count == 0,
            r.request_timeout_count == 0,
    {
        BuildSummary {
            block_count: 0,
            cannonical_block_count: 0,
            tx_count: 0,
            block_production_min: None,
            block_production_avg: None,
            block_production_max: None,
            block_application_min: None,
            block_application_avg: None,
            block_application_max: None,
            receive_latency_min: None,
            receive_latency_avg: None,
            receive_latency_max: None,
            application_times: Vec::new(),
            production_times: Vec::new(),
            receive_latencies: Vec::new(),
            block_production_min_delta: None,
            block_production_avg_delta: None,
            block_production_max_delta: None,
            block_application_min_delta: None,
            block_application_avg_delta: None,
            block_application_max_delta: None,
            receive_latency_min_delta: None,
            receive_latency_avg_delta: None,
            receive_latency_max_delta: None,
            application_times_previous: Vec::new(),
            production_times_previous: Vec::new(),
            receive_latencies_previous: Vec::new(),
            block_production_regression: false,
            block_application_regression: false,
            receive_latency_regression: false,
            request_count: 0,
            request_timeout_count: 0,
        }
    }

}

/// The per-height accumulators behind the build summary: for each family a
/// running `(total, count)` pair per height plus the raw samples for
/// histogramming, the per-height block count, and the per-block transaction
/// counts.
#[derive(Debug, Clone)]
pub struct BuildSummaryHelpers {
    pub application_avg_total_count: HeightMap<usize>,
    pub application_total: HeightMap<i128>,
    pub production_avg_total_count: HeightMap<usize>,
    pub production_total: HeightMap<i128>,
    pub receive_latencies_avg_total_count: HeightMap<usize>,
    pub receive_latencies_total: HeightMap<i128>,
    pub application_times: HeightMap<Vec<i64>>,
    pub production_times: HeightMap<Vec<i64>>,
    pub block_count_per_height: HeightMap<usize>,
    pub receive_latencies: HeightMap<Vec<i64>>,
    pub tx_count_per_block: TagMap<usize>,
}

/// Consistency of one family's accumulators: the three maps cover the same
/// heights, each height's total is bounded by its sample count, each
/// height's count covers at least its samples, and the total number of
/// samples fits the counter width.
pub open spec fn family_wf(
    totals: HeightMap<i128>,
    counts: HeightMap<usize>,
    times: HeightMap<Vec<i64>>,
) -> bool {
    &&& totals.wf()
    &&& counts.wf()
    &&& times.wf()
    &&& totals.keys_view() == times.keys_view()
    &&& counts.keys_view() == times.keys_view()
    &&& forall|i: int|
        0 <= i < times.vals_seq().len() ==> -((#[trigger] times.vals_seq()[i])@.len()
            * 0x8000_0000_0000_0000) <= totals.vals_seq()[i] <= times.vals_seq()[i]@.len() * (
        0x8000_0000_0000_0000 - 1)
    &&& forall|i: int|
        0 <= i < times.vals_seq().len() ==> (#[trigger] times.vals_seq()[i])@.len()
            <= counts.vals_seq()[i]
    &&& seq_len_total(times.vals_seq()) <= u64::MAX
    &&& seq_usize_sum(counts.vals_seq()) <= u64::MAX
}

impl BuildSummaryHelpers {
    /// Consistency of all three families and well-formedness of the other
    /// maps.
    pub open spec fn wf(&self) -> bool {
        &&& family_wf(
            self.application_total,
            self.application_avg_total_count,
            self.application_times,
        )
        &&& family_wf(
            self.production_total,
            self.production_avg_total_count,
            self.production_times,
        )
        &&& family_wf(
            self.receive_latencies_total,
            self.receive_latencies_avg_total_count,
            self.receive_latencies,
        )
        &&& self.block_count_per_height.wf()
        &&& self.tx_count_per_block.wf()
    }

    /// Creates empty accumulators.
    pub fn new() -> (r: Self)
        ensures
            r.wf(),
            r.application_times.spec_len() == 0,
            r.production_times.spec_len() == 0,
            r.receive_latencies.spec_len() == 0,
            r.application_total.spec_len() == 0,
            r.production_total.spec_len() == 0,
            r.receive_latencies_total.spec_len() == 0,
            r.application_avg_total_count.spec_len() == 0,
            r.production_avg_total_count.spec_len() == 0,
            r.receive_latencies_avg_total_count.spec_len() == 0,
            r.block_count_per_height.spec_len() == 0,
            r.tx_count_per_block.spec_len() == 0,
    {
        let r = BuildSummaryHelpers {
            application_avg_total_count: HeightMap::new(),
            application_total: HeightMap::new(),
            production_avg_total_count: HeightMap::new(),
            production_total: HeightMap::new(),
            receive_latencies_avg_total_count: HeightMap::new(),
            receive_latencies_total: HeightMap::new(),
            application_times: HeightMap::new(),
            production_times: HeightMap::new(),
            block_count_per_height: HeightMap::new(),
            receive_latencies: HeightMap::new(),
            tx_count_per_block: TagMap::new(),
        };
        proof {
            assert(seq_len_total(r.application_times.vals_seq()) == 0);
            assert(seq_len_total(r.production_times.vals_seq()) == 0);
            assert(seq_len_total(r.receive_latencies.vals_seq()) == 0);
        }
        r
    }

    /// The streaming application-time average over all heights.
    pub fn get_application_average(&self) -> (r: Option<i64>)
        requires
            self.wf(),
        ensures
            r == spec_family_average(
                self.application_total.vals_seq(),
                self.application_avg_total_count.vals_seq(),
            ),
    {
        family_average(
            &self.application_total,
            &self.application_avg_total_count,
            &self.application_times,
        )
    }

    /// The streaming production-time average over all heights.
    pub fn get_production_average(&self) -> (r: Option<i64>)
        requires
            self.wf(),
        ensures
            r == spec_family_average(
                self.production_total.vals_seq(),
                self.production_avg_total_count.vals_seq(),
            ),
    {
        family_average(
            &self.production_total,
            &self.production_avg_total_count,
            &self.production_times,
        )
    }

    /// The streaming receive-latency average over all heights.
    pub fn get_latencies_average(&self) -> (r: Option<i64>)
        requires
            self.wf(),
        ensures
            r == spec_family_average(
                self.receive_latencies_total.vals_seq(),
                self.receive_latencies_avg_total_count.vals_seq(),
            ),
    {
        family_average(
            &self.receive_latencies_total,
            &self.receive_latencies_avg_total_count,
            &self.receive_latencies,
        )
    }
}

/// A prefix of the sample vectors never holds more samples than the whole.
proof fn lemma_seq_len_total_prefix(s: Seq<Vec<i64>>, k: int)
    requires
        0 <= k <= s.len(),
    ensures
        seq_len_total(s.take(k)) <= seq_len_total(s),
    decreases s.len() - k,
{
    if k < s.len() {
        lemma_seq_len_total_prefix(s, k + 1);
        assert(s.take(k + 1).drop_last() =~= s.take(k));
        assert(s.take(k + 1).last() == s[k]);
    } else {
        assert(s.take(k) =~= s);
    }
}

/// Each partial sum of the per-height totals is bounded by the samples that
/// produced it.
proof fn lemma_partial_total_bound(
    totals: Seq<i128>,
    counts: Seq<usize>,
    times: Seq<Vec<i64>>,
    k: int,
)
    requires
        totals.len() == times.len(),
        forall|i: int|
            0 <= i < times.len() ==> -((#[trigger] times[i])@.len() * 0x8000_0000_0000_0000)
                <= totals[i] <= times[i]@.len() * (0x8000_0000_0000_0000 - 1),
        0 <= k <= totals.len(),
    ensures
        -(seq_len_total(times.take(k)) * 0x8000_0000_0000_0000) <= seq_i128_sum(totals.take(k))
            <= seq_len_total(times.take(k)) * (0x8000_0000_0000_0000 - 1),
    decreases k,
{
    if k > 0 {
        lemma_partial_total_bound(totals, counts, times, k - 1);
        assert(totals.take(k).drop_last() =~= totals.take(k - 1));
        assert(totals.take(k).last() == totals[k - 1]);
        assert(times.take(k).drop_last() =~= times.take(k - 1));
        assert(times.take(k).last() == times[k - 1]);
        assert(-((times[k - 1])@.len() * 0x8000_0000_0000_0000) <= totals[k - 1] <= times[k
            - 1]@.len() * (0x8000_0000_0000_0000 - 1)) by {
            assert(0 <= k - 1 < times.len());
        }
        assert(seq_len_total(times.take(k)) == seq_len_total(times.take(k - 1)) + times[k
            - 1]@.len());
        assert(seq_len_total(times.take(k)) * 0x8000_0000_0000_0000 == seq_len_total(
            times.take(k - 1),
        ) * 0x8000_0000_0000_0000 + times[k - 1]@.len() * 0x8000_0000_0000_0000);
        assert(seq_len_total(times.take(k)) * (0x8000_0000_0000_0000 - 1) == seq_len_total(
            times.take(k - 1),
        ) * (0x8000_0000_0000_0000 - 1) + times[k - 1]@.len() * (0x8000_0000_0000_0000 - 1));
    } else {
        assert(totals.take(0) =~= Seq::<i128>::empty());
        assert(times.take(0) =~= Seq::<Vec<i64>>::empty());
    }
}

/// Computes one family's streaming average: the sums stay in `i128`, whose
/// range the well-formedness bounds guarantee to suffice.
fn family_average(
    totals: &HeightMap<i128>,
    counts: &HeightMap<usize>,
    times: &HeightMap<Vec<i64>>,
) -> (r: Option<i64>)
    requires
        family_wf(*totals, *counts, *times),
    ensures
        r == spec_family_average(totals.vals_seq(), counts.vals_seq()),
{
    let n = totals.len();
    let ghost tv = totals.vals_seq();
    let ghost cv = counts.vals_seq();
    let ghost mv = times.vals_seq();
    proof {
        assert(tv.take(0) =~= Seq::<i128>::empty());
        assert(cv.take(0) =~= Seq::<usize>::empty());
        assert(mv.take(0) =~= Seq::<Vec<i64>>::empty());
    }
    let mut total: i128 = 0;
    let mut i: usize = 0;
    while i < n
        invariant
            family_wf(*totals, *counts, *times),
            tv == totals.vals_seq(),
            mv == times.vals_seq(),
            n == tv.len(),
            i <= n,
            total == seq_i128_sum(tv.take(i as int)),
            -(seq_len_total(mv.take(i as int)) * 0x8000_0000_0000_0000) <= total <= seq_len_total(
                mv.take(i as int),
            ) * (0x8000_0000_0000_0000 - 1),
        decreases n - i,
    {
        proof {
            assert(tv.take(i + 1).drop_last() =~= tv.take(i as int));
            assert(tv.take(i + 1).last() == tv[i as int]);
            lemma_partial_total_bound(tv, cv, mv, i + 1);
            lemma_seq_len_total_prefix(mv, i + 1);
            assert(seq_len_total(mv.take(i + 1)) <= u64::MAX);
            assert(seq_len_total(mv.take(i + 1)) * 0x8000_0000_0000_0000 <= u64::MAX as int
                * 0x8000_0000_0000_0000);
            assert(seq_len_total(mv.take(i + 1)) * (0x8000_0000_0000_0000 - 1) <= u64::MAX as int
                * (0x8000_0000_0000_0000 - 1));
        }
        total = total + totals.val_at(i);
        i = i + 1;
    }
    proof {
        assert(tv.take(n as int) =~= tv);
        assert(mv.take(n as int) =~= mv);
    }

    let m = counts.len();
    let mut count: u64 = 0;
    let mut j: usize = 0;
    while j < m
        invariant
            family_wf(*totals, *counts, *times),
            cv == counts.vals_seq(),
            m == cv.len(),
            j <= m,
            count == seq_usize_sum(cv.take(j as int)),
        decreases m - j,
    {
        proof {
            assert(cv.take(j + 1).drop_last() =~= cv.take(j as int));
            assert(cv.take(j + 1).last() == cv[j as int]);
            lemma_seq_usize_sum_prefix(cv, j + 1);
            assert(seq_usize_sum(cv.take(j + 1)) <= seq_usize_sum(cv));
        }
        count = count + (*counts.val_at(j)) as u64;
        j = j + 1;
    }
    proof {
        assert(cv.take(m as int) =~= cv);
    }

    if count == 0 {
        None
    } else {
        proof {
            assert(-(u64::MAX as int * 0x8000_0000_0000_0000) <= total <= u64::MAX as int * (
            0x8000_0000_0000_0000 - 1)) by {
                assert(seq_len_total(mv) <= u64::MAX);
                assert(seq_len_total(mv) * 0x8000_0000_0000_0000 <= u64::MAX as int
                    * 0x8000_0000_0000_0000);
                assert(seq_len_total(mv) * (0x8000_0000_0000_0000 - 1) <= u64::MAX as int * (
                0x8000_0000_0000_0000 - 1));
            }
        }
        let q: i128 = if total >= 0 {
            total / (count as i128)
        } else {
            -((-total) / (count as i128))
        };
        proof {
            lemma_family_average_fits(tv, cv, mv);
            assert(q == div_trunc(seq_i128_sum(tv), seq_usize_sum(cv) as int));
        }
        Some(q as i64)
    }
}

/// A prefix of the counts never sums to more than the whole.
proof fn lemma_seq_usize_sum_prefix(s: Seq<usize>, k: int)
    requires
        0 <= k <= s.len(),
    ensures
        seq_usize_sum(s.take(k)) <= seq_usize_sum(s),
    decreases s.len() - k,
{
    if k < s.len() {
        lemma_seq_usize_sum_prefix(s, k + 1);
        assert(s.take(k + 1).drop_last() =~= s.take(k));
        assert(s.take(k + 1).last() == s[k]);
    } else {
        assert(s.take(k) =~= s);
    }
}

/// When every height's total is bounded by its count, the average fits a
/// sample's width.
proof fn lemma_family_average_fits(totals: Seq<i128>, counts: Seq<usize>, times: Seq<Vec<i64>>)
    requires
        totals.len() == times.len(),
        counts.len() == times.len(),
        forall|i: int|
            0 <= i < times.len() ==> -((#[trigger] times[i])@.len() * 0x8000_0000_0000_0000)
                <= totals[i] <= times[i]@.len() * (0x8000_0000_0000_0000 - 1),
        forall|i: int| 0 <= i < times.len() ==> (#[trigger] times[i])@.len() <= counts[i],
        seq_usize_sum(counts) > 0,
    ensures
        -0x8000_0000_0000_0000 <= div_trunc(seq_i128_sum(totals), seq_usize_sum(counts) as int)
            <= 0x8000_0000_0000_0000 - 1,
{
    lemma_sum_bounds(totals, counts, times, times.len() as int);
    let total = seq_i128_sum(totals);
    let count = seq_usize_sum(counts) as int;
    assert(totals.take(times.len() as int) =~= totals);
    assert(counts.take(times.len() as int) =~= counts);
    assert(times.take(times.len() as int) =~= times);
    assert(-(count * 0x8000_0000_0000_0000) <= total <= count * (0x8000_0000_0000_0000 - 1));
    if total >= 0 {
        assert(total / count <= 0x8000_0000_0000_0000 - 1) by (nonlinear_arith)
            requires
                count > 0,
                0 <= total <= count * (0x8000_0000_0000_0000 - 1),
        ;
        assert(total / count >= 0) by (nonlinear_arith)
            requires
                count > 0,
                total >= 0,
        ;
    } else {
        assert((-total) / count <= 0x8000_0000_0000_0000) by (nonlinear_arith)
            requires
                count > 0,
                0 <= -total <= count * 0x8000_0000_0000_0000,
        ;
        assert((-total) / count >= 0) by (nonlinear_arith)
            requires
                count > 0,
                -total >= 0,
        ;
    }
}

/// Partial sums of totals and counts keep the per-height bounds.
proof fn lemma_sum_bounds(totals: Seq<i128>, counts: Seq<usize>, times: Seq<Vec<i64>>, k: int)
    requires
        totals.len() == times.len(),
        counts.len() == times.len(),
        forall|i: int|
            0 <= i < times.len() ==> -((#[trigger] times[i])@.len() * 0x8000_0000_0000_0000)
                <= totals[i] <= times[i]@.len() * (0x8000_0000_0000_0000 - 1),
        forall|i: int| 0 <= i < times.len() ==> (#[trigger] times[i])@.len() <= counts[i],
        0 <= k <= times.len(),
    ensures
        -(seq_usize_sum(counts.take(k)) * 0x8000_0000_0000_0000) <= seq_i128_sum(totals.take(k))
            <= seq_usize_sum(counts.take(k)) * (0x8000_0000_0000_0000 - 1),
    decreases k,
{
    if k > 0 {
        lemma_sum_bounds(totals, counts, times, k - 1);
        assert(totals.take(k).drop_last() =~= totals.take(k - 1));
        assert(totals.take(k).last() == totals[k - 1]);
        assert(counts.take(k).drop_last() =~= counts.take(k - 1));
        assert(counts.take(k).last() == counts[k - 1]);
        assert(-((times[k - 1])@.len() * 0x8000_0000_0000_0000) <= totals[k - 1] <= times[k
            - 1]@.len() * (0x8000_0000_0000_0000 - 1)) by {
            assert(0 <= k - 1 < times.len());
        }
        assert(times[k - 1]@.len() <= counts[k - 1]) by {
            assert(0 <= k - 1 < times.len());
        }
        assert(times[k - 1]@.len() * 0x8000_0000_0000_0000 <= counts[k - 1] as int
            * 0x8000_0000_0000_0000) by (nonlinear_arith)
            requires
                times[k - 1]@.len() <= counts[k - 1],
        ;
        assert(times[k - 1]@.len() * (0x8000_0000_0000_0000 - 1) <= counts[k - 1] as int * (
        0x8000_0000_0000_0000 - 1)) by (nonlinear_arith)
            requires
                times[k - 1]@.len() <= counts[k - 1],
        ;
        assert(seq_usize_sum(counts.take(k)) == seq_usize_sum(counts.take(k - 1)) + counts[k
            - 1] as nat);
        assert(seq_usize_sum(counts.take(k)) * 0x8000_0000_0000_0000 == seq_usize_sum(
            counts.take(k - 1),
        ) * 0x8000_0000_0000_0000 + counts[k - 1] as int * 0x8000_0000_0000_0000);
        assert(seq_usize_sum(counts.take(k)) * (0x8000_0000_0000_0000 - 1) == seq_usize_sum(
            counts.take(k - 1),
        ) * (0x8000_0000_0000_0000 - 1) + counts[k - 1] as int * (0x8000_0000_0000_0000 - 1));
    } else {
        assert(totals.take(0) =~= Seq::<i128>::empty());
        assert(counts.take(0) =~= Seq::<usize>::empty());
    }
}


/// Replacing one sample vector changes the total sample count by the length
/// difference.
proof fn lemma_seq_len_total_update(s: Seq<Vec<i64>>, i: int, v: Vec<i64>)
    requires
        0 <= i < s.len(),
    ensures
        seq_len_total(s.update(i, v)) == seq_len_total(s) - s[i]@.len() + v@.len(),
    decreases s.len(),
{
    let t = s.update(i, v);
    if i == s.len() - 1 {
        assert(t.drop_last() =~= s.drop_last());
        assert(t.last() == v);
    } else {
        assert(t.drop_last() =~= s.drop_last().update(i, v));
        assert(t.last() == s.last());
        lemma_seq_len_total_update(s.drop_last(), i, v);
    }
}

/// Inserting a sample vector adds its length to the total sample count.
proof fn lemma_seq_len_total_insert(s: Seq<Vec<i64>>, p: int, v: Vec<i64>)
    requires
        0 <= p <= s.len(),
    ensures
        seq_len_total(s.insert(p, v)) == seq_len_total(s) + v@.len(),
    decreases s.len(),
{
    let t = s.insert(p, v);
    if p == s.len() {
        assert(t.drop_last() =~= s);
        assert(t.last() == v);
    } else {
        assert(t.drop_last() =~= s.drop_last().insert(p, v));
        assert(t.last() == s.last());
        lemma_seq_len_total_insert(s.drop_last(), p, v);
    }
}

/// Replacing one count changes the count total by the difference.
proof fn lemma_seq_usize_sum_update(s: Seq<usize>, i: int, v: usize)
    requires
        0 <= i < s.len(),
    ensures
        seq_usize_sum(s.update(i, v)) == seq_usize_sum(s) - s[i] + v,
    decreases s.len(),
{
    let t = s.update(i, v);
    if i == s.len() - 1 {
        assert(t.drop_last() =~= s.drop_last());
        assert(t.last() == v);
    } else {
        assert(t.drop_last() =~= s.drop_last().update(i, v));
        assert(t.last() == s.last());
        lemma_seq_usize_sum_update(s.drop_last(), i, v);
    }
}

/// Inserting a count adds it to the count total.
proof fn lemma_seq_usize_sum_insert(s: Seq<usize>, p: int, v: usize)
    requires
        0 <= p <= s.len(),
    ensures
        seq_usize_sum(s.insert(p, v)) == seq_usize_sum(s) + v,
    decreases s.len(),
{
    let t = s.insert(p, v);
    if p == s.len() {
        assert(t.drop_last() =~= s);
        assert(t.last() == v);
    } else {
        assert(t.drop_last() =~= s.drop_last().insert(p, v));
        assert(t.last() == s.last());
        lemma_seq_usize_sum_insert(s.drop_last(), p, v);
    }
}

/// No single count exceeds the total of all counts.
proof fn lemma_seq_usize_sum_element(s: Seq<usize>, i: int)
    requires
        0 <= i < s.len(),
    ensures
        s[i] <= seq_usize_sum(s),
    decreases s.len(),
{
    if i == s.len() - 1 {
        assert(s.last() == s[i]);
    } else {
        lemma_seq_usize_sum_element(s.drop_last(), i);
        assert(s.drop_last()[i] == s[i]);
    }
}

/// The minimum of a sample vector, if any.
pub fn vec_i64_min(v: &Vec<i64>) -> (r: Option<i64>)
    ensures
        r == seq_i64_min(v@),
{
    let n = v.len();
    let mut best: Option<i64> = None;
    proof {
        assert(v@.take(0) =~= Seq::<i64>::empty());
    }
    let mut i: usize = 0;
    while i < n
        invariant
            n == v@.len(),
            i <= n,
            best == seq_i64_min(v@.take(i as int)),
        decreases n - i,
    {
        proof {
            assert(v@.take(i + 1).drop_last() =~= v@.take(i as int));
            assert(v@.take(i + 1).last() == v@[i as int]);
        }
        let x = v[i];
        best = match best {
            None => Some(x),
            Some(m) => Some(
                if x < m {
                    x
                } else {
                    m
                },
            ),
        };
        i = i + 1;
    }
    proof {
        assert(v@.take(n as int) =~= v@);
    }
    best
}

/// The maximum of a sample vector, if any.
pub fn vec_i64_max(v: &Vec<i64>) -> (r: Option<i64>)
    ensures
        r == seq_i64_max(v@),
{
    let n = v.len();
    let mut best: Option<i64> = None;
    proof {
        assert(v@.take(0) =~= Seq::<i64>::empty());
    }
    let mut i: usize = 0;
    while i < n
        invariant
            n == v@.len(),
            i <= n,
            best == seq_i64_max(v@.take(i as int)),
        decreases n - i,
    {
        proof {
            assert(v@.take(i + 1).drop_last() =~= v@.take(i as int));
            assert(v@.take(i + 1).last() == v@[i as int]);
        }
        let x = v[i];
        best = match best {
            None => Some(x),
            Some(m) => Some(
                if x > m {
                    x
                } else {
                    m
                },
            ),
        };
        i = i + 1;
    }
    proof {
        assert(v@.take(n as int) =~= v@);
    }
    best
}

/// Whether replacing height `h` of one family with `new_len` samples and
/// `new_count` measurements keeps the family totals within the counter
/// width.
pub open spec fn family_fits(
    counts: HeightMap<usize>,
    times: HeightMap<Vec<i64>>,
    h: usize,
    new_len: nat,
    new_count: nat,
) -> bool {
    &&& seq_len_total(times.vals_seq()) - (if times.spec_contains(h) {
        times.spec_get(h)@.len() as int
    } else {
        0
    }) + new_len <= usize::MAX
    &&& seq_usize_sum(counts.vals_seq()) - (if counts.spec_contains(h) {
        counts.spec_get(h) as int
    } else {
        0
    }) + new_count <= usize::MAX
}

/// The relation between one family's accumulators before and after the
/// measurements of height `h` were (re)written.
pub open spec fn family_updated(
    old_totals: HeightMap<i128>,
    old_counts: HeightMap<usize>,
    old_times: HeightMap<Vec<i64>>,
    new_totals: HeightMap<i128>,
    new_counts: HeightMap<usize>,
    new_times: HeightMap<Vec<i64>>,
    h: usize,
    samples: Seq<i64>,
    count: nat,
) -> bool {
    &&& new_times.spec_contains(h) && new_times.spec_get(h)@ == samples
    &&& new_totals.spec_contains(h) && new_totals.spec_get(h) == seq_i64_sum(samples)
    &&& new_counts.spec_contains(h) && new_counts.spec_get(h) == count
    &&& forall|k2: usize|
        k2 != h && old_times.spec_contains(k2) ==> new_times.spec_contains(k2)
            && new_times.spec_get(k2) == old_times.spec_get(k2) && new_totals.spec_get(k2)
            == old_totals.spec_get(k2) && new_counts.spec_get(k2) == old_counts.spec_get(k2)
    &&& forall|k2: usize| #[trigger]
        new_times.spec_contains(k2) ==> k2 == h || old_times.spec_contains(k2)
    &&& new_totals.keys_view() == new_times.keys_view()
    &&& new_counts.keys_view() == new_times.keys_view()
    &&& new_times.spec_len() == old_times.spec_len() + (if old_times.spec_contains(h) {
        0int
    } else {
        1int
    })
}

/// Writes the measurements of height `h` into one family: the raw samples,
/// their sum, and the measurement count.
fn family_update(
    totals: &mut HeightMap<i128>,
    counts: &mut HeightMap<usize>,
    times: &mut HeightMap<Vec<i64>>,
    h: usize,
    samples: Vec<i64>,
    count: usize,
)
    requires
        family_wf(*old(totals), *old(counts), *old(times)),
        samples@.len() <= count,
        family_fits(*old(counts), *old(times), h, samples@.len(), count as nat),
    ensures
        family_wf(*final(totals), *final(counts), *final(times)),
        family_updated(
            *old(totals),
            *old(counts),
            *old(times),
            *final(totals),
            *final(counts),
            *final(times),
            h,
            samples@,
            count as nat,
        ),
{
    let n = samples.len();
    let mut total: i128 = 0;
    proof {
        assert(samples@.take(0) =~= Seq::<i64>::empty());
    }
    let mut i: usize = 0;
    while i < n
        invariant
            n == samples@.len(),
            i <= n,
            total == seq_i64_sum(samples@.take(i as int)),
            -((i as int) * 0x8000_0000_0000_0000) <= total <= (i as int) * (0x8000_0000_0000_0000
                - 1),
        decreases n - i,
    {
        proof {
            assert(samples@.take(i + 1).drop_last() =~= samples@.take(i as int));
            assert(samples@.take(i + 1).last() == samples@[i as int]);
        }
        total = total + samples[i] as i128;
        i = i + 1;
    }
    proof {
        assert(samples@.take(n as int) =~= samples@);
    }

    let ghost ok = old(times).keys_view();
    let ghost f = old(times).spec_find(h);
    let ghost p = crate::maps::lower_bound_pos(ok, h);
    let ghost slen = samples@.len();
    totals.insert(h, total);
    counts.insert(h, count);
    times.insert(h, samples);
    proof {
        crate::maps::lemma_lower_bound_range(ok, h);
        if old(times).spec_contains(h) {
            lemma_seq_len_total_update(old(times).vals_seq(), f, times.vals_seq()[f]);
            lemma_seq_usize_sum_update(old(counts).vals_seq(), f, count);
        } else {
            lemma_seq_len_total_insert(old(times).vals_seq(), p, times.vals_seq()[p]);
            lemma_seq_usize_sum_insert(old(counts).vals_seq(), p, count);
        }
        assert(seq_len_total(times.vals_seq()) <= u64::MAX);
        assert(seq_usize_sum(counts.vals_seq()) <= u64::MAX);
        assert(totals.keys_view() =~= times.keys_view());
        assert(counts.keys_view() =~= times.keys_view());
        assert forall|l: int|
            0 <= l < times.vals_seq().len() implies -((#[trigger] times.vals_seq()[l])@.len()
            * 0x8000_0000_0000_0000) <= totals.vals_seq()[l] <= times.vals_seq()[l]@.len() * (
        0x8000_0000_0000_0000 - 1) && times.vals_seq()[l]@.len() <= counts.vals_seq()[l] by {
            if old(times).spec_contains(h) {
                if l != f {
                    assert(times.vals_seq()[l] == old(times).vals_seq()[l]);
                    assert(totals.vals_seq()[l] == old(totals).vals_seq()[l]);
                    assert(counts.vals_seq()[l] == old(counts).vals_seq()[l]);
                }
            } else {
                if l < p {
                    assert(times.vals_seq()[l] == old(times).vals_seq()[l]);
                    assert(totals.vals_seq()[l] == old(totals).vals_seq()[l]);
                    assert(counts.vals_seq()[l] == old(counts).vals_seq()[l]);
                } else if l > p {
                    assert(times.vals_seq()[l] == old(times).vals_seq()[l - 1]);
                    assert(totals.vals_seq()[l] == old(totals).vals_seq()[l - 1]);
                    assert(counts.vals_seq()[l] == old(counts).vals_seq()[l - 1]);
                }
            }
        }
    }
}

/// The views of a chain map's block hashes.
pub open spec fn chain_views(chain: HeightMap<String>) -> Seq<Seq<char>> {
    chain.vals_seq().map_values(|t: String| t@)
}

/// Sum of the transaction counts of the blocks whose hash lies on the given
/// chain.
pub open spec fn spec_chain_tx_total(
    tx_keys: Seq<Seq<char>>,
    tx_vals: Seq<usize>,
    chain: Seq<Seq<char>>,
) -> nat
    decreases tx_keys.len(),
{
    if tx_keys.len() == 0 || tx_vals.len() == 0 {
        0
    } else {
        spec_chain_tx_total(tx_keys.drop_last(), tx_vals.drop_last(), chain) + (if chain.contains(
            tx_keys.last(),
        ) {
            tx_vals.last() as nat
        } else {
            0
        })
    }
}

/// A prefix of the transaction table never sums to more than the whole.
proof fn lemma_chain_tx_prefix(tx_keys: Seq<Seq<char>>, tx_vals: Seq<usize>, chain: Seq<Seq<char>>, k: int)
    requires
        tx_keys.len() == tx_vals.len(),
        0 <= k <= tx_keys.len(),
    ensures
        spec_chain_tx_total(tx_keys.take(k), tx_vals.take(k), chain) <= spec_chain_tx_total(
            tx_keys,
            tx_vals,
            chain,
        ),
    decreases tx_keys.len() - k,
{
    if k < tx_keys.len() {
        lemma_chain_tx_prefix(tx_keys, tx_vals, chain, k + 1);
        assert(tx_keys.take(k + 1).drop_last() =~= tx_keys.take(k));
        assert(tx_vals.take(k + 1).drop_last() =~= tx_vals.take(k));
        assert(tx_keys.take(k + 1).last() == tx_keys[k]);
        assert(tx_vals.take(k + 1).last() == tx_vals[k]);
    } else {
        assert(tx_keys.take(k) =~= tx_keys);
        assert(tx_vals.take(k) =~= tx_vals);
    }
}

/// The keys of the per-block transaction table after folding in the pairs
/// `(txk, txv)`.
pub open spec fn fold_tx_keys(old_keys: Seq<Seq<char>>, txk: Seq<Seq<char>>) -> Seq<Seq<char>>
    decreases txk.len(),
{
    if txk.len() == 0 {
        old_keys
    } else {
        crate::maps::tag_insert_keys(fold_tx_keys(old_keys, txk.drop_last()), txk.last())
    }
}

/// The values of the per-block transaction table after folding in the pairs
/// `(txk, txv)`.
pub open spec fn fold_tx_vals(
    old_keys: Seq<Seq<char>>,
    old_vals: Seq<usize>,
    txk: Seq<Seq<char>>,
    txv: Seq<usize>,
) -> Seq<usize>
    decreases txk.len(),
{
    if txk.len() == 0 || txv.len() == 0 {
        old_vals
    } else {
        crate::maps::tag_insert_vals(
            fold_tx_keys(old_keys, txk.drop_last()),
            fold_tx_vals(old_keys, old_vals, txk.drop_last(), txv.drop_last()),
            txk.last(),
            txv.last(),
        )
    }
}


/// Build pipeline metadata of one CI build.
#[derive(Debug, Clone)]
pub struct BuildInfo {
    pub number: usize,
    pub after: String,
    pub status: String,
    pub started: u64,
    pub message: String,
    pub source: String,
}

impl BuildInfo {
    /// Empty metadata, used before the first poll answers.
    pub fn new() -> (r: Self)
        ensures
            r.number == 0,
            r.after@ == Seq::<char>::empty(),
            r.status@ == Seq::<char>::empty(),
            r.started == 0,
            r.message@ == Seq::<char>::empty(),
            r.source@ == Seq::<char>::empty(),
    {
        BuildInfo {
            number: 0,
            after: String::new(),
            status: String::new(),
            started: 0,
            message: String::new(),
            source: String::new(),
        }
    }
}

/// One step of a CI build stage.
#[derive(Debug, Clone)]
pub struct StepInfo {
    pub name: String,
    pub number: usize,
    pub status: String,
}

/// One stage of a CI build.
#[derive(Debug, Clone)]
pub struct StageInfo {
    pub name: String,
    pub number: usize,
    pub status: String,
    pub steps: Option<Vec<StepInfo>>,
}

/// A CI build with its stages expanded.
#[derive(Debug, Clone)]
pub struct BuildInfoExpanded {
    pub status: String,
    pub stages: Vec<StageInfo>,
}

/// Everything the engine accumulates for one CI build.
#[derive(Debug, Clone)]
pub struct BuildStorage {
    pub ipc_storage: HeightMap<TagMap<CpnpBlockPublication>>,
    pub trace_storage: HeightMap<AggregatedBlockTraces>,
    pub cross_validation_storage: HeightMap<TagMap<ValidationReport>>,
    pub build_info: BuildInfo,
    pub build_summary: BuildSummary,
    pub helpers: BuildSummaryHelpers,
    pub block_summaries: TagMap<BlockSummary>,
    pub best_chain: HeightMap<String>,
}

/// The persisted snapshot of one build's storage.  The propagation graphs
/// are derived data and are not persisted; everything else is.
#[derive(Debug, Clone)]
pub struct BuildStorageDump {
    pub ipc_storage: HeightMap<TagMap<CpnpBlockPublication>>,
    pub trace_storage: HeightMap<AggregatedBlockTraces>,
    pub cross_validation_storage: HeightMap<TagMap<ValidationReport>>,
    pub build_info: BuildInfo,
    pub build_summary: BuildSummary,
    pub helpers: BuildSummaryHelpers,
    pub block_summaries: TagMap<BlockSummary>,
    pub best_chain: HeightMap<String>,
}

impl BuildStorage {
    /// Well-formedness of every constituent map.
    pub open spec fn wf(&self) -> bool {
        &&& self.ipc_storage.wf()
        &&& self.trace_storage.wf()
        &&& self.cross_validation_storage.wf()
        &&& self.helpers.wf()
        &&& self.block_summaries.wf()
        &&& self.best_chain.wf()
    }

    /// Creates the empty storage of a freshly detected build.
    pub fn new() -> (r: Self)
        ensures
            r.wf(),
            r.ipc_storage.spec_len() == 0,
            r.trace_storage.spec_len() == 0,
            r.cross_validation_storage.spec_len() == 0,
            r.block_summaries.spec_len() == 0,
            r.best_chain.spec_len() == 0,
            r.helpers.application_times.spec_len() == 0,
            r.helpers.tx_count_per_block.spec_len() == 0,
            r.build_summary.block_count == 0,
            r.build_summary.tx_count == 0,
            r.build_summary.block_application_min is None,
            r.build_summary.block_application_max is None,
            r.build_summary.block_production_min is None,
            r.build_summary.block_production_max is None,
            r.build_summary.receive_latency_min is None,
            r.build_summary.receive_latency_max is None,
            r.build_summary.request_count == 0,
            r.build_summary.request_timeout_count == 0,
    {
        BuildStorage {
            ipc_storage: HeightMap::new(),
            trace_storage: HeightMap::new(),
            cross_validation_storage: HeightMap::new(),
            build_info: BuildInfo::new(),
            build_summary: BuildSummary::new(),
            block_summaries: TagMap::new(),
            helpers: BuildSummaryHelpers::new(),
            best_chain: HeightMap::new(),
        }
    }

    /// Stores one cycle's aggregation outputs under their height.
    pub fn store_data(
        &mut self,
        height: usize,
        traces: AggregatedBlockTraces,
        ipc_data: TagMap<CpnpBlockPublication>,
        cross_validation_report: TagMap<ValidationReport>,
    )
        requires
            old(self).wf(),
            traces.wf(),
            ipc_data.wf(),
            cross_validation_report.wf(),
        ensures
            final(self).wf(),
            final(self).trace_storage.spec_contains(height),
            final(self).trace_storage.spec_get(height) == traces,
            final(self).ipc_storage.spec_contains(height),
            final(self).ipc_storage.spec_get(height) == ipc_data,
            final(self).cross_validation_storage.spec_contains(height),
            final(self).cross_validation_storage.spec_get(height) == cross_validation_report,
            forall|h2: usize|
                h2 != height && old(self).trace_storage.spec_contains(h2) ==> final(self).trace_storage.spec_contains(h2) && final(self).trace_storage.spec_get(h2) == old(
                    self,
                ).trace_storage.spec_get(h2),
            forall|h2: usize|
                h2 != height && old(self).ipc_storage.spec_contains(h2) ==> final(self).ipc_storage.spec_contains(h2) && final(self).ipc_storage.spec_get(h2) == old(
                    self,
                ).ipc_storage.spec_get(h2),
            forall|h2: usize|
                h2 != height && old(self).cross_validation_storage.spec_contains(h2) ==> final(self).cross_validation_storage.spec_contains(h2) && final(self).cross_validation_storage.spec_get(h2) == old(
                    self,
                ).cross_validation_storage.spec_get(h2),
            final(self).build_info == old(self).build_info,
            final(self).build_summary == old(self).build_summary,
            final(self).helpers == old(self).helpers,
            final(self).block_summaries == old(self).block_summaries,
            final(self).best_chain == old(self).best_chain,
    {
        self.trace_storage.insert(height, traces);
        self.ipc_storage.insert(height, ipc_data);
        self.cross_validation_storage.insert(height, cross_validation_report);
    }

    /// Whether the counters and accumulators can absorb one more cycle's
    /// measurements without exceeding their widths.
    pub open spec fn spec_update_fits(
        &self,
        height: usize,
        bt: AggregatedBlockTraces,
        stats: RequestStats,
    ) -> bool {
        let btv = bt.inner.vals_seq();
        let app = blocks_app_times(btv);
        let prod = blocks_prod_times(btv);
        let recv = blocks_recv_latencies(btv);
        let appc = blocks_nonproducer_count(btv);
        let prodc = blocks_producer_count(btv);
        let txk = blocks_tx_keys(bt.inner.keys_view(), btv);
        let txv = blocks_tx_vals(btv);
        &&& family_fits(
            self.helpers.application_avg_total_count,
            self.helpers.application_times,
            height,
            app.len(),
            appc,
        )
        &&& family_fits(
            self.helpers.production_avg_total_count,
            self.helpers.production_times,
            height,
            prod.len(),
            prodc,
        )
        &&& family_fits(
            self.helpers.receive_latencies_avg_total_count,
            self.helpers.receive_latencies,
            height,
            recv.len(),
            appc,
        )
        &&& seq_usize_sum(self.helpers.block_count_per_height.vals_seq()) - (
        if self.helpers.block_count_per_height.spec_contains(height) {
            self.helpers.block_count_per_height.spec_get(height) as int
        } else {
            0
        }) + btv.len() <= usize::MAX
        &&& self.build_summary.request_count + stats.request_count <= usize::MAX
        &&& self.build_summary.request_timeout_count + stats.request_timeout_count <= usize::MAX
        &&& self.helpers.application_times.spec_len() + 3 <= usize::MAX
        &&& spec_chain_tx_total(
            fold_tx_keys(self.helpers.tx_count_per_block.keys_view(), txk),
            fold_tx_vals(
                self.helpers.tx_count_per_block.keys_view(),
                self.helpers.tx_count_per_block.vals_seq(),
                txk,
                txv,
            ),
            chain_views(self.best_chain),
        ) <= usize::MAX
    }

    /// Merges one polling cycle's block reports for `height` into the
    /// rollup: per-block summaries and transaction counts, the per-height
    /// accumulator families, the canonical-chain-filtered transaction total,
    /// the block counts, and the running extremes and averages.
    pub fn update_summary(
        &mut self,
        height: usize,
        block_traces: &AggregatedBlockTraces,
        request_stats: RequestStats,
    )
        requires
            old(self).wf(),
            block_traces.wf(),
            old(self).spec_update_fits(height, *block_traces, request_stats),
        ensures
            final(self).wf(),
            // collections of other cycles and the build identity are untouched
            final(self).ipc_storage == old(self).ipc_storage,
            final(self).trace_storage == old(self).trace_storage,
            final(self).cross_validation_storage == old(self).cross_validation_storage,
            final(self).build_info == old(self).build_info,
            final(self).best_chain == old(self).best_chain,
            // per-block summaries extended with this cycle's blocks
            forall|b: int|
                0 <= b < block_traces.inner.keys_view().len() ==> final(self).block_summaries.spec_contains(#[trigger] block_traces.inner.keys_view()[b])
                    && spec_block_summary_ok(
                    final(self).block_summaries.spec_get(block_traces.inner.keys_view()[b]),
                    block_traces.inner.keys_view()[b],
                    height,
                    block_traces.inner.vals_seq()[b]@,
                ),
            forall|k2: Seq<char>|
                !block_traces.inner.keys_view().contains(k2) ==> ((#[trigger] final(self).block_summaries.spec_contains(k2)) <==> old(self).block_summaries.spec_contains(
                    k2,
                )) && (old(self).block_summaries.spec_contains(k2) ==> final(self).block_summaries.spec_get(k2) == old(self).block_summaries.spec_get(k2)),
            // per-block transaction counts folded in
            final(self).helpers.tx_count_per_block.keys_view() == fold_tx_keys(
                old(self).helpers.tx_count_per_block.keys_view(),
                blocks_tx_keys(block_traces.inner.keys_view(), block_traces.inner.vals_seq()),
            ),
            final(self).helpers.tx_count_per_block.vals_seq() == fold_tx_vals(
                old(self).helpers.tx_count_per_block.keys_view(),
                old(self).helpers.tx_count_per_block.vals_seq(),
                blocks_tx_keys(block_traces.inner.keys_view(), block_traces.inner.vals_seq()),
                blocks_tx_vals(block_traces.inner.vals_seq()),
            ),
            // request statistics accumulate
            final(self).build_summary.request_count == old(self).build_summary.request_count
                + request_stats.request_count,
            final(self).build_summary.request_timeout_count == old(
                self,
            ).build_summary.request_timeout_count + request_stats.request_timeout_count,
            // the canonical-chain-filtered transaction total (a losing fork
            // never inflates it)
            final(self).build_summary.tx_count == spec_chain_tx_total(
                final(self).helpers.tx_count_per_block.keys_view(),
                final(self).helpers.tx_count_per_block.vals_seq(),
                chain_views(old(self).best_chain),
            ),
            // the three accumulator families absorb this height's samples
            family_updated(
                old(self).helpers.application_total,
                old(self).helpers.application_avg_total_count,
                old(self).helpers.application_times,
                final(self).helpers.application_total,
                final(self).helpers.application_avg_total_count,
                final(self).helpers.application_times,
                height,
                blocks_app_times(block_traces.inner.vals_seq()),
                blocks_nonproducer_count(block_traces.inner.vals_seq()),
            ),
            family_updated(
                old(self).helpers.production_total,
                old(self).helpers.production_avg_total_count,
                old(self).helpers.production_times,
                final(self).helpers.production_total,
                final(self).helpers.production_avg_total_count,
                final(self).helpers.production_times,
                height,
                blocks_prod_times(block_traces.inner.vals_seq()),
                blocks_producer_count(block_traces.inner.vals_seq()),
            ),
            family_updated(
                old(self).helpers.receive_latencies_total,
                old(self).helpers.receive_latencies_avg_total_count,
                old(self).helpers.receive_latencies,
                final(self).helpers.receive_latencies_total,
                final(self).helpers.receive_latencies_avg_total_count,
                final(self).helpers.receive_latencies,
                height,
                blocks_recv_latencies(block_traces.inner.vals_seq()),
                blocks_nonproducer_count(block_traces.inner.vals_seq()),
            ),
            // block counts
            final(self).helpers.block_count_per_height.spec_contains(height),
            final(self).helpers.block_count_per_height.spec_get(height)
                == block_traces.inner.spec_len(),
            forall|h2: usize|
                h2 != height && old(self).helpers.block_count_per_height.spec_contains(h2)
                    ==> final(self).helpers.block_count_per_height.spec_contains(h2) && final(self).helpers.block_count_per_height.spec_get(h2) == old(
                    self,
                ).helpers.block_count_per_height.spec_get(h2),
            final(self).build_summary.block_count == seq_usize_sum(
                final(self).helpers.block_count_per_height.vals_seq(),
            ),
            final(self).build_summary.cannonical_block_count == final(self).helpers.application_total.spec_len() + 2,
            // running extremes
            final(self).build_summary.block_application_min == merge_min(
                old(self).build_summary.block_application_min,
                seq_i64_min(blocks_app_times(block_traces.inner.vals_seq())),
            ),
            final(self).build_summary.block_application_max == merge_max(
                old(self).build_summary.block_application_max,
                seq_i64_max(blocks_app_times(block_traces.inner.vals_seq())),
            ),
            final(self).build_summary.block_production_min == merge_min(
                old(self).build_summary.block_production_min,
                seq_i64_min(blocks_prod_times(block_traces.inner.vals_seq())),
            ),
            final(self).build_summary.block_production_max == merge_max(
                old(self).build_summary.block_production_max,
                seq_i64_max(blocks_prod_times(block_traces.inner.vals_seq())),
            ),
            final(self).build_summary.receive_latency_min == merge_min(
                old(self).build_summary.receive_latency_min,
                seq_i64_min(blocks_recv_latencies(block_traces.inner.vals_seq())),
            ),
            final(self).build_summary.receive_latency_max == merge_max(
                old(self).build_summary.receive_latency_max,
                seq_i64_max(blocks_recv_latencies(block_traces.inner.vals_seq())),
            ),
            // streaming averages over the updated accumulators
            final(self).build_summary.block_application_avg == spec_family_average(
                final(self).helpers.application_total.vals_seq(),
                final(self).helpers.application_avg_total_count.vals_seq(),
            ),
            final(self).build_summary.block_production_avg == spec_family_average(
                final(self).helpers.production_total.vals_seq(),
                final(self).helpers.production_avg_total_count.vals_seq(),
            ),
            final(self).build_summary.receive_latency_avg == spec_family_average(
                final(self).helpers.receive_latencies_total.vals_seq(),
                final(self).helpers.receive_latencies_avg_total_count.vals_seq(),
            ),
            // everything else of the summary is untouched
            final(self).build_summary.application_times == old(
                self,
            ).build_summary.application_times,
            final(self).build_summary.production_times == old(self).build_summary.production_times,
            final(self).build_summary.receive_latencies == old(
                self,
            ).build_summary.receive_latencies,
            final(self).build_summary.application_times_previous == old(
                self,
            ).build_summary.application_times_previous,
            final(self).build_summary.production_times_previous == old(
                self,
            ).build_summary.production_times_previous,
            final(self).build_summary.receive_latencies_previous == old(
                self,
            ).build_summary.receive_latencies_previous,
            final(self).build_summary.block_application_min_delta == old(
                self,
            ).build_summary.block_application_min_delta,
            final(self).build_summary.block_application_avg_delta == old(
                self,
            ).build_summary.block_application_avg_delta,
            final(self).build_summary.block_application_max_delta == old(
                self,
            ).build_summary.block_application_max_delta,
            final(self).build_summary.block_production_min_delta == old(
                self,
            ).build_summary.block_production_min_delta,
            final(self).build_summary.block_production_avg_delta == old(
                self,
            ).build_summary.block_production_avg_delta,
            final(self).build_summary.block_production_max_delta == old(
                self,
            ).build_summary.block_production_max_delta,
            final(self).build_summary.receive_latency_min_delta == old(
                self,
            ).build_summary.receive_latency_min_delta,
            final(self).build_summary.receive_latency_avg_delta == old(
                self,
            ).build_summary.receive_latency_avg_delta,
            final(self).build_summary.receive_latency_max_delta == old(
                self,
            ).build_summary.receive_latency_max_delta,
            final(self).build_summary.block_application_regression == old(
                self,
            ).build_summary.block_application_regression,
            final(self).build_summary.block_production_regression == old(
                self,
            ).build_summary.block_production_regression,
            final(self).build_summary.receive_latency_regression == old(
                self,
            ).build_summary.receive_latency_regression,
    {
        let ghost btk = block_traces.inner.keys_view();
        let ghost btv = block_traces.inner.vals_seq();

        // per-block summaries
        let summaries = block_traces.block_summaries(height);
        let sn = summaries.len();
        proof {
            assert(btk.take(0) =~= Seq::<Seq<char>>::empty());
            crate::block_traces::lemma_block_keys_unique(*block_traces);
        }
        let mut b: usize = 0;
        while b < sn
            invariant
                block_traces.wf(),
                btk == block_traces.inner.keys_view(),
                btv == block_traces.inner.vals_seq(),
                summaries.wf(),
                summaries.keys_view() == btk,
                summaries.vals_seq().len() == btk.len(),
                forall|l: int|
                    0 <= l < btk.len() ==> spec_block_summary_ok(
                        #[trigger] summaries.vals_seq()[l],
                        btk[l],
                        height,
                        btv[l]@,
                    ),
                forall|a: int, c: int| 0 <= a < c < btk.len() ==> btk[a] != btk[c],
                sn == btk.len(),
                b <= sn,
                self.block_summaries.wf(),
                forall|l: int|
                    0 <= l < b ==> self.block_summaries.spec_contains(#[trigger] btk[l])
                        && spec_block_summary_ok(
                        self.block_summaries.spec_get(btk[l]),
                        btk[l],
                        height,
                        btv[l]@,
                    ),
                forall|k2: Seq<char>|
                    !btk.contains(k2) ==> ((#[trigger] self.block_summaries.spec_contains(k2))
                        <==> old(self).block_summaries.spec_contains(k2)) && (old(
                        self,
                    ).block_summaries.spec_contains(k2) ==> self.block_summaries.spec_get(k2)
                        == old(self).block_summaries.spec_get(k2)),
                self.ipc_storage == old(self).ipc_storage,
                self.trace_storage == old(self).trace_storage,
                self.cross_validation_storage == old(self).cross_validation_storage,
                self.build_info == old(self).build_info,
                self.best_chain == old(self).best_chain,
                self.build_summary == old(self).build_summary,
                self.helpers == old(self).helpers,
            decreases sn - b,
        {
            let key: String = summaries.key_at(b).clone();
            let entry: BlockSummary = clone_block_summary(summaries.val_at(b));
            proof {
                assert(key@ == btk[b as int]);
                assert(spec_block_summary_ok(entry, btk[b as int], height, btv[b as int]@));
            }
            self.block_summaries.insert(key, entry);
            proof {
                assert forall|k2: Seq<char>|
                    !btk.contains(k2) implies ((#[trigger] self.block_summaries.spec_contains(
                    k2,
                )) <==> old(self).block_summaries.spec_contains(k2)) && (old(
                    self,
                ).block_summaries.spec_contains(k2) ==> self.block_summaries.spec_get(k2) == old(
                    self,
                ).block_summaries.spec_get(k2)) by {
                    assert(k2 != btk[b as int]) by {
                        if k2 == btk[b as int] {
                            assert(btk.contains(k2));
                        }
                    }
                }
                assert forall|l: int|
                    0 <= l < b + 1 implies self.block_summaries.spec_contains(#[trigger] btk[l])
                    && spec_block_summary_ok(
                    self.block_summaries.spec_get(btk[l]),
                    btk[l],
                    height,
                    btv[l]@,
                ) by {
                    if l < b {
                        assert(btk[l] != btk[b as int]);
                    }
                }
            }
            b = b + 1;
        }
        proof {
            assert(btk.take(sn as int) =~= btk);
        }

        // per-block transaction counts
        let tx_pairs = block_traces.transaction_count_per_block();
        let ghost txk = blocks_tx_keys(btk, btv);
        let ghost txv = blocks_tx_vals(btv);
        let tn = tx_pairs.len();
        proof {
            assert(txk.take(0) =~= Seq::<Seq<char>>::empty());
            assert(txv.take(0) =~= Seq::<usize>::empty());
            assert(fold_tx_keys(old(self).helpers.tx_count_per_block.keys_view(), txk.take(0))
                == old(self).helpers.tx_count_per_block.keys_view());
            assert(fold_tx_vals(
                old(self).helpers.tx_count_per_block.keys_view(),
                old(self).helpers.tx_count_per_block.vals_seq(),
                txk.take(0),
                txv.take(0),
            ) == old(self).helpers.tx_count_per_block.vals_seq());
            crate::block_traces::lemma_tx_pairs_len(btk, btv);
        }
        let mut t: usize = 0;
        while t < tn
            invariant
                block_traces.wf(),
                btk == block_traces.inner.keys_view(),
                btv == block_traces.inner.vals_seq(),
                tx_pairs.wf(),
                tx_pairs.keys_view() == txk,
                tx_pairs.vals_seq() == txv,
                txk.len() == txv.len(),
                tn == txk.len(),
                t <= tn,
                self.helpers.tx_count_per_block.wf(),
                self.helpers.tx_count_per_block.keys_view() == fold_tx_keys(
                    old(self).helpers.tx_count_per_block.keys_view(),
                    txk.take(t as int),
                ),
                self.helpers.tx_count_per_block.vals_seq() == fold_tx_vals(
                    old(self).helpers.tx_count_per_block.keys_view(),
                    old(self).helpers.tx_count_per_block.vals_seq(),
                    txk.take(t as int),
                    txv.take(t as int),
                ),
                self.helpers.application_avg_total_count == old(
                    self,
                ).helpers.application_avg_total_count,
                self.helpers.application_total == old(self).helpers.application_total,
                self.helpers.application_times == old(self).helpers.application_times,
                self.helpers.production_avg_total_count == old(
                    self,
                ).helpers.production_avg_total_count,
                self.helpers.production_total == old(self).helpers.production_total,
                self.helpers.production_times == old(self).helpers.production_times,
                self.helpers.receive_latencies_avg_total_count == old(
                    self,
                ).helpers.receive_latencies_avg_total_count,
                self.helpers.receive_latencies_total == old(self).helpers.receive_latencies_total,
                self.helpers.receive_latencies == old(self).helpers.receive_latencies,
                self.helpers.block_count_per_height == old(self).helpers.block_count_per_height,
                self.ipc_storage == old(self).ipc_storage,
                self.trace_storage == old(self).trace_storage,
                self.cross_validation_storage == old(self).cross_validation_storage,
                self.build_info == old(self).build_info,
                self.best_chain == old(self).best_chain,
                self.build_summary == old(self).build_summary,
                self.block_summaries.wf(),
                forall|l: int|
                    0 <= l < btk.len() ==> self.block_summaries.spec_contains(#[trigger] btk[l])
                        && spec_block_summary_ok(
                        self.block_summaries.spec_get(btk[l]),
                        btk[l],
                        height,
                        btv[l]@,
                    ),
                forall|k2: Seq<char>|
                    !btk.contains(k2) ==> ((#[trigger] self.block_summaries.spec_contains(k2))
                        <==> old(self).block_summaries.spec_contains(k2)) && (old(
                        self,
                    ).block_summaries.spec_contains(k2) ==> self.block_summaries.spec_get(k2)
                        == old(self).block_summaries.spec_get(k2)),
            decreases tn - t,
        {
            proof {
                assert(txk.take(t + 1).drop_last() =~= txk.take(t as int));
                assert(txk.take(t + 1).last() == txk[t as int]);
                assert(txv.take(t + 1).drop_last() =~= txv.take(t as int));
                assert(txv.take(t + 1).last() == txv[t as int]);
            }
            let key: String = tx_pairs.key_at(t).clone();
            let value: usize = *tx_pairs.val_at(t);
            self.helpers.tx_count_per_block.insert(key, value);
            t = t + 1;
        }
        proof {
            assert(txk.take(tn as int) =~= txk);
            assert(txv.take(tn as int) =~= txv);
        }

        // request statistics
        self.build_summary.request_count = self.build_summary.request_count
            + request_stats.request_count;
        self.build_summary.request_timeout_count = self.build_summary.request_timeout_count
            + request_stats.request_timeout_count;

        // canonical-chain-filtered transaction total
        self.build_summary.tx_count = chain_tx_total(
            &self.helpers.tx_count_per_block,
            &self.best_chain,
        );

        // the three accumulator families
        let application_times = block_traces.application_times();
        let production_times = block_traces.production_times();
        let receive_latencies = block_traces.receive_latencies();
        proof {
            let ac = old(self).helpers.application_avg_total_count;
            if ac.spec_contains(height) {
                crate::maps::lemma_find_first(ac.keys_view(), height);
                lemma_seq_usize_sum_element(ac.vals_seq(), ac.spec_find(height));
            }
            let pc = old(self).helpers.production_avg_total_count;
            if pc.spec_contains(height) {
                crate::maps::lemma_find_first(pc.keys_view(), height);
                lemma_seq_usize_sum_element(pc.vals_seq(), pc.spec_find(height));
            }
            assert(blocks_nonproducer_count(btv) <= usize::MAX);
            assert(blocks_producer_count(btv) <= usize::MAX);
        }
        let application_measurement_count = block_traces.appliaction_count();
        let production_measurement_count = block_traces.production_count();

        let app_min = vec_i64_min(&application_times);
        let app_max = vec_i64_max(&application_times);
        let prod_min = vec_i64_min(&production_times);
        let prod_max = vec_i64_max(&production_times);
        let recv_min = vec_i64_min(&receive_latencies);
        let recv_max = vec_i64_max(&receive_latencies);

        proof {
            crate::block_traces::lemma_app_times_le_count(btv);
            crate::block_traces::lemma_prod_times_le_count(btv);
            crate::block_traces::lemma_recv_latencies_le_count(btv);
        }
        family_update(
            &mut self.helpers.application_total,
            &mut self.helpers.application_avg_total_count,
            &mut self.helpers.application_times,
            height,
            application_times,
            application_measurement_count,
        );
        family_update(
            &mut self.helpers.production_total,
            &mut self.helpers.production_avg_total_count,
            &mut self.helpers.production_times,
            height,
            production_times,
            production_measurement_count,
        );
        family_update(
            &mut self.helpers.receive_latencies_total,
            &mut self.helpers.receive_latencies_avg_total_count,
            &mut self.helpers.receive_latencies,
            height,
            receive_latencies,
            application_measurement_count,
        );

        // block counts
        let unique_blocks = block_traces.unique_block_count();
        let ghost obc = self.helpers.block_count_per_height;
        self.helpers.block_count_per_height.insert(height, unique_blocks);
        proof {
            crate::maps::lemma_lower_bound_range(obc.keys_view(), height);
            if obc.spec_contains(height) {
                lemma_seq_usize_sum_update(obc.vals_seq(), obc.spec_find(height), unique_blocks);
            } else {
                lemma_seq_usize_sum_insert(
                    obc.vals_seq(),
                    crate::maps::lower_bound_pos(obc.keys_view(), height),
                    unique_blocks,
                );
            }
            assert(seq_usize_sum(self.helpers.block_count_per_height.vals_seq()) <= usize::MAX);
        }
        self.build_summary.block_count = block_count_total(&self.helpers.block_count_per_height);
        self.build_summary.cannonical_block_count = self.helpers.application_total.len() + 2;

        // running extremes
        self.build_summary.block_application_min = merge_min_exec(
            self.build_summary.block_application_min,
            app_min,
        );
        self.build_summary.block_application_max = merge_max_exec(
            self.build_summary.block_application_max,
            app_max,
        );
        self.build_summary.block_production_min = merge_min_exec(
            self.build_summary.block_production_min,
            prod_min,
        );
        self.build_summary.block_production_max = merge_max_exec(
            self.build_summary.block_production_max,
            prod_max,
        );
        self.build_summary.receive_latency_min = merge_min_exec(
            self.build_summary.receive_latency_min,
            recv_min,
        );
        self.build_summary.receive_latency_max = merge_max_exec(
            self.build_summary.receive_latency_max,
            recv_max,
        );

        // streaming averages
        self.build_summary.block_application_avg = self.helpers.get_application_average();
        self.build_summary.block_production_avg = self.helpers.get_production_average();
        self.build_summary.receive_latency_avg = self.helpers.get_latencies_average();
    }
}

/// The executable counterpart of `merge_min`.
fn merge_min_exec(old_v: Option<i64>, new_v: Option<i64>) -> (r: Option<i64>)
    ensures
        r == merge_min(old_v, new_v),
{
    match (old_v, new_v) {
        (None, None) => None,
        (None, Some(m)) => Some(m),
        (Some(o), None) => Some(o),
        (Some(o), Some(m)) => Some(
            if m < o {
                m
            } else {
                o
            },
        ),
    }
}

/// The executable counterpart of `merge_max`.
fn merge_max_exec(old_v: Option<i64>, new_v: Option<i64>) -> (r: Option<i64>)
    ensures
        r == merge_max(old_v, new_v),
{
    match (old_v, new_v) {
        (None, None) => None,
        (None, Some(m)) => Some(m),
        (Some(o), None) => Some(o),
        (Some(o), Some(m)) => Some(
            if m > o {
                m
            } else {
                o
            },
        ),
    }
}

/// Clones a block summary field by field, so that the copy provably carries
/// the same view.
fn clone_block_summary(s: &BlockSummary) -> (r: BlockSummary)
    ensures
        r.height == s.height,
        r.block_hash@ == s.block_hash@,
        crate::block_traces::opt_str_view(r.global_slot) == crate::block_traces::opt_str_view(
            s.global_slot,
        ),
        r.tx_count == s.tx_count,
        r.max_receive_latency == s.max_receive_latency,
        r.date_time == s.date_time,
        crate::block_traces::opt_str_view(r.block_producer) == crate::block_traces::opt_str_view(
            s.block_producer,
        ),
        r.block_producer_nodes@.map_values(|t: String| t@) == s.block_producer_nodes@.map_values(
            |t: String| t@,
        ),
        r.peer_timings@.len() == s.peer_timings@.len(),
        forall|i: int|
            0 <= i < s.peer_timings@.len() ==> (#[trigger] r.peer_timings@[i]).node@
                == s.peer_timings@[i].node@ && r.peer_timings@[i].block_processing_time
                == s.peer_timings@[i].block_processing_time && r.peer_timings@[i].receive_latency
                == s.peer_timings@[i].receive_latency,
{
    let mut nodes: Vec<String> = Vec::new();
    let mut i: usize = 0;
    while i < s.block_producer_nodes.len()
        invariant
            i <= s.block_producer_nodes@.len(),
            nodes@.len() == i,
            forall|j: int| 0 <= j < i ==> (#[trigger] nodes@[j])@ == s.block_producer_nodes@[j]@,
        decreases s.block_producer_nodes@.len() - i,
    {
        nodes.push(s.block_producer_nodes[i].clone());
        i = i + 1;
    }
    proof {
        assert(nodes@.map_values(|t: String| t@) =~= s.block_producer_nodes@.map_values(
            |t: String| t@,
        ));
    }
    let mut timings: Vec<PeerTiming> = Vec::new();
    let mut i: usize = 0;
    while i < s.peer_timings.len()
        invariant
            i <= s.peer_timings@.len(),
            timings@.len() == i,
            forall|j: int|
                0 <= j < i ==> (#[trigger] timings@[j]).node@ == s.peer_timings@[j].node@
                    && timings@[j].block_processing_time == s.peer_timings@[j].block_processing_time
                    && timings@[j].receive_latency == s.peer_timings@[j].receive_latency,
        decreases s.peer_timings@.len() - i,
    {
        let pt = &s.peer_timings[i];
        timings.push(
            PeerTiming {
                node: pt.node.clone(),
                block_processing_time: pt.block_processing_time,
                receive_latency: pt.receive_latency,
            },
        );
        i = i + 1;
    }
    BlockSummary {
        height: s.height,
        block_hash: s.block_hash.clone(),
        global_slot: match &s.global_slot {
            Some(g) => Some(g.clone()),
            None => None,
        },
        tx_count: s.tx_count,
        max_receive_latency: s.max_receive_latency,
        date_time: s.date_time,
        block_producer: match &s.block_producer {
            Some(g) => Some(g.clone()),
            None => None,
        },
        block_producer_nodes: nodes,
        peer_timings: timings,
    }
}

/// Whether the chain holds the block hash `k`.
fn chain_contains(chain: &HeightMap<String>, k: &String) -> (r: bool)
    requires
        chain.wf(),
    ensures
        r == chain_views(*chain).contains(k@),
{
    let n = chain.len();
    let mut i: usize = 0;
    while i < n
        invariant
            chain.wf(),
            n == chain.spec_len(),
            i <= n,
            forall|j: int| 0 <= j < i ==> chain_views(*chain)[j] != k@,
        decreases n - i,
    {
        if chain.val_at(i).eq(k) {
            proof {
                assert(chain_views(*chain)[i as int] == k@);
            }
            return true;
        }
        i = i + 1;
    }
    proof {
        if chain_views(*chain).contains(k@) {
            let j = choose|j: int| 0 <= j < n && chain_views(*chain)[j] == k@;
            assert(chain_views(*chain)[j] != k@);
        }
    }
    false
}

/// Sums the transaction counts of the blocks whose hash lies on the chain.
fn chain_tx_total(tx: &TagMap<usize>, chain: &HeightMap<String>) -> (r: usize)
    requires
        tx.wf(),
        chain.wf(),
        spec_chain_tx_total(tx.keys_view(), tx.vals_seq(), chain_views(*chain)) <= usize::MAX,
    ensures
        r == spec_chain_tx_total(tx.keys_view(), tx.vals_seq(), chain_views(*chain)),
{
    let n = tx.len();
    let ghost tk = tx.keys_view();
    let ghost tv = tx.vals_seq();
    let ghost cv = chain_views(*chain);
    proof {
        assert(tk.take(0) =~= Seq::<Seq<char>>::empty());
        assert(tv.take(0) =~= Seq::<usize>::empty());
    }
    let mut total: usize = 0;
    let mut i: usize = 0;
    while i < n
        invariant
            tx.wf(),
            chain.wf(),
            tk == tx.keys_view(),
            tv == tx.vals_seq(),
            cv == chain_views(*chain),
            spec_chain_tx_total(tk, tv, cv) <= usize::MAX,
            n == tk.len(),
            i <= n,
            total == spec_chain_tx_total(tk.take(i as int), tv.take(i as int), cv),
        decreases n - i,
    {
        proof {
            assert(tk.take(i + 1).drop_last() =~= tk.take(i as int));
            assert(tk.take(i + 1).last() == tk[i as int]);
            assert(tv.take(i + 1).drop_last() =~= tv.take(i as int));
            assert(tv.take(i + 1).last() == tv[i as int]);
            lemma_chain_tx_prefix(tk, tv, cv, i + 1);
        }
        if chain_contains(chain, tx.key_at(i)) {
            total = total + *tx.val_at(i);
        }
        i = i + 1;
    }
    proof {
        assert(tk.take(n as int) =~= tk);
        assert(tv.take(n as int) =~= tv);
    }
    total
}

/// Sums the per-height block counts.
fn block_count_total(counts: &HeightMap<usize>) -> (r: usize)
    requires
        counts.wf(),
        seq_usize_sum(counts.vals_seq()) <= usize::MAX,
    ensures
        r == seq_usize_sum(counts.vals_seq()),
{
    let n = counts.len();
    let ghost cv = counts.vals_seq();
    proof {
        assert(cv.take(0) =~= Seq::<usize>::empty());
    }
    let mut total: usize = 0;
    let mut i: usize = 0;
    while i < n
        invariant
            counts.wf(),
            cv == counts.vals_seq(),
            seq_usize_sum(cv) <= usize::MAX,
            n == cv.len(),
            i <= n,
            total == seq_usize_sum(cv.take(i as int)),
        decreases n - i,
    {
        proof {
            assert(cv.take(i + 1).drop_last() =~= cv.take(i as int));
            assert(cv.take(i + 1).last() == cv[i as int]);
            lemma_seq_usize_sum_prefix(cv, i + 1);
        }
        total = total + *counts.val_at(i);
        i = i + 1;
    }
    proof {
        assert(cv.take(n as int) =~= cv);
    }
    total
}


/// The inter-build difference of one aggregate: defined only when both
/// builds have measured it.
pub open spec fn opt_delta(comparison: Option<i64>, current: Option<i64>) -> Option<i128> {
    match (comparison, current) {
        (Some(a), Some(b)) => Some(((a as int) - (b as int)) as i128),
        _ => None,
    }
}

/// Whether a delta signals a regression: the comparison build was slower.
pub open spec fn regression_of(delta: Option<i128>) -> bool {
    match delta {
        Some(d) => d >= 0,
        None => false,
    }
}

/// Copies a vector of samples.
fn copy_i64_vec(v: &Vec<i64>) -> (r: Vec<i64>)
    ensures
        r@ == v@,
{
    let n = v.len();
    let mut out: Vec<i64> = Vec::new();
    let mut i: usize = 0;
    while i < n
        invariant
            n == v@.len(),
            i <= n,
            out@ == v@.take(i as int),
        decreases n - i,
    {
        out.push(v[i]);
        proof {
            assert(out@ =~= v@.take(i + 1));
        }
        i = i + 1;
    }
    proof {
        assert(v@.take(n as int) =~= v@);
    }
    out
}

impl BuildStorage {
    /// Flattens the per-height raw samples into the summary's sample
    /// arrays, height by height, for downstream histogramming.
    pub fn include_times(&mut self)
        requires
            old(self).wf(),
        ensures
            final(self).wf(),
            final(self).build_summary.application_times@ == seq_concat(
                old(self).helpers.application_times.vals_seq(),
            ),
            final(self).build_summary.production_times@ == seq_concat(
                old(self).helpers.production_times.vals_seq(),
            ),
            final(self).build_summary.receive_latencies@ == seq_concat(
                old(self).helpers.receive_latencies.vals_seq(),
            ),
            final(self).helpers == old(self).helpers,
            final(self).ipc_storage == old(self).ipc_storage,
            final(self).trace_storage == old(self).trace_storage,
            final(self).cross_validation_storage == old(self).cross_validation_storage,
            final(self).build_info == old(self).build_info,
            final(self).block_summaries == old(self).block_summaries,
            final(self).best_chain == old(self).best_chain,
            final(self).build_summary == (BuildSummary {
                application_times: final(self).build_summary.application_times,
                production_times: final(self).build_summary.production_times,
                receive_latencies: final(self).build_summary.receive_latencies,
                ..old(self).build_summary
            }),
    {
        self.build_summary.application_times = concat_heights(&self.helpers.application_times);
        self.build_summary.production_times = concat_heights(&self.helpers.production_times);
        self.build_summary.receive_latencies = concat_heights(&self.helpers.receive_latencies);
    }

    /// Fills in the inter-build deltas against a comparison build: for each
    /// aggregate `delta = comparison - current`, the regression flags from
    /// the sign of the corresponding maximum delta (positive means the
    /// comparison build was slower), and the comparison build's raw sample
    /// arrays as the `previous` arrays.
    pub fn calculate_deltas(&mut self, other: &BuildStorage)
        requires
            old(self).wf(),
        ensures
            final(self).wf(),
            final(self).build_summary.block_application_min_delta == opt_delta(
                other.build_summary.block_application_min,
                old(self).build_summary.block_application_min,
            ),
            final(self).build_summary.block_application_avg_delta == opt_delta(
                other.build_summary.block_application_avg,
                old(self).build_summary.block_application_avg,
            ),
            final(self).build_summary.block_application_max_delta == opt_delta(
                other.build_summary.block_application_max,
                old(self).build_summary.block_application_max,
            ),
            final(self).build_summary.block_production_min_delta == opt_delta(
                other.build_summary.block_production_min,
                old(self).build_summary.block_production_min,
            ),
            final(self).build_summary.block_production_avg_delta == opt_delta(
                other.build_summary.block_production_avg,
                old(self).build_summary.block_production_avg,
            ),
            final(self).build_summary.block_production_max_delta == opt_delta(
                other.build_summary.block_production_max,
                old(self).build_summary.block_production_max,
            ),
            final(self).build_summary.receive_latency_min_delta == opt_delta(
                other.build_summary.receive_latency_min,
                old(self).build_summary.receive_latency_min,
            ),
            final(self).build_summary.receive_latency_avg_delta == opt_delta(
                other.build_summary.receive_latency_avg,
                old(self).build_summary.receive_latency_avg,
            ),
            final(self).build_summary.receive_latency_max_delta == opt_delta(
                other.build_summary.receive_latency_max,
                old(self).build_summary.receive_latency_max,
            ),
            final(self).build_summary.block_application_regression == regression_of(
                final(self).build_summary.block_application_max_delta,
            ),
            final(self).build_summary.block_production_regression == regression_of(
                final(self).build_summary.block_production_max_delta,
            ),
            final(self).build_summary.receive_latency_regression == regression_of(
                final(self).build_summary.receive_latency_max_delta,
            ),
            final(self).build_summary.application_times_previous@
                == other.build_summary.application_times@,
            final(self).build_summary.production_times_previous@
                == other.build_summary.production_times@,
            final(self).build_summary.receive_latencies_previous@
                == other.build_summary.receive_latencies@,
            final(self).helpers == old(self).helpers,
            final(self).ipc_storage == old(self).ipc_storage,
            final(self).trace_storage == old(self).trace_storage,
            final(self).cross_validation_storage == old(self).cross_validation_storage,
            final(self).build_info == old(self).build_info,
            final(self).block_summaries == old(self).block_summaries,
            final(self).best_chain == old(self).best_chain,
            final(self).build_summary.block_count == old(self).build_summary.block_count,
            final(self).build_summary.cannonical_block_count == old(
                self,
            ).build_summary.cannonical_block_count,
            final(self).build_summary.tx_count == old(self).build_summary.tx_count,
            final(self).build_summary.block_application_min == old(
                self,
            ).build_summary.block_application_min,
            final(self).build_summary.block_application_avg == old(
                self,
            ).build_summary.block_application_avg,
            final(self).build_summary.block_application_max == old(
                self,
            ).build_summary.block_application_max,
            final(self).build_summary.block_production_min == old(
                self,
            ).build_summary.block_production_min,
            final(self).build_summary.block_production_avg == old(
                self,
            ).build_summary.block_production_avg,
            final(self).build_summary.block_production_max == old(
                self,
            ).build_summary.block_production_max,
            final(self).build_summary.receive_latency_min == old(
                self,
            ).build_summary.receive_latency_min,
            final(self).build_summary.receive_latency_avg == old(
                self,
            ).build_summary.receive_latency_avg,
            final(self).build_summary.receive_latency_max == old(
                self,
            ).build_summary.receive_latency_max,
            final(self).build_summary.application_times == old(
                self,
            ).build_summary.application_times,
            final(self).build_summary.production_times == old(self).build_summary.production_times,
            final(self).build_summary.receive_latencies == old(
                self,
            ).build_summary.receive_latencies,
            final(self).build_summary.request_count == old(self).build_summary.request_count,
            final(self).build_summary.request_timeout_count == old(
                self,
            ).build_summary.request_timeout_count,
    {
        self.build_summary.block_application_avg_delta = opt_delta_exec(
            other.build_summary.block_application_avg,
            self.build_summary.block_application_avg,
        );
        self.build_summary.block_application_max_delta = opt_delta_exec(
            other.build_summary.block_application_max,
            self.build_summary.block_application_max,
        );
        self.build_summary.block_application_min_delta = opt_delta_exec(
            other.build_summary.block_application_min,
            self.build_summary.block_application_min,
        );
        self.build_summary.block_application_regression = regression_exec(
            self.build_summary.block_application_max_delta,
        );
        self.build_summary.block_production_avg_delta = opt_delta_exec(
            other.build_summary.block_production_avg,
            self.build_summary.block_production_avg,
        );
        self.build_summary.block_production_max_delta = opt_delta_exec(
            other.build_summary.block_production_max,
            self.build_summary.block_production_max,
        );
        self.build_summary.block_production_min_delta = opt_delta_exec(
            other.build_summary.block_production_min,
            self.build_summary.block_production_min,
        );
        self.build_summary.block_production_regression = regression_exec(
            self.build_summary.block_production_max_delta,
        );
        self.build_summary.receive_latency_avg_delta = opt_delta_exec(
            other.build_summary.receive_latency_avg,
            self.build_summary.receive_latency_avg,
        );
        self.build_summary.receive_latency_max_delta = opt_delta_exec(
            other.build_summary.receive_latency_max,
            self.build_summary.receive_latency_max,
        );
        self.build_summary.receive_latency_min_delta = opt_delta_exec(
            other.build_summary.receive_latency_min,
            self.build_summary.receive_latency_min,
        );
        self.build_summary.receive_latency_regression = regression_exec(
            self.build_summary.receive_latency_max_delta,
        );
        self.build_summary.application_times_previous = copy_i64_vec(
            &other.build_summary.application_times,
        );
        self.build_summary.production_times_previous = copy_i64_vec(
            &other.build_summary.production_times,
        );
        self.build_summary.receive_latencies_previous = copy_i64_vec(
            &other.build_summary.receive_latencies,
        );
    }

    /// Reduces the storage to its persisted snapshot.  The snapshot carries
    /// everything; the propagation graphs inside the capture records are
    /// derived data that the serialization boundary leaves out.
    pub fn to_dump(self) -> (r: BuildStorageDump)
        ensures
            r.ipc_storage == self.ipc_storage,
            r.trace_storage == self.trace_storage,
            r.cross_validation_storage == self.cross_validation_storage,
            r.build_info == self.build_info,
            r.build_summary == self.build_summary,
            r.helpers == self.helpers,
            r.block_summaries == self.block_summaries,
            r.best_chain == self.best_chain,
    {
        BuildStorageDump {
            ipc_storage: self.ipc_storage,
            trace_storage: self.trace_storage,
            cross_validation_storage: self.cross_validation_storage,
            build_info: self.build_info,
            build_summary: self.build_summary,
            helpers: self.helpers,
            block_summaries: self.block_summaries,
            best_chain: self.best_chain,
        }
    }

    /// Rebuilds the storage from a persisted snapshot.
    pub fn from_dump(dump: BuildStorageDump) -> (r: BuildStorage)
        ensures
            r.ipc_storage == dump.ipc_storage,
            r.trace_storage == dump.trace_storage,
            r.cross_validation_storage == dump.cross_validation_storage,
            r.build_info == dump.build_info,
            r.build_summary == dump.build_summary,
            r.helpers == dump.helpers,
            r.block_summaries == dump.block_summaries,
            r.best_chain == dump.best_chain,
    {
        BuildStorage {
            ipc_storage: dump.ipc_storage,
            trace_storage: dump.trace_storage,
            cross_validation_storage: dump.cross_validation_storage,
            build_info: dump.build_info,
            build_summary: dump.build_summary,
            helpers: dump.helpers,
            block_summaries: dump.block_summaries,
            best_chain: dump.best_chain,
        }
    }
}

/// Round trip through the persisted snapshot: dumping a build's state and
/// rebuilding it reproduces the whole state — in particular every aggregate
/// (extremes and averages), the per-height helper sums, counts and samples,
/// and the block summaries.
pub proof fn lemma_dump_round_trip(s: BuildStorage, d: BuildStorageDump, r: BuildStorage)
    requires
        d.ipc_storage == s.ipc_storage,
        d.trace_storage == s.trace_storage,
        d.cross_validation_storage == s.cross_validation_storage,
        d.build_info == s.build_info,
        d.build_summary == s.build_summary,
        d.helpers == s.helpers,
        d.block_summaries == s.block_summaries,
        d.best_chain == s.best_chain,
        r.ipc_storage == d.ipc_storage,
        r.trace_storage == d.trace_storage,
        r.cross_validation_storage == d.cross_validation_storage,
        r.build_info == d.build_info,
        r.build_summary == d.build_summary,
        r.helpers == d.helpers,
        r.block_summaries == d.block_summaries,
        r.best_chain == d.best_chain,
    ensures
        r == s,
{
}

/// The executable counterpart of `opt_delta`.
fn opt_delta_exec(comparison: Option<i64>, current: Option<i64>) -> (r: Option<i128>)
    ensures
        r == opt_delta(comparison, current),
{
    match (comparison, current) {
        (Some(a), Some(b)) => Some(a as i128 - b as i128),
        _ => None,
    }
}

/// The executable counterpart of `regression_of`.
fn regression_exec(delta: Option<i128>) -> (r: bool)
    ensures
        r == regression_of(delta),
{
    match delta {
        Some(d) => d >= 0,
        None => false,
    }
}

/// Concatenates the per-height sample vectors, height by height.
fn concat_heights(times: &HeightMap<Vec<i64>>) -> (r: Vec<i64>)
    requires
        times.wf(),
    ensures
        r@ == seq_concat(times.vals_seq()),
{
    let n = times.len();
    let ghost mv = times.vals_seq();
    let mut out: Vec<i64> = Vec::new();
    proof {
        assert(mv.take(0) =~= Seq::<Vec<i64>>::empty());
        assert(out@ =~= seq_concat(mv.take(0)));
    }
    let mut i: usize = 0;
    while i < n
        invariant
            times.wf(),
            mv == times.vals_seq(),
            n == mv.len(),
            i <= n,
            out@ == seq_concat(mv.take(i as int)),
        decreases n - i,
    {
        proof {
            assert(mv.take(i + 1).drop_last() =~= mv.take(i as int));
            assert(mv.take(i + 1).last() == mv[i as int]);
        }
        let v = times.val_at(i);
        let m = v.len();
        let ghost base = out@;
        let mut j: usize = 0;
        while j < m
            invariant
                times.wf(),
                i < times.spec_len(),
                mv == times.vals_seq(),
                m == mv[i as int]@.len(),
                j <= m,
                out@ == base + mv[i as int]@.take(j as int),
            decreases m - j,
        {
            out.push(*vstd::std_specs::vec::vec_index(times.val_at(i), j));
            proof {
                assert(mv[i as int]@.take(j + 1) =~= mv[i as int]@.take(j as int).push(
                    mv[i as int]@[j as int],
                ));
                assert(out@ =~= base + mv[i as int]@.take(j + 1));
            }
            j = j + 1;
        }
        proof {
            assert(mv[i as int]@.take(m as int) =~= mv[i as int]@);
        }
        i = i + 1;
    }
    proof {
        assert(mv.take(n as int) =~= mv);
    }
    out
}

} // verus!
