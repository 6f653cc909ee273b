//! Merging per-node execution traces and daemon status snapshots into
//! per-node block reports, including producer identification.
//!
//! For one (height, block hash), the traces whose source is `Internal` are
//! the candidate producers; the nodes whose production completed earliest
//! (start of processing plus total time) form the producer set — a tie is a
//! legitimate concurrent production, not an error.  Every roster node yields
//! one report, whether or not it has delivered a trace yet.

use vstd::prelude::*;

use crate::maps::TagMap;
use crate::nodes::{DaemonMetrics, DaemonStatusDataSlim, TraceSource, TraceStatus};
use crate::nodes::BlockStructuredTrace;
use crate::storage::{seq_i64_max, BlockSummary, PeerTiming};
use crate::AggregatorResult;

verus! {

/// Bound on the trace times accepted by the aggregation, in microseconds;
/// it keeps every sum and difference of two trace times inside `i64`.
pub const TIME_LIMIT: i64 = 0x2000_0000_0000_0000;

/// One node's report for one block: the denormalized union of its execution
/// trace (if any), its daemon snapshot, and the derived producer flag and
/// receive latency.  Times are integer microseconds.
#[derive(Debug, Clone)]
pub struct BlockTraceAggregatorReport {
    pub height: usize,
    pub block_hash: String,
    pub node: String,
    pub node_address: String,
    pub date_time: Option<i64>,
    pub source: Option<TraceSource>,
    pub sync_status: String,
    pub snark_pool_size: usize,
    pub transaction_pool_size: usize,
    pub metrics: DaemonMetrics,
    pub receive_latency: Option<i64>,
    pub block_application: Option<i64>,
    pub is_producer: bool,
    pub block_producer: Option<String>,
    pub global_slot: Option<String>,
    pub included_tranasction_count: Option<usize>,
}

/// The instant a trace's processing completed: its start plus its total
/// time.
pub open spec fn trace_completion(t: BlockStructuredTrace) -> int {
    t.sections@[0].checkpoints@[0].started_at + t.total_time
}

/// Whether a trace has the shape and bounds the aggregation relies on: a
/// first checkpoint to read the start time from, and times within
/// `TIME_LIMIT`.
pub open spec fn trace_wf(t: BlockStructuredTrace) -> bool {
    &&& t.sections@.len() > 0
    &&& t.sections@[0].checkpoints@.len() > 0
    &&& -TIME_LIMIT <= t.sections@[0].checkpoints@[0].started_at <= TIME_LIMIT
    &&& -TIME_LIMIT <= t.total_time <= TIME_LIMIT
}

/// Whether every trace of the map is well-formed.
pub open spec fn traces_wf(traces: TagMap<BlockStructuredTrace>) -> bool {
    forall|i: int| 0 <= i < traces.vals_seq().len() ==> trace_wf(#[trigger] traces.vals_seq()[i])
}

/// The earliest completion instant among the `Internal`-source traces, or
/// `None` when there is none yet.
pub open spec fn min_internal_completion(s: Seq<BlockStructuredTrace>) -> Option<int>
    decreases s.len(),
{
    if s.len() == 0 {
        None
    } else {
        let rest = min_internal_completion(s.drop_last());
        if s.last().source != TraceSource::Internal {
            rest
        } else {
            match rest {
                None => Some(trace_completion(s.last())),
                Some(m) => Some(
                    if trace_completion(s.last()) < m {
                        trace_completion(s.last())
                    } else {
                        m
                    },
                ),
            }
        }
    }
}

/// Whether the report `rep` is the one the specification prescribes for the
/// roster node at position `i`.
pub open spec fn spec_report_ok(
    rep: BlockTraceAggregatorReport,
    height: usize,
    state_hash: Seq<char>,
    node_infos: TagMap<DaemonStatusDataSlim>,
    traces: TagMap<BlockStructuredTrace>,
    i: int,
) -> bool {
    let tag = node_infos.keys_view()[i];
    let info = node_infos.vals_seq()[i];
    let has_trace = traces.spec_contains(tag);
    let t = traces.spec_get(tag);
    let m = min_internal_completion(traces.vals_seq());
    let producer = has_trace && t.source == TraceSource::Internal && m == Some(
        trace_completion(t),
    );
    &&& rep.height == height
    &&& rep.block_hash@ == state_hash
    &&& rep.node@ == tag
    &&& rep.node_address@ == info.daemon_status.addrs_and_ports.external_ip@
    &&& rep.sync_status@ == info.daemon_status.sync_status@
    &&& rep.snark_pool_size == info.snark_pool
    &&& rep.transaction_pool_size == info.daemon_status.metrics.transaction_pool_size
    &&& rep.metrics == info.daemon_status.metrics
    &&& rep.is_producer == producer
    &&& rep.source == (if has_trace {
        Some(t.source)
    } else {
        None::<TraceSource>
    })
    &&& rep.date_time == (if has_trace {
        Some(t.sections@[0].checkpoints@[0].started_at)
    } else {
        None::<i64>
    })
    &&& rep.block_application == (if has_trace && !(t.status is Pending) {
        Some(t.total_time)
    } else {
        None::<i64>
    })
    &&& rep.receive_latency == (match m {
        Some(mv) => if has_trace && !producer {
            Some((t.sections@[0].checkpoints@[0].started_at - mv) as i64)
        } else {
            None::<i64>
        },
        None => None::<i64>,
    })
    &&& rep.block_producer == (if has_trace {
        t.metadata.creator
    } else {
        None::<String>
    })
    &&& rep.global_slot == (if has_trace {
        t.metadata.global_slot
    } else {
        None::<String>
    })
    &&& rep.included_tranasction_count == (if has_trace {
        t.metadata.txn_count
    } else {
        None::<usize>
    })
}

/// Synthesizes one report per roster node for the block `state_hash` at
/// `height`: producer-set membership from the earliest internal completion,
/// the application time from a non-pending trace, and the receive latency
/// relative to the earliest producer completion (`None` for producers and
/// for nodes without a trace).
pub fn aggregate_block_traces(
    height: usize,
    state_hash: &str,
    node_infos: &TagMap<DaemonStatusDataSlim>,
    traces: TagMap<BlockStructuredTrace>,
) -> (r: AggregatorResult<Vec<BlockTraceAggregatorReport>>)
    requires
        node_infos.wf(),
        traces.wf(),
        traces_wf(traces),
    ensures
        match r {
            Ok(rep) => {
                &&& rep@.len() == node_infos.spec_len()
                &&& forall|i: int|
                    0 <= i < rep@.len() ==> spec_report_ok(
                        #[trigger] rep@[i],
                        height,
                        state_hash@,
                        *node_infos,
                        traces,
                        i,
                    )
            },
            Err(_) => false,
        },
{
    let tn = traces.len();
    let mut min_completion: Option<i64> = None;
    let ghost tvals = traces.vals_seq();
    proof {
        assert(tvals.take(0) =~= Seq::<BlockStructuredTrace>::empty());
    }
    let mut ti: usize = 0;
    while ti < tn
        invariant
            traces.wf(),
            traces_wf(traces),
            tvals == traces.vals_seq(),
            tn == tvals.len(),
            ti <= tn,
            match min_completion {
                Some(c) => min_internal_completion(tvals.take(ti as int)) == Some(c as int) && -2
                    * TIME_LIMIT <= c <= 2 * TIME_LIMIT,
                None => min_internal_completion(tvals.take(ti as int)) is None,
            },
        decreases tn - ti,
    {
        proof {
            assert(tvals.take(ti + 1).drop_last() =~= tvals.take(ti as int));
            assert(tvals.take(ti + 1).last() == tvals[ti as int]);
            assert(trace_wf(tvals[ti as int]));
        }
        let t = traces.val_at(ti);
        if t.source == TraceSource::Internal {
            let c = t.sections[0].checkpoints[0].started_at + t.total_time;
            min_completion = match min_completion {
                None => Some(c),
                Some(m) => Some(
                    if c < m {
                        c
                    } else {
                        m
                    },
                ),
            };
        }
        ti = ti + 1;
    }
    proof {
        assert(tvals.take(tn as int) =~= tvals);
    }

    let n = node_infos.len();
    let mut report: Vec<BlockTraceAggregatorReport> = Vec::new();
    let mut i: usize = 0;
    while i < n
        invariant
            node_infos.wf(),
            traces.wf(),
            traces_wf(traces),
            n == node_infos.spec_len(),
            i <= n,
            report@.len() == i,
            match min_completion {
                Some(c) => min_internal_completion(traces.vals_seq()) == Some(c as int) && -2
                    * TIME_LIMIT <= c <= 2 * TIME_LIMIT,
                None => min_internal_completion(traces.vals_seq()) is None,
            },
            forall|j: int|
                0 <= j < i ==> spec_report_ok(
                    #[trigger] report@[j],
                    height,
                    state_hash@,
                    *node_infos,
                    traces,
                    j,
                ),
        decreases n - i,
    {
        let node: String = node_infos.key_at(i).clone();
        let info = node_infos.val_at(i);
        let trace = traces.get(&node);
        let has_trace = trace.is_some();
        let is_producer: bool = match (&trace, &min_completion) {
            (Some(t), Some(m)) => {
                proof {
                    assert(trace_wf(traces.spec_get(node@)));
                }
                if t.source == TraceSource::Internal {
                    let c = t.sections[0].checkpoints[0].started_at + t.total_time;
                    c == *m
                } else {
                    false
                }
            },
            _ => false,
        };
        let date_time: Option<i64> = match &trace {
            Some(t) => {
                proof {
                    assert(trace_wf(traces.spec_get(node@)));
                }
                Some(t.sections[0].checkpoints[0].started_at)
            },
            None => None,
        };
        let receive_latency: Option<i64> = match (&trace, &min_completion) {
            (Some(t), Some(m)) => {
                proof {
                    assert(trace_wf(traces.spec_get(node@)));
                }
                if is_producer {
                    None
                } else {
                    Some(t.sections[0].checkpoints[0].started_at - *m)
                }
            },
            _ => None,
        };
        let block_application: Option<i64> = match &trace {
            Some(t) => {
                if !(matches!(t.status, TraceStatus::Pending)) {
                    Some(t.total_time)
                } else {
                    None
                }
            },
            None => None,
        };
        let entry = BlockTraceAggregatorReport {
            block_hash: state_hash.to_owned(),
            is_producer,
            global_slot: match &trace {
                Some(t) => match &t.metadata.global_slot {
                    Some(g) => Some(g.clone()),
                    None => None,
                },
                None => None,
            },
            block_producer: match &trace {
                Some(t) => match &t.metadata.creator {
                    Some(c) => Some(c.clone()),
                    None => None,
                },
                None => None,
            },
            included_tranasction_count: match &trace {
                Some(t) => t.metadata.txn_count,
                None => None,
            },
            height,
            node,
            node_address: info.daemon_status.addrs_and_ports.external_ip.clone(),
            source: match &trace {
                Some(t) => Some(t.source),
                None => None,
            },
            sync_status: info.daemon_status.sync_status.clone(),
            snark_pool_size: info.snark_pool,
            transaction_pool_size: info.daemon_status.metrics.transaction_pool_size,
            metrics: info.daemon_status.metrics,
            date_time,
            receive_latency,
            block_application,
        };
        report.push(entry);
        i = i + 1;
    }
    Ok(report)
}


/// The application times of one block's reports: non-producer reports that
/// carry an application time, in report order.
pub open spec fn reports_app_times(s: Seq<BlockTraceAggregatorReport>) -> Seq<i64>
    decreases s.len(),
{
    if s.len() == 0 {
        Seq::empty()
    } else {
        let rest = reports_app_times(s.drop_last());
        if !s.last().is_producer && s.last().block_application is Some {
            rest.push(s.last().block_application->0)
        } else {
            rest
        }
    }
}

/// The production times of one block's reports: producer reports that carry
/// an application time, in report order.
pub open spec fn reports_prod_times(s: Seq<BlockTraceAggregatorReport>) -> Seq<i64>
    decreases s.len(),
{
    if s.len() == 0 {
        Seq::empty()
    } else {
        let rest = reports_prod_times(s.drop_last());
        if s.last().is_producer && s.last().block_application is Some {
            rest.push(s.last().block_application->0)
        } else {
            rest
        }
    }
}

/// The receive latencies of one block's reports: non-producer reports that
/// carry a receive latency, in report order.
pub open spec fn reports_recv_latencies(s: Seq<BlockTraceAggregatorReport>) -> Seq<i64>
    decreases s.len(),
{
    if s.len() == 0 {
        Seq::empty()
    } else {
        let rest = reports_recv_latencies(s.drop_last());
        if !s.last().is_producer && s.last().receive_latency is Some {
            rest.push(s.last().receive_latency->0)
        } else {
            rest
        }
    }
}

/// Number of non-producer reports.
pub open spec fn reports_nonproducer_count(s: Seq<BlockTraceAggregatorReport>) -> nat
    decreases s.len(),
{
    if s.len() == 0 {
        0
    } else {
        reports_nonproducer_count(s.drop_last()) + if !s.last().is_producer {
            1nat
        } else {
            0nat
        }
    }
}

/// Number of producer reports.
pub open spec fn reports_producer_count(s: Seq<BlockTraceAggregatorReport>) -> nat
    decreases s.len(),
{
    if s.len() == 0 {
        0
    } else {
        reports_producer_count(s.drop_last()) + if s.last().is_producer {
            1nat
        } else {
            0nat
        }
    }
}

/// The largest transaction count any producer report of the block carries.
pub open spec fn reports_producer_tx(s: Seq<BlockTraceAggregatorReport>) -> Option<usize>
    decreases s.len(),
{
    if s.len() == 0 {
        None
    } else {
        let rest = reports_producer_tx(s.drop_last());
        if s.last().is_producer && s.last().included_tranasction_count is Some {
            match rest {
                None => Some(s.last().included_tranasction_count->0),
                Some(m) => Some(
                    if s.last().included_tranasction_count->0 > m {
                        s.last().included_tranasction_count->0
                    } else {
                        m
                    },
                ),
            }
        } else {
            rest
        }
    }
}

/// The application times of many blocks, block by block.
pub open spec fn blocks_app_times(bs: Seq<Vec<BlockTraceAggregatorReport>>) -> Seq<i64>
    decreases bs.len(),
{
    if bs.len() == 0 {
        Seq::empty()
    } else {
        blocks_app_times(bs.drop_last()) + reports_app_times(bs.last()@)
    }
}

/// The production times of many blocks, block by block.
pub open spec fn blocks_prod_times(bs: Seq<Vec<BlockTraceAggregatorReport>>) -> Seq<i64>
    decreases bs.len(),
{
    if bs.len() == 0 {
        Seq::empty()
    } else {
        blocks_prod_times(bs.drop_last()) + reports_prod_times(bs.last()@)
    }
}

/// The receive latencies of many blocks, block by block.
pub open spec fn blocks_recv_latencies(bs: Seq<Vec<BlockTraceAggregatorReport>>) -> Seq<i64>
    decreases bs.len(),
{
    if bs.len() == 0 {
        Seq::empty()
    } else {
        blocks_recv_latencies(bs.drop_last()) + reports_recv_latencies(bs.last()@)
    }
}

/// Number of non-producer reports across many blocks.
pub open spec fn blocks_nonproducer_count(bs: Seq<Vec<BlockTraceAggregatorReport>>) -> nat
    decreases bs.len(),
{
    if bs.len() == 0 {
        0
    } else {
        blocks_nonproducer_count(bs.drop_last()) + reports_nonproducer_count(bs.last()@)
    }
}

/// Number of producer reports across many blocks.
pub open spec fn blocks_producer_count(bs: Seq<Vec<BlockTraceAggregatorReport>>) -> nat
    decreases bs.len(),
{
    if bs.len() == 0 {
        0
    } else {
        blocks_producer_count(bs.drop_last()) + reports_producer_count(bs.last()@)
    }
}

/// The largest producer transaction count of any block, or zero with none.
pub open spec fn blocks_tx_count(bs: Seq<Vec<BlockTraceAggregatorReport>>) -> nat
    decreases bs.len(),
{
    if bs.len() == 0 {
        0
    } else {
        let rest = blocks_tx_count(bs.drop_last());
        match reports_producer_tx(bs.last()@) {
            None => rest,
            Some(t) => if t > rest {
                t as nat
            } else {
                rest
            },
        }
    }
}

/// The block hashes that carry a producer transaction count, in block order.
pub open spec fn blocks_tx_keys(keys: Seq<Seq<char>>, bs: Seq<Vec<BlockTraceAggregatorReport>>) -> Seq<
    Seq<char>,
>
    decreases bs.len(),
{
    if bs.len() == 0 {
        Seq::empty()
    } else {
        let rest = blocks_tx_keys(keys.drop_last(), bs.drop_last());
        if reports_producer_tx(bs.last()@) is Some {
            rest.push(keys.last())
        } else {
            rest
        }
    }
}

/// The producer transaction counts matching `blocks_tx_keys`, in block order.
pub open spec fn blocks_tx_vals(bs: Seq<Vec<BlockTraceAggregatorReport>>) -> Seq<usize>
    decreases bs.len(),
{
    if bs.len() == 0 {
        Seq::empty()
    } else {
        let rest = blocks_tx_vals(bs.drop_last());
        match reports_producer_tx(bs.last()@) {
            None => rest,
            Some(t) => rest.push(t),
        }
    }
}

/// The per-height block reports of one polling cycle, keyed by block hash;
/// more than one hash at one height means a fork.
#[derive(Debug, Clone)]
pub struct AggregatedBlockTraces {
    pub inner: TagMap<Vec<BlockTraceAggregatorReport>>,
}

impl AggregatedBlockTraces {
    /// Well-formedness of the underlying map.
    pub open spec fn wf(&self) -> bool {
        self.inner.wf()
    }

    /// Creates an empty set of block traces.
    pub fn new() -> (r: Self)
        ensures
            r.wf(),
            r.inner.keys_view() == Seq::<Seq<char>>::empty(),
            r.inner.vals_seq() == Seq::<Vec<BlockTraceAggregatorReport>>::empty(),
    {
        AggregatedBlockTraces { inner: TagMap::new() }
    }

    /// Stores the reports of one block, replacing any previous reports for
    /// the same hash.
    pub fn insert(&mut self, hash: String, traces: Vec<BlockTraceAggregatorReport>)
        requires
            old(self).wf(),
        ensures
            final(self).wf(),
            final(self).inner.keys_view() == crate::maps::tag_insert_keys(
                old(self).inner.keys_view(),
                hash@,
            ),
            final(self).inner.vals_seq() == crate::maps::tag_insert_vals(
                old(self).inner.keys_view(),
                old(self).inner.vals_seq(),
                hash@,
                traces,
            ),
    {
        self.inner.insert(hash, traces);
    }

    /// The underlying map from block hash to reports.
    pub fn inner(&self) -> (r: &TagMap<Vec<BlockTraceAggregatorReport>>)
        ensures
            r == &self.inner,
    {
        &self.inner
    }

    /// The largest producer-reported transaction count of any block, or zero
    /// when no producer has reported one.
    pub fn transaction_count(&self) -> (r: usize)
        requires
            self.wf(),
        ensures
            r == blocks_tx_count(self.inner.vals_seq()),
    {
        let n = self.inner.len();
        let ghost bs = self.inner.vals_seq();
        let mut best: usize = 0;
        proof {
            assert(bs.take(0) =~= Seq::<Vec<BlockTraceAggregatorReport>>::empty());
        }
        let mut i: usize = 0;
        while i < n
            invariant
                self.wf(),
                bs == self.inner.vals_seq(),
                n == bs.len(),
                i <= n,
                best == blocks_tx_count(bs.take(i as int)),
            decreases n - i,
        {
            proof {
                assert(bs.take(i + 1).drop_last() =~= bs.take(i as int));
                assert(bs.take(i + 1).last() == bs[i as int]);
            }
            match self.block_producer_tx(i) {
                Some(t) => {
                    if t > best {
                        best = t;
                    }
                },
                None => {},
            }
            i = i + 1;
        }
        proof {
            assert(bs.take(n as int) =~= bs);
        }
        best
    }

    /// The largest transaction count among the producer reports of the block
    /// at position `i`.
    fn block_producer_tx(&self, i: usize) -> (r: Option<usize>)
        requires
            self.wf(),
            i < self.inner.spec_len(),
        ensures
            r == reports_producer_tx(self.inner.vals_seq()[i as int]@),
    {
        let reports = self.inner.val_at(i);
        let ghost rs = reports@;
        let m = reports.len();
        let mut best: Option<usize> = None;
        proof {
            assert(rs.take(0) =~= Seq::<BlockTraceAggregatorReport>::empty());
        }
        let mut j: usize = 0;
        while j < m
            invariant
                m == rs.len(),
                rs == self.inner.vals_seq()[i as int]@,
                self.wf(),
                i < self.inner.spec_len(),
                j <= m,
                best == reports_producer_tx(rs.take(j as int)),
            decreases m - j,
        {
            proof {
                assert(rs.take(j + 1).drop_last() =~= rs.take(j as int));
                assert(rs.take(j + 1).last() == rs[j as int]);
            }
            let rep = &self.inner.val_at(i)[j];
            if rep.is_producer {
                match rep.included_tranasction_count {
                    Some(t) => {
                        best = match best {
                            None => Some(t),
                            Some(b) => Some(
                                if t > b {
                                    t
                                } else {
                                    b
                                },
                            ),
                        };
                    },
                    None => {},
                }
            }
            j = j + 1;
        }
        proof {
            assert(rs.take(m as int) =~= rs);
        }
        best
    }

    /// The per-block producer transaction counts: one entry per block whose
    /// producer reported one.
    pub fn transaction_count_per_block(&self) -> (r: TagMap<usize>)
        requires
            self.wf(),
        ensures
            r.wf(),
            r.keys_view() == blocks_tx_keys(self.inner.keys_view(), self.inner.vals_seq()),
            r.vals_seq() == blocks_tx_vals(self.inner.vals_seq()),
    {
        let n = self.inner.len();
        let ghost bk = self.inner.keys_view();
        let ghost bs = self.inner.vals_seq();
        let mut out: TagMap<usize> = TagMap::new();
        proof {
            assert(bk.take(0) =~= Seq::<Seq<char>>::empty());
            assert(bs.take(0) =~= Seq::<Vec<BlockTraceAggregatorReport>>::empty());
        }
        let mut i: usize = 0;
        while i < n
            invariant
                self.wf(),
                out.wf(),
                bk == self.inner.keys_view(),
                bs == self.inner.vals_seq(),
                n == bs.len(),
                n == bk.len(),
                i <= n,
                out.keys_view() == blocks_tx_keys(bk.take(i as int), bs.take(i as int)),
                out.vals_seq() == blocks_tx_vals(bs.take(i as int)),
            decreases n - i,
        {
            proof {
                assert(bk.take(i + 1).drop_last() =~= bk.take(i as int));
                assert(bk.take(i + 1).last() == bk[i as int]);
                assert(bs.take(i + 1).drop_last() =~= bs.take(i as int));
                assert(bs.take(i + 1).last() == bs[i as int]);
            }
            match self.block_producer_tx(i) {
                Some(t) => {
                    let ghost prev_keys = out.keys_view();
                    proof {
                        lemma_tx_keys_fresh(bk.take(i as int), bs.take(i as int), bk, i as int);
                        assert(!out.keys_view().contains(bk[i as int]));
                    }
                    out.insert(self.inner.key_at(i).clone(), t);
                },
                None => {},
            }
            i = i + 1;
        }
        proof {
            assert(bk.take(n as int) =~= bk);
            assert(bs.take(n as int) =~= bs);
        }
        out
    }

    /// The application times of every block, block by block.
    pub fn application_times(&self) -> (r: Vec<i64>)
        requires
            self.wf(),
        ensures
            r@ == blocks_app_times(self.inner.vals_seq()),
    {
        let n = self.inner.len();
        let ghost bs = self.inner.vals_seq();
        let mut out: Vec<i64> = Vec::new();
        proof {
            assert(bs.take(0) =~= Seq::<Vec<BlockTraceAggregatorReport>>::empty());
            assert(out@ =~= blocks_app_times(bs.take(0)));
        }
        let mut i: usize = 0;
        while i < n
            invariant
                self.wf(),
                bs == self.inner.vals_seq(),
                n == bs.len(),
                i <= n,
                out@ == blocks_app_times(bs.take(i as int)),
            decreases n - i,
        {
            proof {
                assert(bs.take(i + 1).drop_last() =~= bs.take(i as int));
                assert(bs.take(i + 1).last() == bs[i as int]);
            }
            let reports = self.inner.val_at(i);
            let ghost rs = reports@;
            let m = reports.len();
            let ghost base = out@;
            proof {
                assert(rs.take(0) =~= Seq::<BlockTraceAggregatorReport>::empty());
                assert(out@ =~= base + reports_app_times(rs.take(0)));
            }
            let mut j: usize = 0;
            while j < m
                invariant
                    self.wf(),
                    i < self.inner.spec_len(),
                    rs == self.inner.vals_seq()[i as int]@,
                    m == rs.len(),
                    j <= m,
                    out@ == base + reports_app_times(rs.take(j as int)),
                decreases m - j,
            {
                proof {
                    assert(rs.take(j + 1).drop_last() =~= rs.take(j as int));
                    assert(rs.take(j + 1).last() == rs[j as int]);
                }
                let rep = &self.inner.val_at(i)[j];
                if !rep.is_producer {
                    match rep.block_application {
                        Some(t) => {
                            out.push(t);
                        },
                        None => {},
                    }
                }
                j = j + 1;
            }
            proof {
                assert(rs.take(m as int) =~= rs);
            }
            i = i + 1;
        }
        proof {
            assert(bs.take(n as int) =~= bs);
        }
        out
    }

    /// The production times of every block, block by block.
    pub fn production_times(&self) -> (r: Vec<i64>)
        requires
            self.wf(),
        ensures
            r@ == blocks_prod_times(self.inner.vals_seq()),
    {
        let n = self.inner.len();
        let ghost bs = self.inner.vals_seq();
        let mut out: Vec<i64> = Vec::new();
        proof {
            assert(bs.take(0) =~= Seq::<Vec<BlockTraceAggregatorReport>>::empty());
            assert(out@ =~= blocks_prod_times(bs.take(0)));
        }
        let mut i: usize = 0;
        while i < n
            invariant
                self.wf(),
                bs == self.inner.vals_seq(),
                n == bs.len(),
                i <= n,
                out@ == blocks_prod_times(bs.take(i as int)),
            decreases n - i,
        {
            proof {
                assert(bs.take(i + 1).drop_last() =~= bs.take(i as int));
                assert(bs.take(i + 1).last() == bs[i as int]);
            }
            let reports = self.inner.val_at(i);
            let ghost rs = reports@;
            let m = reports.len();
            let ghost base = out@;
            proof {
                assert(rs.take(0) =~= Seq::<BlockTraceAggregatorReport>::empty());
                assert(out@ =~= base + reports_prod_times(rs.take(0)));
            }
            let mut j: usize = 0;
            while j < m
                invariant
                    self.wf(),
                    i < self.inner.spec_len(),
                    rs == self.inner.vals_seq()[i as int]@,
                    m == rs.len(),
                    j <= m,
                    out@ == base + reports_prod_times(rs.take(j as int)),
                decreases m - j,
            {
                proof {
                    assert(rs.take(j + 1).drop_last() =~= rs.take(j as int));
                    assert(rs.take(j + 1).last() == rs[j as int]);
                }
                let rep = &self.inner.val_at(i)[j];
                if rep.is_producer {
                    match rep.block_application {
                        Some(t) => {
                            out.push(t);
                        },
                        None => {},
                    }
                }
                j = j + 1;
            }
            proof {
                assert(rs.take(m as int) =~= rs);
            }
            i = i + 1;
        }
        proof {
            assert(bs.take(n as int) =~= bs);
        }
        out
    }

    /// The receive latencies of every block, block by block.
    pub fn receive_latencies(&self) -> (r: Vec<i64>)
        requires
            self.wf(),
        ensures
            r@ == blocks_recv_latencies(self.inner.vals_seq()),
    {
        let n = self.inner.len();
        let ghost bs = self.inner.vals_seq();
        let mut out: Vec<i64> = Vec::new();
        proof {
            assert(bs.take(0) =~= Seq::<Vec<BlockTraceAggregatorReport>>::empty());
            assert(out@ =~= blocks_recv_latencies(bs.take(0)));
        }
        let mut i: usize = 0;
        while i < n
            invariant
                self.wf(),
                bs == self.inner.vals_seq(),
                n == bs.len(),
                i <= n,
                out@ == blocks_recv_latencies(bs.take(i as int)),
            decreases n - i,
        {
            proof {
                assert(bs.take(i + 1).drop_last() =~= bs.take(i as int));
                assert(bs.take(i + 1).last() == bs[i as int]);
            }
            let reports = self.inner.val_at(i);
            let ghost rs = reports@;
            let m = reports.len();
            let ghost base = out@;
            proof {
                assert(rs.take(0) =~= Seq::<BlockTraceAggregatorReport>::empty());
                assert(out@ =~= base + reports_recv_latencies(rs.take(0)));
            }
            let mut j: usize = 0;
            while j < m
                invariant
                    self.wf(),
                    i < self.inner.spec_len(),
                    rs == self.inner.vals_seq()[i as int]@,
                    m == rs.len(),
                    j <= m,
                    out@ == base + reports_recv_latencies(rs.take(j as int)),
                decreases m - j,
            {
                proof {
                    assert(rs.take(j + 1).drop_last() =~= rs.take(j as int));
                    assert(rs.take(j + 1).last() == rs[j as int]);
                }
                let rep = &self.inner.val_at(i)[j];
                if !rep.is_producer {
                    match rep.receive_latency {
                        Some(t) => {
                            out.push(t);
                        },
                        None => {},
                    }
                }
                j = j + 1;
            }
            proof {
                assert(rs.take(m as int) =~= rs);
            }
            i = i + 1;
        }
        proof {
            assert(bs.take(n as int) =~= bs);
        }
        out
    }

    /// Number of non-producer reports across all blocks.
    pub fn appliaction_count(&self) -> (r: usize)
        requires
            self.wf(),
            blocks_nonproducer_count(self.inner.vals_seq()) <= usize::MAX,
        ensures
            r == blocks_nonproducer_count(self.inner.vals_seq()),
    {
        let n = self.inner.len();
        let ghost bs = self.inner.vals_seq();
        let mut count: usize = 0;
        proof {
            assert(bs.take(0) =~= Seq::<Vec<BlockTraceAggregatorReport>>::empty());
        }
        let mut i: usize = 0;
        while i < n
            invariant
                self.wf(),
                bs == self.inner.vals_seq(),
                blocks_nonproducer_count(bs) <= usize::MAX,
                n == bs.len(),
                i <= n,
                count == blocks_nonproducer_count(bs.take(i as int)),
            decreases n - i,
        {
            proof {
                assert(bs.take(i + 1).drop_last() =~= bs.take(i as int));
                assert(bs.take(i + 1).last() == bs[i as int]);
                lemma_blocks_nonproducer_prefix(bs, i + 1);
            }
            let reports = self.inner.val_at(i);
            let ghost rs = reports@;
            let m = reports.len();
            let ghost base = count as nat;
            proof {
                assert(rs.take(0) =~= Seq::<BlockTraceAggregatorReport>::empty());
                lemma_reports_nonproducer_prefix(rs, rs.len() as int);
            }
            let mut j: usize = 0;
            while j < m
                invariant
                    self.wf(),
                    i < self.inner.spec_len(),
                    rs == self.inner.vals_seq()[i as int]@,
                    m == rs.len(),
                    j <= m,
                    base + reports_nonproducer_count(rs) <= usize::MAX,
                    count == base + reports_nonproducer_count(rs.take(j as int)),
                decreases m - j,
            {
                proof {
                    assert(rs.take(j + 1).drop_last() =~= rs.take(j as int));
                    assert(rs.take(j + 1).last() == rs[j as int]);
                    lemma_reports_nonproducer_prefix(rs, j + 1);
                }
                let rep = &self.inner.val_at(i)[j];
                if !rep.is_producer {
                    count = count + 1;
                }
                j = j + 1;
            }
            proof {
                assert(rs.take(m as int) =~= rs);
            }
            i = i + 1;
        }
        proof {
            assert(bs.take(n as int) =~= bs);
        }
        count
    }

    /// Number of producer reports across all blocks.
    pub fn production_count(&self) -> (r: usize)
        requires
            self.wf(),
            blocks_producer_count(self.inner.vals_seq()) <= usize::MAX,
        ensures
            r == blocks_producer_count(self.inner.vals_seq()),
    {
        let n = self.inner.len();
        let ghost bs = self.inner.vals_seq();
        let mut count: usize = 0;
        proof {
            assert(bs.take(0) =~= Seq::<Vec<BlockTraceAggregatorReport>>::empty());
        }
        let mut i: usize = 0;
        while i < n
            invariant
                self.wf(),
                bs == self.inner.vals_seq(),
                blocks_producer_count(bs) <= usize::MAX,
                n == bs.len(),
                i <= n,
                count == blocks_producer_count(bs.take(i as int)),
            decreases n - i,
        {
            proof {
                assert(bs.take(i + 1).drop_last() =~= bs.take(i as int));
                assert(bs.take(i + 1).last() == bs[i as int]);
                lemma_blocks_producer_prefix(bs, i + 1);
            }
            let reports = self.inner.val_at(i);
            let ghost rs = reports@;
            let m = reports.len();
            let ghost base = count as nat;
            proof {
                assert(rs.take(0) =~= Seq::<BlockTraceAggregatorReport>::empty());
                lemma_reports_producer_prefix(rs, rs.len() as int);
            }
            let mut j: usize = 0;
            while j < m
                invariant
                    self.wf(),
                    i < self.inner.spec_len(),
                    rs == self.inner.vals_seq()[i as int]@,
                    m == rs.len(),
                    j <= m,
                    base + reports_producer_count(rs) <= usize::MAX,
                    count == base + reports_producer_count(rs.take(j as int)),
                decreases m - j,
            {
                proof {
                    assert(rs.take(j + 1).drop_last() =~= rs.take(j as int));
                    assert(rs.take(j + 1).last() == rs[j as int]);
                    lemma_reports_producer_prefix(rs, j + 1);
                }
                let rep = &self.inner.val_at(i)[j];
                if rep.is_producer {
                    count = count + 1;
                }
                j = j + 1;
            }
            proof {
                assert(rs.take(m as int) =~= rs);
            }
            i = i + 1;
        }
        proof {
            assert(bs.take(n as int) =~= bs);
        }
        count
    }

    /// Number of distinct blocks observed at this height.
    pub fn unique_block_count(&self) -> (r: usize)
        requires
            self.wf(),
        ensures
            r == self.inner.spec_len(),
    {
        self.inner.len()
    }
}

/// A prefix never counts more non-producer reports than the whole.
proof fn lemma_reports_nonproducer_prefix(s: Seq<BlockTraceAggregatorReport>, k: int)
    requires
        0 <= k <= s.len(),
    ensures
        reports_nonproducer_count(s.take(k)) <= reports_nonproducer_count(s),
    decreases s.len() - k,
{
    if k < s.len() {
        lemma_reports_nonproducer_prefix(s, k + 1)  ;
        assert(s.take(k + 1).drop_last() =~= s.take(k));
        assert(s.take(k + 1).last() == s[k]);
    } else {
        assert(s.take(k) =~= s);
    }
}

/// A prefix never counts more producer reports than the whole.
proof fn lemma_reports_producer_prefix(s: Seq<BlockTraceAggregatorReport>, k: int)
    requires
        0 <= k <= s.len(),
    ensures
        reports_producer_count(s.take(k)) <= reports_producer_count(s),
    decreases s.len() - k,
{
    if k < s.len() {
        lemma_reports_producer_prefix(s, k + 1)  ;
        assert(s.take(k + 1).drop_last() =~= s.take(k));
        assert(s.take(k + 1).last() == s[k]);
    } else {
        assert(s.take(k) =~= s);
    }
}

/// A prefix of the blocks never counts more non-producer reports.
proof fn lemma_blocks_nonproducer_prefix(bs: Seq<Vec<BlockTraceAggregatorReport>>, k: int)
    requires
        0 <= k <= bs.len(),
    ensures
        blocks_nonproducer_count(bs.take(k)) <= blocks_nonproducer_count(bs),
    decreases bs.len() - k,
{
    if k < bs.len() {
        lemma_blocks_nonproducer_prefix(bs, k + 1)  ;
        assert(bs.take(k + 1).drop_last() =~= bs.take(k));
        assert(bs.take(k + 1).last() == bs[k]);
    } else {
        assert(bs.take(k) =~= bs);
    }
}

/// A prefix of the blocks never counts more producer reports.
proof fn lemma_blocks_producer_prefix(bs: Seq<Vec<BlockTraceAggregatorReport>>, k: int)
    requires
        0 <= k <= bs.len(),
    ensures
        blocks_producer_count(bs.take(k)) <= blocks_producer_count(bs),
    decreases bs.len() - k,
{
    if k < bs.len() {
        lemma_blocks_producer_prefix(bs, k + 1)  ;
        assert(bs.take(k + 1).drop_last() =~= bs.take(k));
        assert(bs.take(k + 1).last() == bs[k]);
    } else {
        assert(bs.take(k) =~= bs);
    }
}

/// A hash that is not among the first `i` keys never appears among the tx
/// keys computed from those entries.
proof fn lemma_tx_keys_fresh(
    keys: Seq<Seq<char>>,
    bs: Seq<Vec<BlockTraceAggregatorReport>>,
    all_keys: Seq<Seq<char>>,
    i: int,
)
    requires
        keys.len() == bs.len(),
        0 <= i < all_keys.len(),
        keys == all_keys.take(keys.len() as int),
        keys.len() <= i,
        forall|a: int, b: int|
            0 <= a < b < all_keys.len() ==> all_keys[a] != all_keys[b],
    ensures
        !blocks_tx_keys(keys, bs).contains(all_keys[i]),
    decreases bs.len(),
{
    if bs.len() > 0 {
        assert(keys.drop_last() =~= all_keys.take(keys.len() - 1));
        lemma_tx_keys_fresh(keys.drop_last(), bs.drop_last(), all_keys, i);
        assert(keys.last() == all_keys[keys.len() - 1]);
        assert(keys.last() != all_keys[i]);
        if reports_producer_tx(bs.last()@) is Some {
            let t = blocks_tx_keys(keys.drop_last(), bs.drop_last()).push(keys.last());
            assert forall|l: int| 0 <= l < t.len() implies t[l] != all_keys[i] by {
                if l < t.len() - 1 {
                    assert(!blocks_tx_keys(keys.drop_last(), bs.drop_last()).contains(
                        all_keys[i],
                    ));
                }
            }
            if t.contains(all_keys[i]) {
                let l = choose|l: int| 0 <= l < t.len() && t[l] == all_keys[i];
                assert(t[l] != all_keys[i]);
            }
        }
    }
}


/// The first global slot any report of the block carries, scanning in
/// report order.
pub open spec fn first_global_slot(s: Seq<BlockTraceAggregatorReport>) -> Option<Seq<char>>
    decreases s.len(),
{
    if s.len() == 0 {
        None
    } else {
        match first_global_slot(s.drop_last()) {
            Some(g) => Some(g),
            None => match s.last().global_slot {
                Some(g) => Some(g@),
                None => None,
            },
        }
    }
}

/// The first transaction count any report of the block carries.
pub open spec fn first_tx_count(s: Seq<BlockTraceAggregatorReport>) -> Option<usize>
    decreases s.len(),
{
    if s.len() == 0 {
        None
    } else {
        match first_tx_count(s.drop_last()) {
            Some(t) => Some(t),
            None => s.last().included_tranasction_count,
        }
    }
}

/// The first start time any report of the block carries.
pub open spec fn first_date_time(s: Seq<BlockTraceAggregatorReport>) -> Option<i64>
    decreases s.len(),
{
    if s.len() == 0 {
        None
    } else {
        match first_date_time(s.drop_last()) {
            Some(t) => Some(t),
            None => s.last().date_time,
        }
    }
}

/// The first producer identity any report of the block carries.
pub open spec fn first_block_producer(s: Seq<BlockTraceAggregatorReport>) -> Option<Seq<char>>
    decreases s.len(),
{
    if s.len() == 0 {
        None
    } else {
        match first_block_producer(s.drop_last()) {
            Some(g) => Some(g),
            None => match s.last().block_producer {
                Some(g) => Some(g@),
                None => None,
            },
        }
    }
}

/// The nodes flagged as producers, in report order.
pub open spec fn producer_nodes_of(s: Seq<BlockTraceAggregatorReport>) -> Seq<Seq<char>>
    decreases s.len(),
{
    if s.len() == 0 {
        Seq::empty()
    } else {
        let rest = producer_nodes_of(s.drop_last());
        if s.last().is_producer {
            rest.push(s.last().node@)
        } else {
            rest
        }
    }
}

/// The view of an optional string.
pub open spec fn opt_str_view(o: Option<String>) -> Option<Seq<char>> {
    match o {
        Some(g) => Some(g@),
        None => None,
    }
}

/// Whether `pt` restates the timing fields of `rep`.
pub open spec fn spec_peer_timing_ok(pt: PeerTiming, rep: BlockTraceAggregatorReport) -> bool {
    &&& pt.node@ == rep.node@
    &&& pt.block_processing_time == rep.block_application
    &&& pt.receive_latency == rep.receive_latency
}

/// Whether `sum` is the block summary the specification prescribes for the
/// block `hash` with reports `s`.
pub open spec fn spec_block_summary_ok(
    sum: BlockSummary,
    hash: Seq<char>,
    height: usize,
    s: Seq<BlockTraceAggregatorReport>,
) -> bool {
    &&& sum.height == height
    &&& sum.block_hash@ == hash
    &&& opt_str_view(sum.global_slot) == first_global_slot(s)
    &&& sum.tx_count == first_tx_count(s)
    &&& sum.date_time == first_date_time(s)
    &&& opt_str_view(sum.block_producer) == first_block_producer(s)
    &&& sum.block_producer_nodes@.map_values(|t: String| t@) == producer_nodes_of(s)
    &&& sum.max_receive_latency == (match seq_i64_max(reports_recv_latencies(s)) {
        Some(m) => m,
        None => 0i64,
    })
    &&& sum.peer_timings@.len() == s.len()
    &&& forall|i: int| 0 <= i < s.len() ==> spec_peer_timing_ok(#[trigger] sum.peer_timings@[i], s[i])
}

impl AggregatedBlockTraces {
    /// One summary per block: the first-reported identity fields, the
    /// producer set, the greatest non-producer receive latency (zero when
    /// none was measured), and each peer's timings.
    pub fn block_summaries(&self, height: usize) -> (r: TagMap<BlockSummary>)
        requires
            self.wf(),
        ensures
            r.wf(),
            r.keys_view() == self.inner.keys_view(),
            r.vals_seq().len() == self.inner.vals_seq().len(),
            forall|b: int|
                0 <= b < r.vals_seq().len() ==> spec_block_summary_ok(
                    #[trigger] r.vals_seq()[b],
                    self.inner.keys_view()[b],
                    height,
                    self.inner.vals_seq()[b]@,
                ),
    {
        let n = self.inner.len();
        let ghost bk = self.inner.keys_view();
        let ghost bs = self.inner.vals_seq();
        let mut out: TagMap<BlockSummary> = TagMap::new();
        let mut b: usize = 0;
        while b < n
            invariant
                self.wf(),
                bk == self.inner.keys_view(),
                bs == self.inner.vals_seq(),
                n == bk.len(),
                b <= n,
                out.wf(),
                out.keys_view() == bk.take(b as int),
                out.vals_seq().len() == b,
                forall|l: int|
                    0 <= l < b ==> spec_block_summary_ok(
                        #[trigger] out.vals_seq()[l],
                        bk[l],
                        height,
                        bs[l]@,
                    ),
            decreases n - b,
        {
            let block_hash: &String = self.inner.key_at(b);
            let reports = self.inner.val_at(b);
            let ghost rs = reports@;
            let m = reports.len();

            let mut global_slot: Option<String> = None;
            let mut tx_count: Option<usize> = None;
            let mut date_time: Option<i64> = None;
            let mut block_producer: Option<String> = None;
            let mut block_producer_nodes: Vec<String> = Vec::new();
            let mut max_latency: Option<i64> = None;
            let mut peer_timings: Vec<PeerTiming> = Vec::new();
            proof {
                assert(rs.take(0) =~= Seq::<BlockTraceAggregatorReport>::empty());
                assert(block_producer_nodes@.map_values(|t: String| t@) =~= Seq::<
                    Seq<char>,
                >::empty());
            }
            let mut i: usize = 0;
            while i < m
                invariant
                    self.wf(),
                    b < bk.len(),
                    bk == self.inner.keys_view(),
                    bs == self.inner.vals_seq(),
                    rs == bs[b as int]@,
                    m == rs.len(),
                    i <= m,
                    opt_str_view(global_slot) == first_global_slot(rs.take(i as int)),
                    tx_count == first_tx_count(rs.take(i as int)),
                    date_time == first_date_time(rs.take(i as int)),
                    opt_str_view(block_producer) == first_block_producer(rs.take(i as int)),
                    block_producer_nodes@.map_values(|t: String| t@) == producer_nodes_of(
                        rs.take(i as int),
                    ),
                    max_latency == seq_i64_max(reports_recv_latencies(rs.take(i as int))),
                    peer_timings@.len() == i,
                    forall|l: int|
                        0 <= l < i ==> spec_peer_timing_ok(#[trigger] peer_timings@[l], rs[l]),
                decreases m - i,
            {
                proof {
                    assert(rs.take(i + 1).drop_last() =~= rs.take(i as int));
                    assert(rs.take(i + 1).last() == rs[i as int]);
                }
                let rep = &self.inner.val_at(b)[i];
                if global_slot.is_none() {
                    global_slot = match &rep.global_slot {
                        Some(g) => Some(g.clone()),
                        None => None,
                    };
                }
                if tx_count.is_none() {
                    tx_count = rep.included_tranasction_count;
                }
                if date_time.is_none() {
                    date_time = rep.date_time;
                }
                if block_producer.is_none() {
                    block_producer = match &rep.block_producer {
                        Some(g) => Some(g.clone()),
                        None => None,
                    };
                }
                let ghost prev_nodes = block_producer_nodes@.map_values(|t: String| t@);
                if rep.is_producer {
                    block_producer_nodes.push(rep.node.clone());
                    proof {
                        assert(block_producer_nodes@.map_values(|t: String| t@) =~= prev_nodes.push(
                            rs[i as int].node@,
                        ));
                    }
                }
                if !rep.is_producer {
                    match rep.receive_latency {
                        Some(lat) => {
                            proof {
                                let prev = reports_recv_latencies(rs.take(i as int));
                                let cur = reports_recv_latencies(rs.take(i + 1));
                                assert(cur == prev.push(lat));
                                assert(cur.drop_last() =~= prev);
                                assert(cur.last() == lat);
                            }
                            max_latency = match max_latency {
                                None => Some(lat),
                                Some(m0) => Some(
                                    if lat > m0 {
                                        lat
                                    } else {
                                        m0
                                    },
                                ),
                            };
                        },
                        None => {},
                    }
                }
                peer_timings.push(
                    PeerTiming {
                        node: rep.node.clone(),
                        block_processing_time: rep.block_application,
                        receive_latency: rep.receive_latency,
                    },
                );
                i = i + 1;
            }
            proof {
                assert(rs.take(m as int) =~= rs);
            }
            let summary = BlockSummary {
                block_hash: block_hash.clone(),
                global_slot,
                tx_count,
                date_time,
                block_producer,
                block_producer_nodes,
                max_receive_latency: match max_latency {
                    Some(m0) => m0,
                    None => 0,
                },
                peer_timings,
                height,
            };
            let ghost prev_keys = out.keys_view();
            proof {
                assert(!prev_keys.contains(bk[b as int])) by {
                    if bk.take(b as int).contains(bk[b as int]) {
                        let l = choose|l: int| 0 <= l < b && bk.take(b as int)[l] == bk[b as int];
                        assert(bk[l] == bk[b as int]);
                    }
                }
            }
            out.insert(block_hash.clone(), summary);
            proof {
                assert(out.keys_view() =~= bk.take(b + 1));
            }
            b = b + 1;
        }
        proof {
            assert(bk.take(n as int) =~= bk);
        }
        out
    }
}


/// In a well-formed trace set the block keys never repeat.
pub proof fn lemma_block_keys_unique(bt: AggregatedBlockTraces)
    requires
        bt.wf(),
    ensures
        forall|a: int, c: int|
            0 <= a < c < bt.inner.keys_view().len() ==> bt.inner.keys_view()[a]
                != bt.inner.keys_view()[c],
{
}

/// The per-block transaction keys and values have matching lengths.
pub proof fn lemma_tx_pairs_len(keys: Seq<Seq<char>>, bs: Seq<Vec<BlockTraceAggregatorReport>>)
    requires
        keys.len() == bs.len(),
    ensures
        blocks_tx_keys(keys, bs).len() == blocks_tx_vals(bs).len(),
    decreases bs.len(),
{
    if bs.len() > 0 {
        assert(keys.drop_last().len() == bs.drop_last().len());
        lemma_tx_pairs_len(keys.drop_last(), bs.drop_last());
    }
}


/// One block's application times are at most its non-producer reports.
proof fn lemma_reports_app_le(s: Seq<BlockTraceAggregatorReport>)
    ensures
        reports_app_times(s).len() <= reports_nonproducer_count(s),
    decreases s.len(),
{
    if s.len() > 0 {
        lemma_reports_app_le(s.drop_last());
    }
}

/// One block's receive latencies are at most its non-producer reports.
proof fn lemma_reports_recv_le(s: Seq<BlockTraceAggregatorReport>)
    ensures
        reports_recv_latencies(s).len() <= reports_nonproducer_count(s),
    decreases s.len(),
{
    if s.len() > 0 {
        lemma_reports_recv_le(s.drop_last());
    }
}

/// One block's production times are at most its producer reports.
proof fn lemma_reports_prod_le(s: Seq<BlockTraceAggregatorReport>)
    ensures
        reports_prod_times(s).len() <= reports_producer_count(s),
    decreases s.len(),
{
    if s.len() > 0 {
        lemma_reports_prod_le(s.drop_last());
    }
}

/// Application times never outnumber non-producer reports.
pub proof fn lemma_app_times_le_count(bs: Seq<Vec<BlockTraceAggregatorReport>>)
    ensures
        blocks_app_times(bs).len() <= blocks_nonproducer_count(bs),
    decreases bs.len(),
{
    if bs.len() > 0 {
        lemma_app_times_le_count(bs.drop_last());
        lemma_reports_app_le(bs.last()@);
    }
}

/// Receive latencies never outnumber non-producer reports.
pub proof fn lemma_recv_latencies_le_count(bs: Seq<Vec<BlockTraceAggregatorReport>>)
    ensures
        blocks_recv_latencies(bs).len() <= blocks_nonproducer_count(bs),
    decreases bs.len(),
{
    if bs.len() > 0 {
        lemma_recv_latencies_le_count(bs.drop_last());
        lemma_reports_recv_le(bs.last()@);
    }
}

/// Production times never outnumber producer reports.
pub proof fn lemma_prod_times_le_count(bs: Seq<Vec<BlockTraceAggregatorReport>>)
    ensures
        blocks_prod_times(bs).len() <= blocks_producer_count(bs),
    decreases bs.len(),
{
    if bs.len() > 0 {
        lemma_prod_times_le_count(bs.drop_last());
        lemma_reports_prod_le(bs.last()@);
    }
}

} // verus!
