//! Cross-validation of the two telemetry sources: the capture-side arrival
//! records against the trace-side block reports for the same height.
//!
//! Per block, the node sets of both sources are compared and, for every
//! non-producer report that also has a capture record, the difference
//! between the trace-reported start time and the capture receive time is
//! recorded.  A rolling aggregation over the most recent reports keeps, per
//! node, the least and greatest difference seen — the signal used to detect
//! systemic clock skew or telemetry gaps between builds.

use vstd::prelude::*;

use crate::aggregator_ipc::{CpnpBlockPublication, LatencyRecordV};
use crate::block_traces::{AggregatedBlockTraces, BlockTraceAggregatorReport};
use crate::block_traces::TIME_LIMIT;
use crate::maps::{find_first, tag_insert_keys, tag_insert_vals, TagMap};

verus! {

/// Bound on the capture receive timestamps accepted by the comparison, in
/// microseconds; it keeps every difference of a trace time and a capture
/// time inside `i64`.
pub const RECEIVE_TIME_LIMIT: u64 = 0x4000_0000_0000_0000;

/// The cross-validation verdict for one block.
#[derive(Debug, Clone)]
pub struct ValidationReport {
    pub received_time_comparison: TagMap<i64>,
    pub all_nodes_present: bool,
    pub missing_nodes: Vec<String>,
    pub producer_nodes: Vec<String>,
    pub height: usize,
}

impl ValidationReport {
    /// Well-formedness of the delta map.
    pub open spec fn wf(&self) -> bool {
        self.received_time_comparison.wf()
    }
}

/// The rolling aggregation of many validation reports.
#[derive(Debug, Clone)]
pub struct AggregateValidationReport {
    pub min_recevied_time_comparison: Option<TagMap<i64>>,
    pub max_recevied_time_comparison: Option<TagMap<i64>>,
    pub height_start: Option<usize>,
    pub height_end: Option<usize>,
    pub total_heights_checked: usize,
    pub total_blocks_checked: usize,
    pub all_nodes_present: Option<bool>,
}

/// The state of the per-block validation scan over one block's reports.
#[verifier::ext_equal]
pub ghost struct ValScanV {
    pub delta_keys: Seq<Seq<char>>,
    pub delta_vals: Seq<i64>,
    pub missing: Seq<Seq<char>>,
    pub producers: Seq<Seq<char>>,
}

/// The empty validation scan state.
pub open spec fn val_scan_init() -> ValScanV {
    ValScanV {
        delta_keys: Seq::empty(),
        delta_vals: Seq::empty(),
        missing: Seq::empty(),
        producers: Seq::empty(),
    }
}

/// One report applied to the validation scan: a node without a capture
/// record goes to the missing list, a producer to the producer list, and
/// any other node contributes its start-versus-receive delta.
pub open spec fn spec_val_step(
    st: ValScanV,
    rep: BlockTraceAggregatorReport,
    lat_keys: Seq<Seq<char>>,
    lat_vals: Seq<LatencyRecordV>,
) -> ValScanV {
    if !lat_keys.contains(rep.node@) {
        ValScanV { missing: st.missing.push(rep.node@), ..st }
    } else if rep.is_producer {
        ValScanV { producers: st.producers.push(rep.node@), ..st }
    } else {
        let rt = lat_vals[find_first(lat_keys, rep.node@)].receive_time;
        let delta: i64 = match rep.date_time {
            Some(t) => (t - rt) as i64,
            None => 0,
        };
        ValScanV {
            delta_keys: tag_insert_keys(st.delta_keys, rep.node@),
            delta_vals: tag_insert_vals(st.delta_keys, st.delta_vals, rep.node@, delta),
            ..st
        }
    }
}

/// The validation scan over all of one block's reports, in order.
pub open spec fn spec_val_scan(
    st: ValScanV,
    reps: Seq<BlockTraceAggregatorReport>,
    lat_keys: Seq<Seq<char>>,
    lat_vals: Seq<LatencyRecordV>,
) -> ValScanV
    decreases reps.len(),
{
    if reps.len() == 0 {
        st
    } else {
        spec_val_step(
            spec_val_scan(st, reps.drop_last(), lat_keys, lat_vals),
            reps.last(),
            lat_keys,
            lat_vals,
        )
    }
}

/// Whether `rep` is the verdict the specification prescribes for a block
/// with reports `reps` and capture records `(lat_keys, lat_vals)`.
pub open spec fn spec_validation_ok(
    rep: ValidationReport,
    height: usize,
    reps: Seq<BlockTraceAggregatorReport>,
    lat_keys: Seq<Seq<char>>,
    lat_vals: Seq<LatencyRecordV>,
) -> bool {
    let st = spec_val_scan(val_scan_init(), reps, lat_keys, lat_vals);
    &&& rep.height == height
    &&& rep.all_nodes_present == (reps.len() == lat_keys.len())
    &&& rep.received_time_comparison.keys_view() == st.delta_keys
    &&& rep.received_time_comparison.vals_seq() == st.delta_vals
    &&& rep.missing_nodes@.map_values(|t: String| t@) == st.missing
    &&& rep.producer_nodes@.map_values(|t: String| t@) == st.producers
}


/// In every verdict the scan produces, `all_nodes_present` holds exactly
/// when the trace side and the capture side saw equally many nodes for the
/// block.
pub proof fn lemma_all_nodes_present_iff(
    rep: ValidationReport,
    height: usize,
    reps: Seq<BlockTraceAggregatorReport>,
    lat_keys: Seq<Seq<char>>,
    lat_vals: Seq<LatencyRecordV>,
)
    requires
        spec_validation_ok(rep, height, reps, lat_keys, lat_vals),
    ensures
        rep.all_nodes_present <==> reps.len() == lat_keys.len(),
{
}

/// Whether every report of every block keeps its trace-reported start time
/// within the comparison bound.
pub open spec fn reports_time_wf(traces: AggregatedBlockTraces) -> bool {
    forall|b: int, i: int|
        0 <= b < traces.inner.vals_seq().len() && 0 <= i
            < traces.inner.vals_seq()[b]@.len() ==> match (
        #[trigger] traces.inner.vals_seq()[b]@[i]).date_time {
            Some(t) => -TIME_LIMIT <= t <= TIME_LIMIT,
            None => true,
        }
}

/// Whether every capture record of every publication keeps its receive time
/// within the comparison bound.
pub open spec fn ipc_time_wf(ipc: TagMap<CpnpBlockPublication>) -> bool {
    forall|b: int, i: int|
        0 <= b < ipc.vals_seq().len() && 0 <= i
            < ipc.vals_seq()[b].node_latencies.vals_seq().len() ==> (
        #[trigger] ipc.vals_seq()[b].node_latencies.vals_seq()[i]).receive_time
            <= RECEIVE_TIME_LIMIT
}

/// The capture-record keys of the publication stored for hash `h`, or the
/// empty sequence when the capture saw no such block.
pub open spec fn ipc_lat_keys(ipc: TagMap<CpnpBlockPublication>, h: Seq<char>) -> Seq<Seq<char>> {
    if ipc.spec_contains(h) {
        ipc.spec_get(h).node_latencies.keys_view()
    } else {
        Seq::empty()
    }
}

/// The capture records matching `ipc_lat_keys`.
pub open spec fn ipc_lat_vals(ipc: TagMap<CpnpBlockPublication>, h: Seq<char>) -> Seq<
    LatencyRecordV,
> {
    if ipc.spec_contains(h) {
        ipc.spec_get(h).node_latencies.vals_seq().map_values(
            |r: crate::aggregator_ipc::CpnpLatencyAggregationData| r@,
        )
    } else {
        Seq::empty()
    }
}

/// Compares, per block of `traces`, the trace-side reports against the
/// capture-side arrival records of the same hash, producing one verdict per
/// block hash.  `all_nodes_present` holds exactly when both sources saw the
/// same number of nodes.
pub fn cross_validate_ipc_with_traces(
    traces: &AggregatedBlockTraces,
    ipc_reports: &TagMap<CpnpBlockPublication>,
    height: usize,
) -> (r: TagMap<ValidationReport>)
    requires
        traces.wf(),
        ipc_reports.wf(),
        reports_time_wf(*traces),
        ipc_time_wf(*ipc_reports),
        forall|b: int|
            0 <= b < ipc_reports.vals_seq().len() ==> (
            #[trigger] ipc_reports.vals_seq()[b]).node_latencies.wf(),
    ensures
        r.wf(),
        r.keys_view() == traces.inner.keys_view(),
        r.vals_seq().len() == traces.inner.vals_seq().len(),
        forall|b: int|
            0 <= b < r.vals_seq().len() ==> (#[trigger] r.vals_seq()[b]).wf()
                && spec_validation_ok(
                r.vals_seq()[b],
                height,
                traces.inner.vals_seq()[b]@,
                ipc_lat_keys(*ipc_reports, traces.inner.keys_view()[b]),
                ipc_lat_vals(*ipc_reports, traces.inner.keys_view()[b]),
            ),
{
    let n = traces.inner().len();
    let ghost bk = traces.inner.keys_view();
    let ghost bs = traces.inner.vals_seq();
    let mut out: TagMap<ValidationReport> = TagMap::new();
    let mut b: usize = 0;
    while b < n
        invariant
            traces.wf(),
            ipc_reports.wf(),
            reports_time_wf(*traces),
            ipc_time_wf(*ipc_reports),
            forall|l: int|
                0 <= l < ipc_reports.vals_seq().len() ==> (
                #[trigger] ipc_reports.vals_seq()[l]).node_latencies.wf(),
            bk == traces.inner.keys_view(),
            bs == traces.inner.vals_seq(),
            n == bk.len(),
            b <= n,
            out.wf(),
            out.keys_view() == bk.take(b as int),
            out.vals_seq().len() == b,
            forall|l: int|
                0 <= l < b ==> (#[trigger] out.vals_seq()[l]).wf() && spec_validation_ok(
                    out.vals_seq()[l],
                    height,
                    bs[l]@,
                    ipc_lat_keys(*ipc_reports, bk[l]),
                    ipc_lat_vals(*ipc_reports, bk[l]),
                ),
        decreases n - b,
    {
        let block_hash: &String = traces.inner().key_at(b);
        let reports = traces.inner().val_at(b);
        let ghost lat_keys = ipc_lat_keys(*ipc_reports, bk[b as int]);
        let ghost lat_vals = ipc_lat_vals(*ipc_reports, bk[b as int]);

        let capture_len: usize = match ipc_reports.get(block_hash) {
            Some(p) => p.node_latencies.len(),
            None => 0,
        };

        let mut report = ValidationReport {
            received_time_comparison: TagMap::new(),
            all_nodes_present: reports.len() == capture_len,
            missing_nodes: Vec::new(),
            producer_nodes: Vec::new(),
            height,
        };
        let ghost rs = reports@;
        let m = reports.len();
        proof {
            assert(rs.take(0) =~= Seq::<BlockTraceAggregatorReport>::empty());
            assert(report.missing_nodes@.map_values(|t: String| t@) =~= Seq::<Seq<char>>::empty());
            assert(report.producer_nodes@.map_values(|t: String| t@) =~= Seq::<Seq<char>>::empty());
            assert(spec_val_scan(val_scan_init(), rs.take(0), lat_keys, lat_vals)
                =~~= val_scan_init());
        }
        let mut i: usize = 0;
        while i < m
            invariant
                traces.wf(),
                ipc_reports.wf(),
                reports_time_wf(*traces),
                ipc_time_wf(*ipc_reports),
                forall|l: int|
                    0 <= l < ipc_reports.vals_seq().len() ==> (
                    #[trigger] ipc_reports.vals_seq()[l]).node_latencies.wf(),
                b < bk.len(),
                bk == traces.inner.keys_view(),
                bs == traces.inner.vals_seq(),
                rs == bs[b as int]@,
                lat_keys == ipc_lat_keys(*ipc_reports, bk[b as int]),
                lat_vals == ipc_lat_vals(*ipc_reports, bk[b as int]),
                block_hash@ == bk[b as int],
                m == rs.len(),
                i <= m,
                report.wf(),
                report.height == height,
                report.all_nodes_present == (rs.len() == lat_keys.len()),
                ({
                    let st = spec_val_scan(val_scan_init(), rs.take(i as int), lat_keys, lat_vals);
                    &&& report.received_time_comparison.keys_view() == st.delta_keys
                    &&& report.received_time_comparison.vals_seq() == st.delta_vals
                    &&& report.missing_nodes@.map_values(|t: String| t@) == st.missing
                    &&& report.producer_nodes@.map_values(|t: String| t@) == st.producers
                }),
            decreases m - i,
        {
            proof {
                assert(rs.take(i + 1).drop_last() =~= rs.take(i as int));
                assert(rs.take(i + 1).last() == rs[i as int]);
            }
            let rep = &traces.inner().val_at(b)[i];
            let ghost prev_missing = report.missing_nodes@.map_values(|t: String| t@);
            let ghost prev_producers = report.producer_nodes@.map_values(|t: String| t@);
            let capture_record: Option<u64> = match ipc_reports.get(block_hash) {
                Some(p) => {
                    match p.node_latencies.get(&rep.node) {
                        Some(d) => Some(d.receive_time),
                        None => None,
                    }
                },
                None => None,
            };
            match capture_record {
                None => {
                    proof {
                        assert(!lat_keys.contains(rep.node@));
                    }
                    report.missing_nodes.push(rep.node.clone());
                    proof {
                        assert(report.missing_nodes@.map_values(|t: String| t@)
                            =~= prev_missing.push(rs[i as int].node@));
                    }
                },
                Some(rt) => {
                    proof {
                        assert(lat_keys.contains(rep.node@));
                        assert(lat_vals[find_first(lat_keys, rep.node@)].receive_time == rt);
                        assert(rt <= RECEIVE_TIME_LIMIT);
                    }
                    if rep.is_producer {
                        report.producer_nodes.push(rep.node.clone());
                        proof {
                            assert(report.producer_nodes@.map_values(|t: String| t@)
                                =~= prev_producers.push(rs[i as int].node@));
                        }
                    } else {
                        proof {
                            assert(reports_time_wf(*traces));
                            assert(match rs[i as int].date_time {
                                Some(t) => -TIME_LIMIT <= t <= TIME_LIMIT,
                                None => true,
                            });
                        }
                        let delta: i64 = match rep.date_time {
                            Some(t) => t - (rt as i64),
                            None => 0,
                        };
                        report.received_time_comparison.insert(rep.node.clone(), delta);
                    }
                },
            }
            i = i + 1;
        }
        proof {
            assert(rs.take(m as int) =~= rs);
        }
        let ghost prev_keys = out.keys_view();
        proof {
            assert(!prev_keys.contains(bk[b as int])) by {
                assert(prev_keys =~= bk.take(b as int));
                if bk.take(b as int).contains(bk[b as int]) {
                    let l = choose|l: int|
                        0 <= l < b && bk.take(b as int)[l] == bk[b as int];
                    assert(bk[l] == bk[b as int]);
                }
            }
        }
        out.insert(block_hash.clone(), report);
        proof {
            assert(out.keys_view() =~= bk.take(b + 1));
        }
        b = b + 1;
    }
    proof {
        assert(bk.take(n as int) =~= bk);
    }
    out
}


/// The key set of two delta maps merged: the first map's keys, then the
/// second's new ones in their order.
pub open spec fn keys_union(ak: Seq<Seq<char>>, bk: Seq<Seq<char>>) -> Seq<Seq<char>>
    decreases bk.len(),
{
    if bk.len() == 0 {
        ak
    } else {
        tag_insert_keys(keys_union(ak, bk.drop_last()), bk.last())
    }
}

/// The merged value under `k`: the smaller of the two values where both
/// maps know `k`, otherwise whichever one does.
pub open spec fn merged_min_val(
    ak: Seq<Seq<char>>,
    av: Seq<i64>,
    bk: Seq<Seq<char>>,
    bv: Seq<i64>,
    k: Seq<char>,
) -> i64 {
    if ak.contains(k) && bk.contains(k) {
        if av[find_first(ak, k)] < bv[find_first(bk, k)] {
            av[find_first(ak, k)]
        } else {
            bv[find_first(bk, k)]
        }
    } else if ak.contains(k) {
        av[find_first(ak, k)]
    } else {
        bv[find_first(bk, k)]
    }
}

/// Counterpart of `merged_min_val` for the larger value.
pub open spec fn merged_max_val(
    ak: Seq<Seq<char>>,
    av: Seq<i64>,
    bk: Seq<Seq<char>>,
    bv: Seq<i64>,
    k: Seq<char>,
) -> i64 {
    if ak.contains(k) && bk.contains(k) {
        if av[find_first(ak, k)] > bv[find_first(bk, k)] {
            av[find_first(ak, k)]
        } else {
            bv[find_first(bk, k)]
        }
    } else if ak.contains(k) {
        av[find_first(ak, k)]
    } else {
        bv[find_first(bk, k)]
    }
}

/// Whether `r` is the keywise merge of the delta maps `a` and `b` under the
/// value merge `min_merge ? merged_min_val : merged_max_val`.
pub open spec fn is_merged(r: TagMap<i64>, a: TagMap<i64>, b: TagMap<i64>, min_merge: bool) -> bool {
    &&& r.keys_view() == keys_union(a.keys_view(), b.keys_view())
    &&& r.vals_seq().len() == r.keys_view().len()
    &&& forall|i: int|
        0 <= i < r.keys_view().len() ==> r.vals_seq()[i] == (if min_merge {
            merged_min_val(
                a.keys_view(),
                a.vals_seq(),
                b.keys_view(),
                b.vals_seq(),
                #[trigger] r.keys_view()[i],
            )
        } else {
            merged_max_val(
                a.keys_view(),
                a.vals_seq(),
                b.keys_view(),
                b.vals_seq(),
                r.keys_view()[i],
            )
        })
}

/// Merges two delta maps keywise, taking the smaller (`min_merge`) or the
/// larger value where both maps know a node.
fn merge_delta_maps(a: &TagMap<i64>, b: &TagMap<i64>, min_merge: bool) -> (r: TagMap<i64>)
    requires
        a.wf(),
        b.wf(),
    ensures
        r.wf(),
        is_merged(r, *a, *b, min_merge),
{
    let ghost ak = a.keys_view();
    let ghost av = a.vals_seq();
    let ghost bk = b.keys_view();
    let ghost bv = b.vals_seq();
    let mut out: TagMap<i64> = TagMap::new();
    let an = a.len();
    proof {
        assert(bk.take(0) =~= Seq::<Seq<char>>::empty());
    }
    let mut i: usize = 0;
    while i < an
        invariant
            a.wf(),
            b.wf(),
            ak == a.keys_view(),
            av == a.vals_seq(),
            bk == b.keys_view(),
            bv == b.vals_seq(),
            an == ak.len(),
            i <= an,
            out.wf(),
            out.keys_view() == ak.take(i as int),
            out.vals_seq().len() == i,
            forall|l: int|
                0 <= l < i ==> out.vals_seq()[l] == (if min_merge {
                    merged_min_val(ak, av, bk, bv, #[trigger] out.keys_view()[l])
                } else {
                    merged_max_val(ak, av, bk, bv, out.keys_view()[l])
                }),
        decreases an - i,
    {
        let k: &String = a.key_at(i);
        proof {
            assert(k@ == ak[i as int]);
            crate::maps::lemma_unique_find(ak, i as int, k@);
            assert(!ak.take(i as int).contains(k@)) by {
                if ak.take(i as int).contains(k@) {
                    let l = choose|l: int| 0 <= l < i && ak.take(i as int)[l] == k@;
                    assert(ak[l] == ak[i as int]);
                }
            }
        }
        let va: i64 = *a.val_at(i);
        let merged: i64 = match b.get(k) {
            Some(vb) => {
                if min_merge {
                    if va < *vb {
                        va
                    } else {
                        *vb
                    }
                } else {
                    if va > *vb {
                        va
                    } else {
                        *vb
                    }
                }
            },
            None => va,
        };
        out.insert(k.clone(), merged);
        proof {
            assert(out.keys_view() =~= ak.take(i + 1));
        }
        i = i + 1;
    }
    proof {
        assert(ak.take(an as int) =~= ak);
        assert(keys_union(ak, bk.take(0)) == ak);
    }
    let bn = b.len();
    let mut j: usize = 0;
    while j < bn
        invariant
            a.wf(),
            b.wf(),
            ak == a.keys_view(),
            av == a.vals_seq(),
            bk == b.keys_view(),
            bv == b.vals_seq(),
            bn == bk.len(),
            j <= bn,
            out.wf(),
            out.keys_view() == keys_union(ak, bk.take(j as int)),
            out.vals_seq().len() == out.keys_view().len(),
            forall|l: int|
                0 <= l < out.keys_view().len() ==> out.vals_seq()[l] == (if min_merge {
                    merged_min_val(ak, av, bk, bv, #[trigger] out.keys_view()[l])
                } else {
                    merged_max_val(ak, av, bk, bv, out.keys_view()[l])
                }),
            forall|k2: Seq<char>| #[trigger]
                out.keys_view().contains(k2) <==> (ak.contains(k2) || bk.take(
                    j as int,
                ).contains(k2)),
        decreases bn - j,
    {
        proof {
            assert(bk.take(j + 1).drop_last() =~= bk.take(j as int));
            assert(bk.take(j + 1).last() == bk[j as int]);
        }
        let k: &String = b.key_at(j);
        proof {
            assert(k@ == bk[j as int]);
            crate::maps::lemma_unique_find(bk, j as int, k@);
            assert(bk.contains(k@));
        }
        if !a.contains_key(k) && !out.contains_key(k) {
            let vb: i64 = *b.val_at(j);
            let ghost old_out = out;
            out.insert(k.clone(), vb);
            proof {
                assert(out.keys_view() =~= keys_union(ak, bk.take(j + 1)));
                assert(out.keys_view() == old_out.keys_view().push(k@));
                assert forall|k2: Seq<char>| #[trigger]
                    out.keys_view().contains(k2) <==> (ak.contains(k2) || bk.take(
                        j + 1,
                    ).contains(k2)) by {
                    crate::maps::lemma_contains_take_succ(bk, j as int, k2);
                    assert(old_out.keys_view().contains(k2) <==> (ak.contains(k2) || bk.take(
                        j as int,
                    ).contains(k2)));
                    if old_out.keys_view().contains(k2) {
                        let l = choose|l: int|
                            0 <= l < old_out.keys_view().len() && old_out.keys_view()[l] == k2;
                        assert(out.keys_view()[l] == k2);
                        assert(out.keys_view().contains(k2));
                    }
                    if k2 == k@ {
                        assert(out.keys_view()[old_out.keys_view().len() as int] == k2);
                        assert(out.keys_view().contains(k2));
                    }
                    if out.keys_view().contains(k2) {
                        let l = choose|l: int|
                            0 <= l < out.keys_view().len() && out.keys_view()[l] == k2;
                        if l < old_out.keys_view().len() {
                            assert(old_out.keys_view()[l] == k2);
                        } else {
                            assert(k2 == k@);
                        }
                    }
                }
            }
        } else {
            proof {
                assert(out.keys_view().contains(k@));
                assert(keys_union(ak, bk.take(j + 1)) == keys_union(ak, bk.take(j as int)));
                assert forall|k2: Seq<char>| #[trigger]
                    out.keys_view().contains(k2) <==> (ak.contains(k2) || bk.take(
                        j + 1,
                    ).contains(k2)) by {
                    crate::maps::lemma_contains_take_succ(bk, j as int, k2);
                    if k2 == k@ {
                        assert(out.keys_view().contains(k2));
                    }
                }
            }
        }
        j = j + 1;
    }
    proof {
        assert(bk.take(bn as int) =~= bk);
    }
    out
}

/// The delta maps of the reports reduced pairwise by the min merge (or max
/// merge), in report order; `None` with no reports at all.
#[verifier::ext_equal]
pub ghost struct DeltaMapV {
    pub keys: Seq<Seq<char>>,
    pub vals: Seq<i64>,
}

/// The reduction of all reports' delta maps, seeded with the first report's
/// own map.
pub open spec fn spec_delta_fold(reps: Seq<ValidationReport>, min_merge: bool) -> Option<DeltaMapV>
    decreases reps.len(),
{
    if reps.len() == 0 {
        None
    } else {
        match spec_delta_fold(reps.drop_last(), min_merge) {
            None => Some(
                DeltaMapV {
                    keys: reps.last().received_time_comparison.keys_view(),
                    vals: reps.last().received_time_comparison.vals_seq(),
                },
            ),
            Some(acc) => Some(
                spec_merge_v(acc, reps.last().received_time_comparison, min_merge),
            ),
        }
    }
}

/// The merge of an accumulated delta map with one report's map.
pub open spec fn spec_merge_v(acc: DeltaMapV, b: TagMap<i64>, min_merge: bool) -> DeltaMapV {
    DeltaMapV {
        keys: keys_union(acc.keys, b.keys_view()),
        vals: Seq::new(
            keys_union(acc.keys, b.keys_view()).len(),
            |i: int|
                if min_merge {
                    merged_min_val(
                        acc.keys,
                        acc.vals,
                        b.keys_view(),
                        b.vals_seq(),
                        keys_union(acc.keys, b.keys_view())[i],
                    )
                } else {
                    merged_max_val(
                        acc.keys,
                        acc.vals,
                        b.keys_view(),
                        b.vals_seq(),
                        keys_union(acc.keys, b.keys_view())[i],
                    )
                },
        ),
    }
}

/// The conjunction of `all_nodes_present` over the reports, `None` with no
/// reports.
pub open spec fn spec_all_present(reps: Seq<ValidationReport>) -> Option<bool>
    decreases reps.len(),
{
    if reps.len() == 0 {
        None
    } else {
        match spec_all_present(reps.drop_last()) {
            None => Some(reps.last().all_nodes_present),
            Some(a) => Some(a && reps.last().all_nodes_present),
        }
    }
}

/// All reports of a window of per-block verdict maps, window entry by
/// window entry.
pub open spec fn flat_reports(maps: Seq<TagMap<ValidationReport>>) -> Seq<ValidationReport>
    decreases maps.len(),
{
    if maps.len() == 0 {
        Seq::empty()
    } else {
        flat_reports(maps.drop_last()) + maps.last().vals_seq()
    }
}


/// A window prefix never holds more reports than the window.
proof fn lemma_flat_prefix(maps: Seq<TagMap<ValidationReport>>, k: int)
    requires
        0 <= k <= maps.len(),
    ensures
        flat_reports(maps.take(k)).len() <= flat_reports(maps).len(),
    decreases maps.len() - k,
{
    if k < maps.len() {
        lemma_flat_prefix(maps, k + 1);
        assert(maps.take(k + 1).drop_last() =~= maps.take(k));
        assert(maps.take(k + 1).last() == maps[k]);
    } else {
        assert(maps.take(k) =~= maps);
    }
}

/// Copies a delta map.
fn copy_delta_map(m: &TagMap<i64>) -> (r: TagMap<i64>)
    requires
        m.wf(),
    ensures
        r.wf(),
        r.keys_view() == m.keys_view(),
        r.vals_seq() == m.vals_seq(),
{
    let n = m.len();
    let ghost mk = m.keys_view();
    let ghost mv = m.vals_seq();
    let mut out: TagMap<i64> = TagMap::new();
    let mut i: usize = 0;
    while i < n
        invariant
            m.wf(),
            mk == m.keys_view(),
            mv == m.vals_seq(),
            n == mk.len(),
            i <= n,
            out.wf(),
            out.keys_view() == mk.take(i as int),
            out.vals_seq() == mv.take(i as int),
        decreases n - i,
    {
        proof {
            assert(!mk.take(i as int).contains(mk[i as int])) by {
                if mk.take(i as int).contains(mk[i as int]) {
                    let l = choose|l: int| 0 <= l < i && mk.take(i as int)[l] == mk[i as int];
                    assert(mk[l] == mk[i as int]);
                }
            }
        }
        out.insert(m.key_at(i).clone(), *m.val_at(i));
        proof {
            assert(out.keys_view() =~= mk.take(i + 1));
            assert(out.vals_seq() =~= mv.take(i + 1));
        }
        i = i + 1;
    }
    proof {
        assert(mk.take(n as int) =~= mk);
        assert(mv.take(n as int) =~= mv);
    }
    out
}

/// Aggregates a window of per-block verdicts: the span of heights checked,
/// the number of blocks, whether all nodes were present throughout, and the
/// per-node least and greatest start-versus-receive difference seen across
/// the window.
pub fn aggregate_cross_validations(cross_validations: Vec<TagMap<ValidationReport>>) -> (r:
    AggregateValidationReport)
    requires
        forall|i: int|
            0 <= i < cross_validations@.len() ==> (#[trigger] cross_validations@[i]).wf(),
        forall|i: int, b: int|
            0 <= i < cross_validations@.len() && 0 <= b
                < cross_validations@[i].vals_seq().len() ==> (
            #[trigger] cross_validations@[i].vals_seq()[b]).wf(),
        flat_reports(cross_validations@).len() <= usize::MAX,
    ensures
        r.total_heights_checked == cross_validations@.len(),
        r.total_blocks_checked == flat_reports(cross_validations@).len(),
        r.height_start == (if cross_validations@.len() > 0 && cross_validations@[0].vals_seq().len()
            > 0 {
            Some(cross_validations@[0].vals_seq()[0].height)
        } else {
            None::<usize>
        }),
        r.height_end == (if cross_validations@.len() > 0 && cross_validations@.last().vals_seq().len()
            > 0 {
            Some(cross_validations@.last().vals_seq()[0].height)
        } else {
            None::<usize>
        }),
        r.all_nodes_present == spec_all_present(flat_reports(cross_validations@)),
        match (r.min_recevied_time_comparison, spec_delta_fold(
            flat_reports(cross_validations@),
            true,
        )) {
            (Some(m), Some(v)) => m.wf() && m.keys_view() == v.keys && m.vals_seq() == v.vals,
            (None, None) => true,
            _ => false,
        },
        match (r.max_recevied_time_comparison, spec_delta_fold(
            flat_reports(cross_validations@),
            false,
        )) {
            (Some(m), Some(v)) => m.wf() && m.keys_view() == v.keys && m.vals_seq() == v.vals,
            (None, None) => true,
            _ => false,
        },
{
    let ghost maps = cross_validations@;
    let n = cross_validations.len();
    let total_heights_checked = n;

    let height_start: Option<usize> = if n > 0 && cross_validations[0].len() > 0 {
        Some(cross_validations[0].val_at(0).height)
    } else {
        None
    };
    let height_end: Option<usize> = if n > 0 && cross_validations[n - 1].len() > 0 {
        Some(cross_validations[n - 1].val_at(0).height)
    } else {
        None
    };

    let mut total_blocks_checked: usize = 0;
    let mut all_nodes_present: Option<bool> = None;
    let mut min_acc: Option<TagMap<i64>> = None;
    let mut max_acc: Option<TagMap<i64>> = None;
    proof {
        assert(maps.take(0) =~= Seq::<TagMap<ValidationReport>>::empty());
    }
    let mut i: usize = 0;
    while i < n
        invariant
            maps == cross_validations@,
            forall|l: int| 0 <= l < maps.len() ==> (#[trigger] maps[l]).wf(),
            forall|l: int, b: int|
                0 <= l < maps.len() && 0 <= b < maps[l].vals_seq().len() ==> (
                #[trigger] maps[l].vals_seq()[b]).wf(),
            flat_reports(maps).len() <= usize::MAX,
            n == maps.len(),
            i <= n,
            total_blocks_checked == flat_reports(maps.take(i as int)).len(),
            all_nodes_present == spec_all_present(flat_reports(maps.take(i as int))),
            match (min_acc, spec_delta_fold(flat_reports(maps.take(i as int)), true)) {
                (Some(m), Some(v)) => m.wf() && m.keys_view() == v.keys && m.vals_seq() == v.vals,
                (None, None) => true,
                _ => false,
            },
            match (max_acc, spec_delta_fold(flat_reports(maps.take(i as int)), false)) {
                (Some(m), Some(v)) => m.wf() && m.keys_view() == v.keys && m.vals_seq() == v.vals,
                (None, None) => true,
                _ => false,
            },
        decreases n - i,
    {
        proof {
            assert(maps.take(i + 1).drop_last() =~= maps.take(i as int));
            assert(maps.take(i + 1).last() == maps[i as int]);
            lemma_flat_prefix(maps, i + 1);
        }
        let m = cross_validations[i].len();
        let ghost rs = maps[i as int].vals_seq();
        let ghost base = flat_reports(maps.take(i as int));
        let mut b: usize = 0;
        while b < m
            invariant
                maps == cross_validations@,
                forall|l: int| 0 <= l < maps.len() ==> (#[trigger] maps[l]).wf(),
                forall|l: int, bb: int|
                    0 <= l < maps.len() && 0 <= bb < maps[l].vals_seq().len() ==> (
                    #[trigger] maps[l].vals_seq()[bb]).wf(),
                i < maps.len(),
                n == maps.len(),
                rs == maps[i as int].vals_seq(),
                base == flat_reports(maps.take(i as int)),
                base.len() + rs.len() <= usize::MAX,
                m == rs.len(),
                b <= m,
                total_blocks_checked == base.len() + b,
                all_nodes_present == spec_all_present(base + rs.take(b as int)),
                match (min_acc, spec_delta_fold(base + rs.take(b as int), true)) {
                    (Some(mm), Some(v)) => mm.wf() && mm.keys_view() == v.keys && mm.vals_seq()
                        == v.vals,
                    (None, None) => true,
                    _ => false,
                },
                match (max_acc, spec_delta_fold(base + rs.take(b as int), false)) {
                    (Some(mm), Some(v)) => mm.wf() && mm.keys_view() == v.keys && mm.vals_seq()
                        == v.vals,
                    (None, None) => true,
                    _ => false,
                },
            decreases m - b,
        {
            proof {
                assert((base + rs.take(b + 1)).drop_last() =~= base + rs.take(b as int));
                assert((base + rs.take(b + 1)).last() == rs[b as int]);
                assert(rs[b as int].wf());
            }
            let rep = cross_validations[i].val_at(b);
            total_blocks_checked = total_blocks_checked + 1;
            all_nodes_present = match all_nodes_present {
                None => Some(rep.all_nodes_present),
                Some(a) => Some(a && rep.all_nodes_present),
            };
            min_acc = match min_acc {
                None => Some(copy_delta_map(&rep.received_time_comparison)),
                Some(acc) => {
                    let merged = merge_delta_maps(&acc, &rep.received_time_comparison, true);
                    proof {
                        let v = spec_delta_fold(base + rs.take(b as int), true)->0;
                        assert(merged.vals_seq() =~= spec_merge_v(
                            v,
                            rs[b as int].received_time_comparison,
                            true,
                        ).vals);
                    }
                    Some(merged)
                },
            };
            max_acc = match max_acc {
                None => Some(copy_delta_map(&rep.received_time_comparison)),
                Some(acc) => {
                    let merged = merge_delta_maps(&acc, &rep.received_time_comparison, false);
                    proof {
                        let v = spec_delta_fold(base + rs.take(b as int), false)->0;
                        assert(merged.vals_seq() =~= spec_merge_v(
                            v,
                            rs[b as int].received_time_comparison,
                            false,
                        ).vals);
                    }
                    Some(merged)
                },
            };
            b = b + 1;
        }
        proof {
            assert(rs.take(m as int) =~= rs);
            assert(base + rs =~= flat_reports(maps.take(i + 1)));
        }
        i = i + 1;
    }
    proof {
        assert(maps.take(n as int) =~= maps);
    }

    AggregateValidationReport {
        max_recevied_time_comparison: max_acc,
        min_recevied_time_comparison: min_acc,
        total_heights_checked,
        height_start,
        height_end,
        total_blocks_checked,
        all_nodes_present,
    }
}

} // verus!

