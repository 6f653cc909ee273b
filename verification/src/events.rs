//! Flattening and time-ordering of captured gossip events.
//!
//! All batches collected in one polling cycle are flattened into one event
//! list and stably sorted by capture timestamp.  The ordering is best-effort:
//! capture clocks across nodes are not synchronized, which is a known source
//! of error that is not corrected for here.

use vstd::prelude::*;

use crate::debugger_data::{CpnpCapturedData, DebuggerCpnpResponse};

verus! {

/// All events of the given batches, in batch order.
pub open spec fn flatten_events(data: Seq<DebuggerCpnpResponse>) -> Seq<CpnpCapturedData>
    decreases data.len(),
{
    if data.len() == 0 {
        Seq::empty()
    } else {
        flatten_events(data.drop_last()) + data.last()@
    }
}

/// `s` with `e` inserted after every element whose timestamp does not exceed
/// `e`'s.
pub open spec fn insert_by_time(s: Seq<CpnpCapturedData>, e: CpnpCapturedData) -> Seq<
    CpnpCapturedData,
>
    decreases s.len(),
{
    if s.len() == 0 {
        seq![e]
    } else if s.last().real_time_microseconds <= e.real_time_microseconds {
        s.push(e)
    } else {
        insert_by_time(s.drop_last(), e).push(s.last())
    }
}

/// `s` stably sorted by capture timestamp, ascending.
pub open spec fn sort_by_time(s: Seq<CpnpCapturedData>) -> Seq<CpnpCapturedData>
    decreases s.len(),
{
    if s.len() == 0 {
        Seq::empty()
    } else {
        insert_by_time(sort_by_time(s.drop_last()), s.last())
    }
}

/// When every element from position `j` on has a timestamp above `e`'s and
/// the element before `j` (if any) does not, inserting `e` lands at `j`.
proof fn lemma_insert_by_time_at(s: Seq<CpnpCapturedData>, e: CpnpCapturedData, j: int)
    requires
        0 <= j <= s.len(),
        forall|m: int|
            j <= m < s.len() ==> (#[trigger] s[m]).real_time_microseconds
                > e.real_time_microseconds,
        j > 0 ==> s[j - 1].real_time_microseconds <= e.real_time_microseconds,
    ensures
        insert_by_time(s, e) == s.insert(j, e),
    decreases s.len(),
{
    if s.len() == 0 {
        assert(insert_by_time(s, e) =~= s.insert(0, e));
    } else if s.last().real_time_microseconds <= e.real_time_microseconds {
        assert(j == s.len());
        assert(s.push(e) =~= s.insert(j, e));
    } else {
        lemma_insert_by_time_at(s.drop_last(), e, j);
        assert(insert_by_time(s, e) == s.drop_last().insert(j, e).push(s.last()));
        assert(s.drop_last().insert(j, e).push(s.last()) =~= s.insert(j, e));
    }
}

/// Flattens all batches into one event list, in batch order.
pub fn collect_events(data: Vec<DebuggerCpnpResponse>) -> (r: Vec<CpnpCapturedData>)
    ensures
        r@ == flatten_events(data@),
{
    let mut out: Vec<CpnpCapturedData> = Vec::new();
    let mut batches = data;
    let ghost orig = batches@;
    while batches.len() > 0
        invariant
            batches@.len() <= orig.len(),
            batches@ == orig.skip(orig.len() - batches@.len()),
            out@ == flatten_events(orig.take(orig.len() - batches@.len())),
        decreases batches@.len(),
    {
        let ghost done = orig.len() - batches@.len();
        let mut batch = batches.remove(0);
        proof {
            assert(batch == orig[done as int]);
            assert(batches@ =~= orig.skip(done + 1));
        }
        out.append(&mut batch);
        proof {
            assert(orig.take(done + 1).drop_last() =~= orig.take(done as int));
            assert(orig.take(done + 1).last() == orig[done as int]);
            assert(out@ == flatten_events(orig.take(done + 1)));
        }
    }
    proof {
        assert(orig.take(orig.len() as int) =~= orig);
    }
    out
}

/// Stably sorts the events by capture timestamp, ascending.
pub fn sort_events_by_time(events: Vec<CpnpCapturedData>) -> (r: Vec<CpnpCapturedData>)
    ensures
        r@ == sort_by_time(events@),
{
    let mut rest = events;
    let ghost orig = rest@;
    let mut out: Vec<CpnpCapturedData> = Vec::new();
    while rest.len() > 0
        invariant
            orig.len() >= rest@.len(),
            rest@ == orig.skip(orig.len() - rest@.len()),
            out@ == sort_by_time(orig.take(orig.len() - rest@.len())),
        decreases rest@.len(),
    {
        let ghost done = orig.len() - rest@.len();
        let e = rest.remove(0);
        proof {
            assert(e == orig[done as int]);
            assert(rest@ =~= orig.skip(done + 1));
        }
        // find the insertion point: after every element with timestamp <= e's
        let mut j: usize = out.len();
        while j > 0 && out[j - 1].real_time_microseconds > e.real_time_microseconds
            invariant
                j <= out@.len(),
                forall|m: int|
                    j <= m < out@.len() ==> (#[trigger] out@[m]).real_time_microseconds
                        > e.real_time_microseconds,
            decreases j,
        {
            j = j - 1;
        }
        proof {
            lemma_insert_by_time_at(out@, e, j as int);
            assert(orig.take(done + 1).drop_last() =~= orig.take(done as int));
            assert(orig.take(done + 1).last() == e);
        }
        out.insert(j, e);
    }
    proof {
        assert(orig.take(orig.len() as int) =~= orig);
    }
    out
}

} // verus!
