//! Construction of per-block propagation graphs and arrival latencies from
//! raw captured gossip events.
//!
//! One polling cycle hands over every captured batch, a map from peer id to
//! node tag, and a map from producing node tag to the canonical hash of the
//! block it most recently produced (the capture's own message hash is not the
//! canonical block hash).  The scan opens one publication per block hash at
//! the first resolved publish event, seeds the publisher at latency zero, and
//! then folds every received event into arrival records and graph edges.
//! The whole computation is mirrored by specification functions; the public
//! contracts state that the built value equals the model of the sorted event
//! sequence.

use vstd::prelude::*;

use crate::debugger_data::{CpnpCapturedData, DebuggerCpnpResponse, EventKind};
use crate::error::AggregatorError;
use crate::events::{collect_events, flatten_events, sort_by_time, sort_events_by_time};
use crate::graph::{GraphEdge, PropagationGraph};
use crate::maps::{find_first, tag_insert_keys, tag_insert_vals, TagMap};
use crate::text::before_first;
use crate::AggregatorResult;

verus! {

/// One node's arrival record for one block: the upstream source, the receive
/// timestamp, and the latencies relative to the upstream send and to the
/// block's publication.  All times are microseconds.
#[derive(Debug, Clone)]
pub struct CpnpLatencyAggregationData {
    pub message_source: String,
    pub message_source_tag: String,
    pub node_address: String,
    pub node_tag: String,
    pub receive_time: u64,
    pub latency_since_sent: Option<u64>,
    pub latency_since_block_publication: u64,
}

/// The view of an arrival record: every string as its character sequence.
#[verifier::ext_equal]
pub ghost struct LatencyRecordV {
    pub message_source: Seq<char>,
    pub message_source_tag: Seq<char>,
    pub node_address: Seq<char>,
    pub node_tag: Seq<char>,
    pub receive_time: u64,
    pub latency_since_sent: Option<u64>,
    pub latency_since_block_publication: u64,
}

impl View for CpnpLatencyAggregationData {
    type V = LatencyRecordV;

    open spec fn view(&self) -> LatencyRecordV {
        LatencyRecordV {
            message_source: self.message_source@,
            message_source_tag: self.message_source_tag@,
            node_address: self.node_address@,
            node_tag: self.node_tag@,
            receive_time: self.receive_time,
            latency_since_sent: self.latency_since_sent,
            latency_since_block_publication: self.latency_since_block_publication,
        }
    }
}

/// Derived facts about one block's propagation graph, computed once after all
/// events are merged.
#[derive(Debug, Clone)]
pub struct MessageGraphInfo {
    pub node_count: usize,
    pub source_node_count: usize,
    pub source_nodes: Vec<String>,
    pub graph_count: usize,
    pub is_graph_cyclic: bool,
    pub missing_nodes: Vec<String>,
}

/// The view of `MessageGraphInfo`.
#[verifier::ext_equal]
pub ghost struct GraphInfoV {
    pub node_count: usize,
    pub source_node_count: usize,
    pub source_nodes: Seq<Seq<char>>,
    pub graph_count: usize,
    pub is_graph_cyclic: bool,
    pub missing_nodes: Seq<Seq<char>>,
}

impl View for MessageGraphInfo {
    type V = GraphInfoV;

    open spec fn view(&self) -> GraphInfoV {
        GraphInfoV {
            node_count: self.node_count,
            source_node_count: self.source_node_count,
            source_nodes: self.source_nodes@.map_values(|t: String| t@),
            graph_count: self.graph_count,
            is_graph_cyclic: self.is_graph_cyclic,
            missing_nodes: self.missing_nodes@.map_values(|t: String| t@),
        }
    }
}

/// Everything known about the propagation of one published block: arrival
/// records per node tag, the propagation graph, and the publication instant.
#[derive(Debug, Clone)]
pub struct CpnpBlockPublication {
    pub node_latencies: TagMap<CpnpLatencyAggregationData>,
    pub graph: PropagationGraph,
    pub publish_time: u64,
    pub block_hash: String,
    pub height: usize,
    pub graph_info: Option<MessageGraphInfo>,
}

/// The view of a publication: record keys and records positionally, graph
/// tags and edges, and the scalar fields.
#[verifier::ext_equal]
pub ghost struct PublicationV {
    pub lat_keys: Seq<Seq<char>>,
    pub lat_vals: Seq<LatencyRecordV>,
    pub graph_tags: Seq<Seq<char>>,
    pub edges: Seq<GraphEdge>,
    pub publish_time: u64,
    pub block_hash: Seq<char>,
    pub height: usize,
    pub graph_info: Option<GraphInfoV>,
}

impl View for CpnpBlockPublication {
    type V = PublicationV;

    open spec fn view(&self) -> PublicationV {
        PublicationV {
            lat_keys: self.node_latencies.keys_view(),
            lat_vals: self.node_latencies.vals_seq().map_values(
                |r: CpnpLatencyAggregationData| r@,
            ),
            graph_tags: self.graph.tags_view(),
            edges: self.graph.edges@,
            publish_time: self.publish_time,
            block_hash: self.block_hash@,
            height: self.height,
            graph_info: match self.graph_info {
                Some(info) => Some(info@),
                None => None,
            },
        }
    }
}

impl CpnpBlockPublication {
    /// Internal consistency: the record map and the graph are well-formed.
    pub open spec fn inv(&self) -> bool {
        &&& self.node_latencies.wf()
        &&& self.graph.wf()
    }

    /// Creates the publication opened by a publish event: the publisher is
    /// seeded as vertex zero, with both latencies zero.
    pub fn init_with_source(
        source_node: String,
        source_tag: &str,
        publish_time: u64,
        block_hash: String,
        height: usize,
    ) -> (r: Self)
        ensures
            r.inv(),
            r@ == spec_init_publication(
                source_node@,
                source_tag@,
                publish_time,
                block_hash@,
                height,
            ),
    {
        let mut graph = PropagationGraph::new();
        let _ = graph.add_node(source_node.clone());
        let mut node_latencies: TagMap<CpnpLatencyAggregationData> = TagMap::new();
        let source_data = CpnpLatencyAggregationData {
            message_source: source_node.clone(),
            message_source_tag: source_tag.to_owned(),
            node_tag: source_tag.to_owned(),
            node_address: source_node.clone(),
            receive_time: publish_time,
            latency_since_block_publication: 0,
            latency_since_sent: Some(0),
        };
        node_latencies.insert(source_node.clone(), source_data);
        let r = CpnpBlockPublication {
            block_hash,
            publish_time,
            graph,
            node_latencies,
            height,
            graph_info: None,
        };
        proof {
            assert(r@ =~~= spec_init_publication(
                source_node@,
                source_tag@,
                publish_time,
                r.block_hash@,
                height,
            ));
        }
        r
    }
}

/// The publisher's own record: it received the block at the publication
/// instant, zero latency on both measures.
pub open spec fn spec_publisher_record(
    source_node: Seq<char>,
    source_tag: Seq<char>,
    publish_time: u64,
) -> LatencyRecordV {
    LatencyRecordV {
        message_source: source_node,
        message_source_tag: source_tag,
        node_address: source_node,
        node_tag: source_tag,
        receive_time: publish_time,
        latency_since_sent: Some(0),
        latency_since_block_publication: 0,
    }
}

/// The publication opened by a publish event.
pub open spec fn spec_init_publication(
    source_node: Seq<char>,
    source_tag: Seq<char>,
    publish_time: u64,
    block_hash: Seq<char>,
    height: usize,
) -> PublicationV {
    PublicationV {
        lat_keys: seq![source_node],
        lat_vals: seq![spec_publisher_record(source_node, source_tag, publish_time)],
        graph_tags: seq![source_node],
        edges: Seq::empty(),
        publish_time,
        block_hash,
        height,
        graph_info: None,
    }
}

/// The state of the event scan: open publications keyed by block hash, and
/// the message-hash to block-hash table built from publish events.
#[verifier::ext_equal]
pub ghost struct ScanState {
    pub keys: Seq<Seq<char>>,
    pub pubs: Seq<PublicationV>,
    pub msg_keys: Seq<Seq<char>>,
    pub msg_vals: Seq<Seq<char>>,
}

/// The empty scan state.
pub open spec fn scan_init() -> ScanState {
    ScanState {
        keys: Seq::empty(),
        pubs: Seq::empty(),
        msg_keys: Seq::empty(),
        msg_vals: Seq::empty(),
    }
}

/// Whether any sub-event of `e` is a publish.
pub open spec fn is_publish_event(e: CpnpCapturedData) -> bool {
    exists|i: int| 0 <= i < e.events@.len() && (#[trigger] e.events@[i]).kind
        == EventKind::PublishGossip
}

/// A publish event merged into an already open publication: the publisher's
/// zero-latency record is written (idempotently for a replayed publish), and
/// the publisher becomes a vertex if it is not one yet.
pub open spec fn spec_publish_into(p: PublicationV, e: CpnpCapturedData) -> PublicationV {
    PublicationV {
        lat_keys: tag_insert_keys(p.lat_keys, e.node_tag@),
        lat_vals: tag_insert_vals(
            p.lat_keys,
            p.lat_vals,
            e.node_tag@,
            spec_publisher_record(e.node_tag@, e.node_tag@, e.real_time_microseconds),
        ),
        graph_tags: if p.graph_tags.contains(e.node_tag@) {
            p.graph_tags
        } else {
            p.graph_tags.push(e.node_tag@)
        },
        ..p
    }
}

/// One publish event applied to the scan state.  An event whose publishing
/// tag has no entry in the tag-to-block-hash map does not resolve and is
/// skipped; its message never correlates.
pub open spec fn spec_publish_step(
    st: ScanState,
    e: CpnpCapturedData,
    tag_map: TagMap<String>,
    height: usize,
) -> ScanState {
    if !is_publish_event(e) {
        st
    } else if !tag_map.spec_contains(e.node_tag@) {
        st
    } else {
        let hash = tag_map.spec_get(e.node_tag@)@;
        let st1 = if st.keys.contains(hash) {
            ScanState {
                pubs: st.pubs.update(
                    find_first(st.keys, hash),
                    spec_publish_into(st.pubs[find_first(st.keys, hash)], e),
                ),
                ..st
            }
        } else {
            ScanState {
                keys: st.keys.push(hash),
                pubs: st.pubs.push(
                    spec_init_publication(
                        e.node_tag@,
                        e.node_tag@,
                        e.real_time_microseconds,
                        hash,
                        height,
                    ),
                ),
                ..st
            }
        };
        ScanState {
            msg_keys: tag_insert_keys(st1.msg_keys, e.events@[0].hash@),
            msg_vals: tag_insert_vals(st1.msg_keys, st1.msg_vals, e.events@[0].hash@, hash),
            ..st1
        }
    }
}

/// The scan state after all publish events of `events` were applied in order.
pub open spec fn spec_publish_scan(
    st: ScanState,
    events: Seq<CpnpCapturedData>,
    tag_map: TagMap<String>,
    height: usize,
) -> ScanState
    decreases events.len(),
{
    if events.len() == 0 {
        st
    } else {
        spec_publish_step(
            spec_publish_scan(st, events.drop_last(), tag_map, height),
            events.last(),
            tag_map,
            height,
        )
    }
}

/// `a - b`, saturating at zero.
pub open spec fn sat_sub(a: u64, b: u64) -> u64 {
    if a >= b {
        (a - b) as u64
    } else {
        0
    }
}

/// A received event merged into a publication: the receiving node gets its
/// arrival record, both endpoints become vertices, and a directed edge
/// upstream to downstream carries the hop latency.  An upstream that has no
/// record yet reads as the sentinel maximum time, so the saturating
/// subtraction yields a zero hop latency.
pub open spec fn spec_receive_into(
    p: PublicationV,
    e: CpnpCapturedData,
    source_tag: Seq<char>,
) -> PublicationV {
    let source_receive_time = if p.lat_keys.contains(source_tag) {
        p.lat_vals[find_first(p.lat_keys, source_tag)].receive_time
    } else {
        u64::MAX
    };
    let lat_sent = sat_sub(e.real_time_microseconds, source_receive_time);
    let rec = LatencyRecordV {
        message_source: source_tag,
        message_source_tag: source_tag,
        node_address: before_first(e.node_address@, ':'),
        node_tag: e.node_tag@,
        receive_time: e.real_time_microseconds,
        latency_since_sent: Some(lat_sent),
        latency_since_block_publication: sat_sub(e.real_time_microseconds, p.publish_time),
    };
    let tags1 = if p.graph_tags.contains(source_tag) {
        p.graph_tags
    } else {
        p.graph_tags.push(source_tag)
    };
    let src = find_first(tags1, source_tag);
    let tags2 = if tags1.contains(e.node_tag@) {
        tags1
    } else {
        tags1.push(e.node_tag@)
    };
    let dst = find_first(tags2, e.node_tag@);
    let new_edge = GraphEdge { from: src as usize, to: dst as usize, weight: lat_sent };
    let edges = if crate::graph::edge_between(p.edges, src, dst) {
        p.edges.update(crate::graph::find_edge(p.edges, src, dst), new_edge)
    } else {
        p.edges.push(new_edge)
    };
    PublicationV {
        lat_keys: p.lat_keys.push(e.node_tag@),
        lat_vals: p.lat_vals.push(rec),
        graph_tags: tags2,
        edges,
        ..p
    }
}

/// One event applied to the scan state of the receive pass.  Events that do
/// not resolve through the message-hash table, that are not receives, that
/// carry no peer id, or whose receiving node already has a record, are
/// skipped.
pub open spec fn spec_receive_step(
    st: ScanState,
    e: CpnpCapturedData,
    peer_map: TagMap<String>,
) -> ScanState {
    if e.events@.len() == 0 {
        st
    } else if !st.msg_keys.contains(e.events@[0].hash@) {
        st
    } else {
        let hash = st.msg_vals[find_first(st.msg_keys, e.events@[0].hash@)];
        if !st.keys.contains(hash) {
            st
        } else if e.events@[0].kind != EventKind::ReceivedGossip {
            st
        } else {
            match e.events@[0].peer_id {
                None => st,
                Some(pid) => {
                    let source_tag = if peer_map.spec_contains(pid@) {
                        peer_map.spec_get(pid@)@
                    } else {
                        Seq::<char>::empty()
                    };
                    let j = find_first(st.keys, hash);
                    if st.pubs[j].lat_keys.contains(e.node_tag@) {
                        st
                    } else {
                        ScanState {
                            pubs: st.pubs.update(
                                j,
                                spec_receive_into(st.pubs[j], e, source_tag),
                            ),
                            ..st
                        }
                    }
                },
            }
        }
    }
}

/// The scan state after all events of `events` were applied in order by the
/// receive pass.
pub open spec fn spec_receive_scan(
    st: ScanState,
    events: Seq<CpnpCapturedData>,
    peer_map: TagMap<String>,
) -> ScanState
    decreases events.len(),
{
    if events.len() == 0 {
        st
    } else {
        spec_receive_step(
            spec_receive_scan(st, events.drop_last(), peer_map),
            events.last(),
            peer_map,
        )
    }
}

/// The derived graph facts of a publication.
pub open spec fn spec_info_of(p: PublicationV) -> GraphInfoV {
    GraphInfoV {
        node_count: p.graph_tags.len() as usize,
        source_node_count: crate::graph::source_tags(p.graph_tags, p.edges).len() as usize,
        source_nodes: crate::graph::source_tags(p.graph_tags, p.edges),
        graph_count: crate::graph::component_count(p.graph_tags.len(), p.edges) as usize,
        is_graph_cyclic: crate::graph::has_cycle(p.edges),
        missing_nodes: Seq::empty(),
    }
}

/// A publication with its derived graph facts filled in.
pub open spec fn spec_with_info(p: PublicationV) -> PublicationV {
    PublicationV { graph_info: Some(spec_info_of(p)), ..p }
}

/// The height of the first publish event that resolves through the
/// tag-to-block-hash map, if any.
pub open spec fn spec_first_resolved_height(
    events: Seq<CpnpCapturedData>,
    tag_map: TagMap<String>,
) -> Option<usize>
    decreases events.len(),
{
    if events.len() == 0 {
        None
    } else if is_publish_event(events[0]) && tag_map.spec_contains(events[0].node_tag@) {
        Some(events[0].events@[0].msg.height)
    } else {
        spec_first_resolved_height(events.drop_first(), tag_map)
    }
}

/// The views of a sequence of publications.
pub open spec fn pubs_views(s: Seq<CpnpBlockPublication>) -> Seq<PublicationV> {
    s.map_values(|p: CpnpBlockPublication| p@)
}

/// The views of a sequence of strings.
pub open spec fn strings_views(s: Seq<String>) -> Seq<Seq<char>> {
    s.map_values(|t: String| t@)
}

/// The scan state represented by the executable maps.
pub open spec fn scan_of(
    by_block: TagMap<CpnpBlockPublication>,
    msg_map: TagMap<String>,
) -> ScanState {
    ScanState {
        keys: by_block.keys_view(),
        pubs: pubs_views(by_block.vals_seq()),
        msg_keys: msg_map.keys_view(),
        msg_vals: strings_views(msg_map.vals_seq()),
    }
}

/// Whether the executable maps are well-formed and every publication keeps
/// its internal invariant.
pub open spec fn maps_wf(by_block: TagMap<CpnpBlockPublication>, msg_map: TagMap<String>) -> bool {
    &&& by_block.wf()
    &&& msg_map.wf()
    &&& forall|i: int|
        0 <= i < by_block.vals_seq().len() ==> (#[trigger] by_block.vals_seq()[i]).inv()
}

/// Whether `e` carries a publish sub-event.
fn event_is_publish(e: &CpnpCapturedData) -> (r: bool)
    ensures
        r == is_publish_event(*e),
{
    let n = e.events.len();
    let mut i: usize = 0;
    while i < n
        invariant
            n == e.events@.len(),
            i <= n,
            forall|j: int| 0 <= j < i ==> (#[trigger] e.events@[j]).kind != EventKind::PublishGossip,
        decreases n - i,
    {
        if e.events[i].kind == EventKind::PublishGossip {
            proof {
                assert(e.events@[i as int].kind == EventKind::PublishGossip);
            }
            return true;
        }
        i = i + 1;
    }
    proof {
        if is_publish_event(*e) {
            let j = choose|j: int|
                0 <= j < e.events@.len() && (#[trigger] e.events@[j]).kind
                    == EventKind::PublishGossip;
            assert(e.events@[j].kind != EventKind::PublishGossip);
        }
    }
    false
}

/// The height of the first publish event of `events` that resolves through
/// `tag_map`, if any.
fn first_resolved_height(events: &Vec<CpnpCapturedData>, tag_map: &TagMap<String>) -> (r: Option<
    usize,
>)
    requires
        tag_map.wf(),
    ensures
        r == spec_first_resolved_height(events@, *tag_map),
{
    let n = events.len();
    proof {
        assert(events@.skip(0) =~= events@);
    }
    let mut i: usize = 0;
    while i < n
        invariant
            tag_map.wf(),
            n == events@.len(),
            i <= n,
            spec_first_resolved_height(events@, *tag_map) == spec_first_resolved_height(
                events@.skip(i as int),
                *tag_map,
            ),
        decreases n - i,
    {
        proof {
            assert(events@.skip(i as int)[0] == events@[i as int]);
            assert(events@.skip(i as int).drop_first() =~= events@.skip(i + 1));
        }
        let e = &events[i];
        if event_is_publish(e) && tag_map.contains_key(&e.node_tag) {
            proof {
                assert(is_publish_event(events@.skip(i as int)[0]));
            }
            return Some(e.events[0].msg.height);
        }
        i = i + 1;
    }
    proof {
        assert(events@.skip(n as int) =~= Seq::<CpnpCapturedData>::empty());
    }
    None
}

/// Applies one publish event to the maps, as `spec_publish_step` says.
fn apply_publish_event(
    by_block: &mut TagMap<CpnpBlockPublication>,
    msg_map: &mut TagMap<String>,
    e: &CpnpCapturedData,
    tag_map: &TagMap<String>,
    height: usize,
)
    requires
        maps_wf(*old(by_block), *old(msg_map)),
        tag_map.wf(),
    ensures
        maps_wf(*final(by_block), *final(msg_map)),
        scan_of(*final(by_block), *final(msg_map)) == spec_publish_step(
            scan_of(*old(by_block), *old(msg_map)),
            *e,
            *tag_map,
            height,
        ),
{
    if !event_is_publish(e) {
        return ;
    }
    let hash: String = match tag_map.get(&e.node_tag) {
        Some(h) => h.clone(),
        None => {
            return ;
        },
    };
    proof {
        assert(hash@ == tag_map.spec_get(e.node_tag@)@);
        assert(is_publish_event(*e));
        let j = choose|j: int|
            0 <= j < e.events@.len() && (#[trigger] e.events@[j]).kind == EventKind::PublishGossip;
        assert(e.events@.len() > 0);
    }
    let ghost st = scan_of(*old(by_block), *old(msg_map));
    let ghost stepped = spec_publish_step(st, *e, *tag_map, height);
    match by_block.index_of(&hash) {
        Some(j) => {
            let ghost old_pub = by_block.vals_seq()[j as int];
            let p = by_block.val_at_mut(j);
            let source_data = CpnpLatencyAggregationData {
                message_source: e.node_tag.clone(),
                message_source_tag: e.node_tag.clone(),
                node_tag: e.node_tag.clone(),
                node_address: e.node_tag.clone(),
                receive_time: e.real_time_microseconds,
                latency_since_block_publication: 0,
                latency_since_sent: Some(0),
            };
            p.node_latencies.insert(e.node_tag.clone(), source_data);
            let _ = p.graph.find_or_add_node(&e.node_tag);
            proof {
                let newp = by_block.vals_seq()[j as int];
                assert(st.keys.contains(hash@));
                assert(find_first(st.keys, hash@) == j);
                assert(st.pubs[j as int] == old_pub@);
                assert(newp@ =~~= spec_publish_into(old_pub@, *e));
                assert(newp.inv());
                assert forall|l: int| 0 <= l < by_block.vals_seq().len() implies (
                #[trigger] by_block.vals_seq()[l]).inv() by {
                    if l != j {
                        assert(by_block.vals_seq()[l] == old(by_block).vals_seq()[l]);
                    }
                }
                assert(pubs_views(by_block.vals_seq()) =~~= stepped.pubs);
            }
        },
        None => {
            let publication_data = CpnpBlockPublication::init_with_source(
                e.node_tag.clone(),
                e.node_tag.as_str(),
                e.real_time_microseconds,
                hash.clone(),
                height,
            );
            by_block.insert(hash.clone(), publication_data);
            proof {
                assert(!st.keys.contains(hash@));
                assert forall|l: int| 0 <= l < by_block.vals_seq().len() implies (
                #[trigger] by_block.vals_seq()[l]).inv() by {
                    if l < old(by_block).vals_seq().len() {
                        assert(by_block.vals_seq()[l] == old(by_block).vals_seq()[l]);
                    }
                }
                assert(pubs_views(by_block.vals_seq()) =~~= stepped.pubs);
            }
        },
    }
    msg_map.insert(e.events[0].hash.clone(), hash);
    proof {
        assert(strings_views(msg_map.vals_seq()) =~~= stepped.msg_vals);
        assert(msg_map.keys_view() =~~= stepped.msg_keys);
        assert(by_block.keys_view() =~~= stepped.keys);
        assert(scan_of(*by_block, *msg_map) =~~= stepped);
    }
}

/// Applies one event to the maps for the receive pass, as
/// `spec_receive_step` says.
fn apply_receive_event(
    by_block: &mut TagMap<CpnpBlockPublication>,
    msg_map: &TagMap<String>,
    e: &CpnpCapturedData,
    peer_map: &TagMap<String>,
)
    requires
        maps_wf(*old(by_block), *msg_map),
        peer_map.wf(),
    ensures
        maps_wf(*final(by_block), *msg_map),
        scan_of(*final(by_block), *msg_map) == spec_receive_step(
            scan_of(*old(by_block), *msg_map),
            *e,
            *peer_map,
        ),
{
    if e.events.len() == 0 {
        return ;
    }
    let hash: String = match msg_map.get(&e.events[0].hash) {
        Some(h) => h.clone(),
        None => {
            return ;
        },
    };
    let ghost st = scan_of(*old(by_block), *msg_map);
    proof {
        crate::maps::lemma_find_first(msg_map.keys_view(), e.events@[0].hash@);
        assert(st.msg_vals[find_first(st.msg_keys, e.events@[0].hash@)] == hash@);
    }
    let j = match by_block.index_of(&hash) {
        Some(j) => j,
        None => {
            proof {
                assert(!st.keys.contains(hash@));
            }
            return ;
        },
    };
    if !(e.events[0].kind == EventKind::ReceivedGossip) {
        return ;
    }
    let pid: &String = match &e.events[0].peer_id {
        Some(p) => p,
        None => {
            return ;
        },
    };
    let source_tag: String = match peer_map.get(pid) {
        Some(t) => t.clone(),
        None => String::new(),
    };
    proof {
        assert(source_tag@ == spec_source_tag(*peer_map, *pid));
    }
    let ghost stepped = spec_receive_step(st, *e, *peer_map);
    let ghost old_pub = by_block.vals_seq()[j as int];
    proof {
        assert(st.keys.contains(hash@));
        assert(find_first(st.keys, hash@) == j);
        assert(st.pubs[j as int] == old_pub@);
    }
    if by_block.val_at(j).node_latencies.contains_key(&e.node_tag) {
        proof {
            assert(st.pubs[j as int].lat_keys.contains(e.node_tag@));
        }
        return ;
    }
    proof {
        assert(!st.pubs[j as int].lat_keys.contains(e.node_tag@));
    }
    let source_receive_time: u64 = match by_block.val_at(j).node_latencies.get(&source_tag) {
        Some(d) => d.receive_time,
        None => u64::MAX,
    };
    let lat_sent = e.real_time_microseconds.saturating_sub(source_receive_time);
    let lat_pub = e.real_time_microseconds.saturating_sub(by_block.val_at(j).publish_time);
    let node_data = CpnpLatencyAggregationData {
        message_source: source_tag.clone(),
        message_source_tag: source_tag.clone(),
        node_address: e.node_address.ip(),
        node_tag: e.node_tag.clone(),
        receive_time: e.real_time_microseconds,
        latency_since_sent: Some(lat_sent),
        latency_since_block_publication: lat_pub,
    };
    let p = by_block.val_at_mut(j);
    let src_idx = p.graph.find_or_add_node(&source_tag);
    let dst_idx = p.graph.find_or_add_node(&e.node_tag);
    p.graph.update_edge(src_idx, dst_idx, lat_sent);
    p.node_latencies.insert(e.node_tag.clone(), node_data);
    proof {
        let newp = by_block.vals_seq()[j as int];
        let stag = spec_source_tag(*peer_map, *pid);
        let model = spec_receive_into(old_pub@, *e, stag);
        if !old_pub@.graph_tags.contains(stag) {
            crate::maps::lemma_find_first_push(old_pub@.graph_tags, stag);
        }
        let tags1 = if old_pub@.graph_tags.contains(stag) {
            old_pub@.graph_tags
        } else {
            old_pub@.graph_tags.push(stag)
        };
        if !tags1.contains(e.node_tag@) {
            crate::maps::lemma_find_first_push(tags1, e.node_tag@);
        }
        assert(newp@ =~~= model);
        assert(newp.inv());
        assert forall|l: int| 0 <= l < by_block.vals_seq().len() implies (
        #[trigger] by_block.vals_seq()[l]).inv() by {
            if l != j {
                assert(by_block.vals_seq()[l] == old(by_block).vals_seq()[l]);
            }
        }
        assert(pubs_views(by_block.vals_seq()) =~~= stepped.pubs);
        assert(scan_of(*by_block, *msg_map) =~~= stepped);
    }
}

/// The source tag that the peer map assigns to `pid`: the mapped tag, or the
/// empty tag for an unknown peer.
pub open spec fn spec_source_tag(peer_map: TagMap<String>, pid: String) -> Seq<char> {
    if peer_map.spec_contains(pid@) {
        peer_map.spec_get(pid@)@
    } else {
        Seq::<char>::empty()
    }
}

/// Builds, per observed block hash, the propagation graph and per-node
/// arrival latencies from all capture batches of one polling cycle.
///
/// The returned height is that of the first resolved publish event; when no
/// publish event resolves through `tag_to_block_hash_map`, the cycle is not
/// ready and `SourceNotReady` is returned so that the caller retries on the
/// next cycle.
pub fn aggregate_first_receive(
    data: Vec<DebuggerCpnpResponse>,
    peer_id_to_tag_map: &TagMap<String>,
    tag_to_block_hash_map: &TagMap<String>,
) -> (r: AggregatorResult<(usize, TagMap<CpnpBlockPublication>)>)
    requires
        peer_id_to_tag_map.wf(),
        tag_to_block_hash_map.wf(),
    ensures
        ({
            let events = sort_by_time(flatten_events(data@));
            match r {
                Ok((height, by_block)) => {
                    let st1 = spec_publish_scan(
                        scan_init(),
                        events,
                        *tag_to_block_hash_map,
                        height,
                    );
                    let st2 = spec_receive_scan(st1, events, *peer_id_to_tag_map);
                    &&& spec_first_resolved_height(events, *tag_to_block_hash_map) == Some(
                        height,
                    )
                    &&& by_block.wf()
                    &&& forall|i: int|
                        0 <= i < by_block.vals_seq().len() ==> (
                        #[trigger] by_block.vals_seq()[i]).inv()
                    &&& by_block.keys_view() == st2.keys
                    &&& pubs_views(by_block.vals_seq()) == st2.pubs.map_values(
                        |p: PublicationV| spec_with_info(p),
                    )
                },
                Err(e) => {
                    &&& e is SourceNotReady
                    &&& spec_first_resolved_height(events, *tag_to_block_hash_map) is None
                },
            }
        }),
{
    let events = sort_events_by_time(collect_events(data));
    let height: usize = match first_resolved_height(&events, tag_to_block_hash_map) {
        Some(h) => h,
        None => {
            return Err(AggregatorError::SourceNotReady);
        },
    };

    let mut by_block: TagMap<CpnpBlockPublication> = TagMap::new();
    let mut msg_map: TagMap<String> = TagMap::new();
    let n = events.len();
    proof {
        assert(events@.take(0) =~= Seq::<CpnpCapturedData>::empty());
        assert(pubs_views(by_block.vals_seq()) =~= Seq::<PublicationV>::empty());
        assert(strings_views(msg_map.vals_seq()) =~= Seq::<Seq<char>>::empty());
        assert(scan_of(by_block, msg_map) == scan_init());
    }

    let mut i: usize = 0;
    while i < n
        invariant
            maps_wf(by_block, msg_map),
            tag_to_block_hash_map.wf(),
            n == events@.len(),
            i <= n,
            scan_of(by_block, msg_map) == spec_publish_scan(
                scan_init(),
                events@.take(i as int),
                *tag_to_block_hash_map,
                height,
            ),
        decreases n - i,
    {
        proof {
            assert(events@.take(i + 1).drop_last() =~= events@.take(i as int));
            assert(events@.take(i + 1).last() == events@[i as int]);
        }
        apply_publish_event(&mut by_block, &mut msg_map, &events[i], tag_to_block_hash_map, height);
        i = i + 1;
    }
    proof {
        assert(events@.take(n as int) =~= events@);
    }

    let mut i: usize = 0;
    while i < n
        invariant
            maps_wf(by_block, msg_map),
            peer_id_to_tag_map.wf(),
            n == events@.len(),
            i <= n,
            scan_of(by_block, msg_map) == spec_receive_scan(
                spec_publish_scan(scan_init(), events@, *tag_to_block_hash_map, height),
                events@.take(i as int),
                *peer_id_to_tag_map,
            ),
        decreases n - i,
    {
        proof {
            assert(events@.take(i + 1).drop_last() =~= events@.take(i as int));
            assert(events@.take(i + 1).last() == events@[i as int]);
        }
        apply_receive_event(&mut by_block, &msg_map, &events[i], peer_id_to_tag_map);
        i = i + 1;
    }
    proof {
        assert(events@.take(n as int) =~= events@);
    }

    let ghost st2 = spec_receive_scan(
        spec_publish_scan(scan_init(), events@, *tag_to_block_hash_map, height),
        events@,
        *peer_id_to_tag_map,
    );
    let m = by_block.len();
    let mut i: usize = 0;
    while i < m
        invariant
            maps_wf(by_block, msg_map),
            m == by_block.spec_len(),
            i <= m,
            by_block.keys_view() == st2.keys,
            st2.pubs.len() == m,
            forall|j: int|
                i <= j < m ==> pubs_views(by_block.vals_seq())[j] == st2.pubs[j],
            forall|j: int|
                0 <= j < i ==> pubs_views(by_block.vals_seq())[j] == spec_with_info(st2.pubs[j]),
        decreases m - i,
    {
        let ghost old_vals = by_block.vals_seq();
        let ghost old_pub = by_block.vals_seq()[i as int];
        let source_nodes = by_block.val_at(i).graph.source_nodes();
        let node_count = by_block.val_at(i).graph.node_count();
        let source_node_count = source_nodes.len();
        let graph_count = crate::graph::petgraph_connected_components(
            node_count,
            &by_block.val_at(i).graph.edges,
        );
        let is_graph_cyclic = crate::graph::petgraph_is_cyclic_directed(
            &by_block.val_at(i).graph.edges,
        );
        let info = MessageGraphInfo {
            node_count,
            source_node_count,
            source_nodes,
            graph_count,
            is_graph_cyclic,
            missing_nodes: Vec::new(),
        };
        proof {
            assert(info@.source_nodes == crate::graph::source_tags(
                old_pub@.graph_tags,
                old_pub@.edges,
            ));
            assert(info@.missing_nodes =~= Seq::<Seq<char>>::empty());
            assert(info@ =~~= spec_info_of(old_pub@));
        }
        let p = by_block.val_at_mut(i);
        p.graph_info = Some(info);
        proof {
            let newp = by_block.vals_seq()[i as int];
            assert(pubs_views(old_vals)[i as int] == old_pub@);
            assert(newp@ =~~= spec_with_info(old_pub@));
            assert forall|l: int| 0 <= l < by_block.vals_seq().len() implies (
            #[trigger] by_block.vals_seq()[l]).inv() by {
                if l != i {
                    assert(by_block.vals_seq()[l] == old_vals[l]);
                }
            }
            assert forall|l: int| 0 <= l < i + 1 implies pubs_views(by_block.vals_seq())[l]
                == spec_with_info(st2.pubs[l]) by {
                if l == i {
                    assert(pubs_views(by_block.vals_seq())[l] == newp@);
                } else {
                    assert(by_block.vals_seq()[l] == old_vals[l]);
                    assert(pubs_views(by_block.vals_seq())[l] == pubs_views(old_vals)[l]);
                }
            }
            assert forall|l: int| i + 1 <= l < m implies pubs_views(by_block.vals_seq())[l]
                == st2.pubs[l] by {
                assert(by_block.vals_seq()[l] == old_vals[l]);
                assert(pubs_views(by_block.vals_seq())[l] == pubs_views(old_vals)[l]);
            }
        }
        i = i + 1;
    }
    proof {
        assert(pubs_views(by_block.vals_seq()) =~~= st2.pubs.map_values(
            |p: PublicationV| spec_with_info(p),
        ));
    }
    Ok((height, by_block))
}


/// Whether a publication still carries its seed: the record at position
/// zero — the publisher's own, inserted when the publication was opened —
/// reports zero latency on both measures.
pub open spec fn publisher_seeded(p: PublicationV) -> bool {
    &&& p.lat_keys.len() == p.lat_vals.len()
    &&& p.lat_vals.len() > 0
    &&& p.lat_vals[0].latency_since_sent == Some(0u64)
    &&& p.lat_vals[0].latency_since_block_publication == 0
}

/// Whether every open publication of the scan state is seeded.
pub open spec fn all_seeded(st: ScanState) -> bool {
    &&& st.keys.len() == st.pubs.len()
    &&& forall|j: int| 0 <= j < st.pubs.len() ==> publisher_seeded(#[trigger] st.pubs[j])
}

/// A publish event keeps every publication seeded: a publication it opens
/// starts from the publisher's zero record, and a replayed publish rewrites
/// a record with the same zero latencies.
proof fn lemma_publish_step_seeded(
    st: ScanState,
    e: CpnpCapturedData,
    tag_map: TagMap<String>,
    height: usize,
)
    requires
        all_seeded(st),
    ensures
        all_seeded(spec_publish_step(st, e, tag_map, height)),
{
    let st1 = spec_publish_step(st, e, tag_map, height);
    if is_publish_event(e) && tag_map.spec_contains(e.node_tag@) {
        let hash = tag_map.spec_get(e.node_tag@)@;
        if st.keys.contains(hash) {
            let j = find_first(st.keys, hash);
            crate::maps::lemma_find_first(st.keys, hash);
            let p = st.pubs[j];
            let p1 = spec_publish_into(p, e);
            assert(publisher_seeded(p));
            if p.lat_keys.contains(e.node_tag@) {
                crate::maps::lemma_find_first(p.lat_keys, e.node_tag@);
                assert(publisher_seeded(p1));
            } else {
                assert(publisher_seeded(p1));
            }
            assert forall|l: int| 0 <= l < st1.pubs.len() implies publisher_seeded(
                #[trigger] st1.pubs[l],
            ) by {
                if l != j {
                    assert(st1.pubs[l] == st.pubs[l]);
                }
            }
        } else {
            assert forall|l: int| 0 <= l < st1.pubs.len() implies publisher_seeded(
                #[trigger] st1.pubs[l],
            ) by {
                if l < st.pubs.len() {
                    assert(st1.pubs[l] == st.pubs[l]);
                }
            }
        }
    }
}

/// A received event keeps every publication seeded: arrival records are
/// only appended, never written over the publisher's seed.
proof fn lemma_receive_step_seeded(st: ScanState, e: CpnpCapturedData, peer_map: TagMap<String>)
    requires
        all_seeded(st),
    ensures
        all_seeded(spec_receive_step(st, e, peer_map)),
{
    let st1 = spec_receive_step(st, e, peer_map);
    if e.events@.len() > 0 && st.msg_keys.contains(e.events@[0].hash@) {
        let hash = st.msg_vals[find_first(st.msg_keys, e.events@[0].hash@)];
        if st.keys.contains(hash) && e.events@[0].kind == EventKind::ReceivedGossip {
            match e.events@[0].peer_id {
                None => {},
                Some(pid) => {
                    let j = find_first(st.keys, hash);
                    crate::maps::lemma_find_first(st.keys, hash);
                    if !st.pubs[j].lat_keys.contains(e.node_tag@) {
                        assert forall|l: int| 0 <= l < st1.pubs.len() implies publisher_seeded(
                            #[trigger] st1.pubs[l],
                        ) by {
                            if l != j {
                                assert(st1.pubs[l] == st.pubs[l]);
                            }
                        }
                    }
                },
            }
        }
    }
}

/// The publish pass keeps every publication seeded.
proof fn lemma_publish_scan_seeded(
    st: ScanState,
    events: Seq<CpnpCapturedData>,
    tag_map: TagMap<String>,
    height: usize,
)
    requires
        all_seeded(st),
    ensures
        all_seeded(spec_publish_scan(st, events, tag_map, height)),
    decreases events.len(),
{
    if events.len() > 0 {
        lemma_publish_scan_seeded(st, events.drop_last(), tag_map, height);
        lemma_publish_step_seeded(
            spec_publish_scan(st, events.drop_last(), tag_map, height),
            events.last(),
            tag_map,
            height,
        );
    }
}

/// The receive pass keeps every publication seeded.
proof fn lemma_receive_scan_seeded(
    st: ScanState,
    events: Seq<CpnpCapturedData>,
    peer_map: TagMap<String>,
)
    requires
        all_seeded(st),
    ensures
        all_seeded(spec_receive_scan(st, events, peer_map)),
    decreases events.len(),
{
    if events.len() > 0 {
        lemma_receive_scan_seeded(st, events.drop_last(), peer_map);
        lemma_receive_step_seeded(
            spec_receive_scan(st, events.drop_last(), peer_map),
            events.last(),
            peer_map,
        );
    }
}

/// In every propagation graph the scan builds, the publisher's own record —
/// the record at position zero, belonging to vertex zero — reports a
/// latency of zero since publication and a latency of zero since the
/// upstream send.
pub proof fn lemma_publisher_zero_latency(
    events: Seq<CpnpCapturedData>,
    tag_map: TagMap<String>,
    peer_map: TagMap<String>,
    height: usize,
)
    ensures
        ({
            let st2 = spec_receive_scan(
                spec_publish_scan(scan_init(), events, tag_map, height),
                events,
                peer_map,
            );
            forall|j: int| 0 <= j < st2.pubs.len() ==> publisher_seeded(#[trigger] st2.pubs[j])
        }),
{
    lemma_publish_scan_seeded(scan_init(), events, tag_map, height);
    lemma_receive_scan_seeded(
        spec_publish_scan(scan_init(), events, tag_map, height),
        events,
        peer_map,
    );
}



/// Internal alignment of a scan state: one publication per block hash, one
/// block hash per message hash.
pub open spec fn scan_aligned(st: ScanState) -> bool {
    &&& st.keys.len() == st.pubs.len()
    &&& st.msg_keys.len() == st.msg_vals.len()
}

/// A received event keeps the scan state aligned.
proof fn lemma_receive_step_aligned(st: ScanState, e: CpnpCapturedData, peer_map: TagMap<String>)
    requires
        scan_aligned(st),
    ensures
        scan_aligned(spec_receive_step(st, e, peer_map)),
{
    let st1 = spec_receive_step(st, e, peer_map);
    if e.events@.len() > 0 && st.msg_keys.contains(e.events@[0].hash@) {
        crate::maps::lemma_find_first(st.msg_keys, e.events@[0].hash@);
        let hash = st.msg_vals[find_first(st.msg_keys, e.events@[0].hash@)];
        if st.keys.contains(hash) && e.events@[0].kind == EventKind::ReceivedGossip {
            match e.events@[0].peer_id {
                None => {},
                Some(pid) => {
                    let source_tag = spec_source_tag(peer_map, pid);
                    crate::maps::lemma_find_first(st.keys, hash);
                    let j = find_first(st.keys, hash);
                    if st.pubs[j].lat_keys.contains(e.node_tag@) {
                        assert(st1 == st);
                    } else {
                        assert(st1.pubs == st.pubs.update(
                            j,
                            spec_receive_into(st.pubs[j], e, source_tag),
                        ));
                        assert(st1.pubs.len() == st.pubs.len());
                    }
                },
            }
        }
    }
}

/// The receive pass keeps the scan state aligned.
proof fn lemma_receive_scan_aligned(
    st: ScanState,
    events: Seq<CpnpCapturedData>,
    peer_map: TagMap<String>,
)
    requires
        scan_aligned(st),
    ensures
        scan_aligned(spec_receive_scan(st, events, peer_map)),
    decreases events.len(),
{
    if events.len() > 0 {
        lemma_receive_scan_aligned(st, events.drop_last(), peer_map);
        lemma_receive_step_aligned(
            spec_receive_scan(st, events.drop_last(), peer_map),
            events.last(),
            peer_map,
        );
    }
}

/// A scan over concatenated event lists is the scan of the second list
/// started from the outcome of the first.
proof fn lemma_receive_scan_split(
    st: ScanState,
    a: Seq<CpnpCapturedData>,
    b: Seq<CpnpCapturedData>,
    peer_map: TagMap<String>,
)
    ensures
        spec_receive_scan(st, a + b, peer_map) == spec_receive_scan(
            spec_receive_scan(st, a, peer_map),
            b,
            peer_map,
        ),
    decreases b.len(),
{
    if b.len() == 0 {
        assert(a + b =~= a);
    } else {
        lemma_receive_scan_split(st, a, b.drop_last(), peer_map);
        assert((a + b).drop_last() =~= a + b.drop_last());
        assert((a + b).last() == b.last());
    }
}

/// Applying the same event a second time changes nothing: the receiving
/// node already has its record, so the event is skipped — at-least-once
/// delivery never double-counts.
pub proof fn lemma_receive_step_idempotent(
    st: ScanState,
    e: CpnpCapturedData,
    peer_map: TagMap<String>,
)
    requires
        scan_aligned(st),
    ensures
        spec_receive_step(spec_receive_step(st, e, peer_map), e, peer_map) == spec_receive_step(
            st,
            e,
            peer_map,
        ),
{
    let st1 = spec_receive_step(st, e, peer_map);
    if e.events@.len() > 0 && st.msg_keys.contains(e.events@[0].hash@) {
        let hash = st.msg_vals[find_first(st.msg_keys, e.events@[0].hash@)];
        if st.keys.contains(hash) && e.events@[0].kind == EventKind::ReceivedGossip {
            match e.events@[0].peer_id {
                None => {},
                Some(pid) => {
                    let j = find_first(st.keys, hash);
                    crate::maps::lemma_find_first(st.keys, hash);
                    if !st.pubs[j].lat_keys.contains(e.node_tag@) {
                        // the event was absorbed; the second application
                        // finds the node's record and skips
                        assert(st1.msg_keys == st.msg_keys);
                        assert(st1.msg_vals == st.msg_vals);
                        assert(st1.keys == st.keys);
                        assert(st1.pubs[j].lat_keys.contains(e.node_tag@)) by {
                            let nk = st1.pubs[j].lat_keys;
                            assert(nk == st.pubs[j].lat_keys.push(e.node_tag@));
                            assert(nk[nk.len() - 1] == e.node_tag@);
                        }
                    }
                },
            }
        }
    }
}

/// Applying the same publish event a second time changes nothing: the
/// publication is already open, and rewriting the publisher's record and
/// the message-hash entry stores the values already present.
pub proof fn lemma_publish_step_idempotent(
    st: ScanState,
    e: CpnpCapturedData,
    tag_map: TagMap<String>,
    height: usize,
)
    requires
        all_seeded(st),
        st.msg_keys.len() == st.msg_vals.len(),
    ensures
        spec_publish_step(
            spec_publish_step(st, e, tag_map, height),
            e,
            tag_map,
            height,
        ) == spec_publish_step(st, e, tag_map, height),
{
    if is_publish_event(e) && tag_map.spec_contains(e.node_tag@) {
        let hash = tag_map.spec_get(e.node_tag@)@;
        let st1 = spec_publish_step(st, e, tag_map, height);
        let st2 = spec_publish_step(st1, e, tag_map, height);
        let rec = spec_publisher_record(e.node_tag@, e.node_tag@, e.real_time_microseconds);
        // after the first application the hash is open and the publisher's
        // record and vertex are in place
        let j = if st.keys.contains(hash) {
            find_first(st.keys, hash)
        } else {
            st.keys.len() as int
        };
        crate::maps::lemma_find_first(st.keys, hash);
        if !st.keys.contains(hash) {
            crate::maps::lemma_find_first_push(st.keys, hash);
        }
        assert(st1.keys.contains(hash)) by {
            if st.keys.contains(hash) {
            } else {
                assert(st1.keys == st.keys.push(hash));
                assert(st1.keys[st.keys.len() as int] == hash);
            }
        }
        crate::maps::lemma_find_first(st1.keys, hash);
        let j1 = find_first(st1.keys, hash);
        assert(j1 == j) by {
            if st.keys.contains(hash) {
                assert(st1.keys == st.keys);
            } else {
                assert(st1.keys == st.keys.push(hash));
            }
        }
        let p1 = st1.pubs[j1];
        // the publisher's record is present and equals the seed record
        assert(p1.lat_keys.contains(e.node_tag@) && p1.lat_vals[find_first(
            p1.lat_keys,
            e.node_tag@,
        )] == rec && p1.lat_keys.len() == p1.lat_vals.len()) by {
            if st.keys.contains(hash) {
                let p = st.pubs[j];
                assert(publisher_seeded(p));
                if p.lat_keys.contains(e.node_tag@) {
                    crate::maps::lemma_find_first(p.lat_keys, e.node_tag@);
                    assert(p1.lat_keys == p.lat_keys);
                    assert(p1.lat_vals == p.lat_vals.update(
                        find_first(p.lat_keys, e.node_tag@),
                        rec,
                    ));
                } else {
                    crate::maps::lemma_find_first_push(p.lat_keys, e.node_tag@);
                    assert(p1.lat_keys == p.lat_keys.push(e.node_tag@));
                    assert(p1.lat_keys[p.lat_keys.len() as int] == e.node_tag@);
                }
            } else {
                assert(p1 == spec_init_publication(
                    e.node_tag@,
                    e.node_tag@,
                    e.real_time_microseconds,
                    hash,
                    height,
                ));
                assert(p1.lat_keys[0] == e.node_tag@);
                crate::maps::lemma_unique_find_single(p1.lat_keys, e.node_tag@);
            }
        }
        // the publisher's vertex is present
        assert(p1.graph_tags.contains(e.node_tag@)) by {
            if st.keys.contains(hash) {
                let p = st.pubs[j];
                if p.graph_tags.contains(e.node_tag@) {
                    assert(p1.graph_tags == p.graph_tags);
                } else {
                    assert(p1.graph_tags == p.graph_tags.push(e.node_tag@));
                    assert(p1.graph_tags[p.graph_tags.len() as int] == e.node_tag@);
                }
            } else {
                assert(p1.graph_tags[0] == e.node_tag@);
            }
        }
        // the message-hash entry carries the same hash
        assert(st1.msg_keys.contains(e.events@[0].hash@) && st1.msg_vals[find_first(
            st1.msg_keys,
            e.events@[0].hash@,
        )] == hash) by {
            crate::maps::lemma_find_first(st.msg_keys, e.events@[0].hash@);
            if st.msg_keys.contains(e.events@[0].hash@) {
                assert(st1.msg_keys == st.msg_keys);
                assert(st1.msg_vals == st.msg_vals.update(
                    find_first(st.msg_keys, e.events@[0].hash@),
                    hash,
                ));
            } else {
                crate::maps::lemma_find_first_push(st.msg_keys, e.events@[0].hash@);
                assert(st1.msg_keys == st.msg_keys.push(e.events@[0].hash@));
                assert(st1.msg_vals == st.msg_vals.push(hash));
                assert(st1.msg_keys[st.msg_keys.len() as int] == e.events@[0].hash@);
            }
        }
        // hence the second application rewrites everything in place
        let p2 = spec_publish_into(p1, e);
        crate::maps::lemma_find_first(p1.lat_keys, e.node_tag@);
        assert(p2.lat_vals =~= p1.lat_vals);
        assert(p2 =~~= p1);
        crate::maps::lemma_find_first(st1.msg_keys, e.events@[0].hash@);
        assert(st2.pubs =~= st1.pubs);
        assert(st2.msg_vals =~= st1.msg_vals);
        assert(st2 =~~= st1);
    }
}

/// Merging a duplicated event stream: a received event repeated back to
/// back leaves exactly the state of the stream without the duplicate — the
/// arrival records in particular are identical.
pub proof fn lemma_receive_scan_duplicate(
    st: ScanState,
    before: Seq<CpnpCapturedData>,
    e: CpnpCapturedData,
    after: Seq<CpnpCapturedData>,
    peer_map: TagMap<String>,
)
    requires
        scan_aligned(st),
    ensures
        spec_receive_scan(st, before + seq![e, e] + after, peer_map) == spec_receive_scan(
            st,
            before + seq![e] + after,
            peer_map,
        ),
{
    lemma_receive_scan_split(st, before, seq![e, e], peer_map);
    lemma_receive_scan_split(st, before + seq![e, e], after, peer_map);
    lemma_receive_scan_split(st, before, seq![e], peer_map);
    lemma_receive_scan_split(st, before + seq![e], after, peer_map);
    assert(spec_receive_scan(st, before + seq![e, e], peer_map) == spec_receive_scan(
        spec_receive_scan(st, before, peer_map),
        seq![e, e],
        peer_map,
    ));
    let base = spec_receive_scan(st, before, peer_map);
    lemma_receive_scan_aligned(st, before, peer_map);
    let one = seq![e];
    let two = seq![e, e];
    assert(two.drop_last() =~= one);
    assert(one.drop_last() =~= Seq::<CpnpCapturedData>::empty());
    assert(one.last() == e);
    assert(two.last() == e);
    assert(spec_receive_scan(base, Seq::<CpnpCapturedData>::empty(), peer_map) == base);
    assert(spec_receive_scan(base, one, peer_map) == spec_receive_step(base, e, peer_map));
    assert(spec_receive_scan(base, two, peer_map) == spec_receive_step(
        spec_receive_step(base, e, peer_map),
        e,
        peer_map,
    ));
    lemma_receive_step_idempotent(base, e, peer_map);
    assert((before + two) + after =~= before + seq![e, e] + after);
    assert((before + one) + after =~= before + seq![e] + after);
    assert(spec_receive_scan(st, before + two, peer_map) == spec_receive_scan(
        st,
        before + one,
        peer_map,
    ));
}


/// The rank of vertex `v` in a publication: the position of its record in
/// the arrival-record map.
pub open spec fn vertex_rank(p: PublicationV, v: int) -> int {
    find_first(p.lat_keys, p.graph_tags[v])
}

/// Whether a publication's edges all run from an earlier-recorded vertex to
/// a later-recorded one: the well-formedness a clean capture maintains.
pub open spec fn pub_ranked(p: PublicationV) -> bool {
    forall|i: int|
        0 <= i < p.edges.len() ==> {
            let e = #[trigger] p.edges[i];
            &&& (e.from as int) < p.graph_tags.len()
            &&& (e.to as int) < p.graph_tags.len()
            &&& 0 <= vertex_rank(p, e.from as int)
            &&& vertex_rank(p, e.from as int) < vertex_rank(p, e.to as int)
            &&& vertex_rank(p, e.to as int) < p.lat_keys.len()
        }
}

/// Whether every open publication keeps its edges ranked.
pub open spec fn all_ranked(st: ScanState) -> bool {
    forall|j: int| 0 <= j < st.pubs.len() ==> pub_ranked(#[trigger] st.pubs[j])
}

/// Whether one event of the receive pass is clean for the current state:
/// if it is absorbed, its upstream peer's record already exists — the
/// sentinel branch for an unobserved upstream is never taken.
pub open spec fn spec_receive_step_clean(
    st: ScanState,
    e: CpnpCapturedData,
    peer_map: TagMap<String>,
) -> bool {
    if e.events@.len() == 0 || !st.msg_keys.contains(e.events@[0].hash@) {
        true
    } else {
        let hash = st.msg_vals[find_first(st.msg_keys, e.events@[0].hash@)];
        if !st.keys.contains(hash) || e.events@[0].kind != EventKind::ReceivedGossip {
            true
        } else {
            match e.events@[0].peer_id {
                None => true,
                Some(pid) => {
                    let j = find_first(st.keys, hash);
                    st.pubs[j].lat_keys.contains(e.node_tag@) || st.pubs[j].lat_keys.contains(
                        spec_source_tag(peer_map, pid),
                    )
                },
            }
        }
    }
}

/// Whether the whole receive pass is clean: every event is clean for the
/// state it meets.  This is the well-formed-capture hypothesis: no replayed
/// publish opens new vertices out of order, and per-node observation is
/// monotonic, so every upstream peer was observed before its downstream.
pub open spec fn spec_receive_scan_clean(
    st: ScanState,
    events: Seq<CpnpCapturedData>,
    peer_map: TagMap<String>,
) -> bool
    decreases events.len(),
{
    if events.len() == 0 {
        true
    } else {
        spec_receive_scan_clean(st, events.drop_last(), peer_map) && spec_receive_step_clean(
            spec_receive_scan(st, events.drop_last(), peer_map),
            events.last(),
            peer_map,
        )
    }
}


/// Whether every publication's vertex count leaves `slack` more room below
/// the index width; vertex indices are machine words, so the model only
/// mirrors the machine while this holds.
pub open spec fn tags_bounded(st: ScanState, slack: int) -> bool {
    forall|j: int|
        0 <= j < st.pubs.len() ==> (#[trigger] st.pubs[j]).graph_tags.len() + slack <= usize::MAX
}

/// A publish event keeps every publication ranked: it adds no edge, and
/// appending records or vertices moves no existing rank.
proof fn lemma_publish_step_ranked(
    st: ScanState,
    e: CpnpCapturedData,
    tag_map: TagMap<String>,
    height: usize,
    slack: int,
)
    requires
        slack >= 0,
        slack + 1 <= usize::MAX,
        all_ranked(st),
        scan_aligned(st),
        tags_bounded(st, slack + 1),
    ensures
        all_ranked(spec_publish_step(st, e, tag_map, height)),
        scan_aligned(spec_publish_step(st, e, tag_map, height)),
        tags_bounded(spec_publish_step(st, e, tag_map, height), slack),
{
    let st1 = spec_publish_step(st, e, tag_map, height);
    assert forall|j: int|
        0 <= j < st.pubs.len() implies (#[trigger] st.pubs[j]).graph_tags.len() + slack
        <= usize::MAX by {}
    if is_publish_event(e) && tag_map.spec_contains(e.node_tag@) {
        let hash = tag_map.spec_get(e.node_tag@)@;
        crate::maps::lemma_find_first(st.msg_keys, e.events@[0].hash@);
        if st.keys.contains(hash) {
            crate::maps::lemma_find_first(st.keys, hash);
            let j = find_first(st.keys, hash);
            let p = st.pubs[j];
            let p1 = spec_publish_into(p, e);
            assert(pub_ranked(p));
            assert forall|i: int| 0 <= i < p1.edges.len() implies {
                let ed = #[trigger] p1.edges[i];
                &&& (ed.from as int) < p1.graph_tags.len()
                &&& (ed.to as int) < p1.graph_tags.len()
                &&& 0 <= vertex_rank(p1, ed.from as int)
                &&& vertex_rank(p1, ed.from as int) < vertex_rank(p1, ed.to as int)
                &&& vertex_rank(p1, ed.to as int) < p1.lat_keys.len()
            } by {
                let ed = p1.edges[i];
                assert(p1.edges == p.edges);
                let ft = p.graph_tags[ed.from as int];
                let tt = p.graph_tags[ed.to as int];
                assert(p1.graph_tags[ed.from as int] == ft);
                assert(p1.graph_tags[ed.to as int] == tt);
                crate::maps::lemma_find_first(p.lat_keys, ft);
                crate::maps::lemma_find_first(p.lat_keys, tt);
                assert(p.lat_keys.contains(ft));
                assert(p.lat_keys.contains(tt));
                if p.lat_keys.contains(e.node_tag@) {
                    assert(p1.lat_keys == p.lat_keys);
                } else {
                    assert(p1.lat_keys == p.lat_keys.push(e.node_tag@));
                    crate::maps::lemma_find_first_stable_push(p.lat_keys, e.node_tag@, ft);
                    crate::maps::lemma_find_first_stable_push(p.lat_keys, e.node_tag@, tt);
                }
            }
            assert(pub_ranked(p1));
            assert(p1.graph_tags.len() <= p.graph_tags.len() + 1) by {
                if p.graph_tags.contains(e.node_tag@) {
                    assert(p1.graph_tags == p.graph_tags);
                } else {
                    assert(p1.graph_tags == p.graph_tags.push(e.node_tag@));
                }
            }
            assert forall|l: int| 0 <= l < st1.pubs.len() implies pub_ranked(
                #[trigger] st1.pubs[l],
            ) && st1.pubs[l].graph_tags.len() + slack <= usize::MAX by {
                if l == j {
                    assert(st1.pubs[l] == p1);
                    assert(st.pubs[j].graph_tags.len() + slack + 1 <= usize::MAX);
                } else {
                    assert(st1.pubs[l] == st.pubs[l]);
                    assert(st.pubs[l].graph_tags.len() + slack + 1 <= usize::MAX);
                }
            }
        } else {
            let p1 = spec_init_publication(
                e.node_tag@,
                e.node_tag@,
                e.real_time_microseconds,
                hash,
                height,
            );
            assert(p1.edges.len() == 0);
            assert(pub_ranked(p1));
            assert forall|l: int| 0 <= l < st1.pubs.len() implies pub_ranked(
                #[trigger] st1.pubs[l],
            ) && st1.pubs[l].graph_tags.len() + slack <= usize::MAX by {
                if l < st.pubs.len() {
                    assert(st1.pubs[l] == st.pubs[l]);
                }
            }
        }
    }
}

/// A clean received event keeps every publication ranked: the new edge runs
/// from the already-recorded upstream to the just-recorded downstream.
proof fn lemma_receive_step_ranked(
    st: ScanState,
    e: CpnpCapturedData,
    peer_map: TagMap<String>,
    slack: int,
)
    requires
        slack >= 0,
        all_ranked(st),
        scan_aligned(st),
        spec_receive_step_clean(st, e, peer_map),
        tags_bounded(st, slack + 2),
    ensures
        all_ranked(spec_receive_step(st, e, peer_map)),
        scan_aligned(spec_receive_step(st, e, peer_map)),
        tags_bounded(spec_receive_step(st, e, peer_map), slack),
{
    lemma_receive_step_aligned(st, e, peer_map);
    let st1 = spec_receive_step(st, e, peer_map);
    assert forall|j: int|
        0 <= j < st.pubs.len() implies (#[trigger] st.pubs[j]).graph_tags.len() + slack
        <= usize::MAX by {}
    if e.events@.len() > 0 && st.msg_keys.contains(e.events@[0].hash@) {
        crate::maps::lemma_find_first(st.msg_keys, e.events@[0].hash@);
        let hash = st.msg_vals[find_first(st.msg_keys, e.events@[0].hash@)];
        if st.keys.contains(hash) && e.events@[0].kind == EventKind::ReceivedGossip {
            match e.events@[0].peer_id {
                None => {},
                Some(pid) => {
                    let stag = spec_source_tag(peer_map, pid);
                    crate::maps::lemma_find_first(st.keys, hash);
                    let j = find_first(st.keys, hash);
                    let p = st.pubs[j];
                    if !p.lat_keys.contains(e.node_tag@) {
                        assert(p.lat_keys.contains(stag));
                        let p1 = spec_receive_into(p, e, stag);
                        assert(pub_ranked(p));
                        let tags1 = if p.graph_tags.contains(stag) {
                            p.graph_tags
                        } else {
                            p.graph_tags.push(stag)
                        };
                        let src = find_first(tags1, stag);
                        let tags2 = if tags1.contains(e.node_tag@) {
                            tags1
                        } else {
                            tags1.push(e.node_tag@)
                        };
                        let dst = find_first(tags2, e.node_tag@);
                        if !p.graph_tags.contains(stag) {
                            crate::maps::lemma_find_first_push(p.graph_tags, stag);
                        }
                        crate::maps::lemma_find_first(tags1, stag);
                        assert(tags1.contains(stag)) by {
                            if !p.graph_tags.contains(stag) {
                                assert(tags1[p.graph_tags.len() as int] == stag);
                            }
                        }
                        if !tags1.contains(e.node_tag@) {
                            crate::maps::lemma_find_first_push(tags1, e.node_tag@);
                        }
                        crate::maps::lemma_find_first(tags2, e.node_tag@);
                        assert(tags2.contains(e.node_tag@)) by {
                            if !tags1.contains(e.node_tag@) {
                                assert(tags2[tags1.len() as int] == e.node_tag@);
                            }
                        }
                        assert(tags2[src] == stag) by {
                            assert(tags1[src] == stag);
                            if !tags1.contains(e.node_tag@) {
                                assert(tags2[src] == tags1[src]);
                            }
                        }
                        assert(tags2[dst] == e.node_tag@);
                        assert(p.graph_tags.len() + slack + 2 <= usize::MAX);
                        assert(tags2.len() <= p.graph_tags.len() + 2);
                        assert(0 <= src < tags2.len());
                        assert(0 <= dst < tags2.len());
                        assert((src as usize) as int == src);
                        assert((dst as usize) as int == dst);
                        // the new record lands at the end, the upstream's
                        // stays where it was
                        crate::maps::lemma_find_first(p.lat_keys, stag);
                        let f_src = find_first(p.lat_keys, stag);
                        crate::maps::lemma_find_first_stable_push(p.lat_keys, e.node_tag@, stag);
                        crate::maps::lemma_find_first_push(p.lat_keys, e.node_tag@);
                        assert(p1.lat_keys == p.lat_keys.push(e.node_tag@));
                        assert(find_first(p1.lat_keys, stag) == f_src);
                        assert(find_first(p1.lat_keys, e.node_tag@) == p.lat_keys.len());
                        assert(stag != e.node_tag@);
                        assert forall|i: int| 0 <= i < p1.edges.len() implies {
                            let ed = #[trigger] p1.edges[i];
                            &&& (ed.from as int) < p1.graph_tags.len()
                            &&& (ed.to as int) < p1.graph_tags.len()
                            &&& 0 <= vertex_rank(p1, ed.from as int)
                            &&& vertex_rank(p1, ed.from as int) < vertex_rank(p1, ed.to as int)
                            &&& vertex_rank(p1, ed.to as int) < p1.lat_keys.len()
                        } by {
                            let ed = p1.edges[i];
                            crate::graph::lemma_find_edge(p.edges, src, dst);
                            if i < p.edges.len() && (!crate::graph::edge_between(p.edges, src, dst)
                                || i != crate::graph::find_edge(p.edges, src, dst)) {
                                assert(ed == p.edges[i]);
                                let ft = p.graph_tags[ed.from as int];
                                let tt = p.graph_tags[ed.to as int];
                                assert(p1.graph_tags == tags2);
                                assert(tags2[ed.from as int] == ft) by {
                                    if !p.graph_tags.contains(stag) {
                                        assert(tags1[ed.from as int] == ft);
                                    }
                                    if !tags1.contains(e.node_tag@) {
                                        assert(tags2[ed.from as int] == tags1[ed.from as int]);
                                    }
                                }
                                assert(tags2[ed.to as int] == tt) by {
                                    if !p.graph_tags.contains(stag) {
                                        assert(tags1[ed.to as int] == tt);
                                    }
                                    if !tags1.contains(e.node_tag@) {
                                        assert(tags2[ed.to as int] == tags1[ed.to as int]);
                                    }
                                }
                                crate::maps::lemma_find_first(p.lat_keys, ft);
                                crate::maps::lemma_find_first(p.lat_keys, tt);
                                crate::maps::lemma_find_first_stable_push(
                                    p.lat_keys,
                                    e.node_tag@,
                                    ft,
                                );
                                crate::maps::lemma_find_first_stable_push(
                                    p.lat_keys,
                                    e.node_tag@,
                                    tt,
                                );
                            } else {
                                // the freshly written edge
                                assert(ed.from == src as usize && ed.to == dst as usize);
                                assert(vertex_rank(p1, ed.from as int) == f_src);
                                assert(vertex_rank(p1, ed.to as int) == p.lat_keys.len());
                            }
                        }
                        assert(pub_ranked(p1));
                        assert forall|l: int| 0 <= l < st1.pubs.len() implies pub_ranked(
                            #[trigger] st1.pubs[l],
                        ) && st1.pubs[l].graph_tags.len() + slack <= usize::MAX by {
                            if l != j {
                                assert(st1.pubs[l] == st.pubs[l]);
                            }
                        }
                    }
                },
            }
        }
    }
}

/// The publish pass keeps every publication ranked.
proof fn lemma_publish_scan_ranked(
    st: ScanState,
    events: Seq<CpnpCapturedData>,
    tag_map: TagMap<String>,
    height: usize,
    slack: int,
)
    requires
        slack >= 0,
        slack + events.len() <= usize::MAX,
        all_ranked(st),
        scan_aligned(st),
        tags_bounded(st, slack + events.len()),
    ensures
        all_ranked(spec_publish_scan(st, events, tag_map, height)),
        scan_aligned(spec_publish_scan(st, events, tag_map, height)),
        tags_bounded(spec_publish_scan(st, events, tag_map, height), slack),
    decreases events.len(),
{
    if events.len() > 0 {
        lemma_publish_scan_ranked(st, events.drop_last(), tag_map, height, slack + 1);
        lemma_publish_step_ranked(
            spec_publish_scan(st, events.drop_last(), tag_map, height),
            events.last(),
            tag_map,
            height,
            slack,
        );
    }
}

/// A clean receive pass keeps every publication ranked.
proof fn lemma_receive_scan_ranked(
    st: ScanState,
    events: Seq<CpnpCapturedData>,
    peer_map: TagMap<String>,
    slack: int,
)
    requires
        slack >= 0,
        all_ranked(st),
        scan_aligned(st),
        spec_receive_scan_clean(st, events, peer_map),
        tags_bounded(st, slack + 2 * events.len()),
    ensures
        all_ranked(spec_receive_scan(st, events, peer_map)),
        scan_aligned(spec_receive_scan(st, events, peer_map)),
        tags_bounded(spec_receive_scan(st, events, peer_map), slack),
    decreases events.len(),
{
    if events.len() > 0 {
        lemma_receive_scan_ranked(st, events.drop_last(), peer_map, slack + 2);
        lemma_receive_step_ranked(
            spec_receive_scan(st, events.drop_last(), peer_map),
            events.last(),
            peer_map,
            slack,
        );
    }
}

/// A propagation graph built from a well-formed capture is acyclic: when no
/// received event ever reads the unobserved-upstream sentinel — no replayed
/// or out-of-order observation — every edge runs from an earlier-recorded
/// vertex to a later-recorded one, which rules out any cycle.  A cycle in a
/// built graph therefore always signals a timestamp or ordering anomaly in
/// the capture, never a property of the protocol.
pub proof fn lemma_clean_capture_acyclic(
    events: Seq<CpnpCapturedData>,
    tag_map: TagMap<String>,
    peer_map: TagMap<String>,
    height: usize,
)
    requires
        3 * events.len() + 1 <= usize::MAX,
        spec_receive_scan_clean(
            spec_publish_scan(scan_init(), events, tag_map, height),
            events,
            peer_map,
        ),
    ensures
        ({
            let st2 = spec_receive_scan(
                spec_publish_scan(scan_init(), events, tag_map, height),
                events,
                peer_map,
            );
            forall|j: int|
                0 <= j < st2.pubs.len() ==> !crate::graph::has_cycle(
                    (#[trigger] st2.pubs[j]).edges,
                )
        }),
{
    let st1 = spec_publish_scan(scan_init(), events, tag_map, height);
    lemma_publish_scan_ranked(scan_init(), events, tag_map, height, 2 * events.len() as int);
    lemma_receive_scan_ranked(st1, events, peer_map, 0);
    let st2 = spec_receive_scan(st1, events, peer_map);
    assert forall|j: int| 0 <= j < st2.pubs.len() implies !crate::graph::has_cycle(
        (#[trigger] st2.pubs[j]).edges,
    ) by {
        let p = st2.pubs[j];
        assert(pub_ranked(p));
        let rank = |v: int| vertex_rank(p, v);
        assert forall|i: int|
            0 <= i < p.edges.len() implies rank(#[trigger] p.edges[i].from as int) < rank(
            p.edges[i].to as int,
        ) by {
            assert(pub_ranked(p));
        }
        crate::graph::lemma_rank_acyclic(p.edges, rank);
    }
}


/// A publication with its arrival records flattened into a list, the shape
/// the serving layer hands out.
#[derive(Debug, Clone)]
pub struct CpnpBlockPublicationFlattened {
    pub height: usize,
    pub block_hash: String,
    pub publish_time: u64,
    pub node_latencies: Vec<CpnpLatencyAggregationData>,
    pub graph_info: Option<MessageGraphInfo>,
    pub graph: PropagationGraph,
}

impl CpnpBlockPublication {
    /// Flattens the publication: the arrival records in their stored order.
    pub fn flattened(&self) -> (r: CpnpBlockPublicationFlattened)
        requires
            self.inv(),
        ensures
            r.height == self.height,
            r.block_hash@ == self.block_hash@,
            r.publish_time == self.publish_time,
            r.node_latencies@.map_values(|d: CpnpLatencyAggregationData| d@) == self@.lat_vals,
            match (r.graph_info, self.graph_info) {
                (Some(a), Some(b)) => a@ == b@,
                (None, None) => true,
                _ => false,
            },
            r.graph.tags_view() == self.graph.tags_view(),
            r.graph.edges@ == self.graph.edges@,
            r.graph.wf(),
    {
        let n = self.node_latencies.len();
        let mut node_latencies: Vec<CpnpLatencyAggregationData> = Vec::new();
        let mut i: usize = 0;
        while i < n
            invariant
                self.inv(),
                n == self.node_latencies.spec_len(),
                i <= n,
                node_latencies@.map_values(|d: CpnpLatencyAggregationData| d@)
                    == self@.lat_vals.take(i as int),
            decreases n - i,
        {
            let d = self.node_latencies.val_at(i);
            node_latencies.push(
                CpnpLatencyAggregationData {
                    message_source: d.message_source.clone(),
                    message_source_tag: d.message_source_tag.clone(),
                    node_address: d.node_address.clone(),
                    node_tag: d.node_tag.clone(),
                    receive_time: d.receive_time,
                    latency_since_sent: d.latency_since_sent,
                    latency_since_block_publication: d.latency_since_block_publication,
                },
            );
            proof {
                assert(self@.lat_vals.take(i + 1) =~= self@.lat_vals.take(i as int).push(
                    self@.lat_vals[i as int],
                ));
                assert(node_latencies@.map_values(|dd: CpnpLatencyAggregationData| dd@)
                    =~~= self@.lat_vals.take(i + 1));
            }
            i = i + 1;
        }
        proof {
            assert(self@.lat_vals.take(n as int) =~= self@.lat_vals);
        }
        let m = self.graph.tags.len();
        let mut tags: Vec<String> = Vec::new();
        let mut i: usize = 0;
        while i < m
            invariant
                self.inv(),
                m == self.graph.tags@.len(),
                i <= m,
                tags@.map_values(|t: String| t@) == self.graph.tags_view().take(i as int),
            decreases m - i,
        {
            tags.push(self.graph.tags[i].clone());
            proof {
                assert(self.graph.tags_view().take(i + 1) =~= self.graph.tags_view().take(
                    i as int,
                ).push(self.graph.tags_view()[i as int]));
                assert(tags@.map_values(|t: String| t@) =~~= self.graph.tags_view().take(i + 1));
            }
            i = i + 1;
        }
        proof {
            assert(self.graph.tags_view().take(m as int) =~= self.graph.tags_view());
        }
        let e = self.graph.edges.len();
        let mut edges: Vec<GraphEdge> = Vec::new();
        let mut i: usize = 0;
        while i < e
            invariant
                self.inv(),
                e == self.graph.edges@.len(),
                i <= e,
                edges@ == self.graph.edges@.take(i as int),
            decreases e - i,
        {
            edges.push(self.graph.edges[i]);
            proof {
                assert(edges@ =~= self.graph.edges@.take(i + 1));
            }
            i = i + 1;
        }
        proof {
            assert(self.graph.edges@.take(e as int) =~= self.graph.edges@);
        }
        let graph = PropagationGraph { tags, edges };
        proof {
            assert(graph.tags_view() =~= self.graph.tags_view());
        }
        let graph_info: Option<MessageGraphInfo> = match &self.graph_info {
            Some(info) => {
                let mut source_nodes: Vec<String> = Vec::new();
                let mut i: usize = 0;
                while i < info.source_nodes.len()
                    invariant
                        i <= info.source_nodes@.len(),
                        source_nodes@.map_values(|t: String| t@) == info.source_nodes@.map_values(
                            |t: String| t@,
                        ).take(i as int),
                    decreases info.source_nodes@.len() - i,
                {
                    source_nodes.push(info.source_nodes[i].clone());
                    proof {
                        let views = info.source_nodes@.map_values(|t: String| t@);
                        assert(views.take(i + 1) =~= views.take(i as int).push(views[i as int]));
                        assert(source_nodes@.map_values(|t: String| t@) =~~= views.take(i + 1));
                    }
                    i = i + 1;
                }
                let mut missing_nodes: Vec<String> = Vec::new();
                let mut i: usize = 0;
                while i < info.missing_nodes.len()
                    invariant
                        i <= info.missing_nodes@.len(),
                        missing_nodes@.map_values(|t: String| t@)
                            == info.missing_nodes@.map_values(|t: String| t@).take(i as int),
                    decreases info.missing_nodes@.len() - i,
                {
                    missing_nodes.push(info.missing_nodes[i].clone());
                    proof {
                        let views = info.missing_nodes@.map_values(|t: String| t@);
                        assert(views.take(i + 1) =~= views.take(i as int).push(views[i as int]));
                        assert(missing_nodes@.map_values(|t: String| t@) =~~= views.take(i + 1));
                    }
                    i = i + 1;
                }
                proof {
                    assert(info.source_nodes@.map_values(|t: String| t@).take(
                        info.source_nodes@.len() as int,
                    ) =~= info.source_nodes@.map_values(|t: String| t@));
                    assert(info.missing_nodes@.map_values(|t: String| t@).take(
                        info.missing_nodes@.len() as int,
                    ) =~= info.missing_nodes@.map_values(|t: String| t@));
                }
                let copy = MessageGraphInfo {
                    node_count: info.node_count,
                    source_node_count: info.source_node_count,
                    source_nodes,
                    graph_count: info.graph_count,
                    is_graph_cyclic: info.is_graph_cyclic,
                    missing_nodes,
                };
                proof {
                    assert(copy@ =~~= info@);
                }
                Some(copy)
            },
            None => None,
        };
        CpnpBlockPublicationFlattened {
            height: self.height,
            block_hash: self.block_hash.clone(),
            publish_time: self.publish_time,
            node_latencies,
            graph_info,
            graph,
        }
    }
}


/// A publish scan over concatenated event lists is the scan of the second
/// list started from the outcome of the first.
proof fn lemma_publish_scan_split(
    st: ScanState,
    a: Seq<CpnpCapturedData>,
    b: Seq<CpnpCapturedData>,
    tag_map: TagMap<String>,
    height: usize,
)
    ensures
        spec_publish_scan(st, a + b, tag_map, height) == spec_publish_scan(
            spec_publish_scan(st, a, tag_map, height),
            b,
            tag_map,
            height,
        ),
    decreases b.len(),
{
    if b.len() == 0 {
        assert(a + b =~= a);
    } else {
        lemma_publish_scan_split(st, a, b.drop_last(), tag_map, height);
        assert((a + b).drop_last() =~= a + b.drop_last());
        assert((a + b).last() == b.last());
    }
}

/// The publish pass keeps the scan state aligned.
proof fn lemma_publish_scan_aligned(
    st: ScanState,
    events: Seq<CpnpCapturedData>,
    tag_map: TagMap<String>,
    height: usize,
)
    requires
        scan_aligned(st),
    ensures
        scan_aligned(spec_publish_scan(st, events, tag_map, height)),
    decreases events.len(),
{
    if events.len() > 0 {
        lemma_publish_scan_aligned(st, events.drop_last(), tag_map, height);
        let st1 = spec_publish_scan(st, events.drop_last(), tag_map, height);
        let e = events.last();
        if is_publish_event(e) && tag_map.spec_contains(e.node_tag@) {
            let hash = tag_map.spec_get(e.node_tag@)@;
            crate::maps::lemma_find_first(st1.keys, hash);
            crate::maps::lemma_find_first(st1.msg_keys, e.events@[0].hash@);
        }
    }
}

/// Merging a duplicated publish stream: a publish event repeated back to
/// back leaves exactly the state of the stream without the duplicate.
pub proof fn lemma_publish_scan_duplicate(
    st: ScanState,
    before: Seq<CpnpCapturedData>,
    e: CpnpCapturedData,
    after: Seq<CpnpCapturedData>,
    tag_map: TagMap<String>,
    height: usize,
)
    requires
        all_seeded(st),
        scan_aligned(st),
    ensures
        spec_publish_scan(st, before + seq![e, e] + after, tag_map, height) == spec_publish_scan(
            st,
            before + seq![e] + after,
            tag_map,
            height,
        ),
{
    lemma_publish_scan_split(st, before, seq![e, e], tag_map, height);
    lemma_publish_scan_split(st, before + seq![e, e], after, tag_map, height);
    lemma_publish_scan_split(st, before, seq![e], tag_map, height);
    lemma_publish_scan_split(st, before + seq![e], after, tag_map, height);
    let base = spec_publish_scan(st, before, tag_map, height);
    lemma_publish_scan_seeded(st, before, tag_map, height);
    lemma_publish_scan_aligned(st, before, tag_map, height);
    let one = seq![e];
    let two = seq![e, e];
    assert(two.drop_last() =~= one);
    assert(one.drop_last() =~= Seq::<CpnpCapturedData>::empty());
    assert(one.last() == e);
    assert(two.last() == e);
    assert(spec_publish_scan(base, Seq::<CpnpCapturedData>::empty(), tag_map, height) == base);
    assert(spec_publish_scan(base, one, tag_map, height) == spec_publish_step(
        base,
        e,
        tag_map,
        height,
    ));
    assert(spec_publish_scan(base, two, tag_map, height) == spec_publish_step(
        spec_publish_step(base, e, tag_map, height),
        e,
        tag_map,
        height,
    ));
    lemma_publish_step_idempotent(base, e, tag_map, height);
    assert((before + two) + after =~= before + seq![e, e] + after);
    assert((before + one) + after =~= before + seq![e] + after);
    assert(spec_publish_scan(st, before + two, tag_map, height) == spec_publish_scan(
        st,
        before + one,
        tag_map,
        height,
    ));
}

} // verus!
