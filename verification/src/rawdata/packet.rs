//! Numbering the payloads of packets.

use std::collections::HashMap;
use vstd::prelude::*;
use vstd::slice::slice_to_vec;

verus! {

broadcast use vstd::std_specs::hash::group_hash_axioms;

/// One payload, with its number among the payloads of its flow.
#[derive(Debug)]
pub struct Rawdata {
    pub data: Vec<u8>,
    pub flow_id: i64,
    pub packet_count: i64,
    pub direction: i32,
}

/// How many payloads of each flow have been logged.
pub struct Context {
    pub flow_packet_count: HashMap<i64, i64>,
}

/// The number of payloads of the flow `flow_id`.
pub open spec fn count_of(counts: Map<i64, i64>, flow_id: i64) -> i64 {
    if counts.contains_key(flow_id) {
        counts[flow_id]
    } else {
        0
    }
}

/// The number after `count`, or `count` itself where it is the largest.
pub open spec fn count_after(count: i64) -> i64 {
    if count < i64::MAX {
        (count + 1) as i64
    } else {
        count
    }
}

/// The counts after one more payload of the flow `flow_id`.
pub open spec fn counts_after(counts: Map<i64, i64>, flow_id: i64) -> Map<i64, i64> {
    counts.insert(flow_id, count_after(count_of(counts, flow_id)))
}

/// The flow and the direction of a packet, which may have no flow.
pub open spec fn flow_or_zero(flow: Option<(i64, i32)>) -> (i64, i32) {
    match flow {
        Some(known) => known,
        None => (0, 0),
    }
}

impl View for Context {
    type V = Map<i64, i64>;

    open spec fn view(&self) -> Map<i64, i64> {
        self.flow_packet_count@
    }
}

impl Context {
    /// A context that has logged nothing.
    pub fn new() -> (context: Context)
        ensures
            context@ == Map::<i64, i64>::empty(),
    {
        Context { flow_packet_count: HashMap::new() }
    }

    /// Logs the payload `data` of a packet with the given flow and direction within it. Packets
    /// without a flow are numbered together, as those of flow 0.
    pub fn packet_log(&mut self, data: &[u8], flow: Option<(i64, i32)>) -> (r: Rawdata)
        ensures
            r.data@ == data@,
            r.flow_id == flow_or_zero(flow).0,
            r.direction == flow_or_zero(flow).1,
            r.packet_count == count_of(old(self)@, r.flow_id),
            final(self)@ == counts_after(old(self)@, r.flow_id),
    {
        let (flow_id, direction) = match flow {
            Some(known) => known,
            None => (0, 0),
        };
        let packet_count: i64 = match self.flow_packet_count.get(&flow_id) {
            Some(count) => *count,
            None => 0,
        };
        let following: i64 = if packet_count < i64::MAX {
            packet_count + 1
        } else {
            packet_count
        };
        self.flow_packet_count.insert(flow_id, following);
        Rawdata { data: slice_to_vec(data), flow_id, packet_count, direction }
    }
}

/// Whether a packet is logged: it has a payload, and carries neither of the two flags that exclude
/// it.
pub fn packet_log_condition(
    payload_len: usize,
    flags: u32,
    no_packet_inspection: u32,
    no_pcap_log: u32,
) -> (logged: bool)
    ensures
        logged == (payload_len != 0 && flags & no_packet_inspection == 0 && flags & no_pcap_log
            == 0),
{
    assert(flags & (no_packet_inspection | no_pcap_log) == 0 <==> (flags & no_packet_inspection
        == 0 && flags & no_pcap_log == 0)) by (bit_vector);
    payload_len != 0 && (flags & (no_packet_inspection | no_pcap_log)) == 0
}

/// The counts after payloads of the flows `flows`, one after the other.
pub open spec fn counts_after_all(counts: Map<i64, i64>, flows: Seq<i64>) -> Map<i64, i64>
    decreases flows.len(),
{
    if flows.len() == 0 {
        counts
    } else {
        counts_after(counts_after_all(counts, flows.drop_last()), flows.last())
    }
}

/// How often `flow_id` stands in `flows`.
pub open spec fn times(flows: Seq<i64>, flow_id: i64) -> nat {
    flows.filter(|f: i64| f == flow_id).len()
}

/// A fresh context counts each flow as often as it was logged, up to the largest count.
pub proof fn law_counts_are_exact(flows: Seq<i64>, flow_id: i64)
    ensures
        count_of(counts_after_all(Map::empty(), flows), flow_id) == if times(flows, flow_id)
            < i64::MAX {
            times(flows, flow_id) as int
        } else {
            i64::MAX as int
        },
    decreases flows.len(),
{
    reveal(Seq::filter);
    if flows.len() > 0 {
        law_counts_are_exact(flows.drop_last(), flow_id);
    }
}

/// The payload at position `k` gets as its number how many payloads of its flow came before it.
/// So the payloads of one flow are numbered from 0 without a gap, whatever other flows do.
pub proof fn law_numbers_have_no_gap(flows: Seq<i64>, k: int)
    requires
        0 <= k < flows.len(),
        times(flows.take(k), flows[k]) <= i64::MAX,
    ensures
        count_of(counts_after_all(Map::empty(), flows.take(k)), flows[k]) == times(
            flows.take(k),
            flows[k],
        ),
{
    law_counts_are_exact(flows.take(k), flows[k]);
}

/// A longer log holds a flow at least as often.
proof fn lemma_times_grow(flows: Seq<i64>, j: int, k: int, flow_id: i64)
    requires
        0 <= j <= k <= flows.len(),
    ensures
        times(flows.take(j), flow_id) <= times(flows.take(k), flow_id),
        j < k && flows[j] == flow_id ==> times(flows.take(j), flow_id) < times(
            flows.take(k),
            flow_id,
        ),
    decreases k - j,
{
    reveal(Seq::filter);
    if j < k {
        assert(flows.take(k).drop_last() =~= flows.take(k - 1));
        if j < k - 1 {
            lemma_times_grow(flows, j, k - 1, flow_id);
        }
    }
}

/// No two payloads share both flow and number, as long as the numbers last: together they are a
/// key.
pub proof fn law_flow_and_number_are_a_key(flows: Seq<i64>, j: int, k: int)
    requires
        0 <= j < k < flows.len(),
        flows[j] == flows[k],
        times(flows.take(k), flows[k]) <= i64::MAX,
    ensures
        count_of(counts_after_all(Map::empty(), flows.take(j)), flows[j]) != count_of(
            counts_after_all(Map::empty(), flows.take(k)),
            flows[k],
        ),
{
    lemma_times_grow(flows, j, k, flows[k]);
    law_counts_are_exact(flows.take(j), flows[j]);
    law_counts_are_exact(flows.take(k), flows[k]);
}

/// A packet that has a flow is logged under the number and with the direction that it came with,
/// and one that has none under number and direction 0. Its payload is logged byte for byte.
pub proof fn law_packet_is_logged_under_its_flow(
    context: &mut Context,
    data: &[u8],
    flow: Option<(i64, i32)>,
    r: Rawdata,
)
    requires
        call_ensures(Context::packet_log, (context, data, flow), r),
    ensures
        r.data@ == data@,
        flow matches Some((id, direction)) ==> r.flow_id == id && r.direction == direction,
        flow is None ==> r.flow_id == 0 && r.direction == 0,
{
}

/// The first payload of a flow gets the number 0, and a later one the number that the flow stands
/// at. The flow then stands at the next number, as long as there is one, and the other flows stand
/// where they stood.
pub proof fn law_payload_takes_the_number_of_its_flow(
    context: &mut Context,
    data: &[u8],
    flow: Option<(i64, i32)>,
    r: Rawdata,
)
    requires
        call_ensures(Context::packet_log, (context, data, flow), r),
    ensures
        !old(context)@.contains_key(r.flow_id) ==> r.packet_count == 0,
        old(context)@.contains_key(r.flow_id) ==> r.packet_count == old(context)@[r.flow_id],
        final(context)@.contains_key(r.flow_id),
        r.packet_count < i64::MAX ==> final(context)@[r.flow_id] == r.packet_count + 1,
        r.packet_count == i64::MAX ==> final(context)@[r.flow_id] == i64::MAX,
        final(context)@.remove(r.flow_id) == old(context)@.remove(r.flow_id),
{
    assert(final(context)@.remove(r.flow_id) =~= old(context)@.remove(r.flow_id));
}

/// Two payloads that are logged one after the other get numbers in a row where they are of one
/// flow. Where they are of different flows, the second gets the number that it would have got
/// without the first.
pub proof fn law_numbers_follow_each_other(
    first: &mut Context,
    second: &mut Context,
    alone: &mut Context,
    data: &[u8],
    more: &[u8],
    flow: Option<(i64, i32)>,
    other: Option<(i64, i32)>,
    r: Rawdata,
    s: Rawdata,
    t: Rawdata,
)
    requires
        call_ensures(Context::packet_log, (first, data, flow), r),
        call_ensures(Context::packet_log, (second, more, other), s),
        call_ensures(Context::packet_log, (alone, more, other), t),
        old(second)@ == final(first)@,
        old(alone)@ == old(first)@,
        r.packet_count < i64::MAX,
    ensures
        r.flow_id == s.flow_id ==> s.packet_count == r.packet_count + 1,
        r.flow_id != s.flow_id ==> s.packet_count == t.packet_count,
{
}

/// A packet with a payload is logged unless it carries one of the two flags, whatever other flags it
/// carries. One without a payload is not.
pub proof fn law_only_the_two_flags_exclude(
    payload_len: usize,
    flags: u32,
    no_packet_inspection: u32,
    no_pcap_log: u32,
    logged: bool,
)
    requires
        call_ensures(
            packet_log_condition,
            (payload_len, flags, no_packet_inspection, no_pcap_log),
            logged,
        ),
    ensures
        logged <==> payload_len > 0 && flags & (no_packet_inspection | no_pcap_log) == 0,
{
    assert(flags & (no_packet_inspection | no_pcap_log) == 0 <==> (flags & no_packet_inspection
        == 0 && flags & no_pcap_log == 0)) by (bit_vector);
}

} // verus!
