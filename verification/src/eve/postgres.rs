//! How a batch of events is written to PostgreSQL: one statement for each table, over whole
//! columns.

use crate::eve::address::{sc_ip_format, IpReading};
use crate::eve::event::{EveEvent, EventKind};
use vstd::multiset::Multiset;
use vstd::prelude::*;

verus! {

pub const INSERT_FLOW: &'static str =
    "INSERT INTO flow (id, ts_start, ts_end, src_ip, src_port, dest_ip, dest_port, proto, app_proto, metadata, extra_data) \
    SELECT (event->>'flow_id')::bigint, EXTRACT(EPOCH FROM (event#>>'{flow,start}')::timestamp) * 1000000, \
    EXTRACT(EPOCH FROM (event#>>'{flow,end}')::timestamp) * 1000000, src_ip, (event->>'src_port')::int, dest_ip, (event->>'dest_port')::int, \
    event->>'proto', event->>'app_proto', event->'metadata', event->'flow' \
    FROM UNNEST($1::json[], $2::text[], $3::text[]) AS _(event, src_ip, dest_ip) ON CONFLICT DO NOTHING";

pub const INSERT_ALERT: &'static str =
    "INSERT INTO alert (flow_id, tag, color, timestamp, extra_data) \
    SELECT (event->>'flow_id')::bigint, COALESCE(event#>>'{alert,metadata,tag,0}', ''), (event#>>'{alert,metadata,color,0}'), \
    EXTRACT(EPOCH FROM (event->>'timestamp')::timestamp) * 1000000, event::json->'alert' \
    FROM UNNEST($1::json[]) AS event ON CONFLICT DO NOTHING";

pub const INSERT_STATS: &'static str =
    "INSERT INTO stats (timestamp, extra_data) \
    SELECT EXTRACT(EPOCH FROM (event->>'timestamp')::timestamp) * 1000000, event->'stats' \
    FROM UNNEST($1::json[]) AS event ON CONFLICT DO NOTHING";

pub const INSERT_OTHER: &'static str =
    "INSERT INTO \"other-event\" (flow_id, timestamp, event_type, extra_data) \
    SELECT (event->>'flow_id')::bigint, EXTRACT(EPOCH FROM (event->>'timestamp')::timestamp) * 1000000, event_type, event->event_type \
    FROM UNNEST($1::json[], $2::text[]) AS _(event, event_type) ON CONFLICT DO NOTHING";

/// The number of statements that write a batch, however the events fall.
pub const INSERTS: usize = 4;

/// The events of a batch by table, each table in the order of the batch.
#[derive(Debug)]
pub struct EventBatches {
    pub flow: Vec<String>,
    pub alert: Vec<String>,
    pub stats: Vec<String>,
    pub other: Vec<String>,
    pub other_type: Vec<String>,
}

/// A statement, and the columns that are bound to its parameters in order.
#[derive(Debug)]
pub struct PostgresInsert {
    pub sql: &'static str,
    pub columns: Vec<Vec<String>>,
}

/// The events of one kind, in order.
pub open spec fn of_kind(events: Seq<EveEvent>, kind: EventKind) -> Seq<EveEvent> {
    events.filter(|e: EveEvent| e.spec_kind() == kind)
}

/// The data of each event.
pub open spec fn data_of(events: Seq<EveEvent>) -> Seq<Seq<char>> {
    events.map_values(|e: EveEvent| e.data@)
}

/// The type of each event.
pub open spec fn types_of(events: Seq<EveEvent>) -> Seq<Seq<char>> {
    events.map_values(|e: EveEvent| e.type_@)
}

/// The texts of a column.
pub open spec fn texts(column: Seq<String>) -> Seq<Seq<char>> {
    column.map_values(|t: String| t@)
}

/// The texts of all columns of a statement.
pub open spec fn all_texts(columns: Seq<Vec<String>>) -> Seq<Seq<Seq<char>>> {
    columns.map_values(|c: Vec<String>| texts(c@))
}

/// The stored source addresses of the flows `flow`, given what their texts read as.
pub open spec fn src_ips(
    flow: Seq<Seq<char>>,
    readings: Seq<(IpReading, IpReading)>,
) -> Seq<Seq<char>> {
    Seq::new(
        flow.len(),
        |i: int| readings[i].0.stored(crate::eve::address::src_ip_spec(flow[i])),
    )
}

/// The stored destination addresses of the flows `flow`, given what their texts read as.
pub open spec fn dest_ips(
    flow: Seq<Seq<char>>,
    readings: Seq<(IpReading, IpReading)>,
) -> Seq<Seq<char>> {
    Seq::new(
        flow.len(),
        |i: int| readings[i].1.stored(crate::eve::address::src_ip_spec(flow[i])),
    )
}

impl EventBatches {
    /// The batches hold the events `events`, each in the batch of its kind.
    pub open spec fn holds(self, events: Seq<EveEvent>) -> bool {
        &&& texts(self.flow@) == data_of(of_kind(events, EventKind::Flow))
        &&& texts(self.alert@) == data_of(of_kind(events, EventKind::Alert))
        &&& texts(self.stats@) == data_of(of_kind(events, EventKind::Stats))
        &&& texts(self.other@) == data_of(of_kind(events, EventKind::Other))
        &&& texts(self.other_type@) == types_of(of_kind(events, EventKind::Other))
    }

    /// The columns that are written for the events of one kind, where `readings` is what the
    /// source and destination texts of each flow read as: the data first; then the stored addresses
    /// of flows, or the types of events without a table of their own.
    pub open spec fn columns(
        self,
        kind: EventKind,
        readings: Seq<(IpReading, IpReading)>,
    ) -> Seq<Seq<Seq<char>>> {
        match kind {
            EventKind::Flow => seq![
                texts(self.flow@),
                src_ips(texts(self.flow@), readings),
                dest_ips(texts(self.flow@), readings),
            ],
            EventKind::Alert => seq![texts(self.alert@)],
            EventKind::Stats => seq![texts(self.stats@)],
            EventKind::Other => seq![texts(self.other@), texts(self.other_type@)],
        }
    }

    /// Sorts a batch of events by table.
    pub fn sort(events: Vec<EveEvent>) -> (r: EventBatches)
        ensures
            r.holds(events@),
    {
        let mut batches = EventBatches {
            flow: Vec::new(),
            alert: Vec::new(),
            stats: Vec::new(),
            other: Vec::new(),
            other_type: Vec::new(),
        };
        let ghost given = events@;
        proof {
            lemma_of_none(EventKind::Flow);
            lemma_of_none(EventKind::Alert);
            lemma_of_none(EventKind::Stats);
            lemma_of_none(EventKind::Other);
            assert(given.take(0) =~= Seq::empty());
            assert(texts(Seq::empty()) =~= Seq::empty());
            assert(batches.holds(given.take(0)));
        }
        for event in it: events
            invariant
                it.seq() == given,
                batches.holds(given.take(it.index())),
        {
            proof {
                assert(given.take(it.index() + 1) =~= given.take(it.index()).push(event));
                lemma_of_push(given.take(it.index()), event, EventKind::Flow);
                lemma_of_push(given.take(it.index()), event, EventKind::Alert);
                lemma_of_push(given.take(it.index()), event, EventKind::Stats);
                lemma_of_push(given.take(it.index()), event, EventKind::Other);
            }
            let ghost before = batches;
            match event.kind() {
                EventKind::Flow => {
                    batches.flow.push(event.data);
                    assert(texts(batches.flow@) =~= texts(before.flow@).push(event.data@));
                },
                EventKind::Alert => {
                    batches.alert.push(event.data);
                    assert(texts(batches.alert@) =~= texts(before.alert@).push(event.data@));
                },
                EventKind::Stats => {
                    batches.stats.push(event.data);
                    assert(texts(batches.stats@) =~= texts(before.stats@).push(event.data@));
                },
                EventKind::Other => {
                    batches.other.push(event.data);
                    batches.other_type.push(event.type_);
                    assert(texts(batches.other@) =~= texts(before.other@).push(event.data@));
                    assert(texts(batches.other_type@) =~= texts(before.other_type@).push(
                        event.type_@,
                    ));
                },
            }
        }
        assert(given.take(given.len() as int) =~= given);
        batches
    }
}

/// The stored addresses of the flows `flow`, where `readings` is what their texts read as.
fn flow_addresses(flow: &Vec<String>, readings: Vec<(IpReading, IpReading)>) -> (r: (
    Vec<String>,
    Vec<String>,
))
    requires
        readings@.len() == flow@.len(),
    ensures
        texts((r.0)@) == src_ips(texts(flow@), readings@),
        texts((r.1)@) == dest_ips(texts(flow@), readings@),
{
    let mut src: Vec<String> = Vec::new();
    let mut dest: Vec<String> = Vec::new();
    let ghost given = readings@;
    let total: usize = flow.len();
    let mut i: usize = 0;
    for reading in it: readings
        invariant
            it.seq() == given,
            given.len() == flow@.len() == total,
            i == it.index(),
            src@.len() == i,
            dest@.len() == i,
            forall|k: int|
                0 <= k < i ==> #[trigger] src@[k]@ == given[k].0.stored(
                    crate::eve::address::src_ip_spec(flow@[k]@),
                ),
            forall|k: int|
                0 <= k < i ==> #[trigger] dest@[k]@ == given[k].1.stored(
                    crate::eve::address::src_ip_spec(flow@[k]@),
                ),
    {
        let (s, d) = reading;
        let (src_ip, dest_ip) = sc_ip_format(flow[i].as_str(), s, d);
        src.push(src_ip);
        dest.push(dest_ip);
        i = i + 1;
    }
    assert(texts(src@) =~= src_ips(texts(flow@), given));
    assert(texts(dest@) =~= dest_ips(texts(flow@), given));
    (src, dest)
}

/// The statements that write a sorted batch, where `readings` is what the source and destination
/// texts of each flow read as. There is one statement for each table, also where no event fell
/// into it.
pub fn write_batch_postgres(
    batches: EventBatches,
    readings: Vec<(IpReading, IpReading)>,
) -> (r: Vec<PostgresInsert>)
    requires
        readings@.len() == batches.flow@.len(),
    ensures
        r@.len() == INSERTS,
        r@[0].sql@ == INSERT_FLOW@,
        all_texts(r@[0].columns@) == batches.columns(EventKind::Flow, readings@),
        r@[1].sql@ == INSERT_ALERT@,
        all_texts(r@[1].columns@) == batches.columns(EventKind::Alert, readings@),
        r@[2].sql@ == INSERT_STATS@,
        all_texts(r@[2].columns@) == batches.columns(EventKind::Stats, readings@),
        r@[3].sql@ == INSERT_OTHER@,
        all_texts(r@[3].columns@) == batches.columns(EventKind::Other, readings@),
{
    let (src, dest) = flow_addresses(&batches.flow, readings);
    let flow = PostgresInsert { sql: INSERT_FLOW, columns: vec![batches.flow, src, dest] };
    let alert = PostgresInsert { sql: INSERT_ALERT, columns: vec![batches.alert] };
    let stats = PostgresInsert { sql: INSERT_STATS, columns: vec![batches.stats] };
    let other = PostgresInsert {
        sql: INSERT_OTHER,
        columns: vec![batches.other, batches.other_type],
    };
    assert(all_texts(flow.columns@) =~= batches.columns(EventKind::Flow, readings@));
    assert(all_texts(alert.columns@) =~= batches.columns(EventKind::Alert, readings@));
    assert(all_texts(stats.columns@) =~= batches.columns(EventKind::Stats, readings@));
    assert(all_texts(other.columns@) =~= batches.columns(EventKind::Other, readings@));
    vec![flow, alert, stats, other]
}

/// Of no events there are none of any kind.
proof fn lemma_of_none(kind: EventKind)
    ensures
        of_kind(Seq::empty(), kind) == Seq::<EveEvent>::empty(),
        data_of(of_kind(Seq::empty(), kind)) == Seq::<Seq<char>>::empty(),
        types_of(of_kind(Seq::empty(), kind)) == Seq::<Seq<char>>::empty(),
{
    reveal(Seq::filter);
    assert(data_of(of_kind(Seq::empty(), kind)) =~= Seq::<Seq<char>>::empty());
    assert(types_of(of_kind(Seq::empty(), kind)) =~= Seq::<Seq<char>>::empty());
}

/// One more event adds itself to its own kind and nothing to another.
proof fn lemma_of_push(events: Seq<EveEvent>, event: EveEvent, kind: EventKind)
    ensures
        of_kind(events.push(event), kind) == if event.spec_kind() == kind {
            of_kind(events, kind).push(event)
        } else {
            of_kind(events, kind)
        },
        data_of(of_kind(events.push(event), kind)) == if event.spec_kind() == kind {
            data_of(of_kind(events, kind)).push(event.data@)
        } else {
            data_of(of_kind(events, kind))
        },
        types_of(of_kind(events.push(event), kind)) == if event.spec_kind() == kind {
            types_of(of_kind(events, kind)).push(event.type_@)
        } else {
            types_of(of_kind(events, kind))
        },
{
    reveal(Seq::filter);
    assert(events.push(event).drop_last() =~= events);
    assert(data_of(of_kind(events, kind).push(event)) =~= data_of(of_kind(events, kind)).push(
        event.data@,
    ));
    assert(types_of(of_kind(events, kind).push(event)) =~= types_of(of_kind(events, kind)).push(
        event.type_@,
    ));
}

/// Sorting loses no event and makes up none: together the four kinds are the batch.
pub proof fn law_sorting_keeps_every_event(events: Seq<EveEvent>)
    ensures
        events.to_multiset() == of_kind(events, EventKind::Flow).to_multiset().add(
            of_kind(events, EventKind::Alert).to_multiset(),
        ).add(of_kind(events, EventKind::Stats).to_multiset()).add(
            of_kind(events, EventKind::Other).to_multiset(),
        ),
        events.len() == of_kind(events, EventKind::Flow).len() + of_kind(
            events,
            EventKind::Alert,
        ).len() + of_kind(events, EventKind::Stats).len() + of_kind(
            events,
            EventKind::Other,
        ).len(),
    decreases events.len(),
{
    broadcast use vstd::seq_lib::group_to_multiset_ensures;

    if events.len() == 0 {
        assert(events =~= Seq::empty());
        lemma_of_none(EventKind::Flow);
        lemma_of_none(EventKind::Alert);
        lemma_of_none(EventKind::Stats);
        lemma_of_none(EventKind::Other);
        assert(Seq::<EveEvent>::empty().to_multiset() =~= Multiset::empty());
    } else {
        let rest = events.drop_last();
        let event = events.last();
        assert(events =~= rest.push(event));
        law_sorting_keeps_every_event(rest);
        lemma_of_push(rest, event, EventKind::Flow);
        lemma_of_push(rest, event, EventKind::Alert);
        lemma_of_push(rest, event, EventKind::Stats);
        lemma_of_push(rest, event, EventKind::Other);
    }
    assert(events.to_multiset() =~= of_kind(events, EventKind::Flow).to_multiset().add(
        of_kind(events, EventKind::Alert).to_multiset(),
    ).add(of_kind(events, EventKind::Stats).to_multiset()).add(
        of_kind(events, EventKind::Other).to_multiset(),
    ));
}

/// An event is stored the same in either kind of database: its place in the columns for PostgreSQL
/// holds what is bound for it in SQLite, and the columns have no other places.
pub proof fn law_event_is_stored_alike(
    events: Seq<EveEvent>,
    batches: EventBatches,
    readings: Seq<(IpReading, IpReading)>,
    kind: EventKind,
    k: int,
)
    requires
        batches.holds(events),
        readings.len() == batches.flow@.len(),
        0 <= k < of_kind(events, kind).len(),
    ensures
        crate::eve::sqlite::insert_binds(
            of_kind(events, kind)[k],
            if kind == EventKind::Flow {
                Some(readings[k])
            } else {
                None
            },
        ) == batches.columns(kind, readings).map_values(|column: Seq<Seq<char>>| column[k]),
        forall|c: int|
            0 <= c < batches.columns(kind, readings).len() ==> (#[trigger] batches.columns(
                kind,
                readings,
            )[c]).len() == of_kind(events, kind).len(),
{
    let event = of_kind(events, kind)[k];
    events.lemma_filter_pred(|e: EveEvent| e.spec_kind() == kind, k);
    assert(event.spec_kind() == kind);
    assert(data_of(of_kind(events, kind))[k] == event.data@);
    assert(types_of(of_kind(events, kind))[k] == event.type_@);
    let reading = if kind == EventKind::Flow {
        Some(readings[k])
    } else {
        None
    };
    assert(crate::eve::sqlite::insert_binds(event, reading) =~= batches.columns(
        kind,
        readings,
    ).map_values(|column: Seq<Seq<char>>| column[k]));
}

/// The events of one kind are those of the types that go to its table.
proof fn lemma_of_kind_by_type(events: Seq<EveEvent>)
    ensures
        of_kind(events, EventKind::Flow) == events.filter(|e: EveEvent| e.type_@ == "flow"@),
        of_kind(events, EventKind::Alert) == events.filter(|e: EveEvent| e.type_@ == "alert"@),
        of_kind(events, EventKind::Stats) == events.filter(|e: EveEvent| e.type_@ == "stats"@),
        of_kind(events, EventKind::Other) == events.filter(
            |e: EveEvent|
                e.type_@ != "flow"@ && e.type_@ != "alert"@ && e.type_@ != "stats"@,
        ),
{
    assert forall|e: EveEvent|
        #![trigger e.spec_kind()]
        (e.spec_kind() == EventKind::Flow <==> e.type_@ == "flow"@) && (e.spec_kind()
            == EventKind::Alert <==> e.type_@ == "alert"@) && (e.spec_kind() == EventKind::Stats
            <==> e.type_@ == "stats"@) by {
        crate::eve::event::lemma_kinds(e.type_@);
    }
    assert((|e: EveEvent| e.spec_kind() == EventKind::Flow) =~= (|e: EveEvent|
        e.type_@ == "flow"@));
    assert((|e: EveEvent| e.spec_kind() == EventKind::Alert) =~= (|e: EveEvent|
        e.type_@ == "alert"@));
    assert((|e: EveEvent| e.spec_kind() == EventKind::Stats) =~= (|e: EveEvent|
        e.type_@ == "stats"@));
    assert((|e: EveEvent| e.spec_kind() == EventKind::Other) =~= (|e: EveEvent|
        e.type_@ != "flow"@ && e.type_@ != "alert"@ && e.type_@ != "stats"@));
}

/// The flows of a batch are written in its order: the place of each holds its data, then its source
/// address, then its destination address, in the form in which they are stored.
pub proof fn law_flows_are_written_from_source_to_destination(
    events: Vec<EveEvent>,
    batches: EventBatches,
    readings: Vec<(IpReading, IpReading)>,
    r: Vec<PostgresInsert>,
    k: int,
    data: &str,
    addresses: (String, String),
)
    requires
        call_ensures(EventBatches::sort, (events,), batches),
        call_ensures(write_batch_postgres, (batches, readings), r),
        readings@.len() == batches.flow@.len(),
        0 <= k < events@.filter(|e: EveEvent| e.type_@ == "flow"@).len(),
        data@ == events@.filter(|e: EveEvent| e.type_@ == "flow"@)[k].data@,
        call_ensures(sc_ip_format, (data, readings@[k].0, readings@[k].1), addresses),
    ensures
        r@[0].sql@ == "INSERT INTO flow (id, ts_start, ts_end, src_ip, src_port, dest_ip, dest_port, proto, app_proto, metadata, extra_data) \
    SELECT (event->>'flow_id')::bigint, EXTRACT(EPOCH FROM (event#>>'{flow,start}')::timestamp) * 1000000, \
    EXTRACT(EPOCH FROM (event#>>'{flow,end}')::timestamp) * 1000000, src_ip, (event->>'src_port')::int, dest_ip, (event->>'dest_port')::int, \
    event->>'proto', event->>'app_proto', event->'metadata', event->'flow' \
    FROM UNNEST($1::json[], $2::text[], $3::text[]) AS _(event, src_ip, dest_ip) ON CONFLICT DO NOTHING"@,
        r@[0].columns@.len() == 3,
        forall|c: int|
            0 <= c < 3 ==> (#[trigger] r@[0].columns@[c])@.len() == events@.filter(
                |e: EveEvent| e.type_@ == "flow"@,
            ).len(),
        r@[0].columns@[0]@[k]@ == data@,
        r@[0].columns@[1]@[k]@ == addresses.0@,
        r@[0].columns@[2]@[k]@ == addresses.1@,
        batches.flow@.len() == events@.filter(|e: EveEvent| e.type_@ == "flow"@).len(),
        batches.flow@[k]@ == data@,
{
    lemma_of_kind_by_type(events@);
    let flows = of_kind(events@, EventKind::Flow);
    let columns = r@[0].columns@;
    assert(texts(batches.flow@).len() == batches.flow@.len());
    assert(texts(batches.flow@)[k] == data_of(flows)[k]);
    assert(all_texts(columns) == batches.columns(EventKind::Flow, readings@));
    assert(all_texts(columns).len() == columns.len());
    assert forall|c: int| 0 <= c < 3 implies (#[trigger] columns[c])@.len() == flows.len() by {
        assert(all_texts(columns)[c] == texts(columns[c]@));
        assert(texts(columns[c]@).len() == columns[c]@.len());
    }
    assert(all_texts(columns)[0][k] == columns[0]@[k]@);
    assert(all_texts(columns)[1][k] == columns[1]@[k]@);
    assert(all_texts(columns)[2][k] == columns[2]@[k]@);
}

/// The other events of a batch are written in its order, each in the columns for its table: the
/// place of each holds its data, and for an event without a table of its own then its type.
pub proof fn law_other_events_are_written_with_their_data(
    events: Vec<EveEvent>,
    batches: EventBatches,
    readings: Vec<(IpReading, IpReading)>,
    r: Vec<PostgresInsert>,
)
    requires
        call_ensures(EventBatches::sort, (events,), batches),
        call_ensures(write_batch_postgres, (batches, readings), r),
    ensures
        r@.len() == 4,
        r@[1].sql@ == "INSERT INTO alert (flow_id, tag, color, timestamp, extra_data) \
    SELECT (event->>'flow_id')::bigint, COALESCE(event#>>'{alert,metadata,tag,0}', ''), (event#>>'{alert,metadata,color,0}'), \
    EXTRACT(EPOCH FROM (event->>'timestamp')::timestamp) * 1000000, event::json->'alert' \
    FROM UNNEST($1::json[]) AS event ON CONFLICT DO NOTHING"@,
        r@[1].columns@.len() == 1,
        r@[1].columns@[0]@.map_values(|t: String| t@) == events@.filter(
            |e: EveEvent| e.type_@ == "alert"@,
        ).map_values(|e: EveEvent| e.data@),
        r@[2].sql@ == "INSERT INTO stats (timestamp, extra_data) \
    SELECT EXTRACT(EPOCH FROM (event->>'timestamp')::timestamp) * 1000000, event->'stats' \
    FROM UNNEST($1::json[]) AS event ON CONFLICT DO NOTHING"@,
        r@[2].columns@.len() == 1,
        r@[2].columns@[0]@.map_values(|t: String| t@) == events@.filter(
            |e: EveEvent| e.type_@ == "stats"@,
        ).map_values(|e: EveEvent| e.data@),
        r@[3].sql@ == "INSERT INTO \"other-event\" (flow_id, timestamp, event_type, extra_data) \
    SELECT (event->>'flow_id')::bigint, EXTRACT(EPOCH FROM (event->>'timestamp')::timestamp) * 1000000, event_type, event->event_type \
    FROM UNNEST($1::json[], $2::text[]) AS _(event, event_type) ON CONFLICT DO NOTHING"@,
        r@[3].columns@.len() == 2,
        r@[3].columns@[0]@.map_values(|t: String| t@) == events@.filter(
            |e: EveEvent|
                e.type_@ != "flow"@ && e.type_@ != "alert"@ && e.type_@ != "stats"@,
        ).map_values(|e: EveEvent| e.data@),
        r@[3].columns@[1]@.map_values(|t: String| t@) == events@.filter(
            |e: EveEvent|
                e.type_@ != "flow"@ && e.type_@ != "alert"@ && e.type_@ != "stats"@,
        ).map_values(|e: EveEvent| e.type_@),
{
    lemma_of_kind_by_type(events@);
    assert(all_texts(r@[1].columns@).len() == r@[1].columns@.len());
    assert(all_texts(r@[2].columns@).len() == r@[2].columns@.len());
    assert(all_texts(r@[3].columns@).len() == r@[3].columns@.len());
    assert(all_texts(r@[1].columns@)[0] == texts(r@[1].columns@[0]@));
    assert(all_texts(r@[2].columns@)[0] == texts(r@[2].columns@[0]@));
    assert(all_texts(r@[3].columns@)[0] == texts(r@[3].columns@[0]@));
    assert(all_texts(r@[3].columns@)[1] == texts(r@[3].columns@[1]@));
}

} // verus!
