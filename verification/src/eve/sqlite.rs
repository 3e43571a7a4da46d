//! How an event is written to SQLite: one statement for each event.

use crate::eve::address::{dest_ip_text, sc_ip_format, src_ip_text, IpReading};
use crate::eve::event::{EveEvent, EventKind};
use vstd::prelude::*;

verus! {

// SQLite UNIXEPOCH currently has only millisecond precision using "subsec", which is not enough:
// the microseconds are cut out of the text.
pub const INSERT_FLOW: &'static str =
    "INSERT INTO flow (id, ts_start, ts_end, src_ip, src_port, dest_ip, dest_port, proto, app_proto, metadata, extra_data) \
    VALUES ($1->>'flow_id', \
    (UNIXEPOCH(SUBSTR($1->>'$.flow.start', 1, 19))*1000000 + SUBSTR($1->>'$.flow.start', 21, 6)), \
    (UNIXEPOCH(SUBSTR($1->>'$.flow.end', 1, 19))*1000000 + SUBSTR($1->>'$.flow.end', 21, 6)), \
    $2, $1->>'src_port', $3, $1->>'dest_port', $1->>'proto', $1->>'app_proto', jsonb_extract($1, '$.metadata'), jsonb_extract($1, '$.flow')) \
    ON CONFLICT DO NOTHING";

pub const INSERT_ALERT: &'static str =
    "WITH vars AS (SELECT jsonb_extract($1, '$.alert') AS extra_data) \
    INSERT OR IGNORE INTO alert (flow_id, tag, color, timestamp, extra_data) \
    SELECT $1->>'flow_id', (vars.extra_data->>'$.metadata.tag[0]'), (vars.extra_data->>'$.metadata.color[0]'), (UNIXEPOCH(SUBSTR($1->>'timestamp', 1, 19))*1000000 + SUBSTR($1->>'timestamp', 21, 6)), vars.extra_data \
    FROM vars";

pub const INSERT_STATS: &'static str =
    "INSERT INTO stats (timestamp, extra_data) VALUES ((UNIXEPOCH(SUBSTR($1->>'timestamp', 1, 19))*1000000 + SUBSTR($1->>'timestamp', 21, 6)), jsonb_extract($1, '$.stats')) ON CONFLICT DO NOTHING";

pub const INSERT_OTHER: &'static str =
    "INSERT INTO 'other-event' (flow_id, timestamp, event_type, extra_data) \
    VALUES ($1->>'flow_id', (UNIXEPOCH(SUBSTR($1->>'timestamp', 1, 19))*1000000 + SUBSTR($1->>'timestamp', 21, 6)), $2, jsonb_extract($1, '$.' || $2)) \
    ON CONFLICT DO NOTHING";

/// A statement, and the texts that are bound to its parameters in order.
#[derive(Debug)]
pub struct SqliteInsert {
    pub sql: &'static str,
    pub binds: Vec<String>,
}

/// The statement for an event of each kind.
pub open spec fn insert_sql(kind: EventKind) -> Seq<char> {
    match kind {
        EventKind::Flow => INSERT_FLOW@,
        EventKind::Alert => INSERT_ALERT@,
        EventKind::Stats => INSERT_STATS@,
        EventKind::Other => INSERT_OTHER@,
    }
}

/// The texts bound for `event`: its data first; then the stored addresses of a flow, or the type
/// of an event without a table of its own.
pub open spec fn insert_binds(
    event: EveEvent,
    readings: Option<(IpReading, IpReading)>,
) -> Seq<Seq<char>> {
    let src_ip = crate::eve::address::src_ip_spec(event.data@);
    match event.spec_kind() {
        EventKind::Flow => seq![
            event.data@,
            (readings->0).0.stored(src_ip),
            (readings->0).1.stored(src_ip),
        ],
        EventKind::Alert => seq![event.data@],
        EventKind::Stats => seq![event.data@],
        EventKind::Other => seq![event.data@, event.type_@],
    }
}

/// The texts that have to be read as addresses before `event` can be written: those of the source
/// and the destination of a flow, and none of another event.
pub fn texts_to_read(event: &EveEvent) -> (r: Option<(&str, &str)>)
    ensures
        match r {
            Some((src, dest)) => event.spec_kind() == EventKind::Flow && src@
                == crate::eve::address::src_ip_spec(event.data@) && dest@
                == crate::eve::address::dest_ip_spec(event.data@),
            None => event.spec_kind() != EventKind::Flow,
        },
{
    match event.kind() {
        EventKind::Flow => {
            let data = event.data.as_str();
            Some((src_ip_text(data), dest_ip_text(data)))
        },
        _ => None,
    }
}

/// The statement that writes `event`, where `readings` is what [`texts_to_read`] read as.
pub fn insert(event: EveEvent, readings: Option<(IpReading, IpReading)>) -> (r: SqliteInsert)
    requires
        event.spec_kind() == EventKind::Flow ==> readings is Some,
    ensures
        r.sql@ == insert_sql(event.spec_kind()),
        r.binds@.map_values(|t: String| t@) == insert_binds(event, readings),
{
    let ghost given = event;
    let kind = event.kind();
    let mut binds: Vec<String> = Vec::new();
    let sql = match kind {
        EventKind::Flow => {
            if let Some((src, dest)) = readings {
                let (src_ip, dest_ip) = sc_ip_format(event.data.as_str(), src, dest);
                binds.push(event.data);
                binds.push(src_ip);
                binds.push(dest_ip);
            }
            INSERT_FLOW
        },
        EventKind::Alert => {
            binds.push(event.data);
            INSERT_ALERT
        },
        EventKind::Stats => {
            binds.push(event.data);
            INSERT_STATS
        },
        EventKind::Other => {
            binds.push(event.data);
            binds.push(event.type_);
            INSERT_OTHER
        },
    };
    assert(binds@.map_values(|t: String| t@) =~= insert_binds(given, readings));
    SqliteInsert { sql, binds }
}

/// The statements that write a batch of events, each with what its texts read as: one for each
/// event, in order.
pub fn write_batch_sqlite(
    events: Vec<(EveEvent, Option<(IpReading, IpReading)>)>,
) -> (r: Vec<SqliteInsert>)
    requires
        forall|i: int|
            #![trigger events@[i]]
            0 <= i < events@.len() && events@[i].0.spec_kind() == EventKind::Flow
                ==> events@[i].1 is Some,
    ensures
        r@.len() == events@.len(),
        forall|i: int|
            #![trigger r@[i]]
            0 <= i < r@.len() ==> r@[i].sql@ == insert_sql(events@[i].0.spec_kind())
                && r@[i].binds@.map_values(|t: String| t@) == insert_binds(
                events@[i].0,
                events@[i].1,
            ),
{
    let mut inserts: Vec<SqliteInsert> = Vec::new();
    let ghost given = events@;
    for pair in it: events
        invariant
            it.seq() == given,
            inserts@.len() == it.index(),
            forall|i: int|
                #![trigger given[i]]
                0 <= i < given.len() && given[i].0.spec_kind() == EventKind::Flow
                    ==> given[i].1 is Some,
            forall|i: int|
                #![trigger inserts@[i]]
                0 <= i < inserts@.len() ==> inserts@[i].sql@ == insert_sql(given[i].0.spec_kind())
                    && inserts@[i].binds@.map_values(|t: String| t@) == insert_binds(
                    given[i].0,
                    given[i].1,
                ),
    {
        let (event, readings) = pair;
        inserts.push(insert(event, readings));
    }
    inserts
}

/// A flow is written with its data, then its source address, then its destination address, in the
/// form in which they are stored. The statement takes the first for everything but the addresses,
/// the second as the source and the third as the destination.
pub proof fn law_flow_is_written_from_source_to_destination(
    event: EveEvent,
    src: IpReading,
    dest: IpReading,
    r: SqliteInsert,
    data: &str,
    addresses: (String, String),
)
    requires
        call_ensures(insert, (event, Some((src, dest))), r),
        event.type_@ == "flow"@,
        data@ == event.data@,
        call_ensures(sc_ip_format, (data, src, dest), addresses),
    ensures
        r.binds@.len() == 3,
        r.binds@[0]@ == event.data@,
        r.binds@[1]@ == addresses.0@,
        r.binds@[2]@ == addresses.1@,
        r.sql@ == "INSERT INTO flow (id, ts_start, ts_end, src_ip, src_port, dest_ip, dest_port, proto, app_proto, metadata, extra_data) \
    VALUES ($1->>'flow_id', \
    (UNIXEPOCH(SUBSTR($1->>'$.flow.start', 1, 19))*1000000 + SUBSTR($1->>'$.flow.start', 21, 6)), \
    (UNIXEPOCH(SUBSTR($1->>'$.flow.end', 1, 19))*1000000 + SUBSTR($1->>'$.flow.end', 21, 6)), \
    $2, $1->>'src_port', $3, $1->>'dest_port', $1->>'proto', $1->>'app_proto', jsonb_extract($1, '$.metadata'), jsonb_extract($1, '$.flow')) \
    ON CONFLICT DO NOTHING"@,
{
    crate::eve::event::lemma_kinds(event.type_@);
    let texts = r.binds@.map_values(|t: String| t@);
    assert(texts == insert_binds(event, Some((src, dest))));
    assert(texts[0] == r.binds@[0]@ && texts[1] == r.binds@[1]@ && texts[2] == r.binds@[2]@);
}

/// An event that is no flow is written with its data alone, and one without a table of its own with
/// its data and then its type.
pub proof fn law_other_event_is_written_with_its_data(
    event: EveEvent,
    readings: Option<(IpReading, IpReading)>,
    r: SqliteInsert,
)
    requires
        call_ensures(insert, (event, readings), r),
        event.type_@ != "flow"@,
    ensures
        r.binds@[0]@ == event.data@,
        event.type_@ == "alert"@ ==> r.binds@.len() == 1 && r.sql@ == "WITH vars AS (SELECT jsonb_extract($1, '$.alert') AS extra_data) \
    INSERT OR IGNORE INTO alert (flow_id, tag, color, timestamp, extra_data) \
    SELECT $1->>'flow_id', (vars.extra_data->>'$.metadata.tag[0]'), (vars.extra_data->>'$.metadata.color[0]'), (UNIXEPOCH(SUBSTR($1->>'timestamp', 1, 19))*1000000 + SUBSTR($1->>'timestamp', 21, 6)), vars.extra_data \
    FROM vars"@,
        event.type_@ == "stats"@ ==> r.binds@.len() == 1 && r.sql@ == "INSERT INTO stats (timestamp, extra_data) VALUES ((UNIXEPOCH(SUBSTR($1->>'timestamp', 1, 19))*1000000 + SUBSTR($1->>'timestamp', 21, 6)), jsonb_extract($1, '$.stats')) ON CONFLICT DO NOTHING"@,
        event.type_@ != "alert"@ && event.type_@ != "stats"@ ==> r.binds@.len() == 2
            && r.binds@[1]@ == event.type_@ && r.sql@ == "INSERT INTO 'other-event' (flow_id, timestamp, event_type, extra_data) \
    VALUES ($1->>'flow_id', (UNIXEPOCH(SUBSTR($1->>'timestamp', 1, 19))*1000000 + SUBSTR($1->>'timestamp', 21, 6)), $2, jsonb_extract($1, '$.' || $2)) \
    ON CONFLICT DO NOTHING"@,
{
    crate::eve::event::lemma_kinds(event.type_@);
    let texts = r.binds@.map_values(|t: String| t@);
    assert(texts == insert_binds(event, readings));
    assert(texts[0] == r.binds@[0]@);
    if texts.len() == 2 {
        assert(texts[1] == r.binds@[1]@);
    }
}

/// A batch is written event by event: each as it is written alone, in the order of the batch.
pub proof fn law_batch_is_written_event_by_event(
    events: Vec<(EveEvent, Option<(IpReading, IpReading)>)>,
    r: Vec<SqliteInsert>,
    i: int,
    alone: SqliteInsert,
)
    requires
        call_ensures(write_batch_sqlite, (events,), r),
        0 <= i < events@.len(),
        call_ensures(insert, (events@[i].0, events@[i].1), alone),
    ensures
        r@.len() == events@.len(),
        r@[i].sql@ == alone.sql@,
        r@[i].binds@.len() == alone.binds@.len(),
        forall|k: int| 0 <= k < alone.binds@.len() ==> #[trigger] r@[i].binds@[k]@ == alone.binds@[k]@,
{
    let texts = r@[i].binds@.map_values(|t: String| t@);
    let given = alone.binds@.map_values(|t: String| t@);
    assert(texts == given);
    assert forall|k: int| 0 <= k < alone.binds@.len() implies #[trigger] r@[i].binds@[k]@
        == alone.binds@[k]@ by {
        assert(texts[k] == given[k]);
    }
}

/// The texts to read are the two ends of a flow, and there are none of any other event.
pub proof fn law_both_ends_of_a_flow_are_read(
    event: &EveEvent,
    r: Option<(&str, &str)>,
    data: &str,
    src: &str,
    dest: &str,
)
    requires
        call_ensures(texts_to_read, (event,), r),
        data@ == event.data@,
        call_ensures(src_ip_text, (data,), src),
        call_ensures(dest_ip_text, (data,), dest),
    ensures
        r is Some <==> event.type_@ == "flow"@,
        r matches Some((a, b)) ==> a@ == src@ && b@ == dest@,
{
    crate::eve::event::lemma_kinds(event.type_@);
}

} // verus!
