use suricata_sql_output::eve::address::{dest_ip_text, sc_ip_format, src_ip_text, IpReading};
use suricata_sql_output::eve::event::{
    buffer_span, event_type, output_init, EveEvent, EventKind,
};
use suricata_sql_output::eve::postgres::{self, write_batch_postgres, EventBatches};
use suricata_sql_output::eve::sqlite::{self, texts_to_read, write_batch_sqlite};

const FLOW: &str = r#"{"timestamp":"2025-01-01T00:00:00.000001+0000","flow_id":7,"event_type":"flow","src_ip":"10.0.0.1","src_port":80,"dest_ip":"fe80::1","dest_port":81}"#;

fn event(type_: &str, data: &str) -> EveEvent {
    EveEvent { type_: type_.to_string(), data: data.to_string() }
}

fn v4(ip: &str) -> IpReading {
    IpReading::V4(ip.to_string())
}

fn v6(ip: &str) -> IpReading {
    IpReading::V6(ip.to_string())
}

#[test]
fn type_of_a_compact_event() {
    assert_eq!(event_type(FLOW), "flow");
}

#[test]
fn type_of_a_spaced_event() {
    assert_eq!(event_type(r#"{"flow_id": 7, "event_type": "alert", "x": 1}"#), "alert");
}

#[test]
fn compact_marker_is_preferred() {
    let text = r#"{"a": 1, "event_type": "alert","event_type":"flow"}"#;
    assert_eq!(event_type(text), "flow");
}

#[test]
fn event_without_a_type() {
    assert_eq!(event_type(r#"{"flow_id":7}"#), "");
    assert_eq!(event_type(""), "");
    // The marker has to follow a comma.
    assert_eq!(event_type(r#"{"event_type":"flow"}"#), "");
}

#[test]
fn type_that_is_not_closed_runs_to_the_end() {
    assert_eq!(event_type(r#"{"a":1,"event_type":"flow"#), "flow");
    assert_eq!(event_type(r#"{"a":1,"event_type":""#), "");
}

#[test]
fn repeated_marker_cuts_only_the_spaced_type() {
    assert_eq!(event_type(r#",  "event_type": "a, "event_type": "b""#), "b");
    assert_eq!(event_type(r#", "event_type": "a, "event_type": "b""#), "a");
    assert_eq!(event_type(r#","event_type":"a,"event_type":"b""#), "a,");
}

#[test]
fn null_bytes_are_replaced() {
    let text = "{\"a\":\"x\\u0000y\\u0000\\u0000\",\"event_type\":\"stats\"}";
    let event = EveEvent::from_text(text);
    assert_eq!(event.type_, "stats");
    assert_eq!(event.data, "{\"a\":\"x<NULL>y<NULL><NULL>\",\"event_type\":\"stats\"}");
    assert!(!event.data.contains("\\u0000"));
    let again = EveEvent::from_text(&event.data);
    assert_eq!(again.data, event.data);
}

#[test]
fn type_is_read_before_null_bytes_are_replaced() {
    let event = EveEvent::from_text("{\"a\":1,\"event_type\":\"x\\u0000\"}");
    assert_eq!(event.type_, "x\\u0000");
    assert_eq!(event.data, "{\"a\":1,\"event_type\":\"x<NULL>\"}");
}

#[test]
fn text_without_null_bytes_is_kept() {
    let text = "{\"a\":\"h\u{e9}llo \u{1f600} \\u0001\",\"event_type\":\"\u{e9}v\u{e9}nement\"}";
    let event = EveEvent::from_text(text);
    assert_eq!(event.type_, "\u{e9}v\u{e9}nement");
    assert_eq!(event.data, text);
}

#[test]
fn half_of_an_escape_is_kept() {
    let event = EveEvent::from_text("\\u000\\u0000\\u00000\\u000");
    assert_eq!(event.data, "\\u000<NULL><NULL>0\\u000");
}

#[test]
fn type_holds_no_quote() {
    let texts = [FLOW, "", "\"\"\"", ",\"event_type\":\"\"x\"", ", \"event_type\": \"a\"b\""];
    for text in texts {
        assert!(!event_type(text).contains('"'));
    }
}

#[test]
fn kinds_of_events() {
    assert_eq!(event("flow", "").kind(), EventKind::Flow);
    assert_eq!(event("alert", "").kind(), EventKind::Alert);
    assert_eq!(event("stats", "").kind(), EventKind::Stats);
    assert_eq!(event("dns", "").kind(), EventKind::Other);
    assert_eq!(event("", "").kind(), EventKind::Other);
    assert_eq!(event("flows", "").kind(), EventKind::Other);
    assert_eq!(event("Flow", "").kind(), EventKind::Other);
}

#[test]
fn span_of_a_buffer() {
    assert_eq!(buffer_span(0), 1);
    assert_eq!(buffer_span(41), 42);
    assert_eq!(buffer_span(-41), 42);
    assert_eq!(buffer_span(i32::MAX), 2147483648);
    assert_eq!(buffer_span(i32::MIN), 2147483649);
}

#[test]
fn threaded_output_is_refused() {
    assert_eq!(output_init(false), Some(0));
    assert_eq!(output_init(true), None);
}

#[test]
fn texts_of_addresses() {
    assert_eq!(src_ip_text(FLOW), "10.0.0.1");
    assert_eq!(dest_ip_text(FLOW), "fe80::1");
    assert_eq!(src_ip_text("{}"), "");
    assert_eq!(dest_ip_text("{}"), "");
    assert_eq!(src_ip_text(r#","src_ip":"a,"src_ip":"b""#), "a");
    assert_eq!(dest_ip_text(r#","dest_ip":"1.2.3.4"#), "1.2.3.4");
}

#[test]
fn addresses_as_they_are_stored() {
    let (src, dest) = sc_ip_format(FLOW, v4("10.0.0.1"), v6("fe80::1"));
    assert_eq!(src, "10.0.0.1");
    assert_eq!(dest, "[fe80::1]");
    let (src, dest) = sc_ip_format(FLOW, v6("::1"), v4("192.0.2.1"));
    assert_eq!(src, "[::1]");
    assert_eq!(dest, "192.0.2.1");
}

#[test]
fn source_text_stands_in_for_both_addresses() {
    let text = r#"{"a":1,"src_ip":"here","dest_ip":"there"}"#;
    let (src, dest) = sc_ip_format(text, IpReading::NotAnAddress, IpReading::NotAnAddress);
    assert_eq!(src, "here");
    assert_eq!(dest, "here");
}

#[test]
fn only_flows_have_texts_to_read() {
    let flow = EveEvent::from_text(FLOW);
    assert_eq!(texts_to_read(&flow), Some(("10.0.0.1", "fe80::1")));
    assert_eq!(texts_to_read(&event("alert", FLOW)), None);
    assert_eq!(texts_to_read(&event("stats", FLOW)), None);
    assert_eq!(texts_to_read(&event("dns", FLOW)), None);
}

#[test]
fn statements_for_sqlite() {
    let inserts = write_batch_sqlite(vec![
        (event("flow", FLOW), Some((v4("10.0.0.1"), v6("fe80::1")))),
        (event("alert", "A"), None),
        (event("stats", "S"), None),
        (event("dns", "D"), None),
        (event("alert", "B"), None),
    ]);
    assert_eq!(inserts.len(), 5);
    assert_eq!(inserts[0].sql, sqlite::INSERT_FLOW);
    assert_eq!(inserts[0].binds, vec![FLOW, "10.0.0.1", "[fe80::1]"]);
    assert_eq!(inserts[1].sql, sqlite::INSERT_ALERT);
    assert_eq!(inserts[1].binds, vec!["A"]);
    assert_eq!(inserts[2].sql, sqlite::INSERT_STATS);
    assert_eq!(inserts[2].binds, vec!["S"]);
    assert_eq!(inserts[3].sql, sqlite::INSERT_OTHER);
    assert_eq!(inserts[3].binds, vec!["D", "dns"]);
    assert_eq!(inserts[4].sql, sqlite::INSERT_ALERT);
    assert_eq!(inserts[4].binds, vec!["B"]);
}

#[test]
fn text_of_a_statement() {
    assert_eq!(
        sqlite::INSERT_STATS,
        "INSERT INTO stats (timestamp, extra_data) VALUES ((UNIXEPOCH(SUBSTR($1->>'timestamp', 1, 19))*1000000 + SUBSTR($1->>'timestamp', 21, 6)), jsonb_extract($1, '$.stats')) ON CONFLICT DO NOTHING"
    );
    assert_eq!(
        postgres::INSERT_STATS,
        "INSERT INTO stats (timestamp, extra_data) SELECT EXTRACT(EPOCH FROM (event->>'timestamp')::timestamp) * 1000000, event->'stats' FROM UNNEST($1::json[]) AS event ON CONFLICT DO NOTHING"
    );
}

#[test]
fn statements_for_postgres() {
    let batches = EventBatches::sort(vec![
        event("dns", "D1"),
        event("flow", FLOW),
        event("alert", "A1"),
        event("flow", r#","src_ip":"here""#),
        event("http", "D2"),
        event("stats", "S1"),
        event("alert", "A2"),
    ]);
    assert_eq!(batches.flow.len(), 2);
    let inserts = write_batch_postgres(
        batches,
        vec![
            (v4("10.0.0.1"), v6("fe80::1")),
            (IpReading::NotAnAddress, IpReading::NotAnAddress),
        ],
    );
    assert_eq!(inserts.len(), postgres::INSERTS);
    assert_eq!(inserts[0].sql, postgres::INSERT_FLOW);
    assert_eq!(
        inserts[0].columns,
        vec![
            vec![FLOW, r#","src_ip":"here""#],
            vec!["10.0.0.1", "here"],
            vec!["[fe80::1]", "here"],
        ]
    );
    assert_eq!(inserts[1].sql, postgres::INSERT_ALERT);
    assert_eq!(inserts[1].columns, vec![vec!["A1", "A2"]]);
    assert_eq!(inserts[2].sql, postgres::INSERT_STATS);
    assert_eq!(inserts[2].columns, vec![vec!["S1"]]);
    assert_eq!(inserts[3].sql, postgres::INSERT_OTHER);
    assert_eq!(inserts[3].columns, vec![vec!["D1", "D2"], vec!["dns", "http"]]);
}

#[test]
fn empty_tables_get_their_statement_too() {
    let batches = EventBatches::sort(vec![event("alert", "A")]);
    let inserts = write_batch_postgres(batches, Vec::new());
    assert_eq!(inserts.len(), 4);
    assert_eq!(inserts[0].columns, vec![Vec::<String>::new(), Vec::new(), Vec::new()]);
    assert_eq!(inserts[3].columns, vec![Vec::<String>::new(), Vec::new()]);
}

#[test]
fn both_databases_store_a_flow_alike() {
    let readings = || (v6("::1"), IpReading::NotAnAddress);
    let single = write_batch_sqlite(vec![(event("flow", FLOW), Some(readings()))]);
    let batches = EventBatches::sort(vec![event("stats", "S"), event("flow", FLOW)]);
    let inserts = write_batch_postgres(batches, vec![readings()]);
    for (bind, column) in single[0].binds.iter().zip(inserts[0].columns.iter()) {
        assert_eq!(column, &vec![bind.clone()]);
    }
    assert_eq!(single[0].binds, vec![FLOW, "[::1]", "10.0.0.1"]);
}

#[test]
fn both_databases_store_every_event_alike() {
    let given = [("dns", "D"), ("alert", "A"), ("stats", "S"), ("http", "H")];
    let batch = || given.iter().map(|(type_, data)| event(type_, data));
    let singles = write_batch_sqlite(batch().map(|e| (e, None)).collect());
    let inserts = write_batch_postgres(EventBatches::sort(batch().collect()), Vec::new());
    // The statement and the place within it that each event falls to.
    for (single, (statement, place)) in singles.iter().zip([(3, 0), (1, 0), (2, 0), (3, 1)]) {
        let row: Vec<String> =
            inserts[statement].columns.iter().map(|column| column[place].clone()).collect();
        assert_eq!(single.binds, row);
    }
    assert_eq!(singles[3].binds, vec!["H", "http"]);
}

#[test]
fn storing_keeps_the_number_of_bytes() {
    for text in ["", "\\u0000", "\u{e9}\\u0000\u{1F600}\\u0000\\u000", "plain"] {
        assert_eq!(EveEvent::from_text(text).data.len(), text.len());
    }
    assert_eq!(EveEvent::from_text("\u{e9}\\u0000").data, "\u{e9}<NULL>");
}

#[test]
fn stored_addresses_differ() {
    let readings =
        || [v4("10.0.0.1"), v4("10.0.0.2"), v6("10.0.0.1"), v6("::1"), v6("fe80::1"), v6("")];
    let stored: Vec<String> =
        readings().into_iter().map(|r| sc_ip_format("", r, IpReading::NotAnAddress).0).collect();
    for i in 0..stored.len() {
        for j in 0..i {
            assert_ne!(stored[i], stored[j]);
        }
    }
    for (reading, text) in readings().into_iter().zip(&stored) {
        match reading {
            IpReading::V4(ip) => assert_eq!(&ip, text),
            IpReading::V6(ip) => assert_eq!(ip, text[1..text.len() - 1]),
            IpReading::NotAnAddress => unreachable!(),
        }
    }
}

#[test]
fn bracketed_text_is_taken_for_the_other_kind() {
    let (v4_stored, v6_stored) = sc_ip_format("", v4("[::1]"), v6("::1"));
    assert_eq!(v4_stored, v6_stored);
}
