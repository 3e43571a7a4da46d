use std::collections::HashSet;
use suricata_sql_output::database::{Action, Database, Outcome, Output};
use suricata_sql_output::rawdata::insert::{
    sqlite_binds, write_batch_postgres, write_batch_sqlite, Columns, POSTGRES_INSERT,
    POSTGRES_INSERTS, SQLITE_INSERT, SQL_SCHEMA,
};
use suricata_sql_output::rawdata::packet::{packet_log_condition, Context, Rawdata};

const NO_INSPECTION: u32 = 1;
const NO_PCAP_LOG: u32 = 1 << 12;

#[test]
fn payloads_are_numbered_within_their_flow() {
    let mut context = Context::new();
    let flows = [7i64, 8, 7, 7, 8, -1];
    let mut keys = Vec::new();
    for flow in flows {
        let rawdata = context.packet_log(b"x", Some((flow, 1)));
        keys.push((rawdata.flow_id, rawdata.packet_count));
    }
    assert_eq!(keys, vec![(7, 0), (8, 0), (7, 1), (7, 2), (8, 1), (-1, 0)]);
}

#[test]
fn payload_is_copied() {
    let mut context = Context::new();
    let rawdata = context.packet_log(b"payload", Some((3, 2)));
    assert_eq!(rawdata.data, b"payload");
    assert_eq!(rawdata.direction, 2);
}

#[test]
fn packets_without_a_flow_share_flow_zero() {
    let mut context = Context::new();
    let first = context.packet_log(b"a", None);
    assert_eq!((first.flow_id, first.direction, first.packet_count), (0, 0, 0));
    let second = context.packet_log(b"b", Some((0, 1)));
    assert_eq!((second.flow_id, second.direction, second.packet_count), (0, 1, 1));
    assert_eq!(context.packet_log(b"c", None).packet_count, 2);
}

#[test]
fn numbers_stop_at_the_largest() {
    let mut context = Context::new();
    context.flow_packet_count.insert(1, i64::MAX - 1);
    assert_eq!(context.packet_log(b"", Some((1, 0))).packet_count, i64::MAX - 1);
    assert_eq!(context.packet_log(b"", Some((1, 0))).packet_count, i64::MAX);
    assert_eq!(context.packet_log(b"", Some((1, 0))).packet_count, i64::MAX);
}

#[test]
fn packets_that_are_logged() {
    assert!(packet_log_condition(1, 0, NO_INSPECTION, NO_PCAP_LOG));
    assert!(packet_log_condition(1, !(NO_INSPECTION | NO_PCAP_LOG), NO_INSPECTION, NO_PCAP_LOG));
    assert!(!packet_log_condition(0, 0, NO_INSPECTION, NO_PCAP_LOG));
    assert!(!packet_log_condition(1, NO_INSPECTION, NO_INSPECTION, NO_PCAP_LOG));
    assert!(!packet_log_condition(1, NO_PCAP_LOG | 2, NO_INSPECTION, NO_PCAP_LOG));
    assert!(!packet_log_condition(1, u32::MAX, NO_INSPECTION, NO_PCAP_LOG));
}

fn payload(flow_id: i64, packet_count: i64, direction: i32, data: &[u8]) -> Rawdata {
    Rawdata { data: data.to_vec(), flow_id, packet_count, direction }
}

#[test]
fn columns_of_a_batch() {
    let columns = Columns::from_batch(vec![
        payload(7, 0, 1, b"a"),
        payload(8, 5, 2, b""),
        payload(7, 1, 1, b"bc"),
    ]);
    assert_eq!(columns.flow_id, vec![7, 8, 7]);
    assert_eq!(columns.packet_count, vec![0, 5, 1]);
    assert_eq!(columns.direction, vec![1, 2, 1]);
    assert_eq!(columns.data, vec![b"a".to_vec(), b"".to_vec(), b"bc".to_vec()]);
}

#[test]
fn binds_of_a_payload() {
    assert_eq!(sqlite_binds(payload(7, 3, 1, b"xy")), (7, 3, 1, b"xy".to_vec()));
}

#[test]
fn statements() {
    assert_eq!(
        SQLITE_INSERT,
        "INSERT INTO rawdata (flow_id, count, direction, data) VALUES ($1, $2, $3, $4) ON CONFLICT DO NOTHING"
    );
    assert_eq!(
        POSTGRES_INSERT,
        "INSERT INTO rawdata (flow_id, count, direction, data) SELECT * FROM UNNEST($1::int8[], $2::int8[], $3::int4[], $4::bytea[]) ON CONFLICT DO NOTHING"
    );
    assert!(SQL_SCHEMA.contains("PRIMARY KEY(flow_id, count)"));
}

/// Writes `batches` to a table with the keys `keys`, and returns what the thread has counted.
fn written(
    url: &str,
    keys: &mut HashSet<(i64, i64)>,
    batches: &[Vec<(i64, i64)>],
) -> (usize, usize, u64) {
    let mut database = Database::new(url, Output::Rawdata).unwrap();
    while database.action() != Action::Receive {
        database.run(Outcome::Done);
    }
    for batch in batches {
        database.run(Outcome::Received(batch.len()));
        database.run(Outcome::Done);
        let rows: Vec<u64> = batch.iter().map(|key| keys.insert(*key) as u64).collect();
        if url.starts_with("sqlite:") {
            for n in rows {
                database.run(Outcome::Affected(n));
            }
        } else {
            database.run(Outcome::Affected(rows.iter().sum()));
        }
        assert_eq!(database.run(Outcome::Done), Action::Receive);
    }
    database.run(Outcome::Disconnected);
    assert_eq!(database.run(Outcome::Done), Action::Finish);
    let state = database.state();
    (state.count_batch, state.count_incoming, state.count_inserted)
}

#[test]
fn second_run_inserts_nothing() {
    for url in ["sqlite:x", "postgres:x"] {
        let mut keys = HashSet::from([(7, 0)]);
        let first = [vec![(7, 0), (7, 1), (8, 0)], vec![(7, 2), (7, 1)]];
        assert_eq!(written(url, &mut keys, &first), (2, 5, 3));
        assert_eq!(keys.len(), 4);
        let second = [vec![(7, 0)], vec![(7, 1), (8, 0), (7, 2)], vec![(7, 1)]];
        assert_eq!(written(url, &mut keys, &second), (3, 5, 0));
        assert_eq!(keys.len(), 4);
    }
}

#[test]
fn batch_of_payloads_for_sqlite() {
    let inserts = write_batch_sqlite(vec![payload(7, 0, 1, b"a"), payload(8, 4, 2, b"bc")]);
    assert_eq!(inserts.len(), 2);
    assert_eq!(inserts[0].sql, SQLITE_INSERT);
    assert_eq!(inserts[0].binds, (7, 0, 1, b"a".to_vec()));
    assert_eq!(inserts[1].sql, SQLITE_INSERT);
    assert_eq!(inserts[1].binds, (8, 4, 2, b"bc".to_vec()));
    assert!(write_batch_sqlite(Vec::new()).is_empty());
}

#[test]
fn batch_of_payloads_for_postgres() {
    let inserts = write_batch_postgres(vec![payload(7, 0, 1, b"a"), payload(8, 4, 2, b"bc")]);
    assert_eq!(inserts.len(), POSTGRES_INSERTS);
    assert_eq!(inserts[0].sql, POSTGRES_INSERT);
    let columns = &inserts[0].columns;
    assert_eq!(columns.flow_id, vec![7, 8]);
    assert_eq!(columns.packet_count, vec![0, 4]);
    assert_eq!(columns.direction, vec![1, 2]);
    assert_eq!(columns.data, vec![b"a".to_vec(), b"bc".to_vec()]);
}
