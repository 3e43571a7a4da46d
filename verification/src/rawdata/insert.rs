//! How payloads are written to a database.

use crate::rawdata::packet::Rawdata;
use vstd::prelude::*;

verus! {

/// The table, in either kind of database.
pub const SQL_SCHEMA: &'static str = "
CREATE TABLE IF NOT EXISTS rawdata (
    flow_id BIGINT NOT NULL,
    count INTEGER NOT NULL,
    direction INTEGER,
    data BYTEA,
    PRIMARY KEY(flow_id, count)
);
CREATE INDEX IF NOT EXISTS rawdata_flow_id_idx ON rawdata(flow_id);";

/// Writes one payload to SQLite.
pub const SQLITE_INSERT: &'static str =
    "INSERT INTO rawdata (flow_id, count, direction, data) VALUES ($1, $2, $3, $4) ON CONFLICT DO NOTHING";

/// Writes the columns of a batch to PostgreSQL.
pub const POSTGRES_INSERT: &'static str =
    "INSERT INTO rawdata (flow_id, count, direction, data) SELECT * FROM UNNEST($1::int8[], $2::int8[], $3::int4[], $4::bytea[]) ON CONFLICT DO NOTHING";

/// The number of statements that write a batch to PostgreSQL.
pub const POSTGRES_INSERTS: usize = 1;

/// A batch by columns, in the order of the statement's parameters.
#[derive(Debug)]
pub struct Columns {
    pub flow_id: Vec<i64>,
    pub packet_count: Vec<i64>,
    pub direction: Vec<i32>,
    pub data: Vec<Vec<u8>>,
}

/// A statement that writes one payload to SQLite, and what is bound to its parameters in order.
#[derive(Debug)]
pub struct SqliteInsert {
    pub sql: &'static str,
    pub binds: (i64, i64, i32, Vec<u8>),
}

/// A statement that writes a batch to PostgreSQL, and the columns that are bound to its parameters.
#[derive(Debug)]
pub struct PostgresInsert {
    pub sql: &'static str,
    pub columns: Columns,
}

impl Columns {
    /// Row `i` of the columns is the payload `rawdata`.
    pub open spec fn row_is(self, i: int, rawdata: Rawdata) -> bool {
        &&& self.flow_id@[i] == rawdata.flow_id
        &&& self.packet_count@[i] == rawdata.packet_count
        &&& self.direction@[i] == rawdata.direction
        &&& self.data@[i]@ == rawdata.data@
    }

    /// The columns hold the payloads `batch`, row by row.
    pub open spec fn holds(self, batch: Seq<Rawdata>) -> bool {
        &&& self.flow_id@.len() == batch.len()
        &&& self.packet_count@.len() == batch.len()
        &&& self.direction@.len() == batch.len()
        &&& self.data@.len() == batch.len()
        &&& forall|i: int| #![trigger batch[i]] 0 <= i < batch.len() ==> self.row_is(i, batch[i])
    }

    /// Turns a batch into columns.
    pub fn from_batch(batch: Vec<Rawdata>) -> (r: Columns)
        ensures
            r.holds(batch@),
    {
        let mut columns = Columns {
            flow_id: Vec::new(),
            packet_count: Vec::new(),
            direction: Vec::new(),
            data: Vec::new(),
        };
        let ghost given = batch@;
        for rawdata in it: batch
            invariant
                it.seq() == given,
                columns.holds(given.take(it.index())),
        {
            let ghost before = columns;
            columns.flow_id.push(rawdata.flow_id);
            columns.packet_count.push(rawdata.packet_count);
            columns.direction.push(rawdata.direction);
            columns.data.push(rawdata.data);
            proof {
                let now = given.take(it.index() + 1);
                assert forall|i: int| #![trigger now[i]] 0 <= i < now.len() implies columns.row_is(
                    i,
                    now[i],
                ) by {
                    if i < it.index() {
                        assert(given.take(it.index())[i] == now[i]);
                        assert(before.row_is(i, now[i]));
                    }
                }
            }
        }
        assert(given.take(given.len() as int) =~= given);
        columns
    }
}

/// What is bound to the parameters of the statement that writes one payload to SQLite, in order.
pub fn sqlite_binds(rawdata: Rawdata) -> (r: (i64, i64, i32, Vec<u8>))
    ensures
        r.0 == rawdata.flow_id,
        r.1 == rawdata.packet_count,
        r.2 == rawdata.direction,
        (r.3)@ == rawdata.data@,
{
    (rawdata.flow_id, rawdata.packet_count, rawdata.direction, rawdata.data)
}

impl SqliteInsert {
    /// The statement writes the payload `rawdata`.
    pub open spec fn writes(self, rawdata: Rawdata) -> bool {
        &&& self.sql@ == SQLITE_INSERT@
        &&& self.binds.0 == rawdata.flow_id
        &&& self.binds.1 == rawdata.packet_count
        &&& self.binds.2 == rawdata.direction
        &&& (self.binds.3)@ == rawdata.data@
    }
}

impl PostgresInsert {
    /// The statement writes the payloads `batch`.
    pub open spec fn writes(self, batch: Seq<Rawdata>) -> bool {
        &&& self.sql@ == POSTGRES_INSERT@
        &&& self.columns.holds(batch)
    }
}

/// The statements that write a batch to SQLite: one for each payload, in order.
pub fn write_batch_sqlite(batch: Vec<Rawdata>) -> (r: Vec<SqliteInsert>)
    ensures
        r@.len() == batch@.len(),
        forall|i: int| #![trigger r@[i]] 0 <= i < r@.len() ==> r@[i].writes(batch@[i]),
{
    let mut inserts: Vec<SqliteInsert> = Vec::new();
    let ghost given = batch@;
    for rawdata in it: batch
        invariant
            it.seq() == given,
            inserts@.len() == it.index(),
            forall|i: int|
                #![trigger inserts@[i]]
                0 <= i < inserts@.len() ==> inserts@[i].writes(given[i]),
    {
        inserts.push(SqliteInsert { sql: SQLITE_INSERT, binds: sqlite_binds(rawdata) });
    }
    inserts
}

/// The statements that write a batch to PostgreSQL: one for all payloads.
pub fn write_batch_postgres(batch: Vec<Rawdata>) -> (r: Vec<PostgresInsert>)
    ensures
        r@.len() == POSTGRES_INSERTS,
        r@[0].writes(batch@),
{
    vec![PostgresInsert { sql: POSTGRES_INSERT, columns: Columns::from_batch(batch) }]
}

/// In SQLite each payload of a batch has a statement of its own, which takes its flow, its number,
/// its direction and its bytes, in this order.
pub proof fn law_each_payload_is_written(batch: Vec<Rawdata>, r: Vec<SqliteInsert>, i: int)
    requires
        call_ensures(write_batch_sqlite, (batch,), r),
        0 <= i < batch@.len(),
    ensures
        r@.len() == batch@.len(),
        r@[i].sql@
            == "INSERT INTO rawdata (flow_id, count, direction, data) VALUES ($1, $2, $3, $4) ON CONFLICT DO NOTHING"@,
        r@[i].binds.0 == batch@[i].flow_id,
        r@[i].binds.1 == batch@[i].packet_count,
        r@[i].binds.2 == batch@[i].direction,
        (r@[i].binds.3)@ == batch@[i].data@,
{
}

/// In PostgreSQL one statement takes all payloads of a batch, which stand at one place in its four
/// columns: flows, numbers, directions and bytes, in this order.
pub proof fn law_all_payloads_are_written(batch: Vec<Rawdata>, r: Vec<PostgresInsert>)
    requires
        call_ensures(write_batch_postgres, (batch,), r),
    ensures
        r@.len() == 1,
        r@[0].sql@
            == "INSERT INTO rawdata (flow_id, count, direction, data) SELECT * FROM UNNEST($1::int8[], $2::int8[], $3::int4[], $4::bytea[]) ON CONFLICT DO NOTHING"@,
        r@[0].columns.flow_id@ == batch@.map_values(|p: Rawdata| p.flow_id),
        r@[0].columns.packet_count@ == batch@.map_values(|p: Rawdata| p.packet_count),
        r@[0].columns.direction@ == batch@.map_values(|p: Rawdata| p.direction),
        r@[0].columns.data@.map_values(|d: Vec<u8>| d@) == batch@.map_values(|p: Rawdata| p.data@),
{
    let columns = r@[0].columns;
    assert forall|i: int| #![trigger batch@[i]] 0 <= i < batch@.len() implies columns.flow_id@[i]
        == batch@[i].flow_id && columns.packet_count@[i] == batch@[i].packet_count
        && columns.direction@[i] == batch@[i].direction && columns.data@[i]@ == batch@[i].data@ by {
        assert(columns.row_is(i, batch@[i]));
    }
}

/// The table has a column for each value that is written, and its key is the flow and the number.
/// It is created only where it is missing, and so is the index over its flows.
pub proof fn law_table_takes_what_is_written()
    ensures
        SQL_SCHEMA@ == "
CREATE TABLE IF NOT EXISTS rawdata (
    flow_id BIGINT NOT NULL,
    count INTEGER NOT NULL,
    direction INTEGER,
    data BYTEA,
    PRIMARY KEY(flow_id, count)
);
CREATE INDEX IF NOT EXISTS rawdata_flow_id_idx ON rawdata(flow_id);"@,
{
}

} // verus!
