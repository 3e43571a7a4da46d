//! What the counts say of a table that keeps one row for each key, and into which a payload is
//! written only where its key is not there yet.
//!
//! The table itself is the database's. Here it stands as the set of its keys.

use crate::database::{Backend, Output, State};
use crate::rawdata::packet::Rawdata;
use vstd::prelude::*;

verus! {

/// The key of a payload: its flow, and its number within the flow.
pub open spec fn key_of(rawdata: Rawdata) -> (i64, i64) {
    (rawdata.flow_id, rawdata.packet_count)
}

/// The keys of a table that had the keys `keys`, after `payloads` have been written to it.
pub open spec fn keys_after(keys: Set<(i64, i64)>, payloads: Seq<Rawdata>) -> Set<(i64, i64)>
    decreases payloads.len(),
{
    if payloads.len() == 0 {
        keys
    } else {
        keys_after(keys, payloads.drop_last()).insert(key_of(payloads.last()))
    }
}

/// How many rows each of `payloads` adds: one, or none where its key is there when its turn comes.
pub open spec fn rows_added(keys: Set<(i64, i64)>, payloads: Seq<Rawdata>) -> Seq<u64> {
    Seq::new(
        payloads.len(),
        |i: int|
            if keys_after(keys, payloads.take(i)).contains(key_of(payloads[i])) {
                0u64
            } else {
                1u64
            },
    )
}

/// How many rows each statement of a batch adds: in SQLite there is one for each payload, in
/// PostgreSQL one for all.
pub open spec fn statements_added(
    backend: Backend,
    keys: Set<(i64, i64)>,
    batch: Seq<Rawdata>,
) -> Seq<u64> {
    match backend {
        Backend::Sqlite => rows_added(keys, batch),
        Backend::Postgres => seq![crate::database::total(rows_added(keys, batch)) as u64],
    }
}

/// The size of each batch, and the rows that its statements add.
pub open spec fn batches_added(
    backend: Backend,
    keys: Set<(i64, i64)>,
    batches: Seq<Seq<Rawdata>>,
) -> Seq<(usize, Seq<u64>)> {
    Seq::new(
        batches.len(),
        |i: int|
            (
                batches[i].len() as usize,
                statements_added(
                    backend,
                    keys_after(keys, batches.take(i).flatten()),
                    batches[i],
                ),
            ),
    )
}

/// The thread at its end, after it has written `batches` to a table that had the keys `keys` and
/// nothing has failed.
pub open spec fn ended(
    backend: Backend,
    keys: Set<(i64, i64)>,
    batches: Seq<Seq<Rawdata>>,
) -> State {
    State::opening(backend, Output::Rawdata).after(
        crate::database::whole_run(backend, batches_added(backend, keys, batches)),
    )
}

/// What can be received: batches that hold something, and no more than can be counted.
pub open spec fn receivable(batches: Seq<Seq<Rawdata>>) -> bool {
    forall|i: int| 0 <= i < batches.len() ==> 0 < (#[trigger] batches[i]).len() <= usize::MAX
}

/// A thread in whose life nothing fails finishes, having counted all payloads, and as rows exactly
/// the keys that the table has gained.
pub proof fn law_rows_counted_are_new_keys(
    backend: Backend,
    keys: Set<(i64, i64)>,
    batches: Seq<Seq<Rawdata>>,
)
    requires
        keys.finite(),
        receivable(batches),
    ensures
        ended(backend, keys, batches).phase is Finished,
        ended(backend, keys, batches).count_incoming == crate::database::capped(
            batches.flatten().len(),
            usize::MAX as nat,
        ),
        ended(backend, keys, batches).count_inserted == crate::database::capped(
            (keys_after(keys, batches.flatten()).len() - keys.len()) as nat,
            u64::MAX as nat,
        ),
        State::opening(backend, Output::Rawdata).awaits_all(
            crate::database::whole_run(backend, batches_added(backend, keys, batches)),
        ),
{
    let added = batches_added(backend, keys, batches);
    let opening = State::opening(backend, Output::Rawdata);
    assert forall|i: int| #![trigger added[i]] 0 <= i < added.len() implies added[i].0 > 0
        && added[i].1.len() == opening.statements_for(added[i].0) by {
        assert(0 < batches[i].len() <= usize::MAX);
    }
    crate::database::law_whole_run_reports_totals(backend, Output::Rawdata, added);
    lemma_batches_added(backend, keys, batches);
}

/// Payloads that were written once are not counted as rows again: a thread that writes the same
/// payloads to the same table, in whichever batches they come, finishes with no row inserted and
/// all payloads counted, and leaves the table as it was.
pub proof fn law_second_run_inserts_nothing(
    backend: Backend,
    keys: Set<(i64, i64)>,
    first: Seq<Seq<Rawdata>>,
    second: Seq<Seq<Rawdata>>,
)
    requires
        keys.finite(),
        receivable(second),
        second.flatten() == first.flatten(),
    ensures
        ({
            let written = keys_after(keys, first.flatten());
            &&& ended(backend, written, second).phase is Finished
            &&& ended(backend, written, second).count_inserted == 0
            &&& ended(backend, written, second).count_incoming == crate::database::capped(
                first.flatten().len(),
                usize::MAX as nat,
            )
            &&& keys_after(written, second.flatten()) == written
        }),
{
    let written = keys_after(keys, first.flatten());
    lemma_rows_added(keys, first.flatten());
    law_rows_counted_are_new_keys(backend, written, second);
    assert forall|i: int| 0 <= i < second.flatten().len() implies written.contains(
        key_of(#[trigger] second.flatten()[i]),
    ) by {
        lemma_written_is_there(keys, first.flatten(), i);
    }
    lemma_nothing_to_add(written, second.flatten());
}

/// A payload that has been written has its key in the table.
proof fn lemma_written_is_there(keys: Set<(i64, i64)>, payloads: Seq<Rawdata>, i: int)
    requires
        0 <= i < payloads.len(),
    ensures
        keys_after(keys, payloads).contains(key_of(payloads[i])),
    decreases payloads.len(),
{
    if i < payloads.len() - 1 {
        lemma_written_is_there(keys, payloads.drop_last(), i);
    }
}

/// Payloads whose keys are all there add no key.
proof fn lemma_nothing_to_add(keys: Set<(i64, i64)>, payloads: Seq<Rawdata>)
    requires
        forall|i: int| 0 <= i < payloads.len() ==> keys.contains(key_of(#[trigger] payloads[i])),
    ensures
        keys_after(keys, payloads) == keys,
    decreases payloads.len(),
{
    if payloads.len() > 0 {
        lemma_nothing_to_add(keys, payloads.drop_last());
        assert(keys.contains(key_of(payloads[payloads.len() - 1])));
        assert(keys_after(keys, payloads) =~= keys);
    }
}

/// Writing in two parts is writing the one and then the other.
proof fn lemma_keys_after_concat(keys: Set<(i64, i64)>, a: Seq<Rawdata>, b: Seq<Rawdata>)
    ensures
        keys_after(keys, a + b) == keys_after(keys_after(keys, a), b),
    decreases b.len(),
{
    if b.len() == 0 {
        assert(a + b =~= a);
    } else {
        assert((a + b).drop_last() =~= a + b.drop_last());
        lemma_keys_after_concat(keys, a, b.drop_last());
    }
}

/// The rows added are the keys gained.
proof fn lemma_rows_added(keys: Set<(i64, i64)>, payloads: Seq<Rawdata>)
    requires
        keys.finite(),
    ensures
        keys_after(keys, payloads).finite(),
        crate::database::total(rows_added(keys, payloads)) + keys.len() == keys_after(
            keys,
            payloads,
        ).len(),
        crate::database::total(rows_added(keys, payloads)) <= payloads.len(),
    decreases payloads.len(),
{
    if payloads.len() > 0 {
        let rest = payloads.drop_last();
        let rows = rows_added(keys, payloads);
        lemma_rows_added(keys, rest);
        assert forall|i: int| 0 <= i < rest.len() implies rows.drop_last()[i] == rows_added(
            keys,
            rest,
        )[i] by {
            assert(rest.take(i) =~= payloads.take(i));
        }
        assert(rows.drop_last() =~= rows_added(keys, rest));
        assert(payloads.take(payloads.len() - 1) =~= rest);
    }
}

/// All batches but the last come before the last.
proof fn lemma_flatten_last(batches: Seq<Seq<Rawdata>>)
    requires
        batches.len() > 0,
    ensures
        batches.flatten() == batches.drop_last().flatten() + batches.last(),
{
    batches.lemma_flatten_and_flatten_alt_are_equivalent();
    batches.drop_last().lemma_flatten_and_flatten_alt_are_equivalent();
}

/// The totals of batches: all payloads, and all keys gained.
proof fn lemma_batches_added(
    backend: Backend,
    keys: Set<(i64, i64)>,
    batches: Seq<Seq<Rawdata>>,
)
    requires
        keys.finite(),
        receivable(batches),
    ensures
        ({
            let added = batches_added(backend, keys, batches);
            &&& crate::database::total_items(added) == batches.flatten().len()
            &&& crate::database::total_rows(added) + keys.len() == keys_after(
                keys,
                batches.flatten(),
            ).len()
        }),
    decreases batches.len(),
{
    if batches.len() > 0 {
        let rest = batches.drop_last();
        let batch = batches.last();
        let added = batches_added(backend, keys, batches);
        assert forall|i: int| 0 <= i < rest.len() implies 0 < (#[trigger] rest[i]).len()
            <= usize::MAX by {
            assert(0 < batches[i].len() <= usize::MAX);
        }
        lemma_batches_added(backend, keys, rest);
        assert forall|i: int| 0 <= i < rest.len() implies added.drop_last()[i] == batches_added(
            backend,
            keys,
            rest,
        )[i] by {
            assert(rest.take(i) =~= batches.take(i));
        }
        assert(added.drop_last() =~= batches_added(backend, keys, rest));
        assert(batches.take(batches.len() - 1) =~= rest);
        assert(0 < batches[batches.len() - 1].len() <= usize::MAX);
        let before = keys_after(keys, rest.flatten());
        lemma_flatten_last(batches);
        lemma_keys_after_concat(keys, rest.flatten(), batch);
        lemma_rows_added(keys, rest.flatten());
        lemma_rows_added(before, batch);
        let rows = statements_added(backend, before, batch);
        assert(added.last() == (batch.len() as usize, rows));
        assert(crate::database::total(rows) == crate::database::total(rows_added(before, batch)))
            by {
            if backend == Backend::Postgres {
                assert(rows.drop_last() =~= Seq::empty());
                reveal_with_fuel(crate::database::total, 2);
            }
        }
    }
}

} // verus!
