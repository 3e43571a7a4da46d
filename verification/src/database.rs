//! The database thread of a plugin, as a machine that says what to do next.
//!
//! [`Database::run`] takes what became of the last action and answers with the next one: open the
//! database, then take batches from the plugin and write each in a transaction of its own, until
//! the plugin goes away.

use crate::eve;
use crate::rawdata;
use crate::text::starts_with;
use vstd::prelude::*;
use vstd::utf8::*;

verus! {

/// What the URL of a SQLite database begins with.
pub const SQLITE_SCHEME: &'static str = "sqlite:";

/// What the URL of a PostgreSQL database begins with.
pub const POSTGRES_SCHEME: &'static str = "postgres:";

/// What is said of any other URL.
pub const UNSUPPORTED_SCHEME: &'static str =
    "Only sqlite and postgres database schemes are supported";

/// How long to wait before PostgreSQL is tried, and tried again, in milliseconds.
pub const PAUSE_MILLIS: u64 = 100;

/// The two kinds of database.
#[derive(Debug, Clone, Copy, PartialEq, Eq, Structural)]
pub enum Backend {
    Sqlite,
    Postgres,
}

/// The plugin that the thread writes for.
#[derive(Debug, Clone, Copy, PartialEq, Eq, Structural)]
pub enum Output {
    Eve,
    Rawdata,
}

/// The URL names neither kind of database.
#[derive(Debug, Clone, Copy, PartialEq, Eq, Structural)]
pub struct UnsupportedScheme;

/// Where the thread stands.
#[derive(Debug, Clone, Copy, PartialEq, Eq, Structural)]
pub enum Phase {
    /// Wait for the database to be ready.
    Pause,
    Connect,
    CreateTables,
    /// Wait for a batch.
    Receive,
    /// Open a transaction for a batch that takes this many statements.
    Begin { statements: usize },
    /// Execute the statement `next` of a batch.
    Execute { next: usize, statements: usize },
    Commit,
    Close,
    /// The plugin is gone and the connection is closed.
    Finished,
    /// The database failed.
    Failed,
}

/// What is to be done next.
#[derive(Debug, Clone, Copy, PartialEq, Eq, Structural)]
pub enum Action {
    /// Sleep for some milliseconds.
    Pause(u64),
    Connect,
    CreateTables,
    /// Wait for one item and take all that are there.
    Receive,
    Begin,
    /// Execute the statement with this number.
    Execute(usize),
    Commit,
    Close,
    /// Nothing: the thread is done.
    Finish,
    /// Nothing: the thread ends prematurely.
    GiveUp,
}

/// What became of an action.
#[derive(Debug, Clone, Copy, PartialEq, Eq, Structural)]
pub enum Outcome {
    Done,
    Failed,
    /// This many items were received.
    Received(usize),
    /// The plugin is gone.
    Disconnected,
    /// This many rows were inserted.
    Affected(u64),
}

/// What a database thread knows and has counted.
#[derive(Debug, Clone, Copy, PartialEq, Eq, Structural)]
pub struct State {
    pub backend: Backend,
    pub output: Output,
    pub phase: Phase,
    /// The rows that the open transaction has inserted.
    pub inserted: u64,
    pub count_batch: usize,
    pub count_incoming: usize,
    pub count_inserted: u64,
}

/// A plugin's database thread.
#[derive(Debug, PartialEq, Eq, Structural)]
pub struct Database {
    state: State,
}

/// `a + b`, or the largest count where that is more.
pub open spec fn saturating_usize(a: usize, b: usize) -> usize {
    if a + b > usize::MAX {
        usize::MAX
    } else {
        (a + b) as usize
    }
}

/// `a + b`, or the largest count where that is more.
pub open spec fn saturating_u64(a: u64, b: u64) -> u64 {
    if a + b > u64::MAX {
        u64::MAX
    } else {
        (a + b) as u64
    }
}

/// The sum of `rows`, or the largest count where that is more.
pub open spec fn saturating_sum(rows: Seq<u64>) -> u64
    decreases rows.len(),
{
    if rows.len() == 0 {
        0
    } else {
        saturating_u64(saturating_sum(rows.drop_last()), rows.last())
    }
}

/// The kind of database that `url` names.
pub open spec fn backend_of(url: Seq<char>) -> Option<Backend> {
    if SQLITE_SCHEME@.is_prefix_of(url) {
        Some(Backend::Sqlite)
    } else if POSTGRES_SCHEME@.is_prefix_of(url) {
        Some(Backend::Postgres)
    } else {
        None
    }
}

impl UnsupportedScheme {
    /// What is said of the URL.
    pub fn message(&self) -> (r: &'static str)
        ensures
            r@ == UNSUPPORTED_SCHEME@,
    {
        UNSUPPORTED_SCHEME
    }
}

impl State {
    /// The thread before its first action. PostgreSQL may still be starting: it is waited for.
    pub open spec fn opening(backend: Backend, output: Output) -> State {
        State {
            backend,
            output,
            phase: match backend {
                Backend::Sqlite => Phase::Connect,
                Backend::Postgres => Phase::Pause,
            },
            inserted: 0,
            count_batch: 0,
            count_incoming: 0,
            count_inserted: 0,
        }
    }

    /// What holds of the thread between actions.
    pub open spec fn well_formed(self) -> bool {
        &&& self.count_batch <= self.count_incoming
        &&& match self.phase {
            Phase::Begin { statements } => statements > 0,
            Phase::Execute { next, statements } => next < statements,
            _ => true,
        }
    }

    /// `outcome` can have become of the current action.
    pub open spec fn awaits(self, outcome: Outcome) -> bool {
        match self.phase {
            Phase::Pause => outcome is Done,
            Phase::Receive => match outcome {
                Outcome::Received(items) => items > 0,
                Outcome::Disconnected => true,
                _ => false,
            },
            Phase::Execute { .. } => outcome is Affected || outcome is Failed,
            Phase::Finished => false,
            Phase::Failed => false,
            _ => outcome is Done || outcome is Failed,
        }
    }

    /// How many statements a batch of `items` takes: in SQLite one for each item, in PostgreSQL
    /// as many as the plugin has for a batch.
    pub open spec fn statements_for(self, items: usize) -> usize {
        match (self.backend, self.output) {
            (Backend::Sqlite, _) => items,
            (Backend::Postgres, Output::Eve) => eve::postgres::INSERTS,
            (Backend::Postgres, Output::Rawdata) => rawdata::insert::POSTGRES_INSERTS,
        }
    }

    /// The thread in another phase.
    pub open spec fn at(self, phase: Phase) -> State {
        State { phase, ..self }
    }

    /// The thread after `outcome` has become of the current action.
    pub open spec fn next(self, outcome: Outcome) -> State {
        match (self.phase, outcome) {
            (Phase::Pause, Outcome::Done) => self.at(Phase::Connect),
            (Phase::Connect, Outcome::Done) => self.at(Phase::CreateTables),
            (Phase::Connect, Outcome::Failed) => match self.backend {
                Backend::Sqlite => self.at(Phase::Failed),
                Backend::Postgres => self.at(Phase::Pause),
            },
            (Phase::CreateTables, Outcome::Done) => self.at(Phase::Receive),
            (Phase::Receive, Outcome::Received(items)) => State {
                phase: Phase::Begin { statements: self.statements_for(items) },
                inserted: 0,
                count_batch: saturating_usize(self.count_batch, 1),
                count_incoming: saturating_usize(self.count_incoming, items),
                ..self
            },
            (Phase::Receive, Outcome::Disconnected) => self.at(Phase::Close),
            (Phase::Begin { statements }, Outcome::Done) => self.at(
                Phase::Execute { next: 0, statements },
            ),
            (Phase::Execute { next, statements }, Outcome::Affected(rows)) => State {
                phase: if next + 1 < statements {
                    Phase::Execute { next: (next + 1) as usize, statements }
                } else {
                    Phase::Commit
                },
                inserted: saturating_u64(self.inserted, rows),
                ..self
            },
            (Phase::Commit, Outcome::Done) => State {
                phase: Phase::Receive,
                count_inserted: saturating_u64(self.count_inserted, self.inserted),
                ..self
            },
            (Phase::Close, Outcome::Done) => self.at(Phase::Finished),
            (_, Outcome::Failed) => self.at(Phase::Failed),
            _ => self,
        }
    }

    /// What the thread does next.
    pub open spec fn spec_action(self) -> Action {
        match self.phase {
            Phase::Pause => Action::Pause(PAUSE_MILLIS),
            Phase::Connect => Action::Connect,
            Phase::CreateTables => Action::CreateTables,
            Phase::Receive => Action::Receive,
            Phase::Begin { .. } => Action::Begin,
            Phase::Execute { next, .. } => Action::Execute(next),
            Phase::Commit => Action::Commit,
            Phase::Close => Action::Close,
            Phase::Finished => Action::Finish,
            Phase::Failed => Action::GiveUp,
        }
    }

    /// The thread after a run of outcomes.
    #[verifier::opaque]
    pub open spec fn after(self, outcomes: Seq<Outcome>) -> State
        decreases outcomes.len(),
    {
        if outcomes.len() == 0 {
            self
        } else {
            self.after(outcomes.drop_last()).next(outcomes.last())
        }
    }

    /// Each of a run of outcomes can have become of the action that it answers.
    pub open spec fn awaits_all(self, outcomes: Seq<Outcome>) -> bool {
        forall|i: int|
            0 <= i < outcomes.len() ==> self.after(outcomes.take(i)).awaits(#[trigger] outcomes[i])
    }

    /// Takes what became of the current action.
    fn stepped(self, outcome: Outcome) -> (r: State)
        requires
            self.well_formed(),
            self.awaits(outcome),
        ensures
            r == self.next(outcome),
            r.well_formed(),
    {
        let mut state = self;
        match (self.phase, outcome) {
            (Phase::Pause, Outcome::Done) => {
                state.phase = Phase::Connect;
            },
            (Phase::Connect, Outcome::Done) => {
                state.phase = Phase::CreateTables;
            },
            (Phase::Connect, Outcome::Failed) => {
                state.phase = match self.backend {
                    Backend::Sqlite => Phase::Failed,
                    Backend::Postgres => Phase::Pause,
                };
            },
            (Phase::CreateTables, Outcome::Done) => {
                state.phase = Phase::Receive;
            },
            (Phase::Receive, Outcome::Received(items)) => {
                let statements: usize = match (self.backend, self.output) {
                    (Backend::Sqlite, _) => items,
                    (Backend::Postgres, Output::Eve) => eve::postgres::INSERTS,
                    (Backend::Postgres, Output::Rawdata) => rawdata::insert::POSTGRES_INSERTS,
                };
                state.phase = Phase::Begin { statements };
                state.inserted = 0;
                state.count_batch = self.count_batch.saturating_add(1);
                state.count_incoming = self.count_incoming.saturating_add(items);
            },
            (Phase::Receive, Outcome::Disconnected) => {
                state.phase = Phase::Close;
            },
            (Phase::Begin { statements }, Outcome::Done) => {
                state.phase = Phase::Execute { next: 0, statements };
            },
            (Phase::Execute { next, statements }, Outcome::Affected(rows)) => {
                state.inserted = self.inserted.saturating_add(rows);
                state.phase = if next + 1 < statements {
                    Phase::Execute { next: next + 1, statements }
                } else {
                    Phase::Commit
                };
            },
            (Phase::Commit, Outcome::Done) => {
                state.count_inserted = self.count_inserted.saturating_add(self.inserted);
                state.phase = Phase::Receive;
            },
            (Phase::Close, Outcome::Done) => {
                state.phase = Phase::Finished;
            },
            (_, Outcome::Failed) => {
                state.phase = Phase::Failed;
            },
            _ => {},
        }
        state
    }
}

impl View for Database {
    type V = State;

    closed spec fn view(&self) -> State {
        self.state
    }
}

impl Database {
    #[verifier::type_invariant]
    spec fn is_well_formed(self) -> bool {
        self.state.well_formed()
    }

    /// The thread that writes for `output` to the database at `url`.
    pub fn new(url: &str, output: Output) -> (r: Result<Database, UnsupportedScheme>)
        ensures
            match backend_of(url@) {
                Some(backend) => r matches Ok(database) && database@ == State::opening(
                    backend,
                    output,
                ) && database@.well_formed(),
                None => r is Err,
            },
    {
        proof {
            reveal_strlit("sqlite:");
            reveal_strlit("postgres:");
        }
        let (backend, phase) = if starts_with(url, SQLITE_SCHEME) {
            (Backend::Sqlite, Phase::Connect)
        } else if starts_with(url, POSTGRES_SCHEME) {
            (Backend::Postgres, Phase::Pause)
        } else {
            return Err(UnsupportedScheme);
        };
        let state = State {
            backend,
            output,
            phase,
            inserted: 0,
            count_batch: 0,
            count_incoming: 0,
            count_inserted: 0,
        };
        Ok(Database { state })
    }

    /// What the thread knows and has counted.
    pub fn state(&self) -> (state: State)
        ensures
            state == self@,
            state.well_formed(),
    {
        proof {
            use_type_invariant(self);
        }
        self.state
    }

    /// What the thread does next.
    pub fn action(&self) -> (action: Action)
        ensures
            action == self@.spec_action(),
    {
        match self.state.phase {
            Phase::Pause => Action::Pause(PAUSE_MILLIS),
            Phase::Connect => Action::Connect,
            Phase::CreateTables => Action::CreateTables,
            Phase::Receive => Action::Receive,
            Phase::Begin { statements: _ } => Action::Begin,
            Phase::Execute { next, statements: _ } => Action::Execute(next),
            Phase::Commit => Action::Commit,
            Phase::Close => Action::Close,
            Phase::Finished => Action::Finish,
            Phase::Failed => Action::GiveUp,
        }
    }

    /// Takes what became of the current action, and answers with the next one.
    pub fn run(&mut self, outcome: Outcome) -> (action: Action)
        requires
            old(self)@.awaits(outcome),
        ensures
            final(self)@ == old(self)@.next(outcome),
            final(self)@.well_formed(),
            action == final(self)@.spec_action(),
    {
        proof {
            use_type_invariant(&*self);
        }
        self.state = self.state.stepped(outcome);
        self.action()
    }
}

/// The outcomes of statements that inserted these numbers of rows.
pub open spec fn affected(rows: Seq<u64>) -> Seq<Outcome> {
    rows.map_values(|n: u64| Outcome::Affected(n))
}

/// The outcomes while PostgreSQL refuses `times` connections: a pause before each.
pub open spec fn refused(times: nat) -> Seq<Outcome>
    decreases times,
{
    if times == 0 {
        Seq::empty()
    } else {
        refused((times - 1) as nat) + seq![Outcome::Done, Outcome::Failed]
    }
}

/// A run in two parts ends where the second part leads from the end of the first.
proof fn lemma_after_concat(database: State, first: Seq<Outcome>, second: Seq<Outcome>)
    ensures
        database.after(first + second) == database.after(first).after(second),
    decreases second.len(),
{
    reveal(State::after);
    if second.len() == 0 {
        assert(first + second =~= first);
    } else {
        assert((first + second).drop_last() =~= first + second.drop_last());
        lemma_after_concat(database, first, second.drop_last());
    }
}

/// A run in two parts is awaited where each part is.
proof fn lemma_awaits_concat(database: State, first: Seq<Outcome>, second: Seq<Outcome>)
    requires
        database.awaits_all(first),
        database.after(first).awaits_all(second),
    ensures
        database.awaits_all(first + second),
{
    let whole = first + second;
    assert forall|i: int| 0 <= i < whole.len() implies database.after(whole.take(i)).awaits(
        #[trigger] whole[i],
    ) by {
        if i < first.len() {
            assert(whole.take(i) =~= first.take(i));
            assert(whole[i] == first[i]);
        } else {
            let k = i - first.len();
            assert(whole.take(i) =~= first + second.take(k));
            lemma_after_concat(database, first, second.take(k));
            assert(whole[i] == second[k]);
        }
    }
}

/// A run of one outcome.
proof fn lemma_one(database: State, outcome: Outcome)
    ensures
        database.after(seq![outcome]) == database.next(outcome),
        database.awaits(outcome) ==> database.awaits_all(seq![outcome]),
{
    assert(seq![outcome].drop_last() =~= Seq::empty());
    assert(seq![outcome].take(0) =~= Seq::empty());
    reveal_with_fuel(State::after, 2);
}

/// A run of no outcome.
proof fn lemma_none(database: State)
    ensures
        database.after(Seq::empty()) == database,
{
    reveal(State::after);
}

/// A run of two outcomes.
proof fn lemma_two(database: State, first: Outcome, second: Outcome)
    ensures
        database.after(seq![first, second]) == database.next(first).next(second),
        database.awaits(first) && database.next(first).awaits(second) ==> database.awaits_all(
            seq![first, second],
        ),
{
    assert(seq![first, second] =~= seq![first] + seq![second]);
    lemma_one(database, first);
    lemma_one(database.next(first), second);
    lemma_after_concat(database, seq![first], seq![second]);
    if database.awaits(first) && database.next(first).awaits(second) {
        lemma_awaits_concat(database, seq![first], seq![second]);
    }
}

/// The statements of a batch lead from one to the next, and sum up what they insert.
proof fn lemma_statements(database: State, statements: usize, rows: Seq<u64>)
    requires
        database.phase == (Phase::Execute { next: 0, statements }),
        database.inserted == 0,
        0 < statements,
        rows.len() <= statements,
    ensures
        database.awaits_all(affected(rows)),
        database.after(affected(rows)) == (State {
            phase: if rows.len() < statements {
                Phase::Execute { next: rows.len() as usize, statements }
            } else {
                Phase::Commit
            },
            inserted: saturating_sum(rows),
            ..database
        }),
    decreases rows.len(),
{
    if rows.len() == 0 {
        assert(affected(rows) =~= Seq::empty());
        lemma_none(database);
    } else {
        let rest = rows.drop_last();
        lemma_statements(database, statements, rest);
        assert(affected(rows) =~= affected(rest) + seq![Outcome::Affected(rows.last())]);
        lemma_after_concat(database, affected(rest), seq![Outcome::Affected(rows.last())]);
        lemma_one(database.after(affected(rest)), Outcome::Affected(rows.last()));
        lemma_awaits_concat(database, affected(rest), seq![Outcome::Affected(rows.last())]);
    }
}

/// The thread that has received a batch and inserted with its first statements.
proof fn lemma_batch_so_far(database: State, items: usize, rows: Seq<u64>)
    requires
        database.phase is Receive,
        items > 0,
        rows.len() <= database.statements_for(items),
    ensures
        ({
            let so_far = seq![Outcome::Received(items), Outcome::Done] + affected(rows);
            let statements = database.statements_for(items);
            &&& database.awaits_all(so_far)
            &&& database.after(so_far) == (State {
                phase: if rows.len() < statements {
                    Phase::Execute { next: rows.len() as usize, statements }
                } else {
                    Phase::Commit
                },
                inserted: saturating_sum(rows),
                count_batch: saturating_usize(database.count_batch, 1),
                count_incoming: saturating_usize(database.count_incoming, items),
                ..database
            })
        }),
{
    let start = seq![Outcome::Received(items), Outcome::Done];
    lemma_two(database, Outcome::Received(items), Outcome::Done);
    lemma_statements(database.after(start), database.statements_for(items), rows);
    lemma_after_concat(database, start, affected(rows));
    lemma_awaits_concat(database, start, affected(rows));
}

/// The statements of a batch are executed in order, each once, before the batch is committed.
pub proof fn law_statements_run_in_order(database: State, items: usize, rows: Seq<u64>)
    requires
        database.phase is Receive,
        items > 0,
        rows.len() <= database.statements_for(items),
    ensures
        ({
            let so_far = seq![Outcome::Received(items), Outcome::Done] + affected(rows);
            &&& database.awaits_all(so_far)
            &&& database.after(so_far).spec_action() == if rows.len() < database.statements_for(
                items,
            ) {
                Action::Execute(rows.len() as usize)
            } else {
                Action::Commit
            }
        }),
{
    lemma_batch_so_far(database, items, rows);
}

/// A batch that is committed counts as one batch, with all its items and all the rows that its
/// statements inserted, and the thread waits for the next one.
pub proof fn law_committed_batch_is_counted(database: State, items: usize, rows: Seq<u64>)
    requires
        database.phase is Receive,
        items > 0,
        rows.len() == database.statements_for(items),
    ensures
        ({
            let run = seq![Outcome::Received(items), Outcome::Done] + affected(rows)
                + seq![Outcome::Done];
            &&& database.awaits_all(run)
            &&& database.after(run) == (State {
                inserted: saturating_sum(rows),
                count_batch: saturating_usize(database.count_batch, 1),
                count_incoming: saturating_usize(database.count_incoming, items),
                count_inserted: saturating_u64(database.count_inserted, saturating_sum(rows)),
                ..database
            })
        }),
{
    let so_far = seq![Outcome::Received(items), Outcome::Done] + affected(rows);
    lemma_batch_so_far(database, items, rows);
    lemma_one(database.after(so_far), Outcome::Done);
    lemma_after_concat(database, so_far, seq![Outcome::Done]);
    lemma_awaits_concat(database, so_far, seq![Outcome::Done]);
}

/// `n`, or the largest count where `n` is more.
pub open spec fn capped(n: nat, largest: nat) -> nat {
    if n <= largest {
        n
    } else {
        largest
    }
}

/// The sum of `rows`.
pub open spec fn total(rows: Seq<u64>) -> nat
    decreases rows.len(),
{
    if rows.len() == 0 {
        0
    } else {
        total(rows.drop_last()) + rows.last() as nat
    }
}

/// The outcomes of whole batches, each with its items and the rows that its statements inserted.
pub open spec fn whole_batches(batches: Seq<(usize, Seq<u64>)>) -> Seq<Outcome>
    decreases batches.len(),
{
    if batches.len() == 0 {
        Seq::empty()
    } else {
        let (items, rows) = batches.last();
        whole_batches(batches.drop_last()) + (seq![Outcome::Received(items), Outcome::Done]
            + affected(rows) + seq![Outcome::Done])
    }
}

/// The items of all batches together.
pub open spec fn total_items(batches: Seq<(usize, Seq<u64>)>) -> nat
    decreases batches.len(),
{
    if batches.len() == 0 {
        0
    } else {
        total_items(batches.drop_last()) + batches.last().0 as nat
    }
}

/// The rows of all batches together.
pub open spec fn total_rows(batches: Seq<(usize, Seq<u64>)>) -> nat
    decreases batches.len(),
{
    if batches.len() == 0 {
        0
    } else {
        total_rows(batches.drop_last()) + total(batches.last().1)
    }
}

/// Adding up with a largest count gives the sum, or that count.
proof fn lemma_saturating_sum(rows: Seq<u64>)
    ensures
        saturating_sum(rows) == capped(total(rows), u64::MAX as nat),
    decreases rows.len(),
{
    if rows.len() > 0 {
        lemma_saturating_sum(rows.drop_last());
    }
}

/// What the thread reports at its end are the totals: all batches, all their items, and all rows
/// that they inserted, each up to the largest count.
pub proof fn law_totals_are_exact(database: State, batches: Seq<(usize, Seq<u64>)>)
    requires
        database.phase is Receive,
        forall|i: int|
            #![trigger batches[i]]
            0 <= i < batches.len() ==> batches[i].0 > 0 && batches[i].1.len()
                == database.statements_for(batches[i].0),
    ensures
        database.awaits_all(whole_batches(batches)),
        database.after(whole_batches(batches)).phase is Receive,
        database.after(whole_batches(batches)).backend == database.backend,
        database.after(whole_batches(batches)).output == database.output,
        database.after(whole_batches(batches)).count_batch == capped(
            database.count_batch as nat + batches.len(),
            usize::MAX as nat,
        ),
        database.after(whole_batches(batches)).count_incoming == capped(
            database.count_incoming as nat + total_items(batches),
            usize::MAX as nat,
        ),
        database.after(whole_batches(batches)).count_inserted == capped(
            database.count_inserted as nat + total_rows(batches),
            u64::MAX as nat,
        ),
    decreases batches.len(),
{
    lemma_none(database);
    if batches.len() > 0 {
        let rest = batches.drop_last();
        assert forall|i: int| #![trigger rest[i]] 0 <= i < rest.len() implies rest[i].0 > 0
            && rest[i].1.len() == database.statements_for(rest[i].0) by {
            assert(rest[i] == batches[i]);
        }
        law_totals_are_exact(database, rest);
        assert(batches[batches.len() - 1] == batches.last());
        let (items, rows) = batches.last();
        let before = database.after(whole_batches(rest));
        lemma_saturating_sum(rows);
        let run = seq![Outcome::Received(items), Outcome::Done] + affected(rows)
            + seq![Outcome::Done];
        law_committed_batch_is_counted(before, items, rows);
        lemma_after_concat(database, whole_batches(rest), run);
        lemma_awaits_concat(database, whole_batches(rest), run);
    }
}

/// A batch that fails adds nothing to the rows inserted, and ends the thread, but it still counts as
/// a batch with all its items. It may fail when its transaction is opened, at any statement, or at
/// its commit.
pub proof fn law_failed_batch_inserts_nothing(database: State, items: usize, rows: Seq<u64>)
    requires
        database.phase is Receive,
        items > 0,
        rows.len() <= database.statements_for(items),
    ensures
        ({
            let not_opened = seq![Outcome::Received(items), Outcome::Failed];
            let ended = database.after(not_opened);
            &&& database.awaits_all(not_opened)
            &&& ended.phase is Failed
            &&& ended.count_inserted == database.count_inserted
            &&& ended.count_batch == saturating_usize(database.count_batch, 1)
            &&& ended.count_incoming == saturating_usize(database.count_incoming, items)
        }),
        ({
            let run = seq![Outcome::Received(items), Outcome::Done] + affected(rows)
                + seq![Outcome::Failed];
            let ended = database.after(run);
            &&& database.awaits_all(run)
            &&& ended.phase is Failed
            &&& ended.count_inserted == database.count_inserted
            &&& ended.count_batch == saturating_usize(database.count_batch, 1)
            &&& ended.count_incoming == saturating_usize(database.count_incoming, items)
        }),
{
    let so_far = seq![Outcome::Received(items), Outcome::Done] + affected(rows);
    lemma_two(database, Outcome::Received(items), Outcome::Failed);
    lemma_batch_so_far(database, items, rows);
    lemma_one(database.after(so_far), Outcome::Failed);
    lemma_after_concat(database, so_far, seq![Outcome::Failed]);
    lemma_awaits_concat(database, so_far, seq![Outcome::Failed]);
}

/// Where no statement inserts a row, no batch adds to the rows inserted, while all of their items
/// are counted.
pub proof fn law_nothing_new_counts_no_row(database: State, batches: Seq<(usize, Seq<u64>)>)
    requires
        database.phase is Receive,
        forall|i: int|
            #![trigger batches[i]]
            0 <= i < batches.len() ==> batches[i].0 > 0 && batches[i].1.len()
                == database.statements_for(batches[i].0),
        forall|i: int, k: int|
            0 <= i < batches.len() && 0 <= k < batches[i].1.len() ==> #[trigger] batches[i].1[k]
                == 0,
    ensures
        database.awaits_all(whole_batches(batches)),
        database.after(whole_batches(batches)).phase is Receive,
        database.after(whole_batches(batches)).count_inserted == database.count_inserted,
        database.after(whole_batches(batches)).count_incoming == capped(
            database.count_incoming as nat + total_items(batches),
            usize::MAX as nat,
        ),
{
    law_totals_are_exact(database, batches);
    lemma_no_rows(batches);
}

/// The rows of batches whose statements insert none add up to none.
proof fn lemma_no_rows(batches: Seq<(usize, Seq<u64>)>)
    requires
        forall|i: int, k: int|
            0 <= i < batches.len() && 0 <= k < batches[i].1.len() ==> #[trigger] batches[i].1[k]
                == 0,
    ensures
        total_rows(batches) == 0,
    decreases batches.len(),
{
    if batches.len() > 0 {
        let rest = batches.drop_last();
        let rows = batches.last().1;
        assert forall|i: int, k: int|
            0 <= i < rest.len() && 0 <= k < rest[i].1.len() implies #[trigger] rest[i].1[k] == 0 by {
            assert(batches[i].1[k] == 0);
        }
        lemma_no_rows(rest);
        assert forall|k: int| 0 <= k < rows.len() implies #[trigger] rows[k] == 0 by {
            assert(batches[batches.len() - 1].1[k] == 0);
        }
        lemma_total_of_zeros(rows);
    }
}

/// Zeros add up to zero.
proof fn lemma_total_of_zeros(rows: Seq<u64>)
    requires
        forall|k: int| 0 <= k < rows.len() ==> #[trigger] rows[k] == 0,
    ensures
        total(rows) == 0,
    decreases rows.len(),
{
    if rows.len() > 0 {
        lemma_total_of_zeros(rows.drop_last());
    }
}

/// The outcomes that open a database that is ready.
pub open spec fn opened(backend: Backend) -> Seq<Outcome> {
    match backend {
        Backend::Sqlite => seq![Outcome::Done, Outcome::Done],
        Backend::Postgres => seq![Outcome::Done, Outcome::Done] + seq![Outcome::Done],
    }
}

/// The outcomes of a whole life of the thread in which nothing fails.
pub open spec fn whole_run(backend: Backend, batches: Seq<(usize, Seq<u64>)>) -> Seq<Outcome> {
    opened(backend) + whole_batches(batches) + seq![Outcome::Disconnected, Outcome::Done]
}

/// A thread in whose life nothing fails finishes, and what it has counted then are the totals of
/// its batches.
pub proof fn law_whole_run_reports_totals(
    backend: Backend,
    output: Output,
    batches: Seq<(usize, Seq<u64>)>,
)
    requires
        forall|i: int|
            #![trigger batches[i]]
            0 <= i < batches.len() ==> batches[i].0 > 0 && batches[i].1.len() == State::opening(
                backend,
                output,
            ).statements_for(batches[i].0),
    ensures
        ({
            let database = State::opening(backend, output);
            let ended = database.after(whole_run(backend, batches));
            &&& database.awaits_all(whole_run(backend, batches))
            &&& ended.phase is Finished
            &&& ended.count_batch == capped(batches.len(), usize::MAX as nat)
            &&& ended.count_incoming == capped(total_items(batches), usize::MAX as nat)
            &&& ended.count_inserted == capped(total_rows(batches), u64::MAX as nat)
        }),
{
    let database = State::opening(backend, output);
    lemma_two(database, Outcome::Done, Outcome::Done);
    if backend == Backend::Postgres {
        let connected = seq![Outcome::Done, Outcome::Done];
        lemma_one(database.after(connected), Outcome::Done);
        lemma_after_concat(database, connected, seq![Outcome::Done]);
        lemma_awaits_concat(database, connected, seq![Outcome::Done]);
    }
    let ready = database.after(opened(backend));
    law_totals_are_exact(ready, batches);
    lemma_after_concat(database, opened(backend), whole_batches(batches));
    lemma_awaits_concat(database, opened(backend), whole_batches(batches));
    let written = opened(backend) + whole_batches(batches);
    lemma_two(database.after(written), Outcome::Disconnected, Outcome::Done);
    lemma_after_concat(database, written, seq![Outcome::Disconnected, Outcome::Done]);
    lemma_awaits_concat(database, written, seq![Outcome::Disconnected, Outcome::Done]);
}

/// Rows are counted only when a transaction is committed.
pub proof fn law_only_a_commit_counts_rows(database: State, outcome: Outcome)
    ensures
        database.next(outcome).count_inserted != database.count_inserted ==> database.phase is Commit
            && outcome is Done,
{
}

/// Batches and items are counted only when they are received.
pub proof fn law_only_a_batch_counts_items(database: State, outcome: Outcome)
    ensures
        database.next(outcome).count_batch != database.count_batch
            || database.next(outcome).count_incoming != database.count_incoming
            ==> database.phase is Receive && outcome is Received,
{
}

/// No count ever goes down.
pub proof fn law_counts_never_go_down(database: State, outcomes: Seq<Outcome>)
    ensures
        database.after(outcomes).count_batch >= database.count_batch,
        database.after(outcomes).count_incoming >= database.count_incoming,
        database.after(outcomes).count_inserted >= database.count_inserted,
    decreases outcomes.len(),
{
    reveal(State::after);
    if outcomes.len() > 0 {
        law_counts_never_go_down(database, outcomes.drop_last());
    }
}

/// A thread stays well formed, whatever becomes of its actions: there are never more batches than
/// items, and a statement that is executed is one of its batch.
pub proof fn law_well_formed_is_kept(database: State, outcomes: Seq<Outcome>)
    requires
        database.well_formed(),
        database.awaits_all(outcomes),
    ensures
        database.after(outcomes).well_formed(),
    decreases outcomes.len(),
{
    reveal(State::after);
    if outcomes.len() > 0 {
        let rest = outcomes.drop_last();
        assert forall|i: int| 0 <= i < rest.len() implies database.after(rest.take(i)).awaits(
            #[trigger] rest[i],
        ) by {
            assert(rest.take(i) =~= outcomes.take(i));
            assert(rest[i] == outcomes[i]);
        }
        law_well_formed_is_kept(database, rest);
        let last = outcomes.len() - 1;
        assert(outcomes.take(last) =~= rest);
        assert(outcomes[last] == outcomes.last());
    }
}

/// However often PostgreSQL refuses a connection, it is tried again after a pause, and its tables
/// are created once it accepts one.
pub proof fn law_postgres_is_waited_for(output: Output, times: nat)
    ensures
        ({
            let database = State::opening(Backend::Postgres, output);
            let connected = refused(times) + seq![Outcome::Done, Outcome::Done];
            &&& database.awaits_all(refused(times))
            &&& database.after(refused(times)) == database
            &&& database.awaits_all(connected)
            &&& database.after(connected) == database.at(Phase::CreateTables)
        }),
    decreases times,
{
    let database = State::opening(Backend::Postgres, output);
    let once = seq![Outcome::Done, Outcome::Failed];
    let accepted = seq![Outcome::Done, Outcome::Done];
    lemma_two(database, Outcome::Done, Outcome::Failed);
    lemma_two(database, Outcome::Done, Outcome::Done);
    lemma_none(database);
    if times > 0 {
        let before = refused((times - 1) as nat);
        law_postgres_is_waited_for(output, (times - 1) as nat);
        lemma_after_concat(database, before, once);
        lemma_awaits_concat(database, before, once);
    }
    lemma_after_concat(database, refused(times), accepted);
    lemma_awaits_concat(database, refused(times), accepted);
}

/// A SQLite database that cannot be opened is not tried again.
pub proof fn law_sqlite_is_not_waited_for(output: Output)
    ensures
        State::opening(Backend::Sqlite, output).spec_action() is Connect,
        State::opening(Backend::Sqlite, output).next(Outcome::Failed).phase is Failed,
{
}

/// The connection is closed only once the plugin is gone.
pub proof fn law_only_disconnection_closes(database: State, outcome: Outcome)
    requires
        database.awaits(outcome),
        database.next(outcome).phase is Close,
    ensures
        database.phase is Receive,
        outcome is Disconnected,
{
}

/// A thread that has finished or failed takes nothing any more.
pub proof fn law_the_end_is_final(database: State, outcome: Outcome)
    requires
        database.phase is Finished || database.phase is Failed,
    ensures
        !database.awaits(outcome),
        database.next(outcome).count_batch == database.count_batch,
        database.next(outcome).count_incoming == database.count_incoming,
        database.next(outcome).count_inserted == database.count_inserted,
{
}

/// A statement can only be answered where there is one: a batch has no more answers than
/// statements.
proof fn lemma_answers_are_bounded(database: State, items: usize, rows: Seq<u64>)
    requires
        database.phase is Receive,
        items > 0,
        database.awaits_all(seq![Outcome::Received(items), Outcome::Done] + affected(rows)),
    ensures
        rows.len() <= database.statements_for(items),
{
    let start = seq![Outcome::Received(items), Outcome::Done];
    let statements = database.statements_for(items) as int;
    if rows.len() > statements {
        let first = rows.take(statements);
        let run = start + affected(rows);
        lemma_batch_so_far(database, items, first);
        assert(run.take(2 + statements) =~= start + affected(first));
        assert(run[2 + statements] == Outcome::Affected(rows[statements]));
        assert(database.after(run.take(2 + statements)).awaits(run[2 + statements]));
    }
}

/// The URL of a database begins with `sqlite:` or `postgres:`, and says which kind it is. No other
/// URL is taken. Whichever database it is, nothing has been counted yet.
pub proof fn law_scheme_names_the_database(
    url: &str,
    output: Output,
    r: Result<Database, UnsupportedScheme>,
)
    requires
        call_ensures(Database::new, (url, output), r),
    ensures
        r is Ok <==> "sqlite:"@.is_prefix_of(url@) || "postgres:"@.is_prefix_of(url@),
        r matches Ok(database) ==> {
            &&& database@.backend == Backend::Sqlite <==> "sqlite:"@.is_prefix_of(url@)
            &&& database@.backend == Backend::Postgres <==> "postgres:"@.is_prefix_of(url@)
            &&& database@.output == output
            &&& database@.count_batch == 0
            &&& database@.count_incoming == 0
            &&& database@.count_inserted == 0
        },
{
    reveal_strlit("sqlite:");
    reveal_strlit("postgres:");
    if "sqlite:"@.is_prefix_of(url@) && "postgres:"@.is_prefix_of(url@) {
        assert("sqlite:"@[0] == url@.subrange(0, 7)[0]);
        assert("postgres:"@[0] == url@.subrange(0, 9)[0]);
    }
}

/// A SQLite database is connected to at once, then gets its tables, and then batches are waited
/// for. Where either fails the thread gives up.
pub proof fn law_sqlite_is_opened_step_by_step(
    url: &str,
    output: Output,
    r: Result<Database, UnsupportedScheme>,
)
    requires
        call_ensures(Database::new, (url, output), r),
        "sqlite:"@.is_prefix_of(url@),
    ensures
        r matches Ok(database) && ({
            let connected = database@.next(Outcome::Done);
            let ready = connected.next(Outcome::Done);
            &&& database@.spec_action() == Action::Connect
            &&& database@.awaits(Outcome::Done) && database@.awaits(Outcome::Failed)
            &&& database@.next(Outcome::Failed).spec_action() == Action::GiveUp
            &&& connected.spec_action() == Action::CreateTables
            &&& connected.awaits(Outcome::Done) && connected.awaits(Outcome::Failed)
            &&& connected.next(Outcome::Failed).spec_action() == Action::GiveUp
            &&& ready.spec_action() == Action::Receive
            &&& ready.backend == Backend::Sqlite && ready.output == output
            &&& ready.count_batch == 0 && ready.count_incoming == 0 && ready.count_inserted == 0
        }),
{
    law_scheme_names_the_database(url, output, r);
}

/// A PostgreSQL database is waited for: a pause of 100 milliseconds comes before each connection,
/// however many are refused. Then it gets its tables, and then batches are waited for. Only where
/// the tables fail the thread gives up.
pub proof fn law_postgres_is_opened_step_by_step(
    url: &str,
    output: Output,
    r: Result<Database, UnsupportedScheme>,
    times: nat,
)
    requires
        call_ensures(Database::new, (url, output), r),
        "postgres:"@.is_prefix_of(url@),
    ensures
        r matches Ok(database) && ({
            let waiting = database@.after(refused(times));
            let connecting = waiting.next(Outcome::Done);
            let connected = connecting.next(Outcome::Done);
            let ready = connected.next(Outcome::Done);
            &&& database@.awaits_all(refused(times))
            &&& waiting.spec_action() == Action::Pause(100)
            &&& waiting.awaits(Outcome::Done)
            &&& connecting.spec_action() == Action::Connect
            &&& connecting.awaits(Outcome::Done) && connecting.awaits(Outcome::Failed)
            &&& connecting.next(Outcome::Failed).spec_action() == Action::Pause(100)
            &&& connected.spec_action() == Action::CreateTables
            &&& connected.awaits(Outcome::Done) && connected.awaits(Outcome::Failed)
            &&& connected.next(Outcome::Failed).spec_action() == Action::GiveUp
            &&& ready.spec_action() == Action::Receive
            &&& ready.backend == Backend::Postgres && ready.output == output
            &&& ready.count_batch == 0 && ready.count_incoming == 0 && ready.count_inserted == 0
        }),
{
    law_scheme_names_the_database(url, output, r);
    law_postgres_is_waited_for(output, times);
}

/// In SQLite every item of a batch is written before the batch is committed: there is a statement
/// for each, and they are executed in order.
pub proof fn law_sqlite_writes_every_item(database: State, n: usize, rows: Seq<u64>)
    requires
        database.spec_action() == Action::Receive,
        database.backend == Backend::Sqlite,
        n > 0,
        rows.len() <= n,
    ensures
        ({
            let so_far = seq![Outcome::Received(n), Outcome::Done] + affected(rows);
            &&& database.awaits_all(so_far)
            &&& database.after(so_far).spec_action() == if rows.len() < n {
                Action::Execute(rows.len() as usize)
            } else {
                Action::Commit
            }
        }),
{
    lemma_batch_so_far(database, n, rows);
}

/// In SQLite the statements that are executed for a batch of events are all that are planned for
/// it, in order.
pub proof fn law_sqlite_executes_all_event_statements(
    database: State,
    events: Vec<(eve::event::EveEvent, Option<(eve::address::IpReading, eve::address::IpReading)>)>,
    statements: Vec<eve::sqlite::SqliteInsert>,
    n: usize,
    rows: Seq<u64>,
)
    requires
        database.spec_action() == Action::Receive,
        database.backend == Backend::Sqlite,
        call_ensures(eve::sqlite::write_batch_sqlite, (events,), statements),
        n == events@.len(),
        n > 0,
        rows.len() <= statements@.len(),
    ensures
        ({
            let so_far = seq![Outcome::Received(n), Outcome::Done] + affected(rows);
            &&& database.awaits_all(so_far)
            &&& database.after(so_far).spec_action() == if rows.len() < statements@.len() {
                Action::Execute(rows.len() as usize)
            } else {
                Action::Commit
            }
        }),
{
    lemma_batch_so_far(database, n, rows);
}

/// In SQLite the statements that are executed for a batch of payloads are all that are planned for
/// it, in order.
pub proof fn law_sqlite_executes_all_payload_statements(
    database: State,
    batch: Vec<rawdata::packet::Rawdata>,
    statements: Vec<rawdata::insert::SqliteInsert>,
    n: usize,
    rows: Seq<u64>,
)
    requires
        database.spec_action() == Action::Receive,
        database.backend == Backend::Sqlite,
        call_ensures(rawdata::insert::write_batch_sqlite, (batch,), statements),
        n == batch@.len(),
        n > 0,
        rows.len() <= statements@.len(),
    ensures
        ({
            let so_far = seq![Outcome::Received(n), Outcome::Done] + affected(rows);
            &&& database.awaits_all(so_far)
            &&& database.after(so_far).spec_action() == if rows.len() < statements@.len() {
                Action::Execute(rows.len() as usize)
            } else {
                Action::Commit
            }
        }),
{
    lemma_batch_so_far(database, n, rows);
}

/// In PostgreSQL the statements that are executed for a batch of events are all that are planned
/// for it, in order.
pub proof fn law_postgres_executes_all_event_statements(
    database: State,
    batches: eve::postgres::EventBatches,
    readings: Vec<(eve::address::IpReading, eve::address::IpReading)>,
    statements: Vec<eve::postgres::PostgresInsert>,
    n: usize,
    rows: Seq<u64>,
)
    requires
        database.spec_action() == Action::Receive,
        database.backend == Backend::Postgres,
        database.output == Output::Eve,
        call_ensures(eve::postgres::write_batch_postgres, (batches, readings), statements),
        n > 0,
        rows.len() <= statements@.len(),
    ensures
        ({
            let so_far = seq![Outcome::Received(n), Outcome::Done] + affected(rows);
            &&& database.awaits_all(so_far)
            &&& database.after(so_far).spec_action() == if rows.len() < statements@.len() {
                Action::Execute(rows.len() as usize)
            } else {
                Action::Commit
            }
        }),
{
    lemma_batch_so_far(database, n, rows);
}

/// In PostgreSQL the statements that are executed for a batch of payloads are all that are planned
/// for it, in order.
pub proof fn law_postgres_executes_all_payload_statements(
    database: State,
    batch: Vec<rawdata::packet::Rawdata>,
    statements: Vec<rawdata::insert::PostgresInsert>,
    n: usize,
    rows: Seq<u64>,
)
    requires
        database.spec_action() == Action::Receive,
        database.backend == Backend::Postgres,
        database.output == Output::Rawdata,
        call_ensures(rawdata::insert::write_batch_postgres, (batch,), statements),
        n > 0,
        rows.len() <= statements@.len(),
    ensures
        ({
            let so_far = seq![Outcome::Received(n), Outcome::Done] + affected(rows);
            &&& database.awaits_all(so_far)
            &&& database.after(so_far).spec_action() == if rows.len() < statements@.len() {
                Action::Execute(rows.len() as usize)
            } else {
                Action::Commit
            }
        }),
{
    lemma_batch_so_far(database, n, rows);
}

/// A batch counts as one and its items count as soon as it is received. The rows that its
/// statements inserted count once it is committed, every one of them, and then the next batch is
/// waited for.
pub proof fn law_commit_counts_every_row(database: State, n: usize, rows: Seq<u64>)
    requires
        database.spec_action() == Action::Receive,
        n > 0,
        database.awaits_all(seq![Outcome::Received(n), Outcome::Done] + affected(rows)),
        database.after(
            seq![Outcome::Received(n), Outcome::Done] + affected(rows),
        ).spec_action() == Action::Commit,
    ensures
        ({
            let so_far = seq![Outcome::Received(n), Outcome::Done] + affected(rows);
            let written = database.after(so_far);
            let committed = written.next(Outcome::Done);
            &&& written.awaits(Outcome::Done)
            &&& written.count_inserted == database.count_inserted
            &&& committed.spec_action() == Action::Receive
            &&& committed.backend == database.backend
            &&& committed.output == database.output
            &&& committed.count_batch == if database.count_batch + 1 <= usize::MAX {
                database.count_batch + 1
            } else {
                usize::MAX as int
            }
            &&& committed.count_incoming == if database.count_incoming + n <= usize::MAX {
                database.count_incoming + n
            } else {
                usize::MAX as int
            }
            &&& committed.count_inserted == if database.count_inserted + total(rows) <= u64::MAX {
                database.count_inserted + total(rows)
            } else {
                u64::MAX as int
            }
        }),
{
    lemma_answers_are_bounded(database, n, rows);
    lemma_batch_so_far(database, n, rows);
    lemma_saturating_sum(rows);
}

/// A batch that fails, at whichever step, ends the thread and adds no row, but counts with all its
/// items.
pub proof fn law_failure_counts_no_row(database: State, n: usize, rows: Seq<u64>)
    requires
        database.spec_action() == Action::Receive,
        n > 0,
        database.awaits_all(seq![Outcome::Received(n), Outcome::Done] + affected(rows)),
    ensures
        ({
            let received = database.next(Outcome::Received(n));
            let so_far = database.after(
                seq![Outcome::Received(n), Outcome::Done] + affected(rows),
            );
            let failed = so_far.next(Outcome::Failed);
            &&& received.spec_action() == Action::Begin
            &&& received.awaits(Outcome::Failed)
            &&& received.next(Outcome::Failed).spec_action() == Action::GiveUp
            &&& received.next(Outcome::Failed).count_inserted == database.count_inserted
            &&& received.next(Outcome::Failed).count_batch == failed.count_batch
            &&& received.next(Outcome::Failed).count_incoming == failed.count_incoming
            &&& so_far.awaits(Outcome::Failed)
            &&& failed.spec_action() == Action::GiveUp
            &&& failed.count_inserted == database.count_inserted
            &&& failed.count_batch == if database.count_batch + 1 <= usize::MAX {
                database.count_batch + 1
            } else {
                usize::MAX as int
            }
            &&& failed.count_incoming == if database.count_incoming + n <= usize::MAX {
                database.count_incoming + n
            } else {
                usize::MAX as int
            }
        }),
{
    lemma_answers_are_bounded(database, n, rows);
    lemma_batch_so_far(database, n, rows);
}

/// Once the plugin is gone the connection is closed and the thread finishes, or gives up where
/// closing fails. Either way what it has counted stays.
pub proof fn law_thread_ends_with_its_plugin(database: State)
    requires
        database.spec_action() == Action::Receive,
    ensures
        ({
            let closing = database.next(Outcome::Disconnected);
            let finished = closing.next(Outcome::Done);
            let failed = closing.next(Outcome::Failed);
            &&& database.awaits(Outcome::Disconnected)
            &&& closing.spec_action() == Action::Close
            &&& closing.awaits(Outcome::Done) && closing.awaits(Outcome::Failed)
            &&& finished.spec_action() == Action::Finish
            &&& failed.spec_action() == Action::GiveUp
            &&& finished.count_batch == database.count_batch
            &&& finished.count_incoming == database.count_incoming
            &&& finished.count_inserted == database.count_inserted
            &&& failed.count_batch == database.count_batch
            &&& failed.count_incoming == database.count_incoming
            &&& failed.count_inserted == database.count_inserted
        }),
{
}

} // verus!
