use suricata_sql_output::database::{
    Action, Backend, Database, Outcome, Output, Phase, UnsupportedScheme,
};

fn ready(url: &str, output: Output) -> Database {
    let mut database = Database::new(url, output).unwrap();
    while database.action() != Action::Receive {
        database.run(Outcome::Done);
    }
    database
}

fn counts(database: &Database) -> (usize, usize, u64) {
    let state = database.state();
    (state.count_batch, state.count_incoming, state.count_inserted)
}

#[test]
fn schemes() {
    assert_eq!(Database::new("sqlite://x.db", Output::Eve).unwrap().state().backend, Backend::Sqlite);
    assert_eq!(Database::new("sqlite:", Output::Eve).unwrap().state().backend, Backend::Sqlite);
    assert_eq!(
        Database::new("postgres://host/db", Output::Rawdata).unwrap().state().backend,
        Backend::Postgres
    );
    for url in ["", "sqlite", "mysql://host", "postgresql://host/db", " sqlite:", "Sqlite:"] {
        assert_eq!(Database::new(url, Output::Eve), Err(UnsupportedScheme));
    }
    assert_eq!(
        UnsupportedScheme.message(),
        "Only sqlite and postgres database schemes are supported"
    );
}

#[test]
fn sqlite_is_opened_at_once() {
    let mut database = Database::new("sqlite::memory:", Output::Eve).unwrap();
    assert_eq!(database.action(), Action::Connect);
    assert_eq!(database.run(Outcome::Done), Action::CreateTables);
    assert_eq!(database.run(Outcome::Done), Action::Receive);
}

#[test]
fn sqlite_that_fails_to_open_gives_up() {
    let mut database = Database::new("sqlite::memory:", Output::Eve).unwrap();
    assert_eq!(database.run(Outcome::Failed), Action::GiveUp);
    let mut database = Database::new("sqlite::memory:", Output::Eve).unwrap();
    database.run(Outcome::Done);
    assert_eq!(database.run(Outcome::Failed), Action::GiveUp);
}

#[test]
fn postgres_is_waited_for() {
    let mut database = Database::new("postgres://host", Output::Eve).unwrap();
    assert_eq!(database.action(), Action::Pause(100));
    for _ in 0..20 {
        assert_eq!(database.run(Outcome::Done), Action::Connect);
        assert_eq!(database.run(Outcome::Failed), Action::Pause(100));
    }
    assert_eq!(database.run(Outcome::Done), Action::Connect);
    assert_eq!(database.run(Outcome::Done), Action::CreateTables);
    assert_eq!(database.run(Outcome::Failed), Action::GiveUp);
}

#[test]
fn batch_in_sqlite() {
    let mut database = ready("sqlite:x", Output::Rawdata);
    assert_eq!(database.run(Outcome::Received(3)), Action::Begin);
    assert_eq!(counts(&database), (1, 3, 0));
    assert_eq!(database.run(Outcome::Done), Action::Execute(0));
    assert_eq!(database.run(Outcome::Affected(1)), Action::Execute(1));
    assert_eq!(database.run(Outcome::Affected(0)), Action::Execute(2));
    assert_eq!(database.run(Outcome::Affected(1)), Action::Commit);
    assert_eq!(counts(&database), (1, 3, 0));
    assert_eq!(database.run(Outcome::Done), Action::Receive);
    assert_eq!(counts(&database), (1, 3, 2));
    assert_eq!(database.run(Outcome::Disconnected), Action::Close);
    assert_eq!(database.run(Outcome::Done), Action::Finish);
    assert_eq!(database.state().phase, Phase::Finished);
}

#[test]
fn batch_in_postgres() {
    let mut database = ready("postgres:x", Output::Eve);
    database.run(Outcome::Received(100));
    assert_eq!(database.run(Outcome::Done), Action::Execute(0));
    assert_eq!(database.run(Outcome::Affected(90)), Action::Execute(1));
    assert_eq!(database.run(Outcome::Affected(5)), Action::Execute(2));
    assert_eq!(database.run(Outcome::Affected(0)), Action::Execute(3));
    assert_eq!(database.run(Outcome::Affected(4)), Action::Commit);
    assert_eq!(database.run(Outcome::Done), Action::Receive);
    assert_eq!(counts(&database), (1, 100, 99));

    let mut database = ready("postgres:x", Output::Rawdata);
    database.run(Outcome::Received(100));
    assert_eq!(database.run(Outcome::Done), Action::Execute(0));
    assert_eq!(database.run(Outcome::Affected(100)), Action::Commit);
}

#[test]
fn failed_batch_inserts_nothing() {
    for failing in 0..4 {
        let mut database = ready("sqlite:x", Output::Eve);
        database.run(Outcome::Received(2));
        let outcomes = [Outcome::Done, Outcome::Affected(1), Outcome::Affected(1), Outcome::Done];
        for outcome in outcomes.iter().take(failing) {
            database.run(*outcome);
        }
        assert_eq!(database.run(Outcome::Failed), Action::GiveUp);
        assert_eq!(counts(&database), (1, 2, 0));
    }
}

#[test]
fn closing_can_fail() {
    let mut database = ready("sqlite:x", Output::Eve);
    assert_eq!(database.run(Outcome::Disconnected), Action::Close);
    assert_eq!(database.run(Outcome::Failed), Action::GiveUp);
}

#[test]
fn rows_of_each_batch_are_counted_apart() {
    let mut database = ready("postgres:x", Output::Rawdata);
    for _ in 0..3 {
        database.run(Outcome::Received(2));
        database.run(Outcome::Done);
        database.run(Outcome::Affected(2));
        database.run(Outcome::Done);
    }
    assert_eq!(counts(&database), (3, 6, 6));
}

#[test]
fn counts_stop_at_the_largest() {
    let mut database = ready("postgres:x", Output::Eve);
    database.run(Outcome::Received(usize::MAX));
    database.run(Outcome::Done);
    for _ in 0..4 {
        database.run(Outcome::Affected(u64::MAX));
    }
    database.run(Outcome::Done);
    assert_eq!(counts(&database), (1, usize::MAX, u64::MAX));
    database.run(Outcome::Received(1));
    database.run(Outcome::Done);
    for _ in 0..4 {
        database.run(Outcome::Affected(1));
    }
    database.run(Outcome::Done);
    assert_eq!(counts(&database), (2, usize::MAX, u64::MAX));
}

#[test]
fn totals_of_several_batches() {
    let mut database = ready("sqlite:x", Output::Rawdata);
    for batch in [vec![1u64], vec![0, 1, 1], vec![1, 1]] {
        database.run(Outcome::Received(batch.len()));
        database.run(Outcome::Done);
        for rows in batch {
            database.run(Outcome::Affected(rows));
        }
        assert_eq!(database.run(Outcome::Done), Action::Receive);
    }
    assert_eq!(counts(&database), (3, 6, 5));
}

#[test]
fn nothing_new_counts_no_row() {
    let mut database = ready("sqlite:x", Output::Eve);
    database.run(Outcome::Received(1));
    database.run(Outcome::Done);
    database.run(Outcome::Affected(1));
    database.run(Outcome::Done);
    for _ in 0..2 {
        database.run(Outcome::Received(3));
        database.run(Outcome::Done);
        for _ in 0..3 {
            database.run(Outcome::Affected(0));
        }
        assert_eq!(database.run(Outcome::Done), Action::Receive);
    }
    assert_eq!(counts(&database), (3, 7, 1));
}

#[test]
fn whole_run_reports_totals() {
    let mut database = Database::new("postgres:x", Output::Rawdata).unwrap();
    for _ in 0..3 {
        database.run(Outcome::Done);
    }
    for (items, rows) in [(5, 4), (2, 2)] {
        assert_eq!(database.run(Outcome::Received(items)), Action::Begin);
        database.run(Outcome::Done);
        database.run(Outcome::Affected(rows));
        database.run(Outcome::Done);
    }
    assert_eq!(database.run(Outcome::Disconnected), Action::Close);
    assert_eq!(database.run(Outcome::Done), Action::Finish);
    assert_eq!(counts(&database), (2, 7, 6));
}
