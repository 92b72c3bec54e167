use remate_agricola::executor::Executor;
use remate_agricola::migration::{
    schema_migrations, ChainError, Engine, Migration, MigrationFailure, Outcome, INITIAL_SCHEMA,
    TRANSACTIONS_SCHEMA,
};
use std::cell::RefCell;

fn link(version: u64) -> Migration {
    Migration {
        version,
        description: format!("step_{version}"),
        sql: format!("CREATE TABLE t{version} (id INTEGER);"),
    }
}

fn chain(upto: u64) -> Vec<Migration> {
    (1..=upto).map(link).collect()
}

#[test]
fn shipped_chain_has_two_links() {
    let chain = schema_migrations();
    assert_eq!(chain.len(), 2);
    assert_eq!(chain[0].version, 1);
    assert_eq!(chain[1].version, 2);
    assert_eq!(chain[0].description, "create_initial_tables");
    assert_eq!(chain[1].description, "add_transactions_table");
    assert_eq!(chain[0].sql, INITIAL_SCHEMA);
    assert_eq!(chain[1].sql, TRANSACTIONS_SCHEMA);
    assert!(chain[0].sql.contains("CREATE TABLE IF NOT EXISTS sales_details"));
    assert!(chain[0].sql.contains("ON DELETE SET NULL"));
    assert!(chain[1].sql.contains("CHECK(amount >= 0)"));
    let mut engine = Engine::new(chain, 0).unwrap();
    assert_eq!(engine.pending_versions(), vec![1, 2]);
    assert_eq!(engine.record(Outcome::Applied), Ok(true));
    assert_eq!(engine.version(), 1);
}

#[test]
fn a_list_out_of_order_is_no_chain() {
    let swapped = vec![link(2), link(1)];
    assert_eq!(Engine::new(swapped, 0).err(), Some(ChainError { index: 0, found: 2 }));
    let gap = vec![link(1), link(3)];
    assert_eq!(Engine::new(gap, 0).err(), Some(ChainError { index: 1, found: 3 }));
    let twice = vec![link(1), link(2), link(2), link(9)];
    assert_eq!(Engine::new(twice, 0).err(), Some(ChainError { index: 2, found: 2 }));
    let from_zero = vec![link(0)];
    assert_eq!(Engine::new(from_zero, 0).err(), Some(ChainError { index: 0, found: 0 }));
    assert!(Engine::new(Vec::new(), 0).is_ok());
}

#[test]
fn a_fresh_database_runs_everything_in_order() {
    let mut engine = Engine::new(chain(4), 0).unwrap();
    let seen = RefCell::new(Vec::new());
    let mut host = Executor::new(|m: &Migration| {
        seen.borrow_mut().push(m.version);
        Ok(())
    });
    assert!(host.executed().is_empty());
    assert_eq!(engine.run(&mut host), Ok(()));
    assert_eq!(*host.executed(), vec![1, 2, 3, 4]);
    assert_eq!(*seen.borrow(), vec![1, 2, 3, 4]);
    assert_eq!(engine.version(), 4);
    assert_eq!(engine.latest(), 4);
    assert!(engine.is_current());
    assert!(engine.next().is_none());
    assert!(engine.pending_versions().is_empty());
}

#[test]
fn only_what_lies_above_the_recorded_version_runs() {
    let mut engine = Engine::new(chain(5), 2).unwrap();
    assert_eq!(engine.pending_versions(), vec![3, 4, 5]);
    assert_eq!(engine.next().map(|m| m.version), Some(3));
    assert!(!engine.is_current());
    let seen = RefCell::new(Vec::new());
    let mut host = Executor::new(|m: &Migration| {
        seen.borrow_mut().push(m.version);
        Ok(())
    });
    assert_eq!(engine.run(&mut host), Ok(()));
    assert_eq!(*host.executed(), vec![3, 4, 5]);
    assert_eq!(*seen.borrow(), vec![3, 4, 5]);
    assert_eq!(engine.version(), 5);
}

#[test]
fn running_twice_is_running_once() {
    let mut engine = Engine::new(chain(3), 0).unwrap();
    let calls = RefCell::new(0u32);
    let mut host = Executor::new(|_: &Migration| {
        *calls.borrow_mut() += 1;
        Ok(())
    });
    assert_eq!(engine.run(&mut host), Ok(()));
    assert_eq!((engine.version(), *calls.borrow()), (3, 3));
    assert_eq!(engine.run(&mut host), Ok(()));
    assert_eq!((engine.version(), *calls.borrow()), (3, 3));
    assert_eq!(*host.executed(), vec![1, 2, 3]);
    assert_eq!(engine.record(Outcome::Applied), Ok(false));
    assert_eq!(engine.record(Outcome::Failed("late".to_string())), Ok(false));
    assert_eq!(engine.version(), 3);
}

#[test]
fn a_failed_migration_is_not_recorded_and_nothing_above_it_runs() {
    let mut engine = Engine::new(chain(5), 1).unwrap();
    let seen = RefCell::new(Vec::new());
    let broken = RefCell::new(true);
    let mut host = Executor::new(|m: &Migration| {
        seen.borrow_mut().push(m.version);
        if m.version == 3 && *broken.borrow() {
            Err("near \"TABEL\": syntax error".to_string())
        } else {
            Ok(())
        }
    });
    assert_eq!(
        engine.run(&mut host),
        Err(MigrationFailure { version: 3, reason: "near \"TABEL\": syntax error".to_string() })
    );
    assert_eq!(*host.executed(), vec![2, 3]);
    assert_eq!(*seen.borrow(), vec![2, 3]);
    assert_eq!(engine.version(), 2);
    assert_eq!(engine.pending_versions(), vec![3, 4, 5]);

    *broken.borrow_mut() = false;
    assert_eq!(engine.run(&mut host), Ok(()));
    assert_eq!(*host.executed(), vec![2, 3, 3, 4, 5]);
    assert_eq!(engine.version(), 5);
}

#[test]
fn a_failure_at_the_first_pending_migration_records_nothing() {
    let mut engine = Engine::new(chain(3), 0).unwrap();
    let mut host = Executor::new(|_: &Migration| Err("disk full".to_string()));
    assert_eq!(
        engine.run(&mut host),
        Err(MigrationFailure { version: 1, reason: "disk full".to_string() })
    );
    assert_eq!(*host.executed(), vec![1]);
    assert_eq!(engine.version(), 0);
}

#[test]
fn stepping_by_hand_records_one_version_at_a_time() {
    let mut engine = Engine::new(chain(2), 0).unwrap();
    assert_eq!(engine.next().map(|m| m.version), Some(1));
    assert_eq!(
        engine.record(Outcome::Failed("disk full".to_string())),
        Err(MigrationFailure { version: 1, reason: "disk full".to_string() })
    );
    assert_eq!(engine.version(), 0);
    assert_eq!(engine.next().map(|m| m.version), Some(1));
    assert_eq!(engine.record(Outcome::Applied), Ok(true));
    assert_eq!(engine.next().map(|m| m.version), Some(2));
    assert_eq!(engine.record(Outcome::Applied), Ok(true));
    assert_eq!(engine.version(), 2);
    assert!(engine.next().is_none());
}

#[test]
fn a_database_ahead_of_the_chain_has_nothing_pending() {
    let mut engine = Engine::new(chain(2), 7).unwrap();
    assert!(engine.is_current());
    assert!(engine.pending_versions().is_empty());
    assert!(engine.next().is_none());
    let mut host = Executor::new(|_: &Migration| Err("never called".to_string()));
    assert_eq!(engine.run(&mut host), Ok(()));
    assert!(host.executed().is_empty());
    assert_eq!(engine.version(), 7);
    assert_eq!(engine.latest(), 2);
}

#[test]
fn the_executor_journals_what_it_is_handed() {
    let mut host = Executor::new(|m: &Migration| {
        if m.version % 2 == 0 {
            Ok(())
        } else {
            Err(format!("odd {}", m.version))
        }
    });
    assert_eq!(host.execute(&link(4)), Ok(()));
    assert_eq!(host.execute(&link(7)), Err("odd 7".to_string()));
    assert_eq!(host.execute(&link(4)), Ok(()));
    assert_eq!(*host.executed(), vec![4, 7, 4]);
}
