use nostr_push::migrations::{
    should_run, Migration, MigrationCallable, MigrationError, Migrations, Runner, Status,
    StatusRepository,
};
use nostr_push::schema::{
    status_from_persisted, status_to_persisted, MigrationStatusRepository,
    RegistrationRepositoryMigration0001,
};
use nostr_push::storage::{StoreError, TransactionProvider};

/// Counts how often each kind of migration ran.
#[derive(Default)]
struct Journal {
    succeeded: u32,
    failed: u32,
}

enum TestMigration {
    Succeeds,
    Fails,
}

impl MigrationCallable<Journal> for TestMigration {
    fn run(&self, target: &mut Journal) -> Result<(), StoreError> {
        match self {
            TestMigration::Succeeds => {
                target.succeeded += 1;
                Ok(())
            }
            TestMigration::Fails => {
                target.failed += 1;
                Err(StoreError::SchemaExists)
            }
        }
    }
}

fn migration<C>(name: &str, callable: C) -> Migration<C> {
    Migration::new(String::from(name), callable).ok().unwrap()
}

#[test]
fn runner_records_outcomes_and_retries_only_the_failed() {
    let migrations = Migrations::new(vec![
        migration("first", TestMigration::Succeeds),
        migration("second", TestMigration::Fails),
    ])
    .ok()
    .unwrap();
    let mut runner = Runner::new(MigrationStatusRepository::new().unwrap());
    let mut journal = Journal::default();

    match runner.run(&migrations, &mut journal) {
        Err(MigrationError::Failed(name, cause)) => {
            assert_eq!(name, "second");
            assert_eq!(cause, StoreError::SchemaExists);
        }
        other => panic!("unexpected outcome: {:?}", other),
    }
    let statuses = runner.status_repository();
    assert_eq!(statuses.get_status("first"), Ok(Some(Status::Completed)));
    assert_eq!(statuses.get_status("second"), Ok(Some(Status::Failed)));
    assert_eq!((journal.succeeded, journal.failed), (1, 1));

    assert!(matches!(
        runner.run(&migrations, &mut journal),
        Err(MigrationError::Failed(ref name, _)) if name == "second"
    ));
    assert_eq!((journal.succeeded, journal.failed), (1, 2));
    assert_eq!(runner.status_repository().get_status("first"), Ok(Some(Status::Completed)));
    assert_eq!(runner.status_repository().get_status("second"), Ok(Some(Status::Failed)));
}

#[test]
fn runner_completes_all_and_then_skips_them() {
    let migrations = Migrations::new(vec![
        migration("a", TestMigration::Succeeds),
        migration("b", TestMigration::Succeeds),
    ])
    .ok()
    .unwrap();
    let mut runner = Runner::new(MigrationStatusRepository::new().unwrap());
    let mut journal = Journal::default();
    assert!(runner.run(&migrations, &mut journal).is_ok());
    assert!(runner.run(&migrations, &mut journal).is_ok());
    assert_eq!(journal.succeeded, 2);
    assert_eq!(runner.status_repository().get_status("b"), Ok(Some(Status::Completed)));
}

#[test]
fn migrations_reject_duplicate_names() {
    let r = Migrations::new(vec![
        migration("same", TestMigration::Succeeds),
        migration("same", TestMigration::Fails),
    ]);
    assert!(matches!(r, Err(MigrationError::DuplicateName)));
}

#[test]
fn migration_rejects_empty_name() {
    assert!(matches!(
        Migration::new(String::new(), TestMigration::Succeeds),
        Err(MigrationError::EmptyName)
    ));
}

#[test]
fn status_table_keeps_the_last_outcome() {
    let mut table = MigrationStatusRepository::new().unwrap();
    assert_eq!(table.get_status("m"), Ok(None));
    table.save_status("m", Status::Failed).unwrap();
    assert_eq!(table.get_status("m"), Ok(Some(Status::Failed)));
    table.save_status("m", Status::Completed).unwrap();
    table.save_status("other", Status::Failed).unwrap();
    assert_eq!(table.get_status("m"), Ok(Some(Status::Completed)));
    assert_eq!(table.get_status("other"), Ok(Some(Status::Failed)));
}

#[test]
fn persisted_status_text() {
    assert_eq!(status_to_persisted(&Status::Failed), "failed");
    assert_eq!(status_to_persisted(&Status::Completed), "completed");
    assert_eq!(status_from_persisted(&String::from("failed")), Ok(Status::Failed));
    assert_eq!(status_from_persisted(&String::from("completed")), Ok(Status::Completed));
    assert_eq!(
        status_from_persisted(&String::from("done")),
        Err(StoreError::UnknownStatus)
    );
}

#[test]
fn schema_migration_creates_tables_once() {
    let migrations = Migrations::new(vec![migration(
        "registration.0001_create_tables",
        RegistrationRepositoryMigration0001::new(),
    )])
    .ok()
    .unwrap();
    let mut runner = Runner::new(MigrationStatusRepository::new().unwrap());
    let mut store = TransactionProvider::new();
    assert!(runner.run(&migrations, &mut store).is_ok());
    assert!(store.start_transaction().is_ok());
    assert!(runner.run(&migrations, &mut store).is_ok());
    assert_eq!(store.create_schema(), Err(StoreError::SchemaExists));
}

#[test]
fn should_run_only_what_is_not_completed() {
    assert!(should_run(None));
    assert!(should_run(Some(Status::Failed)));
    assert!(!should_run(Some(Status::Completed)));
}

#[test]
fn record_outcome_records_completed_or_failed() {
    let mut runner = Runner::new(MigrationStatusRepository::new().unwrap());
    assert!(runner.record_outcome("a", Ok(())).is_ok());
    match runner.record_outcome("b", Err(StoreError::Conflict)) {
        Err(MigrationError::Failed(name, cause)) => {
            assert_eq!(name, "b");
            assert_eq!(cause, StoreError::Conflict);
        }
        other => panic!("unexpected outcome: {:?}", other),
    }
    assert_eq!(runner.status_repository().get_status("a"), Ok(Some(Status::Completed)));
    assert_eq!(runner.status_repository().get_status("b"), Ok(Some(Status::Failed)));
    assert_eq!(runner.status_repository().get_status("c"), Ok(None));
}

#[test]
fn runner_with_no_migrations_succeeds() {
    let migrations: Migrations<TestMigration> = Migrations::new(Vec::new()).ok().unwrap();
    let mut runner = Runner::new(MigrationStatusRepository::new().unwrap());
    let mut journal = Journal::default();
    assert!(runner.run(&migrations, &mut journal).is_ok());
    assert_eq!((journal.succeeded, journal.failed), (0, 0));
}

#[test]
fn failure_stops_before_later_migrations() {
    let migrations = Migrations::new(vec![
        migration("one", TestMigration::Fails),
        migration("two", TestMigration::Succeeds),
    ])
    .ok()
    .unwrap();
    let mut runner = Runner::new(MigrationStatusRepository::new().unwrap());
    let mut journal = Journal::default();
    assert!(matches!(
        runner.run(&migrations, &mut journal),
        Err(MigrationError::Failed(ref name, _)) if name == "one"
    ));
    assert_eq!((journal.succeeded, journal.failed), (0, 1));
    assert_eq!(runner.status_repository().get_status("two"), Ok(None));
}
