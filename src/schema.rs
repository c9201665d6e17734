use vstd::prelude::*;
use crate::migrations::{status_in, MigrationCallable, Status, StatusRepository};
use crate::domain::RegistrationView;
use crate::storage::{StoreError, TransactionProvider};

verus! {

/// How a status is written in the status table.
pub open spec fn status_text(status: Status) -> Seq<char> {
    match status {
        Status::Failed => "failed"@,
        Status::Completed => "completed"@,
    }
}

/// The status that a stored text stands for, if any.
pub open spec fn status_from_text(text: Seq<char>) -> Option<Status> {
    if text == "failed"@ {
        Some(Status::Failed)
    } else if text == "completed"@ {
        Some(Status::Completed)
    } else {
        None
    }
}

pub fn status_to_persisted(status: &Status) -> (r: String)
    ensures
        r@ == status_text(*status),
        status_from_text(r@) == Some(*status),
{
    proof {
        reveal_strlit("failed");
        reveal_strlit("completed");
        assert("failed"@.len() != "completed"@.len());
    }
    match status {
        Status::Failed => String::from_str("failed"),
        Status::Completed => String::from_str("completed"),
    }
}

pub fn status_from_persisted(status: &String) -> (r: Result<Status, StoreError>)
    ensures
        r is Ok <==> status_from_text(status@) is Some,
        r is Ok ==> r->Ok_0 == status_from_text(status@)->Some_0,
        r is Err ==> r->Err_0 == StoreError::UnknownStatus,
{
    if *status == String::from_str("failed") {
        Ok(Status::Failed)
    } else if *status == String::from_str("completed") {
        Ok(Status::Completed)
    } else {
        Err(StoreError::UnknownStatus)
    }
}

/// The status table as plain values: (name, status) in order of writing.
pub open spec fn status_rows(rows: Seq<(String, Status)>) -> Seq<(Seq<char>, Status)> {
    rows.map_values(|row: (String, Status)| (row.0@, row.1))
}

/// The statuses that a table records: the last row of each name decides.
pub open spec fn recorded_statuses(rows: Seq<(Seq<char>, Status)>) -> Map<Seq<char>, Status>
    decreases rows.len(),
{
    if rows.len() == 0 {
        Map::empty()
    } else {
        recorded_statuses(rows.drop_last()).insert(rows.last().0, rows.last().1)
    }
}

/// The migration status table, written by appending one row per outcome.
pub struct MigrationStatusRepository {
    rows: Vec<(String, Status)>,
}

impl MigrationStatusRepository {
    /// An empty status table.
    pub fn new() -> (r: Result<MigrationStatusRepository, StoreError>)
        ensures
            r is Ok,
            r->Ok_0.statuses() == Map::<Seq<char>, Status>::empty(),
    {
        let r = MigrationStatusRepository { rows: Vec::new() };
        assert(status_rows(r.rows@) =~= Seq::<(Seq<char>, Status)>::empty());
        Ok(r)
    }
}

impl StatusRepository for MigrationStatusRepository {
    closed spec fn statuses(&self) -> Map<Seq<char>, Status> {
        recorded_statuses(status_rows(self.rows@))
    }

    closed spec fn infallible(&self) -> bool {
        true
    }

    fn get_status(&self, name: &str) -> (r: Result<Option<Status>, StoreError>)
        ensures
            r == Ok::<Option<Status>, StoreError>(status_in(self.statuses(), name@)),
    {
        let ghost rows = status_rows(self.rows@);
        let wanted = String::from_str(name);
        let mut i: usize = self.rows.len();
        assert(rows.take(i as int) =~= rows);
        while i > 0
            invariant
                0 <= i <= rows.len(),
                rows == status_rows(self.rows@),
                wanted@ == name@,
                status_in(recorded_statuses(rows), name@) == status_in(
                    recorded_statuses(rows.take(i as int)),
                    name@,
                ),
            decreases i,
        {
            let row = &self.rows[i - 1];
            proof {
                assert(rows.take(i as int).drop_last() =~= rows.take(i - 1));
                assert(rows.take(i as int).last() == rows[i - 1]);
            }
            if row.0 == wanted {
                return Ok(Some(row.1));
            }
            i = i - 1;
        }
        assert(rows.take(0) =~= Seq::<(Seq<char>, Status)>::empty());
        Ok(None)
    }

    fn save_status(&mut self, name: &str, status: Status) -> (r: Result<(), StoreError>)
        ensures
            r is Ok,
    {
        let ghost before = status_rows(self.rows@);
        self.rows.push((String::from_str(name), status));
        assert(status_rows(self.rows@).drop_last() =~= before);
        Ok(())
    }
}

/// Creates the registration tables.
pub struct RegistrationRepositoryMigration0001 {}

impl RegistrationRepositoryMigration0001 {
    pub fn new() -> (r: RegistrationRepositoryMigration0001) {
        RegistrationRepositoryMigration0001 {  }
    }
}

impl MigrationCallable<TransactionProvider> for RegistrationRepositoryMigration0001 {
    fn run(&self, target: &mut TransactionProvider) -> (r: Result<(), StoreError>)
        ensures
            r is Ok <==> !old(target).has_schema(),
            r is Ok ==> final(target).wf() && final(target).has_schema(),
            r is Ok ==> final(target).committed() == Seq::<RegistrationView>::empty(),
            r is Err ==> r->Err_0 == StoreError::SchemaExists && *final(target) == *old(target),
    {
        target.create_schema()
    }
}

} // verus!
