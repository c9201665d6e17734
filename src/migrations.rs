use vstd::prelude::*;
use crate::storage::{StoreError, TransactionProvider};

verus! {

/// The last outcome recorded for a migration.
#[derive(Debug, Clone, Copy, PartialEq, Eq, Structural)]
pub enum Status {
    Failed,
    Completed,
}

/// Why migrations could not be set up or run.
#[derive(Debug)]
pub enum MigrationError {
    EmptyName,
    DuplicateName,
    /// The migration of this name failed, for this reason.
    Failed(String, StoreError),
    /// The status store failed.
    Store(StoreError),
}

/// A schema change applied to a target `D`.
pub trait MigrationCallable<D> {
    fn run(&self, target: &mut D) -> Result<(), StoreError>;
}

/// Durable record of the last outcome of each migration, by name.
pub trait StatusRepository {
    /// The recorded outcomes; a name without one was never attempted.
    spec fn statuses(&self) -> Map<Seq<char>, Status>;

    /// The store never fails.
    spec fn infallible(&self) -> bool;

    fn get_status(&self, name: &str) -> (r: Result<Option<Status>, StoreError>)
        ensures
            r is Ok ==> r->Ok_0 == status_in(self.statuses(), name@),
            self.infallible() ==> r is Ok,
    ;

    fn save_status(&mut self, name: &str, status: Status) -> (r: Result<(), StoreError>)
        ensures
            r is Ok ==> final(self).statuses() == old(self).statuses().insert(name@, status),
            r is Err ==> final(self).statuses() == old(self).statuses(),
            old(self).infallible() ==> r is Ok && final(self).infallible(),
    ;
}

/// The outcome recorded for `name`, if any.
pub open spec fn status_in(statuses: Map<Seq<char>, Status>, name: Seq<char>) -> Option<Status> {
    if statuses.contains_key(name) {
        Some(statuses[name])
    } else {
        None
    }
}

/// `statuses` once each of `names` is recorded as completed.
pub open spec fn mark_completed(statuses: Map<Seq<char>, Status>, names: Seq<Seq<char>>) -> Map<
    Seq<char>,
    Status,
>
    decreases names.len(),
{
    if names.len() == 0 {
        statuses
    } else {
        mark_completed(statuses, names.drop_last()).insert(names.last(), Status::Completed)
    }
}

/// A named schema change.
pub struct Migration<C> {
    name: String,
    callable: C,
}

impl<C> Migration<C> {
    pub closed spec fn name(&self) -> Seq<char> {
        self.name@
    }

    pub fn new(name: String, callable: C) -> (r: Result<Migration<C>, MigrationError>)
        ensures
            r is Ok <==> name@.len() > 0,
            r is Ok ==> r->Ok_0.name() == name@,
            r is Err ==> r->Err_0 is EmptyName,
    {
        if name.as_str().is_empty() {
            return Err(MigrationError::EmptyName);
        }
        Ok(Migration { name, callable })
    }
}

/// The names of a list of migrations.
pub open spec fn migration_names<C>(migrations: Seq<Migration<C>>) -> Seq<Seq<char>> {
    migrations.map_values(|m: Migration<C>| m.name())
}

/// An ordered list of migrations with distinct names.
pub struct Migrations<C> {
    migrations: Vec<Migration<C>>,
}

impl<C> Migrations<C> {
    /// The names, in the order the migrations are applied.
    pub closed spec fn names(&self) -> Seq<Seq<char>> {
        migration_names(self.migrations@)
    }

    pub open spec fn wf(&self) -> bool {
        self.names().no_duplicates()
    }

    pub fn new(migrations: Vec<Migration<C>>) -> (r: Result<Migrations<C>, MigrationError>)
        ensures
            r is Ok <==> migration_names(migrations@).no_duplicates(),
            r is Ok ==> r->Ok_0.names() == migration_names(migrations@) && r->Ok_0.wf(),
            r is Err ==> r->Err_0 is DuplicateName,
    {
        let n = migrations.len();
        let mut i: usize = 0;
        while i < n
            invariant
                n == migrations@.len(),
                0 <= i <= n,
                forall|a: int, b: int|
                    0 <= a < b < i ==> migrations@[a].name() != migrations@[b].name(),
            decreases n - i,
        {
            let mut j: usize = 0;
            while j < i
                invariant
                    n == migrations@.len(),
                    0 <= j <= i < n,
                    forall|b: int| 0 <= b < j ==> migrations@[b].name() != migrations@[i as int].name(),
                decreases i - j,
            {
                if migrations[j].name == migrations[i].name {
                    assert(migration_names(migrations@)[j as int] == migration_names(
                        migrations@,
                    )[i as int]);
                    return Err(MigrationError::DuplicateName);
                }
                j = j + 1;
            }
            i = i + 1;
        }
        assert(migration_names(migrations@).no_duplicates()) by {
            let names = migration_names(migrations@);
            assert forall|a: int, b: int|
                0 <= a < names.len() && 0 <= b < names.len() && a != b implies names[a]
                != names[b] by {
                if a < b {
                    assert(migrations@[a].name() != migrations@[b].name());
                } else {
                    assert(migrations@[b].name() != migrations@[a].name());
                }
            }
        }
        Ok(Migrations { migrations })
    }
}

/// Names whose recorded status is not `Completed`: the migrations to run.
pub open spec fn pending_in(statuses: Map<Seq<char>, Status>) -> spec_fn(Seq<char>) -> bool {
    |name: Seq<char>| status_in(statuses, name) != Some(Status::Completed)
}

/// The names of the migrations in a run history.
pub open spec fn ran_names(history: Seq<(Seq<char>, Result<(), StoreError>)>) -> Seq<Seq<char>> {
    history.map_values(|a: (Seq<char>, Result<(), StoreError>)| a.0)
}

/// Every migration in a run history succeeded.
pub open spec fn all_succeeded(history: Seq<(Seq<char>, Result<(), StoreError>)>) -> bool {
    forall|j: int| 0 <= j < history.len() ==> (#[trigger] history[j]).1 is Ok
}

/// Whether a migration with this recorded status is to be run.
pub fn should_run(status: Option<Status>) -> (r: bool)
    ensures
        r == (status != Some(Status::Completed)),
{
    match status {
        Some(Status::Completed) => false,
        _ => true,
    }
}

proof fn lemma_marking_others(
    statuses: Map<Seq<char>, Status>,
    names: Seq<Seq<char>>,
    name: Seq<char>,
)
    requires
        !names.contains(name),
    ensures
        status_in(mark_completed(statuses, names), name) == status_in(statuses, name),
    decreases names.len(),
{
    if names.len() > 0 {
        assert(names.drop_last().contains(name) ==> names.contains(name)) by {
            if names.drop_last().contains(name) {
                let j = choose|j: int| 0 <= j < names.drop_last().len() && names.drop_last()[j] == name;
                assert(names[j] == name);
            }
        }
        assert(names.last() != name) by {
            assert(names[names.len() - 1] == names.last());
        }
        lemma_marking_others(statuses, names.drop_last(), name);
    }
}

proof fn lemma_marked_completed(statuses: Map<Seq<char>, Status>, names: Seq<Seq<char>>, i: int)
    requires
        0 <= i < names.len(),
    ensures
        status_in(mark_completed(statuses, names), names[i]) == Some(Status::Completed),
    decreases names.len(),
{
    if i < names.len() - 1 {
        assert(names.drop_last()[i] == names[i]);
        lemma_marked_completed(statuses, names.drop_last(), i);
    }
}

/// Once a run has recorded every migration as completed, running the same
/// migrations again runs none of them.
pub proof fn lemma_completed_run_is_not_repeated(
    statuses: Map<Seq<char>, Status>,
    names: Seq<Seq<char>>,
)
    ensures
        names.filter(pending_in(mark_completed(statuses, names))).len() == 0,
{
    let pending = pending_in(mark_completed(statuses, names));
    assert forall|i: int| 0 <= i < names.len() implies !pending(names[i]) by {
        lemma_marked_completed(statuses, names, i);
    }
    names.lemma_all_neg_filter_empty(pending);
}

/// Applies migrations in order, skipping those recorded as completed.
pub struct Runner<T> {
    status_repository: T,
    history: Ghost<Seq<(Seq<char>, Result<(), StoreError>)>>,
}

impl<T: StatusRepository> Runner<T> {
    pub closed spec fn statuses(&self) -> Map<Seq<char>, Status> {
        self.status_repository.statuses()
    }

    /// The status store never fails.
    pub closed spec fn store_infallible(&self) -> bool {
        self.status_repository.infallible()
    }

    /// Every migration this runner ran, in order, with what it returned.
    pub closed spec fn history(&self) -> Seq<(Seq<char>, Result<(), StoreError>)> {
        self.history@
    }

    pub fn new(status_repository: T) -> (r: Runner<T>)
        ensures
            r.statuses() == status_repository.statuses(),
            r.store_infallible() == status_repository.infallible(),
            r.history() == Seq::<(Seq<char>, Result<(), StoreError>)>::empty(),
    {
        Runner { status_repository, history: Ghost(Seq::empty()) }
    }

    pub fn status_repository(&self) -> (r: &T)
        ensures
            r.statuses() == self.statuses(),
    {
        &self.status_repository
    }

    /// Records what the migration `name` returned: `Completed` after a
    /// success; `Failed` after a failure, which is then reported with the
    /// migration's name. A failing status store is reported as such and
    /// changes nothing.
    pub fn record_outcome(&mut self, name: &str, outcome: Result<(), StoreError>) -> (r: Result<
        (),
        MigrationError,
    >)
        ensures
            final(self).history() == old(self).history(),
            old(self).store_infallible() ==> final(self).store_infallible() && !(r is Err
                && r->Err_0 is Store),
            r is Err && r->Err_0 is Store ==> final(self).statuses() == old(self).statuses(),
            r is Err ==> r->Err_0 is Store || r->Err_0 is Failed,
            outcome is Ok ==> (r is Ok && final(self).statuses() == old(self).statuses().insert(
                name@,
                Status::Completed,
            )) || (r is Err && r->Err_0 is Store),
            outcome is Err ==> (r is Err && r->Err_0 is Failed && r->Err_0->Failed_0@ == name@
                && r->Err_0->Failed_1 == outcome->Err_0 && final(self).statuses() == old(
                self,
            ).statuses().insert(name@, Status::Failed)) || (r is Err && r->Err_0 is Store),
    {
        match outcome {
            Ok(()) => match self.status_repository.save_status(name, Status::Completed) {
                Ok(()) => Ok(()),
                Err(e) => Err(MigrationError::Store(e)),
            },
            Err(cause) => match self.status_repository.save_status(name, Status::Failed) {
                Ok(()) => Err(MigrationError::Failed(String::from_str(name), cause)),
                Err(e) => Err(MigrationError::Store(e)),
            },
        }
    }

    /// Runs, in order, each migration not recorded as completed, recording
    /// each outcome; stops at the first failure, of a migration or of the
    /// status store.
    pub fn run<D, C: MigrationCallable<D>>(&mut self, migrations: &Migrations<C>, target: &mut D)
        -> (r: Result<(), MigrationError>)
        requires
            migrations.wf(),
        ensures
            ({
                let before = old(self).history();
                let after = final(self).history();
                let ran = after.skip(before.len() as int);
                let names = migrations.names();
                let pending = pending_in(old(self).statuses());
                &&& before.len() <= after.len()
                &&& after.take(before.len() as int) == before
                &&& names.len() == 0 ==> r is Ok && ran.len() == 0
                &&& old(self).store_infallible() ==> final(self).store_infallible() && !(r is Err
                    && r->Err_0 is Store)
                &&& r is Err ==> r->Err_0 is Failed || r->Err_0 is Store
                &&& r is Ok ==> {
                    &&& final(self).statuses() == mark_completed(old(self).statuses(), names)
                    &&& ran_names(ran) == names.filter(pending)
                    &&& all_succeeded(ran)
                }
                &&& r is Err && r->Err_0 is Failed ==> exists|k: int|
                    0 <= k < names.len() && #[trigger] names[k] == r->Err_0->Failed_0@ && {
                        &&& pending(names[k])
                        &&& final(self).statuses() == mark_completed(
                            old(self).statuses(),
                            names.take(k),
                        ).insert(names[k], Status::Failed)
                        &&& ran_names(ran) == names.take(k + 1).filter(pending)
                        &&& all_succeeded(ran.drop_last())
                        &&& ran.len() > 0 && ran.last().1 == Err::<(), StoreError>(
                            r->Err_0->Failed_1,
                        )
                    }
                &&& r is Err && r->Err_0 is Store ==> exists|k: int|
                    0 <= k <= names.len() && #[trigger] mark_completed(
                        old(self).statuses(),
                        names.take(k),
                    ) == final(self).statuses() && {
                        ||| ran_names(ran) == names.take(k).filter(pending) && all_succeeded(ran)
                        ||| k < names.len() && ran_names(ran) == names.take(k + 1).filter(pending)
                            && all_succeeded(ran.drop_last())
                    }
            }),
    {
        let ghost before = self.statuses();
        let ghost before_history = self.history();
        let ghost names = migrations.names();
        let ghost pending = pending_in(before);
        let n = migrations.migrations.len();
        let mut i: usize = 0;
        assert(self.history().skip(before_history.len() as int) =~= Seq::<
            (Seq<char>, Result<(), StoreError>),
        >::empty());
        assert(names.take(0).filter(pending) =~= Seq::<Seq<char>>::empty()) by {
            assert(names.take(0) =~= Seq::<Seq<char>>::empty());
            reveal(Seq::filter);
        }
        assert(ran_names(Seq::<(Seq<char>, Result<(), StoreError>)>::empty()) =~= Seq::<
            Seq<char>,
        >::empty());
        while i < n
            invariant
                n == names.len(),
                names == migrations.names(),
                names.no_duplicates(),
                before == old(self).statuses(),
                before_history == old(self).history(),
                pending == pending_in(before),
                old(self).store_infallible() ==> self.store_infallible(),
                0 <= i <= n,
                self.statuses() == mark_completed(before, names.take(i as int)),
                before_history.len() <= self.history().len(),
                self.history().take(before_history.len() as int) == before_history,
                ran_names(self.history().skip(before_history.len() as int)) == names.take(
                    i as int,
                ).filter(pending),
                all_succeeded(self.history().skip(before_history.len() as int)),
            decreases n - i,
        {
            let migration = &migrations.migrations[i];
            let ghost name = names[i as int];
            let ghost ran = self.history().skip(before_history.len() as int);
            assert(migration.name() == name);
            proof {
                assert(names.take(i + 1).drop_last() =~= names.take(i as int));
                assert(names.take(i + 1) =~= names.take(i as int).push(name));
                names.take(i as int).lemma_filter_push(name, pending);
                if names.take(i as int).contains(name) {
                    let j = choose|j: int| 0 <= j < i && names.take(i as int)[j] == name;
                    assert(names[j] == names[i as int]);
                }
                lemma_marking_others(before, names.take(i as int), name);
            }
            let status = match self.status_repository.get_status(migration.name.as_str()) {
                Ok(status) => status,
                Err(e) => {
                    return Err(MigrationError::Store(e));
                },
            };
            if !should_run(status) {
                assert(self.statuses().insert(name, Status::Completed) =~= self.statuses());
                i = i + 1;
                continue ;
            }
            let outcome = migration.callable.run(target);
            let ghost with_run = self.history().push((name, outcome));
            self.history = Ghost(with_run);
            proof {
                assert(with_run.take(before_history.len() as int) =~= before_history);
                assert(with_run.skip(before_history.len() as int) =~= ran.push((name, outcome)));
                assert(ran_names(ran.push((name, outcome))) =~= ran_names(ran).push(name));
                assert(ran.push((name, outcome)).drop_last() =~= ran);
            }
            match self.record_outcome(migration.name.as_str(), outcome) {
                Ok(()) => {},
                Err(e) => {
                    proof {
                        if e is Failed {
                            assert(names[i as int] == e->Failed_0@);
                        }
                    }
                    return Err(e);
                },
            }
            i = i + 1;
        }
        assert(names.take(n as int) =~= names);
        Ok(())
    }
}

} // verus!
