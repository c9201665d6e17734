use vstd::prelude::*;
use crate::common::{identities, PubKeyInfo};
use crate::domain::{addresses, contains_address, Registration, RegistrationView, RelayAddress};

verus! {

broadcast use {vstd::seq_lib::group_filter_ensures, vstd::seq_lib::lemma_seq_contains_after_push};

/// Why the store refused an operation.
#[derive(Debug, Clone, Copy, PartialEq, Eq, Structural)]
pub enum StoreError {
    /// The tables were never created.
    MissingSchema,
    /// The tables exist already.
    SchemaExists,
    /// Another transaction committed after this one started.
    Conflict,
    /// The store has run out of commit numbers.
    Exhausted,
    /// A persisted migration status is none of the known ones.
    UnknownStatus,
}

/// The registration table as plain values.
pub open spec fn rows_view(rows: Seq<Registration>) -> Seq<RegistrationView> {
    rows.map_values(|r: Registration| r@)
}

/// No two rows belong to the same identity.
pub open spec fn identities_unique(rows: Seq<RegistrationView>) -> bool {
    forall|i: int, j: int| 0 <= i < j < rows.len() ==> rows[i].pub_key != rows[j].pub_key
}

/// Rows of identities other than `key`.
pub open spec fn other_identity(key: Seq<u8>) -> spec_fn(RegistrationView) -> bool {
    |r: RegistrationView| r.pub_key != key
}

/// The table once `reg` is stored: it replaces any row of the same identity.
pub open spec fn after_save(rows: Seq<RegistrationView>, reg: RegistrationView) -> Seq<
    RegistrationView,
> {
    rows.filter(other_identity(reg.pub_key)).push(reg)
}

/// Rows that list `relay`.
pub open spec fn lists_relay(relay: Seq<char>) -> spec_fn(RegistrationView) -> bool {
    |r: RegistrationView| r.relays.contains(relay)
}

/// The identities registered against `relay`, in table order.
pub open spec fn pub_keys_on(rows: Seq<RegistrationView>, relay: Seq<char>) -> Seq<Seq<u8>> {
    rows.filter(lists_relay(relay)).map_values(|r: RegistrationView| r.pub_key)
}

/// Some row lists `relay`.
pub open spec fn is_known_relay(rows: Seq<RegistrationView>, relay: Seq<char>) -> bool {
    exists|i: int| 0 <= i < rows.len() && #[trigger] rows[i].relays.contains(relay)
}

proof fn lemma_filter_keeps_unique(rows: Seq<RegistrationView>, p: spec_fn(RegistrationView) -> bool)
    requires
        identities_unique(rows),
    ensures
        identities_unique(rows.filter(p)),
    decreases rows.len(),
{
    if rows.len() > 0 {
        let rest = rows.drop_last();
        let last = rows.last();
        assert(rows =~= rest.push(last));
        rest.lemma_filter_push(last, p);
        lemma_filter_keeps_unique(rest, p);
        if p(last) {
            let f = rest.filter(p);
            assert forall|i: int| 0 <= i < f.len() implies f[i].pub_key != last.pub_key by {
                rest.lemma_filter_contains_rev(p, f[i]);
                let k = choose|k: int| 0 <= k < rest.len() && rest[k] == f[i];
                assert(rows[k] == rest[k]);
            }
        }
    }
}

proof fn lemma_pub_keys_on_distinct(rows: Seq<RegistrationView>, relay: Seq<char>)
    requires
        identities_unique(rows),
    ensures
        pub_keys_on(rows, relay).no_duplicates(),
{
    lemma_filter_keeps_unique(rows, lists_relay(relay));
}

/// The registration table: one row per identity.
pub struct RegistrationRepository {
    rows: Vec<Registration>,
}

impl View for RegistrationRepository {
    type V = Seq<RegistrationView>;

    closed spec fn view(&self) -> Seq<RegistrationView> {
        rows_view(self.rows@)
    }
}

impl RegistrationRepository {
    pub open spec fn wf(&self) -> bool {
        identities_unique(self@)
    }

    pub fn new() -> (r: Self)
        ensures
            r@ == Seq::<RegistrationView>::empty(),
            r.wf(),
    {
        let r = RegistrationRepository { rows: Vec::new() };
        assert(r@ =~= Seq::<RegistrationView>::empty());
        r
    }

    /// A copy of the table, for a transaction to work on.
    fn snapshot(&self) -> (r: Self)
        ensures
            r@ == self@,
    {
        let mut rows: Vec<Registration> = Vec::new();
        let n = self.rows.len();
        let mut i: usize = 0;
        while i < n
            invariant
                n == self.rows@.len(),
                0 <= i <= n,
                rows_view(rows@) =~= self@.take(i as int),
            decreases n - i,
        {
            let ghost before = rows_view(rows@);
            rows.push(self.rows[i].clone());
            assert(rows_view(rows@) =~= before.push(self@[i as int]));
            assert(self@.take(i + 1) =~= self@.take(i as int).push(self@[i as int]));
            i = i + 1;
        }
        RegistrationRepository { rows }
    }

    /// Stores `registration`, replacing the row of the same identity if any.
    pub fn save(&mut self, registration: &Registration) -> (r: Result<(), StoreError>)
        requires
            old(self).wf(),
        ensures
            r is Ok,
            final(self).wf(),
            final(self)@ == after_save(old(self)@, registration@),
    {
        let key = registration.pub_key();
        let ghost old_rows = self@;
        let ghost keep = other_identity(registration@.pub_key);
        let mut rows: Vec<Registration> = Vec::new();
        let n = self.rows.len();
        let mut i: usize = 0;
        while i < n
            invariant
                n == self.rows@.len(),
                0 <= i <= n,
                self@ == old_rows,
                key@ == registration@.pub_key,
                keep == other_identity(registration@.pub_key),
                rows_view(rows@) == old_rows.take(i as int).filter(keep),
            decreases n - i,
        {
            let row_key = self.rows[i].pub_key();
            let ghost before = rows_view(rows@);
            proof {
                assert(old_rows.take(i + 1) =~= old_rows.take(i as int).push(old_rows[i as int]));
                old_rows.take(i as int).lemma_filter_push(old_rows[i as int], keep);
            }
            if !(row_key == key) {
                rows.push(self.rows[i].clone());
                assert(rows_view(rows@) =~= before.push(old_rows[i as int]));
            } else {
                assert(rows_view(rows@) =~= before);
            }
            i = i + 1;
        }
        let ghost kept = rows_view(rows@);
        rows.push(registration.clone());
        self.rows = rows;
        proof {
            assert(old_rows.take(n as int) =~= old_rows);
            assert(self@ =~= kept.push(registration@));
            lemma_filter_keeps_unique(old_rows, keep);
            assert forall|j: int| 0 <= j < kept.len() implies kept[j].pub_key
                != registration@.pub_key by {
                old_rows.lemma_filter_pred(keep, j);
            }
        }
        Ok(())
    }

    /// Every identity registered against `relay`.
    pub fn get_pub_keys(&self, relay: &RelayAddress) -> (r: Result<Vec<PubKeyInfo>, StoreError>)
        ensures
            r is Ok,
            identities(r->Ok_0@) == pub_keys_on(self@, relay@),
            self.wf() ==> identities(r->Ok_0@).no_duplicates(),
    {
        let ghost rows = self@;
        let ghost p = lists_relay(relay@);
        let mut results: Vec<PubKeyInfo> = Vec::new();
        let n = self.rows.len();
        let mut i: usize = 0;
        while i < n
            invariant
                n == self.rows@.len(),
                0 <= i <= n,
                rows == self@,
                p == lists_relay(relay@),
                identities(results@) == pub_keys_on(rows.take(i as int), relay@),
            decreases n - i,
        {
            let ghost before = identities(results@);
            proof {
                assert(rows.take(i + 1) =~= rows.take(i as int).push(rows[i as int]));
                rows.take(i as int).lemma_filter_push(rows[i as int], p);
            }
            if self.rows[i].has_relay(relay) {
                results.push(PubKeyInfo::new(self.rows[i].pub_key()));
                assert(identities(results@) =~= before.push(rows[i as int].pub_key));
                assert(pub_keys_on(rows.take(i + 1), relay@) =~= before.push(
                    rows[i as int].pub_key,
                ));
            } else {
                assert(pub_keys_on(rows.take(i + 1), relay@) =~= before);
            }
            i = i + 1;
        }
        assert(rows.take(n as int) =~= rows);
        proof {
            if self.wf() {
                lemma_pub_keys_on_distinct(rows, relay@);
            }
        }
        Ok(results)
    }

    /// Every relay that some registration lists, each once.
    pub fn get_relays(&self) -> (r: Result<Vec<RelayAddress>, StoreError>)
        ensures
            r is Ok,
            addresses(r->Ok_0@).no_duplicates(),
            forall|a: Seq<char>| #[trigger]
                addresses(r->Ok_0@).contains(a) <==> is_known_relay(self@, a),
    {
        let ghost rows = self@;
        let mut found: Vec<RelayAddress> = Vec::new();
        let n = self.rows.len();
        let mut i: usize = 0;
        while i < n
            invariant
                n == self.rows@.len(),
                0 <= i <= n,
                rows == self@,
                addresses(found@).no_duplicates(),
                forall|a: Seq<char>| #[trigger]
                    addresses(found@).contains(a) <==> is_known_relay(rows.take(i as int), a),
            decreases n - i,
        {
            let relays = self.rows[i].relays();
            let m = relays.len();
            let mut j: usize = 0;
            while j < m
                invariant
                    n == self.rows@.len(),
                    0 <= i < n,
                    m == relays@.len(),
                    0 <= j <= m,
                    rows == self@,
                    addresses(relays@) == rows[i as int].relays,
                    addresses(found@).no_duplicates(),
                    forall|a: Seq<char>| #[trigger]
                        addresses(found@).contains(a) <==> (is_known_relay(rows.take(i as int), a)
                            || addresses(relays@).take(j as int).contains(a)),
                decreases m - j,
            {
                let ghost before = addresses(found@);
                let ghost x = relays@[j as int]@;
                assert(addresses(relays@).take(j + 1) =~= addresses(relays@).take(j as int).push(x));
                if !contains_address(&found, &relays[j]) {
                    found.push(relays[j].clone());
                    assert(addresses(found@) =~= before.push(x));
                } else {
                    assert(addresses(found@) =~= before);
                }
                j = j + 1;
            }
            proof {
                assert(addresses(relays@).take(m as int) =~= addresses(relays@));
                assert forall|a: Seq<char>| is_known_relay(rows.take(i + 1), a)
                    implies #[trigger] addresses(found@).contains(a) by {
                    if is_known_relay(rows.take(i + 1), a) {
                        let k = choose|k: int| 0 <= k < i + 1 && #[trigger] rows.take(i + 1)[k].relays.contains(a);
                        if k < i {
                            assert(rows.take(i as int)[k] == rows.take(i + 1)[k]);
                        }
                    }
                }
                assert forall|a: Seq<char>| #[trigger] addresses(found@).contains(a)
                    implies is_known_relay(rows.take(i + 1), a) by {
                    if addresses(found@).contains(a) {
                        if is_known_relay(rows.take(i as int), a) {
                            let k = choose|k: int| 0 <= k < i && #[trigger] rows.take(i as int)[k].relays.contains(a);
                            assert(rows.take(i + 1)[k] == rows.take(i as int)[k]);
                        } else {
                            assert(rows.take(i + 1)[i as int] == rows[i as int]);
                        }
                    }
                }
            }
            i = i + 1;
        }
        assert(rows.take(n as int) =~= rows);
        Ok(found)
    }
}

/// Identity `key` has a row that lists `relay`.
pub open spec fn registered_on(rows: Seq<RegistrationView>, key: Seq<u8>, relay: Seq<char>) -> bool {
    exists|i: int|
        0 <= i < rows.len() && rows[i].pub_key == key && #[trigger] rows[i].relays.contains(relay)
}

/// The identities that the store gives for a relay are exactly those whose
/// stored registration lists that relay.
pub proof fn lemma_pub_keys_on_contains(
    rows: Seq<RegistrationView>,
    relay: Seq<char>,
    key: Seq<u8>,
)
    ensures
        pub_keys_on(rows, relay).contains(key) <==> registered_on(rows, key, relay),
{
    let p = lists_relay(relay);
    let f = rows.filter(p);
    let m = pub_keys_on(rows, relay);
    if m.contains(key) {
        let j = choose|j: int| 0 <= j < m.len() && m[j] == key;
        rows.lemma_filter_pred(p, j);
        assert(f.contains(f[j]));
        rows.lemma_filter_contains_rev(p, f[j]);
        let i = choose|i: int| 0 <= i < rows.len() && rows[i] == f[j];
        assert(rows[i].relays.contains(relay));
    }
    if registered_on(rows, key, relay) {
        let i = choose|i: int|
            0 <= i < rows.len() && rows[i].pub_key == key && #[trigger] rows[i].relays.contains(
                relay,
            );
        rows.lemma_filter_contains(p, i);
        let j = choose|j: int| 0 <= j < f.len() && f[j] == rows[i];
        assert(m[j] == key);
    }
}

/// Storing a registration and then asking which identities are registered
/// against a relay gives exactly those registered there before, other than
/// the stored identity, together with the stored identity when it lists that
/// relay.
pub proof fn lemma_save_then_get_pub_keys(
    rows: Seq<RegistrationView>,
    reg: RegistrationView,
    relay: Seq<char>,
)
    ensures
        forall|key: Seq<u8>| #[trigger]
            pub_keys_on(after_save(rows, reg), relay).contains(key) <==> ((key == reg.pub_key
                && reg.relays.contains(relay)) || (key != reg.pub_key && pub_keys_on(
                rows,
                relay,
            ).contains(key))),
{
    let keep = other_identity(reg.pub_key);
    let f = rows.filter(keep);
    let saved = after_save(rows, reg);
    assert forall|key: Seq<u8>| #[trigger]
        pub_keys_on(saved, relay).contains(key) <==> ((key == reg.pub_key && reg.relays.contains(
            relay,
        )) || (key != reg.pub_key && pub_keys_on(rows, relay).contains(key))) by {
        lemma_pub_keys_on_contains(saved, relay, key);
        lemma_pub_keys_on_contains(rows, relay, key);
        if registered_on(saved, key, relay) {
            let i = choose|i: int|
                0 <= i < saved.len() && saved[i].pub_key == key && #[trigger] saved[i].relays.contains(
                    relay,
                );
            if i < f.len() {
                rows.lemma_filter_pred(keep, i);
                assert(f.contains(f[i]));
                rows.lemma_filter_contains_rev(keep, f[i]);
                let k = choose|k: int| 0 <= k < rows.len() && rows[k] == f[i];
                assert(rows[k].relays.contains(relay));
            }
        }
        if key == reg.pub_key && reg.relays.contains(relay) {
            assert(saved[f.len() as int] == reg);
            assert(saved[f.len() as int].relays.contains(relay));
        }
        if key != reg.pub_key && registered_on(rows, key, relay) {
            let k = choose|k: int|
                0 <= k < rows.len() && rows[k].pub_key == key && #[trigger] rows[k].relays.contains(
                    relay,
                );
            rows.lemma_filter_contains(keep, k);
            let i = choose|i: int| 0 <= i < f.len() && f[i] == rows[k];
            assert(saved[i] == f[i]);
            assert(saved[i].relays.contains(relay));
        }
    }
}

/// An epoch table as plain values: (relay address, epoch) entries.
pub open spec fn epoch_entries(table: Seq<(RelayAddress, u64)>) -> Seq<(Seq<char>, u64)> {
    table.map_values(|e: (RelayAddress, u64)| (e.0@, e.1))
}

/// The relays that an epoch table has entries for.
pub open spec fn entry_relays(table: Seq<(Seq<char>, u64)>) -> Seq<Seq<char>> {
    table.map_values(|e: (Seq<char>, u64)| e.0)
}

/// The epoch that `table` gives `relay`; its last entry for the relay decides.
pub open spec fn epoch_in(table: Seq<(Seq<char>, u64)>, relay: Seq<char>) -> Option<u64>
    decreases table.len(),
{
    if table.len() == 0 {
        None
    } else if table.last().0 == relay {
        Some(table.last().1)
    } else {
        epoch_in(table.drop_last(), relay)
    }
}

/// The epoch of a relay after a commit numbered `version`: a relay that was
/// known keeps its epoch, one that was not gets the commit's number.
pub open spec fn epoch_after(before: Seq<(Seq<char>, u64)>, relay: Seq<char>, version: u64) -> Option<
    u64,
> {
    if epoch_in(before, relay) is Some {
        epoch_in(before, relay)
    } else {
        Some(version)
    }
}

pub(crate) proof fn lemma_epoch_in_listed(table: Seq<(Seq<char>, u64)>, relay: Seq<char>)
    ensures
        epoch_in(table, relay) is Some <==> entry_relays(table).contains(relay),
    decreases table.len(),
{
    if table.len() > 0 {
        lemma_epoch_in_listed(table.drop_last(), relay);
        let rest = entry_relays(table.drop_last());
        assert(entry_relays(table) =~= rest.push(table.last().0));
    } else {
        assert(entry_relays(table).len() == 0);
    }
}

pub(crate) proof fn lemma_epoch_in_entry(table: Seq<(Seq<char>, u64)>, i: int)
    requires
        entry_relays(table).no_duplicates(),
        0 <= i < table.len(),
    ensures
        epoch_in(table, table[i].0) == Some(table[i].1),
    decreases table.len(),
{
    let last = table.len() - 1;
    if i < last {
        assert(entry_relays(table)[i] != entry_relays(table)[last]);
        let rest = table.drop_last();
        assert forall|a: int, b: int|
            0 <= a < entry_relays(rest).len() && 0 <= b < entry_relays(rest).len() && a != b
            implies entry_relays(rest)[a] != entry_relays(rest)[b] by {
            assert(entry_relays(rest)[a] == entry_relays(table)[a]);
            assert(entry_relays(rest)[b] == entry_relays(table)[b]);
        }
        lemma_epoch_in_entry(rest, i);
    }
}

/// The epoch that `table` gives `relay`.
pub fn find_epoch(table: &Vec<(RelayAddress, u64)>, relay: &RelayAddress) -> (r: Option<u64>)
    ensures
        r == epoch_in(epoch_entries(table@), relay@),
{
    let ghost entries = epoch_entries(table@);
    let mut i: usize = table.len();
    assert(entries.take(i as int) =~= entries);
    while i > 0
        invariant
            0 <= i <= entries.len(),
            entries == epoch_entries(table@),
            epoch_in(entries, relay@) == epoch_in(entries.take(i as int), relay@),
        decreases i,
    {
        let entry = &table[i - 1];
        proof {
            assert(entries.take(i as int).drop_last() =~= entries.take(i - 1));
            assert(entries.take(i as int).last() == entries[i - 1]);
        }
        if entry.0 == *relay {
            return Some(entry.1);
        }
        i = i - 1;
    }
    None
}

/// `table` gives each relay known in `rows`, and only those, an epoch no
/// later than `version`.
pub open spec fn epochs_cover(
    table: Seq<(Seq<char>, u64)>,
    rows: Seq<RegistrationView>,
    version: u64,
) -> bool {
    &&& entry_relays(table).no_duplicates()
    &&& forall|relay: Seq<char>| #[trigger]
        epoch_in(table, relay) is Some <==> is_known_relay(rows, relay)
    &&& forall|relay: Seq<char>| #[trigger]
        epoch_in(table, relay) is Some ==> epoch_in(table, relay)->Some_0 <= version
}

/// Where received events are to be stored; it keeps nothing yet.
pub struct EventRepository {}

impl EventRepository {
    pub fn new() -> (r: Self) {
        EventRepository {  }
    }

    pub fn save_event(&self) {
    }
}

/// The repositories that one transaction hands out.
pub struct Adapters {
    pub registrations: RegistrationRepository,
    pub events: EventRepository,
}

impl Adapters {
    pub fn new(registrations: RegistrationRepository, events: EventRepository) -> (r: Self)
        ensures
            r.registrations == registrations,
    {
        Adapters { registrations, events }
    }
}

/// A unit of work: a private copy of the tables, written back only by
/// `commit`. Dropping it without a commit discards everything done in it.
pub struct Transaction {
    started_at: u64,
    adapters: Adapters,
}

impl Transaction {
    /// The commit number of the store when the transaction started.
    pub closed spec fn started_at(&self) -> u64 {
        self.started_at
    }

    /// The repositories, as they stand now.
    pub closed spec fn spec_adapters(&self) -> Adapters {
        self.adapters
    }

    pub open spec fn wf(&self) -> bool {
        self.spec_adapters().registrations.wf()
    }

    pub fn adapters(&self) -> (r: &Adapters)
        ensures
            *r == self.spec_adapters(),
    {
        &self.adapters
    }

    pub fn adapters_mut(&mut self) -> (r: &mut Adapters)
        ensures
            *r == old(self).spec_adapters(),
            final(self).spec_adapters() == *final(r),
            final(self).started_at() == old(self).started_at(),
    {
        &mut self.adapters
    }

    /// Makes the transaction's tables those of `provider`, provided that no
    /// other transaction committed since this one started.
    pub fn commit(self, provider: &mut TransactionProvider) -> (r: Result<(), StoreError>)
        requires
            old(provider).wf(),
            self.wf(),
        ensures
            r is Ok <==> old(provider).has_schema() && self.started_at() == old(provider).version()
                && old(provider).version() < u64::MAX,
            r is Ok ==> committed_into(*old(provider), self, *final(provider)),
            r is Err ==> *final(provider) == *old(provider),
            !old(provider).has_schema() ==> r == Err::<(), StoreError>(StoreError::MissingSchema),
            old(provider).has_schema() && self.started_at() != old(provider).version() ==> r
                == Err::<(), StoreError>(StoreError::Conflict),
            old(provider).has_schema() && self.started_at() == old(provider).version()
                && old(provider).version() == u64::MAX ==> r == Err::<(), StoreError>(
                StoreError::Exhausted,
            ),
    {
        if !provider.schema {
            return Err(StoreError::MissingSchema);
        }
        if self.started_at != provider.version {
            return Err(StoreError::Conflict);
        }
        if provider.version == u64::MAX {
            return Err(StoreError::Exhausted);
        }
        let next = provider.version + 1;
        let ghost before = provider.epochs();
        let ghost rows = self.adapters.registrations@;
        let relays = match self.adapters.registrations.get_relays() {
            Ok(relays) => relays,
            Err(e) => {
                return Err(e);
            },
        };
        let ghost listed = addresses(relays@);
        let mut table: Vec<(RelayAddress, u64)> = Vec::new();
        let n = relays.len();
        let mut j: usize = 0;
        while j < n
            invariant
                n == relays@.len(),
                0 <= j <= n,
                listed == addresses(relays@),
                listed.no_duplicates(),
                before == provider.epochs(),
                entry_relays(epoch_entries(table@)) =~= listed.take(j as int),
                forall|relay: Seq<char>| #[trigger]
                    epoch_in(epoch_entries(table@), relay) == if listed.take(j as int).contains(
                        relay,
                    ) {
                        epoch_after(before, relay, next)
                    } else {
                        None
                    },
            decreases n - j,
        {
            let epoch = match find_epoch(&provider.epochs, &relays[j]) {
                Some(e) => e,
                None => next,
            };
            let ghost entries = epoch_entries(table@);
            table.push((relays[j].clone(), epoch));
            proof {
                assert(listed.take(j + 1) =~= listed.take(j as int).push(listed[j as int]));
                assert(epoch_entries(table@) =~= entries.push((listed[j as int], epoch)));
                assert(entry_relays(epoch_entries(table@)) =~= entry_relays(entries).push(
                    listed[j as int],
                ));
                assert(epoch_entries(table@).drop_last() =~= entries);
                assert(epoch == epoch_after(before, listed[j as int], next)->Some_0);
                assert forall|relay: Seq<char>| #[trigger]
                    epoch_in(epoch_entries(table@), relay) == if listed.take(j + 1).contains(
                        relay,
                    ) {
                        epoch_after(before, relay, next)
                    } else {
                        None
                    } by {
                    if relay != listed[j as int] {
                        assert(epoch_in(epoch_entries(table@), relay) == epoch_in(entries, relay));
                    }
                }
            }
            j = j + 1;
        }
        proof {
            assert(listed.take(n as int) =~= listed);
            assert forall|relay: Seq<char>| #[trigger]
                epoch_in(epoch_entries(table@), relay) is Some implies epoch_in(
                    epoch_entries(table@),
                    relay,
                )->Some_0 <= next by {
                if epoch_in(before, relay) is Some {
                    assert(epoch_in(before, relay)->Some_0 <= provider.version);
                }
            }
        }
        provider.registrations = self.adapters.registrations;
        provider.version = next;
        provider.epochs = table;
        Ok(())
    }
}

/// The store: the committed tables, whether they were created, the number
/// of commits so far, and the epoch of each known relay: the number of the
/// commit from which on some registration has listed it without a break.
pub struct TransactionProvider {
    schema: bool,
    registrations: RegistrationRepository,
    version: u64,
    epochs: Vec<(RelayAddress, u64)>,
}

/// `tx` is a fresh transaction on `provider`.
pub open spec fn started_from(provider: TransactionProvider, tx: Transaction) -> bool {
    &&& tx.wf()
    &&& tx.started_at() == provider.version()
    &&& tx.spec_adapters().registrations@ == provider.committed()
}

/// `after` is `before` once `tx` committed into it.
pub open spec fn committed_into(
    before: TransactionProvider,
    tx: Transaction,
    after: TransactionProvider,
) -> bool {
    &&& after.wf()
    &&& after.has_schema()
    &&& after.committed() == tx.spec_adapters().registrations@
    &&& after.version() == before.version() + 1
    &&& forall|relay: Seq<char>| #[trigger]
        epoch_in(after.epochs(), relay) == if is_known_relay(after.committed(), relay) {
            epoch_after(before.epochs(), relay, after.version())
        } else {
            None
        }
}

impl TransactionProvider {
    pub closed spec fn has_schema(&self) -> bool {
        self.schema
    }

    /// The committed registration table.
    pub closed spec fn committed(&self) -> Seq<RegistrationView> {
        self.registrations@
    }

    /// The number of commits so far.
    pub closed spec fn version(&self) -> u64 {
        self.version
    }

    /// The epoch table.
    pub closed spec fn epochs(&self) -> Seq<(Seq<char>, u64)> {
        epoch_entries(self.epochs@)
    }

    pub closed spec fn wf(&self) -> bool {
        &&& self.registrations.wf()
        &&& epochs_cover(self.epochs(), self.committed(), self.version())
    }

    pub fn has_tables(&self) -> (r: bool)
        ensures
            r == self.has_schema(),
    {
        self.schema
    }

    /// The epoch of each known relay.
    pub fn relay_epochs(&self) -> (r: Vec<(RelayAddress, u64)>)
        requires
            self.wf(),
        ensures
            epoch_entries(r@) == self.epochs(),
            epochs_cover(self.epochs(), self.committed(), self.version()),
    {
        let mut out: Vec<(RelayAddress, u64)> = Vec::new();
        let n = self.epochs.len();
        let mut i: usize = 0;
        while i < n
            invariant
                n == self.epochs@.len(),
                0 <= i <= n,
                epoch_entries(out@) =~= self.epochs().take(i as int),
            decreases n - i,
        {
            let ghost before = epoch_entries(out@);
            let entry = &self.epochs[i];
            out.push((entry.0.clone(), entry.1));
            assert(epoch_entries(out@) =~= before.push(self.epochs()[i as int]));
            assert(self.epochs().take(i + 1) =~= self.epochs().take(i as int).push(
                self.epochs()[i as int],
            ));
            i = i + 1;
        }
        out
    }

    /// A store without tables.
    pub fn new() -> (r: Self)
        ensures
            r.wf(),
            !r.has_schema(),
            r.committed() == Seq::<RegistrationView>::empty(),
            r.version() == 0,
    {
        let r = TransactionProvider {
            schema: false,
            registrations: RegistrationRepository::new(),
            version: 0,
            epochs: Vec::new(),
        };
        assert(r.epochs() =~= Seq::<(Seq<char>, u64)>::empty());
        assert(entry_relays(r.epochs()) =~= Seq::<Seq<char>>::empty());
        r
    }

    /// Creates the empty tables; refused when they exist.
    pub fn create_schema(&mut self) -> (r: Result<(), StoreError>)
        ensures
            r is Ok <==> !old(self).has_schema(),
            r is Err ==> r->Err_0 == StoreError::SchemaExists && *final(self) == *old(self),
            r is Ok ==> final(self).wf() && final(self).has_schema() && final(self).committed() == Seq::<
                RegistrationView,
            >::empty() && final(self).version() == old(self).version(),
    {
        if self.schema {
            return Err(StoreError::SchemaExists);
        }
        self.schema = true;
        self.registrations = RegistrationRepository::new();
        self.epochs = Vec::new();
        assert(self.epochs() =~= Seq::<(Seq<char>, u64)>::empty());
        assert(entry_relays(self.epochs()) =~= Seq::<Seq<char>>::empty());
        Ok(())
    }

    /// Opens a transaction on a copy of the committed tables.
    pub fn start_transaction(&self) -> (r: Result<Transaction, StoreError>)
        requires
            self.wf(),
        ensures
            r is Ok <==> self.has_schema(),
            r is Err ==> r->Err_0 == StoreError::MissingSchema,
            r is Ok ==> started_from(*self, r->Ok_0),
    {
        if !self.schema {
            return Err(StoreError::MissingSchema);
        }
        let registrations = self.registrations.snapshot();
        Ok(Transaction {
            started_at: self.version,
            adapters: Adapters::new(registrations, EventRepository::new()),
        })
    }
}

/// Whatever a transaction that is dropped without commit did, a transaction
/// started afterwards sees the committed tables: the store is unchanged.
pub proof fn lemma_uncommitted_work_is_invisible(
    provider: TransactionProvider,
    dropped: Transaction,
    next: Transaction,
)
    requires
        started_from(provider, next),
    ensures
        next.spec_adapters().registrations@ == provider.committed(),
{
}

/// A relay that no registration listed at some point, and that a later
/// commit lists again, carries an epoch it never had before: the relay is
/// treated as new.
pub proof fn lemma_returning_relay_gets_new_epoch(
    earlier: TransactionProvider,
    gone: TransactionProvider,
    tx: Transaction,
    back: TransactionProvider,
    relay: Seq<char>,
)
    requires
        earlier.wf(),
        gone.wf(),
        earlier.version() <= gone.version(),
        !is_known_relay(gone.committed(), relay),
        committed_into(gone, tx, back),
        is_known_relay(back.committed(), relay),
    ensures
        epoch_in(back.epochs(), relay) == Some(back.version()),
        epoch_in(earlier.epochs(), relay) is Some ==> epoch_in(back.epochs(), relay) != epoch_in(
            earlier.epochs(),
            relay,
        ),
{
    assert(epoch_in(gone.epochs(), relay) is None);
    if epoch_in(earlier.epochs(), relay) is Some {
        assert(epoch_in(earlier.epochs(), relay)->Some_0 <= earlier.version());
    }
}

/// A committed transaction's writes are what the next transaction sees.
pub proof fn lemma_committed_writes_are_visible(
    before: TransactionProvider,
    tx: Transaction,
    after: TransactionProvider,
    next: Transaction,
)
    requires
        committed_into(before, tx, after),
        started_from(after, next),
    ensures
        next.spec_adapters().registrations@ == tx.spec_adapters().registrations@,
{
}

} // verus!
