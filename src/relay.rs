use vstd::prelude::*;
use crate::common::identities;
use crate::domain::{addresses, hex_of, is_hex_text, lemma_hex_of_is_hex_text, PubKey, RelayAddress};
use crate::storage::{
    entry_relays, epoch_entries, epoch_in, find_epoch, is_known_relay, lemma_epoch_in_entry,
    lemma_epoch_in_listed, pub_keys_on, StoreError, TransactionProvider,
};

verus! {

broadcast use vstd::seq_lib::lemma_seq_contains_after_push;

/// The wait before the first reconnection attempt.
pub const BASE_RETRY_DELAY_MS: u64 = 1000;

/// The longest wait between reconnection attempts.
pub const MAX_RETRY_DELAY_MS: u64 = 60000;

/// How often the set of workers is brought in line with the stored relays.
pub const RECONCILE_INTERVAL_MS: u64 = 30000;

/// The `REQ` message that subscribes, under the key's hex text as its id, to
/// the events that the key authors: `["REQ","<hex>",{"authors":["<hex>"]}]`.
pub open spec fn subscription_request_of(key: Seq<u8>) -> Seq<char> {
    "[\"REQ\",\""@ + hex_of(key) + "\",{\"authors\":[\""@ + hex_of(key) + "\"]}]"@
}

/// Relies on nostr's `SubscriptionId::new`, `ClientMessage::req` and
/// `as_json`: a `REQ` message is a JSON array of "REQ", the subscription id
/// as a string and each filter; a filter with only authors is the object
/// `{"authors":[...]}` and a key is its hex text. Hexadecimal text needs no
/// escaping in JSON, and serialising such a message cannot fail.
#[verifier::external_body]
fn subscription_request(id: &str, key: &[u8; 32]) -> (r: String)
    requires
        is_hex_text(id@),
    ensures
        r@ == "[\"REQ\",\""@ + id@ + "\",{\"authors\":[\""@ + hex_of(key@) + "\"]}]"@,
{
    let author = nostr::key::PublicKey::from_byte_array(*key);
    let id = nostr::message::SubscriptionId::new(id);
    nostr::message::ClientMessage::req(id, vec![nostr::filter::Filter::new().author(author)]).as_json()
}

/// Where a relay worker is in its cycle.
#[derive(Debug, Clone, Copy, PartialEq, Eq, Structural)]
pub enum WorkerState {
    Idle,
    Connecting,
    Subscribing,
    Waiting,
    Terminated,
}

/// What happened to a relay worker.
#[derive(Debug, Clone, Copy, PartialEq, Eq, Structural)]
pub enum WorkerEvent {
    Started,
    Connected,
    ConnectFailed,
    Subscribed,
    ConnectionLost,
    StopRequested,
}

/// What a relay worker is to do next.
#[derive(Debug, Clone, Copy, PartialEq, Eq, Structural)]
pub enum WorkerAction {
    /// Open the connection to the relay.
    Connect,
    /// Send the subscription requests, then report `Subscribed`.
    Subscribe,
    /// Wait for traffic or for a stop request.
    Wait,
    /// Wait this many milliseconds, or for a stop request, then connect.
    Retry(u64),
    /// Leave the loop for good.
    Exit,
    /// The event does not apply in this state.
    Ignore,
}

/// The delay after the one of `delay` milliseconds.
pub open spec fn next_delay(delay: u64) -> u64 {
    if delay >= MAX_RETRY_DELAY_MS / 2 {
        MAX_RETRY_DELAY_MS
    } else {
        (2 * delay) as u64
    }
}

/// The worker's next state, retry delay and action after `event`.
pub open spec fn worker_step(state: WorkerState, delay: u64, event: WorkerEvent) -> (
    WorkerState,
    u64,
    WorkerAction,
) {
    match (state, event) {
        (WorkerState::Terminated, _) => (WorkerState::Terminated, delay, WorkerAction::Exit),
        (_, WorkerEvent::StopRequested) => (WorkerState::Terminated, delay, WorkerAction::Exit),
        (WorkerState::Idle, WorkerEvent::Started) => (
            WorkerState::Connecting,
            delay,
            WorkerAction::Connect,
        ),
        (WorkerState::Connecting, WorkerEvent::Connected) => (
            WorkerState::Subscribing,
            delay,
            WorkerAction::Subscribe,
        ),
        (WorkerState::Connecting, WorkerEvent::ConnectFailed) => (
            WorkerState::Connecting,
            next_delay(delay),
            WorkerAction::Retry(delay),
        ),
        (WorkerState::Subscribing, WorkerEvent::Subscribed) => (
            WorkerState::Waiting,
            BASE_RETRY_DELAY_MS,
            WorkerAction::Wait,
        ),
        (WorkerState::Subscribing, WorkerEvent::ConnectionLost) => (
            WorkerState::Connecting,
            next_delay(delay),
            WorkerAction::Retry(delay),
        ),
        (WorkerState::Waiting, WorkerEvent::ConnectionLost) => (
            WorkerState::Connecting,
            next_delay(delay),
            WorkerAction::Retry(delay),
        ),
        _ => (state, delay, WorkerAction::Ignore),
    }
}

/// The actions a worker takes on `events`, from `state` with `delay`.
pub open spec fn worker_actions(state: WorkerState, delay: u64, events: Seq<WorkerEvent>) -> Seq<
    WorkerAction,
>
    decreases events.len(),
{
    if events.len() == 0 {
        Seq::empty()
    } else {
        let (next, next_wait, action) = worker_step(state, delay, events[0]);
        seq![action] + worker_actions(next, next_wait, events.drop_first())
    }
}

proof fn lemma_worker_actions_len(state: WorkerState, delay: u64, events: Seq<WorkerEvent>)
    ensures
        worker_actions(state, delay, events).len() == events.len(),
    decreases events.len(),
{
    if events.len() > 0 {
        let (next, next_wait, action) = worker_step(state, delay, events[0]);
        lemma_worker_actions_len(next, next_wait, events.drop_first());
    }
}

/// A worker that is told to stop exits at once, whatever its state, and
/// every later event finds it exited again: it never reconnects.
pub proof fn lemma_stopped_worker_never_reconnects(
    state: WorkerState,
    delay: u64,
    later: Seq<WorkerEvent>,
)
    ensures
        worker_step(state, delay, WorkerEvent::StopRequested).0 == WorkerState::Terminated,
        worker_step(state, delay, WorkerEvent::StopRequested).2 == WorkerAction::Exit,
        forall|i: int|
            0 <= i < later.len() ==> #[trigger] worker_actions(
                WorkerState::Terminated,
                delay,
                later,
            )[i] == WorkerAction::Exit,
    decreases later.len(),
{
    if later.len() > 0 {
        lemma_stopped_worker_never_reconnects(state, delay, later.drop_first());
        lemma_worker_actions_len(WorkerState::Terminated, delay, later.drop_first());
        let rest = worker_actions(WorkerState::Terminated, delay, later.drop_first());
        assert forall|i: int| 0 <= i < later.len() implies #[trigger] worker_actions(
            WorkerState::Terminated,
            delay,
            later,
        )[i] == WorkerAction::Exit by {
            if i > 0 {
                assert(rest[i - 1] == WorkerAction::Exit);
            }
        }
    }
}

/// The decisions of the worker that keeps one relay's subscriptions open.
pub struct RelayDownloaderRunner {
    relay: RelayAddress,
    state: WorkerState,
    retry_delay_ms: u64,
}

impl RelayDownloaderRunner {
    pub closed spec fn relay(&self) -> Seq<char> {
        self.relay@
    }

    pub closed spec fn state(&self) -> WorkerState {
        self.state
    }

    /// The wait before the next reconnection attempt.
    pub closed spec fn retry_delay(&self) -> u64 {
        self.retry_delay_ms
    }

    pub fn new(relay: RelayAddress) -> (r: RelayDownloaderRunner)
        ensures
            r.relay() == relay@,
            r.state() == WorkerState::Idle,
            r.retry_delay() == BASE_RETRY_DELAY_MS,
    {
        RelayDownloaderRunner { relay, state: WorkerState::Idle, retry_delay_ms: BASE_RETRY_DELAY_MS }
    }

    pub fn relay_address(&self) -> (r: &RelayAddress)
        ensures
            r@ == self.relay(),
    {
        &self.relay
    }

    pub fn current_state(&self) -> (r: WorkerState)
        ensures
            r == self.state(),
    {
        self.state
    }

    /// Takes in `event` and says what to do next.
    pub fn step(&mut self, event: WorkerEvent) -> (r: WorkerAction)
        ensures
            (final(self).state(), final(self).retry_delay(), r) == worker_step(
                old(self).state(),
                old(self).retry_delay(),
                event,
            ),
            final(self).relay() == old(self).relay(),
    {
        let delay = self.retry_delay_ms;
        let grown = if delay >= MAX_RETRY_DELAY_MS / 2 {
            MAX_RETRY_DELAY_MS
        } else {
            2 * delay
        };
        let (state, next_wait, action) = match (self.state, event) {
            (WorkerState::Terminated, _) => (WorkerState::Terminated, delay, WorkerAction::Exit),
            (_, WorkerEvent::StopRequested) => (WorkerState::Terminated, delay, WorkerAction::Exit),
            (WorkerState::Idle, WorkerEvent::Started) => (
                WorkerState::Connecting,
                delay,
                WorkerAction::Connect,
            ),
            (WorkerState::Connecting, WorkerEvent::Connected) => (
                WorkerState::Subscribing,
                delay,
                WorkerAction::Subscribe,
            ),
            (WorkerState::Connecting, WorkerEvent::ConnectFailed) => (
                WorkerState::Connecting,
                grown,
                WorkerAction::Retry(delay),
            ),
            (WorkerState::Subscribing, WorkerEvent::Subscribed) => (
                WorkerState::Waiting,
                BASE_RETRY_DELAY_MS,
                WorkerAction::Wait,
            ),
            (WorkerState::Subscribing, WorkerEvent::ConnectionLost) => (
                WorkerState::Connecting,
                grown,
                WorkerAction::Retry(delay),
            ),
            (WorkerState::Waiting, WorkerEvent::ConnectionLost) => (
                WorkerState::Connecting,
                grown,
                WorkerAction::Retry(delay),
            ),
            (state, _) => (state, delay, WorkerAction::Ignore),
        };
        self.state = state;
        self.retry_delay_ms = next_wait;
        action
    }

    /// The subscription requests to send on a fresh connection: one per
    /// identity registered against the relay, in the order the store gives.
    pub fn subscriptions(&self, provider: &TransactionProvider) -> (r: Result<
        Vec<String>,
        StoreError,
    >)
        requires
            provider.wf(),
        ensures
            r is Ok <==> provider.has_schema(),
            r is Err ==> r->Err_0 == StoreError::MissingSchema,
            r is Ok ==> r->Ok_0@.map_values(|m: String| m@) == pub_keys_on(
                provider.committed(),
                self.relay(),
            ).map_values(|k: Seq<u8>| subscription_request_of(k)),
    {
        let transaction = provider.start_transaction()?;
        let infos = transaction.adapters().registrations.get_pub_keys(&self.relay)?;
        let ghost keys = identities(infos@);
        let mut messages: Vec<String> = Vec::new();
        let n = infos.len();
        let mut i: usize = 0;
        while i < n
            invariant
                n == infos@.len(),
                0 <= i <= n,
                keys == identities(infos@),
                messages@.map_values(|m: String| m@) =~= keys.take(i as int).map_values(
                    |k: Seq<u8>| subscription_request_of(k),
                ),
            decreases n - i,
        {
            let key: PubKey = *infos[i].pub_key();
            let bytes = key.bytes();
            let ghost before = messages@.map_values(|m: String| m@);
            let id = key.hex();
            proof {
                lemma_hex_of_is_hex_text(key@);
            }
            let message = subscription_request(id.as_str(), &bytes);
            assert(message@ == subscription_request_of(keys[i as int]));
            messages.push(message);
            proof {
                assert(messages@.map_values(|m: String| m@) =~= before.push(message@));
                assert(keys.take(i + 1) =~= keys.take(i as int).push(keys[i as int]));
            }
            i = i + 1;
        }
        assert(keys.take(n as int) =~= keys);
        Ok(messages)
    }
}


proof fn lemma_push_new_keeps_distinct(s: Seq<Seq<char>>, x: Seq<char>)
    requires
        s.no_duplicates(),
        !s.contains(x),
    ensures
        s.push(x).no_duplicates(),
{
    let t = s.push(x);
    assert forall|a: int, b: int| 0 <= a < t.len() && 0 <= b < t.len() && a != b implies t[a]
        != t[b] by {
        if a == s.len() {
            assert(s[b] == t[b]);
        } else if b == s.len() {
            assert(s[a] == t[a]);
        }
    }
}

/// The changes that bring the workers in line with the stored relays.
pub struct Reconciliation {
    /// Relays that need a fresh worker.
    pub start: Vec<RelayAddress>,
    /// Relays whose worker must be stopped, before any is started.
    pub stop: Vec<RelayAddress>,
}

/// Keeps the relays that have a live worker, each with the epoch it had
/// when its worker was started.
pub struct Downloader {
    relays: Vec<(RelayAddress, u64)>,
}

impl Downloader {
    /// The relays that have a live worker, with their epochs.
    pub closed spec fn active(&self) -> Seq<(Seq<char>, u64)> {
        epoch_entries(self.relays@)
    }

    pub open spec fn wf(&self) -> bool {
        entry_relays(self.active()).no_duplicates()
    }

    pub fn new() -> (r: Downloader)
        ensures
            r.active() == Seq::<(Seq<char>, u64)>::empty(),
            r.wf(),
    {
        let r = Downloader { relays: Vec::new() };
        assert(r.active() =~= Seq::<(Seq<char>, u64)>::empty());
        assert(entry_relays(r.active()) =~= Seq::<Seq<char>>::empty());
        r
    }

    pub fn active_relays(&self) -> (r: &Vec<(RelayAddress, u64)>)
        ensures
            epoch_entries(r@) == self.active(),
    {
        &self.relays
    }

    /// Compares the live relays and their epochs with the workers: a relay
    /// without a worker gets one; a worker whose relay is gone is stopped;
    /// a worker whose relay has since come back with a new epoch is
    /// stopped and replaced by a fresh one; the others stay.
    pub fn reconcile(&mut self, live: &Vec<(RelayAddress, u64)>) -> (r: Reconciliation)
        requires
            old(self).wf(),
            entry_relays(epoch_entries(live@)).no_duplicates(),
        ensures
            final(self).wf(),
            addresses(r.start@).no_duplicates(),
            addresses(r.stop@).no_duplicates(),
            forall|a: Seq<char>| #[trigger]
                addresses(r.start@).contains(a) <==> epoch_in(epoch_entries(live@), a) is Some
                    && epoch_in(old(self).active(), a) != epoch_in(epoch_entries(live@), a),
            forall|a: Seq<char>| #[trigger]
                addresses(r.stop@).contains(a) <==> epoch_in(old(self).active(), a) is Some
                    && epoch_in(epoch_entries(live@), a) != epoch_in(old(self).active(), a),
            forall|a: Seq<char>| #[trigger]
                epoch_in(final(self).active(), a) == epoch_in(epoch_entries(live@), a),
    {
        let ghost old_active = self.active();
        let ghost wanted = epoch_entries(live@);
        let mut stop: Vec<RelayAddress> = Vec::new();
        let n = self.relays.len();
        let mut i: usize = 0;
        while i < n
            invariant
                n == self.relays@.len(),
                0 <= i <= n,
                old_active == self.active(),
                entry_relays(old_active).no_duplicates(),
                wanted == epoch_entries(live@),
                addresses(stop@).no_duplicates(),
                forall|a: Seq<char>| #[trigger]
                    addresses(stop@).contains(a) <==> entry_relays(old_active).take(
                        i as int,
                    ).contains(a) && epoch_in(wanted, a) != epoch_in(old_active, a),
            decreases n - i,
        {
            let ghost x = old_active[i as int].0;
            proof {
                lemma_epoch_in_entry(old_active, i as int);
                let names = entry_relays(old_active);
                assert(names[i as int] == x);
                assert(names.take(i + 1) =~= names.take(i as int).push(x));
                if names.take(i as int).contains(x) {
                    let k = choose|k: int| 0 <= k < i && names.take(i as int)[k] == x;
                    assert(names[k] == names[i as int]);
                }
            }
            let ghost before = addresses(stop@);
            let entry = &self.relays[i];
            let kept = match find_epoch(live, &entry.0) {
                Some(e) => e == entry.1,
                None => false,
            };
            if !kept {
                stop.push(entry.0.clone());
                assert(addresses(stop@) =~= before.push(x));
                proof {
                    lemma_push_new_keeps_distinct(before, x);
                }
            }
            i = i + 1;
        }
        proof {
            assert(entry_relays(old_active).take(n as int) =~= entry_relays(old_active));
            assert forall|a: Seq<char>| #[trigger] addresses(stop@).contains(a) implies epoch_in(
                old_active,
                a,
            ) is Some by {
                lemma_epoch_in_listed(old_active, a);
            }
            assert forall|a: Seq<char>|
                epoch_in(old_active, a) is Some && epoch_in(wanted, a) != epoch_in(old_active, a)
                    implies #[trigger] addresses(stop@).contains(a) by {
                lemma_epoch_in_listed(old_active, a);
            }
        }
        let mut start: Vec<RelayAddress> = Vec::new();
        let m = live.len();
        let mut j: usize = 0;
        while j < m
            invariant
                m == live@.len(),
                0 <= j <= m,
                old_active == self.active(),
                wanted == epoch_entries(live@),
                entry_relays(wanted).no_duplicates(),
                addresses(start@).no_duplicates(),
                forall|a: Seq<char>| #[trigger]
                    addresses(start@).contains(a) <==> entry_relays(wanted).take(j as int).contains(
                        a,
                    ) && epoch_in(old_active, a) != epoch_in(wanted, a),
            decreases m - j,
        {
            let ghost x = wanted[j as int].0;
            proof {
                lemma_epoch_in_entry(wanted, j as int);
                let names = entry_relays(wanted);
                assert(names[j as int] == x);
                assert(names.take(j + 1) =~= names.take(j as int).push(x));
                if names.take(j as int).contains(x) {
                    let k = choose|k: int| 0 <= k < j && names.take(j as int)[k] == x;
                    assert(names[k] == names[j as int]);
                }
            }
            let ghost before = addresses(start@);
            let entry = &live[j];
            let running = match find_epoch(&self.relays, &entry.0) {
                Some(e) => e == entry.1,
                None => false,
            };
            if !running {
                start.push(entry.0.clone());
                assert(addresses(start@) =~= before.push(x));
                proof {
                    lemma_push_new_keeps_distinct(before, x);
                }
            }
            j = j + 1;
        }
        proof {
            assert(entry_relays(wanted).take(m as int) =~= entry_relays(wanted));
            assert forall|a: Seq<char>| #[trigger] addresses(start@).contains(a) implies epoch_in(
                wanted,
                a,
            ) is Some by {
                lemma_epoch_in_listed(wanted, a);
            }
            assert forall|a: Seq<char>|
                epoch_in(wanted, a) is Some && epoch_in(old_active, a) != epoch_in(wanted, a)
                    implies #[trigger] addresses(start@).contains(a) by {
                lemma_epoch_in_listed(wanted, a);
            }
        }
        let mut relays: Vec<(RelayAddress, u64)> = Vec::new();
        let mut k: usize = 0;
        while k < m
            invariant
                m == live@.len(),
                0 <= k <= m,
                wanted == epoch_entries(live@),
                epoch_entries(relays@) =~= wanted.take(k as int),
            decreases m - k,
        {
            let ghost before = epoch_entries(relays@);
            let entry = &live[k];
            relays.push((entry.0.clone(), entry.1));
            assert(epoch_entries(relays@) =~= before.push(wanted[k as int]));
            assert(wanted.take(k + 1) =~= wanted.take(k as int).push(wanted[k as int]));
            k = k + 1;
        }
        assert(wanted.take(m as int) =~= wanted);
        self.relays = relays;
        Reconciliation { start, stop }
    }

    /// Reads the relays' epochs from the store and reconciles with them.
    pub fn run(&mut self, provider: &TransactionProvider) -> (r: Result<Reconciliation, StoreError>)
        requires
            old(self).wf(),
            provider.wf(),
        ensures
            final(self).wf(),
            r is Ok <==> provider.has_schema(),
            r is Err ==> r->Err_0 == StoreError::MissingSchema && final(self).active() == old(
                self,
            ).active(),
            r is Ok ==> {
                let plan = r->Ok_0;
                &&& addresses(plan.start@).no_duplicates()
                &&& addresses(plan.stop@).no_duplicates()
                &&& forall|a: Seq<char>| #[trigger]
                    addresses(plan.start@).contains(a) <==> is_known_relay(provider.committed(), a)
                        && epoch_in(old(self).active(), a) != epoch_in(provider.epochs(), a)
                &&& forall|a: Seq<char>| #[trigger]
                    addresses(plan.stop@).contains(a) <==> epoch_in(old(self).active(), a) is Some
                        && epoch_in(provider.epochs(), a) != epoch_in(old(self).active(), a)
                &&& forall|a: Seq<char>| #[trigger]
                    epoch_in(final(self).active(), a) == epoch_in(provider.epochs(), a)
            },
    {
        if !provider.has_tables() {
            return Err(StoreError::MissingSchema);
        }
        let live = provider.relay_epochs();
        Ok(self.reconcile(&live))
    }
}

} // verus!
