use nostr_push::domain::{APNSToken, Locale, PubKey, Registration, RelayAddress};
use nostr_push::relay::{
    Downloader, RelayDownloaderRunner, WorkerAction, WorkerEvent, WorkerState,
    BASE_RETRY_DELAY_MS, MAX_RETRY_DELAY_MS,
};
use nostr_push::service::{Register, RegisterHandler};
use nostr_push::storage::{StoreError, TransactionProvider};

fn relay(s: &str) -> RelayAddress {
    RelayAddress::new(String::from(s)).unwrap()
}

fn store_with(regs: &[(u8, &[&str])]) -> TransactionProvider {
    let mut store = TransactionProvider::new();
    store.create_schema().unwrap();
    let handler = RegisterHandler::new();
    for (key, relays) in regs {
        let registration = Registration::new(
            PubKey::new([*key; 32]),
            APNSToken::new(String::from("token")).unwrap(),
            relays.iter().map(|r| relay(r)).collect(),
            Locale::new(String::from("en")).unwrap(),
        )
        .unwrap();
        handler.handle(&mut store, &Register { registration }).unwrap();
    }
    store
}

fn texts(v: &[RelayAddress]) -> Vec<String> {
    let mut out: Vec<String> = v.iter().map(|r| String::from(r.as_str())).collect();
    out.sort();
    out
}

#[test]
fn stop_while_waiting_exits_without_reconnecting() {
    let mut worker = RelayDownloaderRunner::new(relay("wss://a"));
    assert_eq!(worker.step(WorkerEvent::Started), WorkerAction::Connect);
    assert_eq!(worker.step(WorkerEvent::Connected), WorkerAction::Subscribe);
    assert_eq!(worker.step(WorkerEvent::Subscribed), WorkerAction::Wait);
    assert_eq!(worker.current_state(), WorkerState::Waiting);
    assert_eq!(worker.step(WorkerEvent::StopRequested), WorkerAction::Exit);
    assert_eq!(worker.current_state(), WorkerState::Terminated);
    for event in [WorkerEvent::ConnectionLost, WorkerEvent::ConnectFailed, WorkerEvent::Started] {
        assert_eq!(worker.step(event), WorkerAction::Exit);
    }
    assert_eq!(worker.current_state(), WorkerState::Terminated);
}

#[test]
fn failures_back_off_up_to_the_limit_and_reset() {
    let mut worker = RelayDownloaderRunner::new(relay("wss://a"));
    worker.step(WorkerEvent::Started);
    let mut delays = Vec::new();
    for _ in 0..8 {
        match worker.step(WorkerEvent::ConnectFailed) {
            WorkerAction::Retry(ms) => delays.push(ms),
            other => panic!("unexpected action {:?}", other),
        }
    }
    assert_eq!(delays, vec![1000, 2000, 4000, 8000, 16000, 32000, 60000, 60000]);
    assert_eq!(worker.step(WorkerEvent::Connected), WorkerAction::Subscribe);
    assert_eq!(worker.step(WorkerEvent::Subscribed), WorkerAction::Wait);
    assert_eq!(worker.step(WorkerEvent::ConnectionLost), WorkerAction::Retry(BASE_RETRY_DELAY_MS));
    assert!(BASE_RETRY_DELAY_MS < MAX_RETRY_DELAY_MS);
}

#[test]
fn out_of_place_events_are_ignored() {
    let mut worker = RelayDownloaderRunner::new(relay("wss://a"));
    assert_eq!(worker.step(WorkerEvent::Connected), WorkerAction::Ignore);
    assert_eq!(worker.current_state(), WorkerState::Idle);
    assert_eq!(worker.relay_address().as_str(), "wss://a");
}

#[test]
fn subscriptions_name_each_registered_identity() {
    let store = store_with(&[(0xab, &["wss://a"]), (0x01, &["wss://a", "wss://b"]), (0x02, &["wss://b"])]);
    let worker = RelayDownloaderRunner::new(relay("wss://a"));
    let messages = worker.subscriptions(&store).unwrap();
    assert_eq!(messages.len(), 2);
    let hex_ab = PubKey::new([0xab; 32]).hex();
    let hex_01 = PubKey::new([0x01; 32]).hex();
    assert_eq!(messages[0], format!("[\"REQ\",\"{hex_ab}\",{{\"authors\":[\"{hex_ab}\"]}}]"));
    assert_eq!(messages[1], format!("[\"REQ\",\"{hex_01}\",{{\"authors\":[\"{hex_01}\"]}}]"));
}

#[test]
fn subscriptions_need_the_schema() {
    let worker = RelayDownloaderRunner::new(relay("wss://a"));
    assert_eq!(worker.subscriptions(&TransactionProvider::new()), Err(StoreError::MissingSchema));
}

fn live(entries: &[(&str, u64)]) -> Vec<(RelayAddress, u64)> {
    entries.iter().map(|(r, e)| (relay(r), *e)).collect()
}

fn active(downloader: &Downloader) -> Vec<(String, u64)> {
    let mut out: Vec<(String, u64)> = downloader
        .active_relays()
        .iter()
        .map(|(r, e)| (String::from(r.as_str()), *e))
        .collect();
    out.sort();
    out
}

#[test]
fn downloader_starts_and_stops_workers_to_match_relays() {
    let mut downloader = Downloader::new();
    let plan = downloader.reconcile(&live(&[("wss://a", 1), ("wss://b", 1)]));
    assert_eq!(texts(&plan.start), vec!["wss://a", "wss://b"]);
    assert!(plan.stop.is_empty());

    let plan = downloader.reconcile(&live(&[("wss://b", 1), ("wss://c", 2)]));
    assert_eq!(texts(&plan.start), vec!["wss://c"]);
    assert_eq!(texts(&plan.stop), vec!["wss://a"]);
    assert_eq!(active(&downloader), vec![(String::from("wss://b"), 1), (String::from("wss://c"), 2)]);

    let plan = downloader.reconcile(&live(&[("wss://b", 1), ("wss://c", 2)]));
    assert!(plan.start.is_empty());
    assert!(plan.stop.is_empty());
}

#[test]
fn downloader_replaces_a_worker_whose_relay_came_back() {
    let mut downloader = Downloader::new();
    downloader.reconcile(&live(&[("wss://a", 1), ("wss://b", 1)]));
    let plan = downloader.reconcile(&live(&[("wss://a", 5), ("wss://b", 1)]));
    assert_eq!(texts(&plan.stop), vec!["wss://a"]);
    assert_eq!(texts(&plan.start), vec!["wss://a"]);
    assert_eq!(active(&downloader), vec![(String::from("wss://a"), 5), (String::from("wss://b"), 1)]);
}

#[test]
fn downloader_reads_relays_from_the_store() {
    let store = store_with(&[(1, &["wss://x", "wss://y"]), (2, &["wss://y"])]);
    let mut downloader = Downloader::new();
    let plan = downloader.run(&store).unwrap();
    assert_eq!(texts(&plan.start), vec!["wss://x", "wss://y"]);
    assert!(downloader.run(&TransactionProvider::new()).is_err());
    assert_eq!(active(&downloader), vec![(String::from("wss://x"), 1), (String::from("wss://y"), 1)]);
}

#[test]
fn relay_removed_and_readded_between_polls_gets_a_fresh_worker() {
    let mut store = store_with(&[(1, &["wss://x"]), (2, &["wss://y"])]);
    let mut downloader = Downloader::new();
    downloader.run(&store).unwrap();
    let handler = RegisterHandler::new();
    let register = |key: u8, relays: &[&str]| Register {
        registration: Registration::new(
            PubKey::new([key; 32]),
            APNSToken::new(String::from("token")).unwrap(),
            relays.iter().map(|r| relay(r)).collect(),
            Locale::new(String::from("en")).unwrap(),
        )
        .unwrap(),
    };
    handler.handle(&mut store, &register(1, &["wss://y"])).unwrap();
    handler.handle(&mut store, &register(3, &["wss://x"])).unwrap();
    let plan = downloader.run(&store).unwrap();
    assert_eq!(texts(&plan.stop), vec!["wss://x"]);
    assert_eq!(texts(&plan.start), vec!["wss://x"]);
    assert_eq!(active(&downloader), vec![(String::from("wss://x"), 4), (String::from("wss://y"), 2)]);
}
