use nostr_push::common::PubKeyInfo;
use nostr_push::domain::{DomainError, PubKey, RelayAddress};
use nostr_push::events::RegistrationEventContent;
use nostr_push::service::{Application, Commands, HandleError, Queries, RegisterHandler, Server};
use nostr_push::storage::{StoreError, TransactionProvider};

fn server() -> Server {
    Server::new(Application::new(Commands::new(RegisterHandler::new()), Queries::new()))
}

fn content(relays: &[&str]) -> RegistrationEventContent {
    RegistrationEventContent {
        apns_token: String::from("token"),
        relays: relays.iter().map(|r| String::from(*r)).collect(),
        locale: String::from("en"),
    }
}

#[test]
fn server_stores_a_valid_registration() {
    let server = server();
    let mut store = TransactionProvider::new();
    store.create_schema().unwrap();
    let key = PubKey::new([9; 32]);
    assert_eq!(server.handle_registration(&mut store, key, content(&["wss://a"])), Ok(()));
    let tx = store.start_transaction().unwrap();
    let relay = RelayAddress::new(String::from("wss://a")).unwrap();
    assert_eq!(
        tx.adapters().registrations.get_pub_keys(&relay).unwrap(),
        vec![PubKeyInfo::new(key)]
    );
}

#[test]
fn server_rejects_invalid_content_before_storage() {
    let server = server();
    let mut store = TransactionProvider::new();
    store.create_schema().unwrap();
    assert_eq!(
        server.handle_registration(&mut store, PubKey::new([9; 32]), content(&["wss://a", "wss://a"])),
        Err(HandleError::Invalid(DomainError::DuplicateRelay))
    );
    let tx = store.start_transaction().unwrap();
    assert!(tx.adapters().registrations.get_relays().unwrap().is_empty());
}

#[test]
fn server_reports_a_missing_schema() {
    let server = server();
    let mut store = TransactionProvider::new();
    assert_eq!(
        server.handle_registration(&mut store, PubKey::new([9; 32]), content(&["wss://a"])),
        Err(HandleError::Store(StoreError::MissingSchema))
    );
}
