use nostr_push::domain::{APNSToken, DomainError, Locale, PubKey, Registration, RelayAddress};
use nostr_push::events::RegistrationEventContent;

fn relay(s: &str) -> RelayAddress {
    RelayAddress::new(String::from(s)).unwrap()
}

fn registration(key: u8, relays: &[&str]) -> Result<Registration, DomainError> {
    Registration::new(
        PubKey::new([key; 32]),
        APNSToken::new(String::from("apns_token")).unwrap(),
        relays.iter().map(|r| relay(r)).collect(),
        Locale::new(String::from("some locale")).unwrap(),
    )
}

#[test]
fn it_works() {}

#[test]
fn relay_address_accepts_ws_and_wss() {
    assert_eq!(relay("ws://relay.example").as_str(), "ws://relay.example");
    assert_eq!(relay("wss://relay.example").as_str(), "wss://relay.example");
    assert!(RelayAddress::new(String::from("ws://")).is_ok());
}

#[test]
fn relay_address_rejects_empty() {
    assert_eq!(
        RelayAddress::new(String::new()).unwrap_err(),
        DomainError::EmptyRelayAddress
    );
}

#[test]
fn relay_address_rejects_other_schemes() {
    for s in ["http://relay.example", "wss:/relay", "ws:", "WSS://relay", "relay.example", "w"] {
        assert_eq!(
            RelayAddress::new(String::from(s)).unwrap_err(),
            DomainError::InvalidRelayAddress
        );
    }
}

#[test]
fn relay_addresses_are_equal_by_text() {
    assert_eq!(relay("wss://a"), relay("wss://a"));
    assert_ne!(relay("wss://a"), relay("wss://a/"));
}

#[test]
fn token_and_locale_reject_empty() {
    assert_eq!(APNSToken::new(String::new()).unwrap_err(), DomainError::EmptyToken);
    assert_eq!(Locale::new(String::new()).unwrap_err(), DomainError::EmptyLocale);
    assert_eq!(APNSToken::new(String::from("t")).unwrap().as_str(), "t");
    assert_eq!(Locale::new(String::from("en_US")).unwrap().as_str(), "en_US");
}

#[test]
fn registration_rejects_duplicate_relay() {
    let r = registration(1, &["wss://relay.example", "wss://relay.example"]);
    assert_eq!(r.unwrap_err(), DomainError::DuplicateRelay);
}

#[test]
fn registration_rejects_empty_relays() {
    assert_eq!(registration(1, &[]).unwrap_err(), DomainError::EmptyRelays);
}

#[test]
fn registration_accepts_distinct_relays() {
    let r = registration(7, &["wss://a", "wss://b"]).unwrap();
    assert_eq!(r.pub_key(), PubKey::new([7; 32]));
    assert_eq!(r.apns_token().as_str(), "apns_token");
    assert_eq!(r.locale().as_str(), "some locale");
    assert_eq!(r.relays(), vec![relay("wss://a"), relay("wss://b")]);
    assert!(r.has_relay(&relay("wss://b")));
    assert!(!r.has_relay(&relay("wss://c")));
}

#[test]
fn pub_key_hex_is_lowercase_two_digits_per_byte() {
    let mut bytes = [0u8; 32];
    bytes[0] = 0x01;
    bytes[1] = 0xab;
    bytes[31] = 0xf0;
    let hex = PubKey::new(bytes).hex();
    assert_eq!(hex.len(), 64);
    assert_eq!(&hex[0..4], "01ab");
    assert_eq!(&hex[60..64], "00f0");
    assert_eq!(PubKey::new(bytes).bytes(), bytes);
    assert_eq!(PubKey::new([0x0f; 32]).hex(), "0f".repeat(32));
}

fn content(token: &str, relays: &[&str], locale: &str) -> RegistrationEventContent {
    RegistrationEventContent {
        apns_token: String::from(token),
        relays: relays.iter().map(|r| String::from(*r)).collect(),
        locale: String::from(locale),
    }
}

#[test]
fn event_content_builds_registration() {
    let r = content("tok", &["wss://a", "ws://b"], "en")
        .into_registration(PubKey::new([3; 32]))
        .unwrap();
    assert_eq!(r.relays(), vec![relay("wss://a"), relay("ws://b")]);
    assert_eq!(r.apns_token().as_str(), "tok");
    assert_eq!(r.locale().as_str(), "en");
}

#[test]
fn event_content_reports_first_error() {
    let key = PubKey::new([3; 32]);
    let err = |c: RegistrationEventContent| c.into_registration(key).unwrap_err();
    assert_eq!(err(content("", &["bad"], "")), DomainError::EmptyToken);
    assert_eq!(err(content("t", &["wss://a", "", "bad"], "")), DomainError::EmptyRelayAddress);
    assert_eq!(err(content("t", &["wss://a", "bad", ""], "")), DomainError::InvalidRelayAddress);
    assert_eq!(err(content("t", &[], "")), DomainError::EmptyLocale);
    assert_eq!(err(content("t", &[], "en")), DomainError::EmptyRelays);
    assert_eq!(err(content("t", &["wss://a", "wss://a"], "en")), DomainError::DuplicateRelay);
}
