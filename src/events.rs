use vstd::prelude::*;
use crate::domain::{
    addresses, is_relay_address, APNSToken, DomainError, Locale, PubKey, Registration,
    RegistrationView, RelayAddress,
};

verus! {

/// The content of a registration event, as the client sends it.
#[derive(Debug)]
pub struct RegistrationEventContent {
    pub apns_token: String,
    pub relays: Vec<String>,
    pub locale: String,
}

/// The error that a rejected relay address gives.
pub open spec fn relay_error(s: Seq<char>) -> DomainError {
    if s.len() == 0 {
        DomainError::EmptyRelayAddress
    } else {
        DomainError::InvalidRelayAddress
    }
}

/// The error of the first address of `relays` that is not a relay address.
pub open spec fn first_relay_error(relays: Seq<Seq<char>>) -> Option<DomainError>
    decreases relays.len(),
{
    if relays.len() == 0 {
        None
    } else {
        match first_relay_error(relays.drop_last()) {
            Some(e) => Some(e),
            None => if is_relay_address(relays.last()) {
                None
            } else {
                Some(relay_error(relays.last()))
            },
        }
    }
}

/// Why the parts cannot make a registration, checked in the order token,
/// relay addresses, locale, relay list; `None` when they can.
pub open spec fn registration_error(
    apns_token: Seq<char>,
    relays: Seq<Seq<char>>,
    locale: Seq<char>,
) -> Option<DomainError> {
    if apns_token.len() == 0 {
        Some(DomainError::EmptyToken)
    } else if first_relay_error(relays) is Some {
        first_relay_error(relays)
    } else if locale.len() == 0 {
        Some(DomainError::EmptyLocale)
    } else if relays.len() == 0 {
        Some(DomainError::EmptyRelays)
    } else if !relays.no_duplicates() {
        Some(DomainError::DuplicateRelay)
    } else {
        None
    }
}

proof fn lemma_first_error_stays(relays: Seq<Seq<char>>, i: int)
    requires
        0 <= i <= relays.len(),
        first_relay_error(relays.take(i)) is Some,
    ensures
        first_relay_error(relays) == first_relay_error(relays.take(i)),
    decreases relays.len() - i,
{
    if i == relays.len() {
        assert(relays.take(i) =~= relays);
    } else {
        assert(relays.take(i + 1).drop_last() =~= relays.take(i));
        lemma_first_error_stays(relays, i + 1);
    }
}

impl RegistrationEventContent {
    pub open spec fn relay_texts(&self) -> Seq<Seq<char>> {
        self.relays@.map_values(|s: String| s@)
    }

    /// The registration that `pub_key` asks for with this content.
    pub fn into_registration(self, pub_key: PubKey) -> (r: Result<Registration, DomainError>)
        ensures
            match registration_error(self.apns_token@, self.relay_texts(), self.locale@) {
                Some(e) => r == Err::<Registration, DomainError>(e),
                None => r is Ok && r->Ok_0@ == (RegistrationView {
                    pub_key: pub_key@,
                    apns_token: self.apns_token@,
                    locale: self.locale@,
                    relays: self.relay_texts(),
                }),
            },
    {
        let ghost texts = self.relay_texts();
        let apns_token = APNSToken::new(self.apns_token.clone())?;
        let mut relays: Vec<RelayAddress> = Vec::new();
        let n = self.relays.len();
        let mut i: usize = 0;
        while i < n
            invariant
                n == self.relays@.len(),
                texts == self.relay_texts(),
                self.apns_token@.len() > 0,
                0 <= i <= n,
                first_relay_error(texts.take(i as int)) is None,
                addresses(relays@) =~= texts.take(i as int),
            decreases n - i,
        {
            proof {
                assert(texts.take(i + 1).drop_last() =~= texts.take(i as int));
                assert(texts.take(i + 1).last() == texts[i as int]);
            }
            let ghost before = addresses(relays@);
            let text = self.relays[i].clone();
            assert(text@ == texts[i as int]);
            match RelayAddress::new(text) {
                Ok(relay) => {
                    relays.push(relay);
                    assert(addresses(relays@) =~= before.push(texts[i as int]));
                },
                Err(e) => {
                    proof {
                        assert(first_relay_error(texts.take(i + 1)) == Some(
                            relay_error(texts[i as int]),
                        ));
                        lemma_first_error_stays(texts, i + 1);
                    }
                    return Err(e);
                },
            }
            i = i + 1;
        }
        assert(texts.take(n as int) =~= texts);
        let locale = Locale::new(self.locale.clone())?;
        Registration::new(pub_key, apns_token, relays, locale)
    }
}

} // verus!
