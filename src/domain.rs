use vstd::prelude::*;

verus! {

/// Why a domain value could not be built.
#[derive(Debug, Clone, Copy, PartialEq, Eq, Structural)]
pub enum DomainError {
    EmptyRelayAddress,
    InvalidRelayAddress,
    EmptyToken,
    EmptyLocale,
    EmptyRelays,
    DuplicateRelay,
}

/// `s` begins with `ws://`.
pub open spec fn has_ws_prefix(s: Seq<char>) -> bool {
    s.len() >= 5 && s.take(5) == seq!['w', 's', ':', '/', '/']
}

/// `s` begins with `wss://`.
pub open spec fn has_wss_prefix(s: Seq<char>) -> bool {
    s.len() >= 6 && s.take(6) == seq!['w', 's', 's', ':', '/', '/']
}

/// A string that may name a relay: non-empty, with the `ws` or `wss` scheme.
pub open spec fn is_relay_address(s: Seq<char>) -> bool {
    s.len() > 0 && (has_ws_prefix(s) || has_wss_prefix(s))
}

fn starts_with_relay_scheme(s: &str) -> (r: bool)
    ensures
        r == (has_ws_prefix(s@) || has_wss_prefix(s@)),
{
    let n = s.unicode_len();
    if n >= 5 && s.get_char(0) == 'w' && s.get_char(1) == 's' && s.get_char(2) == ':'
        && s.get_char(3) == '/' && s.get_char(4) == '/' {
        assert(s@.take(5) =~= seq!['w', 's', ':', '/', '/']);
        return true;
    }
    if n >= 6 && s.get_char(0) == 'w' && s.get_char(1) == 's' && s.get_char(2) == 's'
        && s.get_char(3) == ':' && s.get_char(4) == '/' && s.get_char(5) == '/' {
        assert(s@.take(6) =~= seq!['w', 's', 's', ':', '/', '/']);
        return true;
    }
    proof {
        if has_ws_prefix(s@) {
            assert(s@.take(5)[2] == ':');
        }
        if has_wss_prefix(s@) {
            assert(s@.take(6)[5] == '/');
        }
    }
    false
}

/// The address of a relay, a `ws://` or `wss://` URI.
#[derive(Debug, Hash)]
pub struct RelayAddress {
    address: String,
}

impl View for RelayAddress {
    type V = Seq<char>;

    closed spec fn view(&self) -> Seq<char> {
        self.address@
    }
}

impl RelayAddress {
    pub fn new(s: String) -> (r: Result<RelayAddress, DomainError>)
        ensures
            r is Ok <==> is_relay_address(s@),
            r is Ok ==> r->Ok_0@ == s@,
            s@.len() == 0 ==> r == Err::<RelayAddress, DomainError>(DomainError::EmptyRelayAddress),
            s@.len() > 0 && !is_relay_address(s@) ==> r == Err::<RelayAddress, DomainError>(
                DomainError::InvalidRelayAddress,
            ),
    {
        if s.as_str().is_empty() {
            return Err(DomainError::EmptyRelayAddress);
        }
        if !starts_with_relay_scheme(s.as_str()) {
            return Err(DomainError::InvalidRelayAddress);
        }
        Ok(RelayAddress { address: s })
    }

    pub fn as_str(&self) -> (r: &str)
        ensures
            r@ == self@,
    {
        self.address.as_str()
    }
}

impl Clone for RelayAddress {
    fn clone(&self) -> (r: Self)
        ensures
            r == *self,
    {
        RelayAddress { address: self.address.clone() }
    }
}

impl PartialEq for RelayAddress {
    fn eq(&self, other: &RelayAddress) -> (r: bool)
        ensures
            r == (self@ == other@),
    {
        self.address == other.address
    }
}

impl vstd::std_specs::cmp::PartialEqSpecImpl for RelayAddress {
    open spec fn obeys_eq_spec() -> bool {
        true
    }

    open spec fn eq_spec(&self, other: &RelayAddress) -> bool {
        self@ == other@
    }
}

impl Eq for RelayAddress {
}


/// A push-notification destination token: an opaque non-empty string.
#[derive(Debug)]
pub struct APNSToken {
    token: String,
}

impl View for APNSToken {
    type V = Seq<char>;

    closed spec fn view(&self) -> Seq<char> {
        self.token@
    }
}

impl APNSToken {
    pub fn new(s: String) -> (r: Result<APNSToken, DomainError>)
        ensures
            r is Ok <==> s@.len() > 0,
            r is Ok ==> r->Ok_0@ == s@,
            r is Err ==> r->Err_0 == DomainError::EmptyToken,
    {
        if s.as_str().is_empty() {
            return Err(DomainError::EmptyToken);
        }
        Ok(APNSToken { token: s })
    }

    pub fn as_str(&self) -> (r: &str)
        ensures
            r@ == self@,
    {
        self.token.as_str()
    }
}

impl Clone for APNSToken {
    fn clone(&self) -> (r: Self)
        ensures
            r == *self,
    {
        APNSToken { token: self.token.clone() }
    }
}

/// The locale a registration asked for: an opaque non-empty string.
#[derive(Debug)]
pub struct Locale {
    locale: String,
}

impl View for Locale {
    type V = Seq<char>;

    closed spec fn view(&self) -> Seq<char> {
        self.locale@
    }
}

impl Locale {
    pub fn new(s: String) -> (r: Result<Locale, DomainError>)
        ensures
            r is Ok <==> s@.len() > 0,
            r is Ok ==> r->Ok_0@ == s@,
            r is Err ==> r->Err_0 == DomainError::EmptyLocale,
    {
        if s.as_str().is_empty() {
            return Err(DomainError::EmptyLocale);
        }
        Ok(Locale { locale: s })
    }

    pub fn as_str(&self) -> (r: &str)
        ensures
            r@ == self@,
    {
        self.locale.as_str()
    }
}

impl Clone for Locale {
    fn clone(&self) -> (r: Self)
        ensures
            r == *self,
    {
        Locale { locale: self.locale.clone() }
    }
}

/// The lowercase hexadecimal digits, in order.
pub open spec fn hex_digits() -> Seq<char> {
    seq!['0', '1', '2', '3', '4', '5', '6', '7', '8', '9', 'a', 'b', 'c', 'd', 'e', 'f']
}

/// The lowercase hexadecimal digit of `n`, for `n < 16`.
pub open spec fn hex_digit(n: int) -> char {
    hex_digits()[n]
}

/// Lowercase hexadecimal text of `b`: two digits per byte, high half first.
pub open spec fn hex_of(b: Seq<u8>) -> Seq<char>
    decreases b.len(),
{
    if b.len() == 0 {
        Seq::empty()
    } else {
        hex_of(b.drop_last()) + seq![hex_digit(b.last() as int / 16), hex_digit(b.last() as int % 16)]
    }
}

/// The characters that hexadecimal text is made of.
pub open spec fn is_hex_text(s: Seq<char>) -> bool {
    forall|i: int| 0 <= i < s.len() ==> hex_digits().contains(#[trigger] s[i])
}

/// Hexadecimal text of bytes holds hexadecimal digits only.
pub proof fn lemma_hex_of_is_hex_text(b: Seq<u8>)
    ensures
        is_hex_text(hex_of(b)),
    decreases b.len(),
{
    if b.len() > 0 {
        lemma_hex_of_is_hex_text(b.drop_last());
        let digits = hex_digits();
        let hi = b.last() as int / 16;
        let lo = b.last() as int % 16;
        assert(digits.contains(digits[hi]));
        assert(digits.contains(digits[lo]));
        let rest = hex_of(b.drop_last());
        let tail = seq![hex_digit(hi), hex_digit(lo)];
        assert forall|i: int| 0 <= i < hex_of(b).len() implies digits.contains(
            #[trigger] hex_of(b)[i],
        ) by {
            if i < rest.len() {
                assert(hex_of(b)[i] == rest[i]);
            } else {
                assert(hex_of(b)[i] == tail[i - rest.len()]);
            }
        }
    }
}

/// Relies on nostr's `PublicKey::to_hex`, which writes each byte of the key
/// as two lowercase hexadecimal digits, high half first.
#[verifier::external_body]
fn key_to_hex(key: &[u8; 32]) -> (r: String)
    ensures
        r@ == hex_of(key@),
{
    nostr::key::PublicKey::from_byte_array(*key).to_hex()
}

/// An x-only public key: the 32 bytes that identify a protocol participant.
#[derive(Debug, Clone, Copy, Hash)]
pub struct PubKey {
    key: [u8; 32],
}

impl View for PubKey {
    type V = Seq<u8>;

    closed spec fn view(&self) -> Seq<u8> {
        self.key@
    }
}

impl PubKey {
    pub fn new(key: [u8; 32]) -> (r: PubKey)
        ensures
            r@ == key@,
    {
        PubKey { key }
    }

    pub fn bytes(&self) -> (r: [u8; 32])
        ensures
            r@ == self@,
    {
        self.key
    }

    /// The canonical text form of the key.
    pub fn hex(&self) -> (r: String)
        ensures
            r@ == hex_of(self@),
    {
        key_to_hex(&self.key)
    }
}

impl PartialEq for PubKey {
    fn eq(&self, other: &PubKey) -> (r: bool)
        ensures
            r == (self@ == other@),
    {
        broadcast use vstd::array::array_len_matches_n;

        let mut i: usize = 0;
        while i < 32
            invariant
                0 <= i <= 32,
                forall|j: int| 0 <= j < i ==> self.key@[j] == other.key@[j],
            decreases 32 - i,
        {
            if self.key[i] != other.key[i] {
                return false;
            }
            i = i + 1;
        }
        assert(self.key@ =~= other.key@);
        true
    }
}

impl vstd::std_specs::cmp::PartialEqSpecImpl for PubKey {
    open spec fn obeys_eq_spec() -> bool {
        true
    }

    open spec fn eq_spec(&self, other: &PubKey) -> bool {
        self@ == other@
    }
}

impl Eq for PubKey {
}

/// The addresses of a list of relays.
pub open spec fn addresses(relays: Seq<RelayAddress>) -> Seq<Seq<char>> {
    relays.map_values(|a: RelayAddress| a@)
}

/// What a registration holds, as plain values.
pub struct RegistrationView {
    pub pub_key: Seq<u8>,
    pub apns_token: Seq<char>,
    pub locale: Seq<char>,
    pub relays: Seq<Seq<char>>,
}

/// One identity's request to be notified of what it publishes on its relays.
#[derive(Debug)]
pub struct Registration {
    pub_key: PubKey,
    apns_token: APNSToken,
    relays: Vec<RelayAddress>,
    locale: Locale,
}

impl View for Registration {
    type V = RegistrationView;

    closed spec fn view(&self) -> RegistrationView {
        RegistrationView {
            pub_key: self.pub_key@,
            apns_token: self.apns_token@,
            locale: self.locale@,
            relays: addresses(self.relays@),
        }
    }
}

/// Whether any two of `relays` have the same address.
fn has_duplicate(relays: &Vec<RelayAddress>) -> (r: bool)
    ensures
        r == !addresses(relays@).no_duplicates(),
{
    let n = relays.len();
    let mut i: usize = 0;
    while i < n
        invariant
            n == relays@.len(),
            0 <= i <= n,
            forall|a: int, b: int| 0 <= a < b < i ==> relays@[a]@ != relays@[b]@,
        decreases n - i,
    {
        let mut j: usize = 0;
        while j < i
            invariant
                n == relays@.len(),
                0 <= j <= i < n,
                forall|b: int| 0 <= b < j ==> relays@[b]@ != relays@[i as int]@,
            decreases i - j,
        {
            if relays[j] == relays[i] {
                assert(addresses(relays@)[j as int] == addresses(relays@)[i as int]);
                return true;
            }
            j = j + 1;
        }
        i = i + 1;
    }
    assert(addresses(relays@).no_duplicates()) by {
        assert forall|a: int, b: int|
            0 <= a < addresses(relays@).len() && 0 <= b < addresses(relays@).len() && a != b
            implies addresses(relays@)[a] != addresses(relays@)[b] by {
            if a < b {
                assert(relays@[a]@ != relays@[b]@);
            } else {
                assert(relays@[b]@ != relays@[a]@);
            }
        }
    }
    false
}

impl Registration {
    pub fn new(pub_key: PubKey, apns_token: APNSToken, relays: Vec<RelayAddress>, locale: Locale)
        -> (r: Result<Registration, DomainError>)
        ensures
            r is Ok <==> relays@.len() > 0 && addresses(relays@).no_duplicates(),
            relays@.len() == 0 ==> r is Err && r->Err_0 == DomainError::EmptyRelays,
            relays@.len() > 0 && !addresses(relays@).no_duplicates() ==> r is Err && r->Err_0
                == DomainError::DuplicateRelay,
            r is Ok ==> r->Ok_0@ == (RegistrationView {
                pub_key: pub_key@,
                apns_token: apns_token@,
                locale: locale@,
                relays: addresses(relays@),
            }),
    {
        if relays.len() == 0 {
            return Err(DomainError::EmptyRelays);
        }
        if has_duplicate(&relays) {
            return Err(DomainError::DuplicateRelay);
        }
        Ok(Registration { pub_key, apns_token, relays, locale })
    }

    pub fn pub_key(&self) -> (r: PubKey)
        ensures
            r@ == self@.pub_key,
    {
        self.pub_key
    }

    pub fn apns_token(&self) -> (r: APNSToken)
        ensures
            r@ == self@.apns_token,
    {
        self.apns_token.clone()
    }

    pub fn locale(&self) -> (r: Locale)
        ensures
            r@ == self@.locale,
    {
        self.locale.clone()
    }

    /// Whether `relay` is one of the registration's relays.
    pub fn has_relay(&self, relay: &RelayAddress) -> (r: bool)
        ensures
            r == self@.relays.contains(relay@),
    {
        contains_address(&self.relays, relay)
    }

    pub fn relays(&self) -> (r: Vec<RelayAddress>)
        ensures
            addresses(r@) == self@.relays,
    {
        let r = self.relays.clone();
        assert(addresses(r@) =~= addresses(self.relays@));
        r
    }
}

impl Clone for Registration {
    fn clone(&self) -> (r: Self)
        ensures
            r@ == self@,
    {
        Registration {
            pub_key: self.pub_key,
            apns_token: self.apns_token.clone(),
            relays: self.relays(),
            locale: self.locale.clone(),
        }
    }
}

/// Whether `relay` is among `list`.
pub fn contains_address(list: &Vec<RelayAddress>, relay: &RelayAddress) -> (r: bool)
    ensures
        r == addresses(list@).contains(relay@),
{
    let n = list.len();
    let mut i: usize = 0;
    while i < n
        invariant
            n == list@.len(),
            0 <= i <= n,
            forall|j: int| 0 <= j < i ==> list@[j]@ != relay@,
        decreases n - i,
    {
        if list[i] == *relay {
            assert(addresses(list@)[i as int] == relay@);
            return true;
        }
        i = i + 1;
    }
    assert(!addresses(list@).contains(relay@)) by {
        if addresses(list@).contains(relay@) {
            let j = choose|j: int| 0 <= j < addresses(list@).len() && addresses(list@)[j] == relay@;
            assert(list@[j]@ != relay@);
        }
    }
    false
}


} // verus!
