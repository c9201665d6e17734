use vstd::prelude::*;
use crate::domain::PubKey;

verus! {

/// What the store knows of an identity registered against a relay.
#[derive(Debug, PartialEq, Eq)]
pub struct PubKeyInfo {
    pub_key: PubKey,
}

impl View for PubKeyInfo {
    type V = Seq<u8>;

    closed spec fn view(&self) -> Seq<u8> {
        self.pub_key@
    }
}

impl PubKeyInfo {
    pub fn new(pub_key: PubKey) -> (r: Self)
        ensures
            r@ == pub_key@,
    {
        Self { pub_key }
    }

    pub fn pub_key(&self) -> (r: &PubKey)
        ensures
            r@ == self@,
    {
        &self.pub_key
    }
}

/// The identities of a list of key records.
pub open spec fn identities(infos: Seq<PubKeyInfo>) -> Seq<Seq<u8>> {
    infos.map_values(|p: PubKeyInfo| p@)
}

} // verus!
