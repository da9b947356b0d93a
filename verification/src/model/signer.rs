use vstd::prelude::*;
use vstd::std_specs::cmp::PartialEqSpecImpl;
use crate::pubkey::Pubkey;
use crate::utils::eq_is_identity;

verus! {

/// Someone who may be given a vote: known by a key.
#[derive(Debug, Clone, Copy, Eq)]
pub struct Signer {
    pub key: Pubkey,
}

impl PartialEq for Signer {
    fn eq(&self, other: &Self) -> (r: bool) {
        self.key == other.key
    }
}

impl PartialEqSpecImpl for Signer {
    open spec fn obeys_eq_spec() -> bool {
        true
    }

    open spec fn eq_spec(&self, other: &Self) -> bool {
        self.key == other.key
    }
}

impl Signer {
    /// The signer with the given key.
    pub fn new(key: Pubkey) -> (r: Self)
        ensures
            r.key == key,
    {
        Signer { key }
    }

    /// `==` on signers compares their keys, so it decides equality.
    pub proof fn lemma_eq_is_identity()
        ensures
            eq_is_identity::<Signer>(),
    {
    }
}

} // verus!
