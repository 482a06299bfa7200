//! The public side of a key store: which keys it holds, and which of a set of
//! validators is this node.

use crate::oracle::Error;
use crate::types::{authorities_view, authorities_copy, contains_authority, AuthorityId, ValidatorSet};
use vstd::prelude::*;

verus! {

/// The public keys of a key store, if there is a store. Signing is not done
/// here: it needs the secret keys.
pub struct BeefyKeystore {
    pub keys: Option<Vec<AuthorityId>>,
}

/// The first of `validators` that is among `local`.
pub open spec fn spec_local_authority(validators: Seq<Seq<u8>>, local: Seq<Seq<u8>>, from: int) -> Option<
    Seq<u8>,
>
    decreases validators.len() - from,
{
    if from < 0 || from >= validators.len() {
        None
    } else if local.contains(validators[from]) {
        Some(validators[from])
    } else {
        spec_local_authority(validators, local, from + 1)
    }
}

/// `spec_local_authority` finds a validator exactly where some validator is a
/// local key, and what it finds is both.
pub proof fn lemma_local_authority(validators: Seq<Seq<u8>>, local: Seq<Seq<u8>>, from: int)
    requires
        0 <= from,
    ensures
        match spec_local_authority(validators, local, from) {
            Some(id) => validators.contains(id) && local.contains(id),
            None => forall|i: int|
                from <= i < validators.len() ==> !local.contains(#[trigger] validators[i]),
        },
    decreases validators.len() - from,
{
    if from < validators.len() && !local.contains(validators[from]) {
        lemma_local_authority(validators, local, from + 1);
    }
}

impl BeefyKeystore {
    /// A key store that holds `keys`; no key store for `None`.
    pub fn new(keys: Option<Vec<AuthorityId>>) -> (r: Self)
        ensures
            r.keys == keys,
    {
        BeefyKeystore { keys }
    }

    /// The keys of the local store as plain values.
    pub open spec fn local(&self) -> Seq<Seq<u8>> {
        match self.keys {
            Some(keys) => authorities_view(keys@),
            None => Seq::empty(),
        }
    }

    /// The public keys in the store. Fails with `Keystore` if there is no
    /// store.
    pub fn public_keys(&self) -> (r: Result<Vec<AuthorityId>, Error>)
        ensures
            match r {
                Ok(keys) => self.keys.is_some() && authorities_view(keys@) == self.local(),
                Err(Error::Keystore(msg)) => self.keys.is_none() && msg@ == "no Keystore"@,
                Err(_) => false,
            },
    {
        match &self.keys {
            Some(keys) => Ok(authorities_copy(keys)),
            None => Err(Error::Keystore("no Keystore".to_owned())),
        }
    }

    /// The key under which this node votes among `validators`: the first of
    /// them that the store holds. `None` if the store holds none of them, or
    /// there is no store.
    pub fn authority_id(&self, validators: &Vec<AuthorityId>) -> (r: Option<AuthorityId>)
        ensures
            match spec_local_authority(authorities_view(validators@), self.local(), 0) {
                Some(id) => r.is_some() && r.unwrap()@ == id,
                None => r.is_none(),
            },
    {
        let keys = match &self.keys {
            Some(keys) => keys,
            None => {
                proof {
                    lemma_local_authority(authorities_view(validators@), self.local(), 0);
                }
                return None;
            },
        };
        let ghost ids = authorities_view(validators@);
        let mut i: usize = 0;
        while i < validators.len()
            invariant
                i <= validators@.len(),
                ids == authorities_view(validators@),
                self.keys == Some(*keys),
                spec_local_authority(ids, self.local(), 0) == spec_local_authority(
                    ids,
                    self.local(),
                    i as int,
                ),
            decreases validators@.len() - i,
        {
            proof {
                assert(ids[i as int] == validators@[i as int]@);
            }
            if contains_authority(keys, &validators[i]) {
                return Some(validators[i].clone());
            }
            i = i + 1;
        }
        None
    }
}

/// Checks the `active` validator set against the key store: at least one key
/// of the store must belong to the set, else this node cannot vote. Fails with
/// `Keystore` if there is no store, or no such key.
pub fn verify_validator_set(key_store: &BeefyKeystore, active: &ValidatorSet) -> (r: Result<
    (),
    Error,
>)
    ensures
        match r {
            Ok(_) => key_store.keys.is_some() && spec_local_authority(
                active@.validators,
                key_store.local(),
                0,
            ).is_some(),
            Err(Error::Keystore(msg)) => if key_store.keys.is_none() {
                msg@ == "no Keystore"@
            } else {
                spec_local_authority(active@.validators, key_store.local(), 0).is_none() && msg@
                    == "no authority public key found in store"@
            },
            Err(_) => false,
        },
{
    if let Err(e) = key_store.public_keys() {
        return Err(e);
    }
    match key_store.authority_id(active.validators()) {
        Some(_) => Ok(()),
        None => Err(Error::Keystore("no authority public key found in store".to_owned())),
    }
}

} // verus!
