//! The part of a vault account that the pools read.

use vstd::prelude::*;
use crate::layout::{check_discriminator, discriminator_check, key_at, read_key, AccountError};

verus! {

/// The eight bytes that open the data of a vault account.
pub const VAULT_DISCRIMINATOR: [u8; 8] = [211, 8, 232, 43, 2, 152, 117, 119];

#[derive(Clone, Copy, Debug)]
pub struct Vault {
    pub is_active: bool,
    pub beneficiary: [u8; 32],
}

impl Vault {
    /// Reads a vault from its account data: the active flag at byte 74 and
    /// the beneficiary key after it.
    pub fn try_deserialize(data: &[u8]) -> (r: Result<Vault, AccountError>)
        ensures
            discriminator_check(data@, VAULT_DISCRIMINATOR) matches Err(e) ==> r == Err::<Vault, AccountError>(e),
            discriminator_check(data@, VAULT_DISCRIMINATOR) is Ok ==> (r is Ok <==> data@.len() >= 107),
            discriminator_check(data@, VAULT_DISCRIMINATOR) is Ok ==> (r matches Err(e) ==> e
                == AccountError::AccountDidNotDeserialize),
            r matches Ok(v) ==> v.is_active == (data@[74] != 0) && key_at(data@, 75, v.beneficiary),
    {
        match check_discriminator(data, &VAULT_DISCRIMINATOR) {
            Ok(()) => {},
            Err(e) => return Err(e),
        }
        if data.len() < 107 {
            return Err(AccountError::AccountDidNotDeserialize);
        }
        let is_active = data[74] != 0;
        match read_key(data, 75) {
            Some(beneficiary) => Ok(Vault { is_active, beneficiary }),
            None => Err(AccountError::AccountDidNotDeserialize),
        }
    }
}

} // verus!
