//! A non-fungible token program: minting records a token id, its owner and
//! a metadata URI; the owner can hand the token on; anyone can read it.
use vstd::prelude::*;
use crate::onchain::{key_eq, AccountMeta, Key, ProgError};

verus! {

/// A minted token.
#[derive(Debug)]
pub struct NFTState {
    pub token_id: u64,
    pub owner: Key,
    pub metadata_uri: String,
}

/// The instructions of the program.
#[derive(Debug)]
pub enum NFTInstruction {
    Mint { token_id: u64, metadata_uri: String },
    Transfer { new_owner: Key },
    GetMetadata,
}

/// `Mint` with accounts `[token account, authority]`: the account belongs
/// to the program, the authority signed, and the account is rent exempt
/// (`rent_exempt` is that check or the error reading the rent gave). The
/// token is recorded with the authority as owner.
pub fn mint(
    program_id: &Key,
    accounts: &Vec<AccountMeta>,
    rent_exempt: Result<bool, ProgError>,
    token_id: u64,
    metadata_uri: String,
) -> (r: Result<NFTState, ProgError>)
    ensures
        match r {
            Ok(s) => accounts@.len() >= 2 && accounts@[0].owner == *program_id && accounts@[1].is_signer
                && rent_exempt == Ok::<bool, ProgError>(true) && s.token_id == token_id && s.owner
                == accounts@[1].key && s.metadata_uri@ == metadata_uri@,
            Err(e) => if accounts@.len() < 2 {
                e == ProgError::NotEnoughAccountKeys
            } else if accounts@[0].owner != *program_id {
                e == ProgError::IncorrectProgramId
            } else if !accounts@[1].is_signer {
                e == ProgError::MissingRequiredSignature
            } else {
                match rent_exempt {
                    Err(e0) => e == e0,
                    Ok(x) => !x && e == ProgError::AccountNotRentExempt,
                }
            },
        },
{
    if accounts.len() < 2 {
        return Err(ProgError::NotEnoughAccountKeys);
    }
    let nft_account = accounts[0];
    let authority = accounts[1];
    if !key_eq(&nft_account.owner, program_id) {
        return Err(ProgError::IncorrectProgramId);
    }
    if !authority.is_signer {
        return Err(ProgError::MissingRequiredSignature);
    }
    match rent_exempt {
        Err(e) => Err(e),
        Ok(exempt) => {
            if !exempt {
                Err(ProgError::AccountNotRentExempt)
            } else {
                Ok(NFTState { token_id, owner: authority.key, metadata_uri })
            }
        },
    }
}

/// `Transfer` with accounts `[token account, current owner]`; `state` is
/// the decoded token. The current owner must sign and be the recorded
/// owner; the token then belongs to `new_owner`.
pub fn transfer(
    program_id: &Key,
    accounts: &Vec<AccountMeta>,
    state: Result<NFTState, ProgError>,
    new_owner: Key,
) -> (r: Result<NFTState, ProgError>)
    ensures
        match r {
            Ok(s) => accounts@.len() >= 2 && accounts@[0].owner == *program_id && accounts@[1].is_signer
                && state is Ok && state->Ok_0.owner == accounts@[1].key && s.owner == new_owner
                && s.token_id == state->Ok_0.token_id && s.metadata_uri@ == state->Ok_0.metadata_uri@,
            Err(e) => if accounts@.len() < 2 {
                e == ProgError::NotEnoughAccountKeys
            } else if accounts@[0].owner != *program_id {
                e == ProgError::IncorrectProgramId
            } else if !accounts@[1].is_signer {
                e == ProgError::MissingRequiredSignature
            } else {
                match state {
                    Err(e0) => e == e0,
                    Ok(s) => s.owner != accounts@[1].key && e == ProgError::InvalidAccountData,
                }
            },
        },
{
    if accounts.len() < 2 {
        return Err(ProgError::NotEnoughAccountKeys);
    }
    let nft_account = accounts[0];
    let current_owner = accounts[1];
    if !key_eq(&nft_account.owner, program_id) {
        return Err(ProgError::IncorrectProgramId);
    }
    if !current_owner.is_signer {
        return Err(ProgError::MissingRequiredSignature);
    }
    let mut nft_state = match state {
        Ok(s) => s,
        Err(e) => return Err(e),
    };
    if !key_eq(&nft_state.owner, &current_owner.key) {
        return Err(ProgError::InvalidAccountData);
    }
    nft_state.owner = new_owner;
    Ok(nft_state)
}

/// `GetMetadata` with accounts `[token account]`: the decoded token of an
/// account the program owns, for the caller to log.
pub fn get_metadata(
    program_id: &Key,
    accounts: &Vec<AccountMeta>,
    state: Result<NFTState, ProgError>,
) -> (r: Result<NFTState, ProgError>)
    ensures
        accounts@.len() < 1 ==> r == Err::<NFTState, ProgError>(ProgError::NotEnoughAccountKeys),
        accounts@.len() >= 1 && accounts@[0].owner != *program_id ==> r == Err::<NFTState, ProgError>(
            ProgError::IncorrectProgramId,
        ),
        accounts@.len() >= 1 && accounts@[0].owner == *program_id ==> r == state,
{
    if accounts.len() < 1 {
        return Err(ProgError::NotEnoughAccountKeys);
    }
    if !key_eq(&accounts[0].owner, program_id) {
        return Err(ProgError::IncorrectProgramId);
    }
    state
}

} // verus!
