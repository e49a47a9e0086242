//! A fungible token program: a mint with an authority, a supply and
//! decimals, and token accounts with an owner and a balance. Each
//! instruction checks the accounts it is handed and yields the account
//! states to store.
use vstd::prelude::*;
use crate::onchain::{key_eq, AccountMeta, Key, ProgError};

verus! {

/// The mint: who may mint, how many tokens exist, and their decimals.
#[derive(Clone, Copy, Debug)]
pub struct TokenState {
    pub mint_authority: Key,
    pub total_supply: u64,
    pub decimals: u8,
}

/// A holder's token account.
#[derive(Clone, Copy, Debug)]
pub struct TokenAccount {
    pub owner: Key,
    pub balance: u64,
}

/// The instructions of the program.
#[derive(Clone, Copy, Debug, PartialEq, Eq, Structural)]
pub enum TokenInstruction {
    Initialize { decimals: u8, initial_supply: u64 },
    Transfer { amount: u64 },
    Burn { amount: u64 },
}

/// `Initialize` with accounts `[mint, mint authority, token account]`:
/// both accounts must belong to the program and the mint must be rent
/// exempt (`rent_exempt` is that check, or the error reading the rent
/// gave). The mint and the authority's token account then hold the whole
/// initial supply.
pub fn initialize(
    program_id: &Key,
    accounts: &Vec<AccountMeta>,
    rent_exempt: Result<bool, ProgError>,
    decimals: u8,
    initial_supply: u64,
) -> (r: Result<(TokenState, TokenAccount), ProgError>)
    ensures
        accounts@.len() < 3 ==> r == Err::<(TokenState, TokenAccount), ProgError>(ProgError::NotEnoughAccountKeys),
        accounts@.len() >= 3 ==> {
            let mint = accounts@[0];
            let authority = accounts@[1];
            let token = accounts@[2];
            if mint.owner != *program_id || token.owner != *program_id {
                r == Err::<(TokenState, TokenAccount), ProgError>(ProgError::IncorrectProgramId)
            } else {
                match rent_exempt {
                    Err(e) => r == Err::<(TokenState, TokenAccount), ProgError>(e),
                    Ok(exempt) => if !exempt {
                        r == Err::<(TokenState, TokenAccount), ProgError>(ProgError::AccountNotRentExempt)
                    } else {
                        r == Ok::<(TokenState, TokenAccount), ProgError>((
                            TokenState { mint_authority: authority.key, total_supply: initial_supply, decimals },
                            TokenAccount { owner: authority.key, balance: initial_supply },
                        ))
                    },
                }
            }
        },
{
    if accounts.len() < 3 {
        return Err(ProgError::NotEnoughAccountKeys);
    }
    let mint = accounts[0];
    let authority = accounts[1];
    let token = accounts[2];
    if !key_eq(&mint.owner, program_id) || !key_eq(&token.owner, program_id) {
        return Err(ProgError::IncorrectProgramId);
    }
    match rent_exempt {
        Err(e) => Err(e),
        Ok(exempt) => {
            if !exempt {
                return Err(ProgError::AccountNotRentExempt);
            }
            Ok((
                TokenState { mint_authority: authority.key, total_supply: initial_supply, decimals },
                TokenAccount { owner: authority.key, balance: initial_supply },
            ))
        },
    }
}

/// Whether a `Transfer` of `amount` passes every check and reaches the
/// balance update: accounts `[source, destination, authority]`, both
/// token accounts owned by the program and decoded, the authority signed
/// and owns the source, and the source holds at least `amount`.
pub open spec fn transfer_allowed(
    program_id: Key,
    accounts: Seq<AccountMeta>,
    source: Result<TokenAccount, ProgError>,
    dest: Result<TokenAccount, ProgError>,
    amount: u64,
) -> bool {
    &&& accounts.len() >= 3
    &&& accounts[0].owner == program_id && accounts[1].owner == program_id
    &&& source is Ok && dest is Ok
    &&& accounts[2].is_signer && source->Ok_0.owner == accounts[2].key
    &&& source->Ok_0.balance >= amount
}

/// `Transfer` with accounts `[source, destination, authority]`; `source`
/// and `dest` are the decoded states of the first two accounts (or the
/// decoding errors). Yields the two states to store, source first. When
/// source and destination are one account, storing both leaves the
/// destination state, whose balance has grown by `amount`.
pub fn transfer(
    program_id: &Key,
    accounts: &Vec<AccountMeta>,
    source: Result<TokenAccount, ProgError>,
    dest: Result<TokenAccount, ProgError>,
    amount: u64,
) -> (r: Result<(TokenAccount, TokenAccount), ProgError>)
    requires
        transfer_allowed(*program_id, accounts@, source, dest, amount) ==> dest->Ok_0.balance + amount
            <= u64::MAX,
    ensures
        transfer_allowed(*program_id, accounts@, source, dest, amount) <==> r is Ok,
        r matches Ok(p) ==> p.0 == (TokenAccount { balance: (source->Ok_0.balance - amount) as u64, ..source->Ok_0 })
            && p.1 == (TokenAccount { balance: (dest->Ok_0.balance + amount) as u64, ..dest->Ok_0 }),
        accounts@.len() < 3 ==> r == Err::<(TokenAccount, TokenAccount), ProgError>(ProgError::NotEnoughAccountKeys),
        accounts@.len() >= 3 && (accounts@[0].owner != *program_id || accounts@[1].owner != *program_id)
            ==> r == Err::<(TokenAccount, TokenAccount), ProgError>(ProgError::IncorrectProgramId),
        accounts@.len() >= 3 && accounts@[0].owner == *program_id && accounts@[1].owner == *program_id
            ==> match (source, dest) {
            (Err(e), _) => r == Err::<(TokenAccount, TokenAccount), ProgError>(e),
            (Ok(_), Err(e)) => r == Err::<(TokenAccount, TokenAccount), ProgError>(e),
            (Ok(s), Ok(_)) => if !accounts@[2].is_signer || s.owner != accounts@[2].key {
                r == Err::<(TokenAccount, TokenAccount), ProgError>(ProgError::MissingRequiredSignature)
            } else if s.balance < amount {
                r == Err::<(TokenAccount, TokenAccount), ProgError>(ProgError::InsufficientFunds)
            } else {
                r is Ok
            },
        },
{
    if accounts.len() < 3 {
        return Err(ProgError::NotEnoughAccountKeys);
    }
    let source_account = accounts[0];
    let dest_account = accounts[1];
    let authority = accounts[2];
    if !key_eq(&source_account.owner, program_id) || !key_eq(&dest_account.owner, program_id) {
        return Err(ProgError::IncorrectProgramId);
    }
    let mut source_data = match source {
        Ok(s) => s,
        Err(e) => return Err(e),
    };
    let mut dest_data = match dest {
        Ok(d) => d,
        Err(e) => return Err(e),
    };
    if !authority.is_signer || !key_eq(&source_data.owner, &authority.key) {
        return Err(ProgError::MissingRequiredSignature);
    }
    if source_data.balance < amount {
        return Err(ProgError::InsufficientFunds);
    }
    source_data.balance = source_data.balance - amount;
    dest_data.balance = dest_data.balance + amount;
    Ok((source_data, dest_data))
}

/// Whether a `Burn` of `amount` passes every check: accounts `[token
/// account, mint, authority]` owned by the program and decoded, the
/// authority signed and owns the token account, which holds at least
/// `amount`.
pub open spec fn burn_allowed(
    program_id: Key,
    accounts: Seq<AccountMeta>,
    account: Result<TokenAccount, ProgError>,
    mint: Result<TokenState, ProgError>,
    amount: u64,
) -> bool {
    &&& accounts.len() >= 3
    &&& accounts[0].owner == program_id && accounts[1].owner == program_id
    &&& account is Ok && mint is Ok
    &&& accounts[2].is_signer && account->Ok_0.owner == accounts[2].key
    &&& account->Ok_0.balance >= amount
}

/// `Burn` with accounts `[token account, mint, authority]`; `account` and
/// `mint` are their decoded states. Yields the token account and the mint,
/// each lowered by `amount`.
pub fn burn(
    program_id: &Key,
    accounts: &Vec<AccountMeta>,
    account: Result<TokenAccount, ProgError>,
    mint: Result<TokenState, ProgError>,
    amount: u64,
) -> (r: Result<(TokenAccount, TokenState), ProgError>)
    requires
        burn_allowed(*program_id, accounts@, account, mint, amount) ==> mint->Ok_0.total_supply >= amount,
    ensures
        burn_allowed(*program_id, accounts@, account, mint, amount) <==> r is Ok,
        r matches Ok(p) ==> p.0 == (TokenAccount { balance: (account->Ok_0.balance - amount) as u64, ..account->Ok_0 })
            && p.1 == (TokenState { total_supply: (mint->Ok_0.total_supply - amount) as u64, ..mint->Ok_0 }),
        accounts@.len() < 3 ==> r == Err::<(TokenAccount, TokenState), ProgError>(ProgError::NotEnoughAccountKeys),
        accounts@.len() >= 3 && (accounts@[0].owner != *program_id || accounts@[1].owner != *program_id)
            ==> r == Err::<(TokenAccount, TokenState), ProgError>(ProgError::IncorrectProgramId),
        accounts@.len() >= 3 && accounts@[0].owner == *program_id && accounts@[1].owner == *program_id
            ==> match (account, mint) {
            (Err(e), _) => r == Err::<(TokenAccount, TokenState), ProgError>(e),
            (Ok(_), Err(e)) => r == Err::<(TokenAccount, TokenState), ProgError>(e),
            (Ok(a), Ok(_)) => if !accounts@[2].is_signer || a.owner != accounts@[2].key {
                r == Err::<(TokenAccount, TokenState), ProgError>(ProgError::MissingRequiredSignature)
            } else if a.balance < amount {
                r == Err::<(TokenAccount, TokenState), ProgError>(ProgError::InsufficientFunds)
            } else {
                r is Ok
            },
        },
{
    if accounts.len() < 3 {
        return Err(ProgError::NotEnoughAccountKeys);
    }
    let burn_account = accounts[0];
    let mint_account = accounts[1];
    let authority = accounts[2];
    if !key_eq(&burn_account.owner, program_id) || !key_eq(&mint_account.owner, program_id) {
        return Err(ProgError::IncorrectProgramId);
    }
    let mut token_account_data = match account {
        Ok(a) => a,
        Err(e) => return Err(e),
    };
    let mut token_state = match mint {
        Ok(m) => m,
        Err(e) => return Err(e),
    };
    if !authority.is_signer || !key_eq(&token_account_data.owner, &authority.key) {
        return Err(ProgError::MissingRequiredSignature);
    }
    if token_account_data.balance < amount {
        return Err(ProgError::InsufficientFunds);
    }
    token_account_data.balance = token_account_data.balance - amount;
    token_state.total_supply = token_state.total_supply - amount;
    Ok((token_account_data, token_state))
}

/// A transfer between two different accounts moves tokens without making
/// or destroying any: the two balances it yields add up to the two it was
/// given. (Between an account and itself, storing the yielded states
/// leaves the destination's, so the balance grows by the amount.)
pub proof fn lemma_transfer_conserves(
    source: TokenAccount,
    dest: TokenAccount,
    new_source: TokenAccount,
    new_dest: TokenAccount,
    amount: u64,
)
    requires
        source.balance >= amount,
        new_source == (TokenAccount { balance: (source.balance - amount) as u64, ..source }),
        new_dest == (TokenAccount { balance: (dest.balance + amount) as u64, ..dest }),
        dest.balance + amount <= u64::MAX,
    ensures
        new_source.balance + new_dest.balance == source.balance + dest.balance,
        new_source.owner == source.owner && new_dest.owner == dest.owner,
{
}

/// A burn lowers the holder's balance and the total supply by the same
/// amount, so the supply keeps covering what was burned from.
pub proof fn lemma_burn_matches_supply(
    account: TokenAccount,
    mint: TokenState,
    new_account: TokenAccount,
    new_mint: TokenState,
    amount: u64,
)
    requires
        account.balance >= amount,
        mint.total_supply >= amount,
        new_account == (TokenAccount { balance: (account.balance - amount) as u64, ..account }),
        new_mint == (TokenState { total_supply: (mint.total_supply - amount) as u64, ..mint }),
    ensures
        mint.total_supply - new_mint.total_supply == account.balance - new_account.balance,
        account.balance <= mint.total_supply ==> new_account.balance <= new_mint.total_supply,
{
}

} // verus!
