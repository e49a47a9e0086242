//! A fixed-price sale of tokens of the NFT program: listing puts the token
//! in escrow under a program-derived address; buying pays the seller and
//! hands the token to the buyer.
use vstd::prelude::*;
use vstd::bytes::{spec_u64_to_le_bytes, u64_to_le_bytes};
use crate::nft::NFTState;
use crate::onchain::{
    check_pda, key_eq, pda_of, seeds_view, two_seeds, AccountMeta, Key, ProgError, Transfer,
};

verus! {

/// An open or closed sale.
#[derive(Clone, Copy, Debug)]
pub struct SaleState {
    pub nft_account: Key,
    pub seller: Key,
    pub price: u64,
    pub active: bool,
}

/// The instructions of the program.
#[derive(Clone, Copy, Debug)]
pub enum SaleInstruction {
    ListNFT { token_id: u64, price: u64 },
    BuyNFT,
}

/// The seed tag of sale escrow addresses: `sale`.
pub open spec fn sale_tag() -> Seq<u8> {
    seq![0x73u8, 0x61u8, 0x6cu8, 0x65u8]
}

fn sale_tag_bytes() -> (t: [u8; 4])
    ensures
        t@ == sale_tag(),
{
    let t = [0x73u8, 0x61u8, 0x6cu8, 0x65u8];
    assert(t@ =~= sale_tag());
    t
}

/// `ListNFT` with accounts `[token account, seller, sale account, escrow,
/// system program]`; `rent_exempt` is the rent check of the sale account
/// and `nft` the decoded token. The seller signs, both data accounts belong
/// to the program, the escrow is the address derived from `sale` and the
/// token id, and the seller owns that token. Yields the open sale and the
/// token, now owned by the escrow.
pub fn list_nft(
    program_id: &Key,
    accounts: &Vec<AccountMeta>,
    rent_exempt: Result<bool, ProgError>,
    nft: Result<NFTState, ProgError>,
    token_id: u64,
    price: u64,
) -> (r: Result<(SaleState, NFTState), ProgError>)
    ensures
        match r {
            Ok(p) => {
                &&& accounts@.len() >= 5
                &&& accounts@[1].is_signer
                &&& accounts@[0].owner == *program_id && accounts@[2].owner == *program_id
                &&& pda_of(seq![sale_tag(), spec_u64_to_le_bytes(token_id)], *program_id) == Ok::<
                    Seq<u8>,
                    ProgError,
                >(accounts@[3].key@)
                &&& rent_exempt == Ok::<bool, ProgError>(true)
                &&& nft is Ok && nft->Ok_0.token_id == token_id && nft->Ok_0.owner == accounts@[1].key
                &&& p.0 == (SaleState {
                    nft_account: accounts@[0].key,
                    seller: accounts@[1].key,
                    price,
                    active: true,
                })
                &&& p.1.owner == accounts@[3].key && p.1.token_id == token_id
                    && p.1.metadata_uri@ == nft->Ok_0.metadata_uri@
            },
            Err(e) => if accounts@.len() < 5 {
                e == ProgError::NotEnoughAccountKeys
            } else if !accounts@[1].is_signer {
                e == ProgError::MissingRequiredSignature
            } else if accounts@[0].owner != *program_id || accounts@[2].owner != *program_id {
                e == ProgError::IncorrectProgramId
            } else {
                match pda_of(seq![sale_tag(), spec_u64_to_le_bytes(token_id)], *program_id) {
                    Err(e0) => e == e0,
                    Ok(k) => if k != accounts@[3].key@ {
                        e == ProgError::InvalidAccountData
                    } else {
                        match rent_exempt {
                            Err(e0) => e == e0,
                            Ok(x) => if !x {
                                e == ProgError::AccountNotRentExempt
                            } else {
                                match nft {
                                    Err(e0) => e == e0,
                                    Ok(s) => (s.token_id != token_id || s.owner != accounts@[1].key)
                                        && e == ProgError::InvalidAccountData,
                                }
                            },
                        }
                    },
                }
            },
        },
{
    if accounts.len() < 5 {
        return Err(ProgError::NotEnoughAccountKeys);
    }
    let nft_account = accounts[0];
    let seller = accounts[1];
    let sale_account = accounts[2];
    let pda = accounts[3];
    if !seller.is_signer {
        return Err(ProgError::MissingRequiredSignature);
    }
    if !key_eq(&nft_account.owner, program_id) || !key_eq(&sale_account.owner, program_id) {
        return Err(ProgError::IncorrectProgramId);
    }
    let tag = sale_tag_bytes();
    let id_bytes = u64_to_le_bytes(token_id);
    let seeds = two_seeds(tag.as_slice(), id_bytes.as_slice());
    match check_pda(&seeds, program_id, &pda.key) {
        Ok(()) => {},
        Err(e) => return Err(e),
    }
    match rent_exempt {
        Err(e) => return Err(e),
        Ok(exempt) => {
            if !exempt {
                return Err(ProgError::AccountNotRentExempt);
            }
        },
    }
    let mut nft_state = match nft {
        Ok(s) => s,
        Err(e) => return Err(e),
    };
    if nft_state.token_id != token_id || !key_eq(&nft_state.owner, &seller.key) {
        return Err(ProgError::InvalidAccountData);
    }
    let sale_state = SaleState { nft_account: nft_account.key, seller: seller.key, price, active: true };
    nft_state.owner = pda.key;
    Ok((sale_state, nft_state))
}

/// The checks of `BuyNFT` with accounts `[token account, buyer, sale
/// account, escrow, seller, system program]`; `sale` is the decoded sale.
/// The buyer signs, both data accounts belong to the program, the sale is
/// open and for this token, the escrow is derived from `sale` and the
/// token account's key, and the buyer can pay. Yields the payment to the
/// seller account and the closed sale.
pub fn buy_nft(
    program_id: &Key,
    accounts: &Vec<AccountMeta>,
    sale: Result<SaleState, ProgError>,
) -> (r: Result<(Transfer, SaleState), ProgError>)
    ensures
        match r {
            Ok(p) => {
                &&& accounts@.len() >= 6
                &&& accounts@[1].is_signer
                &&& accounts@[0].owner == *program_id && accounts@[2].owner == *program_id
                &&& sale is Ok && sale->Ok_0.active && sale->Ok_0.nft_account == accounts@[0].key
                &&& pda_of(seq![sale_tag(), sale->Ok_0.nft_account@], *program_id) == Ok::<
                    Seq<u8>,
                    ProgError,
                >(accounts@[3].key@)
                &&& accounts@[1].lamports >= sale->Ok_0.price
                &&& p.0 == (Transfer {
                    from: accounts@[1].key,
                    to: accounts@[4].key,
                    amount: sale->Ok_0.price,
                })
                &&& p.1 == (SaleState { active: false, ..sale->Ok_0 })
            },
            Err(e) => if accounts@.len() < 6 {
                e == ProgError::NotEnoughAccountKeys
            } else if !accounts@[1].is_signer {
                e == ProgError::MissingRequiredSignature
            } else if accounts@[0].owner != *program_id || accounts@[2].owner != *program_id {
                e == ProgError::IncorrectProgramId
            } else {
                match sale {
                    Err(e0) => e == e0,
                    Ok(s) => if !s.active || s.nft_account != accounts@[0].key {
                        e == ProgError::InvalidAccountData
                    } else {
                        match pda_of(seq![sale_tag(), s.nft_account@], *program_id) {
                            Err(e0) => e == e0,
                            Ok(k) => if k != accounts@[3].key@ {
                                e == ProgError::InvalidAccountData
                            } else {
                                accounts@[1].lamports < s.price && e == ProgError::InsufficientFunds
                            },
                        }
                    },
                }
            },
        },
{
    if accounts.len() < 6 {
        return Err(ProgError::NotEnoughAccountKeys);
    }
    let nft_account = accounts[0];
    let buyer = accounts[1];
    let sale_account = accounts[2];
    let pda = accounts[3];
    let seller = accounts[4];
    if !buyer.is_signer {
        return Err(ProgError::MissingRequiredSignature);
    }
    if !key_eq(&nft_account.owner, program_id) || !key_eq(&sale_account.owner, program_id) {
        return Err(ProgError::IncorrectProgramId);
    }
    let mut sale_state = match sale {
        Ok(s) => s,
        Err(e) => return Err(e),
    };
    if !sale_state.active || !key_eq(&sale_state.nft_account, &nft_account.key) {
        return Err(ProgError::InvalidAccountData);
    }
    let tag = sale_tag_bytes();
    let seeds = two_seeds(tag.as_slice(), sale_state.nft_account.as_slice());
    match check_pda(&seeds, program_id, &pda.key) {
        Ok(()) => {},
        Err(e) => return Err(e),
    }
    if buyer.lamports < sale_state.price {
        return Err(ProgError::InsufficientFunds);
    }
    let payment = Transfer { from: buyer.key, to: seller.key, amount: sale_state.price };
    sale_state.active = false;
    Ok((payment, sale_state))
}

/// The last step of `BuyNFT`, once the payment went through: the decoded
/// token now belongs to the buyer.
pub fn hand_over(nft: Result<NFTState, ProgError>, buyer: Key) -> (r: Result<NFTState, ProgError>)
    ensures
        match nft {
            Err(e) => r == Err::<NFTState, ProgError>(e),
            Ok(s) => r matches Ok(t) && t.owner == buyer && t.token_id == s.token_id
                && t.metadata_uri@ == s.metadata_uri@,
        },
{
    match nft {
        Err(e) => Err(e),
        Ok(mut s) => {
            s.owner = buyer;
            Ok(s)
        },
    }
}

} // verus!
