//! An English auction of tokens of the NFT program: the token waits in
//! escrow under a program-derived address, each bid must beat the highest
//! one (whose bidder is refunded), and closing hands the token to the
//! winner and the winning bid to the seller, or the token back to the
//! seller when nobody bid.
use vstd::prelude::*;
use crate::nft::NFTState;
use crate::onchain::{
    check_pda, default_key, is_zero_key, key_eq, key_is_zero, pda_of, two_seeds, AccountMeta, Key,
    ProgError, Transfer,
};

verus! {

/// An auction: the token account, the seller, the highest bid and bidder
/// (the zero key while nobody has bid), the closing time and whether it is
/// still open.
#[derive(Clone, Copy, Debug)]
pub struct AuctionState {
    pub nft_account: Key,
    pub seller: Key,
    pub highest_bid: u64,
    pub highest_bidder: Key,
    pub end_time: i64,
    pub active: bool,
}

/// The instructions of the program.
#[derive(Clone, Copy, Debug)]
pub enum AuctionInstruction {
    StartAuction { token_id: u64, starting_bid: u64, duration: i64 },
    PlaceBid { bid_amount: u64 },
    CloseAuction,
}

/// The custom error of a bid that does not beat the highest one.
pub const BID_TOO_LOW: u32 = 1;

/// The seed tag of auction escrow addresses: `auction`.
pub open spec fn auction_tag() -> Seq<u8> {
    seq![0x61u8, 0x75u8, 0x63u8, 0x74u8, 0x69u8, 0x6fu8, 0x6eu8]
}

fn auction_tag_bytes() -> (t: [u8; 7])
    ensures
        t@ == auction_tag(),
{
    let t = [0x61u8, 0x75u8, 0x63u8, 0x74u8, 0x69u8, 0x6fu8, 0x6eu8];
    assert(t@ =~= auction_tag());
    t
}

/// Everything `StartAuction` checks holds: accounts `[token account,
/// seller, auction account, escrow, system program, clock]`, the seller
/// signed, both data accounts belong to the program, the escrow is derived
/// from `auction` and the token account's key (the escrow that bids and
/// closing use too), the auction account is rent exempt,
/// the token is this one and the seller's, and the clock could be read.
pub open spec fn start_allowed(
    program_id: Key,
    accounts: Seq<AccountMeta>,
    rent_exempt: Result<bool, ProgError>,
    nft: Result<NFTState, ProgError>,
    now: Result<i64, ProgError>,
    token_id: u64,
) -> bool {
    &&& accounts.len() >= 6
    &&& accounts[1].is_signer
    &&& accounts[0].owner == program_id && accounts[2].owner == program_id
    &&& pda_of(seq![auction_tag(), accounts[0].key@], program_id) == Ok::<Seq<u8>, ProgError>(
        accounts[3].key@,
    )
    &&& rent_exempt == Ok::<bool, ProgError>(true)
    &&& nft is Ok && nft->Ok_0.token_id == token_id && nft->Ok_0.owner == accounts[1].key
    &&& now is Ok
}

/// `StartAuction`: yields the open auction, ending `duration` seconds
/// after `now`, with the starting bid and no bidder, and the token, now
/// owned by the escrow. The error is the first failed check in the order
/// [`start_allowed`] lists them.
pub fn start_auction(
    program_id: &Key,
    accounts: &Vec<AccountMeta>,
    rent_exempt: Result<bool, ProgError>,
    nft: Result<NFTState, ProgError>,
    now: Result<i64, ProgError>,
    token_id: u64,
    starting_bid: u64,
    duration: i64,
) -> (r: Result<(AuctionState, NFTState), ProgError>)
    requires
        start_allowed(*program_id, accounts@, rent_exempt, nft, now, token_id) ==> i64::MIN <= now->Ok_0
            + duration <= i64::MAX,
    ensures
        r is Ok <==> start_allowed(*program_id, accounts@, rent_exempt, nft, now, token_id),
        r matches Ok(p) ==> {
            &&& p.0.nft_account == accounts@[0].key && p.0.seller == accounts@[1].key
            &&& p.0.highest_bid == starting_bid && is_zero_key(p.0.highest_bidder)
            &&& p.0.end_time == now->Ok_0 + duration && p.0.active
            &&& p.1.owner == accounts@[3].key && p.1.token_id == token_id
            &&& p.1.metadata_uri@ == nft->Ok_0.metadata_uri@
            &&& pda_of(seq![auction_tag(), p.0.nft_account@], *program_id) == Ok::<Seq<u8>, ProgError>(
                p.1.owner@,
            )
        },
        r matches Err(e) ==> if accounts@.len() < 6 {
            e == ProgError::NotEnoughAccountKeys
        } else if !accounts@[1].is_signer {
            e == ProgError::MissingRequiredSignature
        } else if accounts@[0].owner != *program_id || accounts@[2].owner != *program_id {
            e == ProgError::IncorrectProgramId
        } else {
            match pda_of(seq![auction_tag(), accounts@[0].key@], *program_id) {
                Err(e0) => e == e0,
                Ok(k) => if k != accounts@[3].key@ {
                    e == ProgError::InvalidAccountData
                } else {
                    match rent_exempt {
                        Err(e0) => e == e0,
                        Ok(x) => if !x {
                            e == ProgError::AccountNotRentExempt
                        } else {
                            match nft {
                                Err(e0) => e == e0,
                                Ok(s) => if s.token_id != token_id || s.owner != accounts@[1].key {
                                    e == ProgError::InvalidAccountData
                                } else {
                                    now matches Err(e0) && e == e0
                                },
                            }
                        },
                    }
                },
            }
        },
{
    if accounts.len() < 6 {
        return Err(ProgError::NotEnoughAccountKeys);
    }
    let nft_account = accounts[0];
    let seller = accounts[1];
    let auction_account = accounts[2];
    let pda = accounts[3];
    if !seller.is_signer {
        return Err(ProgError::MissingRequiredSignature);
    }
    if !key_eq(&nft_account.owner, program_id) || !key_eq(&auction_account.owner, program_id) {
        return Err(ProgError::IncorrectProgramId);
    }
    let tag = auction_tag_bytes();
    let seeds = two_seeds(tag.as_slice(), nft_account.key.as_slice());
    match check_pda(&seeds, program_id, &pda.key) {
        Ok(()) => {},
        Err(e) => return Err(e),
    }
    match rent_exempt {
        Err(e) => return Err(e),
        Ok(exempt) => {
            if !exempt {
                return Err(ProgError::AccountNotRentExempt);
            }
        },
    }
    let mut nft_state = match nft {
        Ok(s) => s,
        Err(e) => return Err(e),
    };
    if nft_state.token_id != token_id || !key_eq(&nft_state.owner, &seller.key) {
        return Err(ProgError::InvalidAccountData);
    }
    let t = match now {
        Ok(t) => t,
        Err(e) => return Err(e),
    };
    let auction_state = AuctionState {
        nft_account: nft_account.key,
        seller: seller.key,
        highest_bid: starting_bid,
        highest_bidder: default_key(),
        end_time: t + duration,
        active: true,
    };
    nft_state.owner = pda.key;
    Ok((auction_state, nft_state))
}

/// What a successful `PlaceBid` does: the previous highest bidder, if
/// any, is refunded from the escrow; the bid moves from the bidder to the
/// escrow; the bid and bidder become the highest.
pub open spec fn bid_effects(
    auction: AuctionState,
    escrow: Key,
    bidder: Key,
    bid_amount: u64,
    refund: Option<Transfer>,
    payment: Transfer,
    next: AuctionState,
) -> bool {
    &&& (if is_zero_key(auction.highest_bidder) {
        refund is None
    } else {
        refund == Some(Transfer { from: escrow, to: auction.highest_bidder, amount: auction.highest_bid })
    })
    &&& payment == (Transfer { from: bidder, to: escrow, amount: bid_amount })
    &&& next == (AuctionState { highest_bid: bid_amount, highest_bidder: bidder, ..auction })
}

/// `PlaceBid` with accounts `[token account, bidder, auction account,
/// escrow, previous bidder, system program]`; `auction` is the decoded
/// auction and `now` the clock. The bidder signs, the auction account
/// belongs to the program, the auction is open, for this token and not
/// over, the escrow is derived from `auction` and the token account's key,
/// and the bid beats the highest one (else custom error 1). Yields the
/// refund, the payment and the new auction state.
pub fn place_bid(
    program_id: &Key,
    accounts: &Vec<AccountMeta>,
    auction: Result<AuctionState, ProgError>,
    now: Result<i64, ProgError>,
    bid_amount: u64,
) -> (r: Result<(Option<Transfer>, Transfer, AuctionState), ProgError>)
    ensures
        match r {
            Ok(p) => {
                &&& accounts@.len() >= 6 && accounts@[1].is_signer && accounts@[2].owner == *program_id
                &&& auction is Ok && auction->Ok_0.active && auction->Ok_0.nft_account == accounts@[0].key
                &&& pda_of(seq![auction_tag(), auction->Ok_0.nft_account@], *program_id) == Ok::<
                    Seq<u8>,
                    ProgError,
                >(accounts@[3].key@)
                &&& now is Ok && now->Ok_0 <= auction->Ok_0.end_time
                &&& bid_amount > auction->Ok_0.highest_bid
                &&& bid_effects(auction->Ok_0, accounts@[3].key, accounts@[1].key, bid_amount, p.0, p.1, p.2)
            },
            Err(e) => if accounts@.len() < 6 {
                e == ProgError::NotEnoughAccountKeys
            } else if !accounts@[1].is_signer {
                e == ProgError::MissingRequiredSignature
            } else if accounts@[2].owner != *program_id {
                e == ProgError::IncorrectProgramId
            } else {
                match auction {
                    Err(e0) => e == e0,
                    Ok(a) => if !a.active || a.nft_account != accounts@[0].key {
                        e == ProgError::InvalidAccountData
                    } else {
                        match pda_of(seq![auction_tag(), a.nft_account@], *program_id) {
                            Err(e0) => e == e0,
                            Ok(k) => if k != accounts@[3].key@ {
                                e == ProgError::InvalidAccountData
                            } else {
                                match now {
                                    Err(e0) => e == e0,
                                    Ok(t) => if t > a.end_time {
                                        e == ProgError::InvalidAccountData
                                    } else {
                                        bid_amount <= a.highest_bid && e == ProgError::Custom(BID_TOO_LOW)
                                    },
                                }
                            },
                        }
                    },
                }
            },
        },
{
    if accounts.len() < 6 {
        return Err(ProgError::NotEnoughAccountKeys);
    }
    let nft_account = accounts[0];
    let bidder = accounts[1];
    let auction_account = accounts[2];
    let pda = accounts[3];
    if !bidder.is_signer {
        return Err(ProgError::MissingRequiredSignature);
    }
    if !key_eq(&auction_account.owner, program_id) {
        return Err(ProgError::IncorrectProgramId);
    }
    let mut auction_state = match auction {
        Ok(a) => a,
        Err(e) => return Err(e),
    };
    if !auction_state.active || !key_eq(&auction_state.nft_account, &nft_account.key) {
        return Err(ProgError::InvalidAccountData);
    }
    let tag = auction_tag_bytes();
    let seeds = two_seeds(tag.as_slice(), auction_state.nft_account.as_slice());
    match check_pda(&seeds, program_id, &pda.key) {
        Ok(()) => {},
        Err(e) => return Err(e),
    }
    let t = match now {
        Ok(t) => t,
        Err(e) => return Err(e),
    };
    if t > auction_state.end_time {
        return Err(ProgError::InvalidAccountData);
    }
    if bid_amount <= auction_state.highest_bid {
        return Err(ProgError::Custom(BID_TOO_LOW));
    }
    let refund = if !key_is_zero(&auction_state.highest_bidder) {
        Some(Transfer { from: pda.key, to: auction_state.highest_bidder, amount: auction_state.highest_bid })
    } else {
        None
    };
    let payment = Transfer { from: bidder.key, to: pda.key, amount: bid_amount };
    auction_state.highest_bid = bid_amount;
    auction_state.highest_bidder = bidder.key;
    Ok((refund, payment, auction_state))
}

/// `CloseAuction` with accounts `[token account, seller, auction account,
/// escrow, highest bidder, system program]`; `auction` and `nft` are the
/// decoded states and `now` the clock. The auction account belongs to the
/// program, the auction is open and for this token, the escrow is derived
/// from `auction` and the token account's key, and the auction has ended.
/// With a bidder, the token goes to the highest bidder and the highest bid
/// from the escrow to the seller; without one, the token goes back to the
/// seller. The auction closes.
pub fn close_auction(
    program_id: &Key,
    accounts: &Vec<AccountMeta>,
    auction: Result<AuctionState, ProgError>,
    now: Result<i64, ProgError>,
    nft: Result<NFTState, ProgError>,
) -> (r: Result<(Option<Transfer>, NFTState, AuctionState), ProgError>)
    ensures
        match r {
            Ok(p) => {
                &&& accounts@.len() >= 6 && accounts@[2].owner == *program_id
                &&& auction is Ok && auction->Ok_0.active && auction->Ok_0.nft_account == accounts@[0].key
                &&& pda_of(seq![auction_tag(), auction->Ok_0.nft_account@], *program_id) == Ok::<
                    Seq<u8>,
                    ProgError,
                >(accounts@[3].key@)
                &&& now is Ok && now->Ok_0 >= auction->Ok_0.end_time
                &&& nft is Ok && p.1.token_id == nft->Ok_0.token_id && p.1.metadata_uri@
                    == nft->Ok_0.metadata_uri@
                &&& (if is_zero_key(auction->Ok_0.highest_bidder) {
                    p.0 is None && p.1.owner == auction->Ok_0.seller
                } else {
                    p.0 == Some(Transfer {
                        from: accounts@[3].key,
                        to: auction->Ok_0.seller,
                        amount: auction->Ok_0.highest_bid,
                    }) && p.1.owner == auction->Ok_0.highest_bidder
                })
                &&& p.2 == (AuctionState { active: false, ..auction->Ok_0 })
            },
            Err(e) => if accounts@.len() < 6 {
                e == ProgError::NotEnoughAccountKeys
            } else if accounts@[2].owner != *program_id {
                e == ProgError::IncorrectProgramId
            } else {
                match auction {
                    Err(e0) => e == e0,
                    Ok(a) => if !a.active || a.nft_account != accounts@[0].key {
                        e == ProgError::InvalidAccountData
                    } else {
                        match pda_of(seq![auction_tag(), a.nft_account@], *program_id) {
                            Err(e0) => e == e0,
                            Ok(k) => if k != accounts@[3].key@ {
                                e == ProgError::InvalidAccountData
                            } else {
                                match now {
                                    Err(e0) => e == e0,
                                    Ok(t) => if t < a.end_time {
                                        e == ProgError::InvalidAccountData
                                    } else {
                                        nft matches Err(e0) && e == e0
                                    },
                                }
                            },
                        }
                    },
                }
            },
        },
{
    if accounts.len() < 6 {
        return Err(ProgError::NotEnoughAccountKeys);
    }
    let nft_account = accounts[0];
    let auction_account = accounts[2];
    let pda = accounts[3];
    if !key_eq(&auction_account.owner, program_id) {
        return Err(ProgError::IncorrectProgramId);
    }
    let mut auction_state = match auction {
        Ok(a) => a,
        Err(e) => return Err(e),
    };
    if !auction_state.active || !key_eq(&auction_state.nft_account, &nft_account.key) {
        return Err(ProgError::InvalidAccountData);
    }
    let tag = auction_tag_bytes();
    let seeds = two_seeds(tag.as_slice(), auction_state.nft_account.as_slice());
    match check_pda(&seeds, program_id, &pda.key) {
        Ok(()) => {},
        Err(e) => return Err(e),
    }
    let t = match now {
        Ok(t) => t,
        Err(e) => return Err(e),
    };
    if t < auction_state.end_time {
        return Err(ProgError::InvalidAccountData);
    }
    let mut nft_state = match nft {
        Ok(s) => s,
        Err(e) => return Err(e),
    };
    let payout = if !key_is_zero(&auction_state.highest_bidder) {
        nft_state.owner = auction_state.highest_bidder;
        Some(Transfer { from: pda.key, to: auction_state.seller, amount: auction_state.highest_bid })
    } else {
        nft_state.owner = auction_state.seller;
        None
    };
    auction_state.active = false;
    Ok((payout, nft_state, auction_state))
}

/// Bids only go up: after a successful bid the highest bid is the new one
/// and strictly above the one before, the auction's token, seller, end and
/// state are unchanged, and the outbid bidder gets exactly their bid back.
pub proof fn lemma_bids_increase(
    auction: AuctionState,
    escrow: Key,
    bidder: Key,
    bid_amount: u64,
    refund: Option<Transfer>,
    payment: Transfer,
    next: AuctionState,
)
    requires
        bid_amount > auction.highest_bid,
        bid_effects(auction, escrow, bidder, bid_amount, refund, payment, next),
    ensures
        next.highest_bid > auction.highest_bid,
        next.highest_bidder == bidder,
        next.nft_account == auction.nft_account && next.seller == auction.seller
            && next.end_time == auction.end_time && next.active == auction.active,
        refund matches Some(t) ==> t.to == auction.highest_bidder && t.amount == auction.highest_bid,
        payment.amount == next.highest_bid,
{
}

} // verus!
