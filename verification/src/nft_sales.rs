//! The NFT marketplace program (written for Anchor): minting a token into
//! a fresh account, listing it for a price, and buying it. Account
//! creation, signer checks and the payment itself are the framework's;
//! what each instruction decides and stores is here.
use vstd::prelude::*;
use crate::onchain::Key;
use crate::text::utf8;

verus! {

/// A minted token.
#[derive(Debug)]
pub struct NFTState {
    pub token_id: u64,
    pub owner: Key,
    pub metadata_uri: String,
}

impl NFTState {
    /// The longest metadata URI, in bytes.
    pub const MAX_METADATA_URI_LEN: usize = 100;
    /// The space an account of this type takes: discriminator, id, owner,
    /// and the URI with its length.
    pub const LEN: usize = 8 + 8 + 32 + 4 + 100;
}

/// A sale of a token for a price.
#[derive(Clone, Copy, Debug)]
pub struct SaleState {
    pub nft_account: Key,
    pub seller: Key,
    pub price: u64,
    pub active: bool,
}

impl SaleState {
    /// The space an account of this type takes.
    pub const LEN: usize = 8 + 32 + 32 + 8 + 1;
}

/// Why an instruction of the program fails.
#[derive(Clone, Copy, Debug, PartialEq, Eq, Structural)]
pub enum ErrorCode {
    SaleInactive,
    InvalidNFT,
    NotOwner,
    MetadataUriTooLong,
}

impl ErrorCode {
    /// The message each error is reported with.
    pub fn message(&self) -> (m: &'static str)
        ensures
            m@ == match *self {
                ErrorCode::SaleInactive => "The sale is not active"@,
                ErrorCode::InvalidNFT => "Invalid NFT account for this sale"@,
                ErrorCode::NotOwner => "Seller is not the owner of the NFT"@,
                ErrorCode::MetadataUriTooLong => "Metadata URI exceeds maximum length"@,
            },
    {
        match self {
            ErrorCode::SaleInactive => "The sale is not active",
            ErrorCode::InvalidNFT => "Invalid NFT account for this sale",
            ErrorCode::NotOwner => "Seller is not the owner of the NFT",
            ErrorCode::MetadataUriTooLong => "Metadata URI exceeds maximum length",
        }
    }
}

/// The length in bytes of a string, as `str::len` reports it.
pub open spec fn byte_len(s: Seq<char>) -> usize {
    utf8(s).len() as usize
}

/// Records the token `token_id`, owned by the minter, in the new account
/// `nft`; a URI longer than 100 bytes is refused and leaves `nft` as it
/// was.
pub fn mint_nft(nft: &mut NFTState, minter: Key, token_id: u64, metadata_uri: String) -> (r: Result<(), ErrorCode>)
    ensures
        r is Err <==> byte_len(metadata_uri@) > NFTState::MAX_METADATA_URI_LEN,
        r matches Err(e) ==> e == ErrorCode::MetadataUriTooLong && *final(nft) == *old(nft),
        r is Ok ==> final(nft).token_id == token_id && final(nft).owner == minter && final(nft).metadata_uri@
            == metadata_uri@,
{
    if metadata_uri.as_str().len() > NFTState::MAX_METADATA_URI_LEN {
        return Err(ErrorCode::MetadataUriTooLong);
    }
    nft.token_id = token_id;
    nft.owner = minter;
    nft.metadata_uri = metadata_uri;
    Ok(())
}

/// Opens a sale of the token in account `nft_key` at `price` in the new
/// account `sale`; only the token's owner may list it.
pub fn list_nft(nft: &NFTState, nft_key: Key, sale: &mut SaleState, seller: Key, price: u64) -> (r: Result<(), ErrorCode>)
    ensures
        r is Err <==> nft.owner != seller,
        r matches Err(e) ==> e == ErrorCode::NotOwner && *final(sale) == *old(sale),
        r is Ok ==> *final(sale) == (SaleState { nft_account: nft_key, seller, price, active: true }),
{
    if !crate::onchain::key_eq(&nft.owner, &seller) {
        return Err(ErrorCode::NotOwner);
    }
    sale.nft_account = nft_key;
    sale.seller = seller;
    sale.price = price;
    sale.active = true;
    Ok(())
}

/// Buys the token in account `nft_key` from an open sale for it: the
/// token goes to the buyer and the sale closes. Returns the price the
/// buyer pays the seller; the payment is made by the caller, and the
/// instruction fails as a whole if it does not go through.
pub fn buy_nft(sale: &mut SaleState, nft: &mut NFTState, nft_key: Key, buyer: Key) -> (r: Result<u64, ErrorCode>)
    ensures
        !old(sale).active ==> r == Err::<u64, ErrorCode>(ErrorCode::SaleInactive),
        old(sale).active && old(sale).nft_account != nft_key ==> r == Err::<u64, ErrorCode>(ErrorCode::InvalidNFT),
        r is Err ==> *final(sale) == *old(sale) && *final(nft) == *old(nft),
        old(sale).active && old(sale).nft_account == nft_key ==> {
            &&& r == Ok::<u64, ErrorCode>(old(sale).price)
            &&& *final(sale) == (SaleState { active: false, ..*old(sale) })
            &&& final(nft).owner == buyer && final(nft).token_id == old(nft).token_id
            &&& final(nft).metadata_uri == old(nft).metadata_uri
        },
{
    if !sale.active {
        return Err(ErrorCode::SaleInactive);
    }
    if !crate::onchain::key_eq(&sale.nft_account, &nft_key) {
        return Err(ErrorCode::InvalidNFT);
    }
    let price = sale.price;
    nft.owner = buyer;
    sale.active = false;
    Ok(price)
}

/// A token is sold once: after a purchase the sale is closed, so buying
/// again fails with `SaleInactive`, and the price paid is the price listed.
pub proof fn lemma_sold_once(listed: SaleState, after: SaleState, price: u64)
    requires
        listed.active,
        after == (SaleState { active: false, ..listed }),
        price == listed.price,
    ensures
        !after.active,
        after.price == listed.price && after.seller == listed.seller && after.nft_account == listed.nft_account,
{
}

} // verus!
