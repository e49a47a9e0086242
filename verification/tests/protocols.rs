use chainlab::auction::{close_auction, place_bid, start_auction, AuctionState};
use chainlab::enumdemos::{value_of_coin, Coin, UsState};
use chainlab::ft::{self, TokenAccount, TokenState};
use chainlab::mpc::{mpc_compare, shamir_reconstruct, shamir_split, shares_from_coeffs};
use chainlab::multisig::{create_multisig_address, redeem_script, try_create_multisig_address, Net};
use chainlab::nft::{self, NFTState};
use chainlab::nft_sales::{self, ErrorCode};
use chainlab::onchain::{check_pda, key_eq, two_seeds, AccountMeta, Key, ProgError, Transfer};
use chainlab::ring_sig::{generate_keypair, generate_ring_signature, signer_ring, verify_ring_signature};
use chainlab::sales::{buy_nft, hand_over, list_nft, SaleState};
use chainlab::stake::{record_stake, stake, unstake, StakeState};
use chainlab::structdemos::Rect;
use chainlab::traitdemo::returns_summarizable;
use chainlab::traitdemos::Point;
use ring::rand::SystemRandom;
use ring::signature::{EcdsaKeyPair, KeyPair, ECDSA_P256_SHA256_ASN1_SIGNING};
use solana_program::pubkey::Pubkey;
use std::cmp::Ordering;

const PROGRAM: Key = [7u8; 32];

fn acct(key: u8, owner: Key, is_signer: bool, lamports: u64) -> AccountMeta {
    AccountMeta { key: [key; 32], owner, is_signer, lamports }
}

fn pda(tag: &[u8], value: &[u8]) -> Key {
    Pubkey::find_program_address(&[tag, value], &Pubkey::new_from_array(PROGRAM)).0.to_bytes()
}

#[test]
fn shares_are_polynomial_values() {
    assert_eq!(shares_from_coeffs(&vec![1000, 3], 2), vec![1003, 1006]);
    assert_eq!(shares_from_coeffs(&vec![10, 2, 1], 3), vec![13, 18, 25]);
    assert_eq!(shares_from_coeffs(&vec![5], 3), vec![5, 5, 5]);
}

#[test]
fn lagrange_reconstruction_at_zero() {
    assert_eq!(shamir_reconstruct(vec![1003, 1006], vec![1, 2]), 1000);
    assert_eq!(shamir_reconstruct(vec![13, 18, 25], vec![1, 2, 3]), 10);
    assert_eq!(shamir_reconstruct(vec![1006, 1003], vec![1, 2]), 1009);
}

#[test]
fn two_of_two_split_round_trips() {
    for secret in [-20, 0, 7, 1000, 123_456] {
        let shares = shamir_split(secret, 2, 2);
        assert_eq!(shares.len(), 2);
        let c = shares[1] - shares[0];
        assert!((-5..5).contains(&c));
        assert_eq!(shares[0], secret + c);
        assert_eq!(shamir_reconstruct(shares, vec![1, 2]), secret);
    }
}

#[test]
fn split_with_threshold_one_repeats_the_secret() {
    assert_eq!(shamir_split(42, 3, 1), vec![42, 42, 42]);
    assert_eq!(shamir_split(42, 2, 0), vec![42, 42]);
}

#[test]
fn three_shares_reconstruct_the_secret() {
    let shares = shares_from_coeffs(&vec![42, 3, -2], 3);
    assert_eq!(shares, vec![43, 40, 33]);
    assert_eq!(shamir_reconstruct(shares, vec![1, 2, 3]), 42);
    for _ in 0..20 {
        let shares = shamir_split(-17, 3, 3);
        assert_eq!(shamir_reconstruct(shares, vec![1, 2, 3]), -17);
    }
}

#[test]
fn first_four_of_five_shares_reconstruct_the_secret() {
    for _ in 0..20 {
        let shares = shamir_split(100, 5, 4);
        assert_eq!(shares.len(), 5);
        assert_eq!(shamir_reconstruct(shares[..4].to_vec(), vec![1, 2, 3, 4]), 100);
    }
}

#[test]
fn comparison_of_far_apart_wealth() {
    assert_eq!(mpc_compare(1000, 1500), Ordering::Less);
    assert_eq!(mpc_compare(1500, 1000), Ordering::Greater);
}

#[test]
fn comparison_of_close_and_equal_wealth() {
    for _ in 0..20 {
        assert_eq!(mpc_compare(1000, 1001), Ordering::Less);
        assert_eq!(mpc_compare(1001, 1000), Ordering::Greater);
        assert_eq!(mpc_compare(7, 7), Ordering::Equal);
    }
}

#[test]
fn generated_keypair_signs_for_its_own_ring() {
    let rng = SystemRandom::new();
    let keypair = generate_keypair(&rng).unwrap();
    let ring = signer_ring(&keypair);
    assert_eq!(ring.len(), 1);
    assert_eq!(ring[0], keypair.public_key().as_ref().to_vec());
    let sig = generate_ring_signature(&keypair, &ring, b"Test transaction", &rng).unwrap();
    assert!(verify_ring_signature(&sig, b"Test transaction"));
    assert!(!verify_ring_signature(&sig, b"another message"));
}

#[test]
fn ring_signature_verifies_with_the_signers_key() {
    let rng = SystemRandom::new();
    let pkcs8 = EcdsaKeyPair::generate_pkcs8(&ECDSA_P256_SHA256_ASN1_SIGNING, &rng).unwrap();
    let keypair = EcdsaKeyPair::from_pkcs8(&ECDSA_P256_SHA256_ASN1_SIGNING, pkcs8.as_ref(), &rng).unwrap();
    let other_pkcs8 = EcdsaKeyPair::generate_pkcs8(&ECDSA_P256_SHA256_ASN1_SIGNING, &rng).unwrap();
    let other = EcdsaKeyPair::from_pkcs8(&ECDSA_P256_SHA256_ASN1_SIGNING, other_pkcs8.as_ref(), &rng).unwrap();
    let mine = keypair.public_key().as_ref().to_vec();
    let theirs = other.public_key().as_ref().to_vec();
    let message = b"Test transaction";
    let sig = generate_ring_signature(&keypair, &[mine.clone()], message, &rng).unwrap();
    assert_eq!(sig.pubkeys, vec![mine.clone()]);
    assert!(verify_ring_signature(&sig, message));
    assert!(!verify_ring_signature(&sig, b"Another transaction"));
    let foreign = generate_ring_signature(&keypair, &[theirs.clone()], message, &rng).unwrap();
    assert!(!verify_ring_signature(&foreign, message));
    let mixed = generate_ring_signature(&keypair, &[theirs, mine], message, &rng).unwrap();
    assert!(verify_ring_signature(&mixed, message));
}

fn bitcoin_keys() -> Vec<bitcoin::PublicKey> {
    let secp = secp256k1::Secp256k1::new();
    (1u8..=3)
        .map(|i| {
            let sk = secp256k1::SecretKey::from_slice(&[i; 32]).unwrap();
            bitcoin::PublicKey::new(secp256k1::PublicKey::from_secret_key(&secp, &sk))
        })
        .collect()
}

#[test]
fn multisig_script_and_address_match_the_builder() {
    let keys = bitcoin_keys();
    let mut builder = bitcoin::blockdata::script::Builder::new().push_int(2);
    for pk in &keys {
        builder = builder.push_key(pk);
    }
    let expected_script = builder
        .push_int(3)
        .push_opcode(bitcoin::blockdata::opcodes::all::OP_CHECKMULTISIG)
        .into_script();
    let expected_address = bitcoin::Address::p2sh(&expected_script, bitcoin::Network::Bitcoin).unwrap();
    let raw: Vec<Vec<u8>> = keys.iter().map(|k| k.to_bytes()).collect();
    let (address, script) = create_multisig_address(&raw, 2, Net::Bitcoin);
    assert_eq!(script, expected_script.to_bytes());
    assert_eq!(script.len(), 105);
    assert_eq!(script[0], 0x52);
    assert_eq!(script[104], 0xae);
    assert_eq!(address, expected_address.to_string());
    assert!(address.starts_with('3'));
}

#[test]
fn multisig_limits_and_large_counts() {
    let too_many: Vec<Vec<u8>> = (0..16u8).map(|i| vec![2; 33].into_iter().map(|b| b ^ i).collect()).collect();
    assert_eq!(try_create_multisig_address(&too_many, 2, Net::Testnet), None);
    let script = redeem_script(&vec![vec![2u8; 33]], 17);
    assert_eq!(&script[0..2], &[1, 17]);
    let script = redeem_script(&vec![vec![2u8; 33]], 200);
    assert_eq!(&script[0..3], &[2, 0xc8, 0x00]);
    let script = redeem_script(&vec![vec![2u8; 33]], 0x1234);
    assert_eq!(&script[0..3], &[2, 0x34, 0x12]);
    let some = try_create_multisig_address(&vec![vec![2u8; 33]], 1, Net::Regtest).unwrap();
    assert_eq!(some.1, redeem_script(&vec![vec![2u8; 33]], 1));
}

#[test]
fn keys_and_program_addresses() {
    assert!(key_eq(&[1; 32], &[1; 32]));
    assert!(!key_eq(&[1; 32], &[2; 32]));
    let seeds = two_seeds(b"sale", &5u64.to_le_bytes());
    assert_eq!(seeds, vec![b"sale".to_vec(), 5u64.to_le_bytes().to_vec()]);
    let escrow = pda(b"sale", &5u64.to_le_bytes());
    assert_eq!(check_pda(&seeds, &PROGRAM, &escrow), Ok(()));
    assert_eq!(check_pda(&seeds, &PROGRAM, &[9; 32]), Err(ProgError::InvalidAccountData));
}

#[test]
fn fungible_token_initialize() {
    let accounts = vec![acct(1, PROGRAM, false, 10), acct(2, [0; 32], true, 10), acct(3, PROGRAM, false, 10)];
    let (mint, holder) = ft::initialize(&PROGRAM, &accounts, Ok(true), 6, 1_000).unwrap();
    assert_eq!((mint.mint_authority, mint.total_supply, mint.decimals), ([2; 32], 1_000, 6));
    assert_eq!((holder.owner, holder.balance), ([2; 32], 1_000));
    assert_eq!(ft::initialize(&PROGRAM, &accounts, Ok(false), 6, 1).err(), Some(ProgError::AccountNotRentExempt));
    assert_eq!(ft::initialize(&PROGRAM, &accounts, Err(ProgError::Other(9)), 6, 1).err(), Some(ProgError::Other(9)));
    assert_eq!(ft::initialize(&PROGRAM, &accounts[..2].to_vec(), Ok(true), 6, 1).err(), Some(ProgError::NotEnoughAccountKeys));
    let foreign = vec![acct(1, [1; 32], false, 10), accounts[1], accounts[2]];
    assert_eq!(ft::initialize(&PROGRAM, &foreign, Ok(true), 6, 1).err(), Some(ProgError::IncorrectProgramId));
}

#[test]
fn fungible_token_transfer_moves_balance() {
    let accounts = vec![acct(1, PROGRAM, false, 0), acct(2, PROGRAM, false, 0), acct(9, [0; 32], true, 0)];
    let src = TokenAccount { owner: [9; 32], balance: 100 };
    let dst = TokenAccount { owner: [4; 32], balance: 5 };
    let (s, d) = ft::transfer(&PROGRAM, &accounts, Ok(src), Ok(dst), 30).unwrap();
    assert_eq!((s.balance, d.balance), (70, 35));
    assert_eq!(s.balance + d.balance, src.balance + dst.balance);
    assert_eq!(ft::transfer(&PROGRAM, &accounts, Ok(src), Ok(dst), 101).err(), Some(ProgError::InsufficientFunds));
    let unsigned = vec![accounts[0], accounts[1], acct(9, [0; 32], false, 0)];
    assert_eq!(ft::transfer(&PROGRAM, &unsigned, Ok(src), Ok(dst), 1).err(), Some(ProgError::MissingRequiredSignature));
    assert_eq!(ft::transfer(&PROGRAM, &accounts, Err(ProgError::Other(3)), Ok(dst), 1).err(), Some(ProgError::Other(3)));
}

#[test]
fn fungible_token_self_transfer_grows_the_balance() {
    let accounts = vec![acct(1, PROGRAM, false, 0), acct(1, PROGRAM, false, 0), acct(9, [0; 32], true, 0)];
    let same = TokenAccount { owner: [9; 32], balance: 100 };
    let (s, d) = ft::transfer(&PROGRAM, &accounts, Ok(same), Ok(same), 30).unwrap();
    assert_eq!(s.balance, 70);
    assert_eq!(d.balance, 130);
}

#[test]
fn fungible_token_burn_lowers_balance_and_supply() {
    let accounts = vec![acct(1, PROGRAM, false, 0), acct(2, PROGRAM, false, 0), acct(9, [0; 32], true, 0)];
    let holder = TokenAccount { owner: [9; 32], balance: 100 };
    let mint = TokenState { mint_authority: [9; 32], total_supply: 1_000, decimals: 2 };
    let (h, m) = ft::burn(&PROGRAM, &accounts, Ok(holder), Ok(mint), 40).unwrap();
    assert_eq!((h.balance, m.total_supply, m.decimals), (60, 960, 2));
    assert_eq!(ft::burn(&PROGRAM, &accounts, Ok(holder), Ok(mint), 101).err(), Some(ProgError::InsufficientFunds));
}

#[test]
fn nft_mint_transfer_and_read() {
    let accounts = vec![acct(1, PROGRAM, false, 0), acct(2, [0; 32], true, 0)];
    let token = nft::mint(&PROGRAM, &accounts, Ok(true), 5, "ipfs://x".to_string()).unwrap();
    assert_eq!((token.token_id, token.owner, token.metadata_uri.as_str()), (5, [2; 32], "ipfs://x"));
    let unsigned = vec![accounts[0], acct(2, [0; 32], false, 0)];
    assert_eq!(nft::mint(&PROGRAM, &unsigned, Ok(true), 5, String::new()).err(), Some(ProgError::MissingRequiredSignature));
    let moved = nft::transfer(&PROGRAM, &accounts, Ok(token), [8; 32]).unwrap();
    assert_eq!(moved.owner, [8; 32]);
    let stranger = vec![accounts[0], acct(3, [0; 32], true, 0)];
    assert_eq!(nft::transfer(&PROGRAM, &stranger, Ok(moved), [3; 32]).err(), Some(ProgError::InvalidAccountData));
    let read = nft::get_metadata(&PROGRAM, &vec![accounts[0]], Ok(NFTState { token_id: 1, owner: [1; 32], metadata_uri: "u".to_string() })).unwrap();
    assert_eq!(read.token_id, 1);
    assert_eq!(nft::get_metadata(&[1; 32], &vec![accounts[0]], Err(ProgError::Other(1))).err(), Some(ProgError::IncorrectProgramId));
}

#[test]
fn sale_list_then_buy() {
    let escrow = pda(b"sale", &5u64.to_le_bytes());
    let accounts = vec![
        acct(1, PROGRAM, false, 0),
        acct(2, [0; 32], true, 0),
        acct(3, PROGRAM, false, 0),
        AccountMeta { key: escrow, owner: [0; 32], is_signer: false, lamports: 0 },
        acct(0, [0; 32], false, 0),
    ];
    let token = NFTState { token_id: 5, owner: [2; 32], metadata_uri: "u".to_string() };
    let (sale, held) = list_nft(&PROGRAM, &accounts, Ok(true), Ok(token), 5, 700).unwrap();
    assert_eq!((sale.nft_account, sale.seller, sale.price, sale.active), ([1; 32], [2; 32], 700, true));
    assert_eq!(held.owner, escrow);
    let not_owner = NFTState { token_id: 5, owner: [6; 32], metadata_uri: String::new() };
    assert_eq!(list_nft(&PROGRAM, &accounts, Ok(true), Ok(not_owner), 5, 700).err(), Some(ProgError::InvalidAccountData));
    let buy_escrow = pda(b"sale", &[1; 32]);
    let buyers = vec![
        acct(1, PROGRAM, false, 0),
        acct(4, [0; 32], true, 1_000),
        acct(3, PROGRAM, false, 0),
        AccountMeta { key: buy_escrow, owner: [0; 32], is_signer: false, lamports: 0 },
        acct(2, [0; 32], false, 0),
        acct(0, [0; 32], false, 0),
    ];
    let (payment, closed) = buy_nft(&PROGRAM, &buyers, Ok(sale)).unwrap();
    assert_eq!((payment.from, payment.to, payment.amount), ([4; 32], [2; 32], 700));
    assert!(!closed.active);
    assert_eq!(buy_nft(&PROGRAM, &buyers, Ok(closed)).err(), Some(ProgError::InvalidAccountData));
    let poor = vec![buyers[0], acct(4, [0; 32], true, 10), buyers[2], buyers[3], buyers[4], buyers[5]];
    assert_eq!(buy_nft(&PROGRAM, &poor, Ok(sale)).err(), Some(ProgError::InsufficientFunds));
    let bought = hand_over(Ok(held), [4; 32]).unwrap();
    assert_eq!(bought.owner, [4; 32]);
    let unused = SaleState { nft_account: [0; 32], seller: [0; 32], price: 0, active: false };
    assert!(!unused.active);
}

fn auction_accounts(escrow: Key, bidder_lamports: u64) -> Vec<AccountMeta> {
    vec![
        acct(1, PROGRAM, false, 0),
        acct(2, [0; 32], true, bidder_lamports),
        acct(3, PROGRAM, false, 0),
        AccountMeta { key: escrow, owner: [0; 32], is_signer: false, lamports: 0 },
        acct(5, [0; 32], false, 0),
        acct(0, [0; 32], false, 0),
    ]
}

#[test]
fn auction_start_bid_and_close() {
    let start_escrow = pda(b"auction", &[1; 32]);
    let by_token_id = pda(b"auction", &9u64.to_le_bytes());
    let token = NFTState { token_id: 9, owner: [2; 32], metadata_uri: "m".to_string() };
    assert_eq!(
        start_auction(&PROGRAM, &auction_accounts(by_token_id, 0), Ok(true), Ok(token), Ok(1_000), 9, 50, 600).err(),
        Some(ProgError::InvalidAccountData)
    );
    let token = NFTState { token_id: 9, owner: [2; 32], metadata_uri: "m".to_string() };
    let (auction, held) =
        start_auction(&PROGRAM, &auction_accounts(start_escrow, 0), Ok(true), Ok(token), Ok(1_000), 9, 50, 600)
            .unwrap();
    assert_eq!((auction.highest_bid, auction.highest_bidder, auction.end_time, auction.active), (50, [0; 32], 1_600, true));
    assert_eq!(held.owner, start_escrow);

    let escrow = pda(b"auction", &[1; 32]);
    assert_eq!(escrow, held.owner);
    let accounts = auction_accounts(escrow, 0);
    assert_eq!(place_bid(&PROGRAM, &accounts, Ok(auction), Ok(1_100), 50).err(), Some(ProgError::Custom(1)));
    assert_eq!(place_bid(&PROGRAM, &accounts, Ok(auction), Ok(1_601), 60).err(), Some(ProgError::InvalidAccountData));
    let (refund, pay, first) = place_bid(&PROGRAM, &accounts, Ok(auction), Ok(1_100), 60).unwrap();
    assert!(refund.is_none());
    assert_eq!((pay.from, pay.to, pay.amount), ([2; 32], escrow, 60));
    assert_eq!((first.highest_bid, first.highest_bidder), (60, [2; 32]));
    let second_bidder = vec![accounts[0], acct(6, [0; 32], true, 0), accounts[2], accounts[3], accounts[4], accounts[5]];
    let (refund, _, second) = place_bid(&PROGRAM, &second_bidder, Ok(first), Ok(1_200), 75).unwrap();
    let refund: Transfer = refund.unwrap();
    assert_eq!((refund.from, refund.to, refund.amount), (escrow, [2; 32], 60));
    assert!(second.highest_bid > first.highest_bid);

    let token = NFTState { token_id: 9, owner: escrow, metadata_uri: "m".to_string() };
    assert_eq!(
        close_auction(&PROGRAM, &accounts, Ok(second), Ok(1_500), Ok(NFTState { token_id: 9, owner: escrow, metadata_uri: String::new() })).err(),
        Some(ProgError::InvalidAccountData)
    );
    let (payout, won, closed) = close_auction(&PROGRAM, &accounts, Ok(second), Ok(1_600), Ok(token)).unwrap();
    assert_eq!(payout.map(|t| (t.from, t.to, t.amount)), Some((escrow, [2; 32], 75)));
    assert_eq!(won.owner, [6; 32]);
    assert!(!closed.active);
}

#[test]
fn auction_without_bids_returns_the_token() {
    let escrow = pda(b"auction", &[1; 32]);
    let quiet = AuctionState {
        nft_account: [1; 32],
        seller: [2; 32],
        highest_bid: 50,
        highest_bidder: [0; 32],
        end_time: 10,
        active: true,
    };
    let token = NFTState { token_id: 9, owner: escrow, metadata_uri: String::new() };
    let (payout, back, closed) = close_auction(&PROGRAM, &auction_accounts(escrow, 0), Ok(quiet), Ok(11), Ok(token)).unwrap();
    assert!(payout.is_none());
    assert_eq!(back.owner, [2; 32]);
    assert!(!closed.active);
}

#[test]
fn staking_and_unstaking_with_reward() {
    let escrow = pda(b"stake", &[2; 32]);
    let accounts = vec![
        acct(2, [0; 32], true, 5_000_000),
        acct(3, PROGRAM, false, 0),
        AccountMeta { key: escrow, owner: [0; 32], is_signer: false, lamports: 2_000_000 },
        acct(0, [0; 32], false, 0),
        acct(0, [0; 32], false, 0),
    ];
    let deposit = stake(&PROGRAM, &accounts, Ok(true), 1_000_000).unwrap();
    assert_eq!((deposit.from, deposit.to, deposit.amount), ([2; 32], escrow, 1_000_000));
    assert_eq!(stake(&PROGRAM, &accounts, Ok(true), 6_000_000).err(), Some(ProgError::InsufficientFunds));
    let fresh = record_stake(None, [2; 32], 1_000_000, Ok(0)).unwrap();
    assert_eq!((fresh.amount, fresh.start_time, fresh.reward_rate, fresh.active), (1_000_000, 0, 1_000, true));
    let more = record_stake(Some(Ok(fresh)), [2; 32], 10, Ok(5)).unwrap();
    assert_eq!((more.amount, more.start_time), (1_000_010, 5));
    let full = StakeState { user: [2; 32], amount: u64::MAX, start_time: 0, reward_rate: 1, active: true };
    assert_eq!(record_stake(Some(Ok(full)), [2; 32], 1, Ok(0)).err(), Some(ProgError::ArithmeticOverflow));
    let (payout, emptied) = unstake(&PROGRAM, &accounts, Ok(fresh), Ok(100)).unwrap();
    assert_eq!((payout.from, payout.to, payout.amount), (escrow, [2; 32], 1_100_000));
    assert_eq!((emptied.amount, emptied.active), (0, false));
    assert_eq!(unstake(&PROGRAM, &accounts, Ok(fresh), Ok(1_000_000)).err(), Some(ProgError::InsufficientFunds));
    assert_eq!(unstake(&PROGRAM, &accounts, Ok(emptied), Ok(100)).err(), Some(ProgError::InvalidAccountData));
    let (early, _) = unstake(&PROGRAM, &accounts, Ok(more), Ok(0)).unwrap();
    assert_eq!(early.amount, 1_000_010);
}

#[test]
fn anchor_marketplace_flow() {
    let mut token = nft_sales::NFTState { token_id: 0, owner: [0; 32], metadata_uri: String::new() };
    assert_eq!(nft_sales::mint_nft(&mut token, [2; 32], 3, "x".repeat(101)), Err(ErrorCode::MetadataUriTooLong));
    assert_eq!(token.token_id, 0);
    assert_eq!(nft_sales::mint_nft(&mut token, [2; 32], 3, "x".repeat(100)), Ok(()));
    assert_eq!((token.token_id, token.owner), (3, [2; 32]));
    let mut sale = nft_sales::SaleState { nft_account: [0; 32], seller: [0; 32], price: 0, active: false };
    assert_eq!(nft_sales::list_nft(&token, [1; 32], &mut sale, [5; 32], 10), Err(ErrorCode::NotOwner));
    assert_eq!(nft_sales::list_nft(&token, [1; 32], &mut sale, [2; 32], 10), Ok(()));
    assert!(sale.active);
    assert_eq!(nft_sales::buy_nft(&mut sale, &mut token, [9; 32], [4; 32]), Err(ErrorCode::InvalidNFT));
    assert_eq!(nft_sales::buy_nft(&mut sale, &mut token, [1; 32], [4; 32]), Ok(10));
    assert_eq!(token.owner, [4; 32]);
    assert_eq!(nft_sales::buy_nft(&mut sale, &mut token, [1; 32], [6; 32]), Err(ErrorCode::SaleInactive));
    assert_eq!(token.owner, [4; 32]);
    assert_eq!(ErrorCode::SaleInactive.message(), "The sale is not active");
    assert_eq!(nft_sales::NFTState::LEN, 152);
    assert_eq!(nft_sales::SaleState::LEN, 81);
}

#[test]
fn rectangles() {
    let big = Rect { width: 30, height: 50 };
    let small = Rect { width: 10, height: 40 };
    assert!(big.can_hold(&small));
    assert!(!small.can_hold(&big));
    assert!(big.width());
    assert_eq!(Rect { width: 30, height: 50 }.area(), 1500);
    let sq = Rect::square(3);
    assert_eq!((sq.width, sq.height), (3, 3));
}

#[test]
fn coins_points_and_tweets() {
    assert_eq!(value_of_coin(Coin::Penny), 1);
    assert_eq!(value_of_coin(Coin::Nickel), 5);
    assert_eq!(value_of_coin(Coin::Dime), 10);
    assert_eq!(value_of_coin(Coin::Quarter(UsState::Alaska)), 25);
    let p = Point { x: 5, y: "OK" };
    assert_eq!((*p.x(), *p.y()), (5, "OK"));
    let t = returns_summarizable();
    assert_eq!(t.username, "horse_ebooks");
    assert_eq!(t.content, "of course, as you probably already know, people");
    assert!(!t.reply && !t.retweet);
}
