use chainlab::imustchain::{Block as ImBlock, ProofOfWork};
use chainlab::pbft::{Block as PbftBlock, PbftSystem};
use chainlab::poh::{total_stake, slot_of, PoHSystem, Validator};
use chainlab::pos::{Block as PosBlock, PosSystem};
use chainlab::pow::{starts_with_zeros, Block as PowBlock};
use chainlab::testcodes::{Block, Blockchain, Transaction};
use rand::{Rng, SeedableRng};
use sha2::{Digest, Sha256};

fn sha_hex(text: &str) -> String {
    Sha256::digest(text.as_bytes()).iter().map(|b| format!("{:02x}", b)).collect()
}

fn hashed_tx(id: u64, data: &str, time: u64) -> Transaction {
    let mut tx = Transaction::new(id, data.to_string(), time);
    tx.tx_hash = tx.hash_cal();
    tx
}

#[test]
fn pow_block_mines_and_verifies() {
    let txs = vec!["Alice pays Bob 10".to_string(), "Bob pays Charlie 5".to_string()];
    let mut block = PowBlock::new("0000abcdef1234567890", txs, 2, 1_700_000_000);
    let hash = block.mine_block();
    assert!(hash.starts_with("00"));
    let text = format!("0000abcdef1234567890Alice pays Bob 10Bob pays Charlie 51700000000{}", block.nonce);
    assert_eq!(hash, sha_hex(&text));
    assert!(block.verify_block(&hash));
    assert!(!block.verify_block("00ff"));
    for n in 0..block.nonce {
        let t = format!("0000abcdef1234567890Alice pays Bob 10Bob pays Charlie 51700000000{}", n);
        assert!(!sha_hex(&t).starts_with("00"));
    }
}

#[test]
fn pow_difficulty_zero_accepts_the_first_nonce() {
    let mut block = PowBlock::new("", vec![], 0, 5);
    let hash = block.try_mine_block();
    assert_eq!(block.nonce, 0);
    assert_eq!(hash, Some(sha_hex("50")));
    assert!(block.is_valid_hash("abc"));
    assert_eq!(block.calculate_hash(), sha_hex("50"));
}

#[test]
fn zero_prefix_check() {
    assert!(starts_with_zeros("00ab", 2));
    assert!(!starts_with_zeros("0a0b", 2));
    assert!(!starts_with_zeros("0", 2));
    assert!(starts_with_zeros("", 0));
}

#[test]
fn transaction_hash_is_sha256_of_id_time_and_data() {
    let mut tx = Transaction::new(7, "Alice sent to Bob".to_string(), 1_700_000_000);
    assert_eq!(tx.tx_hash, "");
    let h = tx.hash_cal();
    assert_eq!(h, sha_hex("71700000000Alice sent to Bob"));
}

#[test]
fn merkle_root_of_none_one_and_three() {
    let empty = Block::new(0, String::new(), vec![], 1);
    assert_eq!(empty.calculate_merkle_root(), "");
    let one = Block::new(0, String::new(), vec![hashed_tx(1, "a", 1)], 1);
    assert_eq!(one.calculate_merkle_root(), one.trans_data[0].tx_hash);
    let txs = vec![hashed_tx(1, "a", 1), hashed_tx(2, "b", 1), hashed_tx(3, "c", 1)];
    let (a, b, c) = (txs[0].tx_hash.clone(), txs[1].tx_hash.clone(), txs[2].tx_hash.clone());
    let block = Block::new(1, String::new(), txs, 1);
    let ab = sha_hex(&format!("{}{}", a, b));
    let cc = sha_hex(&format!("{}{}", c, c));
    assert_eq!(block.calculate_merkle_root(), sha_hex(&format!("{}{}", ab, cc)));
}

#[test]
fn block_hash_covers_the_pretty_printed_transactions() {
    let txs = vec![hashed_tx(1, "x", 3)];
    let expected = sha_hex(&format!("{}{}{}{:#?}{}", 4, "prev", 9, &txs, 0));
    let mut block = Block::new(4, "prev".to_string(), txs, 9);
    assert_eq!(block.hash_cal(), expected);
}

#[test]
fn mined_block_has_two_zeros_and_its_merkle_root() {
    let txs = vec![hashed_tx(1, "x", 3), hashed_tx(2, "y", 3)];
    let mut block = Block::new(1, "prev".to_string(), txs, 9);
    block.mine();
    assert!(block.hash.starts_with("00"));
    let expected = sha_hex(&format!("{}{}{}{:#?}{}", 1, "prev", 9, &block.trans_data, block.nonce));
    assert_eq!(block.hash, expected);
    assert_eq!(block.merkle_root, block.calculate_merkle_root());
}

#[test]
fn blockchain_links_each_block_to_the_last_hash() {
    let mut chain = Blockchain::try_new(1_700_000_000).expect("genesis mines");
    assert_eq!(chain.chain.len(), 1);
    assert_eq!(chain.chain[0].previous_hash, "");
    assert!(chain.chain[0].hash.starts_with("00"));
    assert_eq!(chain.chain[0].trans_data[0].tx_data, "This is an Genesis Tx");
    let txs = vec![hashed_tx(1, "Alice sent to Bob", 1_700_000_001)];
    let block = Block::new(1, String::new(), txs, 1_700_000_002);
    assert!(chain.try_add_block(block));
    assert_eq!(chain.chain.len(), 2);
    assert_eq!(chain.chain[1].previous_hash, chain.chain[0].hash);
    assert!(chain.chain[1].hash.starts_with("00"));
}

#[test]
fn blockchain_new_and_add_block() {
    let mut chain = Blockchain::new(42);
    let block = Block::new(1, String::new(), vec![], 43);
    chain.add_block(block);
    assert_eq!(chain.chain.len(), 2);
    assert_eq!(chain.chain[1].previous_hash, chain.chain[0].hash);
}

#[test]
fn imustchain_block_mines_to_two_zeros() {
    let txs = vec![hashed_tx(1, "Alice sent to Bob", 5)];
    let mut block = ImBlock::new(1, "prev".to_string(), txs, 6);
    assert_eq!(block.hash, "");
    block.mine();
    assert!(block.hash.starts_with("00"));
    let expected = sha_hex(&format!("{}{}{}{:#?}{}", 1, "prev", 6, &block.trans_data, block.nonce));
    assert_eq!(block.hash, expected);
    assert_eq!(block.hash_cal(), expected);
}

#[test]
fn proof_of_work_finds_the_first_nonce() {
    let pow = ProofOfWork::new(2);
    assert_eq!(pow.difficulty, 2);
    let txs = vec![hashed_tx(1, "a", 1), hashed_tx(2, "b", 2)];
    let (hash, nonce) = pow.mine(&txs, 3, "abc");
    assert!(hash.starts_with("00"));
    assert_eq!(hash, sha_hex(&format!("{}:{}:{:#?}:{}", 3, "abc", &txs, nonce)));
    for n in 0..nonce {
        assert!(!sha_hex(&format!("{}:{}:{:#?}:{}", 3, "abc", &txs, n)).starts_with("00"));
    }
    assert_eq!(pow.try_mine(&txs, 3, "abc"), Some((hash, nonce)));
}

#[test]
fn pbft_names_nodes_and_leads_with_node0() {
    let sys = PbftSystem::new(4, 1);
    let names: Vec<&str> = sys.nodes.iter().map(|n| n.id.as_str()).collect();
    assert_eq!(names, vec!["Node0", "Node1", "Node2", "Node3"]);
    assert_eq!(sys.get_primary().id, "Node0");
    assert_eq!(sys.current_view, 0);
}

#[test]
fn pbft_demo_requests() {
    let mut sys = PbftSystem::new(4, 1);
    let txs = vec!["Alice pays Bob 10".to_string(), "Bob pays Charlie 5".to_string()];
    let block = sys.process_request(txs.clone(), "0000abcdef1234567890", 1, false, 77).unwrap();
    assert_eq!(block.sequence_number, 1);
    assert_eq!(block.timestamp, 77);
    assert_eq!(block.transactions, txs);
    assert!(sys.verify_block(&block));
    let block2 = sys
        .process_request(vec!["Charlie pays Alice 20".to_string()], "0000abcdef1234567890", 2, true, 78)
        .unwrap();
    assert_eq!(sys.current_view, 1);
    assert_eq!(sys.get_primary().id, "Node1");
    assert!(sys.verify_block(&block2));
}

#[test]
fn pbft_view_change_rotates_and_drops_at_node0() {
    let mut sys = PbftSystem::new(3, 1);
    for expected in ["Node1", "Node2", "Node0", "Node1"] {
        sys.view_change();
        assert_eq!(sys.get_primary().id, expected);
        assert_eq!(sys.nodes.iter().filter(|n| n.is_primary).count(), 1);
    }
    let mut single = PbftSystem::new(1, 0);
    assert!(single.process_request(vec![], "", 1, true, 0).is_none());
    let mut too_few = PbftSystem::new(2, 1);
    assert!(too_few.process_request(vec![], "", 1, false, 0).is_none());
    let stale = PbftBlock { previous_hash: String::new(), transactions: vec![], timestamp: 0, sequence_number: 9 };
    assert!(!sys.verify_block(&stale));
}

fn validators() -> Vec<Validator> {
    vec![
        Validator { id: "V1".to_string(), stake: 100 },
        Validator { id: "V2".to_string(), stake: 200 },
        Validator { id: "V3".to_string(), stake: 300 },
    ]
}

#[test]
fn stake_slots_pick_by_prefix_sums() {
    let v = validators();
    assert_eq!(total_stake(&v), 600);
    assert_eq!(slot_of(&v, 0), 0);
    assert_eq!(slot_of(&v, 99), 0);
    assert_eq!(slot_of(&v, 100), 1);
    assert_eq!(slot_of(&v, 299), 1);
    assert_eq!(slot_of(&v, 300), 2);
    assert_eq!(slot_of(&v, 599), 2);
}

#[test]
fn poh_starts_from_the_genesis_hash() {
    let poh = PoHSystem::new(validators());
    assert_eq!(poh.current_hash, sha_hex("genesis"));
    assert_eq!(poh.hash_sequence, vec![(sha_hex("genesis"), 0)]);
}

#[test]
fn poh_leader_and_block() {
    let mut poh = PoHSystem::new(validators());
    assert_eq!(poh.select_leader(50).id, "V1");
    assert_eq!(poh.select_leader(750).id, "V2");
    assert_eq!(poh.select_leader(1_550).id, "V3");
    let txs = vec!["Alice pays Bob 10".to_string()];
    let (block, leader) = poh.create_block(txs.clone(), "0000abcdef", 250, 1_000);
    assert_eq!(leader, "V2");
    assert_eq!(block.sequence_number, 2);
    assert_eq!(block.timestamp, 1_000);
    assert_eq!(block.previous_hash, "0000abcdef");
    let tick = sha_hex(&format!("{}{}{}", sha_hex("genesis"), 1_000, "Alice pays Bob 10"));
    assert_eq!(poh.current_hash, tick);
    assert_eq!(poh.hash_sequence[1], (tick, 1_000));
    assert!(poh.verify_block(&block));
}

#[test]
fn poh_ticks_chain_hashes() {
    let mut poh = PoHSystem::new(validators());
    poh.generate_hash_sequence(vec![], 2, 10);
    let t1 = sha_hex(&format!("{}10", sha_hex("genesis")));
    let t2 = sha_hex(&format!("{}11", t1));
    assert_eq!(poh.hash_sequence.len(), 3);
    assert_eq!(poh.hash_sequence[2], (t2.clone(), 11));
    assert_eq!(poh.current_hash, t2);
    let late = chainlab::poh::Block { previous_hash: String::new(), transactions: vec![], sequence_number: 3, timestamp: 12 };
    assert!(!poh.verify_block(&late));
    let missing = chainlab::poh::Block { previous_hash: String::new(), transactions: vec![], sequence_number: 4, timestamp: 11 };
    assert!(!poh.verify_block(&missing));
}

#[test]
fn pos_draw_and_verify() {
    let pos = PosSystem::new(validators());
    assert_eq!(pos.pick_validator(0).id, "V1");
    assert_eq!(pos.pick_validator(150).id, "V2");
    assert_eq!(pos.pick_validator(599).id, "V3");
    let seed = 1_700_000_000u64;
    let target = rand::rngs::StdRng::seed_from_u64(seed).gen_range(0..600u64);
    let expected = pos.pick_validator(target).id.clone();
    assert_eq!(pos.select_validator(seed).id, expected);
    let txs = vec!["Alice pays Bob 10".to_string()];
    let block = pos.create_block("0000abcdef1234567890", txs.clone(), seed, 9);
    assert_eq!(block.validator_id, expected);
    assert_eq!(block.transactions, txs);
    assert!(pos.verify_block(&block));
}

#[test]
fn pos_rejects_unknown_or_unstaked_signers() {
    let mut v = validators();
    v.push(Validator { id: "V4".to_string(), stake: 0 });
    let pos = PosSystem::new(v);
    let unknown = PosBlock::new("", vec![], "Mallory", 1);
    assert!(!pos.verify_block(&unknown));
    let unstaked = PosBlock::new("", vec![], "V4", 1);
    assert!(!pos.verify_block(&unstaked));
}
