use cuneos::block::{GlobalBlock, MiningError, Miner};
use cuneos::transaction::{encode_transaction_list, Transaction};
use sha3::{Digest, Sha3_256};

fn s(text: &str) -> String {
    text.to_string()
}

fn sample_transactions() -> Vec<Transaction> {
    vec![
        Transaction::new_peace_transfer(s("system"), s("alice"), 5, s("2025-03-04"), s("tx001")),
        Transaction::new_like(s("alice"), s("bob"), s("2025-03-05"), s("tx002")),
    ]
}

fn expected_digest(block: &GlobalBlock) -> Vec<u8> {
    let mut input = encode_transaction_list(&block.transactions);
    input.extend_from_slice(block.previous_hash.as_bytes());
    input.extend_from_slice(&block.nonce.to_be_bytes());
    input.extend_from_slice(&block.timestamp.to_be_bytes());
    let mut hasher = Sha3_256::default();
    hasher.update(&input);
    hasher.finalize().to_vec()
}

fn to_hex(bytes: &[u8]) -> String {
    let mut out = String::new();
    for b in bytes {
        out.push_str(&format!("{:02x}", b));
    }
    out
}

#[test]
fn hash_is_sha3_over_transactions_previous_hash_nonce_timestamp() {
    let block = GlobalBlock {
        transactions: sample_transactions(),
        previous_hash: s("00ab"),
        nonce: 0x0102_0304,
        hash: String::new(),
        timestamp: 1_741_000_000,
        miner_name: s("Miner1"),
    };
    let digest = block.compute_digest();
    assert_eq!(digest.to_vec(), expected_digest(&block));
    assert_eq!(block.compute_hash(), to_hex(&digest));
    assert_eq!(block.compute_hash().len(), 64);
}

#[test]
fn hash_of_known_input_has_known_value() {
    // No transactions, empty previous hash, nonce 0, timestamp 0: the input
    // is 24 zero bytes.
    let block = GlobalBlock {
        transactions: Vec::new(),
        previous_hash: String::new(),
        nonce: 0,
        hash: String::new(),
        timestamp: 0,
        miner_name: String::new(),
    };
    let mut hasher = Sha3_256::default();
    hasher.update([0u8; 24]);
    assert_eq!(block.compute_hash(), to_hex(&hasher.finalize()));
    assert_ne!(block.compute_hash(), to_hex(&[0u8; 24]));
}

#[test]
fn hash_depends_on_every_hashed_field() {
    let base = GlobalBlock {
        transactions: sample_transactions(),
        previous_hash: s("0"),
        nonce: 1,
        hash: String::new(),
        timestamp: 2,
        miner_name: s("Miner1"),
    };
    let h = base.compute_hash();
    let other_nonce = GlobalBlock { nonce: 2, transactions: sample_transactions(), previous_hash: s("0"), hash: String::new(), timestamp: 2, miner_name: s("Miner1") };
    let other_time = GlobalBlock { nonce: 1, transactions: sample_transactions(), previous_hash: s("0"), hash: String::new(), timestamp: 3, miner_name: s("Miner1") };
    let other_prev = GlobalBlock { nonce: 1, transactions: sample_transactions(), previous_hash: s("1"), hash: String::new(), timestamp: 2, miner_name: s("Miner1") };
    let other_txs = GlobalBlock { nonce: 1, transactions: Vec::new(), previous_hash: s("0"), hash: String::new(), timestamp: 2, miner_name: s("Miner1") };
    let other_miner = GlobalBlock { nonce: 1, transactions: sample_transactions(), previous_hash: s("0"), hash: s("stale"), timestamp: 2, miner_name: s("Miner2") };
    assert_ne!(h, other_nonce.compute_hash());
    assert_ne!(h, other_time.compute_hash());
    assert_ne!(h, other_prev.compute_hash());
    assert_ne!(h, other_txs.compute_hash());
    assert_eq!(h, other_miner.compute_hash());
}

#[test]
fn mined_block_meets_the_difficulty() {
    let miner = Miner::new(s("Miner1"), 1000);
    let block =
        GlobalBlock::mined_at(sample_transactions(), s("0"), &miner, 2, 1_741_000_000).unwrap();
    assert!(block.hash.starts_with("00"));
    assert_eq!(block.hash, block.compute_hash());
    assert_eq!(block.nonce % 1000, 0);
    assert_eq!(block.timestamp, 1_741_000_000);
    assert_eq!(block.miner_name, "Miner1");
    assert_eq!(block.previous_hash, "0");
    assert_eq!(block.transactions.len(), 2);
}

#[test]
fn search_stops_at_the_first_nonce_that_works() {
    let miner = Miner::new(s("Miner3"), 700);
    let block = GlobalBlock::mined_at(sample_transactions(), s("0"), &miner, 2, 42).unwrap();
    let mut nonce = 0u64;
    while nonce < block.nonce {
        let earlier = GlobalBlock {
            transactions: sample_transactions(),
            previous_hash: s("0"),
            nonce,
            hash: String::new(),
            timestamp: 42,
            miner_name: s("Miner3"),
        };
        assert!(!earlier.compute_hash().starts_with("00"));
        nonce += 700;
    }
    assert_eq!(nonce, block.nonce);
}

#[test]
fn difficulty_zero_accepts_the_first_hash() {
    let miner = Miner::new(s("Miner1"), 1000);
    let block = GlobalBlock::mined_at(sample_transactions(), s("0"), &miner, 0, 7).unwrap();
    assert_eq!(block.nonce, 0);
    assert_eq!(block.hash, block.compute_hash());
}

#[test]
fn search_continues_from_the_nonce_of_the_block() {
    let miner = Miner::new(s("Miner1"), 3);
    let mut block = GlobalBlock {
        transactions: sample_transactions(),
        previous_hash: s("0"),
        nonce: 10,
        hash: String::new(),
        timestamp: 9,
        miner_name: s("Miner1"),
    };
    assert!(miner.mine_block(&mut block, 1));
    assert!(block.nonce >= 10);
    assert_eq!((block.nonce - 10) % 3, 0);
    assert!(block.hash.starts_with('0'));
    assert_eq!(block.hash, block.compute_hash());
}

#[test]
fn search_without_stride_tries_one_nonce() {
    let miner = Miner::new(s("Idle"), 0);
    let mut block = GlobalBlock {
        transactions: sample_transactions(),
        previous_hash: s("0"),
        nonce: 0,
        hash: String::new(),
        timestamp: 9,
        miner_name: s("Idle"),
    };
    // Sixty-five zeros cannot be met by a hash of sixty-four digits.
    assert!(!miner.mine_block(&mut block, 65));
    assert_eq!(block.nonce, 0);
    assert_eq!(block.transactions.len(), 2);
}

#[test]
fn search_gives_up_when_the_nonce_space_ends() {
    let miner = Miner::new(s("Giant"), u64::MAX / 2);
    let mut block = GlobalBlock {
        transactions: sample_transactions(),
        previous_hash: s("0"),
        nonce: 0,
        hash: String::new(),
        timestamp: 9,
        miner_name: s("Giant"),
    };
    assert!(!miner.mine_block(&mut block, 64));
    assert!(GlobalBlock::mined_at(sample_transactions(), s("0"), &miner, 64, 9).is_none());
}

#[test]
fn new_block_is_stamped_with_the_current_time() {
    let miner = Miner::new(s("Miner2"), 1500);
    let block = GlobalBlock::new(sample_transactions(), s("0"), &miner, 1).unwrap();
    assert!(block.timestamp > 1_700_000_000);
    assert!(block.hash.starts_with('0'));
    assert_eq!(block.hash, block.compute_hash());
    assert_eq!(block.nonce % 1500, 0);
}

#[test]
fn new_block_reports_an_exhausted_search() {
    let miner = Miner::new(s("Idle"), 0);
    match GlobalBlock::new(sample_transactions(), s("0"), &miner, 65) {
        Err(MiningError::NonceSpaceExhausted { timestamp }) => assert!(timestamp > 1_700_000_000),
        _ => panic!("the search cannot succeed"),
    }
}

#[test]
fn miner_keeps_name_and_power() {
    let miner = Miner::new(s("Miner2"), 1500);
    assert_eq!(miner.name, "Miner2");
    assert_eq!(miner.mining_power_milli, 1500);
    let copy = miner.clone();
    assert_eq!(copy.name, "Miner2");
    assert_eq!(copy.mining_power_milli, 1500);
}
