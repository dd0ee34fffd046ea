use cuneos::block::{MiningError, Miner};
use cuneos::ledger::{GlobalLedger, DIFFICULTY_CAP, DIFFICULTY_SCALE};
use cuneos::transaction::{Payload, Transaction};

const SECOND: u64 = 1_000_000_000;

fn s(text: &str) -> String {
    text.to_string()
}

fn miners() -> Vec<Miner> {
    vec![
        Miner::new(s("Miner1"), 1000),
        Miner::new(s("Miner2"), 1500),
        Miner::new(s("Miner3"), 700),
    ]
}

fn transfer(id: &str) -> Vec<Transaction> {
    vec![Transaction::new_peace_transfer(s("system"), s("alice"), 5, s("2025-03-04"), s(id))]
}

fn ledger(initial: u32, max: u32, min: u32, target: u64, interval: usize) -> GlobalLedger {
    GlobalLedger::new_at(initial, max, min, target, interval, miners(), 1_741_000_000).unwrap()
}

fn assert_chain_holds(ledger: &GlobalLedger) {
    let chain = ledger.get_chain();
    for i in 0..chain.len() {
        assert_eq!(chain[i].hash, chain[i].compute_hash());
        if i > 0 {
            assert_eq!(chain[i].previous_hash, chain[i - 1].hash);
        }
    }
}

#[test]
fn genesis_block_is_fixed_but_for_its_proof_of_work() {
    let l = ledger(2, 4, 1, 5 * SECOND, 3);
    let chain = l.get_chain();
    assert_eq!(chain.len(), 1);
    let genesis = &chain[0];
    assert_eq!(genesis.previous_hash, "0");
    assert_eq!(genesis.miner_name, "Miner1");
    assert_eq!(genesis.timestamp, 1_741_000_000);
    assert!(genesis.hash.starts_with("00"));
    assert_eq!(genesis.hash, genesis.compute_hash());
    assert_eq!(genesis.nonce % 1000, 0);
    assert_eq!(genesis.transactions.len(), 1);
    let tx = &genesis.transactions[0];
    assert_eq!(tx.sender_id, "system");
    assert_eq!(tx.receiver_id, "genesis");
    assert_eq!(tx.timestamp, "2025-03-04");
    assert_eq!(tx.global_tx_id, "genesis_tx");
    assert!(matches!(tx.payload, Payload::PeaceTransfer { amount: 0 }));
}

#[test]
fn new_ledger_holds_what_it_was_given() {
    let l = ledger(3, 4, 1, 5 * SECOND, 3);
    assert_eq!(l.get_difficulty(), 3 * DIFFICULTY_SCALE);
    assert_eq!(l.difficulty_digits(), 3);
    assert_eq!(l.get_max_difficulty(), 4);
    assert_eq!(l.get_min_difficulty(), 1);
    assert_eq!(l.get_target_block_time(), 5 * SECOND);
    assert_eq!(l.get_adjustment_interval(), 3);
    assert_eq!(l.get_miners().len(), 3);
    assert_eq!(l.get_miners()[2].name, "Miner3");
    assert!(l.get_mining_durations().is_empty());
    assert_eq!(l.get_ema_block_time(), None);
}

#[test]
fn new_ledger_reads_the_clock() {
    let l = GlobalLedger::new(1, 4, 1, 5 * SECOND, 3, miners()).unwrap();
    assert!(l.get_chain()[0].timestamp > 1_700_000_000);
    assert_eq!(l.get_chain().len(), 1);
    assert_eq!(l.get_difficulty(), DIFFICULTY_SCALE);
}

#[test]
fn new_ledger_reports_an_exhausted_genesis_search() {
    let idle = vec![Miner::new(s("Idle"), 0)];
    assert!(GlobalLedger::new_at(65, 70, 1, SECOND, 3, idle, 5).is_none());
    let idle = vec![Miner::new(s("Idle"), 0)];
    assert!(matches!(
        GlobalLedger::new(65, 70, 1, SECOND, 3, idle),
        Err(MiningError::NonceSpaceExhausted { .. })
    ));
}

#[test]
fn appended_block_links_to_the_last_and_is_sealed() {
    let mut l = ledger(2, 4, 1, 5 * SECOND, 10);
    let name = l.add_block_at(transfer("tx001"), 1, 1_741_000_100, 3 * SECOND).unwrap();
    assert_eq!(name, "Miner2");
    let chain = l.get_chain();
    assert_eq!(chain.len(), 2);
    assert_eq!(chain[1].previous_hash, chain[0].hash);
    assert_eq!(chain[1].miner_name, "Miner2");
    assert_eq!(chain[1].timestamp, 1_741_000_100);
    assert_eq!(chain[1].nonce % 1500, 0);
    assert!(chain[1].hash.starts_with("00"));
    assert_eq!(chain[1].hash, chain[1].compute_hash());
    assert_eq!(chain[1].transactions.len(), 1);
    assert_eq!(chain[1].transactions[0].global_tx_id, "tx001");
    assert_eq!(l.get_mining_durations(), &vec![3 * SECOND]);
    assert_chain_holds(&l);
}

#[test]
fn add_block_picks_a_miner_of_the_roster() {
    let mut l = ledger(1, 4, 1, 5 * SECOND, 100);
    for i in 0..6 {
        let name = l.add_block(transfer(&format!("tx{}", i))).unwrap();
        assert!(name == "Miner1" || name == "Miner2" || name == "Miner3");
        let last = l.get_chain().last().unwrap();
        assert_eq!(last.miner_name, name);
        let stride = match name.as_str() {
            "Miner1" => 1000,
            "Miner2" => 1500,
            _ => 700,
        };
        assert_eq!(last.nonce % stride, 0);
        assert!(last.hash.starts_with('0'));
    }
    assert_eq!(l.get_chain().len(), 7);
    assert_eq!(l.get_mining_durations().len(), 6);
    assert!(l.get_ema_block_time().is_some());
    assert_chain_holds(&l);
}

#[test]
fn failed_search_leaves_the_ledger_unchanged() {
    // A floor of 70 digits, which no hash of 64 digits can meet, and a miner
    // that tries one nonce only.
    let idle = vec![Miner::new(s("Idle"), 0)];
    let mut l = GlobalLedger::new_at(0, 80, 70, SECOND, 2, idle, 1).unwrap();
    assert_eq!(l.get_difficulty(), 0);
    l.add_block_at(transfer("a"), 0, 2, 100 * SECOND).unwrap();
    // A slow block: the difficulty is scaled down and held at the floor.
    assert_eq!(l.get_difficulty(), 70 * DIFFICULTY_SCALE);
    let durations = l.get_mining_durations().clone();
    let ema = l.get_ema_block_time();
    let err = l.add_block_at(transfer("d"), 0, 5, SECOND).unwrap_err();
    assert_eq!(err, MiningError::NonceSpaceExhausted { timestamp: 5 });
    assert_eq!(l.get_chain().len(), 2);
    assert_eq!(l.get_mining_durations(), &durations);
    assert_eq!(l.get_ema_block_time(), ema);
    assert_eq!(l.get_difficulty(), 70 * DIFFICULTY_SCALE);
    assert!(matches!(
        l.add_block(transfer("e")),
        Err(MiningError::NonceSpaceExhausted { .. })
    ));
    assert_eq!(l.get_chain().len(), 2);
    assert_chain_holds(&l);
}

#[test]
fn moving_average_weighs_the_newest_duration_three_tenths() {
    let mut l = ledger(1, 4, 1, 5 * SECOND, 100);
    l.add_block_at(transfer("a"), 0, 10, 1000).unwrap();
    assert_eq!(l.get_ema_block_time(), Some(1000));
    l.add_block_at(transfer("b"), 0, 11, 2000).unwrap();
    assert_eq!(l.get_ema_block_time(), Some(1300));
    l.add_block_at(transfer("c"), 0, 12, 5).unwrap();
    // (3 * 5 + 7 * 1300) / 10 = 911.5, rounded down.
    assert_eq!(l.get_ema_block_time(), Some(911));
    l.add_block_at(transfer("d"), 0, 13, u64::MAX).unwrap();
    let expected = ((3 * (u64::MAX as u128) + 7 * 911) / 10) as u64;
    assert_eq!(l.get_ema_block_time(), Some(expected));
}

#[test]
fn fast_blocks_raise_the_difficulty() {
    // Three digits to start with, five seconds to aim at, bounds of one and
    // four digits.
    let mut l = ledger(3, 4, 1, 5 * SECOND, 3);
    l.add_block_at(transfer("a"), 0, 10, SECOND).unwrap();
    assert_eq!(l.get_difficulty(), 3 * DIFFICULTY_SCALE);
    l.add_block_at(transfer("b"), 0, 11, 2 * SECOND).unwrap();
    // The chain holds three blocks now: retargeting at an average of 1.3 s,
    // below 2.5 s. 3 * 5 / 1.3 is more than 4, so the bound holds it at 4.
    assert_eq!(l.get_ema_block_time(), Some(1_300_000_000));
    assert_eq!(l.get_difficulty(), 4 * DIFFICULTY_SCALE);
    l.add_block_at(transfer("c"), 0, 12, SECOND).unwrap();
    assert!(l.get_difficulty() > 3 * DIFFICULTY_SCALE);
    assert!(l.get_difficulty() <= 4 * DIFFICULTY_SCALE);
    assert_eq!(l.get_chain()[3].hash.len(), 64);
    assert!(l.get_chain()[3].hash.starts_with("0000"));
    assert_chain_holds(&l);
}

#[test]
fn slow_blocks_lower_the_difficulty() {
    let mut l = ledger(3, 4, 1, 5 * SECOND, 3);
    l.add_block_at(transfer("a"), 0, 10, 8 * SECOND).unwrap();
    l.add_block_at(transfer("b"), 0, 11, 8 * SECOND).unwrap();
    // Average 8 s, above 7.5 s: 3 * 5 / 8 = 1.875.
    assert_eq!(l.get_difficulty(), 1_875_000);
    assert_eq!(l.difficulty_digits(), 1);
    l.add_block_at(transfer("c"), 0, 12, 8 * SECOND).unwrap();
    l.add_block_at(transfer("d"), 0, 13, 8 * SECOND).unwrap();
    l.add_block_at(transfer("e"), 0, 14, 8 * SECOND).unwrap();
    // 1.875 * 5 / 8 = 1.171875.
    assert_eq!(l.get_difficulty(), 1_171_875);
    l.add_block_at(transfer("f"), 0, 15, 8 * SECOND).unwrap();
    l.add_block_at(transfer("g"), 0, 16, 8 * SECOND).unwrap();
    l.add_block_at(transfer("h"), 0, 17, 8 * SECOND).unwrap();
    // 1.171875 * 5 / 8 is below 1, so the bound holds it at 1.
    assert_eq!(l.get_difficulty(), DIFFICULTY_SCALE);
    assert_chain_holds(&l);
}

#[test]
fn scaled_difficulty_is_exact_below_the_bound() {
    let mut l = ledger(3, 10, 1, 5 * SECOND, 3);
    l.add_block_at(transfer("a"), 0, 10, 2 * SECOND).unwrap();
    l.add_block_at(transfer("b"), 0, 11, 2 * SECOND).unwrap();
    // Average 2 s, below 2.5 s: 3 * 5 / 2 = 7.5.
    assert_eq!(l.get_difficulty(), 7_500_000);
    assert_eq!(l.difficulty_digits(), 7);
}

#[test]
fn difficulty_stays_inside_the_band() {
    let mut l = ledger(2, 4, 1, 5 * SECOND, 3);
    // Exactly half the target is not faster than half the target.
    l.add_block_at(transfer("a"), 0, 10, 5 * SECOND / 2).unwrap();
    l.add_block_at(transfer("b"), 0, 11, 5 * SECOND / 2).unwrap();
    assert_eq!(l.get_difficulty(), 2 * DIFFICULTY_SCALE);
    let mut l = ledger(2, 4, 1, 5 * SECOND, 3);
    // Exactly one and a half times the target is not slower than that.
    l.add_block_at(transfer("a"), 0, 10, 15 * SECOND / 2).unwrap();
    l.add_block_at(transfer("b"), 0, 11, 15 * SECOND / 2).unwrap();
    assert_eq!(l.get_difficulty(), 2 * DIFFICULTY_SCALE);
    let mut l = ledger(2, 4, 1, 5 * SECOND, 3);
    l.add_block_at(transfer("a"), 0, 10, 5 * SECOND / 2 - 1).unwrap();
    l.add_block_at(transfer("b"), 0, 11, 5 * SECOND / 2 - 1).unwrap();
    assert_eq!(l.get_difficulty(), 4 * DIFFICULTY_SCALE);
    let mut l = ledger(2, 4, 1, 5 * SECOND, 3);
    l.add_block_at(transfer("a"), 0, 10, 15 * SECOND / 2 + 1).unwrap();
    l.add_block_at(transfer("b"), 0, 11, 15 * SECOND / 2 + 1).unwrap();
    assert_eq!(l.get_difficulty(), 1_333_333);
}

#[test]
fn retargeting_goes_by_the_average_of_a_single_duration() {
    let mut l = ledger(2, 4, 1, 5 * SECOND, 2);
    l.add_block_at(transfer("a"), 0, 10, 1).unwrap();
    // Two blocks, a multiple of the interval: one duration is enough.
    assert_eq!(l.get_chain().len(), 2);
    assert_eq!(l.get_ema_block_time(), Some(1));
    assert_eq!(l.get_difficulty(), 4 * DIFFICULTY_SCALE);
}

#[test]
fn interval_of_one_retargets_after_every_block() {
    let mut l = ledger(2, 4, 1, 5 * SECOND, 1);
    // A tenth of a second, far below half the target: 2 * 5 / 0.1 is held
    // at the upper bound.
    l.add_block_at(transfer("a"), 0, 10, SECOND / 10).unwrap();
    assert_eq!(l.get_ema_block_time(), Some(100_000_000));
    assert_eq!(l.get_difficulty(), 4 * DIFFICULTY_SCALE);
    // Six seconds leave the average at 1.87 s: 4 * 5 / 1.87 stays at the
    // upper bound.
    l.add_block_at(transfer("b"), 0, 11, 6 * SECOND).unwrap();
    assert_eq!(l.get_ema_block_time(), Some(1_870_000_000));
    assert_eq!(l.get_difficulty(), 4 * DIFFICULTY_SCALE);
    // Twenty seconds bring it to 7.309 s, inside the band.
    l.add_block_at(transfer("c"), 0, 12, 20 * SECOND).unwrap();
    assert_eq!(l.get_ema_block_time(), Some(7_309_000_000));
    assert_eq!(l.get_difficulty(), 4 * DIFFICULTY_SCALE);
    // A hundred seconds bring it to 35.1163 s: 4 * 5 / 35.1163 is below
    // the lower bound.
    l.add_block_at(transfer("d"), 0, 13, 100 * SECOND).unwrap();
    assert_eq!(l.get_ema_block_time(), Some(35_116_300_000));
    assert_eq!(l.get_difficulty(), DIFFICULTY_SCALE);
}

#[test]
fn retargeting_without_any_duration_changes_nothing() {
    let mut l = ledger(2, 4, 1, 5 * SECOND, 1);
    l.adjust_difficulty();
    assert_eq!(l.get_difficulty(), 2 * DIFFICULTY_SCALE);
    assert_eq!(l.get_ema_block_time(), None);
}

#[test]
fn retargeting_happens_only_at_multiples_of_the_interval() {
    let mut l = ledger(1, 4, 1, 5 * SECOND, 4);
    l.add_block_at(transfer("a"), 0, 10, 1).unwrap();
    l.add_block_at(transfer("b"), 0, 11, 1).unwrap();
    assert_eq!(l.get_difficulty(), DIFFICULTY_SCALE);
    l.add_block_at(transfer("c"), 0, 12, 1).unwrap();
    assert_eq!(l.get_chain().len(), 4);
    assert_eq!(l.get_difficulty(), 4 * DIFFICULTY_SCALE);
}

#[test]
fn adjust_difficulty_can_be_asked_for_directly() {
    let mut l = ledger(1, 3, 1, 5 * SECOND, 100);
    l.adjust_difficulty();
    assert_eq!(l.get_difficulty(), DIFFICULTY_SCALE);
    l.add_block_at(transfer("a"), 0, 10, 2 * SECOND).unwrap();
    l.add_block_at(transfer("b"), 0, 11, 2 * SECOND).unwrap();
    assert_eq!(l.get_difficulty(), DIFFICULTY_SCALE);
    l.adjust_difficulty();
    assert_eq!(l.get_difficulty(), 2_500_000);
    l.adjust_difficulty();
    assert_eq!(l.get_difficulty(), 3 * DIFFICULTY_SCALE);
}

#[test]
fn average_of_zero_raises_to_the_bound() {
    let mut l = ledger(1, 2, 1, 5 * SECOND, 3);
    l.add_block_at(transfer("a"), 0, 10, 0).unwrap();
    l.add_block_at(transfer("b"), 0, 11, 0).unwrap();
    assert_eq!(l.get_ema_block_time(), Some(0));
    assert_eq!(l.get_difficulty(), 2 * DIFFICULTY_SCALE);
    let mut zero = ledger(0, 2, 0, 5 * SECOND, 3);
    zero.add_block_at(transfer("a"), 0, 10, 0).unwrap();
    zero.add_block_at(transfer("b"), 0, 11, 0).unwrap();
    assert_eq!(zero.get_difficulty(), 0);
}

#[test]
fn difficulty_stays_within_its_bounds() {
    let mut l = ledger(2, 3, 1, 5 * SECOND, 2);
    let durations = [
        1, SECOND, 100 * SECOND, 100 * SECOND, 100 * SECOND, 100 * SECOND, 100 * SECOND, 1, 1, 1, 1, 1,
        3 * SECOND, 6 * SECOND, u64::MAX, 0,
    ];
    for (i, d) in durations.iter().enumerate() {
        l.add_block_at(transfer("x"), i % 3, 100 + i as u64, *d).unwrap();
        assert!(l.get_difficulty() >= DIFFICULTY_SCALE);
        assert!(l.get_difficulty() <= 3 * DIFFICULTY_SCALE);
        assert!(l.get_difficulty() <= DIFFICULTY_CAP);
    }
    assert_eq!(l.get_chain().len(), 17);
    assert_chain_holds(&l);
}

#[test]
fn largest_difficulty_fits_the_cap() {
    assert_eq!(DIFFICULTY_CAP, u32::MAX as u64 * DIFFICULTY_SCALE);
    let idle = vec![Miner::new(s("Idle"), 0)];
    let mut l = GlobalLedger::new_at(0, u32::MAX, 0, u64::MAX, 2, idle, 1).unwrap();
    l.add_block_at(transfer("a"), 0, 2, 1).unwrap();
    assert_eq!(l.get_difficulty(), 0);
    l.adjust_difficulty();
    assert_eq!(l.get_difficulty(), 0);
}

#[test]
fn sweep_removes_the_named_revocations_only() {
    let mut l = ledger(1, 4, 1, 5 * SECOND, 100);
    l.add_block_at(
        vec![
            Transaction::new_key_revocation(s("alice"), s("bob"), s("t"), s("r1")),
            Transaction::new_key_revocation(s("bob"), s("alice"), s("t"), s("r2")),
            Transaction::new_like(s("alice"), s("bob"), s("t"), s("l1")),
        ],
        0,
        10,
        SECOND,
    )
    .unwrap();
    l.add_block_at(
        vec![Transaction::new_key_revocation(s("alice"), s("bob"), s("t"), s("r3"))],
        1,
        11,
        SECOND,
    )
    .unwrap();
    l.add_block_at(
        vec![Transaction::new_key_revocation(s("alice"), s("carol"), s("t"), s("r4"))],
        2,
        12,
        SECOND,
    )
    .unwrap();
    let hashes: Vec<String> = l.get_chain().iter().map(|b| b.hash.clone()).collect();
    l.sweep_revocation("alice", "bob");
    let chain = l.get_chain();
    assert_eq!(chain.len(), 4);
    assert_eq!(chain[0].transactions.len(), 1);
    let ids: Vec<&str> = chain[1].transactions.iter().map(|t| t.global_tx_id.as_str()).collect();
    assert_eq!(ids, vec!["r2", "l1"]);
    assert!(chain[2].transactions.is_empty());
    assert_eq!(chain[3].transactions.len(), 1);
    assert_eq!(chain[3].transactions[0].global_tx_id, "r4");
    for i in 0..4 {
        assert_eq!(chain[i].hash, hashes[i]);
        if i > 0 {
            assert_eq!(chain[i].previous_hash, chain[i - 1].hash);
        }
    }
    // A swept block no longer stores the hash of its content.
    assert_ne!(chain[1].hash, chain[1].compute_hash());
    assert_eq!(chain[3].hash, chain[3].compute_hash());
    assert_eq!(l.get_mining_durations().len(), 3);
    // The ledger goes on after a sweep.
    l.add_block_at(transfer("next"), 0, 13, SECOND).unwrap();
    assert_eq!(l.get_chain()[4].previous_hash, l.get_chain()[3].hash);
}
