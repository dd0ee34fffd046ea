//! The ledger: the chain of blocks, and the control loop that steers the
//! mining difficulty towards a target block time.
//!
//! Difficulty and times are fixed-point integers. Difficulty is counted in
//! millionths of a hexadecimal digit, times in nanoseconds. Mining uses the
//! whole digits of the difficulty.

use crate::block::{
    is_mined_from, is_sealed, nonce_space_exhausted, unmined, BlockView, GlobalBlock, MiningError,
    Miner, MinerView,
};
use crate::chainscan::{hits_in, hits_in_chain, ProbeView};
use crate::clock::{elapsed_nanos, instant_now, unix_time_secs};
use crate::codec::same_text;
use crate::crypto::{choose_one, has_zero_prefix};
use crate::transaction::{Payload, PayloadView, Transaction, TransactionView};
use vstd::arithmetic::div_mod::{lemma_div_is_ordered, lemma_div_multiples_vanish};
use vstd::prelude::*;

verus! {

/// How many units of difficulty make one hexadecimal digit.
pub const DIFFICULTY_SCALE: u64 = 1_000_000;

/// The largest difficulty that a ledger can hold.
pub const DIFFICULTY_CAP: u64 = 4_294_967_295_000_000;

/// The chain of blocks with its difficulty state.
pub struct GlobalLedger {
    chain: Vec<GlobalBlock>,
    difficulty: u64,
    max_difficulty: u32,
    min_difficulty: u32,
    target_block_time: u64,
    adjustment_interval: usize,
    miners: Vec<Miner>,
    mining_durations: Vec<u64>,
    ema_block_time: Option<u64>,
    mined_digits: Ghost<Seq<nat>>,
}

/// The mathematical value of a `GlobalLedger`.
pub struct LedgerView {
    /// The blocks, the genesis block first.
    pub chain: Seq<BlockView>,
    /// The current difficulty, in millionths of a digit.
    pub difficulty: u64,
    /// The upper bound of retargeting, in whole digits.
    pub max_difficulty: u32,
    /// The lower bound of retargeting, in whole digits.
    pub min_difficulty: u32,
    /// The block time that retargeting steers towards, in nanoseconds.
    pub target_block_time: u64,
    /// After how many blocks the difficulty is retargeted.
    pub adjustment_interval: usize,
    pub miners: Seq<MinerView>,
    /// How long each block after the genesis block took to mine, in
    /// nanoseconds.
    pub mining_durations: Seq<u64>,
    /// The moving average of the mining durations, in nanoseconds; `None`
    /// until a block has followed the genesis block.
    pub ema_block_time: Option<u64>,
    /// For each block, the whole digits of the difficulty at which it was
    /// mined.
    pub mined_digits: Seq<nat>,
}

/// Whether every block but the first names the hash of the block before it.
pub open spec fn is_linked(chain: Seq<BlockView>) -> bool {
    forall|i: int| 0 < i < chain.len() ==> (#[trigger] chain[i]).previous_hash == chain[i - 1].hash
}

/// Whether every block stores the hash of its content.
pub open spec fn all_sealed(chain: Seq<BlockView>) -> bool {
    forall|i: int| 0 <= i < chain.len() ==> is_sealed(#[trigger] chain[i])
}

/// Whether the hash of every block has as many leading zeros as the
/// difficulty had whole digits when the block was mined.
pub open spec fn proves_work(chain: Seq<BlockView>, mined_digits: Seq<nat>) -> bool {
    &&& mined_digits.len() == chain.len()
    &&& forall|i: int|
        0 <= i < chain.len() ==> has_zero_prefix((#[trigger] chain[i]).hash, mined_digits[i])
}

/// What every ledger satisfies: there is a genesis block, there is a miner,
/// the chain is linked, every block's hash meets the difficulty of its
/// time, and the difficulty is below the cap.
pub open spec fn ledger_wf(l: LedgerView) -> bool {
    &&& l.chain.len() >= 1
    &&& l.miners.len() >= 1
    &&& is_linked(l.chain)
    &&& proves_work(l.chain, l.mined_digits)
    &&& l.difficulty <= DIFFICULTY_CAP
}

/// Whether the difficulty lies between the two bounds.
pub open spec fn difficulty_in_bounds(l: LedgerView) -> bool {
    l.min_difficulty * DIFFICULTY_SCALE <= l.difficulty <= l.max_difficulty * DIFFICULTY_SCALE
}

/// The whole digits of a difficulty: the number of leading zeros that
/// mining asks for.
pub open spec fn whole_digits(difficulty: u64) -> nat {
    (difficulty / DIFFICULTY_SCALE) as nat
}

/// The moving average after a block that took `duration`: the duration
/// itself for the first block, and afterwards three tenths of the duration
/// plus seven tenths of the average before, rounded down.
pub open spec fn next_ema(ema: Option<u64>, duration: u64) -> u64 {
    match ema {
        None => duration,
        Some(e) => ((3 * duration + 7 * e) / 10) as u64,
    }
}

/// The sum of `s`.
pub open spec fn sum_of(s: Seq<u64>) -> int
    decreases s.len(),
{
    if s.len() == 0 {
        0
    } else {
        sum_of(s.drop_last()) + s.last()
    }
}

/// The durations that retargeting looks at: the last `interval` of them,
/// or all where there are fewer.
pub open spec fn recent_durations(durations: Seq<u64>, interval: usize) -> Seq<u64> {
    if durations.len() > interval {
        durations.subrange(durations.len() - interval, durations.len() as int)
    } else {
        durations
    }
}

/// The difficulty after retargeting at an average block time of `avg`.
///
/// Blocks that come faster than half the target time scale the difficulty
/// up by `target / avg`, to at most `max` digits. Blocks that come slower
/// than one and a half times the target time scale it down by the same
/// factor, to at least `min` digits. In between it stays. The scaled value
/// is rounded down. At an average of zero a difficulty of zero stays zero
/// and any other rises to `max` digits.
pub open spec fn retarget(difficulty: u64, min: u32, max: u32, target: u64, avg: u64) -> u64 {
    let floor = min * DIFFICULTY_SCALE;
    let ceiling = max * DIFFICULTY_SCALE;
    if 2 * avg < target {
        if avg == 0 {
            if difficulty == 0 {
                0
            } else {
                ceiling as u64
            }
        } else if difficulty * target / (avg as int) > ceiling {
            ceiling as u64
        } else {
            (difficulty * target / (avg as int)) as u64
        }
    } else if 2 * avg > 3 * target {
        if difficulty * target / (avg as int) < floor {
            floor as u64
        } else {
            (difficulty * target / (avg as int)) as u64
        }
    } else {
        difficulty
    }
}

/// The block time that retargeting goes by: the moving average, or, where
/// there is none yet, the mean of the recent durations, rounded down.
/// `None` where there is neither a moving average nor a duration to take
/// the mean of.
pub open spec fn retarget_average(l: LedgerView) -> Option<u64> {
    let recent = recent_durations(l.mining_durations, l.adjustment_interval);
    match l.ema_block_time {
        Some(e) => Some(e),
        None => if recent.len() == 0 {
            None
        } else {
            Some((sum_of(recent) / (recent.len() as int)) as u64)
        },
    }
}

/// The ledger after a retargeting: the difficulty is retargeted at the
/// block time that retargeting goes by. Where there is none, nothing
/// changes.
pub open spec fn retargeted(l: LedgerView) -> LedgerView {
    match retarget_average(l) {
        Some(avg) => LedgerView {
            difficulty: retarget(
                l.difficulty,
                l.min_difficulty,
                l.max_difficulty,
                l.target_block_time,
                avg,
            ),
            ..l
        },
        None => l,
    }
}

/// The ledger after `block`, which took `duration` to mine, was appended:
/// block and duration are recorded, the moving average takes the duration
/// in, and where the chain's length is then a multiple of the adjustment
/// interval the difficulty is retargeted.
pub open spec fn recorded(l: LedgerView, block: BlockView, duration: u64) -> LedgerView {
    let pushed = LedgerView {
        chain: l.chain.push(block),
        mining_durations: l.mining_durations.push(duration),
        ema_block_time: Some(next_ema(l.ema_block_time, duration)),
        mined_digits: l.mined_digits.push(whole_digits(l.difficulty)),
        ..l
    };
    if (pushed.chain.len() as int) % (l.adjustment_interval as int) == 0 {
        retargeted(pushed)
    } else {
        pushed
    }
}

/// Whether `after` is `before` with one more block that `miner` mined from
/// `transactions` on top of the last block, at the whole digits of the
/// difficulty of `before`, and that took `duration` to mine.
pub open spec fn extends_by(
    before: LedgerView,
    after: LedgerView,
    transactions: Seq<TransactionView>,
    miner: MinerView,
    duration: u64,
) -> bool {
    let block = after.chain.last();
    &&& after.chain.len() == before.chain.len() + 1
    &&& is_mined_from(
        unmined(transactions, before.chain.last().hash, miner.name, block.timestamp),
        miner.mining_power_milli,
        whole_digits(before.difficulty),
        block,
    )
    &&& after == recorded(before, block, duration)
}

/// The transactions of the genesis block: one transfer of nothing from
/// `"system"` to `"genesis"`.
pub open spec fn genesis_transactions() -> Seq<TransactionView> {
    seq![
        TransactionView {
            payload: PayloadView::PeaceTransfer { amount: 0 },
            sender_id: "system"@,
            receiver_id: "genesis"@,
            timestamp: "2025-03-04"@,
            global_tx_id: "genesis_tx"@,
        },
    ]
}

/// Whether `tx` records that `revoker` withdrew `target`'s access.
pub open spec fn is_revocation_of(tx: TransactionView, revoker: Seq<char>, target: Seq<char>) -> bool {
    tx.payload == (PayloadView::KeyRevocation { revoker, target })
}

/// `txs` without the revocations of `target`'s access by `revoker`.
pub open spec fn without_revocation(
    txs: Seq<TransactionView>,
    revoker: Seq<char>,
    target: Seq<char>,
) -> Seq<TransactionView>
    decreases txs.len(),
{
    if txs.len() == 0 {
        Seq::empty()
    } else if is_revocation_of(txs.last(), revoker, target) {
        without_revocation(txs.drop_last(), revoker, target)
    } else {
        without_revocation(txs.drop_last(), revoker, target).push(txs.last())
    }
}

/// `chain` with those revocations removed from every block. Nothing else
/// in a block changes, its hash included.
pub open spec fn swept(chain: Seq<BlockView>, revoker: Seq<char>, target: Seq<char>) -> Seq<
    BlockView,
> {
    Seq::new(
        chain.len(),
        |i: int|
            BlockView {
                transactions: without_revocation(chain[i].transactions, revoker, target),
                ..chain[i]
            },
    )
}

/// In a ledger every block but the first names the hash of the block
/// before it.
pub proof fn lemma_chain_is_linked(l: LedgerView, i: int)
    requires
        ledger_wf(l),
        0 < i < l.chain.len(),
    ensures
        l.chain[i].previous_hash == l.chain[i - 1].hash,
{
}

/// In a ledger the hash of every block has as many leading zeros as the
/// difficulty had whole digits when the block was mined.
pub proof fn lemma_chain_proves_work(l: LedgerView, i: int)
    requires
        ledger_wf(l),
        0 <= i < l.chain.len(),
    ensures
        has_zero_prefix(l.chain[i].hash, l.mined_digits[i]),
{
}

/// An appended block holds the transactions that were handed in, names the
/// hash of the block before it, stores the hash of its own content, and
/// that hash has as many leading zeros as the difficulty had whole digits
/// when the block was mined. The blocks before it stay as they were.
pub proof fn lemma_appended_block(
    before: LedgerView,
    after: LedgerView,
    transactions: Seq<TransactionView>,
    miner: MinerView,
    duration: u64,
)
    requires
        before.chain.len() >= 1,
        extends_by(before, after, transactions, miner, duration),
    ensures
        after.chain == before.chain.push(after.chain.last()),
        after.chain.last().transactions == transactions,
        after.chain.last().previous_hash == before.chain.last().hash,
        after.chain.last().miner_name == miner.name,
        is_sealed(after.chain.last()),
        has_zero_prefix(after.chain.last().hash, whole_digits(before.difficulty)),
        all_sealed(before.chain) ==> all_sealed(after.chain),
{
    let block = after.chain.last();
    assert(after.chain == recorded(before, block, duration).chain);
    assert(after.chain =~= before.chain.push(block));
}

/// After a sweep no transaction of the list is a revocation of `target`'s
/// access by `revoker`, and what any other probe counts is as before.
pub proof fn lemma_without_revocation_hits(
    txs: Seq<TransactionView>,
    revoker: Seq<char>,
    target: Seq<char>,
    probe: ProbeView,
)
    ensures
        hits_in(without_revocation(txs, revoker, target), ProbeView::RevocationOf { revoker, target })
            == 0,
        probe != (ProbeView::RevocationOf { revoker, target }) ==> hits_in(
            without_revocation(txs, revoker, target),
            probe,
        ) == hits_in(txs, probe),
    decreases txs.len(),
{
    if txs.len() > 0 {
        lemma_without_revocation_hits(txs.drop_last(), revoker, target, probe);
        let kept = without_revocation(txs.drop_last(), revoker, target);
        if !is_revocation_of(txs.last(), revoker, target) {
            assert(kept.push(txs.last()).drop_last() =~= kept);
        }
    }
}

/// A list without such revocations is swept to itself.
pub proof fn lemma_without_revocation_keeps_clean(
    txs: Seq<TransactionView>,
    revoker: Seq<char>,
    target: Seq<char>,
)
    requires
        hits_in(txs, ProbeView::RevocationOf { revoker, target }) == 0,
    ensures
        without_revocation(txs, revoker, target) == txs,
    decreases txs.len(),
{
    if txs.len() > 0 {
        lemma_without_revocation_keeps_clean(txs.drop_last(), revoker, target);
        assert(txs.drop_last().push(txs.last()) =~= txs);
    } else {
        assert(without_revocation(txs, revoker, target) =~= txs);
    }
}

/// After a sweep the chain holds no revocation of `target`'s access by
/// `revoker`, and what any other probe counts is as before.
pub proof fn lemma_sweep_hits(
    chain: Seq<BlockView>,
    revoker: Seq<char>,
    target: Seq<char>,
    probe: ProbeView,
)
    ensures
        hits_in_chain(swept(chain, revoker, target), ProbeView::RevocationOf { revoker, target })
            == 0,
        probe != (ProbeView::RevocationOf { revoker, target }) ==> hits_in_chain(
            swept(chain, revoker, target),
            probe,
        ) == hits_in_chain(chain, probe),
    decreases chain.len(),
{
    if chain.len() > 0 {
        lemma_sweep_hits(chain.drop_last(), revoker, target, probe);
        lemma_without_revocation_hits(chain.last().transactions, revoker, target, probe);
        assert(swept(chain, revoker, target).drop_last() =~= swept(
            chain.drop_last(),
            revoker,
            target,
        ));
    }
}

/// Retargeting keeps a difficulty that lies between the bounds between
/// them.
pub proof fn lemma_retarget_within_bounds(difficulty: u64, min: u32, max: u32, target: u64, avg: u64)
    requires
        min <= max,
        min * DIFFICULTY_SCALE <= difficulty <= max * DIFFICULTY_SCALE,
    ensures
        min * DIFFICULTY_SCALE <= retarget(difficulty, min, max, target, avg) <= max
            * DIFFICULTY_SCALE,
{
    lemma_scaled_bounds(difficulty, target, avg);
    assert(min * DIFFICULTY_SCALE <= max * DIFFICULTY_SCALE) by (nonlinear_arith)
        requires
            min <= max,
    ;
    assert(max * DIFFICULTY_SCALE <= DIFFICULTY_CAP) by (nonlinear_arith)
        requires
            max <= u32::MAX,
    ;
}

/// Retargeting moves a difficulty between the bounds the right way. Blocks
/// that come faster than half the target time raise it, unless it stands at
/// the upper bound or at zero. Blocks that come slower than one and a half
/// times the target time lower it, unless it stands at the lower bound.
/// Anything in between leaves it as it is.
pub proof fn lemma_retarget_direction(difficulty: u64, min: u32, max: u32, target: u64, avg: u64)
    requires
        min <= max,
        min * DIFFICULTY_SCALE <= difficulty <= max * DIFFICULTY_SCALE,
    ensures
        2 * avg < target && 0 < difficulty < max * DIFFICULTY_SCALE ==> retarget(
            difficulty,
            min,
            max,
            target,
            avg,
        ) > difficulty,
        2 * avg > 3 * target && difficulty > min * DIFFICULTY_SCALE ==> retarget(
            difficulty,
            min,
            max,
            target,
            avg,
        ) < difficulty,
        2 * avg >= target && 2 * avg <= 3 * target ==> retarget(difficulty, min, max, target, avg)
            == difficulty,
{
    let d = difficulty as int;
    let t = target as int;
    let a = avg as int;
    lemma_retarget_within_bounds(difficulty, min, max, target, avg);
    if 2 * a < t && 0 < d && a > 0 {
        assert(2 * d * a <= d * t) by (nonlinear_arith)
            requires
                2 * a <= t,
                d >= 0,
        ;
        lemma_div_is_ordered(2 * d * a, d * t, a);
        lemma_div_multiples_vanish(2 * d, a);
        assert(2 * d * a == a * (2 * d)) by (nonlinear_arith);
    }
    if 2 * a > 3 * t && d > 0 {
        assert(3 * (d * t) < 2 * d * a) by (nonlinear_arith)
            requires
                3 * t < 2 * a,
                d > 0,
        ;
        assert(0 <= d * t) by (nonlinear_arith)
            requires
                t >= 0,
                d >= 0,
        ;
        let q = d * t / a;
        vstd::arithmetic::div_mod::lemma_fundamental_div_mod(d * t, a);
        vstd::arithmetic::div_mod::lemma_mod_bound(d * t, a);
        assert(a * q <= d * t);
        assert(q < d) by (nonlinear_arith)
            requires
                a * q <= d * t,
                3 * (d * t) < 2 * d * a,
                a > 0,
                d > 0,
                0 <= d * t,
        ;
    }
}

/// Retargeting at an average outside the band moves the difficulty the
/// right way: not down for fast blocks, not up for slow ones.
proof fn lemma_scaled_bounds(difficulty: u64, target: u64, avg: u64)
    ensures
        avg > 0 && 2 * avg < target ==> difficulty * target / (avg as int) >= difficulty,
        2 * avg > 3 * target ==> 0 <= difficulty * target / (avg as int) <= difficulty,
{
    let d = difficulty as int;
    let t = target as int;
    let a = avg as int;
    if a > 0 && 2 * a < t {
        assert(d * a <= d * t) by (nonlinear_arith)
            requires
                a <= t,
                d >= 0,
        ;
        lemma_div_is_ordered(d * a, d * t, a);
        lemma_div_multiples_vanish(d, a);
        assert(d * a == a * d) by (nonlinear_arith);
    }
    if 2 * a > 3 * t {
        assert(d * t <= d * a) by (nonlinear_arith)
            requires
                t <= a,
                d >= 0,
        ;
        assert(0 <= d * t) by (nonlinear_arith)
            requires
                t >= 0,
                d >= 0,
        ;
        lemma_div_is_ordered(d * t, d * a, a);
        lemma_div_is_ordered(0, d * t, a);
        lemma_div_multiples_vanish(d, a);
        assert(d * a == a * d) by (nonlinear_arith);
    }
}

/// The difficulty after retargeting at an average block time of `avg`.
fn retarget_value(difficulty: u64, min: u32, max: u32, target: u64, avg: u64) -> (r: u64)
    requires
        difficulty <= DIFFICULTY_CAP,
    ensures
        r == retarget(difficulty, min, max, target, avg),
        r <= DIFFICULTY_CAP,
{
    let floor: u64 = min as u64 * DIFFICULTY_SCALE;
    let ceiling: u64 = max as u64 * DIFFICULTY_SCALE;
    let d: u128 = difficulty as u128;
    let t: u128 = target as u128;
    let a: u128 = avg as u128;
    proof {
        lemma_scaled_bounds(difficulty, target, avg);
        assert(d * t <= DIFFICULTY_CAP * u64::MAX) by (nonlinear_arith)
            requires
                0 <= d <= DIFFICULTY_CAP,
                0 <= t <= u64::MAX,
        ;
    }
    if 2 * a < t {
        if avg == 0 {
            if difficulty == 0 {
                0
            } else {
                ceiling
            }
        } else {
            let scaled: u128 = d * t / a;
            if scaled > ceiling as u128 {
                ceiling
            } else {
                scaled as u64
            }
        }
    } else if 2 * a > 3 * t {
        let scaled: u128 = d * t / a;
        if scaled < floor as u128 {
            floor
        } else {
            scaled as u64
        }
    } else {
        difficulty
    }
}

/// The ledger that starts with `genesis` as its only block.
pub open spec fn initial_ledger(
    genesis: BlockView,
    initial_difficulty: u32,
    max_difficulty: u32,
    min_difficulty: u32,
    target_block_time: u64,
    adjustment_interval: usize,
    miners: Seq<MinerView>,
) -> LedgerView {
    LedgerView {
        chain: seq![genesis],
        difficulty: (initial_difficulty * DIFFICULTY_SCALE) as u64,
        max_difficulty,
        min_difficulty,
        target_block_time,
        adjustment_interval,
        miners,
        mining_durations: Seq::empty(),
        ema_block_time: None,
        mined_digits: seq![initial_difficulty as nat],
    }
}

/// The genesis block before the search, for a ledger whose first miner is
/// `miner`: the genesis transactions on top of the hash `"0"`.
pub open spec fn unmined_genesis(miner: MinerView, timestamp: u64) -> BlockView {
    unmined(genesis_transactions(), "0"@, miner.name, timestamp)
}

/// Whether `after` is `before` with one more block, mined by a miner of the
/// roster that is called `name`.
pub open spec fn extends_by_miner_named(
    before: LedgerView,
    after: LedgerView,
    transactions: Seq<TransactionView>,
    name: Seq<char>,
) -> bool {
    exists|i: int, duration: u64|
        0 <= i < before.miners.len() && before.miners[i].name == name && #[trigger] extends_by(
            before,
            after,
            transactions,
            before.miners[i],
            duration,
        )
}

/// Whether some miner of the roster finds no nonce for a block of
/// `transactions` stamped `timestamp` on top of the last block.
pub open spec fn exhausted_for_some_miner(
    before: LedgerView,
    transactions: Seq<TransactionView>,
    timestamp: u64,
) -> bool {
    exists|i: int|
        0 <= i < before.miners.len() && nonce_space_exhausted(
            unmined(transactions, before.chain.last().hash, (#[trigger] before.miners[i]).name, timestamp),
            before.miners[i].mining_power_milli,
            whole_digits(before.difficulty),
        )
}

/// The transactions of `txs` that are no revocation of `target`'s access
/// by `revoker`, in order.
fn retain_other_than(txs: &Vec<Transaction>, revoker: &str, target: &str) -> (r: Vec<Transaction>)
    ensures
        r.deep_view() == without_revocation(txs.deep_view(), revoker@, target@),
{
    let mut kept: Vec<Transaction> = Vec::new();
    let mut i: usize = 0;
    assert(txs.deep_view().take(0) =~= Seq::<TransactionView>::empty());
    assert(kept.deep_view() =~= Seq::<TransactionView>::empty());
    while i < txs.len()
        invariant
            i <= txs.len(),
            kept.deep_view() == without_revocation(txs.deep_view().take(i as int), revoker@, target@),
        decreases txs.len() - i,
    {
        let tx = &txs[i];
        let stale = match &tx.payload {
            Payload::KeyRevocation { revoker: r, target: t } => same_text(r.as_str(), revoker)
                && same_text(t.as_str(), target),
            _ => false,
        };
        proof {
            let next = txs.deep_view().take(i + 1);
            assert(next.drop_last() =~= txs.deep_view().take(i as int));
            assert(next.last() == tx@);
            assert(stale == is_revocation_of(tx@, revoker@, target@));
        }
        if !stale {
            let ghost before = kept.deep_view();
            kept.push(tx.clone());
            assert(kept.deep_view() =~= before.push(tx@));
        }
        i += 1;
    }
    assert(txs.deep_view().take(i as int) =~= txs.deep_view());
    kept
}

impl View for GlobalLedger {
    type V = LedgerView;

    closed spec fn view(&self) -> LedgerView {
        LedgerView {
            chain: self.chain.deep_view(),
            difficulty: self.difficulty,
            max_difficulty: self.max_difficulty,
            min_difficulty: self.min_difficulty,
            target_block_time: self.target_block_time,
            adjustment_interval: self.adjustment_interval,
            miners: self.miners.deep_view(),
            mining_durations: self.mining_durations@,
            ema_block_time: self.ema_block_time,
            mined_digits: self.mined_digits@,
        }
    }
}

impl GlobalLedger {
    /// Whether this ledger satisfies what every ledger satisfies.
    pub open spec fn wf(&self) -> bool {
        ledger_wf(self@)
    }

    /// The blocks, the genesis block first.
    pub fn get_chain(&self) -> (r: &Vec<GlobalBlock>)
        ensures
            r.deep_view() == self@.chain,
    {
        &self.chain
    }

    /// The current difficulty, in millionths of a digit.
    pub fn get_difficulty(&self) -> (r: u64)
        ensures
            r == self@.difficulty,
    {
        self.difficulty
    }

    /// The upper bound of retargeting, in whole digits.
    pub fn get_max_difficulty(&self) -> (r: u32)
        ensures
            r == self@.max_difficulty,
    {
        self.max_difficulty
    }

    /// The lower bound of retargeting, in whole digits.
    pub fn get_min_difficulty(&self) -> (r: u32)
        ensures
            r == self@.min_difficulty,
    {
        self.min_difficulty
    }

    /// The block time that retargeting steers towards, in nanoseconds.
    pub fn get_target_block_time(&self) -> (r: u64)
        ensures
            r == self@.target_block_time,
    {
        self.target_block_time
    }

    /// After how many blocks the difficulty is retargeted.
    pub fn get_adjustment_interval(&self) -> (r: usize)
        ensures
            r == self@.adjustment_interval,
    {
        self.adjustment_interval
    }

    /// The roster of miners.
    pub fn get_miners(&self) -> (r: &Vec<Miner>)
        ensures
            r.deep_view() == self@.miners,
    {
        &self.miners
    }

    /// How long each block after the genesis block took to mine, in
    /// nanoseconds.
    pub fn get_mining_durations(&self) -> (r: &Vec<u64>)
        ensures
            r@ == self@.mining_durations,
    {
        &self.mining_durations
    }

    /// The moving average of the mining durations, in nanoseconds.
    pub fn get_ema_block_time(&self) -> (r: Option<u64>)
        ensures
            r == self@.ema_block_time,
    {
        self.ema_block_time
    }

    /// The whole digits of the current difficulty: the number of leading
    /// zeros that the next block's hash must have.
    pub fn difficulty_digits(&self) -> (r: usize)
        requires
            self.wf(),
        ensures
            r == whole_digits(self@.difficulty),
    {
        (self.difficulty / DIFFICULTY_SCALE) as usize
    }

    /// A ledger whose genesis block is stamped `timestamp` and mined by the
    /// first miner at `initial_difficulty` digits. `None` where that search
    /// runs out of nonces.
    pub fn new_at(
        initial_difficulty: u32,
        max_difficulty: u32,
        min_difficulty: u32,
        target_block_time: u64,
        adjustment_interval: usize,
        miners: Vec<Miner>,
        timestamp: u64,
    ) -> (r: Option<Self>)
        requires
            miners.len() > 0,
        ensures
            match r {
                Some(l) => {
                    &&& l.wf()
                    &&& all_sealed(l@.chain)
                    &&& l@.chain.len() == 1
                    &&& is_mined_from(
                        unmined_genesis(miners[0]@, timestamp),
                        miners[0]@.mining_power_milli,
                        initial_difficulty as nat,
                        l@.chain[0],
                    )
                    &&& l@ == initial_ledger(
                        l@.chain[0],
                        initial_difficulty,
                        max_difficulty,
                        min_difficulty,
                        target_block_time,
                        adjustment_interval,
                        miners.deep_view(),
                    )
                },
                None => nonce_space_exhausted(
                    unmined_genesis(miners[0]@, timestamp),
                    miners[0]@.mining_power_milli,
                    initial_difficulty as nat,
                ),
            },
    {
        let genesis_tx = Transaction::new_peace_transfer(
            "system".to_string(),
            "genesis".to_string(),
            0,
            "2025-03-04".to_string(),
            "genesis_tx".to_string(),
        );
        let transactions = vec![genesis_tx];
        assert(transactions.deep_view() =~= genesis_transactions());
        let genesis = match GlobalBlock::mined_at(
            transactions,
            "0".to_string(),
            &miners[0],
            initial_difficulty as usize,
            timestamp,
        ) {
            Some(b) => b,
            None => { return None; },
        };
        let ghost digits: Seq<nat> = Seq::empty().push(initial_difficulty as nat);
        let mined_digits: Ghost<Seq<nat>> = Ghost(digits);
        let ledger = GlobalLedger {
            chain: vec![genesis],
            difficulty: initial_difficulty as u64 * DIFFICULTY_SCALE,
            max_difficulty,
            min_difficulty,
            target_block_time,
            adjustment_interval,
            miners,
            mining_durations: Vec::new(),
            ema_block_time: None,
            mined_digits,
        };
        assert(ledger@.chain =~= seq![genesis@]);
        Some(ledger)
    }

    /// A ledger whose genesis block is stamped with the current time and
    /// mined by the first miner at `initial_difficulty` digits.
    pub fn new(
        initial_difficulty: u32,
        max_difficulty: u32,
        min_difficulty: u32,
        target_block_time: u64,
        adjustment_interval: usize,
        miners: Vec<Miner>,
    ) -> (r: Result<Self, MiningError>)
        requires
            miners.len() > 0,
        ensures
            r matches Ok(l) ==> {
                &&& l.wf()
                &&& all_sealed(l@.chain)
                &&& l@.chain.len() == 1
                &&& is_mined_from(
                    unmined_genesis(miners[0]@, l@.chain[0].timestamp),
                    miners[0]@.mining_power_milli,
                    initial_difficulty as nat,
                    l@.chain[0],
                )
                &&& l@ == initial_ledger(
                    l@.chain[0],
                    initial_difficulty,
                    max_difficulty,
                    min_difficulty,
                    target_block_time,
                    adjustment_interval,
                    miners.deep_view(),
                )
            },
            r matches Err(MiningError::NonceSpaceExhausted { timestamp }) ==> nonce_space_exhausted(
                unmined_genesis(miners[0]@, timestamp),
                miners[0]@.mining_power_milli,
                initial_difficulty as nat,
            ),
    {
        let timestamp = match unix_time_secs() {
            Some(t) => t,
            None => { return Err(MiningError::ClockBeforeEpoch); },
        };
        match GlobalLedger::new_at(
            initial_difficulty,
            max_difficulty,
            min_difficulty,
            target_block_time,
            adjustment_interval,
            miners,
            timestamp,
        ) {
            Some(l) => {
                assert(l@.chain[0].timestamp == timestamp);
                Ok(l)
            },
            None => Err(MiningError::NonceSpaceExhausted { timestamp }),
        }
    }

    /// Appends `block`, which took `duration` nanoseconds to mine.
    fn record_block(&mut self, block: GlobalBlock, duration: u64)
        requires
            old(self).wf(),
            old(self)@.adjustment_interval > 0,
            block@.previous_hash == old(self)@.chain.last().hash,
            has_zero_prefix(block@.hash, whole_digits(old(self)@.difficulty)),
        ensures
            final(self)@ == recorded(old(self)@, block@, duration),
            final(self).wf(),
            old(self)@.min_difficulty <= old(self)@.max_difficulty && difficulty_in_bounds(old(self)@)
                ==> difficulty_in_bounds(final(self)@),
    {
        let ema: u64 = match self.ema_block_time {
            None => duration,
            Some(e) => ((3 * (duration as u128) + 7 * (e as u128)) / 10) as u64,
        };
        self.mining_durations.push(duration);
        self.chain.push(block);
        self.ema_block_time = Some(ema);
        self.mined_digits = Ghost(self.mined_digits@.push(whole_digits(self.difficulty)));
        proof {
            assert(self.chain.deep_view() =~= old(self).chain.deep_view().push(block@));
            assert(self.miners.deep_view() == old(self).miners.deep_view());
        }
        if self.chain.len() % self.adjustment_interval == 0 {
            self.adjust_difficulty();
        }
    }

    /// Appends a block of `transactions`, stamped `timestamp` and mined by
    /// the miner at `miner_index`, and records that the search took
    /// `duration` nanoseconds. Returns the miner's name. Where the search
    /// runs out of nonces the ledger stays as it was.
    pub fn add_block_at(
        &mut self,
        transactions: Vec<Transaction>,
        miner_index: usize,
        timestamp: u64,
        duration: u64,
    ) -> (r: Result<String, MiningError>)
        requires
            old(self).wf(),
            old(self)@.adjustment_interval > 0,
            miner_index < old(self)@.miners.len(),
        ensures
            final(self).wf(),
            r matches Ok(name) ==> {
                &&& name@ == old(self)@.miners[miner_index as int].name
                &&& final(self)@.chain.last().timestamp == timestamp
                &&& extends_by(
                    old(self)@,
                    final(self)@,
                    transactions.deep_view(),
                    old(self)@.miners[miner_index as int],
                    duration,
                )
                &&& is_sealed(final(self)@.chain.last())
                &&& has_zero_prefix(
                    final(self)@.chain.last().hash,
                    whole_digits(old(self)@.difficulty),
                )
                &&& all_sealed(old(self)@.chain) ==> all_sealed(final(self)@.chain)
            },
            r matches Err(e) ==> {
                &&& e == (MiningError::NonceSpaceExhausted { timestamp })
                &&& final(self)@ == old(self)@
                &&& nonce_space_exhausted(
                    unmined(
                        transactions.deep_view(),
                        old(self)@.chain.last().hash,
                        old(self)@.miners[miner_index as int].name,
                        timestamp,
                    ),
                    old(self)@.miners[miner_index as int].mining_power_milli,
                    whole_digits(old(self)@.difficulty),
                )
            },
            old(self)@.min_difficulty <= old(self)@.max_difficulty && difficulty_in_bounds(old(self)@)
                ==> difficulty_in_bounds(final(self)@),
    {
        let previous_hash = self.chain[self.chain.len() - 1].hash.clone();
        let digits = self.difficulty_digits();
        let name = self.miners[miner_index].name.clone();
        match GlobalBlock::mined_at(
            transactions,
            previous_hash,
            &self.miners[miner_index],
            digits,
            timestamp,
        ) {
            Some(block) => {
                self.record_block(block, duration);
                proof {
                    lemma_appended_block(
                        old(self)@,
                        self@,
                        transactions.deep_view(),
                        old(self)@.miners[miner_index as int],
                        duration,
                    );
                }
                Ok(name)
            },
            None => Err(MiningError::NonceSpaceExhausted { timestamp }),
        }
    }

    /// Appends a block of `transactions`: picks a miner of the roster at
    /// random, has it mine the block at the whole digits of the current
    /// difficulty, and records how long the search took. Returns the
    /// miner's name. On an error the ledger stays as it was.
    pub fn add_block(&mut self, transactions: Vec<Transaction>) -> (r: Result<String, MiningError>)
        requires
            old(self).wf(),
            old(self)@.adjustment_interval > 0,
        ensures
            final(self).wf(),
            r matches Ok(name) ==> {
                &&& extends_by_miner_named(
                    old(self)@,
                    final(self)@,
                    transactions.deep_view(),
                    name@,
                )
                &&& is_sealed(final(self)@.chain.last())
                &&& has_zero_prefix(
                    final(self)@.chain.last().hash,
                    whole_digits(old(self)@.difficulty),
                )
                &&& all_sealed(old(self)@.chain) ==> all_sealed(final(self)@.chain)
            },
            r is Err ==> final(self)@ == old(self)@,
            r matches Err(MiningError::NonceSpaceExhausted { timestamp })
                ==> exhausted_for_some_miner(old(self)@, transactions.deep_view(), timestamp),
            old(self)@.min_difficulty <= old(self)@.max_difficulty && difficulty_in_bounds(old(self)@)
                ==> difficulty_in_bounds(final(self)@),
    {
        let previous_hash = self.chain[self.chain.len() - 1].hash.clone();
        let digits = self.difficulty_digits();
        let miner = choose_one(self.miners.as_slice()).unwrap();
        let ghost i = choose|i: int| 0 <= i < self.miners@.len() && self.miners@[i] == *miner;
        let name = miner.name.clone();
        let start = instant_now();
        let mined = GlobalBlock::new(transactions, previous_hash, miner, digits);
        let duration = elapsed_nanos(&start);
        match mined {
            Ok(block) => {
                self.record_block(block, duration);
                proof {
                    assert(extends_by(
                        old(self)@,
                        self@,
                        transactions.deep_view(),
                        old(self)@.miners[i],
                        duration,
                    ));
                    lemma_appended_block(
                        old(self)@,
                        self@,
                        transactions.deep_view(),
                        old(self)@.miners[i],
                        duration,
                    );
                }
                Ok(name)
            },
            Err(e) => {
                proof {
                    assert(old(self)@.miners[i] == miner@);
                }
                Err(e)
            },
        }
    }

    /// Removes from every block the revocations of `target`'s access by
    /// `revoker`. A block that held one no longer stores the hash of its
    /// content afterwards; the chain stays linked.
    pub fn sweep_revocation(&mut self, revoker: &str, target: &str)
        requires
            old(self).wf(),
        ensures
            final(self).wf(),
            final(self)@ == (LedgerView {
                chain: swept(old(self)@.chain, revoker@, target@),
                ..old(self)@
            }),
    {
        let n = self.chain.len();
        let mut i: usize = 0;
        while i < n
            invariant
                i <= n,
                n == self.chain.len(),
                n == old(self).chain.len(),
                self.difficulty == old(self).difficulty,
                self.max_difficulty == old(self).max_difficulty,
                self.min_difficulty == old(self).min_difficulty,
                self.target_block_time == old(self).target_block_time,
                self.adjustment_interval == old(self).adjustment_interval,
                self.miners == old(self).miners,
                self.mining_durations == old(self).mining_durations,
                self.ema_block_time == old(self).ema_block_time,
                self.mined_digits == old(self).mined_digits,
                forall|j: int|
                    0 <= j < i ==> (#[trigger] self.chain[j])@ == swept(
                        old(self)@.chain,
                        revoker@,
                        target@,
                    )[j],
                forall|j: int| i <= j < n ==> (#[trigger] self.chain[j]) == old(self).chain[j],
            decreases n - i,
        {
            let kept = retain_other_than(&self.chain[i].transactions, revoker, target);
            self.chain[i].transactions = kept;
            i += 1;
        }
        assert(self@.chain =~= swept(old(self)@.chain, revoker@, target@));
    }

    /// Retargets the difficulty at the recent block times.
    pub fn adjust_difficulty(&mut self)
        requires
            old(self).wf(),
        ensures
            final(self)@ == retargeted(old(self)@),
            final(self).wf(),
            old(self)@.min_difficulty <= old(self)@.max_difficulty && difficulty_in_bounds(old(self)@)
                ==> difficulty_in_bounds(final(self)@),
    {
        let n = self.mining_durations.len();
        let start_idx: usize = if n > self.adjustment_interval {
            n - self.adjustment_interval
        } else {
            0
        };
        let ghost recent = recent_durations(self@.mining_durations, self@.adjustment_interval);
        assert(recent =~= self.mining_durations@.subrange(start_idx as int, n as int));
        let avg: u64 = match self.ema_block_time {
            Some(e) => e,
            None => {
                if n == start_idx {
                    return ;
                }
                let mut sum: u128 = 0;
                let mut i: usize = start_idx;
                assert(recent.take(0) =~= Seq::<u64>::empty());
                while i < n
                    invariant
                        start_idx <= i <= n,
                        n == self.mining_durations.len(),
                        recent == self.mining_durations@.subrange(start_idx as int, n as int),
                        sum == sum_of(recent.take(i - start_idx)),
                        sum <= (i - start_idx) * u64::MAX,
                    decreases n - i,
                {
                    proof {
                        let next = recent.take(i + 1 - start_idx);
                        assert(next.drop_last() =~= recent.take(i - start_idx));
                        assert(next.last() == self.mining_durations@[i as int]);
                    }
                    sum = sum + self.mining_durations[i] as u128;
                    i += 1;
                }
                assert(recent.take(n - start_idx) =~= recent);
                (sum / ((n - start_idx) as u128)) as u64
            },
        };
        proof {
            lemma_retarget_bounds_step(self@, avg);
        }
        self.difficulty =
        retarget_value(
            self.difficulty,
            self.min_difficulty,
            self.max_difficulty,
            self.target_block_time,
            avg,
        );
    }
}

/// Where the bounds are in order and the difficulty lies between them, it
/// still does after retargeting at any average.
proof fn lemma_retarget_bounds_step(l: LedgerView, avg: u64)
    ensures
        l.min_difficulty <= l.max_difficulty && difficulty_in_bounds(l) ==> difficulty_in_bounds(
            LedgerView {
                difficulty: retarget(
                    l.difficulty,
                    l.min_difficulty,
                    l.max_difficulty,
                    l.target_block_time,
                    avg,
                ),
                ..l
            },
        ),
{
    if l.min_difficulty <= l.max_difficulty && difficulty_in_bounds(l) {
        lemma_retarget_within_bounds(
            l.difficulty,
            l.min_difficulty,
            l.max_difficulty,
            l.target_block_time,
            avg,
        );
    }
}

} // verus!
