//! Blocks and the proof-of-work search that seals them.

use crate::clock::unix_time_secs;
use crate::codec::{be_u64, put_raw, put_u64};
use crate::crypto::{
    digest_has_zero_prefix, has_zero_prefix, hex_encode, hex_string, sha3_256, sha3_256_digest,
};
use crate::transaction::{encode_transaction_list, encode_transactions, Transaction, TransactionView};
use vstd::prelude::*;
use vstd::utf8::encode_utf8;

verus! {

/// Why a block could not be produced.
#[derive(Clone, Copy, Debug, PartialEq, Eq, Structural)]
pub enum MiningError {
    /// The wall clock stands before the Unix epoch.
    ClockBeforeEpoch,
    /// No nonce that the miner's stride reaches gives a hash with enough
    /// leading zeros for a block stamped `timestamp`.
    NonceSpaceExhausted { timestamp: u64 },
}

/// An agent that searches for proofs of work.
#[derive(Debug)]
pub struct Miner {
    pub name: String,
    /// Mining power in thousandths. The search advances the nonce by this
    /// much after each failed attempt.
    pub mining_power_milli: u64,
}

/// The mathematical value of a `Miner`.
pub struct MinerView {
    pub name: Seq<char>,
    pub mining_power_milli: u64,
}

impl View for Miner {
    type V = MinerView;

    open spec fn view(&self) -> MinerView {
        MinerView { name: self.name@, mining_power_milli: self.mining_power_milli }
    }
}

impl DeepView for Miner {
    type V = MinerView;

    open spec fn deep_view(&self) -> MinerView {
        self@
    }
}

impl Clone for Miner {
    fn clone(&self) -> (r: Self)
        ensures
            r@ == self@,
    {
        Miner { name: self.name.clone(), mining_power_milli: self.mining_power_milli }
    }
}

/// A batch of transactions, linked to the block before it and sealed by a
/// proof of work.
#[derive(Debug)]
pub struct GlobalBlock {
    pub transactions: Vec<Transaction>,
    pub previous_hash: String,
    pub nonce: u64,
    pub hash: String,
    /// Seconds since the Unix epoch at which the block was made.
    pub timestamp: u64,
    pub miner_name: String,
}

/// The mathematical value of a `GlobalBlock`.
pub struct BlockView {
    pub transactions: Seq<TransactionView>,
    pub previous_hash: Seq<char>,
    pub nonce: u64,
    pub hash: Seq<char>,
    pub timestamp: u64,
    pub miner_name: Seq<char>,
}

impl View for GlobalBlock {
    type V = BlockView;

    open spec fn view(&self) -> BlockView {
        BlockView {
            transactions: self.transactions.deep_view(),
            previous_hash: self.previous_hash@,
            nonce: self.nonce,
            hash: self.hash@,
            timestamp: self.timestamp,
            miner_name: self.miner_name@,
        }
    }
}

impl DeepView for GlobalBlock {
    type V = BlockView;

    open spec fn deep_view(&self) -> BlockView {
        self@
    }
}

/// The bytes that a block's hash is taken over: its transactions in
/// canonical form, the previous hash as text, then nonce and timestamp
/// as big-endian integers.
pub open spec fn hash_input(b: BlockView) -> Seq<u8> {
    encode_transactions(b.transactions) + encode_utf8(b.previous_hash) + be_u64(b.nonce) + be_u64(
        b.timestamp,
    )
}

/// The hash that belongs to a block's content: the digest of its hash
/// input, in hexadecimal.
pub open spec fn block_hash(b: BlockView) -> Seq<char> {
    hex_string(sha3_256(hash_input(b)))
}

/// Whether the hash that a block stores is the hash of its content.
pub open spec fn is_sealed(b: BlockView) -> bool {
    b.hash == block_hash(b)
}

/// A block before the search: nonce zero and no hash yet.
pub open spec fn unmined(
    transactions: Seq<TransactionView>,
    previous_hash: Seq<char>,
    miner_name: Seq<char>,
    timestamp: u64,
) -> BlockView {
    BlockView {
        transactions,
        previous_hash,
        nonce: 0,
        hash: Seq::empty(),
        timestamp,
        miner_name,
    }
}

/// The nonce of the `k`-th attempt of a search that starts at `start` and
/// advances by `stride`.
pub open spec fn attempt_nonce(start: u64, stride: u64, k: nat) -> int {
    start + k * stride
}

/// `b` with the nonce of the `k`-th attempt and the hash that belongs to
/// it.
pub open spec fn mined(b: BlockView, stride: u64, k: nat) -> BlockView {
    let with_nonce = BlockView { nonce: attempt_nonce(b.nonce, stride, k) as u64, ..b };
    BlockView { hash: block_hash(with_nonce), ..with_nonce }
}

/// Whether the `k`-th attempt is within the nonce space and gives a hash
/// with `difficulty` leading zeros.
pub open spec fn attempt_succeeds(b: BlockView, stride: u64, difficulty: nat, k: nat) -> bool {
    attempt_nonce(b.nonce, stride, k) <= u64::MAX && has_zero_prefix(
        mined(b, stride, k).hash,
        difficulty,
    )
}

/// Whether the `k`-th attempt is the first that succeeds.
pub open spec fn first_success(b: BlockView, stride: u64, difficulty: nat, k: nat) -> bool {
    attempt_succeeds(b, stride, difficulty, k) && forall|j: nat|
        j < k ==> !#[trigger] attempt_succeeds(b, stride, difficulty, j)
}

/// Whether `b` is what the search makes of `start`: `start` with the nonce
/// of the first successful attempt and the hash that belongs to it.
pub open spec fn is_mined_from(start: BlockView, stride: u64, difficulty: nat, b: BlockView) -> bool {
    exists|k: nat| #[trigger] first_success(start, stride, difficulty, k) && b == mined(start, stride, k)
}

/// Whether no attempt within the nonce space succeeds.
pub open spec fn nonce_space_exhausted(b: BlockView, stride: u64, difficulty: nat) -> bool {
    forall|k: nat| !#[trigger] attempt_succeeds(b, stride, difficulty, k)
}

/// A search has at most one first success.
pub proof fn lemma_first_success_unique(
    b: BlockView,
    stride: u64,
    difficulty: nat,
    k1: nat,
    k2: nat,
)
    requires
        first_success(b, stride, difficulty, k1),
        first_success(b, stride, difficulty, k2),
    ensures
        k1 == k2,
{
}

/// A block that the search produced stores the hash of its content, and
/// that hash has the leading zeros that were asked for.
pub proof fn lemma_mined_is_sealed(b: BlockView, stride: u64, difficulty: nat, k: nat)
    requires
        first_success(b, stride, difficulty, k),
    ensures
        is_sealed(mined(b, stride, k)),
        has_zero_prefix(mined(b, stride, k).hash, difficulty),
{
}

impl GlobalBlock {
    /// The digest of this block's hash input.
    pub fn compute_digest(&self) -> (r: [u8; 32])
        ensures
            r@ == sha3_256(hash_input(self@)),
    {
        let mut input = encode_transaction_list(&self.transactions);
        put_raw(&mut input, self.previous_hash.as_str().as_bytes());
        put_u64(&mut input, self.nonce);
        put_u64(&mut input, self.timestamp);
        sha3_256_digest(input.as_slice())
    }

    /// The hash that belongs to this block's content.
    pub fn compute_hash(&self) -> (r: String)
        ensures
            r@ == block_hash(self@),
    {
        let digest = self.compute_digest();
        hex_encode(digest.as_slice())
    }

    /// A block of `transactions` stamped `timestamp`, sealed by `miner`'s
    /// search for a hash with `difficulty` leading zeros. `None` where the
    /// search runs out of nonces.
    pub fn mined_at(
        transactions: Vec<Transaction>,
        previous_hash: String,
        miner: &Miner,
        difficulty: usize,
        timestamp: u64,
    ) -> (r: Option<GlobalBlock>)
        ensures
            ({
                let start = unmined(
                    transactions.deep_view(),
                    previous_hash@,
                    miner@.name,
                    timestamp,
                );
                let stride = miner@.mining_power_milli;
                match r {
                    Some(b) => is_mined_from(start, stride, difficulty as nat, b@),
                    None => nonce_space_exhausted(start, stride, difficulty as nat),
                }
            }),
    {
        let mut block = GlobalBlock {
            transactions,
            previous_hash,
            nonce: 0,
            hash: String::new(),
            timestamp,
            miner_name: miner.name.clone(),
        };
        assert(block@ == unmined(
            transactions.deep_view(),
            previous_hash@,
            miner@.name,
            timestamp,
        ));
        if miner.mine_block(&mut block, difficulty) {
            Some(block)
        } else {
            None
        }
    }

    /// A block of `transactions` stamped with the current time and sealed
    /// by `miner`'s search for a hash with `difficulty` leading zeros.
    pub fn new(
        transactions: Vec<Transaction>,
        previous_hash: String,
        miner: &Miner,
        difficulty: usize,
    ) -> (r: Result<GlobalBlock, MiningError>)
        ensures
            r matches Ok(b) ==> is_mined_from(
                unmined(transactions.deep_view(), previous_hash@, miner@.name, b@.timestamp),
                miner@.mining_power_milli,
                difficulty as nat,
                b@,
            ),
            r matches Err(MiningError::NonceSpaceExhausted { timestamp }) ==> nonce_space_exhausted(
                unmined(transactions.deep_view(), previous_hash@, miner@.name, timestamp),
                miner@.mining_power_milli,
                difficulty as nat,
            ),
    {
        let timestamp = match unix_time_secs() {
            Some(t) => t,
            None => { return Err(MiningError::ClockBeforeEpoch); },
        };
        match GlobalBlock::mined_at(transactions, previous_hash, miner, difficulty, timestamp) {
            Some(b) => {
                assert(b@.timestamp == timestamp);
                Ok(b)
            },
            None => Err(MiningError::NonceSpaceExhausted { timestamp }),
        }
    }
}

impl Miner {
    /// A miner called `name` whose search advances the nonce by
    /// `mining_power_milli` per attempt.
    pub fn new(name: String, mining_power_milli: u64) -> (r: Self)
        ensures
            r@ == (MinerView { name: name@, mining_power_milli }),
    {
        Miner { name, mining_power_milli }
    }

    /// Searches for a nonce that gives `block` a hash with `difficulty`
    /// leading zeros. The search starts at the block's nonce and advances
    /// by this miner's stride after every failure. It returns `true` at the
    /// first success, with nonce and hash stored in the block, and `false`
    /// once the next nonce would not fit. Nothing else in the block
    /// changes.
    pub fn mine_block(&self, block: &mut GlobalBlock, difficulty: usize) -> (found: bool)
        ensures
            final(block)@.transactions == old(block)@.transactions,
            final(block)@.previous_hash == old(block)@.previous_hash,
            final(block)@.timestamp == old(block)@.timestamp,
            final(block)@.miner_name == old(block)@.miner_name,
            found ==> is_mined_from(
                old(block)@,
                self@.mining_power_milli,
                difficulty as nat,
                final(block)@,
            ),
            !found ==> nonce_space_exhausted(
                old(block)@,
                self@.mining_power_milli,
                difficulty as nat,
            ),
    {
        let stride: u64 = self.mining_power_milli;
        let ghost start = block@;
        let ghost mut k: nat = 0;
        loop
            invariant
                stride == self@.mining_power_milli,
                start == old(block)@,
                block@.transactions == start.transactions,
                block@.previous_hash == start.previous_hash,
                block@.timestamp == start.timestamp,
                block@.miner_name == start.miner_name,
                block@.nonce == attempt_nonce(start.nonce, stride, k),
                forall|j: nat| j < k ==> !#[trigger] attempt_succeeds(start, stride, difficulty as nat, j),
            decreases u64::MAX - block.nonce,
        {
            let digest = block.compute_digest();
            block.hash = hex_encode(digest.as_slice());
            proof {
                assert(block@ =~= mined(start, stride, k));
            }
            if digest_has_zero_prefix(&digest, difficulty) {
                proof {
                    assert(first_success(start, stride, difficulty as nat, k));
                }
                return true;
            }
            if stride == 0 || block.nonce > u64::MAX - stride {
                proof {
                    assert forall|j: nat| !#[trigger] attempt_succeeds(
                        start,
                        stride,
                        difficulty as nat,
                        j,
                    ) by {
                        if j > k {
                            assert(j * stride >= k * stride + stride) by (nonlinear_arith)
                                requires
                                    j > k,
                            ;
                            if stride == 0 {
                                assert(j * stride == 0) by (nonlinear_arith)
                                    requires
                                        stride == 0,
                                ;
                                assert(k * stride == 0) by (nonlinear_arith)
                                    requires
                                        stride == 0,
                                ;
                                assert(mined(start, stride, j) == mined(start, stride, k));
                            }
                        }
                    }
                }
                return false;
            }
            block.nonce = block.nonce + stride;
            proof {
                assert((k + 1) * stride == k * stride + stride) by (nonlinear_arith);
                k = k + 1;
            }
        }
    }
}

} // verus!
