//! Transactions: the twelve kinds of event that the ledger records.

use crate::codec::{
    be_u32, be_u64, framed, framed_text, put_framed, put_text, put_u32, put_u64, text_fits,
};
use crate::crypto::{
    open_sealed, seal, sealed_with, unsealed, MAX_PLAINTEXT_LEN, NONCE_LEN, TAG_LEN,
};
use vstd::prelude::*;
use vstd::utf8::{
    decode_utf8, encode_utf8, encode_utf8_decode_utf8, encode_utf8_valid_utf8, valid_utf8,
};

verus! {

/// The kind of a transaction.
#[derive(Clone, Copy, Debug, PartialEq, Eq, Structural)]
pub enum TransactionType {
    PeaceTransfer,
    ProfileDeletion,
    ProfileUpdate,
    Match,
    KeyRevocation,
    Message,
    Like,
    PhotoShare,
    BlockUser,
    VideoCall,
    ReportUser,
    KeyShare,
}

/// What a transaction carries besides its common fields. Each kind has its
/// own shape, so a transaction cannot hold a field that its kind has no use
/// for, nor lack one that it needs.
#[derive(Debug)]
pub enum Payload {
    /// A transfer of `amount`, counted in the smallest unit of the currency.
    PeaceTransfer { amount: u64 },
    ProfileDeletion { user_id: String },
    ProfileUpdate { user_id: String, updated_profile: Vec<u8> },
    Match { first: String, second: String },
    /// `revoker` withdraws from `target` the means to read `revoker`'s
    /// content.
    KeyRevocation { revoker: String, target: String },
    Message { encrypted_content: Vec<u8> },
    Like,
    PhotoShare { encrypted_content: Vec<u8> },
    BlockUser,
    /// A call that lasted `duration` seconds.
    VideoCall { duration: u32 },
    ReportUser { reason: String },
    KeyShare { encrypted_key: Vec<u8> },
}

/// One event in the ledger.
#[derive(Debug)]
pub struct Transaction {
    pub payload: Payload,
    pub sender_id: String,
    pub receiver_id: String,
    pub timestamp: String,
    pub global_tx_id: String,
}

/// The mathematical value of a `Payload`.
pub enum PayloadView {
    PeaceTransfer { amount: u64 },
    ProfileDeletion { user_id: Seq<char> },
    ProfileUpdate { user_id: Seq<char>, updated_profile: Seq<u8> },
    Match { first: Seq<char>, second: Seq<char> },
    KeyRevocation { revoker: Seq<char>, target: Seq<char> },
    Message { encrypted_content: Seq<u8> },
    Like,
    PhotoShare { encrypted_content: Seq<u8> },
    BlockUser,
    VideoCall { duration: u32 },
    ReportUser { reason: Seq<char> },
    KeyShare { encrypted_key: Seq<u8> },
}

/// The mathematical value of a `Transaction`.
pub struct TransactionView {
    pub payload: PayloadView,
    pub sender_id: Seq<char>,
    pub receiver_id: Seq<char>,
    pub timestamp: Seq<char>,
    pub global_tx_id: Seq<char>,
}

impl View for Payload {
    type V = PayloadView;

    open spec fn view(&self) -> PayloadView {
        match *self {
            Payload::PeaceTransfer { amount } => PayloadView::PeaceTransfer { amount },
            Payload::ProfileDeletion { user_id } => PayloadView::ProfileDeletion {
                user_id: user_id@,
            },
            Payload::ProfileUpdate { user_id, updated_profile } => PayloadView::ProfileUpdate {
                user_id: user_id@,
                updated_profile: updated_profile@,
            },
            Payload::Match { first, second } => PayloadView::Match {
                first: first@,
                second: second@,
            },
            Payload::KeyRevocation { revoker, target } => PayloadView::KeyRevocation {
                revoker: revoker@,
                target: target@,
            },
            Payload::Message { encrypted_content } => PayloadView::Message {
                encrypted_content: encrypted_content@,
            },
            Payload::Like => PayloadView::Like,
            Payload::PhotoShare { encrypted_content } => PayloadView::PhotoShare {
                encrypted_content: encrypted_content@,
            },
            Payload::BlockUser => PayloadView::BlockUser,
            Payload::VideoCall { duration } => PayloadView::VideoCall { duration },
            Payload::ReportUser { reason } => PayloadView::ReportUser { reason: reason@ },
            Payload::KeyShare { encrypted_key } => PayloadView::KeyShare {
                encrypted_key: encrypted_key@,
            },
        }
    }
}

impl View for Transaction {
    type V = TransactionView;

    open spec fn view(&self) -> TransactionView {
        TransactionView {
            payload: self.payload@,
            sender_id: self.sender_id@,
            receiver_id: self.receiver_id@,
            timestamp: self.timestamp@,
            global_tx_id: self.global_tx_id@,
        }
    }
}

impl DeepView for Transaction {
    type V = TransactionView;

    open spec fn deep_view(&self) -> TransactionView {
        self@
    }
}

impl PayloadView {
    /// The kind that this payload belongs to.
    pub open spec fn kind(self) -> TransactionType {
        match self {
            PayloadView::PeaceTransfer { .. } => TransactionType::PeaceTransfer,
            PayloadView::ProfileDeletion { .. } => TransactionType::ProfileDeletion,
            PayloadView::ProfileUpdate { .. } => TransactionType::ProfileUpdate,
            PayloadView::Match { .. } => TransactionType::Match,
            PayloadView::KeyRevocation { .. } => TransactionType::KeyRevocation,
            PayloadView::Message { .. } => TransactionType::Message,
            PayloadView::Like => TransactionType::Like,
            PayloadView::PhotoShare { .. } => TransactionType::PhotoShare,
            PayloadView::BlockUser => TransactionType::BlockUser,
            PayloadView::VideoCall { .. } => TransactionType::VideoCall,
            PayloadView::ReportUser { .. } => TransactionType::ReportUser,
            PayloadView::KeyShare { .. } => TransactionType::KeyShare,
        }
    }
}

/// The text `"system"`, which stands in for the receiver where a
/// transaction has none.
pub open spec fn system_id() -> Seq<char> {
    "system"@
}

/// The text that a message or a shared photo holds for the holder of `key`:
/// `None` for any other kind of transaction, where the cipher rejects the
/// content under `key`, and where the plaintext is not UTF-8.
pub open spec fn content_of(tx: TransactionView, key: Seq<u8>) -> Option<Seq<char>> {
    match tx.payload {
        PayloadView::Message { encrypted_content } | PayloadView::PhotoShare {
            encrypted_content,
        } => match unsealed(key, encrypted_content) {
            Some(plaintext) => if valid_utf8(plaintext) {
                Some(decode_utf8(plaintext))
            } else {
                None
            },
            None => None,
        },
        _ => None,
    }
}

fn clone_bytes(bytes: &Vec<u8>) -> (r: Vec<u8>)
    ensures
        r@ == bytes@,
{
    let r = bytes.clone();
    assert(r@ =~= bytes@);
    r
}

impl Clone for Payload {
    fn clone(&self) -> (r: Self)
        ensures
            r@ == self@,
    {
        match self {
            Payload::PeaceTransfer { amount } => Payload::PeaceTransfer { amount: *amount },
            Payload::ProfileDeletion { user_id } => Payload::ProfileDeletion {
                user_id: user_id.clone(),
            },
            Payload::ProfileUpdate { user_id, updated_profile } => Payload::ProfileUpdate {
                user_id: user_id.clone(),
                updated_profile: clone_bytes(updated_profile),
            },
            Payload::Match { first, second } => Payload::Match {
                first: first.clone(),
                second: second.clone(),
            },
            Payload::KeyRevocation { revoker, target } => Payload::KeyRevocation {
                revoker: revoker.clone(),
                target: target.clone(),
            },
            Payload::Message { encrypted_content } => Payload::Message {
                encrypted_content: clone_bytes(encrypted_content),
            },
            Payload::Like => Payload::Like,
            Payload::PhotoShare { encrypted_content } => Payload::PhotoShare {
                encrypted_content: clone_bytes(encrypted_content),
            },
            Payload::BlockUser => Payload::BlockUser,
            Payload::VideoCall { duration } => Payload::VideoCall { duration: *duration },
            Payload::ReportUser { reason } => Payload::ReportUser { reason: reason.clone() },
            Payload::KeyShare { encrypted_key } => Payload::KeyShare {
                encrypted_key: clone_bytes(encrypted_key),
            },
        }
    }
}

impl Clone for Transaction {
    fn clone(&self) -> (r: Self)
        ensures
            r@ == self@,
    {
        Transaction {
            payload: self.payload.clone(),
            sender_id: self.sender_id.clone(),
            receiver_id: self.receiver_id.clone(),
            timestamp: self.timestamp.clone(),
            global_tx_id: self.global_tx_id.clone(),
        }
    }
}

impl Transaction {
    /// The kind of this transaction.
    pub fn transaction_type(&self) -> (r: TransactionType)
        ensures
            r == self@.payload.kind(),
    {
        match &self.payload {
            Payload::PeaceTransfer { .. } => TransactionType::PeaceTransfer,
            Payload::ProfileDeletion { .. } => TransactionType::ProfileDeletion,
            Payload::ProfileUpdate { .. } => TransactionType::ProfileUpdate,
            Payload::Match { .. } => TransactionType::Match,
            Payload::KeyRevocation { .. } => TransactionType::KeyRevocation,
            Payload::Message { .. } => TransactionType::Message,
            Payload::Like => TransactionType::Like,
            Payload::PhotoShare { .. } => TransactionType::PhotoShare,
            Payload::BlockUser => TransactionType::BlockUser,
            Payload::VideoCall { .. } => TransactionType::VideoCall,
            Payload::ReportUser { .. } => TransactionType::ReportUser,
            Payload::KeyShare { .. } => TransactionType::KeyShare,
        }
    }

    /// A transfer of `amount` from `sender_id` to `receiver_id`.
    pub fn new_peace_transfer(
        sender_id: String,
        receiver_id: String,
        amount: u64,
        timestamp: String,
        global_tx_id: String,
    ) -> (r: Self)
        ensures
            r@ == (TransactionView {
                payload: PayloadView::PeaceTransfer { amount },
                sender_id: sender_id@,
                receiver_id: receiver_id@,
                timestamp: timestamp@,
                global_tx_id: global_tx_id@,
            }),
    {
        Transaction {
            payload: Payload::PeaceTransfer { amount },
            sender_id,
            receiver_id,
            timestamp,
            global_tx_id,
        }
    }

    /// The deletion of `user_id`'s profile, addressed to the system.
    pub fn new_profile_deletion(user_id: String, timestamp: String, global_tx_id: String) -> (r:
        Self)
        ensures
            r@ == (TransactionView {
                payload: PayloadView::ProfileDeletion { user_id: user_id@ },
                sender_id: user_id@,
                receiver_id: system_id(),
                timestamp: timestamp@,
                global_tx_id: global_tx_id@,
            }),
    {
        Transaction {
            payload: Payload::ProfileDeletion { user_id: user_id.clone() },
            sender_id: user_id,
            receiver_id: "system".to_string(),
            timestamp,
            global_tx_id,
        }
    }

    /// The replacement of `user_id`'s encrypted profile by `updated_profile`,
    /// addressed to the system.
    pub fn new_profile_update(
        user_id: String,
        updated_profile: Vec<u8>,
        timestamp: String,
        global_tx_id: String,
    ) -> (r: Self)
        ensures
            r@ == (TransactionView {
                payload: PayloadView::ProfileUpdate {
                    user_id: user_id@,
                    updated_profile: updated_profile@,
                },
                sender_id: user_id@,
                receiver_id: system_id(),
                timestamp: timestamp@,
                global_tx_id: global_tx_id@,
            }),
    {
        Transaction {
            payload: Payload::ProfileUpdate { user_id: user_id.clone(), updated_profile },
            sender_id: user_id,
            receiver_id: "system".to_string(),
            timestamp,
            global_tx_id,
        }
    }

    /// A match between `user_id1` and `user_id2`.
    pub fn new_match(user_id1: String, user_id2: String, timestamp: String, global_tx_id: String) -> (r:
        Self)
        ensures
            r@ == (TransactionView {
                payload: PayloadView::Match { first: user_id1@, second: user_id2@ },
                sender_id: user_id1@,
                receiver_id: user_id2@,
                timestamp: timestamp@,
                global_tx_id: global_tx_id@,
            }),
    {
        Transaction {
            payload: Payload::Match { first: user_id1.clone(), second: user_id2.clone() },
            sender_id: user_id1,
            receiver_id: user_id2,
            timestamp,
            global_tx_id,
        }
    }

    /// `revoker_id` withdraws from `target_id` the means to read
    /// `revoker_id`'s content.
    pub fn new_key_revocation(
        revoker_id: String,
        target_id: String,
        timestamp: String,
        global_tx_id: String,
    ) -> (r: Self)
        ensures
            r@ == (TransactionView {
                payload: PayloadView::KeyRevocation { revoker: revoker_id@, target: target_id@ },
                sender_id: revoker_id@,
                receiver_id: target_id@,
                timestamp: timestamp@,
                global_tx_id: global_tx_id@,
            }),
    {
        Transaction {
            payload: Payload::KeyRevocation {
                revoker: revoker_id.clone(),
                target: target_id.clone(),
            },
            sender_id: revoker_id,
            receiver_id: target_id,
            timestamp,
            global_tx_id,
        }
    }

    /// A message whose text, `content`, is encrypted under `shared_key`
    /// with a fresh nonce. The holder of `shared_key` reads `content` back
    /// from it.
    pub fn new_message(
        sender_id: String,
        receiver_id: String,
        content: &str,
        shared_key: &[u8; 32],
        timestamp: String,
        global_tx_id: String,
    ) -> (r: Self)
        requires
            encode_utf8(content@).len() <= MAX_PLAINTEXT_LEN,
        ensures
            r@.sender_id == sender_id@,
            r@.receiver_id == receiver_id@,
            r@.timestamp == timestamp@,
            r@.global_tx_id == global_tx_id@,
            exists|nonce: Seq<u8>|
                nonce.len() == NONCE_LEN && r@.payload == (PayloadView::Message {
                    encrypted_content: #[trigger] sealed_with(
                        shared_key@,
                        nonce,
                        encode_utf8(content@),
                    ),
                }),
            r@.payload matches PayloadView::Message { encrypted_content } && encrypted_content.len()
                == NONCE_LEN + encode_utf8(content@).len() + TAG_LEN,
            content_of(r@, shared_key@) == Some(content@),
    {
        let encrypted_content = seal(shared_key, content.as_bytes());
        proof {
            encode_utf8_valid_utf8(content@);
            encode_utf8_decode_utf8(content@);
        }
        Transaction {
            payload: Payload::Message { encrypted_content },
            sender_id,
            receiver_id,
            timestamp,
            global_tx_id,
        }
    }

    /// A like of `receiver_id` by `sender_id`.
    pub fn new_like(sender_id: String, receiver_id: String, timestamp: String, global_tx_id: String) -> (r:
        Self)
        ensures
            r@ == (TransactionView {
                payload: PayloadView::Like,
                sender_id: sender_id@,
                receiver_id: receiver_id@,
                timestamp: timestamp@,
                global_tx_id: global_tx_id@,
            }),
    {
        Transaction { payload: Payload::Like, sender_id, receiver_id, timestamp, global_tx_id }
    }

    /// A shared photo whose content, `content`, is encrypted under
    /// `shared_key` with a fresh nonce. The holder of `shared_key` reads
    /// `content` back from it.
    pub fn new_photo_share(
        sender_id: String,
        receiver_id: String,
        content: &str,
        shared_key: &[u8; 32],
        timestamp: String,
        global_tx_id: String,
    ) -> (r: Self)
        requires
            encode_utf8(content@).len() <= MAX_PLAINTEXT_LEN,
        ensures
            r@.sender_id == sender_id@,
            r@.receiver_id == receiver_id@,
            r@.timestamp == timestamp@,
            r@.global_tx_id == global_tx_id@,
            exists|nonce: Seq<u8>|
                nonce.len() == NONCE_LEN && r@.payload == (PayloadView::PhotoShare {
                    encrypted_content: #[trigger] sealed_with(
                        shared_key@,
                        nonce,
                        encode_utf8(content@),
                    ),
                }),
            r@.payload matches PayloadView::PhotoShare { encrypted_content } && encrypted_content.len()
                == NONCE_LEN + encode_utf8(content@).len() + TAG_LEN,
            content_of(r@, shared_key@) == Some(content@),
    {
        let encrypted_content = seal(shared_key, content.as_bytes());
        proof {
            encode_utf8_valid_utf8(content@);
            encode_utf8_decode_utf8(content@);
        }
        Transaction {
            payload: Payload::PhotoShare { encrypted_content },
            sender_id,
            receiver_id,
            timestamp,
            global_tx_id,
        }
    }

    /// `sender_id` blocks `receiver_id`.
    pub fn new_block_user(
        sender_id: String,
        receiver_id: String,
        timestamp: String,
        global_tx_id: String,
    ) -> (r: Self)
        ensures
            r@ == (TransactionView {
                payload: PayloadView::BlockUser,
                sender_id: sender_id@,
                receiver_id: receiver_id@,
                timestamp: timestamp@,
                global_tx_id: global_tx_id@,
            }),
    {
        Transaction { payload: Payload::BlockUser, sender_id, receiver_id, timestamp, global_tx_id }
    }

    /// A video call of `duration` seconds.
    pub fn new_video_call(
        sender_id: String,
        receiver_id: String,
        duration: u32,
        timestamp: String,
        global_tx_id: String,
    ) -> (r: Self)
        ensures
            r@ == (TransactionView {
                payload: PayloadView::VideoCall { duration },
                sender_id: sender_id@,
                receiver_id: receiver_id@,
                timestamp: timestamp@,
                global_tx_id: global_tx_id@,
            }),
    {
        Transaction {
            payload: Payload::VideoCall { duration },
            sender_id,
            receiver_id,
            timestamp,
            global_tx_id,
        }
    }

    /// `sender_id` reports `receiver_id` for `reason`.
    pub fn new_report_user(
        sender_id: String,
        receiver_id: String,
        reason: String,
        timestamp: String,
        global_tx_id: String,
    ) -> (r: Self)
        ensures
            r@ == (TransactionView {
                payload: PayloadView::ReportUser { reason: reason@ },
                sender_id: sender_id@,
                receiver_id: receiver_id@,
                timestamp: timestamp@,
                global_tx_id: global_tx_id@,
            }),
    {
        Transaction {
            payload: Payload::ReportUser { reason },
            sender_id,
            receiver_id,
            timestamp,
            global_tx_id,
        }
    }

    /// `sender_id` hands `receiver_id` a profile key, encrypted as
    /// `encrypted_key`.
    pub fn new_key_share(
        sender_id: String,
        receiver_id: String,
        encrypted_key: Vec<u8>,
        timestamp: String,
        global_tx_id: String,
    ) -> (r: Self)
        ensures
            r@ == (TransactionView {
                payload: PayloadView::KeyShare { encrypted_key: encrypted_key@ },
                sender_id: sender_id@,
                receiver_id: receiver_id@,
                timestamp: timestamp@,
                global_tx_id: global_tx_id@,
            }),
    {
        Transaction {
            payload: Payload::KeyShare { encrypted_key },
            sender_id,
            receiver_id,
            timestamp,
            global_tx_id,
        }
    }

    /// The text of a message or a shared photo, for the holder of
    /// `shared_key`.
    pub fn decrypt_content(&self, shared_key: &[u8; 32]) -> (r: Option<String>)
        ensures
            match r {
                Some(text) => content_of(self@, shared_key@) == Some(text@),
                None => content_of(self@, shared_key@) is None,
            },
    {
        match &self.payload {
            Payload::Message { encrypted_content } | Payload::PhotoShare { encrypted_content } => {
                match open_sealed(shared_key, encrypted_content.as_slice()) {
                    Some(plaintext) => crate::codec::string_from_utf8(plaintext),
                    None => None,
                }
            },
            _ => None,
        }
    }
}

/// The byte that opens the encoding of a transaction of kind `kind`.
pub open spec fn kind_tag(kind: TransactionType) -> u8 {
    match kind {
        TransactionType::PeaceTransfer => 0,
        TransactionType::ProfileDeletion => 1,
        TransactionType::ProfileUpdate => 2,
        TransactionType::Match => 3,
        TransactionType::KeyRevocation => 4,
        TransactionType::Message => 5,
        TransactionType::Like => 6,
        TransactionType::PhotoShare => 7,
        TransactionType::BlockUser => 8,
        TransactionType::VideoCall => 9,
        TransactionType::ReportUser => 10,
        TransactionType::KeyShare => 11,
    }
}

/// The canonical bytes of what a transaction carries for its kind.
pub open spec fn encode_payload(payload: PayloadView) -> Seq<u8> {
    match payload {
        PayloadView::PeaceTransfer { amount } => be_u64(amount),
        PayloadView::ProfileDeletion { user_id } => framed_text(user_id),
        PayloadView::ProfileUpdate { user_id, updated_profile } => framed_text(user_id) + framed(
            updated_profile,
        ),
        PayloadView::Match { first, second } => framed_text(first) + framed_text(second),
        PayloadView::KeyRevocation { revoker, target } => framed_text(revoker) + framed_text(
            target,
        ),
        PayloadView::Message { encrypted_content } => framed(encrypted_content),
        PayloadView::Like => Seq::empty(),
        PayloadView::PhotoShare { encrypted_content } => framed(encrypted_content),
        PayloadView::BlockUser => Seq::empty(),
        PayloadView::VideoCall { duration } => be_u32(duration),
        PayloadView::ReportUser { reason } => framed_text(reason),
        PayloadView::KeyShare { encrypted_key } => framed(encrypted_key),
    }
}

/// The canonical bytes of one transaction: the tag of its kind, sender and
/// receiver, what it carries for its kind, then timestamp and identifier.
pub open spec fn encode_transaction(tx: TransactionView) -> Seq<u8> {
    seq![kind_tag(tx.payload.kind())] + framed_text(tx.sender_id) + framed_text(tx.receiver_id)
        + encode_payload(tx.payload) + framed_text(tx.timestamp) + framed_text(tx.global_tx_id)
}

/// The canonical bytes of `txs`, one after the other.
pub open spec fn encode_each(txs: Seq<TransactionView>) -> Seq<u8>
    decreases txs.len(),
{
    if txs.len() == 0 {
        Seq::empty()
    } else {
        encode_each(txs.drop_last()) + encode_transaction(txs.last())
    }
}

/// The canonical bytes of a list of transactions: how many there are, then
/// each of them in order.
pub open spec fn encode_transactions(txs: Seq<TransactionView>) -> Seq<u8> {
    be_u64(txs.len() as u64) + encode_each(txs)
}

/// Whether every length in a payload can be written as a `u64`, which holds
/// of every payload in memory.
pub open spec fn payload_fits(p: PayloadView) -> bool {
    match p {
        PayloadView::PeaceTransfer { .. } => true,
        PayloadView::ProfileDeletion { user_id } => text_fits(user_id),
        PayloadView::ProfileUpdate { user_id, updated_profile } => text_fits(user_id)
            && updated_profile.len() <= u64::MAX,
        PayloadView::Match { first, second } => text_fits(first) && text_fits(second),
        PayloadView::KeyRevocation { revoker, target } => text_fits(revoker) && text_fits(target),
        PayloadView::Message { encrypted_content } => encrypted_content.len() <= u64::MAX,
        PayloadView::Like => true,
        PayloadView::PhotoShare { encrypted_content } => encrypted_content.len() <= u64::MAX,
        PayloadView::BlockUser => true,
        PayloadView::VideoCall { .. } => true,
        PayloadView::ReportUser { reason } => text_fits(reason),
        PayloadView::KeyShare { encrypted_key } => encrypted_key.len() <= u64::MAX,
    }
}

/// Whether every length in a transaction can be written as a `u64`, which
/// holds of every transaction in memory.
pub open spec fn transaction_fits(tx: TransactionView) -> bool {
    &&& text_fits(tx.sender_id)
    &&& text_fits(tx.receiver_id)
    &&& text_fits(tx.timestamp)
    &&& text_fits(tx.global_tx_id)
    &&& payload_fits(tx.payload)
}

/// Whether a list of transactions can be written in canonical form.
pub open spec fn transactions_fit(txs: Seq<TransactionView>) -> bool {
    &&& txs.len() <= u64::MAX
    &&& forall|i: int| 0 <= i < txs.len() ==> transaction_fits(#[trigger] txs[i])
}

impl Payload {
    /// Appends the canonical bytes of this payload to `out`.
    pub fn encode_into(&self, out: &mut Vec<u8>)
        ensures
            final(out)@ == old(out)@ + encode_payload(self@),
            payload_fits(self@),
    {
        match self {
            Payload::PeaceTransfer { amount } => {
                put_u64(out, *amount);
            },
            Payload::ProfileDeletion { user_id } => {
                put_text(out, user_id.as_str());
            },
            Payload::ProfileUpdate { user_id, updated_profile } => {
                put_text(out, user_id.as_str());
                put_framed(out, updated_profile.as_slice());
                assert(out@ =~= old(out)@ + encode_payload(self@));
            },
            Payload::Match { first, second } => {
                put_text(out, first.as_str());
                put_text(out, second.as_str());
                assert(out@ =~= old(out)@ + encode_payload(self@));
            },
            Payload::KeyRevocation { revoker, target } => {
                put_text(out, revoker.as_str());
                put_text(out, target.as_str());
                assert(out@ =~= old(out)@ + encode_payload(self@));
            },
            Payload::Message { encrypted_content } => {
                put_framed(out, encrypted_content.as_slice());
            },
            Payload::Like => {
                assert(out@ =~= old(out)@ + encode_payload(self@));
            },
            Payload::PhotoShare { encrypted_content } => {
                put_framed(out, encrypted_content.as_slice());
            },
            Payload::BlockUser => {
                assert(out@ =~= old(out)@ + encode_payload(self@));
            },
            Payload::VideoCall { duration } => {
                put_u32(out, *duration);
            },
            Payload::ReportUser { reason } => {
                put_text(out, reason.as_str());
            },
            Payload::KeyShare { encrypted_key } => {
                put_framed(out, encrypted_key.as_slice());
            },
        }
    }
}

impl Transaction {
    /// Appends the canonical bytes of this transaction to `out`.
    pub fn encode_into(&self, out: &mut Vec<u8>)
        ensures
            final(out)@ == old(out)@ + encode_transaction(self@),
            transaction_fits(self@),
    {
        let tag: u8 = match self.transaction_type() {
            TransactionType::PeaceTransfer => 0,
            TransactionType::ProfileDeletion => 1,
            TransactionType::ProfileUpdate => 2,
            TransactionType::Match => 3,
            TransactionType::KeyRevocation => 4,
            TransactionType::Message => 5,
            TransactionType::Like => 6,
            TransactionType::PhotoShare => 7,
            TransactionType::BlockUser => 8,
            TransactionType::VideoCall => 9,
            TransactionType::ReportUser => 10,
            TransactionType::KeyShare => 11,
        };
        out.push(tag);
        put_text(out, self.sender_id.as_str());
        put_text(out, self.receiver_id.as_str());
        self.payload.encode_into(out);
        put_text(out, self.timestamp.as_str());
        put_text(out, self.global_tx_id.as_str());
        assert(out@ =~= old(out)@ + encode_transaction(self@));
    }
}

/// The canonical bytes of a list of transactions.
pub fn encode_transaction_list(txs: &Vec<Transaction>) -> (r: Vec<u8>)
    ensures
        r@ == encode_transactions(txs.deep_view()),
        transactions_fit(txs.deep_view()),
{
    let mut out: Vec<u8> = Vec::new();
    put_u64(&mut out, txs.len() as u64);
    let ghost head = out@;
    let mut i: usize = 0;
    assert(txs.deep_view().take(0) =~= Seq::<TransactionView>::empty());
    while i < txs.len()
        invariant
            i <= txs.len(),
            head == be_u64(txs.len() as u64),
            out@ == head + encode_each(txs.deep_view().take(i as int)),
            forall|j: int| 0 <= j < i ==> transaction_fits(#[trigger] txs.deep_view()[j]),
        decreases txs.len() - i,
    {
        let ghost before = out@;
        txs[i].encode_into(&mut out);
        proof {
            let next = txs.deep_view().take(i + 1);
            assert(next.drop_last() =~= txs.deep_view().take(i as int));
            assert(next.last() == txs[i as int]@);
            assert(out@ =~= head + encode_each(next));
        }
        i += 1;
    }
    assert(txs.deep_view().take(i as int) =~= txs.deep_view());
    out
}

} // verus!
