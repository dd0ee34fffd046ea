//! A user's shard: what one user owns of the ledger's state, and the
//! operations by which the user changes it.

use crate::block::MiningError;
use crate::codec::same_text;
use crate::crypto::{seal, unsealed, MAX_PLAINTEXT_LEN, NONCE_LEN, TAG_LEN};
use crate::filter::{
    insert_pos, interaction_score, ranked, score_of, Interaction, ProfileFilter, Scored,
};
use crate::keystore::{Grant, KeyStore};
use crate::ledger::{extends_by_miner_named, GlobalLedger, LedgerView};
use crate::profile::{decode_record, encode_record, Profile, ProfileView, RawProfileData};
use crate::transaction::{PayloadView, Transaction, TransactionView};
use crate::visibility::{
    classify, inaccessible_ids, is_blocked, lemma_relevant_are_visible, relevant_profiles,
    report_count, shown, visible_profiles, FetchContext, Verdict, REPORT_THRESHOLD,
};
use vstd::prelude::*;

verus! {

/// What one user owns: a balance, transactions, scored interactions,
/// messages, the user's profile, and the profiles that the last fetch
/// showed.
#[derive(Debug)]
pub struct UserShard {
    pub user_id: String,
    /// The balance, counted in the smallest unit of the currency.
    pub balance: u64,
    pub transactions: Vec<Transaction>,
    pub interactions: Vec<Interaction>,
    pub messages: Vec<Transaction>,
    pub profile: Profile,
    /// What the last fetch showed. Every fetch builds it anew.
    pub relevant_profiles: Vec<Profile>,
}

/// The scored list that a list of profiles and a list of scores stand for.
pub open spec fn scored(profiles: Seq<ProfileView>, scores: Seq<u128>) -> Seq<Scored> {
    Seq::new(profiles.len(), |i: int| (profiles[i], scores[i] as nat))
}

/// `db` with `payload` in place of the payload of the first profile of
/// `user`, if there is one.
pub open spec fn with_payload(db: Seq<ProfileView>, user: Seq<char>, payload: Seq<u8>) -> Seq<
    ProfileView,
>
    decreases db.len(),
{
    if db.len() == 0 {
        db
    } else if db[0].user_id == user {
        seq![ProfileView { encrypted_data: payload, ..db[0] }] + db.drop_first()
    } else {
        seq![db[0]] + with_payload(db.drop_first(), user, payload)
    }
}

/// `db` with the first profile of `user` marked as deleted, if there is
/// one.
pub open spec fn with_deleted(db: Seq<ProfileView>, user: Seq<char>) -> Seq<ProfileView>
    decreases db.len(),
{
    if db.len() == 0 {
        db
    } else if db[0].user_id == user {
        seq![ProfileView { is_deleted: true, ..db[0] }] + db.drop_first()
    } else {
        seq![db[0]] + with_deleted(db.drop_first(), user)
    }
}

/// The index of the first profile of `user` in `db`, if there is one.
fn find_profile(db: &Vec<Profile>, user: &str) -> (r: Option<usize>)
    ensures
        match r {
            Some(i) => i < db.len() && db[i as int]@.user_id == user@ && forall|j: int|
                0 <= j < i ==> db[j]@.user_id != user@,
            None => forall|j: int| 0 <= j < db.len() ==> db[j]@.user_id != user@,
        },
{
    let mut i: usize = 0;
    while i < db.len()
        invariant
            i <= db.len(),
            forall|j: int| 0 <= j < i ==> db[j]@.user_id != user@,
        decreases db.len() - i,
    {
        if same_text(db[i].user_id.as_str(), user) {
            return Some(i);
        }
        i += 1;
    }
    None
}

/// Replacing the payload of the profile at the first index of `user`
/// gives `with_payload`.
proof fn lemma_with_payload_at(db: Seq<ProfileView>, user: Seq<char>, payload: Seq<u8>, i: int)
    requires
        0 <= i < db.len(),
        db[i].user_id == user,
        forall|j: int| 0 <= j < i ==> db[j].user_id != user,
    ensures
        with_payload(db, user, payload) == db.update(
            i,
            ProfileView { encrypted_data: payload, ..db[i] },
        ),
    decreases i,
{
    if i == 0 {
        assert(with_payload(db, user, payload) =~= db.update(
            i,
            ProfileView { encrypted_data: payload, ..db[i] },
        ));
    } else {
        let tail = db.drop_first();
        assert forall|j: int| 0 <= j < i - 1 implies tail[j].user_id != user by {
            assert(tail[j] == db[j + 1]);
        }
        lemma_with_payload_at(tail, user, payload, i - 1);
        assert(with_payload(db, user, payload) =~= db.update(
            i,
            ProfileView { encrypted_data: payload, ..db[i] },
        ));
    }
}

/// Marking the profile at the first index of `user` as deleted gives
/// `with_deleted`.
proof fn lemma_with_deleted_at(db: Seq<ProfileView>, user: Seq<char>, i: int)
    requires
        0 <= i < db.len(),
        db[i].user_id == user,
        forall|j: int| 0 <= j < i ==> db[j].user_id != user,
    ensures
        with_deleted(db, user) == db.update(i, ProfileView { is_deleted: true, ..db[i] }),
    decreases i,
{
    if i == 0 {
        assert(with_deleted(db, user) =~= db.update(i, ProfileView { is_deleted: true, ..db[i] }));
    } else {
        let tail = db.drop_first();
        assert forall|j: int| 0 <= j < i - 1 implies tail[j].user_id != user by {
            assert(tail[j] == db[j + 1]);
        }
        lemma_with_deleted_at(tail, user, i - 1);
        assert(with_deleted(db, user) =~= db.update(i, ProfileView { is_deleted: true, ..db[i] }));
    }
}

/// Without a profile of `user` both replacements leave `db` as it is.
proof fn lemma_without_profile(db: Seq<ProfileView>, user: Seq<char>, payload: Seq<u8>)
    requires
        forall|j: int| 0 <= j < db.len() ==> db[j].user_id != user,
    ensures
        with_payload(db, user, payload) == db,
        with_deleted(db, user) == db,
    decreases db.len(),
{
    if db.len() > 0 {
        let tail = db.drop_first();
        assert forall|j: int| 0 <= j < tail.len() implies tail[j].user_id != user by {
            assert(tail[j] == db[j + 1]);
        }
        lemma_without_profile(tail, user, payload);
        assert(with_payload(db, user, payload) =~= db);
        assert(with_deleted(db, user) =~= db);
    }
}

/// Where a profile with score `score` goes into the ranked list that
/// `scores` belongs to.
fn find_insert_pos(scores: &Vec<u128>, score: u128, Ghost(profiles): Ghost<Seq<ProfileView>>) -> (r:
    usize)
    requires
        profiles.len() == scores.len(),
    ensures
        r == insert_pos(scored(profiles, scores@), score as nat),
        r <= scores.len(),
{
    let ghost all = scored(profiles, scores@);
    let mut k: usize = 0;
    assert(all.skip(0) =~= all);
    while k < scores.len() && scores[k] >= score
        invariant
            k <= scores.len(),
            all == scored(profiles, scores@),
            all.len() == scores.len(),
            insert_pos(all, score as nat) == k + insert_pos(all.skip(k as int), score as nat),
        decreases scores.len() - k,
    {
        proof {
            assert(all.skip(k as int)[0] == all[k as int]);
            assert(all.skip(k as int).drop_first() =~= all.skip(k + 1));
        }
        k += 1;
    }
    proof {
        if k < scores.len() {
            assert(all.skip(k as int)[0] == all[k as int]);
        }
    }
    k
}

/// Whether `after` is `before` with one more block, mined by the miner
/// called `name`, whose one transaction hands `recipient` the key `key` of
/// `owner`, encrypted under `secret`.
pub open spec fn shared_in_block(
    before: LedgerView,
    after: LedgerView,
    owner: Seq<char>,
    recipient: Seq<char>,
    key: Seq<u8>,
    secret: Seq<u8>,
    timestamp: Seq<char>,
    global_tx_id: Seq<char>,
    name: Seq<char>,
) -> bool {
    exists|encrypted_key: Seq<u8>|
        unsealed(secret, encrypted_key) == Some(key) && encrypted_key.len() == NONCE_LEN + key.len()
            + TAG_LEN && #[trigger] extends_by_miner_named(
            before,
            after,
            seq![
                TransactionView {
                    payload: PayloadView::KeyShare { encrypted_key },
                    sender_id: owner,
                    receiver_id: recipient,
                    timestamp,
                    global_tx_id,
                },
            ],
            name,
        )
}

impl UserShard {
    /// The shard of `user_id`, with no messages and nothing fetched yet.
    pub fn new(
        user_id: String,
        balance: u64,
        transactions: Vec<Transaction>,
        interactions: Vec<Interaction>,
        profile: Profile,
    ) -> (r: Self)
        ensures
            r.user_id == user_id,
            r.balance == balance,
            r.transactions == transactions,
            r.interactions == interactions,
            r.messages@.len() == 0,
            r.profile == profile,
            r.relevant_profiles@.len() == 0,
    {
        UserShard {
            user_id,
            balance,
            transactions,
            interactions,
            messages: Vec::new(),
            profile,
            relevant_profiles: Vec::new(),
        }
    }

    /// The interaction score of `target_id`: the sum of the scores of this
    /// shard's interactions in which `target_id` is the actor or the
    /// target.
    pub fn calculate_interaction_score(&self, target_id: &str) -> (r: u128)
        ensures
            r == interaction_score(self.interactions.deep_view(), target_id@),
    {
        score_of(&self.interactions, target_id)
    }

    /// Computes what `fetcher_id` sees of `mock_profile_db`, stores it in
    /// this shard in place of what the last fetch showed, and returns the
    /// identities of the candidates that `fetcher_id` cannot read.
    pub fn fetch_relevant_profiles(
        &mut self,
        filter: &ProfileFilter,
        mock_profile_db: &Vec<Profile>,
        shared_keys: &KeyStore,
        fetcher_id: &str,
        ledger: &GlobalLedger,
    ) -> (r: Vec<String>)
        ensures
            ({
                let ctx = FetchContext {
                    fetcher: fetcher_id@,
                    chain: ledger@.chain,
                    keys: shared_keys@,
                    filter: filter@,
                    interactions: old(self).interactions.deep_view(),
                };
                &&& r.deep_view() == inaccessible_ids(ctx, mock_profile_db.deep_view())
                &&& final(self).relevant_profiles.deep_view() == relevant_profiles(
                    ctx,
                    mock_profile_db.deep_view(),
                )
            }),
            forall|k: int|
                0 <= k < final(self).relevant_profiles.len() ==> {
                    let shown = (#[trigger] final(self).relevant_profiles[k])@;
                    &&& !shown.is_deleted
                    &&& shown.user_id != fetcher_id@
                    &&& !is_blocked(ledger@.chain, fetcher_id@, shown.user_id)
                    &&& report_count(ledger@.chain, shown.user_id) < REPORT_THRESHOLD
                },
            final(self).user_id == old(self).user_id,
            final(self).balance == old(self).balance,
            final(self).transactions == old(self).transactions,
            final(self).interactions == old(self).interactions,
            final(self).messages == old(self).messages,
            final(self).profile == old(self).profile,
    {
        let chain = ledger.get_chain();
        let ghost ctx = FetchContext {
            fetcher: fetcher_id@,
            chain: ledger@.chain,
            keys: shared_keys@,
            filter: filter@,
            interactions: self.interactions.deep_view(),
        };
        let ghost db = mock_profile_db.deep_view();
        let by_score = filter.min_score.is_some();
        let mut inaccessible: Vec<String> = Vec::new();
        let mut profiles: Vec<Profile> = Vec::new();
        let mut scores: Vec<u128> = Vec::new();
        let mut i: usize = 0;
        proof {
            assert(db.take(0) =~= Seq::<ProfileView>::empty());
            assert(inaccessible.deep_view() =~= inaccessible_ids(ctx, db.take(0)));
            assert(scored(profiles.deep_view(), scores@) =~= shown(ctx, db.take(0)));
        }
        while i < mock_profile_db.len()
            invariant
                i <= mock_profile_db.len(),
                db == mock_profile_db.deep_view(),
                chain.deep_view() == ctx.chain,
                ctx.fetcher == fetcher_id@,
                ctx.keys == shared_keys@,
                ctx.filter == filter@,
                ctx.interactions == self.interactions.deep_view(),
                by_score == (filter@.min_score is Some),
                *self == *old(self),
                profiles.len() == scores.len(),
                inaccessible.deep_view() == inaccessible_ids(ctx, db.take(i as int)),
                scored(profiles.deep_view(), scores@) == shown(ctx, db.take(i as int)),
            decreases mock_profile_db.len() - i,
        {
            let candidate = &mock_profile_db[i];
            proof {
                let next = db.take(i + 1);
                assert(next.drop_last() =~= db.take(i as int));
                assert(next.last() == candidate@);
            }
            match classify(candidate, filter, shared_keys, fetcher_id, chain, &self.interactions) {
                Verdict::Inaccessible => {
                    let ghost before = inaccessible.deep_view();
                    inaccessible.push(candidate.user_id.clone());
                    assert(inaccessible.deep_view() =~= before.push(candidate@.user_id));
                },
                Verdict::Visible { score } => {
                    let ghost before = scored(profiles.deep_view(), scores@);
                    let pos = if by_score {
                        find_insert_pos(&scores, score, Ghost(profiles.deep_view()))
                    } else {
                        scores.len()
                    };
                    profiles.insert(pos, candidate.clone());
                    scores.insert(pos, score);
                    proof {
                        let entry: Scored = (candidate@, score as nat);
                        let seen = visible_profiles(ctx, db.take(i as int));
                        let seen_next = visible_profiles(ctx, db.take(i + 1));
                        assert(seen_next == seen.push(entry));
                        assert(seen_next.drop_last() =~= seen);
                        assert(seen_next.last() == entry);
                        assert(scored(profiles.deep_view(), scores@) =~= before.insert(
                            pos as int,
                            entry,
                        ));
                        assert(before.insert(before.len() as int, entry) =~= before.push(entry));
                    }
                },
                _ => {},
            }
            i += 1;
        }
        proof {
            assert(db.take(i as int) =~= db);
            assert(profiles.deep_view() =~= relevant_profiles(ctx, db));
            assert forall|k: int| 0 <= k < profiles.len() implies {
                let shown = (#[trigger] profiles[k])@;
                &&& !shown.is_deleted
                &&& shown.user_id != fetcher_id@
                &&& !is_blocked(ledger@.chain, fetcher_id@, shown.user_id)
                &&& report_count(ledger@.chain, shown.user_id) < REPORT_THRESHOLD
            } by {
                assert(relevant_profiles(ctx, db)[k] == profiles[k]@);
                lemma_relevant_are_visible(ctx, db, profiles[k]@);
            }
        }
        self.relevant_profiles = profiles;
        inaccessible
    }

    /// Marks this user's profile as deleted, in the shard and in
    /// `mock_profile_db`, and records the deletion in a new block. Returns
    /// the name of the miner of that block. Where the block cannot be
    /// produced, the profile is deleted all the same.
    pub fn delete_profile(
        &mut self,
        ledger: &mut GlobalLedger,
        mock_profile_db: &mut Vec<Profile>,
        timestamp: String,
        global_tx_id: String,
    ) -> (r: Result<String, MiningError>)
        requires
            old(ledger).wf(),
            old(ledger)@.adjustment_interval > 0,
        ensures
            final(self).profile@ == (ProfileView { is_deleted: true, ..old(self).profile@ }),
            final(mock_profile_db).deep_view() == with_deleted(
                old(mock_profile_db).deep_view(),
                old(self).user_id@,
            ),
            final(ledger).wf(),
            r matches Ok(name) ==> extends_by_miner_named(
                old(ledger)@,
                final(ledger)@,
                seq![
                    TransactionView {
                        payload: PayloadView::ProfileDeletion { user_id: old(self).user_id@ },
                        sender_id: old(self).user_id@,
                        receiver_id: crate::transaction::system_id(),
                        timestamp: timestamp@,
                        global_tx_id: global_tx_id@,
                    },
                ],
                name@,
            ),
            r is Err ==> final(ledger)@ == old(ledger)@,
            final(self).user_id == old(self).user_id,
            final(self).balance == old(self).balance,
            final(self).transactions == old(self).transactions,
            final(self).interactions == old(self).interactions,
            final(self).messages == old(self).messages,
            final(self).relevant_profiles == old(self).relevant_profiles,
    {
        self.profile.is_deleted = true;
        let ghost db = mock_profile_db.deep_view();
        match find_profile(mock_profile_db, self.user_id.as_str()) {
            Some(i) => {
                mock_profile_db[i].is_deleted = true;
                proof {
                    lemma_with_deleted_at(db, self.user_id@, i as int);
                    assert(mock_profile_db.deep_view() =~= db.update(
                        i as int,
                        ProfileView { is_deleted: true, ..db[i as int] },
                    ));
                }
            },
            None => {
                proof {
                    lemma_without_profile(db, self.user_id@, Seq::empty());
                }
            },
        }
        let deletion_tx = Transaction::new_profile_deletion(
            self.user_id.clone(),
            timestamp,
            global_tx_id,
        );
        let transactions = vec![deletion_tx];
        assert(transactions.deep_view() =~= seq![deletion_tx@]);
        ledger.add_block(transactions)
    }

    /// Replaces this user's record by `new_data`, encrypted under `key`, in
    /// the shard and in `mock_profile_db`, and records the update in a new
    /// block. Returns the name of the miner of that block. Where the block
    /// cannot be produced, the profile is updated all the same.
    pub fn update_profile(
        &mut self,
        ledger: &mut GlobalLedger,
        mock_profile_db: &mut Vec<Profile>,
        new_data: RawProfileData,
        key: &[u8; 32],
        timestamp: String,
        global_tx_id: String,
    ) -> (r: Result<String, MiningError>)
        requires
            old(ledger).wf(),
            old(ledger)@.adjustment_interval > 0,
            encode_record(new_data@).len() <= MAX_PLAINTEXT_LEN,
        ensures
            unsealed(key@, final(self).profile@.encrypted_data) == Some(encode_record(new_data@)),
            final(self).profile@.encrypted_data.len() == NONCE_LEN + encode_record(new_data@).len()
                + TAG_LEN,
            decode_record(encode_record(new_data@)) == Some(new_data@),
            final(self).profile@ == (ProfileView {
                encrypted_data: final(self).profile@.encrypted_data,
                ..old(self).profile@
            }),
            final(mock_profile_db).deep_view() == with_payload(
                old(mock_profile_db).deep_view(),
                old(self).user_id@,
                final(self).profile@.encrypted_data,
            ),
            final(ledger).wf(),
            r matches Ok(name) ==> extends_by_miner_named(
                old(ledger)@,
                final(ledger)@,
                seq![
                    TransactionView {
                        payload: PayloadView::ProfileUpdate {
                            user_id: old(self).user_id@,
                            updated_profile: final(self).profile@.encrypted_data,
                        },
                        sender_id: old(self).user_id@,
                        receiver_id: crate::transaction::system_id(),
                        timestamp: timestamp@,
                        global_tx_id: global_tx_id@,
                    },
                ],
                name@,
            ),
            r is Err ==> final(ledger)@ == old(ledger)@,
            final(self).user_id == old(self).user_id,
            final(self).balance == old(self).balance,
            final(self).transactions == old(self).transactions,
            final(self).interactions == old(self).interactions,
            final(self).messages == old(self).messages,
            final(self).relevant_profiles == old(self).relevant_profiles,
    {
        let updated = self.profile.update(new_data, key);
        let ghost payload = updated@;
        let for_tx = updated.clone();
        let for_db = updated.clone();
        assert(for_tx@ =~= payload);
        assert(for_db@ =~= payload);
        let update_tx = Transaction::new_profile_update(
            self.user_id.clone(),
            for_tx,
            timestamp,
            global_tx_id,
        );
        self.profile.encrypted_data = updated;
        let ghost db = mock_profile_db.deep_view();
        match find_profile(mock_profile_db, self.user_id.as_str()) {
            Some(i) => {
                mock_profile_db[i].encrypted_data = for_db;
                proof {
                    lemma_with_payload_at(db, self.user_id@, payload, i as int);
                    assert(mock_profile_db.deep_view() =~= db.update(
                        i as int,
                        ProfileView { encrypted_data: payload, ..db[i as int] },
                    ));
                }
            },
            None => {
                proof {
                    lemma_without_profile(db, self.user_id@, payload);
                }
            },
        }
        let transactions = vec![update_tx];
        assert(transactions.deep_view() =~= seq![update_tx@]);
        ledger.add_block(transactions)
    }

    /// Hands `recipient_id` the means to read this user's content: records
    /// `profile_key`, encrypted under `shared_secret`, in a new block, and
    /// then grants `recipient_id` this user's content in `shared_keys`.
    /// Returns the name of the miner of that block. Where the block cannot
    /// be produced, nothing is granted.
    pub fn share_key(
        &self,
        ledger: &mut GlobalLedger,
        recipient_id: String,
        shared_keys: &mut KeyStore,
        profile_key: &[u8; 32],
        shared_secret: &[u8; 32],
        timestamp: String,
        global_tx_id: String,
    ) -> (r: Result<String, MiningError>)
        requires
            old(ledger).wf(),
            old(ledger)@.adjustment_interval > 0,
        ensures
            final(ledger).wf(),
            r matches Ok(name) ==> {
                &&& final(shared_keys)@ == old(shared_keys)@.insert(
                    (recipient_id@, self.user_id@),
                    profile_key@,
                )
                &&& shared_in_block(
                    old(ledger)@,
                    final(ledger)@,
                    self.user_id@,
                    recipient_id@,
                    profile_key@,
                    shared_secret@,
                    timestamp@,
                    global_tx_id@,
                    name@,
                )
            },
            r is Err ==> final(ledger)@ == old(ledger)@ && final(shared_keys)@ == old(shared_keys)@,
            r matches Err(MiningError::NonceSpaceExhausted { timestamp: stamped })
                ==> sharing_exhausted(
                old(ledger)@,
                self.user_id@,
                recipient_id@,
                profile_key@,
                shared_secret@,
                timestamp@,
                global_tx_id@,
                stamped,
            ),
    {
        let encrypted_key = seal(shared_secret, profile_key.as_slice());
        let ghost sealed = encrypted_key@;
        let share_tx = Transaction::new_key_share(
            self.user_id.clone(),
            recipient_id.clone(),
            encrypted_key,
            timestamp,
            global_tx_id,
        );
        let transactions = vec![share_tx];
        let ghost handed_in = key_share_transactions(
            self.user_id@,
            recipient_id@,
            sealed,
            timestamp@,
            global_tx_id@,
        );
        assert(transactions.deep_view() =~= handed_in);
        let recorded = ledger.add_block(transactions);
        proof {
            if let Err(MiningError::NonceSpaceExhausted { timestamp: stamped }) = recorded {
                assert(crate::ledger::exhausted_for_some_miner(old(ledger)@, handed_in, stamped));
            }
        }
        grant_if_recorded(recorded, shared_keys, recipient_id, self.user_id.clone(), *profile_key)
    }

    /// Withdraws from `target_id` the means to read this user's content:
    /// removes the grant of this user's content to `target_id` from
    /// `shared_keys`, and records the revocation in a new block. Returns
    /// the name of the miner of that block. Where the block cannot be
    /// produced, the grant is removed all the same. A user keeps the grant
    /// of their own content whatever they revoke: with this user as the
    /// target the store stays as it was.
    pub fn revoke_key(
        &mut self,
        ledger: &mut GlobalLedger,
        target_id: String,
        shared_keys: &mut KeyStore,
        timestamp: String,
        global_tx_id: String,
    ) -> (r: Result<String, MiningError>)
        requires
            old(ledger).wf(),
            old(ledger)@.adjustment_interval > 0,
        ensures
            final(shared_keys)@ == after_revocation(
                old(shared_keys)@,
                old(self).user_id@,
                target_id@,
            ),
            final(ledger).wf(),
            r matches Ok(name) ==> extends_by_miner_named(
                old(ledger)@,
                final(ledger)@,
                seq![
                    TransactionView {
                        payload: PayloadView::KeyRevocation {
                            revoker: old(self).user_id@,
                            target: target_id@,
                        },
                        sender_id: old(self).user_id@,
                        receiver_id: target_id@,
                        timestamp: timestamp@,
                        global_tx_id: global_tx_id@,
                    },
                ],
                name@,
            ),
            r is Err ==> final(ledger)@ == old(ledger)@,
            *final(self) == *old(self),
    {
        if !same_text(target_id.as_str(), self.user_id.as_str()) {
            shared_keys.remove(target_id.as_str(), self.user_id.as_str());
        }
        let revocation_tx = Transaction::new_key_revocation(
            self.user_id.clone(),
            target_id,
            timestamp,
            global_tx_id,
        );
        let transactions = vec![revocation_tx];
        assert(transactions.deep_view() =~= seq![revocation_tx@]);
        ledger.add_block(transactions)
    }
}

/// The one transaction of a block that records the sharing of a key.
pub open spec fn key_share_transactions(
    owner: Seq<char>,
    recipient: Seq<char>,
    encrypted_key: Seq<u8>,
    timestamp: Seq<char>,
    global_tx_id: Seq<char>,
) -> Seq<TransactionView> {
    seq![
        TransactionView {
            payload: PayloadView::KeyShare { encrypted_key },
            sender_id: owner,
            receiver_id: recipient,
            timestamp,
            global_tx_id,
        },
    ]
}

/// Whether some miner of the roster finds no nonce for a block, stamped
/// `stamped`, whose one transaction hands `recipient` the key `key` of
/// `owner`, encrypted under `secret`.
pub open spec fn sharing_exhausted(
    before: LedgerView,
    owner: Seq<char>,
    recipient: Seq<char>,
    key: Seq<u8>,
    secret: Seq<u8>,
    timestamp: Seq<char>,
    global_tx_id: Seq<char>,
    stamped: u64,
) -> bool {
    exists|encrypted_key: Seq<u8>|
        unsealed(secret, encrypted_key) == Some(key) && encrypted_key.len() == NONCE_LEN + key.len()
            + TAG_LEN && #[trigger] crate::ledger::exhausted_for_some_miner(
            before,
            key_share_transactions(owner, recipient, encrypted_key, timestamp, global_tx_id),
            stamped,
        )
}

/// Completes a sharing once the attempt to record it is over. Where
/// `recorded` holds the name of the miner that produced the block, `holder`
/// is granted `subject`'s content with `key`, in place of any grant that was
/// there before. Where it holds an error, the store stays as it was. Either
/// way `recorded` is handed on.
pub fn grant_if_recorded(
    recorded: Result<String, MiningError>,
    shared_keys: &mut KeyStore,
    holder: String,
    subject: String,
    key: [u8; 32],
) -> (r: Result<String, MiningError>)
    ensures
        match recorded {
            Ok(name) => {
                &&& r matches Ok(handed_on) && handed_on@ == name@
                &&& final(shared_keys)@ == old(shared_keys)@.insert((holder@, subject@), key@)
            },
            Err(e) => {
                &&& r == Err::<String, MiningError>(e)
                &&& final(shared_keys)@ == old(shared_keys)@
            },
        },
{
    match recorded {
        Ok(name) => {
            shared_keys.insert(holder, subject, key);
            Ok(name)
        },
        Err(e) => Err(e),
    }
}

/// The key store after `revoker` withdrew from `target` the means to read
/// `revoker`'s content: without the grant of `revoker`'s content to
/// `target`. The grant of a user's own content is never withdrawn.
pub open spec fn after_revocation(
    keys: Map<Grant, Seq<u8>>,
    revoker: Seq<char>,
    target: Seq<char>,
) -> Map<Grant, Seq<u8>> {
    if target == revoker {
        keys
    } else {
        keys.remove((target, revoker))
    }
}

/// Revoking never takes a user's own grant away, whoever revokes whom.
pub proof fn lemma_revocation_keeps_self_access(
    keys: Map<Grant, Seq<u8>>,
    revoker: Seq<char>,
    target: Seq<char>,
    user: Seq<char>,
)
    requires
        keys.contains_key((user, user)),
    ensures
        after_revocation(keys, revoker, target).contains_key((user, user)),
        after_revocation(keys, revoker, target)[(user, user)] == keys[(user, user)],
{
}

} // verus!
