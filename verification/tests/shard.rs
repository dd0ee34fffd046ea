use cuneos::block::{MiningError, Miner};
use cuneos::crypto::open_sealed;
use cuneos::filter::{Interaction, ProfileFilter};
use cuneos::keypair::UserKeyPair;
use cuneos::keystore::KeyStore;
use cuneos::ledger::GlobalLedger;
use cuneos::profile::{Profile, RawProfileData};
use cuneos::shard::{grant_if_recorded, UserShard};
use cuneos::transaction::{Payload, Transaction, TransactionType};

const SECOND: u64 = 1_000_000_000;

fn s(text: &str) -> String {
    text.to_string()
}

fn texts(list: &[&str]) -> Vec<String> {
    list.iter().map(|t| t.to_string()).collect()
}

fn alice_data() -> RawProfileData {
    RawProfileData {
        name: s("Alice"),
        age: 28,
        bio: s("Loves hiking and coffee"),
        interests: texts(&["hiking", "photography"]),
        location: s("CA"),
    }
}

fn bob_data() -> RawProfileData {
    RawProfileData {
        name: s("Bob"),
        age: 30,
        bio: s("Enjoys hiking and reading"),
        interests: texts(&["hiking", "reading"]),
        location: s("CA"),
    }
}

fn ledger() -> GlobalLedger {
    let miners = vec![
        Miner::new(s("Miner1"), 1000),
        Miner::new(s("Miner2"), 1500),
        Miner::new(s("Miner3"), 700),
    ];
    GlobalLedger::new_at(1, 4, 1, 5 * SECOND, 1000, miners, 1_741_000_000).unwrap()
}

fn stuck_ledger() -> GlobalLedger {
    let idle = vec![Miner::new(s("Idle"), 0)];
    let mut l = GlobalLedger::new_at(0, 80, 70, SECOND, 1, idle, 1).unwrap();
    // One slow block brings the difficulty to a floor that no hash meets.
    l.add_block_at(Vec::new(), 0, 2, 100 * SECOND).unwrap();
    l
}

fn basic_filter() -> ProfileFilter {
    ProfileFilter::new(
        Some(s("CA")),
        Some(25),
        Some(30),
        Some(texts(&["hiking"])),
        None,
        None,
        None,
    )
}

fn shown(shard: &UserShard) -> Vec<&str> {
    shard.relevant_profiles.iter().map(|p| p.user_id.as_str()).collect()
}

#[test]
fn new_shard_starts_without_messages_and_results() {
    let key = [1u8; 32];
    let tx = Transaction::new_peace_transfer(s("system"), s("alice"), 5, s("d"), s("tx001"));
    let interactions = vec![Interaction {
        event_type: s("match"),
        user_id: s("alice"),
        target_id: s("bob"),
        score: 5,
    }];
    let shard = UserShard::new(
        s("alice"),
        5_000_000,
        vec![tx],
        interactions,
        Profile::new(s("alice"), alice_data(), &key),
    );
    assert_eq!(shard.user_id, "alice");
    assert_eq!(shard.balance, 5_000_000);
    assert_eq!(shard.transactions.len(), 1);
    assert_eq!(shard.transactions[0].global_tx_id, "tx001");
    assert_eq!(shard.interactions.len(), 1);
    assert!(shard.messages.is_empty());
    assert!(shard.relevant_profiles.is_empty());
    assert_eq!(shard.profile.user_id, "alice");
    assert!(shard.profile.decrypt(&key).is_some());
}

#[test]
fn holder_of_the_key_sees_alice_and_loses_her_with_the_key() {
    // Alice's profile under key K, and a filter that she meets.
    let k = [0x4bu8; 32];
    let db = vec![Profile::new(s("alice"), alice_data(), &k)];
    let mut keys = KeyStore::new();
    keys.insert(s("bob"), s("alice"), k);
    let l = ledger();
    let mut bob = UserShard::new(
        s("bob"),
        0,
        Vec::new(),
        Vec::new(),
        Profile::new(s("bob"), bob_data(), &[2u8; 32]),
    );
    let inaccessible = bob.fetch_relevant_profiles(&basic_filter(), &db, &keys, "bob", &l);
    assert!(inaccessible.is_empty());
    assert_eq!(shown(&bob), vec!["alice"]);
    let record = bob.relevant_profiles[0].decrypt(&k).unwrap();
    assert_eq!(record.age, 28);
    assert_eq!(record.location, "CA");
    assert_eq!(record.interests, texts(&["hiking", "photography"]));

    assert!(keys.remove("bob", "alice"));
    let inaccessible = bob.fetch_relevant_profiles(&basic_filter(), &db, &keys, "bob", &l);
    assert_eq!(inaccessible, vec![s("alice")]);
    assert!(bob.relevant_profiles.is_empty());
}

#[test]
fn delete_profile_marks_both_copies_and_records_the_deletion() {
    let key = [3u8; 32];
    let mut db = vec![
        Profile::new(s("bob"), bob_data(), &[2u8; 32]),
        Profile::new(s("charlie"), alice_data(), &key),
        Profile::new(s("charlie"), alice_data(), &key),
    ];
    let mut l = ledger();
    let mut charlie =
        UserShard::new(s("charlie"), 0, Vec::new(), Vec::new(), db[1].clone());
    let name = charlie
        .delete_profile(&mut l, &mut db, s("2025-03-07"), s("delete_charlie"))
        .unwrap();
    assert!(charlie.profile.is_deleted);
    assert!(charlie.profile.decrypt(&key).is_none());
    assert!(!db[0].is_deleted);
    assert!(db[1].is_deleted);
    // Only the first profile of the user is touched.
    assert!(!db[2].is_deleted);
    let chain = l.get_chain();
    assert_eq!(chain.len(), 2);
    assert_eq!(chain[1].miner_name, name);
    assert_eq!(chain[1].previous_hash, chain[0].hash);
    assert_eq!(chain[1].transactions.len(), 1);
    let tx = &chain[1].transactions[0];
    assert_eq!(tx.transaction_type(), TransactionType::ProfileDeletion);
    assert_eq!(tx.sender_id, "charlie");
    assert_eq!(tx.receiver_id, "system");
    assert_eq!(tx.timestamp, "2025-03-07");
    assert_eq!(tx.global_tx_id, "delete_charlie");
    assert!(matches!(&tx.payload, Payload::ProfileDeletion { user_id } if user_id == "charlie"));
}

#[test]
fn delete_profile_without_a_stored_profile_still_records() {
    let mut db = vec![Profile::new(s("bob"), bob_data(), &[2u8; 32])];
    let mut l = ledger();
    let mut ghost = UserShard::new(
        s("erin"),
        0,
        Vec::new(),
        Vec::new(),
        Profile::new(s("erin"), alice_data(), &[1u8; 32]),
    );
    ghost.delete_profile(&mut l, &mut db, s("t"), s("d")).unwrap();
    assert!(ghost.profile.is_deleted);
    assert!(!db[0].is_deleted);
    assert_eq!(l.get_chain().len(), 2);
}

#[test]
fn update_profile_replaces_both_copies_and_records_the_update() {
    let key = [3u8; 32];
    let mut db = vec![
        Profile::new(s("bob"), bob_data(), &[2u8; 32]),
        Profile::new(s("alice"), alice_data(), &key),
    ];
    let bob_payload = db[0].encrypted_data.clone();
    let mut l = ledger();
    let mut alice = UserShard::new(s("alice"), 5, Vec::new(), Vec::new(), db[1].clone());
    let mut newer = alice_data();
    newer.bio = s("Loves hiking, coffee, and now yoga");
    newer.interests.push(s("yoga"));
    let name = alice
        .update_profile(&mut l, &mut db, newer, &key, s("2025-03-05"), s("update_alice"))
        .unwrap();
    assert_eq!(db[0].encrypted_data, bob_payload);
    assert_eq!(db[1].encrypted_data, alice.profile.encrypted_data);
    let mut expected = alice_data();
    expected.bio = s("Loves hiking, coffee, and now yoga");
    expected.interests.push(s("yoga"));
    assert_eq!(db[1].encrypted_data.len(), 12 + expected.encode().len() + 16);
    assert_eq!(db[1].user_id, "alice");
    assert!(!db[1].is_deleted);
    let record = db[1].decrypt(&key).unwrap();
    assert_eq!(record.bio, "Loves hiking, coffee, and now yoga");
    assert_eq!(record.interests.len(), 3);
    let chain = l.get_chain();
    assert_eq!(chain.len(), 2);
    assert_eq!(chain[1].miner_name, name);
    let tx = &chain[1].transactions[0];
    assert_eq!(tx.sender_id, "alice");
    assert_eq!(tx.receiver_id, "system");
    assert_eq!(tx.global_tx_id, "update_alice");
    match &tx.payload {
        Payload::ProfileUpdate { user_id, updated_profile } => {
            assert_eq!(user_id, "alice");
            assert_eq!(updated_profile, &alice.profile.encrypted_data);
        }
        _ => panic!("an update carries the new payload"),
    }
    assert_eq!(alice.balance, 5);
}

#[test]
fn revoke_key_removes_the_targets_grant_and_records_the_revocation() {
    let mut keys = KeyStore::new();
    keys.insert(s("bob"), s("alice"), [1u8; 32]);
    keys.insert(s("alice"), s("bob"), [2u8; 32]);
    let mut l = ledger();
    let mut alice = UserShard::new(
        s("alice"),
        0,
        Vec::new(),
        Vec::new(),
        Profile::new(s("alice"), alice_data(), &[1u8; 32]),
    );
    let name = alice
        .revoke_key(&mut l, s("bob"), &mut keys, s("2025-03-08"), s("revoke_alice_bob"))
        .unwrap();
    // Bob can no longer read alice; alice still reads bob.
    assert_eq!(keys.get("bob", "alice"), None);
    assert_eq!(keys.get("alice", "bob"), Some([2u8; 32]));
    let chain = l.get_chain();
    assert_eq!(chain[1].miner_name, name);
    let tx = &chain[1].transactions[0];
    assert_eq!(tx.sender_id, "alice");
    assert_eq!(tx.receiver_id, "bob");
    assert_eq!(tx.global_tx_id, "revoke_alice_bob");
    assert!(matches!(&tx.payload, Payload::KeyRevocation { revoker, target }
        if revoker == "alice" && target == "bob"));
}

#[test]
fn revoking_oneself_keeps_the_own_grant() {
    let mut keys = KeyStore::new();
    keys.insert(s("alice"), s("alice"), [1u8; 32]);
    keys.insert(s("bob"), s("alice"), [1u8; 32]);
    let mut l = ledger();
    let mut alice = UserShard::new(
        s("alice"),
        0,
        Vec::new(),
        Vec::new(),
        Profile::new(s("alice"), alice_data(), &[1u8; 32]),
    );
    alice.revoke_key(&mut l, s("alice"), &mut keys, s("2025-03-08"), s("revoke_self")).unwrap();
    assert_eq!(keys.get("alice", "alice"), Some([1u8; 32]));
    assert_eq!(keys.get("bob", "alice"), Some([1u8; 32]));
    // The revocation is recorded all the same.
    let tx = &l.get_chain()[1].transactions[0];
    assert!(matches!(&tx.payload, Payload::KeyRevocation { revoker, target }
        if revoker == "alice" && target == "alice"));
    // Other grants go as before.
    alice.revoke_key(&mut l, s("bob"), &mut keys, s("2025-03-08"), s("revoke_bob")).unwrap();
    assert_eq!(keys.get("bob", "alice"), None);
    assert_eq!(keys.get("alice", "alice"), Some([1u8; 32]));
}

#[test]
fn share_key_records_the_wrapped_key_and_grants_the_recipient() {
    let alice_keys = UserKeyPair::new();
    let bob_keys = UserKeyPair::new();
    let alice_profile_key = alice_keys.symmetric_key;
    let bob_public = bob_keys.public_key;
    let alice_public = alice_keys.public_key;
    let secret_at_alice = alice_keys.derive_shared_secret(&bob_public);
    let secret_at_bob = bob_keys.derive_shared_secret(&alice_public);

    let mut keys = KeyStore::new();
    let mut l = ledger();
    let alice = UserShard::new(
        s("alice"),
        0,
        Vec::new(),
        Vec::new(),
        Profile::new(s("alice"), alice_data(), &alice_profile_key),
    );
    let name = alice
        .share_key(
            &mut l,
            s("bob"),
            &mut keys,
            &alice_profile_key,
            &secret_at_alice,
            s("2025-03-13"),
            s("keyshare_alice_bob"),
        )
        .unwrap();
    assert_eq!(keys.get("bob", "alice"), Some(alice_profile_key));
    assert_eq!(keys.get("alice", "bob"), None);
    let chain = l.get_chain();
    assert_eq!(chain[1].miner_name, name);
    let tx = &chain[1].transactions[0];
    assert_eq!(tx.sender_id, "alice");
    assert_eq!(tx.receiver_id, "bob");
    assert_eq!(tx.timestamp, "2025-03-13");
    match &tx.payload {
        Payload::KeyShare { encrypted_key } => {
            assert_eq!(encrypted_key.len(), 12 + 32 + 16);
            // Bob unwraps the key with the secret that he derived himself.
            assert_eq!(
                open_sealed(&secret_at_bob, encrypted_key),
                Some(alice_profile_key.to_vec())
            );
        }
        _ => panic!("a key share carries the wrapped key"),
    }
}

#[test]
fn grant_follows_the_outcome_of_recording() {
    let mut keys = KeyStore::new();
    keys.insert(s("bob"), s("alice"), [1u8; 32]);
    let handed_on = grant_if_recorded(Ok(s("Miner2")), &mut keys, s("bob"), s("alice"), [2u8; 32]);
    assert_eq!(handed_on, Ok(s("Miner2")));
    assert_eq!(keys.get("bob", "alice"), Some([2u8; 32]));
    let failed = Err(MiningError::NonceSpaceExhausted { timestamp: 7 });
    let handed_on = grant_if_recorded(failed, &mut keys, s("carol"), s("alice"), [3u8; 32]);
    assert_eq!(handed_on, Err(MiningError::NonceSpaceExhausted { timestamp: 7 }));
    assert_eq!(keys.get("carol", "alice"), None);
    assert_eq!(keys.get("bob", "alice"), Some([2u8; 32]));
    let handed_on =
        grant_if_recorded(Err(MiningError::ClockBeforeEpoch), &mut keys, s("bob"), s("alice"), [4u8; 32]);
    assert_eq!(handed_on, Err(MiningError::ClockBeforeEpoch));
    assert_eq!(keys.get("bob", "alice"), Some([2u8; 32]));
}

#[test]
fn operations_report_a_block_that_cannot_be_produced() {
    let key = [3u8; 32];
    let mut db = vec![Profile::new(s("alice"), alice_data(), &key)];
    let mut keys = KeyStore::new();
    keys.insert(s("bob"), s("alice"), key);
    let mut l = stuck_ledger();
    let blocks = l.get_chain().len();
    let mut alice = UserShard::new(s("alice"), 0, Vec::new(), Vec::new(), db[0].clone());

    let shared = alice.share_key(&mut l, s("carol"), &mut keys, &key, &[9u8; 32], s("t"), s("k"));
    assert!(matches!(shared, Err(MiningError::NonceSpaceExhausted { .. })));
    assert_eq!(keys.get("carol", "alice"), None);

    let revoked = alice.revoke_key(&mut l, s("bob"), &mut keys, s("t"), s("r"));
    assert!(matches!(revoked, Err(MiningError::NonceSpaceExhausted { .. })));
    assert_eq!(keys.get("bob", "alice"), None);

    let mut newer = alice_data();
    newer.age = 29;
    let updated = alice.update_profile(&mut l, &mut db, newer, &key, s("t"), s("u"));
    assert!(matches!(updated, Err(MiningError::NonceSpaceExhausted { .. })));
    assert_eq!(db[0].decrypt(&key).unwrap().age, 29);

    let deleted = alice.delete_profile(&mut l, &mut db, s("t"), s("d"));
    assert!(matches!(deleted, Err(MiningError::NonceSpaceExhausted { .. })));
    assert!(db[0].is_deleted);
    assert!(alice.profile.is_deleted);
    assert_eq!(l.get_chain().len(), blocks);
}

#[test]
fn reshared_key_restores_access_once_the_stale_revocation_is_swept() {
    let alice_key = [0xa1u8; 32];
    let bob_key = [0xb0u8; 32];
    let db = vec![
        Profile::new(s("bob"), bob_data(), &bob_key),
        Profile::new(s("alice"), alice_data(), &alice_key),
    ];
    let mut keys = KeyStore::new();
    keys.insert(s("bob"), s("alice"), alice_key);
    keys.insert(s("alice"), s("bob"), bob_key);
    keys.insert(s("alice"), s("alice"), alice_key);
    keys.insert(s("bob"), s("bob"), bob_key);
    let mut l = ledger();
    let mut alice = UserShard::new(s("alice"), 0, Vec::new(), Vec::new(), db[1].clone());
    let mut bob = UserShard::new(s("bob"), 0, Vec::new(), Vec::new(), db[0].clone());

    bob.fetch_relevant_profiles(&basic_filter(), &db, &keys, "bob", &l);
    assert_eq!(shown(&bob), vec!["alice"]);

    // Alice revokes bob's grant: bob cannot read her any more.
    alice.revoke_key(&mut l, s("bob"), &mut keys, s("2025-03-08"), s("revoke_alice_bob")).unwrap();
    let inaccessible = bob.fetch_relevant_profiles(&basic_filter(), &db, &keys, "bob", &l);
    assert_eq!(inaccessible, vec![s("alice")]);
    assert!(bob.relevant_profiles.is_empty());

    // She shares the key again. The grant is back in the store, but the
    // revocation in the chain still counts.
    alice
        .share_key(&mut l, s("bob"), &mut keys, &alice_key, &[7u8; 32], s("2025-03-13"), s("ks"))
        .unwrap();
    assert_eq!(keys.get("bob", "alice"), Some(alice_key));
    let inaccessible = bob.fetch_relevant_profiles(&basic_filter(), &db, &keys, "bob", &l);
    assert_eq!(inaccessible, vec![s("alice")]);

    // The sweep removes the stale revocation, and bob reads alice again.
    l.sweep_revocation("alice", "bob");
    let inaccessible = bob.fetch_relevant_profiles(&basic_filter(), &db, &keys, "bob", &l);
    assert!(inaccessible.is_empty());
    assert_eq!(shown(&bob), vec!["alice"]);

    // The chat of the two opens again with the keys that the store holds
    // for sender and receiver of each message.
    let to_bob = Transaction::new_message(
        s("alice"),
        s("bob"),
        "Let\u{2019}s hike sometime!",
        &bob_key,
        s("2025-03-13"),
        s("message_alice_bob_2"),
    );
    let to_alice = Transaction::new_message(
        s("bob"),
        s("alice"),
        "Sweet, how about Saturday?",
        &alice_key,
        s("2025-03-13"),
        s("message_bob_alice_2"),
    );
    l.add_block(vec![to_bob.clone(), to_alice.clone()]).unwrap();
    let stored = &l.get_chain().last().unwrap().transactions;
    let key = keys.get(&stored[0].sender_id, &stored[0].receiver_id).unwrap();
    assert_eq!(stored[0].decrypt_content(&key), Some(s("Let\u{2019}s hike sometime!")));
    let key = keys.get(&stored[1].sender_id, &stored[1].receiver_id).unwrap();
    assert_eq!(stored[1].decrypt_content(&key), Some(s("Sweet, how about Saturday?")));
    assert_eq!(stored[1].decrypt_content(&bob_key), None);
    // Revoked once more, bob's side of the chat is closed to him again.
    keys.remove("bob", "alice");
    assert!(keys.get(&stored[1].sender_id, &stored[1].receiver_id).is_none());
}
