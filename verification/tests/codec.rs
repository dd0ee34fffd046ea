use cuneos::codec::{
    get_framed, get_text, get_u32, get_u64, put_framed, put_raw, put_text, put_u32, put_u64,
    same_bytes, same_text,
};
use cuneos::transaction::{encode_transaction_list, Payload, Transaction, TransactionType};

fn s(text: &str) -> String {
    text.to_string()
}

#[test]
fn u64_is_written_big_endian() {
    let mut out = vec![0xffu8];
    put_u64(&mut out, 0x0102_0304_0506_0708);
    assert_eq!(out, vec![0xff, 1, 2, 3, 4, 5, 6, 7, 8]);
}

#[test]
fn u32_is_written_big_endian() {
    let mut out = Vec::new();
    put_u32(&mut out, 0xdead_beef);
    assert_eq!(out, vec![0xde, 0xad, 0xbe, 0xef]);
}

#[test]
fn integers_are_read_back() {
    let mut out = Vec::new();
    put_u64(&mut out, u64::MAX - 5);
    put_u32(&mut out, 77);
    assert_eq!(get_u64(&out, 0), Some((u64::MAX - 5, 8)));
    assert_eq!(get_u32(&out, 8), Some((77, 12)));
}

#[test]
fn reading_past_the_end_fails() {
    let data = [1u8, 2, 3, 4, 5, 6, 7];
    assert_eq!(get_u64(&data, 0), None);
    assert_eq!(get_u32(&data, 4), None);
    assert_eq!(get_u32(&data, 3), Some((0x04050607, 7)));
    assert_eq!(get_u64(&data, usize::MAX), None);
}

#[test]
fn framed_field_holds_length_then_bytes() {
    let mut out = Vec::new();
    put_framed(&mut out, &[9, 8, 7]);
    assert_eq!(out, vec![0, 0, 0, 0, 0, 0, 0, 3, 9, 8, 7]);
    assert_eq!(get_framed(&out, 0), Some((vec![9, 8, 7], 11)));
}

#[test]
fn framed_field_with_short_body_is_rejected() {
    let data = [0u8, 0, 0, 0, 0, 0, 0, 4, 1, 2, 3];
    assert_eq!(get_framed(&data, 0), None);
}

#[test]
fn framed_field_with_huge_length_is_rejected() {
    let data = [0xffu8, 0xff, 0xff, 0xff, 0xff, 0xff, 0xff, 0xff, 1];
    assert_eq!(get_framed(&data, 0), None);
}

#[test]
fn text_field_round_trips_unicode() {
    let mut out = Vec::new();
    put_text(&mut out, "Let\u{2019}s hike");
    let expected_len = "Let\u{2019}s hike".len();
    assert_eq!(out.len(), 8 + expected_len);
    assert_eq!(get_text(&out, 0), Some((s("Let\u{2019}s hike"), 8 + expected_len)));
}

#[test]
fn text_field_with_invalid_utf8_is_rejected() {
    let mut out = Vec::new();
    put_framed(&mut out, &[0xff, 0xfe]);
    assert_eq!(get_text(&out, 0), None);
}

#[test]
fn raw_bytes_are_appended() {
    let mut out = vec![1u8];
    put_raw(&mut out, &[2, 3]);
    put_raw(&mut out, &[]);
    assert_eq!(out, vec![1, 2, 3]);
}

#[test]
fn texts_and_bytes_compare_by_content() {
    assert!(same_text("alice", "alice"));
    assert!(!same_text("alice", "alicE"));
    assert!(!same_text("alice", "alic"));
    assert!(same_text("", ""));
    assert!(same_bytes(&[1, 2], &[1, 2]));
    assert!(!same_bytes(&[1, 2], &[2, 1]));
}

#[test]
fn like_transaction_has_the_canonical_bytes() {
    let tx = Transaction::new_like(s("a"), s("bc"), s("t"), s("i"));
    let mut out = Vec::new();
    tx.encode_into(&mut out);
    let expected: Vec<u8> = vec![
        6, // tag of a like
        0, 0, 0, 0, 0, 0, 0, 1, b'a', // sender
        0, 0, 0, 0, 0, 0, 0, 2, b'b', b'c', // receiver
        0, 0, 0, 0, 0, 0, 0, 1, b't', // timestamp
        0, 0, 0, 0, 0, 0, 0, 1, b'i', // identifier
    ];
    assert_eq!(out, expected);
}

#[test]
fn transfer_and_call_carry_their_numbers() {
    let transfer = Transaction::new_peace_transfer(s("a"), s("b"), 0x0102, s("t"), s("i"));
    let mut out = Vec::new();
    transfer.encode_into(&mut out);
    assert_eq!(out[0], 0);
    assert_eq!(&out[19..27], &[0, 0, 0, 0, 0, 0, 1, 2]);
    assert_eq!(out.len(), 1 + 9 + 9 + 8 + 9 + 9);

    let call = Transaction::new_video_call(s("a"), s("b"), 600, s("t"), s("i"));
    let mut out = Vec::new();
    call.encode_into(&mut out);
    assert_eq!(out[0], 9);
    assert_eq!(&out[19..23], &[0, 0, 2, 0x58]);
    assert_eq!(out.len(), 1 + 9 + 9 + 4 + 9 + 9);
}

#[test]
fn every_kind_has_its_own_tag() {
    let key = [7u8; 32];
    let txs = vec![
        Transaction::new_peace_transfer(s("a"), s("b"), 1, s("t"), s("i")),
        Transaction::new_profile_deletion(s("a"), s("t"), s("i")),
        Transaction::new_profile_update(s("a"), vec![1, 2], s("t"), s("i")),
        Transaction::new_match(s("a"), s("b"), s("t"), s("i")),
        Transaction::new_key_revocation(s("a"), s("b"), s("t"), s("i")),
        Transaction::new_message(s("a"), s("b"), "hi", &key, s("t"), s("i")),
        Transaction::new_like(s("a"), s("b"), s("t"), s("i")),
        Transaction::new_photo_share(s("a"), s("b"), "img", &key, s("t"), s("i")),
        Transaction::new_block_user(s("a"), s("b"), s("t"), s("i")),
        Transaction::new_video_call(s("a"), s("b"), 1, s("t"), s("i")),
        Transaction::new_report_user(s("a"), s("b"), s("spam"), s("t"), s("i")),
        Transaction::new_key_share(s("a"), s("b"), vec![3], s("t"), s("i")),
    ];
    let kinds = [
        TransactionType::PeaceTransfer,
        TransactionType::ProfileDeletion,
        TransactionType::ProfileUpdate,
        TransactionType::Match,
        TransactionType::KeyRevocation,
        TransactionType::Message,
        TransactionType::Like,
        TransactionType::PhotoShare,
        TransactionType::BlockUser,
        TransactionType::VideoCall,
        TransactionType::ReportUser,
        TransactionType::KeyShare,
    ];
    for (i, tx) in txs.iter().enumerate() {
        assert_eq!(tx.transaction_type(), kinds[i]);
        let mut out = Vec::new();
        tx.encode_into(&mut out);
        assert_eq!(out[0] as usize, i);
    }
}

#[test]
fn transaction_list_starts_with_its_count() {
    let txs = vec![
        Transaction::new_like(s("a"), s("b"), s("t"), s("1")),
        Transaction::new_block_user(s("a"), s("b"), s("t"), s("2")),
    ];
    let mut first = Vec::new();
    txs[0].encode_into(&mut first);
    let mut second = Vec::new();
    txs[1].encode_into(&mut second);
    let mut expected = vec![0u8, 0, 0, 0, 0, 0, 0, 2];
    expected.extend_from_slice(&first);
    expected.extend_from_slice(&second);
    assert_eq!(encode_transaction_list(&txs), expected);
    assert_eq!(encode_transaction_list(&Vec::new()), vec![0u8; 8]);
}

#[test]
fn constructors_populate_the_fields_of_their_kind() {
    let deletion = Transaction::new_profile_deletion(s("carol"), s("2025-03-07"), s("del"));
    assert_eq!(deletion.sender_id, "carol");
    assert_eq!(deletion.receiver_id, "system");
    assert_eq!(deletion.timestamp, "2025-03-07");
    assert_eq!(deletion.global_tx_id, "del");
    assert!(matches!(&deletion.payload, Payload::ProfileDeletion { user_id } if user_id == "carol"));

    let update = Transaction::new_profile_update(s("carol"), vec![1, 2, 3], s("t"), s("u"));
    assert_eq!(update.sender_id, "carol");
    assert_eq!(update.receiver_id, "system");
    assert!(matches!(&update.payload, Payload::ProfileUpdate { user_id, updated_profile }
        if user_id == "carol" && updated_profile == &vec![1u8, 2, 3]));

    let matched = Transaction::new_match(s("alice"), s("bob"), s("t"), s("m"));
    assert_eq!(matched.sender_id, "alice");
    assert_eq!(matched.receiver_id, "bob");
    assert!(matches!(&matched.payload, Payload::Match { first, second }
        if first == "alice" && second == "bob"));

    let revocation = Transaction::new_key_revocation(s("alice"), s("bob"), s("t"), s("r"));
    assert_eq!(revocation.sender_id, "alice");
    assert_eq!(revocation.receiver_id, "bob");
    assert!(matches!(&revocation.payload, Payload::KeyRevocation { revoker, target }
        if revoker == "alice" && target == "bob"));

    let report = Transaction::new_report_user(s("alice"), s("carol"), s("spam"), s("t"), s("x"));
    assert!(matches!(&report.payload, Payload::ReportUser { reason } if reason == "spam"));

    let share = Transaction::new_key_share(s("alice"), s("bob"), vec![9, 9], s("t"), s("k"));
    assert!(matches!(&share.payload, Payload::KeyShare { encrypted_key }
        if encrypted_key == &vec![9u8, 9]));

    let transfer = Transaction::new_peace_transfer(s("system"), s("alice"), 5, s("t"), s("p"));
    assert!(matches!(transfer.payload, Payload::PeaceTransfer { amount: 5 }));

    let call = Transaction::new_video_call(s("bob"), s("alice"), 600, s("t"), s("v"));
    assert!(matches!(call.payload, Payload::VideoCall { duration: 600 }));
}

#[test]
fn clone_keeps_every_field() {
    let tx = Transaction::new_report_user(s("alice"), s("carol"), s("spam"), s("t"), s("x"));
    let copy = tx.clone();
    let mut a = Vec::new();
    let mut b = Vec::new();
    tx.encode_into(&mut a);
    copy.encode_into(&mut b);
    assert_eq!(a, b);
}
