//! The canonical encoding determines what was encoded: two lists of
//! transactions with the same bytes are the same list, and two blocks with
//! the same hash input agree in everything that is hashed.

use crate::block::{hash_input, BlockView};
use crate::codec::{
    be_u32, be_u64, framed, framed_text, lemma_u32_round_trip, lemma_u64_round_trip, text_fits,
};
use crate::transaction::{
    encode_each, encode_payload, encode_transaction, encode_transactions, kind_tag, payload_fits,
    transaction_fits, transactions_fit, PayloadView, TransactionType, TransactionView,
};
use vstd::prelude::*;
use vstd::utf8::{encode_utf8, encode_utf8_decode_utf8};

verus! {

/// Two byte strings that begin with a `u64` and agree, begin with the same
/// `u64` and agree in what follows it.
pub proof fn lemma_u64_prefix(x: u64, r: Seq<u8>, y: u64, r2: Seq<u8>)
    requires
        be_u64(x) + r == be_u64(y) + r2,
    ensures
        x == y,
        r == r2,
{
    let s = be_u64(x) + r;
    lemma_u64_round_trip(x);
    lemma_u64_round_trip(y);
    assert(s.subrange(0, 8) =~= be_u64(x));
    assert(s.subrange(0, 8) =~= be_u64(y));
    assert(s.subrange(8, s.len() as int) =~= r);
    assert(s.subrange(8, s.len() as int) =~= r2);
}

/// Two byte strings that begin with a `u32` and agree, begin with the same
/// `u32` and agree in what follows it.
pub proof fn lemma_u32_prefix(x: u32, r: Seq<u8>, y: u32, r2: Seq<u8>)
    requires
        be_u32(x) + r == be_u32(y) + r2,
    ensures
        x == y,
        r == r2,
{
    let s = be_u32(x) + r;
    lemma_u32_round_trip(x);
    lemma_u32_round_trip(y);
    assert(s.subrange(0, 4) =~= be_u32(x));
    assert(s.subrange(0, 4) =~= be_u32(y));
    assert(s.subrange(4, s.len() as int) =~= r);
    assert(s.subrange(4, s.len() as int) =~= r2);
}

/// Two byte strings that begin with a framed field and agree, begin with
/// the same field and agree in what follows it.
pub proof fn lemma_framed_prefix(x: Seq<u8>, r: Seq<u8>, y: Seq<u8>, r2: Seq<u8>)
    requires
        x.len() <= u64::MAX,
        y.len() <= u64::MAX,
        framed(x) + r == framed(y) + r2,
    ensures
        x == y,
        r == r2,
{
    let s = framed(x) + r;
    assert(s =~= be_u64(x.len() as u64) + (x + r));
    assert(s =~= be_u64(y.len() as u64) + (y + r2));
    lemma_u64_prefix(x.len() as u64, x + r, y.len() as u64, y + r2);
    let rest = x + r;
    assert(rest.subrange(0, x.len() as int) =~= x);
    assert(rest.subrange(0, y.len() as int) =~= y);
    assert(rest.subrange(x.len() as int, rest.len() as int) =~= r);
    assert(rest.subrange(y.len() as int, rest.len() as int) =~= r2);
}

/// Two byte strings that begin with a text field and agree, begin with the
/// same text and agree in what follows it.
pub proof fn lemma_text_prefix(x: Seq<char>, r: Seq<u8>, y: Seq<char>, r2: Seq<u8>)
    requires
        text_fits(x),
        text_fits(y),
        framed_text(x) + r == framed_text(y) + r2,
    ensures
        x == y,
        r == r2,
{
    lemma_framed_prefix(encode_utf8(x), r, encode_utf8(y), r2);
    encode_utf8_decode_utf8(x);
    encode_utf8_decode_utf8(y);
}

/// Two byte strings that begin with two text fields and agree, begin with
/// the same two texts and agree in what follows them.
proof fn lemma_two_texts_prefix(
    a: Seq<char>,
    b: Seq<char>,
    r: Seq<u8>,
    c: Seq<char>,
    d: Seq<char>,
    r2: Seq<u8>,
)
    requires
        text_fits(a),
        text_fits(b),
        text_fits(c),
        text_fits(d),
        framed_text(a) + framed_text(b) + r == framed_text(c) + framed_text(d) + r2,
    ensures
        a == c,
        b == d,
        r == r2,
{
    assert(framed_text(a) + framed_text(b) + r =~= framed_text(a) + (framed_text(b) + r));
    assert(framed_text(c) + framed_text(d) + r2 =~= framed_text(c) + (framed_text(d) + r2));
    lemma_text_prefix(a, framed_text(b) + r, c, framed_text(d) + r2);
    lemma_text_prefix(b, r, d, r2);
}

/// Two byte strings that begin with payloads of one kind and agree, begin
/// with the same payload and agree in what follows it.
pub proof fn lemma_payload_prefix(p: PayloadView, r: Seq<u8>, q: PayloadView, r2: Seq<u8>)
    requires
        payload_fits(p),
        payload_fits(q),
        p.kind() == q.kind(),
        encode_payload(p) + r == encode_payload(q) + r2,
    ensures
        p == q,
        r == r2,
{
    match (p, q) {
        (PayloadView::PeaceTransfer { amount: x }, PayloadView::PeaceTransfer { amount: y }) => {
            lemma_u64_prefix(x, r, y, r2);
        },
        (
            PayloadView::ProfileDeletion { user_id: x },
            PayloadView::ProfileDeletion { user_id: y },
        ) => {
            lemma_text_prefix(x, r, y, r2);
        },
        (
            PayloadView::ProfileUpdate { user_id: x, updated_profile: u },
            PayloadView::ProfileUpdate { user_id: y, updated_profile: v },
        ) => {
            assert(framed_text(x) + framed(u) + r =~= framed_text(x) + (framed(u) + r));
            assert(framed_text(y) + framed(v) + r2 =~= framed_text(y) + (framed(v) + r2));
            lemma_text_prefix(x, framed(u) + r, y, framed(v) + r2);
            lemma_framed_prefix(u, r, v, r2);
        },
        (PayloadView::Match { first: a, second: b }, PayloadView::Match { first: c, second: d }) => {
            lemma_two_texts_prefix(a, b, r, c, d, r2);
        },
        (
            PayloadView::KeyRevocation { revoker: a, target: b },
            PayloadView::KeyRevocation { revoker: c, target: d },
        ) => {
            lemma_two_texts_prefix(a, b, r, c, d, r2);
        },
        (
            PayloadView::Message { encrypted_content: x },
            PayloadView::Message { encrypted_content: y },
        ) => {
            lemma_framed_prefix(x, r, y, r2);
        },
        (PayloadView::Like, PayloadView::Like) => {
            assert(Seq::<u8>::empty() + r =~= r);
            assert(Seq::<u8>::empty() + r2 =~= r2);
        },
        (
            PayloadView::PhotoShare { encrypted_content: x },
            PayloadView::PhotoShare { encrypted_content: y },
        ) => {
            lemma_framed_prefix(x, r, y, r2);
        },
        (PayloadView::BlockUser, PayloadView::BlockUser) => {
            assert(Seq::<u8>::empty() + r =~= r);
            assert(Seq::<u8>::empty() + r2 =~= r2);
        },
        (PayloadView::VideoCall { duration: x }, PayloadView::VideoCall { duration: y }) => {
            lemma_u32_prefix(x, r, y, r2);
        },
        (PayloadView::ReportUser { reason: x }, PayloadView::ReportUser { reason: y }) => {
            lemma_text_prefix(x, r, y, r2);
        },
        (PayloadView::KeyShare { encrypted_key: x }, PayloadView::KeyShare { encrypted_key: y }) => {
            lemma_framed_prefix(x, r, y, r2);
        },
        _ => {},
    }
}

/// Kinds with the same tag are the same kind.
pub proof fn lemma_kind_tag_decides(a: TransactionType, b: TransactionType)
    requires
        kind_tag(a) == kind_tag(b),
    ensures
        a == b,
{
}

/// How the bytes of a transaction, followed by `r`, fall into parts.
proof fn lemma_transaction_parts(t: TransactionView, r: Seq<u8>)
    ensures
        encode_transaction(t) + r == seq![kind_tag(t.payload.kind())] + (framed_text(t.sender_id)
            + framed_text(t.receiver_id) + (encode_payload(t.payload) + (framed_text(t.timestamp)
            + framed_text(t.global_tx_id) + r))),
{
    lemma_regroup(
        seq![kind_tag(t.payload.kind())],
        framed_text(t.sender_id),
        framed_text(t.receiver_id),
        encode_payload(t.payload),
        framed_text(t.timestamp),
        framed_text(t.global_tx_id),
        r,
    );
}

/// Seven byte strings in a row, grouped from the left and grouped by parts,
/// are the same bytes.
proof fn lemma_regroup(
    tag: Seq<u8>,
    a: Seq<u8>,
    b: Seq<u8>,
    c: Seq<u8>,
    d: Seq<u8>,
    e: Seq<u8>,
    r: Seq<u8>,
)
    ensures
        tag + a + b + c + d + e + r == tag + (a + b + (c + (d + e + r))),
{
    assert(tag + a + b + c + d + e + r =~= tag + (a + b + (c + (d + e + r))));
}

/// Two byte strings that begin with one byte and agree, begin with the
/// same byte and agree in what follows it.
proof fn lemma_byte_prefix(x: u8, r: Seq<u8>, y: u8, r2: Seq<u8>)
    requires
        seq![x] + r == seq![y] + r2,
    ensures
        x == y,
        r == r2,
{
    let s = seq![x] + r;
    assert(s[0] == x);
    assert(s[0] == y);
    assert(s.subrange(1, s.len() as int) =~= r);
    assert(s.subrange(1, s.len() as int) =~= r2);
}

/// Two byte strings that begin with a transaction and agree, begin with
/// the same transaction and agree in what follows it.
pub proof fn lemma_transaction_prefix(
    t: TransactionView,
    r: Seq<u8>,
    u: TransactionView,
    r2: Seq<u8>,
)
    requires
        transaction_fits(t),
        transaction_fits(u),
        encode_transaction(t) + r == encode_transaction(u) + r2,
    ensures
        t == u,
        r == r2,
{
    let tail_t = framed_text(t.timestamp) + framed_text(t.global_tx_id) + r;
    let tail_u = framed_text(u.timestamp) + framed_text(u.global_tx_id) + r2;
    let body_t = encode_payload(t.payload) + tail_t;
    let body_u = encode_payload(u.payload) + tail_u;
    let after_tag_t = framed_text(t.sender_id) + framed_text(t.receiver_id) + body_t;
    let after_tag_u = framed_text(u.sender_id) + framed_text(u.receiver_id) + body_u;
    lemma_transaction_parts(t, r);
    lemma_transaction_parts(u, r2);
    lemma_byte_prefix(
        kind_tag(t.payload.kind()),
        after_tag_t,
        kind_tag(u.payload.kind()),
        after_tag_u,
    );
    lemma_kind_tag_decides(t.payload.kind(), u.payload.kind());
    lemma_two_texts_prefix(t.sender_id, t.receiver_id, body_t, u.sender_id, u.receiver_id, body_u);
    lemma_payload_prefix(t.payload, tail_t, u.payload, tail_u);
    lemma_two_texts_prefix(t.timestamp, t.global_tx_id, r, u.timestamp, u.global_tx_id, r2);
}

/// A list that fits has a first transaction that fits, and the others fit
/// too.
proof fn lemma_fit_drop_first(txs: Seq<TransactionView>)
    requires
        transactions_fit(txs),
        txs.len() > 0,
    ensures
        transaction_fits(txs[0]),
        transactions_fit(txs.drop_first()),
{
    assert forall|i: int| 0 <= i < txs.drop_first().len() implies transaction_fits(
        #[trigger] txs.drop_first()[i],
    ) by {
        assert(txs.drop_first()[i] == txs[i + 1]);
    }
}

/// The bytes of a list are the bytes of its first transaction followed by
/// the bytes of the others.
pub proof fn lemma_encode_each_first(txs: Seq<TransactionView>)
    requires
        txs.len() > 0,
    ensures
        encode_each(txs) == encode_transaction(txs[0]) + encode_each(txs.drop_first()),
    decreases txs.len(),
{
    if txs.len() == 1 {
        assert(txs.drop_last() =~= Seq::<TransactionView>::empty());
        assert(txs.drop_first() =~= Seq::<TransactionView>::empty());
        assert(encode_each(txs) =~= encode_transaction(txs[0]) + encode_each(txs.drop_first()));
    } else {
        lemma_encode_each_first(txs.drop_last());
        assert(txs.drop_last().drop_first() =~= txs.drop_first().drop_last());
        assert(txs.drop_last()[0] == txs[0]);
        assert(txs.drop_first().last() == txs.last());
        assert(encode_each(txs) =~= encode_transaction(txs[0]) + encode_each(txs.drop_first()));
    }
}

/// Two byte strings that begin with equally many transactions and agree,
/// begin with the same transactions and agree in what follows them.
pub proof fn lemma_each_prefix(
    a: Seq<TransactionView>,
    r: Seq<u8>,
    b: Seq<TransactionView>,
    r2: Seq<u8>,
)
    requires
        a.len() == b.len(),
        transactions_fit(a),
        transactions_fit(b),
        encode_each(a) + r == encode_each(b) + r2,
    ensures
        a == b,
        r == r2,
    decreases a.len(),
{
    if a.len() == 0 {
        assert(encode_each(a) + r =~= r);
        assert(encode_each(b) + r2 =~= r2);
        assert(a =~= b);
    } else {
        let rest_a = encode_each(a.drop_first()) + r;
        let rest_b = encode_each(b.drop_first()) + r2;
        assert(encode_each(a) + r == encode_transaction(a[0]) + rest_a) by {
            lemma_encode_each_first(a);
            lemma_concat_assoc(encode_transaction(a[0]), encode_each(a.drop_first()), r);
        }
        assert(encode_each(b) + r2 == encode_transaction(b[0]) + rest_b) by {
            lemma_encode_each_first(b);
            lemma_concat_assoc(encode_transaction(b[0]), encode_each(b.drop_first()), r2);
        }
        lemma_fit_drop_first(a);
        lemma_fit_drop_first(b);
        lemma_transaction_prefix(a[0], rest_a, b[0], rest_b);
        lemma_each_prefix(a.drop_first(), r, b.drop_first(), r2);
        assert(a =~= seq![a[0]] + a.drop_first());
        assert(b =~= seq![b[0]] + b.drop_first());
    }
}

/// Grouping three byte strings from the left or from the right gives the
/// same bytes.
proof fn lemma_concat_assoc(a: Seq<u8>, b: Seq<u8>, c: Seq<u8>)
    ensures
        a + b + c == a + (b + c),
{
    assert(a + b + c =~= a + (b + c));
}

/// Two byte strings that begin with a list of transactions in canonical
/// form and agree, begin with the same list and agree in what follows it.
pub proof fn lemma_transactions_prefix(
    a: Seq<TransactionView>,
    r: Seq<u8>,
    b: Seq<TransactionView>,
    r2: Seq<u8>,
)
    requires
        transactions_fit(a),
        transactions_fit(b),
        encode_transactions(a) + r == encode_transactions(b) + r2,
    ensures
        a == b,
        r == r2,
{
    assert(encode_transactions(a) + r =~= be_u64(a.len() as u64) + (encode_each(a) + r));
    assert(encode_transactions(b) + r2 =~= be_u64(b.len() as u64) + (encode_each(b) + r2));
    lemma_u64_prefix(a.len() as u64, encode_each(a) + r, b.len() as u64, encode_each(b) + r2);
    lemma_each_prefix(a, r, b, r2);
}

/// Lists of transactions with the same canonical bytes are the same list.
pub proof fn lemma_canonical_bytes_decide(a: Seq<TransactionView>, b: Seq<TransactionView>)
    requires
        transactions_fit(a),
        transactions_fit(b),
        encode_transactions(a) == encode_transactions(b),
    ensures
        a == b,
{
    lemma_transactions_prefix(a, Seq::empty(), b, Seq::empty());
}

/// Blocks with the same hash input agree in everything that is hashed:
/// transactions, previous hash, nonce and timestamp.
pub proof fn lemma_hash_input_decides(a: BlockView, b: BlockView)
    requires
        transactions_fit(a.transactions),
        transactions_fit(b.transactions),
        hash_input(a) == hash_input(b),
    ensures
        a.transactions == b.transactions,
        a.previous_hash == b.previous_hash,
        a.nonce == b.nonce,
        a.timestamp == b.timestamp,
{
    let tail_a = encode_utf8(a.previous_hash) + be_u64(a.nonce) + be_u64(a.timestamp);
    let tail_b = encode_utf8(b.previous_hash) + be_u64(b.nonce) + be_u64(b.timestamp);
    assert(hash_input(a) =~= encode_transactions(a.transactions) + tail_a);
    assert(hash_input(b) =~= encode_transactions(b.transactions) + tail_b);
    lemma_transactions_prefix(a.transactions, tail_a, b.transactions, tail_b);
    let n = tail_a.len() as int;
    let prev_a = encode_utf8(a.previous_hash);
    let prev_b = encode_utf8(b.previous_hash);
    assert(prev_a.len() == n - 16);
    assert(prev_b.len() == n - 16);
    assert(tail_a.subrange(0, n - 16) =~= prev_a);
    assert(tail_b.subrange(0, n - 16) =~= prev_b);
    assert(tail_a.subrange(n - 16, n - 8) =~= be_u64(a.nonce));
    assert(tail_b.subrange(n - 16, n - 8) =~= be_u64(b.nonce));
    assert(tail_a.subrange(n - 8, n) =~= be_u64(a.timestamp));
    assert(tail_b.subrange(n - 8, n) =~= be_u64(b.timestamp));
    lemma_u64_round_trip(a.nonce);
    lemma_u64_round_trip(b.nonce);
    lemma_u64_round_trip(a.timestamp);
    lemma_u64_round_trip(b.timestamp);
    encode_utf8_decode_utf8(a.previous_hash);
    encode_utf8_decode_utf8(b.previous_hash);
}

} // verus!
