//! Profiles: a user's record, stored encrypted under the owner's key.

use crate::codec::{
    be_u32, be_u64, framed_text, get_text, get_u32, get_u64, lemma_read_text, lemma_read_u32,
    lemma_read_u64, put_text, put_u32, put_u64, read_text, read_u32, read_u64, text_fits,
};
use crate::crypto::{
    open_sealed, seal, sealed_with, unsealed, MAX_PLAINTEXT_LEN, NONCE_LEN, TAG_LEN,
};
use vstd::prelude::*;
use vstd::utf8::encode_utf8;

verus! {

/// What a profile says of its owner, in the clear.
#[derive(Debug)]
pub struct RawProfileData {
    pub name: String,
    pub age: u32,
    pub bio: String,
    pub interests: Vec<String>,
    pub location: String,
}

/// The mathematical value of a `RawProfileData`.
pub struct RawProfileDataView {
    pub name: Seq<char>,
    pub age: u32,
    pub bio: Seq<char>,
    pub interests: Seq<Seq<char>>,
    pub location: Seq<char>,
}

impl View for RawProfileData {
    type V = RawProfileDataView;

    open spec fn view(&self) -> RawProfileDataView {
        RawProfileDataView {
            name: self.name@,
            age: self.age,
            bio: self.bio@,
            interests: self.interests.deep_view(),
            location: self.location@,
        }
    }
}

impl DeepView for RawProfileData {
    type V = RawProfileDataView;

    open spec fn deep_view(&self) -> RawProfileDataView {
        self@
    }
}

/// The canonical bytes of a list of texts: each as a text field, in order.
pub open spec fn encode_texts(texts: Seq<Seq<char>>) -> Seq<u8>
    decreases texts.len(),
{
    if texts.len() == 0 {
        Seq::empty()
    } else {
        framed_text(texts[0]) + encode_texts(texts.drop_first())
    }
}

/// The canonical bytes of a record: name, age, bio, the number of
/// interests, the interests, and the location.
pub open spec fn encode_record(r: RawProfileDataView) -> Seq<u8> {
    framed_text(r.name) + be_u32(r.age) + framed_text(r.bio) + be_u64(r.interests.len() as u64)
        + encode_texts(r.interests) + framed_text(r.location)
}

/// What a reader finds at `pos`: `count` text fields, one after the other.
pub open spec fn read_texts(s: Seq<u8>, pos: int, count: nat) -> Option<(Seq<Seq<char>>, int)>
    decreases count,
{
    if count == 0 {
        Some((Seq::empty(), pos))
    } else {
        match read_text(s, pos) {
            Some((first, next)) => match read_texts(s, next, (count - 1) as nat) {
                Some((rest, end)) => Some((seq![first] + rest, end)),
                None => None,
            },
            None => None,
        }
    }
}

/// The record that `s` is the canonical form of: `None` where a field is
/// cut short, a text is not UTF-8, or bytes are left over.
pub open spec fn decode_record(s: Seq<u8>) -> Option<RawProfileDataView> {
    match read_text(s, 0) {
        Some((name, at_age)) => match read_u32(s, at_age) {
            Some((age, at_bio)) => match read_text(s, at_bio) {
                Some((bio, at_count)) => match read_u64(s, at_count) {
                    Some((count, at_interests)) => match read_texts(s, at_interests, count as nat) {
                        Some((interests, at_location)) => match read_text(s, at_location) {
                            Some((location, at_end)) => if at_end == s.len() {
                                Some(RawProfileDataView { name, age, bio, interests, location })
                            } else {
                                None
                            },
                            None => None,
                        },
                        None => None,
                    },
                    None => None,
                },
                None => None,
            },
            None => None,
        },
        None => None,
    }
}

/// Whether every length in `r` can be written as a `u64`, which holds of
/// every record in memory.
pub open spec fn record_fits(r: RawProfileDataView) -> bool {
    &&& text_fits(r.name)
    &&& text_fits(r.bio)
    &&& text_fits(r.location)
    &&& r.interests.len() <= u64::MAX
    &&& forall|i: int| 0 <= i < r.interests.len() ==> text_fits(#[trigger] r.interests[i])
}

/// Texts written at the end of `a` are read back at `a.len()`.
pub proof fn lemma_read_texts(a: Seq<u8>, texts: Seq<Seq<char>>, rest: Seq<u8>)
    requires
        forall|i: int| 0 <= i < texts.len() ==> text_fits(#[trigger] texts[i]),
    ensures
        read_texts(a + encode_texts(texts) + rest, a.len() as int, texts.len()) == Some(
            (texts, a.len() as int + encode_texts(texts).len()),
        ),
    decreases texts.len(),
{
    let s = a + encode_texts(texts) + rest;
    if texts.len() == 0 {
    } else {
        let first = texts[0];
        let tail = texts.drop_first();
        let a2 = a + framed_text(first);
        lemma_read_text(a, first, encode_texts(tail) + rest);
        assert(s =~= a + framed_text(first) + (encode_texts(tail) + rest));
        assert forall|i: int| 0 <= i < tail.len() implies text_fits(#[trigger] tail[i]) by {
            assert(tail[i] == texts[i + 1]);
        }
        lemma_read_texts(a2, tail, rest);
        assert(s =~= a2 + encode_texts(tail) + rest);
        assert(seq![first] + tail =~= texts);
    }
}

/// Appending a text to a list appends its field to the list's bytes.
pub proof fn lemma_encode_texts_push(texts: Seq<Seq<char>>, last: Seq<char>)
    ensures
        encode_texts(texts.push(last)) == encode_texts(texts) + framed_text(last),
    decreases texts.len(),
{
    let pushed = texts.push(last);
    if texts.len() == 0 {
        assert(pushed[0] == last);
        assert(pushed.drop_first() =~= Seq::<Seq<char>>::empty());
        assert(encode_texts(pushed.drop_first()) =~= Seq::<u8>::empty());
        assert(encode_texts(pushed) == framed_text(last) + encode_texts(pushed.drop_first()));
        assert(encode_texts(texts) =~= Seq::<u8>::empty());
        assert(encode_texts(pushed) =~= encode_texts(texts) + framed_text(last));
    } else {
        lemma_encode_texts_push(texts.drop_first(), last);
        assert(pushed[0] == texts[0]);
        assert(pushed.drop_first() =~= texts.drop_first().push(last));
        assert(encode_texts(pushed) == framed_text(texts[0]) + encode_texts(pushed.drop_first()));
        assert(encode_texts(pushed) =~= encode_texts(texts) + framed_text(last));
    }
}

/// Where the fields of a record start in its canonical bytes: the age,
/// the bio, the number of interests, the interests, the location, and the
/// end.
pub open spec fn field_offsets(r: RawProfileDataView) -> (int, int, int, int, int, int) {
    let at_age = framed_text(r.name).len() as int;
    let at_bio = at_age + 4;
    let at_count = at_bio + framed_text(r.bio).len();
    let at_interests = at_count + 8;
    let at_location = at_interests + encode_texts(r.interests).len();
    let at_end = at_location + framed_text(r.location).len();
    (at_age, at_bio, at_count, at_interests, at_location, at_end)
}

proof fn lemma_reads_name(r: RawProfileDataView)
    requires
        record_fits(r),
    ensures
        read_text(encode_record(r), 0) == Some((r.name, field_offsets(r).0)),
{
    let rest = be_u32(r.age) + framed_text(r.bio) + be_u64(r.interests.len() as u64)
        + encode_texts(r.interests) + framed_text(r.location);
    lemma_read_text(Seq::empty(), r.name, rest);
    assert(encode_record(r) =~= Seq::<u8>::empty() + framed_text(r.name) + rest);
}

proof fn lemma_reads_age(r: RawProfileDataView)
    ensures
        read_u32(encode_record(r), field_offsets(r).0) == Some((r.age, field_offsets(r).1)),
{
    let rest = framed_text(r.bio) + be_u64(r.interests.len() as u64) + encode_texts(r.interests)
        + framed_text(r.location);
    lemma_read_u32(framed_text(r.name), r.age, rest);
    assert(encode_record(r) =~= framed_text(r.name) + be_u32(r.age) + rest);
}

proof fn lemma_reads_bio(r: RawProfileDataView)
    requires
        record_fits(r),
    ensures
        read_text(encode_record(r), field_offsets(r).1) == Some((r.bio, field_offsets(r).2)),
{
    let before = framed_text(r.name) + be_u32(r.age);
    let rest = be_u64(r.interests.len() as u64) + encode_texts(r.interests) + framed_text(
        r.location,
    );
    lemma_read_text(before, r.bio, rest);
    assert(encode_record(r) =~= before + framed_text(r.bio) + rest);
}

proof fn lemma_reads_count(r: RawProfileDataView)
    ensures
        read_u64(encode_record(r), field_offsets(r).2) == Some(
            (r.interests.len() as u64, field_offsets(r).3),
        ),
{
    let before = framed_text(r.name) + be_u32(r.age) + framed_text(r.bio);
    let rest = encode_texts(r.interests) + framed_text(r.location);
    lemma_read_u64(before, r.interests.len() as u64, rest);
    assert(encode_record(r) =~= before + be_u64(r.interests.len() as u64) + rest);
}

proof fn lemma_reads_interests(r: RawProfileDataView)
    requires
        record_fits(r),
    ensures
        read_texts(encode_record(r), field_offsets(r).3, r.interests.len()) == Some(
            (r.interests, field_offsets(r).4),
        ),
{
    let before = framed_text(r.name) + be_u32(r.age) + framed_text(r.bio) + be_u64(
        r.interests.len() as u64,
    );
    lemma_read_texts(before, r.interests, framed_text(r.location));
}

proof fn lemma_reads_location(r: RawProfileDataView)
    requires
        record_fits(r),
    ensures
        read_text(encode_record(r), field_offsets(r).4) == Some((r.location, field_offsets(r).5)),
        field_offsets(r).5 == encode_record(r).len(),
{
    let before = framed_text(r.name) + be_u32(r.age) + framed_text(r.bio) + be_u64(
        r.interests.len() as u64,
    ) + encode_texts(r.interests);
    lemma_read_text(before, r.location, Seq::empty());
    assert(encode_record(r) =~= before + framed_text(r.location) + Seq::<u8>::empty());
}

/// Decoding the canonical bytes of a record gives the record back.
pub proof fn lemma_record_round_trip(r: RawProfileDataView)
    requires
        record_fits(r),
    ensures
        decode_record(encode_record(r)) == Some(r),
{
    lemma_reads_name(r);
    lemma_reads_age(r);
    lemma_reads_bio(r);
    lemma_reads_count(r);
    lemma_reads_interests(r);
    lemma_reads_location(r);
    assert((r.interests.len() as u64) as nat == r.interests.len());
}

impl RawProfileData {
    /// The canonical bytes of this record. Decoding them gives the record
    /// back.
    pub fn encode(&self) -> (r: Vec<u8>)
        ensures
            r@ == encode_record(self@),
            record_fits(self@),
            decode_record(r@) == Some(self@),
    {
        let mut out: Vec<u8> = Vec::new();
        put_text(&mut out, self.name.as_str());
        put_u32(&mut out, self.age);
        put_text(&mut out, self.bio.as_str());
        put_u64(&mut out, self.interests.len() as u64);
        let ghost head = out@;
        let ghost texts = self.interests.deep_view();
        let mut i: usize = 0;
        assert(texts.take(0) =~= Seq::<Seq<char>>::empty());
        assert(out@ =~= head + encode_texts(texts.take(0)));
        while i < self.interests.len()
            invariant
                i <= self.interests.len(),
                texts == self.interests.deep_view(),
                out@ == head + encode_texts(texts.take(i as int)),
                forall|j: int| 0 <= j < i ==> text_fits(#[trigger] texts[j]),
            decreases self.interests.len() - i,
        {
            let text = self.interests[i].as_str();
            put_text(&mut out, text);
            proof {
                lemma_encode_texts_push(texts.take(i as int), texts[i as int]);
                assert(texts.take(i as int).push(texts[i as int]) =~= texts.take(i + 1));
                assert(out@ =~= head + encode_texts(texts.take(i + 1)));
            }
            i += 1;
        }
        assert(texts.take(i as int) =~= texts);
        put_text(&mut out, self.location.as_str());
        proof {
            assert(out@ =~= encode_record(self@));
            lemma_record_round_trip(self@);
        }
        out
    }

    /// The record that `bytes` is the canonical form of.
    pub fn decode(bytes: &[u8]) -> (r: Option<RawProfileData>)
        ensures
            match r {
                Some(record) => decode_record(bytes@) == Some(record@),
                None => decode_record(bytes@) is None,
            },
    {
        let (name, at_age) = match get_text(bytes, 0) {
            Some(v) => v,
            None => { return None; },
        };
        let (age, at_bio) = match get_u32(bytes, at_age) {
            Some(v) => v,
            None => { return None; },
        };
        let (bio, at_count) = match get_text(bytes, at_bio) {
            Some(v) => v,
            None => { return None; },
        };
        let (count, at_interests) = match get_u64(bytes, at_count) {
            Some(v) => v,
            None => { return None; },
        };
        let mut interests: Vec<String> = Vec::new();
        let mut pos: usize = at_interests;
        let mut i: u64 = 0;
        assert(interests.deep_view() =~= Seq::<Seq<char>>::empty());
        while i < count
            invariant
                i <= count,
                read_text(bytes@, 0) == Some((name@, at_age as int)),
                read_u32(bytes@, at_age as int) == Some((age, at_bio as int)),
                read_text(bytes@, at_bio as int) == Some((bio@, at_count as int)),
                read_u64(bytes@, at_count as int) == Some((count, at_interests as int)),
                read_texts(bytes@, at_interests as int, count as nat) == (match read_texts(
                    bytes@,
                    pos as int,
                    (count - i) as nat,
                ) {
                    Some((rest, end)) => Some((interests.deep_view() + rest, end)),
                    None => None,
                }),
            decreases count - i,
        {
            let ghost before = interests.deep_view();
            match get_text(bytes, pos) {
                Some((text, next)) => {
                    interests.push(text);
                    proof {
                        assert(interests.deep_view() =~= before.push(text@));
                        match read_texts(bytes@, next as int, (count - i - 1) as nat) {
                            Some((rest, end)) => {
                                assert(before + (seq![text@] + rest) =~= interests.deep_view()
                                    + rest);
                            },
                            None => {},
                        }
                    }
                    pos = next;
                },
                None => {
                    assert(read_texts(bytes@, pos as int, (count - i) as nat) is None);
                    return None;
                },
            }
            i += 1;
        }
        proof {
            assert(interests.deep_view() + Seq::<Seq<char>>::empty() =~= interests.deep_view());
        }
        let (location, at_end) = match get_text(bytes, pos) {
            Some(v) => v,
            None => { return None; },
        };
        if at_end != bytes.len() {
            return None;
        }
        Some(RawProfileData { name, age, bio, interests, location })
    }
}

/// A user's profile: the owner's identity, the record encrypted under the
/// owner's key as nonce and ciphertext, and whether the profile was
/// deleted.
#[derive(Debug)]
pub struct Profile {
    pub user_id: String,
    pub encrypted_data: Vec<u8>,
    pub is_deleted: bool,
}

/// The mathematical value of a `Profile`.
pub struct ProfileView {
    pub user_id: Seq<char>,
    pub encrypted_data: Seq<u8>,
    pub is_deleted: bool,
}

impl View for Profile {
    type V = ProfileView;

    open spec fn view(&self) -> ProfileView {
        ProfileView {
            user_id: self.user_id@,
            encrypted_data: self.encrypted_data@,
            is_deleted: self.is_deleted,
        }
    }
}

impl DeepView for Profile {
    type V = ProfileView;

    open spec fn deep_view(&self) -> ProfileView {
        self@
    }
}

/// The record that the holder of `key` reads from a profile: `None` where
/// the profile was deleted, where the payload is too short to hold a nonce,
/// where the cipher rejects it under `key`, and where the plaintext is no
/// record.
pub open spec fn plaintext_of(p: ProfileView, key: Seq<u8>) -> Option<RawProfileDataView> {
    if p.is_deleted {
        None
    } else {
        match unsealed(key, p.encrypted_data) {
            Some(bytes) => decode_record(bytes),
            None => None,
        }
    }
}

impl Clone for Profile {
    fn clone(&self) -> (r: Self)
        ensures
            r@ == self@,
    {
        let encrypted_data = self.encrypted_data.clone();
        assert(encrypted_data@ =~= self.encrypted_data@);
        Profile { user_id: self.user_id.clone(), encrypted_data, is_deleted: self.is_deleted }
    }
}

impl Profile {
    /// The profile of `user_id` with `raw_data` encrypted under `key` and a
    /// fresh nonce. The holder of `key` reads `raw_data` back from it.
    pub fn new(user_id: String, raw_data: RawProfileData, key: &[u8; 32]) -> (r: Self)
        requires
            encode_record(raw_data@).len() <= MAX_PLAINTEXT_LEN,
        ensures
            r@.user_id == user_id@,
            !r@.is_deleted,
            exists|nonce: Seq<u8>|
                nonce.len() == NONCE_LEN && r@.encrypted_data == #[trigger] sealed_with(
                    key@,
                    nonce,
                    encode_record(raw_data@),
                ),
            r@.encrypted_data.len() == NONCE_LEN + encode_record(raw_data@).len() + TAG_LEN,
            plaintext_of(r@, key@) == Some(raw_data@),
    {
        let plaintext = raw_data.encode();
        let encrypted_data = seal(key, plaintext.as_slice());
        Profile { user_id, encrypted_data, is_deleted: false }
    }

    /// The record in this profile, for the holder of `key`.
    pub fn decrypt(&self, key: &[u8; 32]) -> (r: Option<RawProfileData>)
        ensures
            match r {
                Some(record) => plaintext_of(self@, key@) == Some(record@),
                None => plaintext_of(self@, key@) is None,
            },
    {
        if self.is_deleted {
            return None;
        }
        match open_sealed(key, self.encrypted_data.as_slice()) {
            Some(plaintext) => RawProfileData::decode(plaintext.as_slice()),
            None => None,
        }
    }

    /// The payload that replaces this profile's: `new_data` encrypted under
    /// `key` and a fresh nonce.
    pub fn update(&self, new_data: RawProfileData, key: &[u8; 32]) -> (r: Vec<u8>)
        requires
            encode_record(new_data@).len() <= MAX_PLAINTEXT_LEN,
        ensures
            exists|nonce: Seq<u8>|
                nonce.len() == NONCE_LEN && r@ == #[trigger] sealed_with(
                    key@,
                    nonce,
                    encode_record(new_data@),
                ),
            r@.len() == NONCE_LEN + encode_record(new_data@).len() + TAG_LEN,
            unsealed(key@, r@) == Some(encode_record(new_data@)),
            decode_record(encode_record(new_data@)) == Some(new_data@),
    {
        let plaintext = new_data.encode();
        seal(key, plaintext.as_slice())
    }

    /// Marks this profile as deleted. Nobody reads it afterwards, whatever
    /// key they hold.
    pub fn delete(&mut self)
        ensures
            final(self)@ == (ProfileView { is_deleted: true, ..old(self)@ }),
            forall|key: Seq<u8>| plaintext_of(final(self)@, key) is None,
    {
        self.is_deleted = true;
    }
}

/// A deleted profile gives no record, whatever the key.
pub proof fn lemma_deleted_gives_nothing(p: ProfileView, key: Seq<u8>)
    requires
        p.is_deleted,
    ensures
        plaintext_of(p, key) is None,
{
}

/// A profile that holds a record sealed under `key` gives the record back
/// to the holder of `key`.
pub proof fn lemma_profile_round_trip(
    user_id: Seq<char>,
    record: RawProfileDataView,
    key: Seq<u8>,
    sealed: Seq<u8>,
)
    requires
        record_fits(record),
        unsealed(key, sealed) == Some(encode_record(record)),
    ensures
        plaintext_of(ProfileView { user_id, encrypted_data: sealed, is_deleted: false }, key)
            == Some(record),
{
    lemma_record_round_trip(record);
}

} // verus!
