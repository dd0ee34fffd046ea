//! The key store: which holder can read which subject's content, and with
//! which key.

use crate::codec::same_text;
use vstd::prelude::*;

verus! {

/// A pair of identities: the holder of a key, and the subject whose content
/// the key opens.
pub type Grant = (Seq<char>, Seq<char>);

/// One grant with its key.
#[derive(Debug)]
pub struct KeyEntry {
    holder: String,
    subject: String,
    key: [u8; 32],
}

/// A directed mapping from (holder, subject) to a 32-byte symmetric key. An
/// entry for (A, B) lets A read B's content; it says nothing of (B, A).
#[derive(Debug)]
pub struct KeyStore {
    entries: Vec<KeyEntry>,
}

impl KeyEntry {
    /// The grant that this entry is for.
    pub closed spec fn grant(&self) -> Grant {
        (self.holder@, self.subject@)
    }

    /// The key of this entry.
    pub closed spec fn key_bytes(&self) -> Seq<u8> {
        self.key@
    }
}

/// The mapping that a list of entries stands for. Of two entries for one
/// grant the later counts.
pub open spec fn entries_map(entries: Seq<KeyEntry>) -> Map<Grant, Seq<u8>>
    decreases entries.len(),
{
    if entries.len() == 0 {
        Map::empty()
    } else {
        entries_map(entries.drop_last()).insert(entries.last().grant(), entries.last().key_bytes())
    }
}

/// Appending an entry inserts its grant into the mapping.
proof fn lemma_entries_map_push(entries: Seq<KeyEntry>, e: KeyEntry)
    ensures
        entries_map(entries.push(e)) == entries_map(entries).insert(e.grant(), e.key_bytes()),
{
    assert(entries.push(e).drop_last() =~= entries);
}

impl View for KeyStore {
    type V = Map<Grant, Seq<u8>>;

    closed spec fn view(&self) -> Map<Grant, Seq<u8>> {
        entries_map(self.entries@)
    }
}

impl KeyStore {
    /// A store without grants.
    pub fn new() -> (r: Self)
        ensures
            r@ == Map::<Grant, Seq<u8>>::empty(),
    {
        KeyStore { entries: Vec::new() }
    }

    /// The key that lets `holder` read `subject`'s content, if the store
    /// has one.
    pub fn get(&self, holder: &str, subject: &str) -> (r: Option<[u8; 32]>)
        ensures
            match r {
                Some(key) => self@.contains_key((holder@, subject@)) && self@[(holder@, subject@)]
                    == key@,
                None => !self@.contains_key((holder@, subject@)),
            },
    {
        let ghost grant = (holder@, subject@);
        let mut i: usize = self.entries.len();
        assert(self.entries@.take(i as int) =~= self.entries@);
        while i > 0
            invariant
                i <= self.entries.len(),
                grant == (holder@, subject@),
                self@.contains_key(grant) == entries_map(self.entries@.take(i as int)).contains_key(
                    grant,
                ),
                self@.contains_key(grant) ==> self@[grant] == entries_map(
                    self.entries@.take(i as int),
                )[grant],
            decreases i,
        {
            i -= 1;
            let entry = &self.entries[i];
            proof {
                let upto = self.entries@.take(i + 1);
                assert(upto.drop_last() =~= self.entries@.take(i as int));
                assert(upto.last() == *entry);
            }
            if same_text(entry.holder.as_str(), holder) && same_text(entry.subject.as_str(), subject) {
                return Some(entry.key);
            }
        }
        None
    }

    /// Removes the grant of `subject`'s content to `holder`, and returns
    /// whether there was one. Other grants stay.
    pub fn remove(&mut self, holder: &str, subject: &str) -> (r: bool)
        ensures
            final(self)@ == old(self)@.remove((holder@, subject@)),
            r == old(self)@.contains_key((holder@, subject@)),
    {
        let ghost grant = (holder@, subject@);
        let mut kept: Vec<KeyEntry> = Vec::new();
        let mut found = false;
        let mut i: usize = 0;
        assert(self.entries@.take(0) =~= Seq::<KeyEntry>::empty());
        assert(entries_map(kept@) =~= entries_map(self.entries@.take(0)).remove(grant));
        while i < self.entries.len()
            invariant
                i <= self.entries.len(),
                self.entries == old(self).entries,
                grant == (holder@, subject@),
                entries_map(kept@) == entries_map(self.entries@.take(i as int)).remove(grant),
                found == entries_map(self.entries@.take(i as int)).contains_key(grant),
            decreases self.entries.len() - i,
        {
            let entry = &self.entries[i];
            proof {
                let upto = self.entries@.take(i + 1);
                assert(upto.drop_last() =~= self.entries@.take(i as int));
                assert(upto.last() == *entry);
            }
            if same_text(entry.holder.as_str(), holder) && same_text(entry.subject.as_str(), subject) {
                found = true;
                assert(entries_map(kept@) =~= entries_map(self.entries@.take(i + 1)).remove(grant));
            } else {
                let copy = KeyEntry {
                    holder: entry.holder.clone(),
                    subject: entry.subject.clone(),
                    key: entry.key,
                };
                proof {
                    lemma_entries_map_push(kept@, copy);
                }
                kept.push(copy);
                assert(entries_map(kept@) =~= entries_map(self.entries@.take(i + 1)).remove(grant));
            }
            i += 1;
        }
        assert(self.entries@.take(i as int) =~= self.entries@);
        self.entries = kept;
        found
    }

    /// Grants `holder` the means to read `subject`'s content with `key`. A
    /// grant that was there before is replaced. Other grants stay.
    pub fn insert(&mut self, holder: String, subject: String, key: [u8; 32])
        ensures
            final(self)@ == old(self)@.insert((holder@, subject@), key@),
    {
        self.remove(holder.as_str(), subject.as_str());
        let entry = KeyEntry { holder, subject, key };
        proof {
            lemma_entries_map_push(self.entries@, entry);
        }
        self.entries.push(entry);
        assert(self@ =~= old(self)@.insert((holder@, subject@), key@));
    }
}

/// A revoked grant is gone, whatever else the store held, and sharing the
/// key again brings it back.
pub proof fn lemma_revoke_then_share(keys: Map<Grant, Seq<u8>>, grant: Grant, key: Seq<u8>)
    ensures
        !keys.remove(grant).contains_key(grant),
        keys.remove(grant).insert(grant, key).contains_key(grant),
        keys.remove(grant).insert(grant, key)[grant] == key,
        forall|other: Grant|
            other != grant ==> keys.remove(grant).contains_key(other) == keys.contains_key(other),
{
}

} // verus!
