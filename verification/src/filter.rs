//! What a fetcher asks of the profiles it wants to see, and the order in
//! which it sees them.

use crate::codec::same_text;
use crate::profile::{ProfileView, RawProfileData, RawProfileDataView};
use vstd::prelude::*;

verus! {

/// The conditions that a profile must meet to be shown. A condition that is
/// `None` asks nothing.
#[derive(Debug)]
pub struct ProfileFilter {
    /// The location, letter for letter.
    pub location: Option<String>,
    /// The least age, inclusive.
    pub min_age: Option<u32>,
    /// The greatest age, inclusive.
    pub max_age: Option<u32>,
    /// Interests of which the profile must share at least one.
    pub interests: Option<Vec<String>>,
    /// Words of which the bio must hold at least one, whatever the case of
    /// their letters.
    pub bio_keywords: Option<Vec<String>>,
    /// The least interaction score. Setting it also orders the result by
    /// score.
    pub min_score: Option<u32>,
    /// Whether only profiles that matched with the fetcher are shown.
    pub recent_matches: Option<bool>,
}

/// The mathematical value of a `ProfileFilter`.
pub struct FilterView {
    pub location: Option<Seq<char>>,
    pub min_age: Option<u32>,
    pub max_age: Option<u32>,
    pub interests: Option<Seq<Seq<char>>>,
    pub bio_keywords: Option<Seq<Seq<char>>>,
    pub min_score: Option<u32>,
    pub recent_matches: Option<bool>,
}

impl View for ProfileFilter {
    type V = FilterView;

    open spec fn view(&self) -> FilterView {
        FilterView {
            location: self.location.deep_view(),
            min_age: self.min_age,
            max_age: self.max_age,
            interests: self.interests.deep_view(),
            bio_keywords: self.bio_keywords.deep_view(),
            min_score: self.min_score,
            recent_matches: self.recent_matches,
        }
    }
}

/// An action between two users, with the score it earned.
#[derive(Debug)]
pub struct Interaction {
    pub event_type: String,
    pub user_id: String,
    pub target_id: String,
    pub score: u32,
}

/// The mathematical value of an `Interaction`.
pub struct InteractionView {
    pub event_type: Seq<char>,
    pub user_id: Seq<char>,
    pub target_id: Seq<char>,
    pub score: u32,
}

impl View for Interaction {
    type V = InteractionView;

    open spec fn view(&self) -> InteractionView {
        InteractionView {
            event_type: self.event_type@,
            user_id: self.user_id@,
            target_id: self.target_id@,
            score: self.score,
        }
    }
}

impl DeepView for Interaction {
    type V = InteractionView;

    open spec fn deep_view(&self) -> InteractionView {
        self@
    }
}

/// The lower-case form of `s`, as `str::to_lowercase` gives it.
pub uninterp spec fn lowercase(s: Seq<char>) -> Seq<char>;

/// `str::to_lowercase`: the lower-case form of `s`, a function of `s`
/// alone.
#[verifier::external_body]
pub(crate) fn to_lowercase(s: &str) -> (r: String)
    ensures
        r@ == lowercase(s@),
{
    s.to_lowercase()
}

/// Whether `needle` occurs in `hay` as a run of consecutive characters.
pub open spec fn is_subtext(hay: Seq<char>, needle: Seq<char>) -> bool {
    exists|i: int|
        0 <= i <= hay.len() - needle.len() && #[trigger] hay.subrange(i, i + needle.len())
            == needle
}

/// `str::contains` with a text as the pattern: whether `needle` occurs in
/// `hay`.
#[verifier::external_body]
pub(crate) fn str_contains(hay: &str, needle: &str) -> (r: bool)
    ensures
        r == is_subtext(hay@, needle@),
{
    hay.contains(needle)
}

/// Whether some interest of a profile is among the interests asked for.
pub open spec fn shares_interest(own: Seq<Seq<char>>, asked: Seq<Seq<char>>) -> bool {
    exists|i: int| 0 <= i < own.len() && asked.contains(#[trigger] own[i])
}

/// Whether some keyword occurs in `bio`, whatever the case of the letters.
pub open spec fn mentions_keyword(bio: Seq<char>, keywords: Seq<Seq<char>>) -> bool {
    exists|k: int|
        0 <= k < keywords.len() && is_subtext(lowercase(bio), lowercase(#[trigger] keywords[k]))
}

/// Whether a profile with record `raw` and interaction score `score` meets
/// every condition of `filter`; `is_match` says whether the profile's owner
/// matched with the fetcher.
pub open spec fn matches_filter(
    filter: FilterView,
    raw: RawProfileDataView,
    score: nat,
    is_match: bool,
) -> bool {
    &&& filter.location matches Some(location) ==> raw.location == location
    &&& filter.min_age matches Some(age) ==> raw.age >= age
    &&& filter.max_age matches Some(age) ==> raw.age <= age
    &&& filter.interests matches Some(asked) ==> shares_interest(raw.interests, asked)
    &&& filter.bio_keywords matches Some(keywords) ==> mentions_keyword(raw.bio, keywords)
    &&& filter.min_score matches Some(least) ==> score >= least
    &&& filter.recent_matches == Some(true) ==> is_match
}

/// The interaction score of `id`: the sum of the scores of the interactions
/// in which `id` is the actor or the target.
pub open spec fn interaction_score(interactions: Seq<InteractionView>, id: Seq<char>) -> nat
    decreases interactions.len(),
{
    if interactions.len() == 0 {
        0
    } else {
        let last = interactions.last();
        interaction_score(interactions.drop_last(), id) + if last.target_id == id || last.user_id
            == id {
            last.score as nat
        } else {
            0nat
        }
    }
}

/// The interaction score of `id`.
pub fn score_of(interactions: &Vec<Interaction>, id: &str) -> (r: u128)
    ensures
        r == interaction_score(interactions.deep_view(), id@),
{
    let mut sum: u128 = 0;
    let mut i: usize = 0;
    assert(interactions.deep_view().take(0) =~= Seq::<InteractionView>::empty());
    while i < interactions.len()
        invariant
            i <= interactions.len(),
            sum == interaction_score(interactions.deep_view().take(i as int), id@),
            sum <= i * u32::MAX,
        decreases interactions.len() - i,
    {
        let entry = &interactions[i];
        proof {
            let next = interactions.deep_view().take(i + 1);
            assert(next.drop_last() =~= interactions.deep_view().take(i as int));
            assert(next.last() == entry@);
        }
        if same_text(entry.target_id.as_str(), id) || same_text(entry.user_id.as_str(), id) {
            sum = sum + entry.score as u128;
        }
        i += 1;
    }
    assert(interactions.deep_view().take(i as int) =~= interactions.deep_view());
    sum
}

/// Whether `text` is one of `list`.
fn list_contains(list: &Vec<String>, text: &str) -> (r: bool)
    ensures
        r == list.deep_view().contains(text@),
{
    let mut i: usize = 0;
    while i < list.len()
        invariant
            i <= list.len(),
            forall|j: int| 0 <= j < i ==> list.deep_view()[j] != text@,
        decreases list.len() - i,
    {
        if same_text(list[i].as_str(), text) {
            assert(list.deep_view()[i as int] == text@);
            return true;
        }
        i += 1;
    }
    false
}

/// Whether some text of `own` is one of `asked`.
fn lists_share(own: &Vec<String>, asked: &Vec<String>) -> (r: bool)
    ensures
        r == shares_interest(own.deep_view(), asked.deep_view()),
{
    let mut i: usize = 0;
    while i < own.len()
        invariant
            i <= own.len(),
            forall|j: int| 0 <= j < i ==> !asked.deep_view().contains(#[trigger] own.deep_view()[j]),
        decreases own.len() - i,
    {
        if list_contains(asked, own[i].as_str()) {
            assert(asked.deep_view().contains(own.deep_view()[i as int]));
            return true;
        }
        i += 1;
    }
    false
}

/// Whether some keyword occurs in `bio`, whatever the case of the letters.
fn bio_mentions(bio: &str, keywords: &Vec<String>) -> (r: bool)
    ensures
        r == mentions_keyword(bio@, keywords.deep_view()),
{
    let bio_lower = to_lowercase(bio);
    let mut k: usize = 0;
    while k < keywords.len()
        invariant
            k <= keywords.len(),
            bio_lower@ == lowercase(bio@),
            forall|j: int|
                0 <= j < k ==> !is_subtext(
                    lowercase(bio@),
                    lowercase(#[trigger] keywords.deep_view()[j]),
                ),
        decreases keywords.len() - k,
    {
        let keyword_lower = to_lowercase(keywords[k].as_str());
        if str_contains(bio_lower.as_str(), keyword_lower.as_str()) {
            assert(is_subtext(lowercase(bio@), lowercase(keywords.deep_view()[k as int])));
            return true;
        }
        k += 1;
    }
    false
}

impl ProfileFilter {
    /// A filter with the given conditions.
    pub fn new(
        location: Option<String>,
        min_age: Option<u32>,
        max_age: Option<u32>,
        interests: Option<Vec<String>>,
        bio_keywords: Option<Vec<String>>,
        min_score: Option<u32>,
        recent_matches: Option<bool>,
    ) -> (r: Self)
        ensures
            r@ == (FilterView {
                location: location.deep_view(),
                min_age,
                max_age,
                interests: interests.deep_view(),
                bio_keywords: bio_keywords.deep_view(),
                min_score,
                recent_matches,
            }),
    {
        ProfileFilter {
            location,
            min_age,
            max_age,
            interests,
            bio_keywords,
            min_score,
            recent_matches,
        }
    }

    /// Whether only profiles that matched with the fetcher are asked for.
    pub fn wants_matches_only(&self) -> (r: bool)
        ensures
            r == (self@.recent_matches == Some(true)),
    {
        match self.recent_matches {
            Some(b) => b,
            None => false,
        }
    }

    /// Whether a profile with record `raw` and interaction score `score`
    /// meets every condition of this filter.
    pub fn accepts(&self, raw: &RawProfileData, score: u128, is_match: bool) -> (r: bool)
        ensures
            r == matches_filter(self@, raw@, score as nat, is_match),
    {
        if let Some(location) = &self.location {
            if !same_text(raw.location.as_str(), location.as_str()) {
                return false;
            }
        }
        if let Some(min_age) = self.min_age {
            if raw.age < min_age {
                return false;
            }
        }
        if let Some(max_age) = self.max_age {
            if raw.age > max_age {
                return false;
            }
        }
        if let Some(asked) = &self.interests {
            if !lists_share(&raw.interests, asked) {
                return false;
            }
        }
        if let Some(keywords) = &self.bio_keywords {
            if !bio_mentions(raw.bio.as_str(), keywords) {
                return false;
            }
        }
        if let Some(min_score) = self.min_score {
            if score < min_score as u128 {
                return false;
            }
        }
        if self.wants_matches_only() && !is_match {
            return false;
        }
        true
    }
}

/// A profile with its interaction score.
pub type Scored = (ProfileView, nat);

/// Where a profile with score `score` goes into a list that is ordered by
/// falling score: behind every profile whose score is at least as high.
pub open spec fn insert_pos(ranked: Seq<Scored>, score: nat) -> int
    decreases ranked.len(),
{
    if ranked.len() == 0 {
        0
    } else if ranked[0].1 >= score {
        1 + insert_pos(ranked.drop_first(), score)
    } else {
        0
    }
}

/// `items` ordered by falling score. Profiles with the same score keep the
/// order in which they stand in `items`.
pub open spec fn ranked(items: Seq<Scored>) -> Seq<Scored>
    decreases items.len(),
{
    if items.len() == 0 {
        Seq::empty()
    } else {
        let before = ranked(items.drop_last());
        before.insert(insert_pos(before, items.last().1), items.last())
    }
}

/// Whether the scores of `s` never rise.
pub open spec fn is_falling(s: Seq<Scored>) -> bool {
    forall|i: int, j: int| 0 <= i <= j < s.len() ==> s[i].1 >= s[j].1
}

/// The insert position lies within the list, everything before it scores at
/// least `score`, and in a falling list everything from it on scores less.
pub proof fn lemma_insert_pos(s: Seq<Scored>, score: nat)
    ensures
        0 <= insert_pos(s, score) <= s.len(),
        forall|i: int| 0 <= i < insert_pos(s, score) ==> s[i].1 >= score,
        is_falling(s) ==> forall|i: int| insert_pos(s, score) <= i < s.len() ==> s[i].1 < score,
    decreases s.len(),
{
    if s.len() > 0 && s[0].1 >= score {
        let tail = s.drop_first();
        lemma_insert_pos(tail, score);
        assert forall|i: int| 0 <= i < insert_pos(s, score) implies s[i].1 >= score by {
            if i > 0 {
                assert(s[i] == tail[i - 1]);
            }
        }
        if is_falling(s) {
            assert forall|i: int, j: int| 0 <= i <= j < tail.len() implies tail[i].1
                >= tail[j].1 by {
                assert(tail[i] == s[i + 1] && tail[j] == s[j + 1]);
            }
            assert forall|i: int| insert_pos(s, score) <= i < s.len() implies s[i].1 < score by {
                assert(s[i] == tail[i - 1]);
            }
        }
    } else if s.len() > 0 {
        if is_falling(s) {
            assert forall|i: int| 0 <= i < s.len() implies s[i].1 < score by {
                assert(s[0].1 >= s[i].1);
            }
        }
    }
}

/// A ranked list is ordered by falling score, and it holds the same
/// profiles as the list it was made from, each as often.
pub proof fn lemma_ranked(items: Seq<Scored>)
    ensures
        is_falling(ranked(items)),
        ranked(items).len() == items.len(),
        ranked(items).to_multiset() == items.to_multiset(),
    decreases items.len(),
{
    if items.len() == 0 {
        assert(ranked(items) =~= items);
    } else {
        let before = ranked(items.drop_last());
        let x = items.last();
        let pos = insert_pos(before, x.1);
        lemma_ranked(items.drop_last());
        lemma_insert_pos(before, x.1);
        let after = before.insert(pos, x);
        assert forall|i: int, j: int| 0 <= i <= j < after.len() implies after[i].1
            >= after[j].1 by {
            if i < pos && j == pos {
            } else if i < pos && j > pos {
                assert(after[j] == before[j - 1]);
            } else if i == pos && j > pos {
                assert(after[j] == before[j - 1]);
            } else if i > pos {
                assert(after[i] == before[i - 1]);
                assert(after[j] == before[j - 1]);
            }
        }
        vstd::seq_lib::to_multiset_insert(before, pos, x);
        assert(items =~= items.drop_last().push(x));
        vstd::seq_lib::to_multiset_insert(items.drop_last(), items.len() - 1, x);
        assert(items.drop_last().insert(items.len() - 1, x) =~= items);
    }
}

/// The entries of `s` that score exactly `score`, in order.
pub open spec fn with_score(s: Seq<Scored>, score: nat) -> Seq<Scored>
    decreases s.len(),
{
    if s.len() == 0 {
        Seq::empty()
    } else if s.last().1 == score {
        with_score(s.drop_last(), score).push(s.last())
    } else {
        with_score(s.drop_last(), score)
    }
}

/// The entries with a given score of two lists in a row are those of the
/// first followed by those of the second.
proof fn lemma_with_score_concat(a: Seq<Scored>, b: Seq<Scored>, score: nat)
    ensures
        with_score(a + b, score) == with_score(a, score) + with_score(b, score),
    decreases b.len(),
{
    if b.len() == 0 {
        assert(a + b =~= a);
        assert(with_score(a, score) + with_score(b, score) =~= with_score(a, score));
    } else {
        lemma_with_score_concat(a, b.drop_last(), score);
        assert((a + b).drop_last() =~= a + b.drop_last());
        assert((a + b).last() == b.last());
        if b.last().1 == score {
            assert(with_score(a, score) + with_score(b.drop_last(), score).push(b.last())
                =~= (with_score(a, score) + with_score(b.drop_last(), score)).push(b.last()));
        }
    }
}

/// A list in which nothing scores `score` has no entries with that score.
proof fn lemma_with_score_none(s: Seq<Scored>, score: nat)
    requires
        forall|i: int| 0 <= i < s.len() ==> s[i].1 != score,
    ensures
        with_score(s, score) == Seq::<Scored>::empty(),
    decreases s.len(),
{
    if s.len() > 0 {
        assert forall|i: int| 0 <= i < s.drop_last().len() implies s.drop_last()[i].1 != score by {
            assert(s.drop_last()[i] == s[i]);
        }
        lemma_with_score_none(s.drop_last(), score);
    }
}

/// A list of one entry has that entry with its score, and none with any
/// other.
proof fn lemma_with_score_single(x: Scored, score: nat)
    ensures
        with_score(seq![x], score) == if x.1 == score {
            seq![x]
        } else {
            Seq::<Scored>::empty()
        },
{
    let one = seq![x];
    assert(one.len() == 1);
    assert(one.last() == x);
    assert(one.drop_last() =~= Seq::<Scored>::empty());
    assert(with_score(one.drop_last(), score) =~= Seq::<Scored>::empty());
    if x.1 == score {
        assert(with_score(one, score) =~= Seq::<Scored>::empty().push(x));
        assert(Seq::<Scored>::empty().push(x) =~= one);
    }
}

/// Ranking keeps profiles with the same score in the order in which they
/// stood: for every score, the ranked list holds the entries with that
/// score in the order of the list it was made from.
pub proof fn lemma_ranked_is_stable(items: Seq<Scored>, score: nat)
    ensures
        with_score(ranked(items), score) == with_score(items, score),
    decreases items.len(),
{
    if items.len() > 0 {
        let before = ranked(items.drop_last());
        let x = items.last();
        let pos = insert_pos(before, x.1);
        lemma_ranked_is_stable(items.drop_last(), score);
        lemma_ranked(items.drop_last());
        lemma_insert_pos(before, x.1);
        let head = before.subrange(0, pos);
        let tail = before.subrange(pos, before.len() as int);
        assert(before =~= head + tail);
        assert(before.insert(pos, x) =~= head + seq![x] + tail);
        lemma_with_score_concat(head, tail, score);
        lemma_with_score_concat(head + seq![x], tail, score);
        lemma_with_score_concat(head, seq![x], score);
        lemma_with_score_single(x, score);
        if x.1 == score {
            assert forall|i: int| 0 <= i < tail.len() implies tail[i].1 != score by {
                assert(tail[i] == before[pos + i]);
            }
            lemma_with_score_none(tail, score);
            assert(with_score(head, score) + seq![x] + Seq::<Scored>::empty() =~= (with_score(
                head,
                score,
            ) + Seq::<Scored>::empty()).push(x));
        } else {
            assert(with_score(head, score) + Seq::<Scored>::empty() + with_score(tail, score)
                =~= with_score(head, score) + with_score(tail, score));
        }
    } else {
        assert(ranked(items) =~= items);
    }
}

} // verus!
