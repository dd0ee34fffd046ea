//! Which profiles a fetcher sees, which it cannot read, and in what order.

use crate::block::{BlockView, GlobalBlock};
use crate::chainscan::{count_hits, hits_in_chain, lemma_chain_hit_is_counted, Probe, ProbeView};
use crate::codec::same_text;
use crate::filter::{
    interaction_score, is_falling, lemma_ranked, lemma_ranked_is_stable, matches_filter, ranked,
    score_of, with_score, FilterView, Interaction, InteractionView, ProfileFilter, Scored,
};
use crate::keystore::{Grant, KeyStore};
use crate::profile::{plaintext_of, Profile, ProfileView};
use vstd::prelude::*;

verus! {

/// A candidate with this many reports against it is not shown.
pub const REPORT_THRESHOLD: usize = 2;

/// Everything that decides what a fetcher sees.
pub struct FetchContext {
    pub fetcher: Seq<char>,
    pub chain: Seq<BlockView>,
    pub keys: Map<Grant, Seq<u8>>,
    pub filter: FilterView,
    pub interactions: Seq<InteractionView>,
}

/// What becomes of one candidate.
#[derive(Clone, Copy, Debug, PartialEq, Eq, Structural)]
pub enum Verdict {
    /// Not considered: the fetcher's own profile, a deleted one, one
    /// blocked in either direction, or one reported too often.
    Excluded,
    /// Considered, but the fetcher holds no key for it, or the owner
    /// revoked the grant.
    Inaccessible,
    /// Readable in principle, but the key does not open it or the filter
    /// turns it down.
    Rejected,
    /// Shown, with this interaction score.
    Visible { score: u128 },
}

/// Whether one of `a` and `b` blocked the other anywhere in the chain.
pub open spec fn is_blocked(chain: Seq<BlockView>, a: Seq<char>, b: Seq<char>) -> bool {
    hits_in_chain(chain, ProbeView::BlockBetween { a, b }) >= 1
}

/// How many reports the chain holds against `user`.
pub open spec fn report_count(chain: Seq<BlockView>, user: Seq<char>) -> nat {
    hits_in_chain(chain, ProbeView::ReportOf { user })
}

/// Whether the chain holds a revocation of `target`'s access by `revoker`.
pub open spec fn is_revoked(chain: Seq<BlockView>, revoker: Seq<char>, target: Seq<char>) -> bool {
    hits_in_chain(chain, ProbeView::RevocationOf { revoker, target }) >= 1
}

/// Whether `a` and `b` matched anywhere in the chain.
pub open spec fn is_matched(chain: Seq<BlockView>, a: Seq<char>, b: Seq<char>) -> bool {
    hits_in_chain(chain, ProbeView::MatchBetween { a, b }) >= 1
}

/// Whether a candidate is not considered at all.
pub open spec fn is_excluded(ctx: FetchContext, p: ProfileView) -> bool {
    ||| p.is_deleted
    ||| p.user_id == ctx.fetcher
    ||| is_blocked(ctx.chain, ctx.fetcher, p.user_id)
    ||| report_count(ctx.chain, p.user_id) >= REPORT_THRESHOLD
}

/// Whether a candidate is considered but cannot be read: the fetcher holds
/// no key for it, or holds one and the owner revoked the grant.
pub open spec fn is_inaccessible(ctx: FetchContext, p: ProfileView) -> bool {
    !is_excluded(ctx, p) && (!ctx.keys.contains_key((ctx.fetcher, p.user_id)) || is_revoked(
        ctx.chain,
        p.user_id,
        ctx.fetcher,
    ))
}

/// The interaction score of a candidate.
pub open spec fn score_in(ctx: FetchContext, p: ProfileView) -> nat {
    interaction_score(ctx.interactions, p.user_id)
}

/// Whether a candidate is shown: it is considered, the fetcher's key opens
/// it, and its record meets the filter.
pub open spec fn is_visible(ctx: FetchContext, p: ProfileView) -> bool {
    &&& !is_excluded(ctx, p)
    &&& !is_inaccessible(ctx, p)
    &&& match plaintext_of(p, ctx.keys[(ctx.fetcher, p.user_id)]) {
        Some(raw) => matches_filter(
            ctx.filter,
            raw,
            score_in(ctx, p),
            is_matched(ctx.chain, ctx.fetcher, p.user_id),
        ),
        None => false,
    }
}

/// The identities of the candidates that cannot be read, in the order of
/// `db`.
pub open spec fn inaccessible_ids(ctx: FetchContext, db: Seq<ProfileView>) -> Seq<Seq<char>>
    decreases db.len(),
{
    if db.len() == 0 {
        Seq::empty()
    } else if is_inaccessible(ctx, db.last()) {
        inaccessible_ids(ctx, db.drop_last()).push(db.last().user_id)
    } else {
        inaccessible_ids(ctx, db.drop_last())
    }
}

/// The candidates that are shown, each with its score, in the order of
/// `db`.
pub open spec fn visible_profiles(ctx: FetchContext, db: Seq<ProfileView>) -> Seq<Scored>
    decreases db.len(),
{
    if db.len() == 0 {
        Seq::empty()
    } else if is_visible(ctx, db.last()) {
        visible_profiles(ctx, db.drop_last()).push((db.last(), score_in(ctx, db.last())))
    } else {
        visible_profiles(ctx, db.drop_last())
    }
}

/// The shown candidates in the order in which the fetcher gets them: by
/// falling score where the filter sets a least score, else as in `db`.
pub open spec fn shown(ctx: FetchContext, db: Seq<ProfileView>) -> Seq<Scored> {
    if ctx.filter.min_score is Some {
        ranked(visible_profiles(ctx, db))
    } else {
        visible_profiles(ctx, db)
    }
}

/// The profiles of a scored list.
pub open spec fn profiles_of(s: Seq<Scored>) -> Seq<ProfileView> {
    Seq::new(s.len(), |i: int| s[i].0)
}

/// The profiles that the fetcher gets, in order.
pub open spec fn relevant_profiles(ctx: FetchContext, db: Seq<ProfileView>) -> Seq<ProfileView> {
    profiles_of(shown(ctx, db))
}

/// What becomes of candidate `p`.
pub open spec fn verdict_of(ctx: FetchContext, p: ProfileView) -> Verdict {
    if is_excluded(ctx, p) {
        Verdict::Excluded
    } else if is_inaccessible(ctx, p) {
        Verdict::Inaccessible
    } else if is_visible(ctx, p) {
        Verdict::Visible { score: score_in(ctx, p) as u128 }
    } else {
        Verdict::Rejected
    }
}

/// Where the filter sets a least score, the fetcher gets the visible
/// candidates by falling score: each of them as often as it is visible,
/// none with a lower score before one with a higher, and those with the
/// same score in the order of `db`.
pub proof fn lemma_shown_is_ranked(ctx: FetchContext, db: Seq<ProfileView>, score: nat)
    requires
        ctx.filter.min_score is Some,
    ensures
        is_falling(shown(ctx, db)),
        shown(ctx, db).to_multiset() == visible_profiles(ctx, db).to_multiset(),
        with_score(shown(ctx, db), score) == with_score(visible_profiles(ctx, db), score),
{
    lemma_ranked(visible_profiles(ctx, db));
    lemma_ranked_is_stable(visible_profiles(ctx, db), score);
}

/// Every shown candidate stands in `db` and is visible.
pub proof fn lemma_visible_members(ctx: FetchContext, db: Seq<ProfileView>, k: int)
    requires
        0 <= k < visible_profiles(ctx, db).len(),
    ensures
        db.contains(visible_profiles(ctx, db)[k].0),
        is_visible(ctx, visible_profiles(ctx, db)[k].0),
        visible_profiles(ctx, db)[k].1 == score_in(ctx, visible_profiles(ctx, db)[k].0),
    decreases db.len(),
{
    let before = visible_profiles(ctx, db.drop_last());
    if is_visible(ctx, db.last()) && k == before.len() {
        assert(db[db.len() - 1] == db.last());
    } else {
        lemma_visible_members(ctx, db.drop_last(), k);
        let p = before[k].0;
        let j = choose|j: int| 0 <= j < db.drop_last().len() && db.drop_last()[j] == p;
        assert(db[j] == p);
    }
}

/// Every profile that the fetcher gets stands in `db` and is visible.
pub proof fn lemma_relevant_are_visible(ctx: FetchContext, db: Seq<ProfileView>, p: ProfileView)
    requires
        relevant_profiles(ctx, db).contains(p),
    ensures
        db.contains(p),
        is_visible(ctx, p),
{
    let out = relevant_profiles(ctx, db);
    let i = choose|i: int| 0 <= i < out.len() && out[i] == p;
    let v = visible_profiles(ctx, db);
    let s = shown(ctx, db);
    assert(s[i].0 == p);
    if ctx.filter.min_score is Some {
        lemma_ranked(v);
        assert(s.to_multiset().count(s[i]) > 0) by {
            broadcast use vstd::seq_lib::to_multiset_contains;

            assert(s.contains(s[i]));
        }
        assert(v.contains(s[i])) by {
            broadcast use vstd::seq_lib::to_multiset_contains;

        }
        let k = choose|k: int| 0 <= k < v.len() && v[k] == s[i];
        lemma_visible_members(ctx, db, k);
    } else {
        lemma_visible_members(ctx, db, i);
    }
}

/// Every identity that is reported as inaccessible belongs to a candidate
/// that is inaccessible.
pub proof fn lemma_inaccessible_members(ctx: FetchContext, db: Seq<ProfileView>, id: Seq<char>)
    requires
        inaccessible_ids(ctx, db).contains(id),
    ensures
        exists|k: int| 0 <= k < db.len() && (#[trigger] db[k]).user_id == id && is_inaccessible(ctx, db[k]),
    decreases db.len(),
{
    let out = inaccessible_ids(ctx, db);
    let i = choose|i: int| 0 <= i < out.len() && out[i] == id;
    let before = inaccessible_ids(ctx, db.drop_last());
    if is_inaccessible(ctx, db.last()) && i == before.len() {
        assert(db[db.len() - 1].user_id == id);
    } else {
        assert(before[i] == id);
        lemma_inaccessible_members(ctx, db.drop_last(), id);
        let k = choose|k: int|
            0 <= k < db.drop_last().len() && (#[trigger] db.drop_last()[k]).user_id == id
                && is_inaccessible(ctx, db.drop_last()[k]);
        assert(db[k] == db.drop_last()[k]);
    }
}

/// A candidate that blocked the fetcher, or that the fetcher blocked, is
/// neither shown nor reported as inaccessible; nor is a candidate with two
/// or more reports against it.
pub proof fn lemma_blocked_and_reported_are_excluded(ctx: FetchContext, p: ProfileView)
    requires
        is_blocked(ctx.chain, ctx.fetcher, p.user_id) || report_count(ctx.chain, p.user_id)
            >= REPORT_THRESHOLD,
    ensures
        verdict_of(ctx, p) == Verdict::Excluded,
        !is_visible(ctx, p),
        !is_inaccessible(ctx, p),
        forall|db: Seq<ProfileView>| !relevant_profiles(ctx, db).contains(p),
        forall|db: Seq<ProfileView>| !inaccessible_ids(ctx, db).contains(p.user_id),
{
    assert forall|db: Seq<ProfileView>| !relevant_profiles(ctx, db).contains(p) by {
        if relevant_profiles(ctx, db).contains(p) {
            lemma_relevant_are_visible(ctx, db, p);
        }
    }
    assert forall|db: Seq<ProfileView>| !inaccessible_ids(ctx, db).contains(p.user_id) by {
        if inaccessible_ids(ctx, db).contains(p.user_id) {
            lemma_inaccessible_members(ctx, db, p.user_id);
        }
    }
}

/// A block transaction between fetcher and candidate, whoever sent it,
/// makes the candidate blocked.
pub proof fn lemma_block_transaction_blocks(
    chain: Seq<BlockView>,
    fetcher: Seq<char>,
    candidate: Seq<char>,
    i: int,
    j: int,
)
    requires
        0 <= i < chain.len(),
        0 <= j < chain[i].transactions.len(),
        chain[i].transactions[j].payload is BlockUser,
        ({
            let tx = chain[i].transactions[j];
            (tx.sender_id == fetcher && tx.receiver_id == candidate) || (tx.sender_id == candidate
                && tx.receiver_id == fetcher)
        }),
    ensures
        is_blocked(chain, fetcher, candidate),
{
    lemma_chain_hit_is_counted(chain, ProbeView::BlockBetween { a: fetcher, b: candidate }, i, j);
}

/// Without a key for a candidate the fetcher does not see it; where the
/// candidate is considered at all, it is reported as inaccessible.
pub proof fn lemma_missing_key_hides(ctx: FetchContext, p: ProfileView)
    requires
        !ctx.keys.contains_key((ctx.fetcher, p.user_id)),
    ensures
        !is_visible(ctx, p),
        !is_excluded(ctx, p) ==> is_inaccessible(ctx, p),
{
}

/// With a key that opens the candidate's profile the fetcher sees the
/// candidate, where it is considered, no revocation stands against the
/// grant, and the record meets the filter.
pub proof fn lemma_held_key_shows(ctx: FetchContext, p: ProfileView)
    requires
        !is_excluded(ctx, p),
        !is_revoked(ctx.chain, p.user_id, ctx.fetcher),
        ctx.keys.contains_key((ctx.fetcher, p.user_id)),
        plaintext_of(p, ctx.keys[(ctx.fetcher, p.user_id)]) matches Some(raw) && matches_filter(
            ctx.filter,
            raw,
            score_in(ctx, p),
            is_matched(ctx.chain, ctx.fetcher, p.user_id),
        ),
    ensures
        is_visible(ctx, p),
        verdict_of(ctx, p) == (Verdict::Visible { score: score_in(ctx, p) as u128 }),
{
}

/// Revoking the fetcher's grant hides the owner's profile from the fetcher,
/// and sharing the key again shows it again: with the grant removed from
/// the key store the candidate is not visible, and with the same key put
/// back it is exactly as visible as it was before.
pub proof fn lemma_revoke_hides_and_share_restores(
    ctx: FetchContext,
    p: ProfileView,
    key: Seq<u8>,
)
    requires
        ctx.keys.contains_key((ctx.fetcher, p.user_id)),
        ctx.keys[(ctx.fetcher, p.user_id)] == key,
    ensures
        ({
            let grant = (ctx.fetcher, p.user_id);
            let revoked = FetchContext { keys: ctx.keys.remove(grant), ..ctx };
            let shared = FetchContext { keys: revoked.keys.insert(grant, key), ..ctx };
            &&& !is_visible(revoked, p)
            &&& (!is_excluded(ctx, p) ==> is_inaccessible(revoked, p))
            &&& is_visible(shared, p) == is_visible(ctx, p)
            &&& verdict_of(shared, p) == verdict_of(ctx, p)
        }),
{
    let grant = (ctx.fetcher, p.user_id);
    assert(ctx.keys.remove(grant).insert(grant, key) =~= ctx.keys);
}

/// Decides what becomes of candidate `p` for the fetcher.
pub fn classify(
    p: &Profile,
    filter: &ProfileFilter,
    shared_keys: &KeyStore,
    fetcher_id: &str,
    chain: &Vec<GlobalBlock>,
    interactions: &Vec<Interaction>,
) -> (r: Verdict)
    ensures
        r == verdict_of(
            FetchContext {
                fetcher: fetcher_id@,
                chain: chain.deep_view(),
                keys: shared_keys@,
                filter: filter@,
                interactions: interactions.deep_view(),
            },
            p@,
        ),
        r matches Verdict::Visible { score } ==> score == interaction_score(
            interactions.deep_view(),
            p@.user_id,
        ),
{
    let id = p.user_id.as_str();
    if p.is_deleted || same_text(id, fetcher_id) {
        return Verdict::Excluded;
    }
    if count_hits(chain, &Probe::BlockBetween { a: fetcher_id, b: id }, 1) >= 1 {
        return Verdict::Excluded;
    }
    if count_hits(chain, &Probe::ReportOf { user: id }, REPORT_THRESHOLD) >= REPORT_THRESHOLD {
        return Verdict::Excluded;
    }
    let key = match shared_keys.get(fetcher_id, id) {
        Some(key) => key,
        None => { return Verdict::Inaccessible; },
    };
    if count_hits(chain, &Probe::RevocationOf { revoker: id, target: fetcher_id }, 1) >= 1 {
        return Verdict::Inaccessible;
    }
    let raw = match p.decrypt(&key) {
        Some(raw) => raw,
        None => { return Verdict::Rejected; },
    };
    let score = score_of(interactions, id);
    let is_match = filter.wants_matches_only() && count_hits(
        chain,
        &Probe::MatchBetween { a: fetcher_id, b: id },
        1,
    ) >= 1;
    if filter.accepts(&raw, score, is_match) {
        Verdict::Visible { score }
    } else {
        Verdict::Rejected
    }
}

} // verus!
