//! The merge: which of the videos that were fetched are new to the feed,
//! and under which numbers they join it.

use crate::episode::{Episode, EpisodeView};
use crate::error::{FeedError, FeedErrorView};
use vstd::hash_set::StringHashSet;
use vstd::prelude::*;

verus! {

/// The episodes of a list, each by its view.
pub open spec fn episode_views(episodes: Seq<Episode>) -> Seq<EpisodeView> {
    episodes.map_values(|e: Episode| e@)
}

/// Whether some episode of `feed` has the identifier `id`.
pub open spec fn holds_id(feed: Seq<EpisodeView>, id: Seq<char>) -> bool {
    exists|i: int| 0 <= i < feed.len() && (#[trigger] feed[i]).id.value == id
}

/// The test that an episode passes when `existing` does not hold its identifier.
pub open spec fn is_novel(existing: Seq<EpisodeView>) -> spec_fn(EpisodeView) -> bool {
    |c: EpisodeView| !holds_id(existing, c.id.value)
}

/// The candidates that `existing` does not hold yet, in the order in
/// which they were given.
pub open spec fn novel(existing: Seq<EpisodeView>, candidates: Seq<EpisodeView>) -> Seq<
    EpisodeView,
> {
    candidates.filter(is_novel(existing))
}

/// The number of the newest episode of a feed that lists the newest
/// first: 0 for an empty feed, `None` where the newest has no number.
pub open spec fn last_number(existing: Seq<EpisodeView>) -> Option<int> {
    if existing.len() == 0 {
        Some(0)
    } else {
        match existing[0].episode {
            Some(n) => Some(n as int),
            None => None,
        }
    }
}

/// The same episodes, numbered one by one from `last + 1` on.
pub open spec fn number_from(episodes: Seq<EpisodeView>, last: int) -> Seq<EpisodeView> {
    Seq::new(episodes.len(), |i: int| episodes[i].numbered((last + 1 + i) as i32))
}

/// What the merge gives: the candidates that are new to `existing`, the
/// oldest first, numbered onwards from the newest episode of `existing`.
/// Both lists have their newest episode first.
pub open spec fn merge(existing: Seq<EpisodeView>, candidates: Seq<EpisodeView>) -> Result<
    Seq<EpisodeView>,
    FeedErrorView,
> {
    match last_number(existing) {
        Some(last) => Ok(number_from(novel(existing, candidates).reverse(), last)),
        None => Err(FeedErrorView::InconsistentFeed),
    }
}

/// Whether numbering `count` more episodes after the newest of `existing`
/// stays within the numbers that an episode can have.
pub open spec fn numbering_fits(existing: Seq<EpisodeView>, count: nat) -> bool {
    last_number(existing) matches Some(last) ==> last + count <= i32::MAX
}

/// Whether the candidates that are new to `existing` can all be numbered.
pub open spec fn merge_fits(existing: Seq<EpisodeView>, candidates: Seq<EpisodeView>) -> bool {
    numbering_fits(existing, novel(existing, candidates).len())
}

/// An outcome that holds episodes, with the episodes by their views.
pub open spec fn episodes_result(r: Result<Vec<Episode>, FeedError>) -> Result<
    Seq<EpisodeView>,
    FeedErrorView,
> {
    match r {
        Ok(episodes) => Ok(episode_views(episodes@)),
        Err(error) => Err(error@),
    }
}

/// Whether `count` more episodes can be numbered after the newest of
/// `existing`. Where that holds for as many episodes as there are
/// candidates, [`gen_new_feed`] can number those that are new.
pub fn can_number(existing: &Vec<Episode>, count: usize) -> (r: bool)
    ensures
        r == numbering_fits(episode_views(existing@), count as nat),
        forall|candidates: Seq<EpisodeView>|
            r && candidates.len() <= count ==> #[trigger] merge_fits(
                episode_views(existing@),
                candidates,
            ),
{
    proof {
        assert forall|candidates: Seq<EpisodeView>|
            numbering_fits(episode_views(existing@), count as nat) && candidates.len()
                <= count implies #[trigger] merge_fits(episode_views(existing@), candidates) by {
            candidates.lemma_filter_len(is_novel(episode_views(existing@)));
        }
    }
    if existing.len() == 0 {
        count <= 0x7fff_ffff
    } else {
        match existing[0].episode {
            Some(last) => count <= 0xffff_ffff && last as i64 + count as i64 <= 0x7fff_ffff,
            None => true,
        }
    }
}

/// The identifiers of the episodes of `feed`.
pub open spec fn feed_ids(feed: Seq<EpisodeView>) -> Set<Seq<char>> {
    Set::new(|id: Seq<char>| holds_id(feed, id))
}

/// Collects the identifiers of a feed in a set.
fn collect_ids(existing: &Vec<Episode>) -> (ids: StringHashSet)
    ensures
        ids@ == feed_ids(episode_views(existing@)),
{
    let ghost feed = episode_views(existing@);
    let mut ids = StringHashSet::new();
    let mut i: usize = 0;
    while i < existing.len()
        invariant
            0 <= i <= existing.len(),
            feed == episode_views(existing@),
            ids@ == feed_ids(feed.take(i as int)),
        decreases existing.len() - i,
    {
        ids.insert(existing[i].id.value.clone());
        proof {
            let before = feed.take(i as int);
            let after = feed.take(i + 1);
            assert(after[i as int] == feed[i as int]);
            assert forall|id: Seq<char>| feed_ids(after).contains(id) <==> feed_ids(before).insert(
                feed[i as int].id.value,
            ).contains(id) by {
                if holds_id(after, id) {
                    let j = choose|j: int| 0 <= j < after.len() && (#[trigger] after[j]).id.value == id;
                    if j < i {
                        assert(before[j].id.value == id);
                    }
                }
                if holds_id(before, id) {
                    let j = choose|j: int|
                        0 <= j < before.len() && (#[trigger] before[j]).id.value == id;
                    assert(after[j].id.value == id);
                }
            }
            assert(ids@ =~= feed_ids(after));
        }
        i += 1;
    }
    proof {
        assert(feed.take(existing.len() as int) =~= feed);
    }
    ids
}

/// What the merge has found after looking at the candidates from place
/// `k` on.
proof fn lemma_merge_step(existing: Seq<EpisodeView>, candidates: Seq<EpisodeView>, k: int)
    requires
        0 < k <= candidates.len(),
    ensures
        novel(existing, candidates.skip(k - 1)).reverse() == if holds_id(
            existing,
            candidates[k - 1].id.value,
        ) {
            novel(existing, candidates.skip(k)).reverse()
        } else {
            novel(existing, candidates.skip(k)).reverse().push(candidates[k - 1])
        },
{
    let pred = is_novel(existing);
    let head = seq![candidates[k - 1]];
    let rest = candidates.skip(k);
    assert(candidates.skip(k - 1) =~= head + rest);
    Seq::filter_distributes_over_add(head, rest, pred);
    assert(head.filter(pred) =~= if pred(candidates[k - 1]) {
        head
    } else {
        Seq::<EpisodeView>::empty()
    }) by {
        reveal_with_fuel(Seq::filter, 2);
        assert(head.drop_last() =~= Seq::<EpisodeView>::empty());
    }
    if pred(candidates[k - 1]) {
        assert((head + rest.filter(pred)).reverse() =~= rest.filter(pred).reverse().push(
            candidates[k - 1],
        ));
    } else {
        assert(Seq::<EpisodeView>::empty() + rest.filter(pred) =~= rest.filter(pred));
    }
}

/// The candidates from place `k` on hold no more new ones than all do.
proof fn lemma_novel_of_rest(existing: Seq<EpisodeView>, candidates: Seq<EpisodeView>, k: int)
    requires
        0 <= k <= candidates.len(),
    ensures
        novel(existing, candidates.skip(k)).len() <= novel(existing, candidates).len(),
{
    assert(candidates =~= candidates.take(k) + candidates.skip(k));
    Seq::filter_distributes_over_add(candidates.take(k), candidates.skip(k), is_novel(existing));
}

/// Merges freshly fetched episodes into a feed: returns those whose
/// identifier the feed does not hold yet, the oldest first, numbered
/// onwards from the feed's newest episode. Both `existing` and
/// `candidates` list their newest episode first. Fails where the feed's
/// newest episode has no number: no number can then be given.
pub fn gen_new_feed(existing: &Vec<Episode>, candidates: Vec<Episode>) -> (r: Result<
    Vec<Episode>,
    FeedError,
>)
    requires
        merge_fits(episode_views(existing@), episode_views(candidates@)),
    ensures
        episodes_result(r) == merge(episode_views(existing@), episode_views(candidates@)),
{
    let ghost feed = episode_views(existing@);
    let ghost all = episode_views(candidates@);
    let last: i32 = if existing.len() == 0 {
        0
    } else {
        match existing[0].episode {
            Some(n) => n,
            None => {
                return Err(FeedError::InconsistentFeed);
            },
        }
    };
    let ids = collect_ids(existing);
    let total = candidates.len();
    let mut rest = candidates;
    let mut out: Vec<Episode> = Vec::new();
    proof {
        assert(all.skip(total as int) =~= Seq::<EpisodeView>::empty());
        assert(novel(feed, all.skip(total as int)) =~= Seq::<EpisodeView>::empty()) by {
            reveal_with_fuel(Seq::filter, 1);
        }
        assert(episode_views(out@) =~= number_from(
            novel(feed, all.skip(total as int)).reverse(),
            last as int,
        ));
    }
    while rest.len() > 0
        invariant
            rest.len() <= total,
            total == all.len(),
            episode_views(rest@) == all.take(rest.len() as int),
            ids@ == feed_ids(feed),
            last + novel(feed, all).len() <= i32::MAX,
            out.len() <= total - rest.len(),
            episode_views(out@) == number_from(
                novel(feed, all.skip(rest.len() as int)).reverse(),
                last as int,
            ),
        decreases rest.len(),
    {
        let ghost k = rest.len() as int;
        let ghost found = novel(feed, all.skip(k)).reverse();
        let ghost before = out@;
        let candidate = rest.pop().unwrap();
        proof {
            lemma_merge_step(feed, all, k);
            lemma_novel_of_rest(feed, all, k - 1);
            assert(candidate@ == all[k - 1]) by {
                assert(all.take(k)[k - 1] == all[k - 1]);
            }
        }
        if !ids.contains(candidate.id.value.as_str()) {
            proof {
                assert(episode_views(before).len() == found.len());
            }
            let number: i32 = (last as i64 + 1 + out.len() as i64) as i32;
            out.push(candidate.update_ep_number(number));
            proof {
                let grown = number_from(found.push(all[k - 1]), last as int);
                assert forall|i: int| 0 <= i < out@.len() implies episode_views(out@)[i]
                    == grown[i] by {
                    if i < before.len() {
                        assert(episode_views(before)[i] == number_from(found, last as int)[i]);
                    }
                }
            }
        }
    }
    proof {
        assert(all.skip(0) =~= all);
    }
    Ok(out)
}

/// Whether no two episodes of `feed` share an identifier.
pub open spec fn unique_ids(feed: Seq<EpisodeView>) -> bool {
    forall|i: int, j: int|
        0 <= i < feed.len() && 0 <= j < feed.len() && i != j ==> (#[trigger] feed[i]).id.value != (
        #[trigger] feed[j]).id.value
}

/// Whether a feed that lists its newest episode first is numbered without
/// a gap: each episode has the number of the one after it plus one, and
/// the oldest has a positive number.
pub open spec fn well_numbered(feed: Seq<EpisodeView>) -> bool {
    feed.len() > 0 ==> {
        &&& feed[0].episode matches Some(top)
        &&& top - feed.len() + 1 >= 1
        &&& forall|i: int|
            0 <= i < feed.len() ==> (#[trigger] feed[i]).episode == Some((top - i) as i32)
    }
}

/// The feed after a merge, newest episode first: the episodes that the
/// merge added, the newest of them first, then the episodes that were there.
pub open spec fn merged_feed(existing: Seq<EpisodeView>, added: Seq<EpisodeView>) -> Seq<
    EpisodeView,
> {
    added.reverse() + existing
}

/// What the new candidates are: each is a candidate that the feed does
/// not hold, none that the feed does not hold is left out, and they are
/// no more than the candidates, with no identifier twice unless the
/// candidates have one twice.
pub proof fn lemma_novel(existing: Seq<EpisodeView>, candidates: Seq<EpisodeView>)
    ensures
        novel(existing, candidates).len() <= candidates.len(),
        forall|i: int|
            0 <= i < novel(existing, candidates).len() ==> !holds_id(
                existing,
                (#[trigger] novel(existing, candidates)[i]).id.value,
            ) && candidates.contains(novel(existing, candidates)[i]),
        forall|j: int|
            0 <= j < candidates.len() && !holds_id(existing, (#[trigger] candidates[j]).id.value)
                ==> novel(existing, candidates).contains(candidates[j]),
        unique_ids(candidates) ==> unique_ids(novel(existing, candidates)),
    decreases candidates.len(),
{
    reveal(Seq::filter);
    let found = novel(existing, candidates);
    if candidates.len() > 0 {
        let init = candidates.drop_last();
        let last = candidates.last();
        let inner = novel(existing, init);
        lemma_novel(existing, init);
        assert forall|i: int| 0 <= i < found.len() implies !holds_id(
            existing,
            (#[trigger] found[i]).id.value,
        ) && candidates.contains(found[i]) by {
            if i < inner.len() {
                let m = choose|m: int| 0 <= m < init.len() && init[m] == inner[i];
                assert(candidates[m] == found[i]);
            } else {
                assert(candidates[candidates.len() - 1] == found[i]);
            }
        }
        assert forall|j: int|
            0 <= j < candidates.len() && !holds_id(
                existing,
                (#[trigger] candidates[j]).id.value,
            ) implies found.contains(candidates[j]) by {
            if j < init.len() {
                let m = choose|m: int| 0 <= m < inner.len() && inner[m] == init[j];
                assert(found[m] == candidates[j]);
            } else {
                assert(found[found.len() - 1] == candidates[j]);
            }
        }
        if unique_ids(candidates) {
            assert(unique_ids(init));
            assert forall|i: int, j: int|
                0 <= i < found.len() && 0 <= j < found.len() && i != j implies (
            #[trigger] found[i]).id.value != (#[trigger] found[j]).id.value by {
                if i >= inner.len() || j >= inner.len() {
                    // one of the two is the last candidate, the other
                    // stands somewhere before it
                    let low = if i < j {
                        i
                    } else {
                        j
                    };
                    let m = choose|m: int| 0 <= m < init.len() && init[m] == inner[low];
                    assert(candidates[m] == inner[low]);
                }
            }
        }
    }
}

/// A merge into a feed whose newest episode has the number `last` gives
/// as many episodes as there are new candidates, the oldest first, with
/// the numbers `last + 1`, `last + 2` and so on, one each.
pub proof fn lemma_numbering_monotonic(existing: Seq<EpisodeView>, candidates: Seq<EpisodeView>)
    requires
        last_number(existing) is Some,
        merge_fits(existing, candidates),
    ensures
        merge(existing, candidates) matches Ok(added) && {
            let found = novel(existing, candidates);
            let last = last_number(existing)->0;
            &&& added.len() == found.len()
            &&& forall|i: int|
                0 <= i < added.len() ==> {
                    &&& (#[trigger] added[i]).episode == Some((last + 1 + i) as i32)
                    &&& added[i].episode->0 == last + 1 + i
                    &&& added[i] == found[found.len() - 1 - i].numbered((last + 1 + i) as i32)
                }
        },
{
    lemma_novel(existing, candidates);
}

/// Where the feed holds the identifier of every candidate, a merge adds nothing.
pub proof fn lemma_merge_of_known_is_empty(later: Seq<EpisodeView>, candidates: Seq<EpisodeView>)
    requires
        last_number(later) is Some,
        forall|j: int|
            0 <= j < candidates.len() ==> holds_id(later, (#[trigger] candidates[j]).id.value),
    ensures
        merge(later, candidates) == Ok::<Seq<EpisodeView>, FeedErrorView>(Seq::empty()),
{
    lemma_novel(later, candidates);
    let found = novel(later, candidates);
    if found.len() > 0 {
        // a new candidate would be one that `later` holds
        let m = choose|m: int| 0 <= m < candidates.len() && candidates[m] == found[0];
        assert(holds_id(later, candidates[m].id.value));
    }
    assert(number_from(found.reverse(), last_number(later)->0) =~= Seq::<EpisodeView>::empty());
}

/// Merging the same candidates a second time, into the feed that the
/// first merge left, adds nothing: no episode comes into a feed twice.
pub proof fn lemma_second_merge_is_empty(existing: Seq<EpisodeView>, candidates: Seq<EpisodeView>)
    requires
        merge(existing, candidates) is Ok,
    ensures
        merge(merged_feed(existing, merge(existing, candidates)->Ok_0), candidates) == Ok::<
            Seq<EpisodeView>,
            FeedErrorView,
        >(Seq::empty()),
{
    let added = merge(existing, candidates)->Ok_0;
    let later = merged_feed(existing, added);
    let found = novel(existing, candidates);
    lemma_novel(existing, candidates);
    assert forall|j: int| 0 <= j < candidates.len() implies holds_id(
        later,
        (#[trigger] candidates[j]).id.value,
    ) by {
        let id = candidates[j].id.value;
        if holds_id(existing, id) {
            let m = choose|m: int| 0 <= m < existing.len() && (#[trigger] existing[m]).id.value == id;
            assert(later[added.len() + m] == existing[m]);
        } else {
            // it was new, so the first merge added it
            let m = choose|m: int| 0 <= m < found.len() && found[m] == candidates[j];
            assert(later[m] == added.reverse()[m]);
        }
    }
    lemma_merge_of_known_is_empty(later, candidates);
}

/// Where neither the feed nor the candidates hold an identifier twice,
/// the feed after the merge holds none twice.
pub proof fn lemma_ids_stay_unique(existing: Seq<EpisodeView>, candidates: Seq<EpisodeView>)
    requires
        unique_ids(existing),
        unique_ids(candidates),
        merge(existing, candidates) is Ok,
    ensures
        unique_ids(merged_feed(existing, merge(existing, candidates)->Ok_0)),
{
    let added = merge(existing, candidates)->Ok_0;
    let later = merged_feed(existing, added);
    let found = novel(existing, candidates);
    let k = added.len() as int;
    lemma_novel(existing, candidates);
    assert forall|i: int| 0 <= i < later.len() implies (#[trigger] later[i]).id == (if i < k {
        found[i].id
    } else {
        existing[i - k].id
    }) by {}
}

/// Where the feed is numbered without a gap, so is the feed after the
/// merge: the added episodes carry on where the feed's numbers ended.
pub proof fn lemma_numbering_continues(existing: Seq<EpisodeView>, candidates: Seq<EpisodeView>)
    requires
        well_numbered(existing),
        merge_fits(existing, candidates),
    ensures
        merge(existing, candidates) matches Ok(added) && well_numbered(
            merged_feed(existing, added),
        ),
{
    lemma_numbering_monotonic(existing, candidates);
    let added = merge(existing, candidates)->Ok_0;
    let later = merged_feed(existing, added);
    let last = last_number(existing)->0;
    let k = added.len() as int;
    lemma_novel(existing, candidates);
    if later.len() > 0 {
        let top = last + k;
        assert forall|i: int| 0 <= i < later.len() implies (#[trigger] later[i]).episode == Some(
            (top - i) as i32,
        ) by {}
    }
}

} // verus!
