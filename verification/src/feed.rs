//! One run over a feed: the entries of the document and the videos that
//! were fetched go in, the entries of the new episodes come out, and are
//! put into the document.

use crate::date::pub_date_text;
use crate::entry::{FeedEntry, FeedEntryView};
use crate::episode::{
    build_episode, entry_episode, entry_number, episode_entry, lemma_entry_round_trip,
    video_episode, Episode, EpisodeView,
};
use crate::error::{FeedError, FeedErrorView};
use crate::merge::{
    episode_views, episodes_result, gen_new_feed, is_novel, lemma_ids_stay_unique, lemma_novel,
    lemma_numbering_continues, lemma_numbering_monotonic, lemma_second_merge_is_empty, merge,
    merged_feed, novel, numbering_fits, unique_ids, well_numbered,
};
use crate::text::{decimal_i32, parse_i32};
use crate::video::{VideoRecord, VideoRecordView};
use vstd::prelude::*;

verus! {

/// The entries of a list, each by its view.
pub open spec fn entry_views(entries: Seq<FeedEntry>) -> Seq<FeedEntryView> {
    entries.map_values(|e: FeedEntry| e@)
}

/// The video records of a list, each by its view.
pub open spec fn video_views(videos: Seq<VideoRecord>) -> Seq<VideoRecordView> {
    videos.map_values(|v: VideoRecord| v@)
}

/// The episodes of some feed entries, in their order; where an entry
/// cannot be normalised, the error of the first such entry.
pub open spec fn entries_episodes(entries: Seq<FeedEntryView>) -> Result<
    Seq<EpisodeView>,
    FeedErrorView,
>
    decreases entries.len(),
{
    if entries.len() == 0 {
        Ok(Seq::empty())
    } else {
        match entries_episodes(entries.drop_last()) {
            Ok(episodes) => match entry_episode(entries.last()) {
                Ok(episode) => Ok(episodes.push(episode)),
                Err(error) => Err(error),
            },
            Err(error) => Err(error),
        }
    }
}

/// The publication date that stands for the upload date of a video.
pub open spec fn video_pub_date(video: VideoRecordView) -> Option<Seq<char>> {
    match video.upload_date {
        Some(raw) => pub_date_text(raw),
        None => None,
    }
}

/// The episodes of some video records, in their order; where a record
/// cannot be normalised, the error of the first such record.
pub open spec fn videos_episodes(videos: Seq<VideoRecordView>, base_url: Seq<char>) -> Result<
    Seq<EpisodeView>,
    FeedErrorView,
>
    decreases videos.len(),
{
    if videos.len() == 0 {
        Ok(Seq::empty())
    } else {
        match videos_episodes(videos.drop_last(), base_url) {
            Ok(episodes) => match video_episode(
                videos.last(),
                base_url,
                video_pub_date(videos.last()),
            ) {
                Ok(episode) => Ok(episodes.push(episode)),
                Err(error) => Err(error),
            },
            Err(error) => Err(error),
        }
    }
}

/// The feed entries of some episodes, in their order.
pub open spec fn episodes_entries(episodes: Seq<EpisodeView>, block: bool) -> Seq<FeedEntryView> {
    episodes.map_values(|e: EpisodeView| episode_entry(e, block))
}

/// What one run adds to a feed. `document` holds the entries of the feed
/// and `videos` the records that were fetched, both with the newest
/// first. The result holds the entries of the new episodes, the oldest
/// first. A record or an entry that cannot be normalised ends the run
/// with its error: entries are looked at before videos, each list in its
/// order.
pub open spec fn feed_update(
    document: Seq<FeedEntryView>,
    videos: Seq<VideoRecordView>,
    base_url: Seq<char>,
    block: bool,
) -> Result<Seq<FeedEntryView>, FeedErrorView> {
    match entries_episodes(document) {
        Ok(existing) => match videos_episodes(videos, base_url) {
            Ok(candidates) => match merge(existing, candidates) {
                Ok(added) => Ok(episodes_entries(added, block)),
                Err(error) => Err(error),
            },
            Err(error) => Err(error),
        },
        Err(error) => Err(error),
    }
}

/// Whether a run that is given `count` videos can number as many new
/// episodes: what [`gen_feed`] asks of its caller. It holds of every
/// document with an entry that cannot be normalised, for the run then
/// ends before it numbers anything.
pub open spec fn run_fits(document: Seq<FeedEntryView>, count: nat) -> bool {
    entries_episodes(document) matches Ok(existing) ==> numbering_fits(existing, count)
}

/// Whether `count` more numbers are left after the one that the first
/// entry of `document` carries. It holds where that entry carries no
/// number that can be read.
pub open spec fn newest_number_fits(document: Seq<FeedEntryView>, count: nat) -> bool {
    if document.len() == 0 {
        count <= i32::MAX
    } else {
        match entry_number(document[0]) {
            Some(text) => match decimal_i32(text) {
                Some(number) => number + count <= i32::MAX,
                None => true,
            },
            None => true,
        }
    }
}

/// The outcome of a run, with its entries by their views.
pub open spec fn update_result(r: Result<Vec<FeedEntry>, FeedError>) -> Result<
    Seq<FeedEntryView>,
    FeedErrorView,
> {
    match r {
        Ok(entries) => Ok(entry_views(entries@)),
        Err(error) => Err(error@),
    }
}

/// Normalises the entries of a feed, in their order, and stops at the
/// first that cannot be normalised.
pub fn normalize_entries(document: Vec<FeedEntry>) -> (r: Result<Vec<Episode>, FeedError>)
    ensures
        episodes_result(r) == entries_episodes(entry_views(document@)),
{
    let ghost all = entry_views(document@);
    let mut out: Vec<Episode> = Vec::new();
    proof {
        assert(episode_views(out@) =~= Seq::<EpisodeView>::empty());
    }
    for entry in it: document.into_iter()
        invariant
            it.seq() == document@,
            all == entry_views(document@),
            entries_episodes(all.take(it.index())) == Ok::<Seq<EpisodeView>, FeedErrorView>(
                episode_views(out@),
            ),
    {
        let ghost i = it.index();
        let ghost before = episode_views(out@);
        proof {
            assert(all.take(i + 1).drop_last() =~= all.take(i));
        }
        match Episode::from_entry(entry) {
            Ok(episode) => {
                out.push(episode);
                assert(episode_views(out@) =~= before.push(episode@));
            },
            Err(error) => {
                proof {
                    lemma_entries_error_stays(all, i + 1);
                }
                return Err(error);
            },
        }
    }
    proof {
        assert(all.take(document@.len() as int) =~= all);
    }
    Ok(out)
}

/// An error among the first entries is the error of the whole list.
proof fn lemma_entries_error_stays(entries: Seq<FeedEntryView>, n: int)
    requires
        0 <= n <= entries.len(),
        entries_episodes(entries.take(n)) is Err,
    ensures
        entries_episodes(entries) == entries_episodes(entries.take(n)),
    decreases entries.len() - n,
{
    if n < entries.len() {
        assert(entries.take(n + 1).drop_last() =~= entries.take(n));
        lemma_entries_error_stays(entries, n + 1);
    } else {
        assert(entries.take(n) =~= entries);
    }
}

/// An error among the first records is the error of the whole list.
proof fn lemma_videos_error_stays(videos: Seq<VideoRecordView>, base_url: Seq<char>, n: int)
    requires
        0 <= n <= videos.len(),
        videos_episodes(videos.take(n), base_url) is Err,
    ensures
        videos_episodes(videos, base_url) == videos_episodes(videos.take(n), base_url),
    decreases videos.len() - n,
{
    if n < videos.len() {
        assert(videos.take(n + 1).drop_last() =~= videos.take(n));
        lemma_videos_error_stays(videos, base_url, n + 1);
    } else {
        assert(videos.take(n) =~= videos);
    }
}

/// Normalises the records of the videos that were fetched, in their
/// order, and stops at the first that cannot be normalised. The media
/// files are looked for under `base_url`.
pub fn normalize_videos(videos: Vec<VideoRecord>, base_url: &str) -> (r: Result<
    Vec<Episode>,
    FeedError,
>)
    ensures
        episodes_result(r) == videos_episodes(video_views(videos@), base_url@),
        r matches Ok(episodes) ==> episodes@.len() == videos@.len(),
{
    let ghost all = video_views(videos@);
    let mut out: Vec<Episode> = Vec::new();
    proof {
        assert(episode_views(out@) =~= Seq::<EpisodeView>::empty());
    }
    for video in it: videos.into_iter()
        invariant
            it.seq() == videos@,
            all == video_views(videos@),
            out@.len() == it.index(),
            videos_episodes(all.take(it.index()), base_url@) == Ok::<
                Seq<EpisodeView>,
                FeedErrorView,
            >(episode_views(out@)),
    {
        let ghost i = it.index();
        let ghost before = episode_views(out@);
        proof {
            assert(all.take(i + 1).drop_last() =~= all.take(i));
        }
        match Episode::from_video(video, base_url) {
            Ok(episode) => {
                out.push(episode);
                assert(episode_views(out@) =~= before.push(episode@));
            },
            Err(error) => {
                proof {
                    lemma_videos_error_stays(all, base_url@, i + 1);
                }
                return Err(error);
            },
        }
    }
    proof {
        assert(all.take(videos@.len() as int) =~= all);
    }
    Ok(out)
}

/// Writes the feed entries of some episodes, in their order.
pub fn serialize_episodes(episodes: Vec<Episode>, block: bool) -> (r: Vec<FeedEntry>)
    ensures
        entry_views(r@) == episodes_entries(episode_views(episodes@), block),
{
    let mut out: Vec<FeedEntry> = Vec::new();
    for episode in it: episodes.into_iter()
        invariant
            it.seq() == episodes@,
            entry_views(out@) == episodes_entries(
                episode_views(episodes@.take(it.index())),
                block,
            ),
    {
        let ghost i = it.index();
        let ghost before = entry_views(out@);
        let entry = build_episode(episode, block);
        out.push(entry);
        proof {
            assert(entry_views(out@) =~= before.push(entry@));
            assert(entry_views(out@) =~= episodes_entries(
                episode_views(episodes@.take(i + 1)),
                block,
            ));
        }
    }
    out
}

/// One run over a feed. `document` holds the entries of the feed and
/// `videos` the records that were fetched, both with the newest first.
/// Returns the entries of the episodes that are new to the feed, the
/// oldest first, each under its number. The run ends with an error, and
/// adds nothing, as soon as one entry or one record cannot be normalised.
pub fn gen_feed(document: Vec<FeedEntry>, videos: Vec<VideoRecord>, base_url: &str, block: bool) -> (r:
    Result<Vec<FeedEntry>, FeedError>)
    requires
        run_fits(entry_views(document@), videos@.len()),
    ensures
        update_result(r) == feed_update(
            entry_views(document@),
            video_views(videos@),
            base_url@,
            block,
        ),
{
    let existing = match normalize_entries(document) {
        Ok(episodes) => episodes,
        Err(error) => {
            return Err(error);
        },
    };
    let candidates = match normalize_videos(videos, base_url) {
        Ok(episodes) => episodes,
        Err(error) => {
            return Err(error);
        },
    };
    proof {
        episode_views(candidates@).lemma_filter_len(is_novel(episode_views(existing@)));
    }
    match gen_new_feed(&existing, candidates) {
        Ok(added) => Ok(serialize_episodes(added, block)),
        Err(error) => Err(error),
    }
}

/// Whether a run over `document` can be given `count` videos: whether as
/// many numbers are left after the one of the document's newest entry.
pub fn can_extend(document: &Vec<FeedEntry>, count: usize) -> (r: bool)
    ensures
        r == newest_number_fits(entry_views(document@), count as nat),
        r ==> run_fits(entry_views(document@), count as nat),
{
    proof {
        if entries_episodes(entry_views(document@)) is Ok {
            lemma_entries_episodes(entry_views(document@));
        }
    }
    if document.len() == 0 {
        return count <= 0x7fff_ffff;
    }
    let text = match &document[0].itunes_ext {
        Some(ext) => match &ext.episode {
            Some(text) => text,
            None => {
                return true;
            },
        },
        None => {
            return true;
        },
    };
    match parse_i32(text.as_str()) {
        Some(number) => count <= 0xffff_ffff && number as i64 + count as i64 <= 0x7fff_ffff,
        None => true,
    }
}

/// Puts new entries into a document. The document lists its newest entry
/// first and `added` its oldest first, so the added entries go to the
/// head, the newest of them first; the entries that were there follow,
/// each as it was and in the order it had.
pub fn add_entries<T>(document: Vec<T>, added: Vec<T>) -> (r: Vec<T>)
    ensures
        r@ == added@.reverse() + document@,
{
    let mut out: Vec<T> = Vec::new();
    let mut rest = added;
    while rest.len() > 0
        invariant
            rest.len() <= added.len(),
            rest@ == added@.take(rest.len() as int),
            out@ == added@.skip(rest.len() as int).reverse(),
        decreases rest.len(),
    {
        let entry = rest.pop().unwrap();
        out.push(entry);
    }
    let mut tail = document;
    out.append(&mut tail);
    out
}

/// Whether every episode of a list is as the library makes them.
pub open spec fn all_wf(episodes: Seq<EpisodeView>) -> bool {
    forall|i: int| 0 <= i < episodes.len() ==> (#[trigger] episodes[i]).wf()
}

/// The episodes that video records are normalised to are as many as the
/// records, each as the library makes them, and none has a number.
pub proof fn lemma_videos_episodes(videos: Seq<VideoRecordView>, base_url: Seq<char>)
    requires
        videos_episodes(videos, base_url) is Ok,
    ensures
        videos_episodes(videos, base_url)->Ok_0.len() == videos.len(),
        all_wf(videos_episodes(videos, base_url)->Ok_0),
        forall|i: int|
            0 <= i < videos.len() ==> (#[trigger] videos_episodes(
                videos,
                base_url,
            )->Ok_0[i]).episode is None,
    decreases videos.len(),
{
    if videos.len() > 0 {
        lemma_videos_episodes(videos.drop_last(), base_url);
    }
}

/// The episodes that feed entries are normalised to are as many as the
/// entries, each as the library makes them, and each has its number.
pub proof fn lemma_entries_episodes(entries: Seq<FeedEntryView>)
    requires
        entries_episodes(entries) is Ok,
    ensures
        entries_episodes(entries)->Ok_0.len() == entries.len(),
        all_wf(entries_episodes(entries)->Ok_0),
        forall|i: int|
            0 <= i < entries.len() ==> entry_episode(#[trigger] entries[i]) == Ok::<
                EpisodeView,
                FeedErrorView,
            >(entries_episodes(entries)->Ok_0[i]),
    decreases entries.len(),
{
    if entries.len() > 0 {
        lemma_entries_episodes(entries.drop_last());
        let episodes = entries_episodes(entries)->Ok_0;
        assert forall|i: int| 0 <= i < entries.len() implies entry_episode(
            #[trigger] entries[i],
        ) == Ok::<EpisodeView, FeedErrorView>(episodes[i]) by {
            if i < entries.len() - 1 {
                assert(entries.drop_last()[i] == entries[i]);
            }
        }
    }
}

/// Entries that can each be normalised can be normalised as a list.
proof fn lemma_entries_episodes_each(entries: Seq<FeedEntryView>, episodes: Seq<EpisodeView>)
    requires
        entries.len() == episodes.len(),
        forall|i: int|
            0 <= i < entries.len() ==> entry_episode(#[trigger] entries[i]) == Ok::<
                EpisodeView,
                FeedErrorView,
            >(episodes[i]),
    ensures
        entries_episodes(entries) == Ok::<Seq<EpisodeView>, FeedErrorView>(episodes),
    decreases entries.len(),
{
    if entries.len() > 0 {
        let init = entries.drop_last();
        assert forall|i: int| 0 <= i < init.len() implies entry_episode(#[trigger] init[i]) == Ok::<
            EpisodeView,
            FeedErrorView,
        >(episodes.drop_last()[i]) by {}
        lemma_entries_episodes_each(init, episodes.drop_last());
        assert(entry_episode(entries[entries.len() - 1]) == Ok::<EpisodeView, FeedErrorView>(
            episodes[entries.len() - 1],
        ));
        assert(episodes.drop_last().push(episodes.last()) =~= episodes);
    } else {
        assert(episodes =~= Seq::<EpisodeView>::empty());
    }
}

/// A run keeps a feed sound. Where the entries of a document, newest
/// first, stand for episodes that are numbered without a gap and have no
/// identifier twice, and the videos that were fetched have no identifier
/// twice either, the run succeeds, and the document with the added
/// entries at its head stands for the episodes that were there, each as
/// it was, after the new ones: again numbered without a gap, and again
/// with no identifier twice. A second run over that document with the
/// same videos adds nothing.
pub proof fn lemma_run_keeps_feed_sound(
    document: Seq<FeedEntryView>,
    videos: Seq<VideoRecordView>,
    base_url: Seq<char>,
    block: bool,
)
    requires
        entries_episodes(document) is Ok,
        videos_episodes(videos, base_url) is Ok,
        well_numbered(entries_episodes(document)->Ok_0),
        unique_ids(entries_episodes(document)->Ok_0),
        unique_ids(videos_episodes(videos, base_url)->Ok_0),
        run_fits(document, videos.len()),
    ensures
        feed_update(document, videos, base_url, block) matches Ok(added) && {
            let existing = entries_episodes(document)->Ok_0;
            let candidates = videos_episodes(videos, base_url)->Ok_0;
            &&& merge(existing, candidates) is Ok
            &&& added == episodes_entries(merge(existing, candidates)->Ok_0, block)
            &&& entries_episodes(added.reverse() + document) == Ok::<
                Seq<EpisodeView>,
                FeedErrorView,
            >(merged_feed(existing, merge(existing, candidates)->Ok_0))
            &&& well_numbered(merged_feed(existing, merge(existing, candidates)->Ok_0))
            &&& unique_ids(merged_feed(existing, merge(existing, candidates)->Ok_0))
            &&& feed_update(added.reverse() + document, videos, base_url, block) == Ok::<
                Seq<FeedEntryView>,
                FeedErrorView,
            >(Seq::empty())
        },
{
    let existing = entries_episodes(document)->Ok_0;
    let candidates = videos_episodes(videos, base_url)->Ok_0;
    lemma_entries_episodes(document);
    lemma_videos_episodes(videos, base_url);
    lemma_numbering_continues(existing, candidates);
    lemma_numbering_monotonic(existing, candidates);
    lemma_ids_stay_unique(existing, candidates);
    lemma_novel(existing, candidates);
    let found = novel(existing, candidates);
    let episodes = merge(existing, candidates)->Ok_0;
    let added = episodes_entries(episodes, block);
    let later = merged_feed(existing, episodes);
    let after = added.reverse() + document;
    let k = episodes.len() as int;
    assert forall|i: int| 0 <= i < after.len() implies entry_episode(#[trigger] after[i]) == Ok::<
        EpisodeView,
        FeedErrorView,
    >(later[i]) by {
        if i < k {
            // an added entry: it was written for a candidate under its
            // new number, and is read back as that episode
            let episode = episodes[k - 1 - i];
            let origin = found[found.len() - 1 - (k - 1 - i)];
            let m = choose|m: int| 0 <= m < candidates.len() && candidates[m] == origin;
            assert(candidates[m].wf());
            assert(episode.wf());
            lemma_entry_round_trip(episode, block);
        }
    }
    lemma_entries_episodes_each(after, later);
    lemma_second_merge_is_empty(existing, candidates);
    assert(episodes_entries(Seq::<EpisodeView>::empty(), block) =~= Seq::<FeedEntryView>::empty());
}

} // verus!
