//! The episode: what the library knows of one instalment, whichever source
//! it came from, and the two ways to make one.

use crate::date::{format_upload_date, pub_date_text};
use crate::description::{description_markup, gen_description};
use crate::duration::{duration_display, gen_duration_str};
use crate::entry::{
    Enclosure, EnclosureView, ExtensionElement, ExtensionElementView, FeedEntry, FeedEntryView,
    Guid, GuidView, ItunesExt, ItunesExtView,
};
use crate::error::{FeedError, FeedErrorView, Field, Source};
use crate::text::{
    decimal_i32, decimal_i64, int_digits, int_to_string, lemma_decimal_round_trip, opt_text,
    parse_i32, parse_i64,
};
use crate::video::{VideoRecord, VideoRecordView};
use vstd::prelude::*;

verus! {

/// One episode of the podcast.
#[derive(Clone, Debug, PartialEq, Eq)]
pub struct Episode {
    /// The identifier, which never changes once the episode is published.
    pub id: Guid,
    /// Where the media file is.
    pub url: String,
    /// The episode's number, once it has one.
    pub episode: Option<i32>,
    pub title: String,
    /// The duration as listeners see it.
    pub duration_str: String,
    /// The duration in seconds.
    pub duration_secs: i64,
    pub author: String,
    /// The publication date, in the form that feeds use.
    pub date: String,
    /// The page of the episode, for people.
    pub link: String,
    /// The description, as markup.
    pub description: String,
}

/// An episode, by the name it has where podcasts are spoken of.
pub type PodInfo = Episode;

/// An [`Episode`], with its text as sequences of characters.
pub struct EpisodeView {
    pub id: GuidView,
    pub url: Seq<char>,
    pub episode: Option<i32>,
    pub title: Seq<char>,
    pub duration_str: Seq<char>,
    pub duration_secs: i64,
    pub author: Seq<char>,
    pub date: Seq<char>,
    pub link: Seq<char>,
    pub description: Seq<char>,
}

impl View for Episode {
    type V = EpisodeView;

    open spec fn view(&self) -> EpisodeView {
        EpisodeView {
            id: self.id@,
            url: self.url@,
            episode: self.episode,
            title: self.title@,
            duration_str: self.duration_str@,
            duration_secs: self.duration_secs,
            author: self.author@,
            date: self.date@,
            link: self.link@,
            description: self.description@,
        }
    }
}

impl EpisodeView {
    /// What holds of every episode that the library makes: it has a media
    /// location, a title and an author, its duration is not negative, and
    /// its number, if it has one, is positive.
    pub open spec fn wf(self) -> bool {
        &&& self.url.len() > 0
        &&& self.title.len() > 0
        &&& self.author.len() > 0
        &&& self.duration_secs >= 0
        &&& (self.episode matches Some(n) ==> n >= 1)
    }

    /// The same episode under the number `number`.
    pub open spec fn numbered(self, number: i32) -> EpisodeView {
        EpisodeView { episode: Some(number), ..self }
    }
}

/// The outcome of making an episode, with its text as sequences of characters.
pub open spec fn episode_result(r: Result<Episode, FeedError>) -> Result<
    EpisodeView,
    FeedErrorView,
> {
    match r {
        Ok(episode) => Ok(episode@),
        Err(error) => Err(error@),
    }
}

/// The error for a field that is absent.
pub open spec fn missing(field: Field, source: Source) -> FeedErrorView {
    FeedErrorView::MissingField { field, source }
}

/// The error for a field whose text `raw_value` is not of the shape it needs.
pub open spec fn malformed(field: Field, raw_value: Seq<char>) -> FeedErrorView {
    FeedErrorView::MalformedField { field, raw_value }
}

/// The media type of every enclosure.
pub open spec fn media_type() -> Seq<char> {
    "audio/m4a"@
}

/// The text that marks an episode as kept out of directories.
pub open spec fn block_text() -> Seq<char> {
    "Yes"@
}

/// The extension element that repeats the title for players that look for
/// it there.
pub open spec fn title_extension(title: Seq<char>) -> ExtensionElementView {
    ExtensionElementView { namespace: "itunes"@, name: "title"@, value: title }
}

/// The episode that a video record stands for, given the publication date
/// that stands for its upload date (`None` where there is none).
/// The fields are looked at in this order: duration, upload date, title,
/// uploader, page address; the first that is absent or malformed decides.
pub open spec fn video_episode(
    video: VideoRecordView,
    base_url: Seq<char>,
    pub_date: Option<Seq<char>>,
) -> Result<EpisodeView, FeedErrorView> {
    if video.duration is None {
        Err(missing(Field::Duration, Source::VideoRecord))
    } else if decimal_i64(video.duration->0) is None || decimal_i64(video.duration->0)->0 < 0 {
        Err(malformed(Field::Duration, video.duration->0))
    } else if video.upload_date is None {
        Err(missing(Field::UploadDate, Source::VideoRecord))
    } else if pub_date is None {
        Err(malformed(Field::UploadDate, video.upload_date->0))
    } else if video.title is None {
        Err(missing(Field::Title, Source::VideoRecord))
    } else if video.title->0.len() == 0 {
        Err(malformed(Field::Title, video.title->0))
    } else if video.uploader is None {
        Err(missing(Field::Uploader, Source::VideoRecord))
    } else if video.uploader->0.len() == 0 {
        Err(malformed(Field::Uploader, video.uploader->0))
    } else if video.webpage_url is None {
        Err(missing(Field::WebpageUrl, Source::VideoRecord))
    } else {
        Ok(
            EpisodeView {
                id: GuidView { value: video.id, permalink: false },
                url: base_url + seq!['/'] + video.id,
                episode: None,
                title: video.title->0,
                duration_str: duration_display(decimal_i64(video.duration->0)->0 as int),
                duration_secs: decimal_i64(video.duration->0)->0,
                author: video.uploader->0,
                date: pub_date->0,
                link: video.webpage_url->0,
                description: match video.description {
                    Some(text) => description_markup(text),
                    None => Seq::<char>::empty(),
                },
            },
        )
    }
}

/// The author of a feed entry: the entry's own, or else the one in its
/// extension block.
pub open spec fn entry_author(entry: FeedEntryView) -> Option<Seq<char>> {
    match entry.author {
        Some(author) => Some(author),
        None => match entry.itunes_ext {
            Some(ext) => ext.author,
            None => None,
        },
    }
}

/// The duration text in the extension block of a feed entry.
pub open spec fn entry_duration(entry: FeedEntryView) -> Option<Seq<char>> {
    match entry.itunes_ext {
        Some(ext) => ext.duration,
        None => None,
    }
}

/// The episode number text in the extension block of a feed entry.
pub open spec fn entry_number(entry: FeedEntryView) -> Option<Seq<char>> {
    match entry.itunes_ext {
        Some(ext) => ext.episode,
        None => None,
    }
}

/// The episode that a feed entry stands for. The fields are looked at in
/// this order: identifier, enclosure (its address, then its length), link,
/// title, duration text, episode number, author, publication date,
/// description; the first that is absent or malformed decides.
pub open spec fn entry_episode(entry: FeedEntryView) -> Result<EpisodeView, FeedErrorView> {
    if entry.guid is None {
        Err(missing(Field::Guid, Source::FeedEntry))
    } else if entry.enclosure is None {
        Err(missing(Field::Enclosure, Source::FeedEntry))
    } else if entry.enclosure->0.url.len() == 0 {
        Err(malformed(Field::EnclosureUrl, entry.enclosure->0.url))
    } else if decimal_i64(entry.enclosure->0.length) is None || decimal_i64(
        entry.enclosure->0.length,
    )->0 < 0 {
        Err(malformed(Field::EnclosureLength, entry.enclosure->0.length))
    } else if entry.link is None {
        Err(missing(Field::Link, Source::FeedEntry))
    } else if entry.title is None {
        Err(missing(Field::Title, Source::FeedEntry))
    } else if entry.title->0.len() == 0 {
        Err(malformed(Field::Title, entry.title->0))
    } else if entry_duration(entry) is None {
        Err(missing(Field::Duration, Source::FeedEntry))
    } else if entry_number(entry) is None {
        Err(missing(Field::Episode, Source::FeedEntry))
    } else if decimal_i32(entry_number(entry)->0) is None || decimal_i32(entry_number(entry)->0)->0
        < 1 {
        Err(malformed(Field::Episode, entry_number(entry)->0))
    } else if entry_author(entry) is None {
        Err(missing(Field::Author, Source::FeedEntry))
    } else if entry_author(entry)->0.len() == 0 {
        Err(malformed(Field::Author, entry_author(entry)->0))
    } else if entry.pub_date is None {
        Err(missing(Field::PubDate, Source::FeedEntry))
    } else if entry.description is None {
        Err(missing(Field::Description, Source::FeedEntry))
    } else {
        Ok(
            EpisodeView {
                id: entry.guid->0,
                url: entry.enclosure->0.url,
                episode: Some(decimal_i32(entry_number(entry)->0)->0),
                title: entry.title->0,
                duration_str: entry_duration(entry)->0,
                duration_secs: decimal_i64(entry.enclosure->0.length)->0,
                author: entry_author(entry)->0,
                date: entry.pub_date->0,
                link: entry.link->0,
                description: entry.description->0,
            },
        )
    }
}

/// The feed entry that is written for an episode. `block` says whether the
/// entry asks directories to leave the episode out.
pub open spec fn episode_entry(episode: EpisodeView, block: bool) -> FeedEntryView {
    FeedEntryView {
        guid: Some(episode.id),
        title: Some(episode.title),
        link: Some(episode.link),
        description: Some(episode.description),
        author: None,
        pub_date: Some(episode.date),
        enclosure: Some(
            EnclosureView {
                url: episode.url,
                length: int_digits(episode.duration_secs as int),
                mime_type: media_type(),
            },
        ),
        itunes_ext: Some(
            ItunesExtView {
                episode: match episode.episode {
                    Some(number) => Some(int_digits(number as int)),
                    None => None,
                },
                author: Some(episode.author),
                duration: Some(episode.duration_str),
                block: if block {
                    Some(block_text())
                } else {
                    None
                },
            },
        ),
        extensions: seq![title_extension(episode.title)],
    }
}

fn missing_field<T>(field: Field, source: Source) -> (r: Result<T, FeedError>)
    ensures
        r matches Err(error) && error@ == missing(field, source),
{
    Err(FeedError::MissingField { field, source })
}

fn malformed_field<T>(field: Field, raw_value: String) -> (r: Result<T, FeedError>)
    ensures
        r matches Err(error) && error@ == malformed(field, raw_value@),
{
    Err(FeedError::MalformedField { field, raw_value })
}

impl Episode {
    /// The same episode under the number `number`.
    pub fn update_ep_number(self, number: i32) -> (r: Episode)
        ensures
            r@ == self@.numbered(number),
            self@.wf() && number >= 1 ==> r@.wf(),
    {
        Episode { episode: Some(number), ..self }
    }

    /// Makes the episode of a video record whose publication date is at
    /// hand: `pub_date` is that date, or `None` where the upload date
    /// could not be read. The media file is looked
    /// for under `base_url`, by the video's identifier.
    pub fn from_video_with_date(video: VideoRecord, base_url: &str, pub_date: Option<String>) -> (r:
        Result<Episode, FeedError>)
        ensures
            episode_result(r) == video_episode(video@, base_url@, opt_text(pub_date)),
            r matches Ok(episode) ==> episode@.wf(),
    {
        let VideoRecord { id, title, duration, upload_date, uploader, webpage_url, description } =
            video;
        let duration_text = match duration {
            Some(text) => text,
            None => {
                return missing_field(Field::Duration, Source::VideoRecord);
            },
        };
        let duration_secs = match parse_i64(duration_text.as_str()) {
            Some(secs) => secs,
            None => {
                return malformed_field(Field::Duration, duration_text);
            },
        };
        if duration_secs < 0 {
            return malformed_field(Field::Duration, duration_text);
        }
        let upload_text = match upload_date {
            Some(text) => text,
            None => {
                return missing_field(Field::UploadDate, Source::VideoRecord);
            },
        };
        let date = match pub_date {
            Some(text) => text,
            None => {
                return malformed_field(Field::UploadDate, upload_text);
            },
        };
        let title = match title {
            Some(text) => text,
            None => {
                return missing_field(Field::Title, Source::VideoRecord);
            },
        };
        if title.as_str().is_empty() {
            return malformed_field(Field::Title, title);
        }
        let author = match uploader {
            Some(text) => text,
            None => {
                return missing_field(Field::Uploader, Source::VideoRecord);
            },
        };
        if author.as_str().is_empty() {
            return malformed_field(Field::Uploader, author);
        }
        let link = match webpage_url {
            Some(text) => text,
            None => {
                return missing_field(Field::WebpageUrl, Source::VideoRecord);
            },
        };
        proof {
            reveal_strlit("/");
        }
        let mut url = String::from_str(base_url);
        url.append("/");
        url.append(id.as_str());
        assert(url@ =~= base_url@ + seq!['/'] + id@);
        Ok(
            Episode {
                id: Guid { value: id, permalink: false },
                url,
                episode: None,
                title,
                duration_str: gen_duration_str(duration_secs),
                duration_secs,
                author,
                date,
                link,
                description: gen_description(description),
            },
        )
    }

    /// Makes the episode of a video record. The media file is looked for
    /// under `base_url`, by the video's identifier; the episode has no
    /// number yet.
    pub fn from_video(video: VideoRecord, base_url: &str) -> (r: Result<Episode, FeedError>)
        ensures
            episode_result(r) == video_episode(
                video@,
                base_url@,
                match video@.upload_date {
                    Some(raw) => pub_date_text(raw),
                    None => None,
                },
            ),
            r matches Ok(episode) ==> episode@.wf(),
    {
        let pub_date = match &video.upload_date {
            Some(raw) => format_upload_date(raw.as_str()),
            None => None,
        };
        Episode::from_video_with_date(video, base_url, pub_date)
    }

    /// Makes the episode of an entry of an existing feed.
    pub fn from_entry(entry: FeedEntry) -> (r: Result<Episode, FeedError>)
        ensures
            episode_result(r) == entry_episode(entry@),
            r matches Ok(episode) ==> episode@.wf() && episode@.episode is Some,
    {
        let FeedEntry {
            guid,
            title,
            link,
            description,
            author,
            pub_date,
            enclosure,
            itunes_ext,
            extensions,
        } = entry;
        let id = match guid {
            Some(guid) => guid,
            None => {
                return missing_field(Field::Guid, Source::FeedEntry);
            },
        };
        let Enclosure { url, length, mime_type } = match enclosure {
            Some(enclosure) => enclosure,
            None => {
                return missing_field(Field::Enclosure, Source::FeedEntry);
            },
        };
        if url.as_str().is_empty() {
            return malformed_field(Field::EnclosureUrl, url);
        }
        let duration_secs = match parse_i64(length.as_str()) {
            Some(secs) => secs,
            None => {
                return malformed_field(Field::EnclosureLength, length);
            },
        };
        if duration_secs < 0 {
            return malformed_field(Field::EnclosureLength, length);
        }
        let link = match link {
            Some(text) => text,
            None => {
                return missing_field(Field::Link, Source::FeedEntry);
            },
        };
        let title = match title {
            Some(text) => text,
            None => {
                return missing_field(Field::Title, Source::FeedEntry);
            },
        };
        if title.as_str().is_empty() {
            return malformed_field(Field::Title, title);
        }
        let (ext_episode, ext_author, ext_duration) = match itunes_ext {
            Some(ext) => {
                let ItunesExt { episode, author, duration, block } = ext;
                (episode, author, duration)
            },
            None => (None, None, None),
        };
        let duration_str = match ext_duration {
            Some(text) => text,
            None => {
                return missing_field(Field::Duration, Source::FeedEntry);
            },
        };
        let number_text = match ext_episode {
            Some(text) => text,
            None => {
                return missing_field(Field::Episode, Source::FeedEntry);
            },
        };
        let number = match parse_i32(number_text.as_str()) {
            Some(number) => number,
            None => {
                return malformed_field(Field::Episode, number_text);
            },
        };
        if number < 1 {
            return malformed_field(Field::Episode, number_text);
        }
        let author = match author {
            Some(text) => text,
            None => match ext_author {
                Some(text) => text,
                None => {
                    return missing_field(Field::Author, Source::FeedEntry);
                },
            },
        };
        if author.as_str().is_empty() {
            return malformed_field(Field::Author, author);
        }
        let date = match pub_date {
            Some(text) => text,
            None => {
                return missing_field(Field::PubDate, Source::FeedEntry);
            },
        };
        let description = match description {
            Some(text) => text,
            None => {
                return missing_field(Field::Description, Source::FeedEntry);
            },
        };
        Ok(
            Episode {
                id,
                url,
                episode: Some(number),
                title,
                duration_str,
                duration_secs,
                author,
                date,
                link,
                description,
            },
        )
    }
}

/// Writes the feed entry of an episode. `block` says whether the entry
/// asks directories to leave the episode out.
pub fn build_episode(episode: Episode, block: bool) -> (r: FeedEntry)
    ensures
        r@ == episode_entry(episode@, block),
{
    let Episode {
        id,
        url,
        episode: number,
        title,
        duration_str,
        duration_secs,
        author,
        date,
        link,
        description,
    } = episode;
    let enclosure = Enclosure {
        url,
        length: int_to_string(duration_secs),
        mime_type: String::from_str("audio/m4a"),
    };
    let itunes_ext = ItunesExt {
        episode: match number {
            Some(n) => Some(int_to_string(n as i64)),
            None => None,
        },
        author: Some(author),
        duration: Some(duration_str),
        block: if block {
            Some(String::from_str("Yes"))
        } else {
            None
        },
    };
    let mut extensions: Vec<ExtensionElement> = Vec::new();
    extensions.push(
        ExtensionElement {
            namespace: String::from_str("itunes"),
            name: String::from_str("title"),
            value: title.clone(),
        },
    );
    proof {
        assert(extensions@.map_values(|e: ExtensionElement| e@) =~= seq![title_extension(title@)]);
    }
    FeedEntry {
        guid: Some(id),
        title: Some(title),
        link: Some(link),
        description: Some(description),
        author: None,
        pub_date: Some(date),
        enclosure: Some(enclosure),
        itunes_ext: Some(itunes_ext),
        extensions,
    }
}

/// An episode that has its number and is written to a feed is read from
/// that feed as the same episode: identifier, number and every other
/// field are as they were.
pub proof fn lemma_entry_round_trip(episode: EpisodeView, block: bool)
    requires
        episode.wf(),
        episode.episode is Some,
    ensures
        entry_episode(episode_entry(episode, block)) == Ok::<EpisodeView, FeedErrorView>(episode),
{
    lemma_decimal_round_trip(episode.duration_secs as int);
    lemma_decimal_round_trip(episode.episode->0 as int);
}

} // verus!
