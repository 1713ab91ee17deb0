use podcast_feed::date::{format_upload_date, is_upload_date_shape};
use podcast_feed::entry::{Enclosure, ExtensionElement, FeedEntry, Guid, ItunesExt};
use podcast_feed::episode::{build_episode, Episode, PodInfo};
use podcast_feed::error::{FeedError, Field, Source};
use podcast_feed::video::VideoRecord;

fn sample_video() -> VideoRecord {
    VideoRecord {
        id: "dQw4w9WgXcQ".to_string(),
        title: Some("A <fine> video".to_string()),
        duration: Some("3725".to_string()),
        upload_date: Some("20221006".to_string()),
        uploader: Some("Channel & Co".to_string()),
        webpage_url: Some("https://video.example/watch?v=dQw4w9WgXcQ".to_string()),
        description: Some("First line\n2 < 3".to_string()),
    }
}

fn sample_entry() -> FeedEntry {
    FeedEntry {
        guid: Some(Guid { value: "abc".to_string(), permalink: true }),
        title: Some("Old episode".to_string()),
        link: Some("https://video.example/watch?v=abc".to_string()),
        description: Some("<p>old</p>".to_string()),
        author: Some("Item Author".to_string()),
        pub_date: Some("Sat, 01 Oct 2022 00:00:00 +0000".to_string()),
        enclosure: Some(Enclosure {
            url: "https://media.example/abc".to_string(),
            length: "754".to_string(),
            mime_type: "audio/m4a".to_string(),
        }),
        itunes_ext: Some(ItunesExt {
            episode: Some("12".to_string()),
            author: Some("Extension Author".to_string()),
            duration: Some("00:12:34".to_string()),
            block: Some("Yes".to_string()),
        }),
        extensions: Vec::new(),
    }
}

fn missing(field: Field, source: Source) -> Result<Episode, FeedError> {
    Err(FeedError::MissingField { field, source })
}

fn malformed(field: Field, raw: &str) -> Result<Episode, FeedError> {
    Err(FeedError::MalformedField { field, raw_value: raw.to_string() })
}

#[test]
fn episode_from_a_video_record() {
    let episode = Episode::from_video(sample_video(), "https://media.example").unwrap();
    assert_eq!(
        episode,
        Episode {
            id: Guid { value: "dQw4w9WgXcQ".to_string(), permalink: false },
            url: "https://media.example/dQw4w9WgXcQ".to_string(),
            episode: None,
            title: "A <fine> video".to_string(),
            duration_str: "01:02:05".to_string(),
            duration_secs: 3725,
            author: "Channel & Co".to_string(),
            date: "Thu, 06 Oct 2022 00:00:00 +0000".to_string(),
            link: "https://video.example/watch?v=dQw4w9WgXcQ".to_string(),
            description: "<p>First line</p><p>2 &lt; 3</p>".to_string(),
        }
    );
}

#[test]
fn missing_upload_date_fails() {
    let mut video = sample_video();
    video.upload_date = None;
    let result = Episode::from_video(video, "https://media.example");
    assert_eq!(
        result,
        Err(FeedError::MissingField { field: Field::UploadDate, source: Source::VideoRecord })
    );
    match result {
        Err(FeedError::MissingField { field, source }) => {
            assert_eq!(field.name(), "upload_date");
            assert_eq!(source.name(), "video_record");
        }
        _ => panic!("an episode was made"),
    }
}

#[test]
fn each_missing_field_of_a_video_is_named() {
    let base = "https://media.example";
    let mut video = sample_video();
    video.duration = None;
    assert_eq!(Episode::from_video(video, base), missing(Field::Duration, Source::VideoRecord));
    let mut video = sample_video();
    video.title = None;
    assert_eq!(Episode::from_video(video, base), missing(Field::Title, Source::VideoRecord));
    let mut video = sample_video();
    video.uploader = None;
    assert_eq!(Episode::from_video(video, base), missing(Field::Uploader, Source::VideoRecord));
    let mut video = sample_video();
    video.webpage_url = None;
    assert_eq!(Episode::from_video(video, base), missing(Field::WebpageUrl, Source::VideoRecord));
}

#[test]
fn the_first_failing_field_of_a_video_decides() {
    let video = VideoRecord {
        id: "x".to_string(),
        title: None,
        duration: None,
        upload_date: None,
        uploader: None,
        webpage_url: None,
        description: None,
    };
    let base = "https://media.example";
    assert_eq!(
        Episode::from_video(video.clone(), base),
        missing(Field::Duration, Source::VideoRecord)
    );
    let video = VideoRecord { duration: Some("1".to_string()), ..video };
    assert_eq!(
        Episode::from_video(video.clone(), base),
        missing(Field::UploadDate, Source::VideoRecord)
    );
    let video = VideoRecord { upload_date: Some("20200229".to_string()), ..video };
    assert_eq!(Episode::from_video(video.clone(), base), missing(Field::Title, Source::VideoRecord));
    let video = VideoRecord { title: Some("t".to_string()), ..video };
    assert_eq!(
        Episode::from_video(video.clone(), base),
        missing(Field::Uploader, Source::VideoRecord)
    );
    let video = VideoRecord { uploader: Some("u".to_string()), ..video };
    assert_eq!(
        Episode::from_video(video.clone(), base),
        missing(Field::WebpageUrl, Source::VideoRecord)
    );
    let video = VideoRecord { webpage_url: Some("w".to_string()), ..video };
    let episode = Episode::from_video(video, base).unwrap();
    assert_eq!(episode.date, "Sat, 29 Feb 2020 00:00:00 +0000");
    assert_eq!(episode.description, "");
    assert_eq!(episode.duration_str, "00:00:01");
}

#[test]
fn malformed_duration_of_a_video() {
    for raw in ["12.5", "3725.0", "\"3725\"", "", "abc", "-1", "-3725", "9223372036854775808", "null"] {
        let mut video = sample_video();
        video.duration = Some(raw.to_string());
        assert_eq!(
            Episode::from_video(video, "https://media.example"),
            malformed(Field::Duration, raw),
            "{raw}"
        );
    }
    let mut video = sample_video();
    video.duration = Some("0".to_string());
    let episode = Episode::from_video(video, "https://media.example").unwrap();
    assert_eq!((episode.duration_secs, episode.duration_str.as_str()), (0, "00:00:00"));
}

#[test]
fn malformed_upload_date_of_a_video() {
    for raw in [
        "", "2022-10-06", "2022106", "202210061", "20221306", "20221032", "20210229", "2022100a",
        " 20221006", "+2022106", "06102022",
    ] {
        let mut video = sample_video();
        video.upload_date = Some(raw.to_string());
        assert_eq!(
            Episode::from_video(video, "https://media.example"),
            malformed(Field::UploadDate, raw),
            "{raw}"
        );
    }
}

#[test]
fn empty_title_or_uploader_of_a_video_is_malformed() {
    let mut video = sample_video();
    video.title = Some(String::new());
    assert_eq!(Episode::from_video(video, "https://media.example"), malformed(Field::Title, ""));
    let mut video = sample_video();
    video.uploader = Some(String::new());
    assert_eq!(Episode::from_video(video, "https://media.example"), malformed(Field::Uploader, ""));
}

#[test]
fn the_media_location_joins_base_and_identifier() {
    let episode = Episode::from_video(sample_video(), "").unwrap();
    assert_eq!(episode.url, "/dQw4w9WgXcQ");
    let episode = Episode::from_video(sample_video(), "http://host:8080/audio").unwrap();
    assert_eq!(episode.url, "http://host:8080/audio/dQw4w9WgXcQ");
}

#[test]
fn upload_dates_become_publication_dates() {
    assert_eq!(
        format_upload_date("20221006"),
        Some("Thu, 06 Oct 2022 00:00:00 +0000".to_string())
    );
    assert_eq!(
        format_upload_date("20240229"),
        Some("Thu, 29 Feb 2024 00:00:00 +0000".to_string())
    );
    assert_eq!(
        format_upload_date("19700101"),
        Some("Thu, 01 Jan 1970 00:00:00 +0000".to_string())
    );
    assert_eq!(
        format_upload_date("20051231"),
        Some("Sat, 31 Dec 2005 00:00:00 +0000".to_string())
    );
    assert_eq!(
        format_upload_date("00010101"),
        Some("Mon, 01 Jan 0001 00:00:00 +0000".to_string())
    );
    assert_eq!(format_upload_date("20230229"), None);
    assert_eq!(format_upload_date("20220431"), None);
    assert_eq!(format_upload_date("20220001"), None);
    assert_eq!(format_upload_date("20220100"), None);
    assert_eq!(format_upload_date("2022-1-1"), None);
    assert_eq!(format_upload_date(""), None);
}

#[test]
fn upload_date_shape_is_eight_digits() {
    assert!(is_upload_date_shape("20221006"));
    assert!(is_upload_date_shape("99999999"));
    assert!(!is_upload_date_shape("2022100"));
    assert!(!is_upload_date_shape("202210066"));
    assert!(!is_upload_date_shape("2022 006"));
    assert!(!is_upload_date_shape("\u{662}0221006"));
    assert!(!is_upload_date_shape(""));
}

#[test]
fn a_date_given_with_the_record_is_taken_as_it_is() {
    let episode = Episode::from_video_with_date(
        sample_video(),
        "https://media.example",
        Some("any text".to_string()),
    )
    .unwrap();
    assert_eq!(episode.date, "any text");
    assert_eq!(
        Episode::from_video_with_date(sample_video(), "https://media.example", None),
        malformed(Field::UploadDate, "20221006")
    );
}

#[test]
fn episode_from_a_feed_entry() {
    let episode = Episode::from_entry(sample_entry()).unwrap();
    assert_eq!(
        episode,
        Episode {
            id: Guid { value: "abc".to_string(), permalink: true },
            url: "https://media.example/abc".to_string(),
            episode: Some(12),
            title: "Old episode".to_string(),
            duration_str: "00:12:34".to_string(),
            duration_secs: 754,
            author: "Item Author".to_string(),
            date: "Sat, 01 Oct 2022 00:00:00 +0000".to_string(),
            link: "https://video.example/watch?v=abc".to_string(),
            description: "<p>old</p>".to_string(),
        }
    );
}

#[test]
fn the_author_of_an_entry_may_stand_in_its_extension_block() {
    let mut entry = sample_entry();
    entry.author = None;
    assert_eq!(Episode::from_entry(entry).unwrap().author, "Extension Author");
}

#[test]
fn each_missing_field_of_an_entry_is_named() {
    let mut entry = sample_entry();
    entry.guid = None;
    assert_eq!(Episode::from_entry(entry), missing(Field::Guid, Source::FeedEntry));
    let mut entry = sample_entry();
    entry.enclosure = None;
    assert_eq!(Episode::from_entry(entry), missing(Field::Enclosure, Source::FeedEntry));
    let mut entry = sample_entry();
    entry.link = None;
    assert_eq!(Episode::from_entry(entry), missing(Field::Link, Source::FeedEntry));
    let mut entry = sample_entry();
    entry.title = None;
    assert_eq!(Episode::from_entry(entry), missing(Field::Title, Source::FeedEntry));
    let mut entry = sample_entry();
    entry.itunes_ext = None;
    assert_eq!(Episode::from_entry(entry), missing(Field::Duration, Source::FeedEntry));
    let mut entry = sample_entry();
    entry.itunes_ext = Some(ItunesExt { duration: None, ..entry.itunes_ext.unwrap() });
    assert_eq!(Episode::from_entry(entry), missing(Field::Duration, Source::FeedEntry));
    let mut entry = sample_entry();
    entry.itunes_ext = Some(ItunesExt { episode: None, ..entry.itunes_ext.unwrap() });
    assert_eq!(Episode::from_entry(entry), missing(Field::Episode, Source::FeedEntry));
    let mut entry = sample_entry();
    entry.author = None;
    entry.itunes_ext = Some(ItunesExt { author: None, ..entry.itunes_ext.unwrap() });
    assert_eq!(Episode::from_entry(entry), missing(Field::Author, Source::FeedEntry));
    let mut entry = sample_entry();
    entry.pub_date = None;
    assert_eq!(Episode::from_entry(entry), missing(Field::PubDate, Source::FeedEntry));
    let mut entry = sample_entry();
    entry.description = None;
    assert_eq!(Episode::from_entry(entry), missing(Field::Description, Source::FeedEntry));
}

#[test]
fn malformed_fields_of_an_entry() {
    for raw in ["", "abc", "12.0", "-1", "9223372036854775808"] {
        let mut entry = sample_entry();
        entry.enclosure = Some(Enclosure { length: raw.to_string(), ..entry.enclosure.unwrap() });
        assert_eq!(Episode::from_entry(entry), malformed(Field::EnclosureLength, raw), "{raw}");
    }
    for raw in ["", "one", "0", "-3", "2147483648", "1.5"] {
        let mut entry = sample_entry();
        entry.itunes_ext =
            Some(ItunesExt { episode: Some(raw.to_string()), ..entry.itunes_ext.unwrap() });
        assert_eq!(Episode::from_entry(entry), malformed(Field::Episode, raw), "{raw}");
    }
    let mut entry = sample_entry();
    entry.enclosure = Some(Enclosure { url: String::new(), ..entry.enclosure.unwrap() });
    assert_eq!(Episode::from_entry(entry), malformed(Field::EnclosureUrl, ""));
    let mut entry = sample_entry();
    entry.title = Some(String::new());
    assert_eq!(Episode::from_entry(entry), malformed(Field::Title, ""));
    let mut entry = sample_entry();
    entry.author = Some(String::new());
    assert_eq!(Episode::from_entry(entry), malformed(Field::Author, ""));
}

#[test]
fn the_first_failing_field_of_an_entry_decides() {
    let entry = FeedEntry {
        guid: None,
        title: None,
        link: None,
        description: None,
        author: None,
        pub_date: None,
        enclosure: None,
        itunes_ext: None,
        extensions: Vec::new(),
    };
    assert_eq!(Episode::from_entry(entry.clone()), missing(Field::Guid, Source::FeedEntry));
    let entry = FeedEntry { guid: sample_entry().guid, ..entry };
    assert_eq!(Episode::from_entry(entry.clone()), missing(Field::Enclosure, Source::FeedEntry));
    let entry = FeedEntry { enclosure: sample_entry().enclosure, ..entry };
    assert_eq!(Episode::from_entry(entry.clone()), missing(Field::Link, Source::FeedEntry));
    let entry = FeedEntry { link: sample_entry().link, ..entry };
    assert_eq!(Episode::from_entry(entry.clone()), missing(Field::Title, Source::FeedEntry));
    let entry = FeedEntry { title: sample_entry().title, ..entry };
    assert_eq!(Episode::from_entry(entry.clone()), missing(Field::Duration, Source::FeedEntry));
}

#[test]
fn entry_of_an_episode() {
    let episode = Episode::from_video(sample_video(), "https://media.example")
        .unwrap()
        .update_ep_number(7);
    let entry = build_episode(episode, true);
    assert_eq!(
        entry,
        FeedEntry {
            guid: Some(Guid { value: "dQw4w9WgXcQ".to_string(), permalink: false }),
            title: Some("A <fine> video".to_string()),
            link: Some("https://video.example/watch?v=dQw4w9WgXcQ".to_string()),
            description: Some("<p>First line</p><p>2 &lt; 3</p>".to_string()),
            author: None,
            pub_date: Some("Thu, 06 Oct 2022 00:00:00 +0000".to_string()),
            enclosure: Some(Enclosure {
                url: "https://media.example/dQw4w9WgXcQ".to_string(),
                length: "3725".to_string(),
                mime_type: "audio/m4a".to_string(),
            }),
            itunes_ext: Some(ItunesExt {
                episode: Some("7".to_string()),
                author: Some("Channel & Co".to_string()),
                duration: Some("01:02:05".to_string()),
                block: Some("Yes".to_string()),
            }),
            extensions: vec![ExtensionElement {
                namespace: "itunes".to_string(),
                name: "title".to_string(),
                value: "A <fine> video".to_string(),
            }],
        }
    );
}

#[test]
fn entry_of_an_episode_without_number_or_block() {
    let episode = Episode::from_video(sample_video(), "https://media.example").unwrap();
    let entry = build_episode(episode, false);
    let ext = entry.itunes_ext.unwrap();
    assert_eq!(ext.episode, None);
    assert_eq!(ext.block, None);
}

#[test]
fn the_title_extension_belongs_to_its_own_entry() {
    let first = Episode::from_video(sample_video(), "https://media.example").unwrap();
    let mut other = sample_video();
    other.id = "second".to_string();
    other.title = Some("Another title".to_string());
    let second = Episode::from_video(other, "https://media.example").unwrap();
    let first = build_episode(first, true);
    let second = build_episode(second, true);
    assert_eq!(first.extensions.len(), 1);
    assert_eq!(second.extensions.len(), 1);
    assert_eq!(first.extensions[0].value, "A <fine> video");
    assert_eq!(second.extensions[0].value, "Another title");
    assert_eq!(second.extensions[0].namespace, "itunes");
    assert_eq!(second.extensions[0].name, "title");
}

#[test]
fn an_episode_is_read_back_from_its_entry() {
    let episode: PodInfo = Episode::from_video(sample_video(), "https://media.example")
        .unwrap()
        .update_ep_number(41);
    let read = Episode::from_entry(build_episode(episode.clone(), true));
    assert_eq!(read, Ok(episode.clone()));
    let read = Episode::from_entry(build_episode(episode.clone(), false));
    assert_eq!(read, Ok(episode));
}

#[test]
fn an_episode_without_number_is_not_read_back() {
    let episode = Episode::from_video(sample_video(), "https://media.example").unwrap();
    assert_eq!(
        Episode::from_entry(build_episode(episode, true)),
        missing(Field::Episode, Source::FeedEntry)
    );
}
