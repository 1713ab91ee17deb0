use podcast_feed::entry::FeedEntry;
use podcast_feed::episode::{build_episode, Episode};
use podcast_feed::error::{FeedError, Field, Source};
use podcast_feed::feed::{
    add_entries, can_extend, gen_feed, normalize_entries, normalize_videos, serialize_episodes,
};
use podcast_feed::video::VideoRecord;

const BASE: &str = "https://media.example";

fn video(id: &str, upload_date: &str) -> VideoRecord {
    VideoRecord {
        id: id.to_string(),
        title: Some(format!("Video {id}")),
        duration: Some("90".to_string()),
        upload_date: Some(upload_date.to_string()),
        uploader: Some("Uploader".to_string()),
        webpage_url: Some(format!("https://video.example/{id}")),
        description: None,
    }
}

fn published(id: &str, upload_date: &str, number: i32) -> FeedEntry {
    let episode = Episode::from_video(video(id, upload_date), BASE).unwrap();
    build_episode(episode.update_ep_number(number), true)
}

fn numbers(entries: &Vec<FeedEntry>) -> Vec<(String, String)> {
    let mut out = Vec::new();
    for e in entries {
        out.push((
            e.guid.clone().unwrap().value,
            e.itunes_ext.clone().unwrap().episode.unwrap(),
        ));
    }
    out
}

fn pair(id: &str, number: &str) -> (String, String) {
    (id.to_string(), number.to_string())
}

#[test]
fn first_run_numbers_from_one() {
    let videos = vec![video("c", "20221003"), video("b", "20221002"), video("a", "20221001")];
    let added = gen_feed(Vec::new(), videos, BASE, true).unwrap();
    assert_eq!(numbers(&added), vec![pair("a", "1"), pair("b", "2"), pair("c", "3")]);
    assert_eq!(added[0].pub_date, Some("Sat, 01 Oct 2022 00:00:00 +0000".to_string()));
    assert_eq!(added[0].enclosure.clone().unwrap().url, "https://media.example/a");
    let document = add_entries(Vec::new(), added);
    assert_eq!(numbers(&document), vec![pair("c", "3"), pair("b", "2"), pair("a", "1")]);
}

#[test]
fn later_run_adds_only_what_is_new() {
    let document = vec![published("b", "20221002", 2), published("a", "20221001", 1)];
    let videos = vec![
        video("d", "20221004"),
        video("c", "20221003"),
        video("b", "20221002"),
        video("a", "20221001"),
    ];
    let added = gen_feed(document.clone(), videos.clone(), BASE, true).unwrap();
    assert_eq!(numbers(&added), vec![pair("c", "3"), pair("d", "4")]);
    let document = add_entries(document, added);
    assert_eq!(
        numbers(&document),
        vec![pair("d", "4"), pair("c", "3"), pair("b", "2"), pair("a", "1")]
    );
    let again = gen_feed(document.clone(), videos, BASE, true).unwrap();
    assert!(again.is_empty());
    let newer = vec![video("e", "20221005"), video("d", "20221004")];
    let added = gen_feed(document, newer, BASE, true).unwrap();
    assert_eq!(numbers(&added), vec![pair("e", "5")]);
}

#[test]
fn existing_entries_stay_as_they_are() {
    let mut first = published("b", "20221002", 2);
    first.extensions.clear();
    first.author = Some("kept".to_string());
    let document = vec![first, published("a", "20221001", 1)];
    let added = gen_feed(document.clone(), vec![video("c", "20221003")], BASE, false).unwrap();
    let after = add_entries(document.clone(), added.clone());
    assert_eq!(after.len(), 3);
    assert_eq!(after[0], added[0]);
    assert_eq!(after[1..], document[..]);
    assert_eq!(added[0].itunes_ext.clone().unwrap().block, None);
}

#[test]
fn a_bad_entry_ends_the_run() {
    let mut broken = published("a", "20221001", 1);
    broken.link = None;
    let document = vec![published("b", "20221002", 2), broken];
    let videos = vec![video("c", "20221003")];
    assert_eq!(
        gen_feed(document, videos, BASE, true),
        Err(FeedError::MissingField { field: Field::Link, source: Source::FeedEntry })
    );
}

#[test]
fn a_bad_video_ends_the_run() {
    let document = vec![published("a", "20221001", 1)];
    let mut broken = video("b", "20221002");
    broken.duration = Some("ninety".to_string());
    let mut also_broken = video("d", "20221004");
    also_broken.uploader = None;
    let videos = vec![video("c", "20221003"), broken, also_broken];
    assert_eq!(
        gen_feed(document, videos, BASE, true),
        Err(FeedError::MalformedField {
            field: Field::Duration,
            raw_value: "ninety".to_string()
        })
    );
}

#[test]
fn a_bad_video_ends_the_run_though_the_feed_holds_it() {
    let document = vec![published("a", "20221001", 1)];
    let mut broken = video("a", "20221001");
    broken.upload_date = None;
    assert_eq!(
        gen_feed(document, vec![broken], BASE, true),
        Err(FeedError::MissingField { field: Field::UploadDate, source: Source::VideoRecord })
    );
}

#[test]
fn entries_are_looked_at_before_videos() {
    let mut bad_entry = published("a", "20221001", 1);
    bad_entry.pub_date = None;
    let mut bad_video = video("b", "20221002");
    bad_video.title = None;
    assert_eq!(
        gen_feed(vec![bad_entry], vec![bad_video], BASE, true),
        Err(FeedError::MissingField { field: Field::PubDate, source: Source::FeedEntry })
    );
}

#[test]
fn an_entry_without_number_ends_the_run() {
    let episode = Episode::from_video(video("a", "20221001"), BASE).unwrap();
    let document = vec![build_episode(episode, true)];
    assert_eq!(
        gen_feed(document, vec![video("b", "20221002")], BASE, true),
        Err(FeedError::MissingField { field: Field::Episode, source: Source::FeedEntry })
    );
}

#[test]
fn lists_are_normalised_in_their_order() {
    let entries = vec![published("b", "20221002", 2), published("a", "20221001", 1)];
    let episodes = normalize_entries(entries).unwrap();
    assert_eq!(episodes.len(), 2);
    assert_eq!((episodes[0].id.value.as_str(), episodes[0].episode), ("b", Some(2)));
    assert_eq!((episodes[1].id.value.as_str(), episodes[1].episode), ("a", Some(1)));
    let episodes =
        normalize_videos(vec![video("y", "20221002"), video("x", "20221001")], BASE).unwrap();
    assert_eq!(episodes.len(), 2);
    assert_eq!((episodes[0].id.value.as_str(), episodes[0].episode), ("y", None));
    assert_eq!((episodes[1].id.value.as_str(), episodes[1].episode), ("x", None));
    assert_eq!(normalize_entries(Vec::new()), Ok(Vec::new()));
    assert_eq!(normalize_videos(Vec::new(), BASE), Ok(Vec::new()));
}

#[test]
fn episodes_are_written_in_their_order() {
    let first = Episode::from_video(video("x", "20221001"), BASE).unwrap().update_ep_number(1);
    let second = Episode::from_video(video("y", "20221002"), BASE).unwrap().update_ep_number(2);
    let entries = serialize_episodes(vec![first.clone(), second.clone()], true);
    assert_eq!(entries, vec![build_episode(first, true), build_episode(second, true)]);
    assert_eq!(serialize_episodes(Vec::new(), true), Vec::new());
}

#[test]
fn added_entries_go_to_the_head_newest_first() {
    assert_eq!(add_entries(vec![3, 2, 1], vec![4, 5, 6]), vec![6, 5, 4, 3, 2, 1]);
    assert_eq!(add_entries(vec![3, 2, 1], Vec::new()), vec![3, 2, 1]);
    assert_eq!(add_entries(Vec::new(), vec![1, 2]), vec![2, 1]);
    assert_eq!(add_entries(Vec::<u8>::new(), Vec::new()), Vec::<u8>::new());
}

#[test]
fn can_extend_tells_when_numbers_run_out() {
    assert!(can_extend(&Vec::new(), 0));
    assert!(can_extend(&Vec::new(), 20));
    assert!(can_extend(&Vec::new(), 2147483647));
    assert!(!can_extend(&Vec::new(), 2147483648));
    let document = vec![published("b", "20221002", 2147483645), published("a", "20221001", 1)];
    assert!(can_extend(&document, 0));
    assert!(can_extend(&document, 2));
    assert!(!can_extend(&document, 3));
    let added =
        gen_feed(document, vec![video("d", "20221004"), video("c", "20221003")], BASE, true)
            .unwrap();
    assert_eq!(numbers(&added), vec![pair("c", "2147483646"), pair("d", "2147483647")]);
}

#[test]
fn can_extend_holds_where_the_newest_number_cannot_be_read() {
    let mut unnumbered = published("a", "20221001", 1);
    unnumbered.itunes_ext = None;
    assert!(can_extend(&vec![unnumbered.clone()], usize::MAX));
    let mut odd = published("a", "20221001", 1);
    odd.itunes_ext.as_mut().unwrap().episode = Some("first".to_string());
    assert!(can_extend(&vec![odd], usize::MAX));
    let mut blank = published("a", "20221001", 1);
    blank.itunes_ext.as_mut().unwrap().episode = None;
    assert!(can_extend(&vec![blank], usize::MAX));
    assert_eq!(
        gen_feed(vec![unnumbered], vec![video("b", "20221002")], BASE, true),
        Err(FeedError::MissingField { field: Field::Duration, source: Source::FeedEntry })
    );
}
