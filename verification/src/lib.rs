//! Turns a channel's video catalogue into podcast feed entries, and merges
//! newly found videos into an existing feed without renumbering or
//! duplicating what was already published.

pub mod date;
pub mod description;
pub mod duration;
pub mod entry;
pub mod episode;
pub mod error;
pub mod feed;
pub mod merge;
pub mod text;
pub mod video;

pub use crate::entry::{Enclosure, ExtensionElement, FeedEntry, Guid, ItunesExt};
pub use crate::episode::{build_episode, Episode, PodInfo};
pub use crate::error::{FeedError, Field, Source};
pub use crate::feed::{add_entries, can_extend, gen_feed};
pub use crate::merge::{can_number, gen_new_feed};
pub use crate::video::VideoRecord;
