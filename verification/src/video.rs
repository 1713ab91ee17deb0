//! One record of the video catalogue, as the platform reports it.

use crate::text::opt_text;
use vstd::prelude::*;

verus! {

/// What the catalogue says of one video. Apart from the identifier every
/// field may be absent; `duration` holds the number as the catalogue wrote it.
#[derive(Clone, Debug, PartialEq, Eq)]
pub struct VideoRecord {
    pub id: String,
    pub title: Option<String>,
    pub duration: Option<String>,
    pub upload_date: Option<String>,
    pub uploader: Option<String>,
    pub webpage_url: Option<String>,
    pub description: Option<String>,
}

/// A [`VideoRecord`], with its text as sequences of characters.
pub struct VideoRecordView {
    pub id: Seq<char>,
    pub title: Option<Seq<char>>,
    pub duration: Option<Seq<char>>,
    pub upload_date: Option<Seq<char>>,
    pub uploader: Option<Seq<char>>,
    pub webpage_url: Option<Seq<char>>,
    pub description: Option<Seq<char>>,
}

impl View for VideoRecord {
    type V = VideoRecordView;

    open spec fn view(&self) -> VideoRecordView {
        VideoRecordView {
            id: self.id@,
            title: opt_text(self.title),
            duration: opt_text(self.duration),
            upload_date: opt_text(self.upload_date),
            uploader: opt_text(self.uploader),
            webpage_url: opt_text(self.webpage_url),
            description: opt_text(self.description),
        }
    }
}

} // verus!
