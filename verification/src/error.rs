//! The causes for which normalising a record or merging a feed fails.

use vstd::prelude::*;

verus! {

/// A field of a feed entry or of a video record.
#[derive(Clone, Copy, Debug, PartialEq, Eq, Structural)]
pub enum Field {
    Guid,
    Enclosure,
    EnclosureUrl,
    EnclosureLength,
    Link,
    Title,
    Duration,
    Episode,
    Author,
    PubDate,
    Description,
    UploadDate,
    Uploader,
    WebpageUrl,
}

/// The kind of record that was being normalised.
#[derive(Clone, Copy, Debug, PartialEq, Eq, Structural)]
pub enum Source {
    FeedEntry,
    VideoRecord,
}

impl Field {
    /// The field's name as text.
    pub open spec fn name_text(self) -> Seq<char> {
        match self {
            Field::Guid => "guid"@,
            Field::Enclosure => "enclosure"@,
            Field::EnclosureUrl => "enclosure_url"@,
            Field::EnclosureLength => "enclosure_length"@,
            Field::Link => "link"@,
            Field::Title => "title"@,
            Field::Duration => "duration"@,
            Field::Episode => "episode"@,
            Field::Author => "author"@,
            Field::PubDate => "pub_date"@,
            Field::Description => "description"@,
            Field::UploadDate => "upload_date"@,
            Field::Uploader => "uploader"@,
            Field::WebpageUrl => "webpage_url"@,
        }
    }

    /// The field's name as text.
    pub fn name(self) -> (r: &'static str)
        ensures
            r@ == self.name_text(),
    {
        match self {
            Field::Guid => "guid",
            Field::Enclosure => "enclosure",
            Field::EnclosureUrl => "enclosure_url",
            Field::EnclosureLength => "enclosure_length",
            Field::Link => "link",
            Field::Title => "title",
            Field::Duration => "duration",
            Field::Episode => "episode",
            Field::Author => "author",
            Field::PubDate => "pub_date",
            Field::Description => "description",
            Field::UploadDate => "upload_date",
            Field::Uploader => "uploader",
            Field::WebpageUrl => "webpage_url",
        }
    }
}

impl Source {
    /// The source's name as text.
    pub open spec fn name_text(self) -> Seq<char> {
        match self {
            Source::FeedEntry => "feed_entry"@,
            Source::VideoRecord => "video_record"@,
        }
    }

    /// The source's name as text.
    pub fn name(self) -> (r: &'static str)
        ensures
            r@ == self.name_text(),
    {
        match self {
            Source::FeedEntry => "feed_entry",
            Source::VideoRecord => "video_record",
        }
    }
}

/// Why a record could not be normalised, or a feed not merged.
#[derive(Clone, Debug, PartialEq, Eq)]
pub enum FeedError {
    /// A required field is absent from the record.
    MissingField { field: Field, source: Source },
    /// A field is present, but its text does not have the shape the field needs.
    MalformedField { field: Field, raw_value: String },
    /// The newest entry of the existing feed carries no episode number.
    InconsistentFeed,
}

/// What a [`FeedError`] says, with its text as a sequence of characters.
pub enum FeedErrorView {
    MissingField { field: Field, source: Source },
    MalformedField { field: Field, raw_value: Seq<char> },
    InconsistentFeed,
}

impl View for FeedError {
    type V = FeedErrorView;

    open spec fn view(&self) -> FeedErrorView {
        match *self {
            FeedError::MissingField { field, source } => FeedErrorView::MissingField {
                field,
                source,
            },
            FeedError::MalformedField { field, raw_value } => FeedErrorView::MalformedField {
                field,
                raw_value: raw_value@,
            },
            FeedError::InconsistentFeed => FeedErrorView::InconsistentFeed,
        }
    }
}

} // verus!
