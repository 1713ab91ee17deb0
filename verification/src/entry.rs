//! One entry of a feed document, held as plain values: what the feed
//! carries for an episode, and nothing that was computed from it.

use crate::text::opt_text;
use vstd::prelude::*;

verus! {

/// The identifier of an entry.
#[derive(Clone, Debug, PartialEq, Eq)]
pub struct Guid {
    pub value: String,
    pub permalink: bool,
}

/// A [`Guid`], with its text as a sequence of characters.
pub struct GuidView {
    pub value: Seq<char>,
    pub permalink: bool,
}

impl View for Guid {
    type V = GuidView;

    open spec fn view(&self) -> GuidView {
        GuidView { value: self.value@, permalink: self.permalink }
    }
}

/// The media file of an entry.
#[derive(Clone, Debug, PartialEq, Eq)]
pub struct Enclosure {
    pub url: String,
    pub length: String,
    pub mime_type: String,
}

/// An [`Enclosure`], with its text as sequences of characters.
pub struct EnclosureView {
    pub url: Seq<char>,
    pub length: Seq<char>,
    pub mime_type: Seq<char>,
}

impl View for Enclosure {
    type V = EnclosureView;

    open spec fn view(&self) -> EnclosureView {
        EnclosureView { url: self.url@, length: self.length@, mime_type: self.mime_type@ }
    }
}

/// The podcast extension block of an entry.
#[derive(Clone, Debug, PartialEq, Eq)]
pub struct ItunesExt {
    pub episode: Option<String>,
    pub author: Option<String>,
    pub duration: Option<String>,
    pub block: Option<String>,
}

/// An [`ItunesExt`], with its text as sequences of characters.
pub struct ItunesExtView {
    pub episode: Option<Seq<char>>,
    pub author: Option<Seq<char>>,
    pub duration: Option<Seq<char>>,
    pub block: Option<Seq<char>>,
}

impl View for ItunesExt {
    type V = ItunesExtView;

    open spec fn view(&self) -> ItunesExtView {
        ItunesExtView {
            episode: opt_text(self.episode),
            author: opt_text(self.author),
            duration: opt_text(self.duration),
            block: opt_text(self.block),
        }
    }
}

/// One element outside the base vocabulary: `<namespace:name>value</namespace:name>`.
#[derive(Clone, Debug, PartialEq, Eq)]
pub struct ExtensionElement {
    pub namespace: String,
    pub name: String,
    pub value: String,
}

/// An [`ExtensionElement`], with its text as sequences of characters.
pub struct ExtensionElementView {
    pub namespace: Seq<char>,
    pub name: Seq<char>,
    pub value: Seq<char>,
}

impl View for ExtensionElement {
    type V = ExtensionElementView;

    open spec fn view(&self) -> ExtensionElementView {
        ExtensionElementView { namespace: self.namespace@, name: self.name@, value: self.value@ }
    }
}

/// One entry of a feed document.
#[derive(Clone, Debug, PartialEq, Eq)]
pub struct FeedEntry {
    pub guid: Option<Guid>,
    pub title: Option<String>,
    pub link: Option<String>,
    pub description: Option<String>,
    pub author: Option<String>,
    pub pub_date: Option<String>,
    pub enclosure: Option<Enclosure>,
    pub itunes_ext: Option<ItunesExt>,
    pub extensions: Vec<ExtensionElement>,
}

/// A [`FeedEntry`], with its text as sequences of characters.
pub struct FeedEntryView {
    pub guid: Option<GuidView>,
    pub title: Option<Seq<char>>,
    pub link: Option<Seq<char>>,
    pub description: Option<Seq<char>>,
    pub author: Option<Seq<char>>,
    pub pub_date: Option<Seq<char>>,
    pub enclosure: Option<EnclosureView>,
    pub itunes_ext: Option<ItunesExtView>,
    pub extensions: Seq<ExtensionElementView>,
}

impl View for FeedEntry {
    type V = FeedEntryView;

    open spec fn view(&self) -> FeedEntryView {
        FeedEntryView {
            guid: match self.guid {
                Some(g) => Some(g@),
                None => None,
            },
            title: opt_text(self.title),
            link: opt_text(self.link),
            description: opt_text(self.description),
            author: opt_text(self.author),
            pub_date: opt_text(self.pub_date),
            enclosure: match self.enclosure {
                Some(e) => Some(e@),
                None => None,
            },
            itunes_ext: match self.itunes_ext {
                Some(x) => Some(x@),
                None => None,
            },
            extensions: self.extensions@.map_values(|e: ExtensionElement| e@),
        }
    }
}

} // verus!
