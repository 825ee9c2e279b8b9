//! Items found in feeds, and the records of finished downloads.

use vstd::prelude::*;
use vstd::std_specs::cmp::PartialEqSpecImpl;
use crate::error::Error;
use crate::source::SourceType;
use crate::time::Timestamp;

verus! {

/// A piece of media that a feed offers and that has not been downloaded.
/// Its link is its identity.
#[derive(Debug)]
pub struct MediaEntry {
    pub title: Option<String>,
    pub link: String,
    pub published: Option<Timestamp>,
    pub kind: SourceType,
}

/// What a [`MediaEntry`] is, mathematically.
pub struct MediaEntryView {
    pub title: Option<Seq<char>>,
    pub link: Seq<char>,
    pub published: Option<Timestamp>,
    pub kind: SourceType,
}

impl View for MediaEntry {
    type V = MediaEntryView;

    open spec fn view(&self) -> MediaEntryView {
        MediaEntryView {
            title: match self.title {
                Some(t) => Some(t@),
                None => None,
            },
            link: self.link@,
            published: self.published,
            kind: self.kind,
        }
    }
}

impl Clone for MediaEntry {
    fn clone(&self) -> (copy: Self)
        ensures
            copy == *self,
    {
        let title = match &self.title {
            Some(t) => Some(t.clone()),
            None => None,
        };
        MediaEntry { title, link: self.link.clone(), published: self.published, kind: self.kind }
    }
}

impl PartialEq for MediaEntry {
    /// Two entries are the same item when their links are the same text.
    fn eq(&self, other: &Self) -> (same: bool) {
        self.link == other.link
    }
}

impl PartialEqSpecImpl for MediaEntry {
    open spec fn obeys_eq_spec() -> bool {
        true
    }

    open spec fn eq_spec(&self, other: &Self) -> bool {
        self.link@ == other.link@
    }
}

/// One entry of a parsed feed document, before it is known to be usable.
#[derive(Debug)]
pub struct FeedEntry {
    pub title: Option<String>,
    pub links: Vec<String>,
    pub published: Option<Timestamp>,
}

/// What a [`FeedEntry`] is, mathematically.
pub struct FeedEntryView {
    pub title: Option<Seq<char>>,
    pub links: Seq<Seq<char>>,
    pub published: Option<Timestamp>,
}

impl View for FeedEntry {
    type V = FeedEntryView;

    open spec fn view(&self) -> FeedEntryView {
        FeedEntryView {
            title: match self.title {
                Some(t) => Some(t@),
                None => None,
            },
            links: self.links@.map_values(|l: String| l@),
            published: self.published,
        }
    }
}

/// The item that a feed entry with at least one link stands for: the
/// first link becomes the item's link, title and time of publication are
/// taken over, and the kind is that of the source.
pub open spec fn item_of(entry: FeedEntryView, kind: SourceType) -> MediaEntryView {
    MediaEntryView { title: entry.title, link: entry.links[0], published: entry.published, kind }
}

impl MediaEntry {
    /// The item that a feed entry stands for. An entry without any link is
    /// refused.
    pub fn from_feed_entry(e: FeedEntry, kind: SourceType) -> (item: Result<MediaEntry, Error>)
        ensures
            e@.links.len() == 0 ==> (item matches Err(Error::Custom(m)) && m@
                == "No link on entry!"@),
            e@.links.len() > 0 ==> (item matches Ok(m) && m@ == item_of(e@, kind)),
    {
        if e.links.len() == 0 {
            return Err(Error::Custom(String::from_str("No link on entry!")));
        }
        let link = e.links[0].clone();
        Ok(MediaEntry { title: e.title, link, published: e.published, kind })
    }
}

/// The record of one finished download.
#[derive(Debug)]
pub struct Media {
    /// The link the download was made from; the record's key.
    pub source: String,
    /// The identifier that the download tool gives the item.
    pub id: String,
    /// Where the file was written.
    pub path: String,
    pub title: String,
    pub description: String,
    /// When the download finished, in seconds since the epoch.
    pub date: i64,
}

impl Clone for Media {
    fn clone(&self) -> (copy: Self)
        ensures
            copy == *self,
    {
        Media {
            source: self.source.clone(),
            id: self.id.clone(),
            path: self.path.clone(),
            title: self.title.clone(),
            description: self.description.clone(),
            date: self.date,
        }
    }
}

} // verus!
