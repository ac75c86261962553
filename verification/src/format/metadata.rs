use vstd::prelude::*;
use crate::util::buffer::Buffer;
use crate::util::dict::Dict;

verus! {

/// A chapter with time range and title.
#[derive(Debug, Clone)]
pub struct Chapter {
    /// Unique chapter ID.
    pub id: u64,
    /// Start time in milliseconds.
    pub start_ms: u64,
    /// End time in milliseconds.
    pub end_ms: u64,
    /// Chapter title.
    pub title: String,
    /// Chapter-level metadata.
    pub metadata: Dict,
}

/// An attachment (e.g. album art, font file).
#[derive(Debug, Clone)]
pub struct Attachment {
    /// Filename (e.g. "cover.jpg").
    pub filename: String,
    /// MIME type (e.g. "image/jpeg").
    pub mime_type: String,
    /// The file data.
    pub data: Buffer,
}

/// Container-level metadata.
#[derive(Debug, Clone)]
pub struct Metadata {
    /// Key-value tags (title, artist, album, etc.).
    pub tags: Dict,
    /// Chapter list.
    pub chapters: Vec<Chapter>,
    /// Attached files (album art, fonts, etc.).
    pub attachments: Vec<Attachment>,
}

impl Metadata {
    /// No tags, chapters or attachments.
    pub fn new() -> (r: Self)
        ensures
            r.tags.wf(), r.tags.view() == Seq::<(Seq<char>, Seq<char>)>::empty(),
            r.chapters@.len() == 0, r.attachments@.len() == 0,
    {
        Metadata { tags: Dict::new(), chapters: Vec::new(), attachments: Vec::new() }
    }
}

impl Default for Metadata {
    fn default() -> (r: Self)
        ensures
            r.tags.wf(), r.tags.view() == Seq::<(Seq<char>, Seq<char>)>::empty(),
            r.chapters@.len() == 0, r.attachments@.len() == 0,
    {
        Metadata::new()
    }
}

} // verus!
