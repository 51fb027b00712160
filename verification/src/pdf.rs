//! The document metadata and chapter ranges that the retrieval and
//! summarization pipelines read.  Text extraction itself is an outside
//! collaborator; only its plain results live here.

use vstd::prelude::*;

verus! {

/// Metadata of a loaded document.
#[derive(Debug, Clone)]
pub struct PdfMetadata {
    pub title: Option<String>,
    pub author: Option<String>,
    pub subject: Option<String>,
    pub creator: Option<String>,
    pub page_count: u32,
}

impl Default for PdfMetadata {
    /// No metadata, zero pages.
    fn default() -> (r: PdfMetadata)
        ensures
            r.title is None,
            r.author is None,
            r.subject is None,
            r.creator is None,
            r.page_count == 0,
    {
        PdfMetadata { title: None, author: None, subject: None, creator: None, page_count: 0 }
    }
}

/// A detected chapter: a sequential number, a title, and an inclusive
/// one-based page range.
#[derive(Debug, Clone)]
pub struct Chapter {
    pub id: u32,
    pub title: String,
    pub start_page: u32,
    pub end_page: u32,
}

} // verus!
