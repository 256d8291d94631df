//! Content records: one for each source file and for each page made
//! later, with what the stages attach to it.

use crate::config::Kind;
use crate::metadata::{optional_text, DynamicContentMetadata, MetadataView};
use crate::url::{URL, UrlView};
use vstd::prelude::*;

verus! {

/// One unit of content on its way through the stages.
#[derive(Debug, PartialEq, Eq)]
pub struct Record {
    /// Where the source lies, seen from the source directory.
    pub source_path: String,
    pub kind: Kind,
    pub metadata: Option<DynamicContentMetadata>,
    /// The body of the source, as read.
    pub raw_contents: Option<String>,
    pub url: Option<URL>,
    /// Where the output lies, seen from the output directory.
    pub output_path: Option<String>,
    /// Where the output lies.
    pub absolute_output_path: Option<String>,
    /// The text to write.
    pub rendered_contents: Option<String>,
    pub exclude_from_sitemap: bool,
}

/// A record as specifications see it.
pub ghost struct RecordView {
    pub source_path: Seq<char>,
    pub kind: Kind,
    pub metadata: Option<MetadataView>,
    pub raw_contents: Option<Seq<char>>,
    pub url: Option<UrlView>,
    pub output_path: Option<Seq<char>>,
    pub absolute_output_path: Option<Seq<char>>,
    pub rendered_contents: Option<Seq<char>>,
    pub exclude_from_sitemap: bool,
}

impl View for Record {
    type V = RecordView;

    open spec fn view(&self) -> RecordView {
        RecordView {
            source_path: self.source_path@,
            kind: self.kind,
            metadata: match self.metadata {
                Some(m) => Some(m@),
                None => None,
            },
            raw_contents: optional_text(self.raw_contents),
            url: match self.url {
                Some(u) => Some(u@),
                None => None,
            },
            output_path: optional_text(self.output_path),
            absolute_output_path: optional_text(self.absolute_output_path),
            rendered_contents: optional_text(self.rendered_contents),
            exclude_from_sitemap: self.exclude_from_sitemap,
        }
    }
}

/// A record is rendered where it has a kind other than static asset, its
/// metadata, its body and its URL.
pub open spec fn is_page(r: RecordView) -> bool {
    r.kind != Kind::StaticAsset && r.metadata is Some && r.raw_contents is Some && r.url is Some
}

impl Record {
    /// Whether the record is copied as it is, not rendered.
    pub fn is_static_asset(&self) -> (r: bool)
        ensures
            r == (self@.kind == Kind::StaticAsset),
    {
        match self.kind {
            Kind::StaticAsset => true,
            _ => false,
        }
    }

    /// Whether the record is rendered.
    pub fn is_page(&self) -> (r: bool)
        ensures
            r == is_page(self@),
    {
        !self.is_static_asset() && self.metadata.is_some() && self.raw_contents.is_some()
            && self.url.is_some()
    }
}

} // verus!
