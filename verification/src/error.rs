//! The ways in which a run fails.

use crate::text::{append, from_chars, to_chars};
use vstd::prelude::*;

verus! {

/// What went wrong.
#[derive(Clone, Copy, Debug, PartialEq, Eq, Structural)]
pub enum ErrorKind {
    /// A source lies outside the source directory.
    SourceOutsideBase,
    /// A content file does not begin with the opening marker.
    MissingOpeningMarker,
    /// A content file has no terminator after its header.
    MissingTerminator,
    /// A header is no JSON object of the expected shape.
    MalformedMetadata,
    /// A route name is not in the route table.
    UnknownRoute,
    /// A URL template keeps a placeholder that no value fills.
    UnresolvedPlaceholder,
    /// A navbar group names more than one primary entry.
    AmbiguousNavbarPrimary,
    /// A navbar group names no primary entry.
    MissingNavbarPrimary,
    /// A blog post's source path has no file stem.
    MissingSlug,
    /// A blog post has no `date`.
    MissingDate,
    /// A blog post's `date` is no text of three `/`-separated parts.
    InvalidDate,
    /// A blog post has no `excerpt`.
    MissingExcerpt,
    /// A blog post's `excerpt` is no text.
    InvalidExcerpt,
    /// A blog post's month is none of `01` to `12`.
    InvalidMonth,
    /// A blog post reached the index without its derived fields.
    IncompletePost,
    /// The blog-post template has no source.
    MissingBlogpostTemplate,
    /// A page names a template that the engine does not hold.
    UnknownTemplate,
    /// The templating engine refused a template or failed to render it.
    Template,
}

/// Whether a failure lies in one file's content or stops any run.
#[derive(Clone, Copy, Debug, PartialEq, Eq, Structural)]
pub enum ErrorClass {
    /// The site's configuration or a header's shape is wrong.
    Configuration,
    /// One content file lacks what its kind requires.
    Content,
    /// A template is unknown or does not render.
    Template,
}

/// The class of each kind of failure.
pub open spec fn class_of(kind: ErrorKind) -> ErrorClass {
    match kind {
        ErrorKind::SourceOutsideBase
        | ErrorKind::MissingOpeningMarker
        | ErrorKind::MissingTerminator
        | ErrorKind::MalformedMetadata
        | ErrorKind::UnknownRoute
        | ErrorKind::UnresolvedPlaceholder
        | ErrorKind::AmbiguousNavbarPrimary
        | ErrorKind::MissingNavbarPrimary => ErrorClass::Configuration,
        ErrorKind::MissingSlug
        | ErrorKind::MissingDate
        | ErrorKind::InvalidDate
        | ErrorKind::MissingExcerpt
        | ErrorKind::InvalidExcerpt
        | ErrorKind::InvalidMonth
        | ErrorKind::IncompletePost => ErrorClass::Content,
        ErrorKind::MissingBlogpostTemplate
        | ErrorKind::UnknownTemplate
        | ErrorKind::Template => ErrorClass::Template,
    }
}

impl ErrorKind {
    /// The class of this kind of failure.
    pub fn class(self) -> (r: ErrorClass)
        ensures
            r == class_of(self),
    {
        match self {
            ErrorKind::SourceOutsideBase
            | ErrorKind::MissingOpeningMarker
            | ErrorKind::MissingTerminator
            | ErrorKind::MalformedMetadata
            | ErrorKind::UnknownRoute
            | ErrorKind::UnresolvedPlaceholder
            | ErrorKind::AmbiguousNavbarPrimary
            | ErrorKind::MissingNavbarPrimary => ErrorClass::Configuration,
            ErrorKind::MissingSlug
            | ErrorKind::MissingDate
            | ErrorKind::InvalidDate
            | ErrorKind::MissingExcerpt
            | ErrorKind::InvalidExcerpt
            | ErrorKind::InvalidMonth
            | ErrorKind::IncompletePost => ErrorClass::Content,
            ErrorKind::MissingBlogpostTemplate
        | ErrorKind::UnknownTemplate
        | ErrorKind::Template => ErrorClass::Template,
        }
    }
}

/// What each kind of failure is called in a message.
pub open spec fn kind_text(kind: ErrorKind) -> Seq<char> {
    match kind {
        ErrorKind::SourceOutsideBase => "source lies outside the source directory"@,
        ErrorKind::MissingOpeningMarker => "content file does not open with a header"@,
        ErrorKind::MissingTerminator => "header has no terminator"@,
        ErrorKind::MalformedMetadata => "header has not the expected shape"@,
        ErrorKind::UnknownRoute => "no route defined"@,
        ErrorKind::UnresolvedPlaceholder => "URL keeps a placeholder"@,
        ErrorKind::AmbiguousNavbarPrimary => "navbar group has more than one primary entry"@,
        ErrorKind::MissingNavbarPrimary => "navbar group has no primary entry"@,
        ErrorKind::MissingSlug => "blog post path has no stem"@,
        ErrorKind::MissingDate => "blog post has no date"@,
        ErrorKind::InvalidDate => "blog post has an invalid date"@,
        ErrorKind::MissingExcerpt => "blog post has no excerpt"@,
        ErrorKind::InvalidExcerpt => "blog post excerpt is no text"@,
        ErrorKind::InvalidMonth => "invalid month"@,
        ErrorKind::IncompletePost => "blog post lacks its derived fields"@,
        ErrorKind::MissingBlogpostTemplate => "blog-post template has no source"@,
        ErrorKind::UnknownTemplate => "no template of this name"@,
        ErrorKind::Template => "page does not render"@,
    }
}

impl ErrorKind {
    /// What this kind of failure is called in a message.
    pub fn text(self) -> (r: &'static str)
        ensures
            r@ == kind_text(self),
    {
        match self {
            ErrorKind::SourceOutsideBase => "source lies outside the source directory",
            ErrorKind::MissingOpeningMarker => "content file does not open with a header",
            ErrorKind::MissingTerminator => "header has no terminator",
            ErrorKind::MalformedMetadata => "header has not the expected shape",
            ErrorKind::UnknownRoute => "no route defined",
            ErrorKind::UnresolvedPlaceholder => "URL keeps a placeholder",
            ErrorKind::AmbiguousNavbarPrimary => "navbar group has more than one primary entry",
            ErrorKind::MissingNavbarPrimary => "navbar group has no primary entry",
            ErrorKind::MissingSlug => "blog post path has no stem",
            ErrorKind::MissingDate => "blog post has no date",
            ErrorKind::InvalidDate => "blog post has an invalid date",
            ErrorKind::MissingExcerpt => "blog post has no excerpt",
            ErrorKind::InvalidExcerpt => "blog post excerpt is no text",
            ErrorKind::InvalidMonth => "invalid month",
            ErrorKind::IncompletePost => "blog post lacks its derived fields",
            ErrorKind::MissingBlogpostTemplate => "blog-post template has no source",
            ErrorKind::UnknownTemplate => "no template of this name",
            ErrorKind::Template => "page does not render",
        }
    }
}

/// A failure: its kind and the path, route, URL or group it concerns.
#[derive(Debug, PartialEq, Eq)]
pub struct SiteError {
    pub kind: ErrorKind,
    pub subject: String,
}

/// A failure as specifications see it.
pub ghost struct SiteErrorView {
    pub kind: ErrorKind,
    pub subject: Seq<char>,
}

impl View for SiteError {
    type V = SiteErrorView;

    open spec fn view(&self) -> SiteErrorView {
        SiteErrorView { kind: self.kind, subject: self.subject@ }
    }
}

/// The failure of kind `kind` about `subject`.
pub open spec fn failure(kind: ErrorKind, subject: Seq<char>) -> SiteErrorView {
    SiteErrorView { kind, subject }
}

impl SiteError {
    /// The failure of kind `kind` about `subject`.
    pub fn new(kind: ErrorKind, subject: &str) -> (e: SiteError)
        ensures
            e@ == failure(kind, subject@),
    {
        SiteError { kind, subject: subject.to_owned() }
    }

    /// The message of this failure: what it is called, a colon, and what
    /// it concerns.
    pub fn message(&self) -> (out: String)
        ensures
            out@ == kind_text(self.kind) + seq![':', ' '] + self.subject@,
    {
        let mut out = to_chars(self.kind.text());
        out.push(':');
        out.push(' ');
        let subject = to_chars(self.subject.as_str());
        append(&mut out, &subject);
        assert(out@ =~= kind_text(self.kind) + seq![':', ' '] + self.subject@);
        from_chars(&out)
    }
}

} // verus!
