//! The load stage: records from the paths of static assets and from the
//! texts of content files.

use crate::config::{Config, ConfigView, Kind};
use crate::error::{class_of, failure, ErrorClass, ErrorKind, SiteError, SiteErrorView};
use crate::json::{json_document, parse_json, Datum, DatumView};
use crate::metadata::{
    enrich, enriched, framed, metadata_of_datum, opening, split_frontmatter, terminator,
    DynamicContentMetadata,
};
use crate::paths::{make_relative, relative_to};
use crate::record::{Record, RecordView};
use crate::seqs::{all_done, first_failure, views};
use crate::text::{append, first_occurrence, from_chars, matches_at, starts_with, to_chars};
use crate::url::{URL, UrlView};
use vstd::prelude::*;

verus! {

/// The record of the static asset at `path`: its URL and its output path
/// are its path as seen from the source directory, and it stays out of the
/// sitemap.
pub open spec fn static_record(config: ConfigView, path: Seq<char>) -> Result<
    RecordView,
    SiteErrorView,
> {
    match relative_to(path, config.source_dir) {
        None => Err(failure(ErrorKind::SourceOutsideBase, path)),
        Some(relative) => Ok(
            RecordView {
                source_path: relative,
                kind: Kind::StaticAsset,
                metadata: None,
                raw_contents: None,
                url: Some(UrlView { url: relative, absolute: config.site_url + relative }),
                output_path: Some(relative),
                absolute_output_path: None,
                rendered_contents: None,
                exclude_from_sitemap: true,
            },
        ),
    }
}

/// The record of one static asset.
pub fn load_static_content(config: &Config, path: &str) -> (r: Result<Record, SiteError>)
    ensures
        match r {
            Ok(record) => static_record(config@, path@) == Ok::<RecordView, SiteErrorView>(record@),
            Err(e) => static_record(config@, path@) == Err::<RecordView, SiteErrorView>(e@),
        },
{
    let relative = match make_relative(path, config.source_dir.as_str()) {
        Some(relative) => relative,
        None => {
            return Err(SiteError::new(ErrorKind::SourceOutsideBase, path));
        },
    };
    let mut absolute = to_chars(config.site_url.as_str());
    let tail = to_chars(relative.as_str());
    append(&mut absolute, &tail);
    Ok(
        Record {
            source_path: relative.clone(),
            kind: Kind::StaticAsset,
            metadata: None,
            raw_contents: None,
            url: Some(URL { url: relative.clone(), absolute: from_chars(&absolute) }),
            output_path: Some(relative),
            absolute_output_path: None,
            rendered_contents: None,
            exclude_from_sitemap: true,
        },
    )
}

/// The records of the static assets at `paths`, in their order; the first
/// path outside the source directory fails the stage.
pub fn static_content_source_loader(config: &Config, paths: &Vec<String>) -> (r: Result<
    Vec<Record>,
    SiteError,
>)
    ensures
        match r {
            Ok(records) => all_done(
                views(paths@),
                views(records@),
                |p: Seq<char>| static_record(config@, p),
            ),
            Err(e) => first_failure(views(paths@), e@, |p: Seq<char>| static_record(config@, p)),
        },
{
    let ghost step = |p: Seq<char>| static_record(config@, p);
    let mut records: Vec<Record> = Vec::new();
    let mut i: usize = 0;
    while i < paths.len()
        invariant
            i <= paths.len(),
            records.len() == i,
            step == |p: Seq<char>| static_record(config@, p),
            forall|j: int| 0 <= j < i ==> step(paths[j]@) == Ok::<RecordView, SiteErrorView>(records[j]@),
        decreases paths.len() - i,
    {
        match load_static_content(config, paths[i].as_str()) {
            Ok(record) => {
                records.push(record);
            },
            Err(e) => {
                proof {
                    assert(views(paths@)[i as int] == paths[i as int]@);
                    assert forall|j: int| 0 <= j < i implies step(#[trigger] views(paths@)[j]) is Ok by {
                        assert(step(paths[j]@) is Ok);
                    }
                }
                return Err(e);
            },
        }
        i = i + 1;
    }
    proof {
        assert forall|j: int| 0 <= j < paths.len() implies step(#[trigger] views(paths@)[j]) == Ok::<
            RecordView,
            SiteErrorView,
        >(views(records@)[j]) by {
            assert(step(paths[j]@) == Ok::<RecordView, SiteErrorView>(records[j]@));
        }
    }
    Ok(records)
}

/// The record of a content file of kind `kind` at `relative`, given what its
/// header parsed to and its body. The header must describe metadata, to
/// which the kind adds its own; the record is kept out of the sitemap where
/// the header says so.
pub open spec fn record_of_header(
    config: ConfigView,
    kind: Kind,
    relative: Seq<char>,
    header: Option<DatumView>,
    body: Seq<char>,
) -> Result<RecordView, SiteErrorView> {
    match header {
        None => Err(failure(ErrorKind::MalformedMetadata, relative)),
        Some(h) => match metadata_of_datum(h) {
            None => Err(failure(ErrorKind::MalformedMetadata, relative)),
            Some(m) => match enriched(kind, m, config.blogpost_template, relative) {
                Err(e) => Err(e),
                Ok(full) => Ok(
                    RecordView {
                        source_path: relative,
                        kind,
                        metadata: Some(full),
                        raw_contents: Some(body),
                        url: None,
                        output_path: None,
                        absolute_output_path: None,
                        rendered_contents: None,
                        exclude_from_sitemap: m.exclude_from_sitemap,
                    },
                ),
            },
        },
    }
}

/// The record of a content file, given what its header parsed to.
pub fn record_from_header(
    config: &Config,
    kind: Kind,
    relative: String,
    header: Option<Datum>,
    body: String,
) -> (r: Result<Record, SiteError>)
    ensures
        match r {
            Ok(record) => record_of_header(
                config@,
                kind,
                relative@,
                match header {
                    Some(h) => Some(h@),
                    None => None,
                },
                body@,
            ) == Ok::<RecordView, SiteErrorView>(record@),
            Err(e) => record_of_header(
                config@,
                kind,
                relative@,
                match header {
                    Some(h) => Some(h@),
                    None => None,
                },
                body@,
            ) == Err::<RecordView, SiteErrorView>(e@),
        },
{
    let parsed = match &header {
        Some(h) => DynamicContentMetadata::from_datum(h),
        None => None,
    };
    let metadata = match parsed {
        Some(m) => m,
        None => {
            return Err(SiteError::new(ErrorKind::MalformedMetadata, relative.as_str()));
        },
    };
    let exclude_from_sitemap = metadata.exclude_from_sitemap;
    let full = match enrich(kind, metadata, config.blogpost_template.as_str(), relative.as_str()) {
        Ok(full) => full,
        Err(e) => {
            return Err(e);
        },
    };
    Ok(
        Record {
            source_path: relative,
            kind,
            metadata: Some(full),
            raw_contents: Some(body),
            url: None,
            output_path: None,
            absolute_output_path: None,
            rendered_contents: None,
            exclude_from_sitemap,
        },
    )
}

/// The record of the content file at `path` with the text `text`: the text
/// must be framed as header and body, and the header is read as one JSON
/// document.
pub open spec fn dynamic_record(config: ConfigView, kind: Kind, path: Seq<char>, text: Seq<char>) -> Result<
    RecordView,
    SiteErrorView,
> {
    match relative_to(path, config.source_dir) {
        None => Err(failure(ErrorKind::SourceOutsideBase, path)),
        Some(relative) => if !starts_with(text, opening()) {
            Err(failure(ErrorKind::MissingOpeningMarker, relative))
        } else if forall|j: int| !matches_at(text, terminator(), j) {
            Err(failure(ErrorKind::MissingTerminator, relative))
        } else {
            let end = choose|i: int| first_occurrence(text, terminator(), i);
            record_of_header(
                config,
                kind,
                relative,
                json_document(text.take(end + 2)),
                text.skip(end + 4),
            )
        },
    }
}

/// A content file that is no blog post and whose record is made comes
/// back whole: its text is framed as a header and a body, the record holds
/// the body and the metadata that the header describes, neither more nor
/// less, and header, empty line and body put together give the text again.
pub proof fn lemma_loaded_page(config: ConfigView, kind: Kind, path: Seq<char>, text: Seq<char>)
    requires
        kind != Kind::BlogPost,
        dynamic_record(config, kind, path, text) is Ok,
    ensures
        ({
            let r = dynamic_record(config, kind, path, text)->Ok_0;
            exists|header: Seq<char>, body: Seq<char>|
                {
                    &&& framed(text, header, body)
                    &&& header + seq!['\n', '\n'] + body == text
                    &&& r.raw_contents == Some(body)
                    &&& json_document(header) is Some
                    &&& r.metadata == metadata_of_datum(json_document(header)->Some_0)
                    &&& r.metadata is Some
                    &&& r.kind == kind
                }
        }),
{
    let end = choose|i: int| first_occurrence(text, terminator(), i);
    assert(exists|j: int| matches_at(text, terminator(), j));
    let j = choose|j: int| matches_at(text, terminator(), j);
    lemma_first_occurrence(text, terminator(), j);
    let header = text.take(end + 2);
    let body = text.skip(end + 4);
    assert(framed(text, header, body));
    crate::metadata::lemma_frame_round_trip(text, header, body);
}

/// Where a pattern occurs, it occurs somewhere first.
pub proof fn lemma_first_occurrence(s: Seq<char>, pat: Seq<char>, i: int)
    requires
        matches_at(s, pat, i),
    ensures
        exists|k: int| first_occurrence(s, pat, k),
    decreases i,
{
    if exists|j: int| 0 <= j < i && matches_at(s, pat, j) {
        let j = choose|j: int| 0 <= j < i && matches_at(s, pat, j);
        lemma_first_occurrence(s, pat, j);
    } else {
        assert(first_occurrence(s, pat, i));
    }
}

/// The record of one content file.
pub fn load_dynamic_content(config: &Config, kind: Kind, path: &str, text: &str) -> (r: Result<
    Record,
    SiteError,
>)
    ensures
        match r {
            Ok(record) => dynamic_record(config@, kind, path@, text@) == Ok::<
                RecordView,
                SiteErrorView,
            >(record@),
            Err(e) => dynamic_record(config@, kind, path@, text@) == Err::<RecordView, SiteErrorView>(
                e@,
            ),
        },
{
    let relative = match make_relative(path, config.source_dir.as_str()) {
        Some(relative) => relative,
        None => {
            return Err(SiteError::new(ErrorKind::SourceOutsideBase, path));
        },
    };
    let (header, body) = match split_frontmatter(text) {
        Ok(parts) => parts,
        Err(kind) => {
            return Err(SiteError::new(kind, relative.as_str()));
        },
    };
    proof {
        let i = choose|i: int|
            first_occurrence(text@, terminator(), i) && header@ == text@.take(i + 2) && body@
                == text@.skip(i + 4);
        let end = choose|i: int| first_occurrence(text@, terminator(), i);
        assert(first_occurrence(text@, terminator(), end));
        if i < end {
            assert(!matches_at(text@, terminator(), i));
        }
        if end < i {
            assert(!matches_at(text@, terminator(), end));
        }
        assert(matches_at(text@, terminator(), i));
    }
    let parsed = match parse_json(header.as_str()) {
        Ok(value) => Some(value),
        Err(_) => None,
    };
    record_from_header(config, kind, relative, parsed, body)
}

/// A content file as read: its kind, its path and its text.
#[derive(Debug, PartialEq, Eq)]
pub struct SourceFile {
    pub kind: Kind,
    pub path: String,
    pub text: String,
}

/// A content file as specifications see it.
pub ghost struct SourceFileView {
    pub kind: Kind,
    pub path: Seq<char>,
    pub text: Seq<char>,
}

impl View for SourceFile {
    type V = SourceFileView;

    open spec fn view(&self) -> SourceFileView {
        SourceFileView { kind: self.kind, path: self.path@, text: self.text@ }
    }
}

/// The records of the content files `files`, in their order; the first
/// file that is not well formed fails the stage.
pub fn dynamic_content_source_loader(config: &Config, files: &Vec<SourceFile>) -> (r: Result<
    Vec<Record>,
    SiteError,
>)
    ensures
        match r {
            Ok(records) => all_done(
                views(files@),
                views(records@),
                |f: SourceFileView| dynamic_record(config@, f.kind, f.path, f.text),
            ),
            Err(e) => first_failure(
                views(files@),
                e@,
                |f: SourceFileView| dynamic_record(config@, f.kind, f.path, f.text),
            ),
        },
{
    let ghost step = |f: SourceFileView| dynamic_record(config@, f.kind, f.path, f.text);
    let mut records: Vec<Record> = Vec::new();
    let mut i: usize = 0;
    while i < files.len()
        invariant
            i <= files.len(),
            records.len() == i,
            step == |f: SourceFileView| dynamic_record(config@, f.kind, f.path, f.text),
            forall|j: int| 0 <= j < i ==> step(files[j]@) == Ok::<RecordView, SiteErrorView>(records[j]@),
        decreases files.len() - i,
    {
        match load_dynamic_content(
            config,
            files[i].kind,
            files[i].path.as_str(),
            files[i].text.as_str(),
        ) {
            Ok(record) => {
                records.push(record);
            },
            Err(e) => {
                proof {
                    assert(views(files@)[i as int] == files[i as int]@);
                    assert forall|j: int| 0 <= j < i implies step(#[trigger] views(files@)[j]) is Ok by {
                        assert(step(files[j]@) is Ok);
                    }
                }
                return Err(e);
            },
        }
        i = i + 1;
    }
    proof {
        assert forall|j: int| 0 <= j < files.len() implies step(#[trigger] views(files@)[j]) == Ok::<
            RecordView,
            SiteErrorView,
        >(views(records@)[j]) by {
            assert(step(files[j]@) == Ok::<RecordView, SiteErrorView>(records[j]@));
        }
    }
    Ok(records)
}

/// The failure of a content file that lies in its content, if it has one:
/// such a file could be left out, and the run could go on without it.
pub open spec fn content_failure(config: ConfigView, f: SourceFileView) -> Option<SiteErrorView> {
    match dynamic_record(config, f.kind, f.path, f.text) {
        Err(e) => if class_of(e.kind) == ErrorClass::Content {
            Some(e)
        } else {
            None
        },
        Ok(_) => None,
    }
}

/// The content failures of all the files `files`, in their order: a report
/// of every file that is invalid, where a run would stop at the first.
pub fn content_errors(config: &Config, files: &Vec<SourceFile>) -> (out: Vec<SiteError>)
    ensures
        views(out@) == views(files@).filter_map(|f: SourceFileView| content_failure(config@, f)),
{
    let ghost all = views(files@);
    let ghost pick = |f: SourceFileView| content_failure(config@, f);
    let mut out: Vec<SiteError> = Vec::new();
    let mut i: usize = 0;
    proof {
        assert(all.take(0) =~= Seq::empty());
        assert(views(out@) =~= all.take(0).filter_map(pick));
    }
    while i < files.len()
        invariant
            i <= files.len(),
            all == views(files@),
            pick == |f: SourceFileView| content_failure(config@, f),
            views(out@) == all.take(i as int).filter_map(pick),
        decreases files.len() - i,
    {
        proof {
            all.lemma_filter_map_take_succ(pick, i as int);
            assert(all[i as int] == files[i as int]@);
        }
        let ghost before = views(out@);
        match load_dynamic_content(
            config,
            files[i].kind,
            files[i].path.as_str(),
            files[i].text.as_str(),
        ) {
            Err(e) => {
                match e.kind.class() {
                    ErrorClass::Content => {
                        out.push(e);
                        assert(views(out@) =~= before + seq![pick(all[i as int])->Some_0]);
                    },
                    _ => {},
                }
            },
            Ok(_) => {},
        }
        i = i + 1;
    }
    proof {
        assert(all.take(files.len() as int) =~= all);
    }
    out
}

} // verus!
