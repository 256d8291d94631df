//! The render stage: for each page its context and its template, the
//! conversion of markdown, and the steps that lead from one answer of the
//! templating engine to the next page. The engine itself is called by
//! whoever runs the steps.

use crate::blog::{archives_of, tag_counts, ArchiveMonthView, BlogpostIndex};
use crate::config::{Config, ConfigView, Kind};
use crate::error::{failure, ErrorKind, SiteError, SiteErrorView};
use crate::json::{duplicate_entries, entries_view, serde_form, BagView, Datum, DatumView};
use crate::metadata::optional_text;
use crate::navbar::{marked, Navbar, NavbarEntryView, NavbarView};
use crate::record::{is_page, Record, RecordView};
use crate::seqs::{holds_text, views};
use crate::sitemap::{Sitemap, SitemapView};
use crate::text::{from_chars, replace_all, replace_all_exec, to_chars};
use crate::values::{
    archives_datum, archives_value, counts_datum, counts_value, navbar_datum, navbar_value,
    sitemap_datum, sitemap_value,
};
use vstd::prelude::*;

verus! {

/// `tera::Context`, known by what it holds.
#[verifier::external_type_specification]
#[verifier::external_body]
pub struct ExTeraContext(tera::Context);

/// `tera::Error`, carried through without a look inside.
#[verifier::external_type_specification]
#[verifier::external_body]
pub struct ExTeraError(tera::Error);

/// What a `tera::Context` holds: a value under each of its keys.
pub uninterp spec fn context_data(context: tera::Context) -> Map<Seq<char>, serde_json::Value>;

/// The contents of a context that holds nothing.
pub open spec fn empty_context() -> Map<Seq<char>, serde_json::Value> {
    Map::empty()
}

/// The HTML that `pulldown_cmark` makes of a markdown text, with no
/// extension switched on.
pub uninterp spec fn markdown_html(text: Seq<char>) -> Seq<char>;

/// `tera::Context::new` gives a context that holds nothing.
pub assume_specification[ tera::Context::new ]() -> (context: tera::Context)
    ensures
        context_data(context) == empty_context(),
;

/// Stores a value in a context through `tera::Context::insert`, which puts
/// the form that `serde_json` has for it under the key, in place of what
/// was there.
#[verifier::external_body]
fn context_insert(context: &mut tera::Context, key: &str, value: &Datum)
    ensures
        context_data(*final(context)) == context_data(*old(context)).insert(
            key@,
            serde_form(value@),
        ),
{
    context.insert(key, &crate::json::to_serde(value))
}

/// Converts markdown to HTML: `pulldown_cmark::Parser::new_ext` without
/// options reads the text, and `pulldown_cmark::html::push_html` writes the
/// HTML of what it read.
#[verifier::external_body]
fn markdown_to_html(text: &str) -> (html: String)
    ensures
        html@ == markdown_html(text@),
{
    let parser = pulldown_cmark::Parser::new_ext(text, pulldown_cmark::Options::empty());
    let mut html = String::new();
    pulldown_cmark::html::push_html(&mut html, parser);
    html
}

/// The aggregates of a run that every page's context holds, as values.
#[derive(Debug, PartialEq, Eq)]
pub struct SiteData {
    pub tags_and_counts: Datum,
    pub blog_archives: Datum,
    pub sitemap: Datum,
}

/// The aggregates as specifications see them.
pub ghost struct SiteDataView {
    pub tags_and_counts: DatumView,
    pub blog_archives: DatumView,
    pub sitemap: DatumView,
}

impl View for SiteData {
    type V = SiteDataView;

    open spec fn view(&self) -> SiteDataView {
        SiteDataView {
            tags_and_counts: self.tags_and_counts@,
            blog_archives: self.blog_archives@,
            sitemap: self.sitemap@,
        }
    }
}

/// The template of a page.
#[derive(Debug, PartialEq, Eq)]
pub enum TemplateSource {
    /// A text that is rendered as a template.
    Inline(String),
    /// A template that the engine holds under this name.
    Named(String),
}

/// The template of a page as specifications see it.
pub ghost enum TemplateView {
    Inline(Seq<char>),
    Named(Seq<char>),
}

impl View for TemplateSource {
    type V = TemplateView;

    open spec fn view(&self) -> TemplateView {
        match self {
            TemplateSource::Inline(t) => TemplateView::Inline(t@),
            TemplateSource::Named(n) => TemplateView::Named(n@),
        }
    }
}

/// What is handed to the templating engine for one page.
#[derive(Debug, PartialEq, Eq)]
pub struct RenderJob {
    /// The entries of the context, in the order in which they are stored.
    pub context: Vec<(String, Datum)>,
    pub template: TemplateSource,
}

/// The place in the blog-post template where the post's HTML goes.
pub open spec fn content_token() -> Seq<char> {
    "{{ content | safe }}"@
}

/// The template of the page `r`, given the HTML of its body. A blog post
/// with a template is rendered by the text of the blog-post template with
/// the HTML put in place of the content token; any other page by the
/// template it names, or by its own body where it names none.
pub open spec fn chosen_template(blog_template: Seq<char>, r: RecordView, html: Seq<char>) -> TemplateView {
    match r.metadata->Some_0.template {
        Some(name) => if r.kind == Kind::BlogPost {
            TemplateView::Inline(replace_all(blog_template, content_token(), html))
        } else {
            TemplateView::Named(name)
        },
        None => TemplateView::Inline(r.raw_contents->Some_0),
    }
}

/// The title that a page shares: its `og_title`, or its title where that
/// is empty.
pub open spec fn shared_title(og_title: Seq<char>, title: Seq<char>) -> Seq<char> {
    if og_title.len() > 0 {
        og_title
    } else {
        title
    }
}

/// The entries of the context of the page `r`, in the order in which they
/// are stored: the site's name and the page's title, the page's bag, the
/// navigation bar marked for the page, the HTML of a markdown body, the
/// site's aggregates, the page's URLs and what it shares.
pub open spec fn page_context(
    config: ConfigView,
    navbar: NavbarView,
    site: SiteDataView,
    r: RecordView,
    html: Seq<char>,
) -> BagView {
    let m = r.metadata->Some_0;
    let u = r.url->Some_0;
    let bar = NavbarView { entries: navbar.entries.map_values(|e: NavbarEntryView| marked(e, u.url)) };
    seq![("sitename"@, DatumView::Text(config.sitename)), ("title"@, DatumView::Text(m.title))]
        + m.stuff + seq![("navbar"@, navbar_value(bar))] + (if m.markdown {
        seq![("content"@, DatumView::Text(html))]
    } else {
        Seq::empty()
    }) + seq![
        ("blog_tags_and_counts"@, site.tags_and_counts),
        ("blog_archives"@, site.blog_archives),
        ("sitemap"@, site.sitemap),
        ("url_for_this"@, DatumView::Text(u.url)),
        ("og_url"@, DatumView::Text(u.absolute)),
        ("og_type"@, DatumView::Text(m.og_type)),
        ("og_title"@, DatumView::Text(shared_title(m.og_title, m.title))),
        ("og_description"@, DatumView::Text(m.og_description)),
    ]
}

/// The HTML of the body of the page `r`: that of a markdown body, and
/// nothing for any other.
pub open spec fn html_of(r: RecordView) -> Seq<char> {
    if r.metadata->Some_0.markdown {
        markdown_html(r.raw_contents->Some_0)
    } else {
        Seq::empty()
    }
}

/// What a context holds once the entries of `bag` are stored in it in
/// their order: under each key the value of its last entry, in the form
/// that `serde_json` has for it.
pub open spec fn stored(bag: BagView) -> Map<Seq<char>, serde_json::Value>
    decreases bag.len(),
{
    if bag.len() == 0 {
        Map::empty()
    } else {
        stored(bag.drop_last()).insert(bag.last().0, serde_form(bag.last().1))
    }
}

fn entry(key: &str, value: Datum) -> (out: (String, Datum))
    ensures
        out.0@ == key@,
        out.1@ == value@,
{
    (key.to_owned(), value)
}

fn text_entry(key: &str, value: &String) -> (out: (String, Datum))
    ensures
        out.0@ == key@,
        out.1@ == DatumView::Text(value@),
{
    (key.to_owned(), Datum::Text(value.clone()))
}

/// What is handed to the templating engine for the record `record`, given
/// the HTML `html` of its body: its context and its template where it is a
/// page, and nothing where it is none.
pub fn render_job(
    config: &Config,
    navbar: &Navbar,
    site: &SiteData,
    blog_template: &str,
    record: &Record,
    html: &str,
) -> (r: Option<RenderJob>)
    ensures
        match r {
            Some(job) => {
                &&& is_page(record@)
                &&& entries_view(job.context@) == page_context(
                    config@,
                    navbar@,
                    site@,
                    record@,
                    html@,
                )
                &&& job.template@ == chosen_template(blog_template@, record@, html@)
            },
            None => !is_page(record@),
        },
{
    if record.is_static_asset() {
        return None;
    }
    let (m, body, u) = match (&record.metadata, &record.raw_contents, &record.url) {
        (Some(m), Some(body), Some(u)) => (m, body, u),
        _ => {
            return None;
        },
    };
    let mut context: Vec<(String, Datum)> = Vec::new();
    context.push(text_entry("sitename", &config.sitename));
    context.push(text_entry("title", &m.title));
    assert(entries_view(context@) =~= seq![
        ("sitename"@, DatumView::Text(config@.sitename)),
        ("title"@, DatumView::Text(m@.title)),
    ]);
    let mut stuff = duplicate_entries(&m.stuff);
    let ghost head = entries_view(context@);
    let ghost bag = entries_view(stuff@);
    context.append(&mut stuff);
    assert(entries_view(context@) =~= head + bag);
    let bar = navbar.for_(u.url.as_str());
    let ghost so_far = entries_view(context@);
    context.push(entry("navbar", navbar_datum(&bar)));
    assert(entries_view(context@) =~= so_far + seq![("navbar"@, navbar_value(bar@))]);
    let ghost so_far = entries_view(context@);
    if m.markdown {
        context.push(entry("content", Datum::Text(html.to_owned())));
        assert(entries_view(context@) =~= so_far + seq![("content"@, DatumView::Text(html@))]);
    } else {
        assert(entries_view(context@) =~= so_far + Seq::<(Seq<char>, DatumView)>::empty());
    }
    let ghost so_far = entries_view(context@);
    context.push(entry("blog_tags_and_counts", site.tags_and_counts.duplicate()));
    context.push(entry("blog_archives", site.blog_archives.duplicate()));
    context.push(entry("sitemap", site.sitemap.duplicate()));
    context.push(text_entry("url_for_this", &u.url));
    context.push(text_entry("og_url", &u.absolute));
    context.push(text_entry("og_type", &m.og_type));
    if m.og_title.as_str().unicode_len() > 0 {
        context.push(text_entry("og_title", &m.og_title));
    } else {
        context.push(text_entry("og_title", &m.title));
    }
    context.push(text_entry("og_description", &m.og_description));
    assert(entries_view(context@) =~= so_far + seq![
        ("blog_tags_and_counts"@, site@.tags_and_counts),
        ("blog_archives"@, site@.blog_archives),
        ("sitemap"@, site@.sitemap),
        ("url_for_this"@, DatumView::Text(u@.url)),
        ("og_url"@, DatumView::Text(u@.absolute)),
        ("og_type"@, DatumView::Text(m@.og_type)),
        ("og_title"@, DatumView::Text(shared_title(m@.og_title, m@.title))),
        ("og_description"@, DatumView::Text(m@.og_description)),
    ]);
    let template = match &m.template {
        Some(name) => match record.kind {
            Kind::BlogPost => {
                let source = to_chars(blog_template);
                let token = to_chars("{{ content | safe }}");
                let inner = to_chars(html);
                TemplateSource::Inline(from_chars(&replace_all_exec(&source, &token, &inner)))
            },
            _ => TemplateSource::Named(name.clone()),
        },
        None => TemplateSource::Inline(body.clone()),
    };
    Some(RenderJob { context, template })
}

/// What is handed to the templating engine for the record `record`, whose
/// body is converted to HTML where it is markdown: its context and its
/// template where it is a page, and nothing where it is none.
pub fn prepare(
    config: &Config,
    navbar: &Navbar,
    site: &SiteData,
    blog_template: &str,
    record: &Record,
) -> (r: Option<RenderJob>)
    ensures
        match r {
            Some(job) => {
                &&& is_page(record@)
                &&& entries_view(job.context@) == page_context(
                    config@,
                    navbar@,
                    site@,
                    record@,
                    html_of(record@),
                )
                &&& job.template@ == chosen_template(blog_template@, record@, html_of(record@))
            },
            None => !is_page(record@),
        },
{
    let markdown = match &record.metadata {
        Some(m) => m.markdown,
        None => false,
    };
    let html = if markdown {
        match &record.raw_contents {
            Some(body) => markdown_to_html(body.as_str()),
            None => String::new(),
        }
    } else {
        String::new()
    };
    render_job(config, navbar, site, blog_template, record, html.as_str())
}

/// A context that holds the entries `entries`, stored in their order.
pub fn context_of(entries: &Vec<(String, Datum)>) -> (context: tera::Context)
    ensures
        context_data(context) == stored(entries_view(entries@)),
{
    let ghost bag = entries_view(entries@);
    let mut context = tera::Context::new();
    let mut i: usize = 0;
    proof {
        assert(bag.take(0) =~= Seq::empty());
    }
    while i < entries.len()
        invariant
            i <= entries.len(),
            bag == entries_view(entries@),
            context_data(context) == stored(bag.take(i as int)),
        decreases entries.len() - i,
    {
        proof {
            assert(bag.take(i + 1).drop_last() =~= bag.take(i as int));
            assert(bag.take(i + 1).last() == (entries[i as int].0@, entries[i as int].1@));
        }
        context_insert(&mut context, entries[i].0.as_str(), &entries[i].1);
        i = i + 1;
    }
    proof {
        assert(bag.take(entries.len() as int) =~= bag);
    }
    context
}

/// The record with the text to write.
pub open spec fn rendered_as(r: RecordView, text: Seq<char>) -> RecordView {
    RecordView { rendered_contents: Some(text), ..r }
}

/// What the engine's answer for the page at `url` means to the run: the
/// rendered text, or a template failure at that URL.
pub fn rendered_text(url: &str, outcome: Result<String, tera::Error>) -> (r: Result<
    String,
    SiteError,
>)
    ensures
        match outcome {
            Ok(text) => r == Ok::<String, SiteError>(text),
            Err(_) => r matches Err(e) && e@ == failure(ErrorKind::Template, url@),
        },
{
    match outcome {
        Ok(text) => Ok(text),
        Err(_) => Err(SiteError::new(ErrorKind::Template, url)),
    }
}

/// The aggregates of a run as values, or the failure of the archives.
pub fn site_data(index: &BlogpostIndex, sitemap: &Sitemap) -> (r: Result<SiteData, SiteError>)
    ensures
        match r {
            Ok(site) => {
                &&& archives_of(index@.entries) is Ok
                &&& site@.tags_and_counts == counts_value(tag_counts(index@.entries))
                &&& site@.blog_archives == archives_value(archives_of(index@.entries)->Ok_0)
                &&& site@.sitemap == sitemap_value(sitemap@)
            },
            Err(e) => archives_of(index@.entries) == Err::<Seq<ArchiveMonthView>, SiteErrorView>(
                e@,
            ),
        },
{
    let counts = index.tags_and_counts();
    let months = match index.archives() {
        Ok(months) => months,
        Err(e) => {
            return Err(e);
        },
    };
    Ok(
        SiteData {
            tags_and_counts: counts_datum(&counts),
            blog_archives: archives_datum(&months),
            sitemap: sitemap_datum(sitemap),
        },
    )
}


/// Why the render stage cannot start: the archives fail, or the blog-post
/// template has no source.
pub open spec fn render_obstacle(
    config: ConfigView,
    index: Seq<crate::blog::EntryView>,
    blog_template: Option<Seq<char>>,
) -> Option<SiteErrorView> {
    match archives_of(index) {
        Err(e) => Some(e),
        Ok(_) => match blog_template {
            None => Some(failure(ErrorKind::MissingBlogpostTemplate, config.blogpost_template)),
            Some(_) => None,
        },
    }
}

/// What is handed to the engine, as specifications see it.
pub ghost struct JobView {
    pub context: BagView,
    pub template: TemplateView,
}

impl View for RenderJob {
    type V = JobView;

    open spec fn view(&self) -> JobView {
        JobView { context: entries_view(self.context@), template: self.template@ }
    }
}

/// The render stage between two calls of the engine: the records, the
/// place of the page whose answer is awaited, and what every page's
/// context and template are made from.
#[derive(Debug, PartialEq, Eq)]
pub struct Rendering {
    pub records: Vec<Record>,
    /// The place of the page that was handed to the engine last.
    pub at: usize,
    pub navbar: Navbar,
    pub site: SiteData,
    /// The source of the blog-post template.
    pub blog_template: String,
    /// The names of the templates that the engine holds.
    pub catalog: Vec<String>,
}

/// The render stage as specifications see it.
pub ghost struct RenderingView {
    pub records: Seq<RecordView>,
    pub at: int,
    pub navbar: NavbarView,
    pub site: SiteDataView,
    pub blog_template: Seq<char>,
    pub catalog: Seq<Seq<char>>,
}

impl View for Rendering {
    type V = RenderingView;

    open spec fn view(&self) -> RenderingView {
        RenderingView {
            records: views(self.records@),
            at: self.at as int,
            navbar: self.navbar@,
            site: self.site@,
            blog_template: self.blog_template@,
            catalog: views(self.catalog@),
        }
    }
}

/// What the stage asks for next: the engine's answer for one page, or
/// nothing more.
#[derive(Debug, PartialEq, Eq)]
pub enum Progress {
    /// The engine is to render this job, for the page at the stage's place.
    Render(Rendering, RenderJob),
    /// Every page is rendered: these are the records.
    Finished(Vec<Record>),
}

/// The stage's request as specifications see it.
pub ghost enum ProgressView {
    Render(RenderingView, JobView),
    Finished(Seq<RecordView>),
}

impl View for Progress {
    type V = ProgressView;

    open spec fn view(&self) -> ProgressView {
        match self {
            Progress::Render(state, job) => ProgressView::Render(state@, job@),
            Progress::Finished(records) => ProgressView::Finished(views(records@)),
        }
    }
}

/// What a step of the stage gives, as specifications see it.
pub open spec fn step_view(r: Result<Progress, SiteError>) -> Result<ProgressView, SiteErrorView> {
    match r {
        Ok(p) => Ok(p@),
        Err(e) => Err(e@),
    }
}

/// What the engine answered, as far as the stage looks at it: the text, or
/// that it failed.
pub open spec fn answer_of(outcome: Option<Result<String, tera::Error>>) -> Option<
    Option<Seq<char>>,
> {
    match outcome {
        Some(Ok(text)) => Some(Some(text@)),
        Some(Err(_)) => Some(None),
        None => None,
    }
}

/// The aggregates of the index `index` and the sitemap `sitemap` as
/// values, where the archives do not fail.
pub open spec fn site_of(index: Seq<crate::blog::EntryView>, sitemap: SitemapView) -> SiteDataView {
    SiteDataView {
        tags_and_counts: counts_value(tag_counts(index)),
        blog_archives: archives_value(archives_of(index)->Ok_0),
        sitemap: sitemap_value(sitemap),
    }
}

/// The template that the page `r` names and the engine does not hold. A
/// blog post names none: it is rendered by the source of its template.
pub open spec fn missing_template(catalog: Seq<Seq<char>>, r: RecordView) -> Option<Seq<char>> {
    match r.metadata->Some_0.template {
        Some(name) => if r.kind != Kind::BlogPost && !catalog.contains(name) {
            Some(name)
        } else {
            None
        },
        None => None,
    }
}

/// What is handed to the engine for the page `r`.
pub open spec fn job_of(config: ConfigView, s: RenderingView, r: RecordView) -> JobView {
    JobView {
        context: page_context(config, s.navbar, s.site, r, html_of(r)),
        template: chosen_template(s.blog_template, r, html_of(r)),
    }
}

/// The place of the first page among `records` from `from` on, or their
/// number where there is none.
pub open spec fn next_page(records: Seq<RecordView>, from: int) -> int
    decreases records.len() - from,
{
    if from < 0 || from >= records.len() {
        records.len() as int
    } else if is_page(records[from]) {
        from
    } else {
        next_page(records, from + 1)
    }
}

/// The stage goes on from the place `from`: it is finished where no page
/// is left, it fails where the next page names a template that the engine
/// does not hold, and else it asks for the engine's answer for that page.
pub open spec fn advanced(config: ConfigView, s: RenderingView, from: int) -> Result<
    ProgressView,
    SiteErrorView,
> {
    let j = next_page(s.records, from);
    if j >= s.records.len() {
        Ok(ProgressView::Finished(s.records))
    } else {
        match missing_template(s.catalog, s.records[j]) {
            Some(name) => Err(failure(ErrorKind::UnknownTemplate, name)),
            None => Ok(
                ProgressView::Render(RenderingView { at: j, ..s }, job_of(config, s, s.records[j])),
            ),
        }
    }
}

/// One step of the stage. With the engine's answer for the page at the
/// stage's place, the text is stored with that page and the stage goes on
/// behind it, or the stage fails as the engine did. Without an answer, or at
/// a place that holds no page, the stage goes on from its place.
pub open spec fn stepped(config: ConfigView, s: RenderingView, answer: Option<Option<Seq<char>>>) -> Result<
    ProgressView,
    SiteErrorView,
> {
    if answer is Some && 0 <= s.at < s.records.len() && is_page(s.records[s.at]) {
        match answer->Some_0 {
            None => Err(failure(ErrorKind::Template, s.records[s.at].url->Some_0.url)),
            Some(text) => advanced(
                config,
                RenderingView {
                    records: s.records.update(s.at, rendered_as(s.records[s.at], text)),
                    ..s
                },
                s.at + 1,
            ),
        }
    } else {
        advanced(config, s, s.at)
    }
}

/// The next page is the first page from the place on: no record before it
/// is a page.
pub proof fn lemma_next_page(records: Seq<RecordView>, from: int)
    requires
        0 <= from <= records.len(),
    ensures
        from <= next_page(records, from) <= records.len(),
        forall|k: int| from <= k < next_page(records, from) ==> !is_page(#[trigger] records[k]),
        next_page(records, from) < records.len() ==> is_page(records[next_page(records, from)]),
    decreases records.len() - from,
{
    if from < records.len() && !is_page(records[from]) {
        lemma_next_page(records, from + 1);
    }
}

/// Of the records `given` to the stage, `records` are what the stage has
/// made of them once the first `n` are through it: a page among those holds
/// a rendered text and is else as it was given, and every other record is
/// as it was given.
pub open spec fn through(given: Seq<RecordView>, records: Seq<RecordView>, n: int) -> bool {
    &&& records.len() == given.len()
    &&& forall|i: int|
        0 <= i < given.len() ==> if i < n && is_page(given[i]) {
            (#[trigger] records[i]).rendered_contents is Some && records[i] == rendered_as(
                given[i],
                records[i].rendered_contents->Some_0,
            )
        } else {
            records[i] == given[i]
        }
}

/// What a step does to a stage whose records before its place are through
/// it. Where it asks for a page, that page is the next page as it was
/// given, the job is the job of that page, and the records before it are
/// through the stage. Where it is finished, all records are through the
/// stage: every page holds a rendered text, and nothing else has changed.
/// Where it fails, the engine failed for the page at the place, or the
/// next page names a template that the engine does not hold.
pub proof fn lemma_step(
    config: ConfigView,
    given: Seq<RecordView>,
    s: RenderingView,
    answer: Option<Option<Seq<char>>>,
)
    requires
        0 <= s.at,
        through(given, s.records, s.at),
    ensures
        match stepped(config, s, answer) {
            Ok(ProgressView::Render(next, job)) => {
                &&& s.at <= next.at < given.len()
                &&& is_page(given[next.at])
                &&& next.records[next.at] == given[next.at]
                &&& through(given, next.records, next.at)
                &&& job == job_of(config, s, given[next.at])
                &&& missing_template(s.catalog, given[next.at]) is None
                &&& next == RenderingView { records: next.records, at: next.at, ..s }
            },
            Ok(ProgressView::Finished(records)) => through(given, records, given.len() as int),
            Err(e) => {
                ||| {
                    &&& answer == Some(None::<Seq<char>>)
                    &&& s.at < given.len()
                    &&& is_page(given[s.at])
                    &&& e == failure(ErrorKind::Template, given[s.at].url->Some_0.url)
                }
                ||| exists|j: int|
                    s.at <= j < given.len() && is_page(#[trigger] given[j]) && missing_template(
                        s.catalog,
                        given[j],
                    ) == Some(e.subject) && e.kind == ErrorKind::UnknownTemplate
            },
        },
{
    if s.at < s.records.len() {
        assert(s.records[s.at] == given[s.at]);
    }
    if answer is Some && s.at < s.records.len() && is_page(s.records[s.at]) {
        if answer->Some_0 is Some {
            let text = answer->Some_0->Some_0;
            let records = s.records.update(s.at, rendered_as(s.records[s.at], text));
            let t = RenderingView { records, ..s };
            let from = s.at + 1;
            lemma_next_page(records, from);
            let j = next_page(records, from);
            assert forall|i: int| 0 <= i < given.len() implies if i < j && is_page(given[i]) {
                (#[trigger] records[i]).rendered_contents is Some && records[i] == rendered_as(
                    given[i],
                    records[i].rendered_contents->Some_0,
                )
            } else {
                records[i] == given[i]
            } by {
                assert(s.records[i] == s.records[i]);
                if i < s.at {
                } else if i == s.at {
                } else {
                    assert(records[i] == s.records[i]);
                    if i < j {
                        assert(!is_page(records[i]));
                    }
                }
            }
            assert(through(given, records, j));
            if j < records.len() {
                assert(records[j] == given[j]);
            }
        }
    } else {
        let from = s.at;
        if from <= s.records.len() {
            lemma_next_page(s.records, from);
        }
        let j = next_page(s.records, from);
        assert forall|i: int| 0 <= i < given.len() implies if i < j && is_page(given[i]) {
            (#[trigger] s.records[i]).rendered_contents is Some && s.records[i] == rendered_as(
                given[i],
                s.records[i].rendered_contents->Some_0,
            )
        } else {
            s.records[i] == given[i]
        } by {
            if s.at <= i < j {
                assert(!is_page(s.records[i]));
            }
        }
        if j < s.records.len() {
            assert(s.records[j] == given[j]);
        }
    }
}

/// The stage before its first step, where nothing stands in its way.
pub open spec fn first_state(
    records: Seq<RecordView>,
    navbar: NavbarView,
    index: Seq<crate::blog::EntryView>,
    sitemap: SitemapView,
    catalog: Seq<Seq<char>>,
    blog_template: Option<Seq<char>>,
) -> RenderingView {
    RenderingView {
        records,
        at: 0,
        navbar,
        site: site_of(index, sitemap),
        blog_template: blog_template->Some_0,
        catalog,
    }
}

/// Sets the render stage up. It fails where the archives fail or the
/// blog-post template has no source.
pub fn start_rendering(
    config: &Config,
    navbar: Navbar,
    blogindex: &BlogpostIndex,
    sitemap: &Sitemap,
    catalog: Vec<String>,
    blogpost_template_contents: &Option<String>,
    records: Vec<Record>,
) -> (r: Result<Rendering, SiteError>)
    ensures
        match render_obstacle(
            config@,
            blogindex@.entries,
            optional_text(*blogpost_template_contents),
        ) {
            Some(obstacle) => r matches Err(e) && e@ == obstacle,
            None => r matches Ok(state) && state@ == first_state(
                views(records@),
                navbar@,
                blogindex@.entries,
                sitemap@,
                views(catalog@),
                optional_text(*blogpost_template_contents),
            ),
        },
{
    let site = match site_data(blogindex, sitemap) {
        Ok(site) => site,
        Err(e) => {
            return Err(e);
        },
    };
    let blog_template = match blogpost_template_contents {
        Some(text) => text.clone(),
        None => {
            return Err(
                SiteError::new(ErrorKind::MissingBlogpostTemplate, config.blogpost_template.as_str()),
            );
        },
    };
    Ok(Rendering { records, at: 0, navbar, site, blog_template, catalog })
}

/// The stage goes on from the place `from`.
fn advance(config: &Config, state: Rendering, from: usize) -> (r: Result<Progress, SiteError>)
    ensures
        step_view(r) == advanced(config@, state@, from as int),
{
    let ghost s = state@;
    let mut state = state;
    if from >= state.records.len() {
        return Ok(Progress::Finished(state.records));
    }
    let mut j: usize = from;
    while j < state.records.len() && !state.records[j].is_page()
        invariant
            from <= j <= state.records.len(),
            state@ == s,
            next_page(s.records, from as int) == next_page(s.records, j as int),
        decreases state.records.len() - j,
    {
        assert(s.records[j as int] == state.records[j as int]@);
        j = j + 1;
    }
    if j >= state.records.len() {
        return Ok(Progress::Finished(state.records));
    }
    assert(s.records[j as int] == state.records[j as int]@);
    let missing: Option<String> = match &state.records[j].metadata {
        Some(m) => match (&m.template, state.records[j].kind) {
            (Some(_), Kind::BlogPost) => None,
            (Some(name), _) => if holds_text(&state.catalog, name) {
                None
            } else {
                Some(name.clone())
            },
            (None, _) => None,
        },
        None => None,
    };
    match missing {
        Some(name) => {
            return Err(SiteError::new(ErrorKind::UnknownTemplate, name.as_str()));
        },
        None => {},
    }
    let job = match prepare(
        config,
        &state.navbar,
        &state.site,
        state.blog_template.as_str(),
        &state.records[j],
    ) {
        Some(job) => job,
        None => unreached(),
    };
    state.at = j;
    Ok(Progress::Render(state, job))
}

/// One step of the render stage, from its state and the engine's answer to
/// its next state and what it asks of the engine. The first step takes no
/// answer; each later step takes the answer for the job that the step
/// before asked for. The stage itself never calls the engine.
pub fn dynamic_content_generator(
    config: &Config,
    state: Rendering,
    outcome: Option<Result<String, tera::Error>>,
) -> (r: Result<Progress, SiteError>)
    ensures
        step_view(r) == stepped(config@, state@, answer_of(outcome)),
{
    let ghost s = state@;
    let mut state = state;
    let at = state.at;
    let awaited = at < state.records.len() && state.records[at].is_page();
    if awaited {
        assert(s.records[at as int] == state.records[at as int]@);
        match outcome {
            Some(answer) => {
                let url = match &state.records[at].url {
                    Some(u) => u.url.clone(),
                    None => unreached(),
                };
                match rendered_text(url.as_str(), answer) {
                    Ok(text) => {
                        let mut records = state.records;
                        records[at].rendered_contents = Some(text);
                        assert(views(records@) =~= s.records.update(
                            at as int,
                            rendered_as(s.records[at as int], text@),
                        ));
                        let next = Rendering {
                            records,
                            at: state.at,
                            navbar: state.navbar,
                            site: state.site,
                            blog_template: state.blog_template,
                            catalog: state.catalog,
                        };
                        return advance(config, next, at + 1);
                    },
                    Err(e) => {
                        return Err(e);
                    },
                }
            },
            None => {},
        }
    }
    advance(config, state, at)
}

} // verus!
