//! One run: the stages in their order, from the sources as read to the
//! records that are ready to be written.

use crate::blog::{blogpost_indexer, index_of, tag_counts, BlogpostIndex, BlogpostIndexView};
use crate::config::{Config, ConfigView, Kind};
use crate::error::{failure, SiteError, SiteErrorView};
use crate::json::json_document;
use crate::load::{
    dynamic_content_source_loader, dynamic_record, static_content_source_loader, static_record,
    SourceFile, SourceFileView,
};
use crate::metadata::{
    lemma_enriched_post, metadata_of_datum, optional_text, required_text, terminator,
};
use crate::navbar::{candidates, navbar_indexer, navbar_of, Navbar, NavbarView};
use crate::output::{
    map_urls_to_relative_paths, path_absoluter, with_absolute_path, with_output_path,
};
use crate::paths::relative_to;
use crate::record::{Record, RecordView};
use crate::render::{
    answer_of, dynamic_content_generator, first_state, render_obstacle, start_rendering, step_view,
    stepped, Progress, ProgressView, Rendering, RenderingView,
};
use crate::resolve::{generate_urls, with_url};
use crate::seqs::{lemma_try_map_done, lemma_try_map_failure, lemma_try_map_ok, try_map, views};
use crate::sitemap::{
    expanded, expansions, lemma_sitemap_exclusion, listed, sitemap_entries, sitemap_indexer,
    tag_names, tag_page_generator, tag_templates, urls_of, Sitemap, SitemapView,
};
use crate::sort::{by_text, lemma_sorted_by_contains, sorted_by};
use crate::text::first_occurrence;
use vstd::prelude::*;

verus! {

/// What a run knows before it renders: the records with their URLs and
/// output paths, and the aggregates.
pub ghost struct PlanView {
    pub records: Seq<RecordView>,
    pub navbar: NavbarView,
    pub index: BlogpostIndexView,
    pub sitemap: SitemapView,
}

/// The records of the load stage: those of the static assets, then those
/// of the content files.
pub open spec fn loaded(config: ConfigView, paths: Seq<Seq<char>>, files: Seq<SourceFileView>) -> Result<
    Seq<RecordView>,
    SiteErrorView,
> {
    match try_map(paths, |p: Seq<char>| static_record(config, p)) {
        Err(e) => Err(e),
        Ok(assets) => match try_map(
            files,
            |f: SourceFileView| dynamic_record(config, f.kind, f.path, f.text),
        ) {
            Err(e) => Err(e),
            Ok(pages) => Ok(assets + pages),
        },
    }
}

/// The plan of a run, stage by stage: load, resolve the URLs, build the
/// navigation bar, the index of posts and the sitemap, make the tag pages
/// and list them, and give every record with a URL its output path. The
/// first failure of a stage is the failure of the plan.
pub open spec fn planned(config: ConfigView, paths: Seq<Seq<char>>, files: Seq<SourceFileView>) -> Result<
    PlanView,
    SiteErrorView,
> {
    match loaded(config, paths, files) {
        Err(e) => Err(e),
        Ok(sources) => match try_map(sources, |r: RecordView| with_url(config, r)) {
            Err(e) => Err(e),
            Ok(resolved) => match navbar_of(candidates(resolved)) {
                Err(e) => Err(e),
                Ok(navbar) => match index_of(resolved) {
                    Err(e) => Err(e),
                    Ok(index) => match try_map(
                        expansions(tag_templates(resolved), tag_names(tag_counts(index.entries))),
                        |job: (RecordView, Seq<char>)| expanded(config, job),
                    ) {
                        Err(e) => Err(e),
                        Ok(made) => Ok(
                            PlanView {
                                records: (resolved + made).map_values(
                                    |r: RecordView| with_output_path(r),
                                ),
                                navbar,
                                index,
                                sitemap: SitemapView {
                                    entries: sorted_by(
                                        sitemap_entries(resolved) + urls_of(made),
                                        by_text(),
                                    ),
                                },
                            },
                        ),
                    },
                },
            },
        },
    }
}

/// Every entry of the sitemap of a plan is the URL of one of its records
/// that is not kept out of the sitemap.
pub proof fn lemma_plan_sitemap(
    config: ConfigView,
    paths: Seq<Seq<char>>,
    files: Seq<SourceFileView>,
    url: Seq<char>,
)
    requires
        planned(config, paths, files) is Ok,
        planned(config, paths, files)->Ok_0.sitemap.entries.contains(url),
    ensures
        exists|i: int|
            0 <= i < planned(config, paths, files)->Ok_0.records.len() && listed(
                #[trigger] planned(config, paths, files)->Ok_0.records[i],
            ) == Some(url),
{
    let plan = planned(config, paths, files)->Ok_0;
    let sources = loaded(config, paths, files)->Ok_0;
    let resolved = try_map(sources, |r: RecordView| with_url(config, r))->Ok_0;
    let index = index_of(resolved)->Ok_0;
    let jobs = expansions(tag_templates(resolved), tag_names(tag_counts(index.entries)));
    let step = |job: (RecordView, Seq<char>)| expanded(config, job);
    let made = try_map(jobs, step)->Ok_0;
    let all = sitemap_entries(resolved) + urls_of(made);
    lemma_sorted_by_contains(all, by_text(), url);
    let k = choose|k: int| 0 <= k < all.len() && all[k] == url;
    if k < sitemap_entries(resolved).len() {
        assert(sitemap_entries(resolved)[k] == url);
        assert(sitemap_entries(resolved).contains(url));
        lemma_sitemap_exclusion(resolved, url);
        let i = choose|i: int| 0 <= i < resolved.len() && listed(#[trigger] resolved[i]) == Some(url);
        assert(plan.records[i] == with_output_path(resolved[i]));
        assert(listed(plan.records[i]) == Some(url));
    } else {
        let j = k - sitemap_entries(resolved).len();
        lemma_try_map_ok(jobs, step);
        assert(step(jobs[j]) == Ok::<RecordView, SiteErrorView>(made[j]));
        assert(urls_of(made)[j] == made[j].url->Some_0.url);
        assert(plan.records[resolved.len() + j] == with_output_path(made[j]));
        assert(listed(plan.records[resolved.len() + j]) == Some(url));
    }
}

/// In a plan every record with a URL has its output path; the URL of
/// every record but a static asset holds no opening brace; and the bag of
/// every blog post holds the texts `slug`, `date`, `year`, `month` and `day`.
pub proof fn lemma_plan_records(
    config: ConfigView,
    paths: Seq<Seq<char>>,
    files: Seq<SourceFileView>,
    i: int,
)
    requires
        planned(config, paths, files) is Ok,
        0 <= i < planned(config, paths, files)->Ok_0.records.len(),
    ensures
        ({
            let r = planned(config, paths, files)->Ok_0.records[i];
            &&& r.url is Some ==> r.output_path is Some
            &&& r.url is Some && r.kind != Kind::StaticAsset ==> !r.url->Some_0.url.contains('{')
            &&& r.kind == Kind::BlogPost && r.metadata is Some ==> {
                &&& required_text(r.metadata->Some_0.stuff, "slug"@) is Some
                &&& required_text(r.metadata->Some_0.stuff, "date"@) is Some
                &&& required_text(r.metadata->Some_0.stuff, "year"@) is Some
                &&& required_text(r.metadata->Some_0.stuff, "month"@) is Some
                &&& required_text(r.metadata->Some_0.stuff, "day"@) is Some
            }
        }),
{
    let plan = planned(config, paths, files)->Ok_0;
    let load_asset = |p: Seq<char>| static_record(config, p);
    let load_page = |f: SourceFileView| dynamic_record(config, f.kind, f.path, f.text);
    let resolve = |r: RecordView| with_url(config, r);
    let assets = try_map(paths, load_asset)->Ok_0;
    let pages = try_map(files, load_page)->Ok_0;
    let sources = assets + pages;
    let resolved = try_map(sources, resolve)->Ok_0;
    let index = index_of(resolved)->Ok_0;
    let jobs = expansions(tag_templates(resolved), tag_names(tag_counts(index.entries)));
    let step = |job: (RecordView, Seq<char>)| expanded(config, job);
    let made = try_map(jobs, step)->Ok_0;
    lemma_try_map_ok(paths, load_asset);
    lemma_try_map_ok(files, load_page);
    lemma_try_map_ok(sources, resolve);
    lemma_try_map_ok(jobs, step);
    if i < resolved.len() {
        assert(plan.records[i] == with_output_path(resolved[i]));
        assert(resolve(sources[i]) == Ok::<RecordView, SiteErrorView>(resolved[i]));
        if i < assets.len() {
            assert(sources[i] == assets[i]);
            assert(load_asset(paths[i]) == Ok::<RecordView, SiteErrorView>(assets[i]));
        } else {
            let j = i - assets.len();
            assert(sources[i] == pages[j]);
            assert(load_page(files[j]) == Ok::<RecordView, SiteErrorView>(pages[j]));
            if pages[j].kind == Kind::BlogPost {
                let f = files[j];
                let relative = relative_to(f.path, config.source_dir)->Some_0;
                let end = choose|k: int| first_occurrence(f.text, terminator(), k);
                let header = json_document(f.text.take(end + 2));
                let m = metadata_of_datum(header->Some_0)->Some_0;
                lemma_enriched_post(m, config.blogpost_template, relative);
            }
        }
    } else {
        let j = i - resolved.len();
        assert(plan.records[i] == with_output_path(made[j]));
        assert(step(jobs[j]) == Ok::<RecordView, SiteErrorView>(made[j]));
        crate::sitemap::lemma_expansions_members(
            tag_templates(resolved),
            tag_names(tag_counts(index.entries)),
            j,
        );
        crate::sitemap::lemma_tag_templates(resolved, jobs[j].0);
    }
}

/// What a run knows before it renders.
#[derive(Debug, PartialEq, Eq)]
pub struct Plan {
    pub records: Vec<Record>,
    pub navbar: Navbar,
    pub index: BlogpostIndex,
    pub sitemap: Sitemap,
}

impl View for Plan {
    type V = PlanView;

    open spec fn view(&self) -> PlanView {
        PlanView {
            records: views(self.records@),
            navbar: self.navbar@,
            index: self.index@,
            sitemap: self.sitemap@,
        }
    }
}

/// Runs the stages before rendering on the sources as read: the paths of
/// the static assets and the content files.
pub fn plan(config: &Config, static_paths: &Vec<String>, files: &Vec<SourceFile>) -> (r: Result<
    Plan,
    SiteError,
>)
    ensures
        match r {
            Ok(plan) => planned(config@, views(static_paths@), views(files@)) == Ok::<
                PlanView,
                SiteErrorView,
            >(plan@),
            Err(e) => planned(config@, views(static_paths@), views(files@)) == Err::<
                PlanView,
                SiteErrorView,
            >(e@),
        },
{
    let ghost load_asset = |p: Seq<char>| static_record(config@, p);
    let ghost load_page = |f: SourceFileView| dynamic_record(config@, f.kind, f.path, f.text);
    let ghost resolve = |r: RecordView| with_url(config@, r);
    let ghost expand = |job: (RecordView, Seq<char>)| expanded(config@, job);
    let mut records = match static_content_source_loader(config, static_paths) {
        Ok(records) => {
            proof {
                lemma_try_map_done(views(static_paths@), views(records@), load_asset);
            }
            records
        },
        Err(e) => {
            proof {
                lemma_try_map_failure(views(static_paths@), e@, load_asset);
            }
            return Err(e);
        },
    };
    let mut pages = match dynamic_content_source_loader(config, files) {
        Ok(pages) => {
            proof {
                lemma_try_map_done(views(files@), views(pages@), load_page);
            }
            pages
        },
        Err(e) => {
            proof {
                lemma_try_map_failure(views(files@), e@, load_page);
            }
            return Err(e);
        },
    };
    let ghost assets = views(records@);
    let ghost read = views(pages@);
    records.append(&mut pages);
    let ghost sources = views(records@);
    proof {
        assert(sources =~= assets + read);
        assert(loaded(config@, views(static_paths@), views(files@)) == Ok::<
            Seq<RecordView>,
            SiteErrorView,
        >(sources));
    }
    let records = match generate_urls(config, records) {
        Ok(records) => {
            proof {
                lemma_try_map_done(sources, views(records@), resolve);
            }
            records
        },
        Err(e) => {
            proof {
                lemma_try_map_failure(sources, e@, resolve);
            }
            return Err(e);
        },
    };
    let ghost resolved = views(records@);
    let navbar = match navbar_indexer(&records) {
        Ok(navbar) => navbar,
        Err(e) => {
            return Err(e);
        },
    };
    let index = match blogpost_indexer(&records) {
        Ok(index) => index,
        Err(e) => {
            return Err(e);
        },
    };
    let sitemap = sitemap_indexer(&records);
    let ghost jobs = expansions(tag_templates(resolved), tag_names(tag_counts(index@.entries)));
    let ghost before = records.len();
    let (records, sitemap) = match tag_page_generator(config, &index, sitemap, records) {
        Ok(parts) => {
            proof {
                lemma_try_map_done(jobs, views(parts.0@).skip(before as int), expand);
            }
            parts
        },
        Err(e) => {
            proof {
                lemma_try_map_failure(jobs, e@, expand);
            }
            return Err(e);
        },
    };
    let ghost made = views(records@).skip(before as int);
    proof {
        assert(views(records@) =~= resolved + made);
    }
    let records = map_urls_to_relative_paths(records);
    Ok(Plan { records, navbar, index, sitemap })
}

/// The stage's request once the run has seen it: records that are
/// finished have the places of their output.
pub open spec fn placed(config: ConfigView, p: ProgressView) -> ProgressView {
    match p {
        ProgressView::Finished(records) => ProgressView::Finished(
            records.map_values(|r: RecordView| with_absolute_path(config, r)),
        ),
        ProgressView::Render(state, job) => ProgressView::Render(state, job),
    }
}

/// One step of the run while it renders: a step of the render stage, and
/// behind the last page the places of the output.
pub open spec fn finish_step(config: ConfigView, s: RenderingView, answer: Option<Option<Seq<char>>>) -> Result<
    ProgressView,
    SiteErrorView,
> {
    match stepped(config, s, answer) {
        Ok(p) => Ok(placed(config, p)),
        Err(e) => Err(e),
    }
}

/// The first step of the run behind its plan: it fails where the archives
/// fail or the blog-post template has no source, and else makes the first
/// step of the render stage. `catalog` holds the names of the templates
/// that the engine holds.
pub open spec fn started(
    config: ConfigView,
    plan: PlanView,
    catalog: Seq<Seq<char>>,
    blog_template: Option<Seq<char>>,
) -> Result<ProgressView, SiteErrorView> {
    match render_obstacle(config, plan.index.entries, blog_template) {
        Some(obstacle) => Err(obstacle),
        None => finish_step(
            config,
            first_state(
                plan.records,
                plan.navbar,
                plan.index.entries,
                plan.sitemap,
                catalog,
                blog_template,
            ),
            None,
        ),
    }
}

/// One step of a run that renders, from the state of the render stage and
/// the engine's answer for the page that was asked for: the next page to
/// render, the failure of the run, or the finished records, each with the
/// place of its output.
pub fn finish(
    config: &Config,
    state: Rendering,
    outcome: Option<Result<String, tera::Error>>,
) -> (r: Result<Progress, SiteError>)
    ensures
        step_view(r) == finish_step(config@, state@, answer_of(outcome)),
{
    match dynamic_content_generator(config, state, outcome) {
        Ok(Progress::Finished(records)) => Ok(Progress::Finished(path_absoluter(config, records))),
        Ok(Progress::Render(state, job)) => Ok(Progress::Render(state, job)),
        Err(e) => Err(e),
    }
}

/// The first step of a run behind its plan. `catalog` holds the names of
/// the templates that the engine holds, `blogpost_template_contents` the
/// source of the blog-post template.
pub fn start(
    config: &Config,
    plan: Plan,
    catalog: Vec<String>,
    blogpost_template_contents: &Option<String>,
) -> (r: Result<Progress, SiteError>)
    ensures
        step_view(r) == started(
            config@,
            plan@,
            views(catalog@),
            optional_text(*blogpost_template_contents),
        ),
{
    let state = match start_rendering(
        config,
        plan.navbar,
        &plan.index,
        &plan.sitemap,
        catalog,
        blogpost_template_contents,
        plan.records,
    ) {
        Ok(state) => state,
        Err(e) => {
            return Err(e);
        },
    };
    finish(config, state, None)
}

/// One run, from the sources as read to its first request: the stages
/// before rendering, and the first step of the render stage. What comes
/// back is the first page for the engine to render, or, where there is no
/// page, the finished records. The run goes on with `finish` for each
/// answer of the engine. Nothing is written: the finished records say what
/// is to be written where, and a run that fails hands back no record at all.
pub fn run(
    config: &Config,
    static_paths: &Vec<String>,
    files: &Vec<SourceFile>,
    catalog: Vec<String>,
    blogpost_template_contents: &Option<String>,
) -> (r: Result<Progress, SiteError>)
    ensures
        match planned(config@, views(static_paths@), views(files@)) {
            Err(e) => step_view(r) == Err::<ProgressView, SiteErrorView>(e),
            Ok(plan) => step_view(r) == started(
                config@,
                plan,
                views(catalog@),
                optional_text(*blogpost_template_contents),
            ),
        },
{
    match plan(config, static_paths, files) {
        Ok(made) => start(config, made, catalog, blogpost_template_contents),
        Err(e) => Err(e),
    }
}

} // verus!
