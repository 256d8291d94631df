//! The site's configuration and the loaders it asks for.

use crate::json::{first_index, has_key, lemma_first_index, lookup};
use crate::text::str_eq;
use vstd::prelude::*;

verus! {

/// What the files of one source pattern are.
#[derive(Clone, Copy, Debug, PartialEq, Eq, Structural)]
pub enum SourceType {
    /// Copied to the same path below the output directory.
    StaticContent,
    /// A template for the templating engine.
    Template,
    /// A page of its own.
    DynamicContentSinglePage,
    /// A blog post.
    DynamicContentBlogPost,
    /// The template of the pages that list a tag's posts.
    DynamicContentBlogpostTagPage,
    /// The template of the archive pages.
    DynamicContentBlogpostArchivePage,
    /// The template of the feed.
    DynamicContentBlogpostRssPage,
    /// The template of the sitemap page.
    DynamicContentSitemap,
}

/// The kind of a content record, fixed when the record is made.
#[derive(Clone, Copy, Debug, PartialEq, Eq, Structural)]
pub enum Kind {
    StaticAsset,
    SinglePage,
    BlogPost,
    TagPageTemplate,
    ArchivePageTemplate,
    RssTemplate,
    SitemapTemplate,
}

/// What a loader does with the files it finds.
#[derive(Clone, Copy, Debug, PartialEq, Eq, Structural)]
pub enum LoaderTarget {
    /// Copy them.
    StaticContent,
    /// Hand them to the templating engine.
    Template,
    /// Read them as content of the given kind.
    DynamicContent(Kind),
}

/// A request to load the files that match a pattern.
#[derive(Debug, PartialEq, Eq)]
pub struct SourceLoader {
    pub glob: String,
    pub target: LoaderTarget,
}

/// The configuration of one site, as loaded.
#[derive(Debug, PartialEq, Eq)]
pub struct Config {
    pub source_dir: String,
    pub output_dir: String,
    pub sitename: String,
    /// Source patterns with what their files are.
    pub sources: Vec<(String, SourceType)>,
    /// Route names with their URL templates.
    pub routes: Vec<(String, String)>,
    pub blogpost_template: String,
    pub site_url: String,
}

/// A configuration as specifications see it.
pub ghost struct ConfigView {
    pub source_dir: Seq<char>,
    pub output_dir: Seq<char>,
    pub sitename: Seq<char>,
    pub sources: Seq<(Seq<char>, SourceType)>,
    pub routes: Seq<(Seq<char>, Seq<char>)>,
    pub blogpost_template: Seq<char>,
    pub site_url: Seq<char>,
}

impl View for Config {
    type V = ConfigView;

    open spec fn view(&self) -> ConfigView {
        ConfigView {
            source_dir: self.source_dir@,
            output_dir: self.output_dir@,
            sitename: self.sitename@,
            sources: Seq::new(self.sources.len() as nat, |i: int| (self.sources[i].0@, self.sources[i].1)),
            routes: Seq::new(self.routes.len() as nat, |i: int| (self.routes[i].0@, self.routes[i].1@)),
            blogpost_template: self.blogpost_template@,
            site_url: self.site_url@,
        }
    }
}

/// What a loader does with sources of the given type.
pub open spec fn target_of(source: SourceType) -> LoaderTarget {
    match source {
        SourceType::StaticContent => LoaderTarget::StaticContent,
        SourceType::Template => LoaderTarget::Template,
        SourceType::DynamicContentSinglePage => LoaderTarget::DynamicContent(Kind::SinglePage),
        SourceType::DynamicContentBlogPost => LoaderTarget::DynamicContent(Kind::BlogPost),
        SourceType::DynamicContentBlogpostTagPage => LoaderTarget::DynamicContent(
            Kind::TagPageTemplate,
        ),
        SourceType::DynamicContentBlogpostArchivePage => LoaderTarget::DynamicContent(
            Kind::ArchivePageTemplate,
        ),
        SourceType::DynamicContentBlogpostRssPage => LoaderTarget::DynamicContent(Kind::RssTemplate),
        SourceType::DynamicContentSitemap => LoaderTarget::DynamicContent(Kind::SitemapTemplate),
    }
}

/// One loader for each source pattern of the configuration, in their order.
pub fn create_source_loaders(config: &Config) -> (out: Vec<SourceLoader>)
    ensures
        out.len() == config@.sources.len(),
        forall|i: int|
            0 <= i < out.len() ==> (#[trigger] out[i]).glob@ == config@.sources[i].0
                && out[i].target == target_of(config@.sources[i].1),
{
    let mut out: Vec<SourceLoader> = Vec::new();
    let mut i: usize = 0;
    while i < config.sources.len()
        invariant
            i <= config.sources.len(),
            out.len() == i,
            forall|j: int|
                0 <= j < i ==> (#[trigger] out[j]).glob@ == config@.sources[j].0 && out[j].target
                    == target_of(config@.sources[j].1),
        decreases config.sources.len() - i,
    {
        let target = match config.sources[i].1 {
            SourceType::StaticContent => LoaderTarget::StaticContent,
            SourceType::Template => LoaderTarget::Template,
            SourceType::DynamicContentSinglePage => LoaderTarget::DynamicContent(Kind::SinglePage),
            SourceType::DynamicContentBlogPost => LoaderTarget::DynamicContent(Kind::BlogPost),
            SourceType::DynamicContentBlogpostTagPage => LoaderTarget::DynamicContent(
                Kind::TagPageTemplate,
            ),
            SourceType::DynamicContentBlogpostArchivePage => LoaderTarget::DynamicContent(
                Kind::ArchivePageTemplate,
            ),
            SourceType::DynamicContentBlogpostRssPage => LoaderTarget::DynamicContent(
                Kind::RssTemplate,
            ),
            SourceType::DynamicContentSitemap => LoaderTarget::DynamicContent(
                Kind::SitemapTemplate,
            ),
        };
        out.push(SourceLoader { glob: config.sources[i].0.clone(), target });
        i = i + 1;
    }
    out
}

/// The URL template that the route table holds for `route`.
pub fn route_template<'a>(config: &'a Config, route: &str) -> (r: Option<&'a String>)
    ensures
        match r {
            Some(t) => lookup(config@.routes, route@) == Some(t@),
            None => lookup(config@.routes, route@) is None,
        },
{
    let mut i: usize = 0;
    while i < config.routes.len()
        invariant
            i <= config.routes.len(),
            forall|j: int| 0 <= j < i ==> (#[trigger] config@.routes[j]).0 != route@,
        decreases config.routes.len() - i,
    {
        if str_eq(config.routes[i].0.as_str(), route) {
            proof {
                assert(config@.routes[i as int].0 == route@);
                assert(first_index(config@.routes, route@, i as int));
                lemma_first_index(config@.routes, route@, i as int);
            }
            return Some(&config.routes[i].1);
        }
        assert(config@.routes[i as int].0 != route@);
        i = i + 1;
    }
    assert(!has_key(config@.routes, route@));
    None
}

} // verus!
