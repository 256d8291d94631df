use suji::blog::{BlogpostIndex, BlogpostIndexEntry};
use suji::config::{Config, Kind};
use suji::error::{ErrorKind, SiteError};
use suji::json::{get, Datum};
use suji::load::SourceFile;
use suji::metadata::DynamicContentMetadata;
use suji::navbar::{Navbar, NavbarEntry};
use suji::pipeline::{finish, plan, start};
use suji::record::Record;
use suji::render::{
    context_of, dynamic_content_generator, prepare, render_job, rendered_text, site_data,
    start_rendering, Progress, RenderJob, SiteData, TemplateSource,
};
use suji::sitemap::Sitemap;
use suji::url::URL;
use suji::values::{counts_datum, navbar_datum, sitemap_datum};

fn t(s: &str) -> Datum {
    Datum::Text(s.to_string())
}

fn bag(entries: Vec<(&str, Datum)>) -> Vec<(String, Datum)> {
    entries.into_iter().map(|(k, v)| (k.to_string(), v)).collect()
}

fn config() -> Config {
    Config {
        source_dir: "/site/src".to_string(),
        output_dir: "/site/out".to_string(),
        sitename: "Site".to_string(),
        sources: vec![],
        routes: vec![
            ("home".to_string(), "/".to_string()),
            ("about".to_string(), "/about".to_string()),
            ("post".to_string(), "/blog/{year}/{slug}".to_string()),
            ("tag".to_string(), "/tags/{tag}".to_string()),
            ("feed".to_string(), "/feed.xml".to_string()),
            ("broken".to_string(), "/x/{missing}".to_string()),
        ],
        blogpost_template: "post.html".to_string(),
        site_url: "https://example.org".to_string(),
    }
}

fn templates() -> tera::Tera {
    let mut engine = tera::Tera::default();
    engine.add_raw_template("page.html", "<title>{{ title }} - {{ sitename }}</title>{{ content | safe }}")
        .unwrap();
    engine.add_raw_template("post.html", "unused").unwrap();
    engine.add_raw_template("tag.html", "tag {{ tag }} at {{ url_for_this | safe }}").unwrap();
    engine
}

fn engine_render(engine: &mut tera::Tera, job: &RenderJob) -> Result<String, tera::Error> {
    let context = context_of(&job.context);
    match &job.template {
        TemplateSource::Inline(text) => engine.render_str(text, &context),
        TemplateSource::Named(name) => engine.render(name, &context),
    }
}

fn catalog(engine: &tera::Tera) -> Vec<String> {
    let mut names: Vec<String> = engine.get_template_names().map(|n| n.to_string()).collect();
    names.sort();
    names
}

fn generate(
    config: &Config,
    navbar: Navbar,
    index: &BlogpostIndex,
    sitemap: &Sitemap,
    engine: &mut tera::Tera,
    blog_template: &Option<String>,
    records: Vec<Record>,
) -> Result<Vec<Record>, SiteError> {
    let state = start_rendering(config, navbar, index, sitemap, catalog(engine), blog_template, records)?;
    let mut progress = dynamic_content_generator(config, state, None)?;
    loop {
        match progress {
            Progress::Finished(records) => return Ok(records),
            Progress::Render(state, job) => {
                let outcome = engine_render(engine, &job);
                progress = dynamic_content_generator(config, state, Some(outcome))?;
            }
        }
    }
}

fn drive(config: &Config, engine: &mut tera::Tera, first: Progress) -> Result<Vec<Record>, SiteError> {
    let mut progress = first;
    loop {
        match progress {
            Progress::Finished(records) => return Ok(records),
            Progress::Render(state, job) => {
                let outcome = engine_render(engine, &job);
                progress = finish(config, state, Some(outcome))?;
            }
        }
    }
}

fn run_all(
    config: &Config,
    statics: &Vec<String>,
    files: &Vec<SourceFile>,
    engine: &mut tera::Tera,
    blog_template: &Option<String>,
) -> Result<Vec<Record>, SiteError> {
    let first = suji::pipeline::run(config, statics, files, catalog(engine), blog_template)?;
    drive(config, engine, first)
}

fn blog_template() -> Option<String> {
    Some("<article>{{ content | safe }}</article><h1>{{ title }}</h1>".to_string())
}

fn site() -> SiteData {
    SiteData {
        tags_and_counts: counts_datum(&vec![("rust".to_string(), 2)]),
        blog_archives: Datum::Mapping(bag(vec![("entries", Datum::List(vec![]))])),
        sitemap: sitemap_datum(&Sitemap { entries: vec!["/".to_string(), "/about".to_string()] }),
    }
}

fn navbar() -> Navbar {
    Navbar {
        entries: vec![
            NavbarEntry { url: "/".to_string(), title: "Home".to_string(), active: false, children: vec![] },
            NavbarEntry {
                url: "/about".to_string(),
                title: "About".to_string(),
                active: false,
                children: vec![],
            },
        ],
    }
}

fn page(kind: Kind, url: &str, title: &str, template: Option<&str>, markdown: bool, body: &str) -> Record {
    Record {
        source_path: "x.md".to_string(),
        kind,
        metadata: Some(DynamicContentMetadata {
            route: "about".to_string(),
            title: title.to_string(),
            template: template.map(|s| s.to_string()),
            navbar: None,
            markdown,
            stuff: bag(vec![("custom", Datum::Integer(5)), ("title", t("from the bag"))]),
            og_title: String::new(),
            og_type: "website".to_string(),
            og_description: "d".to_string(),
            exclude_from_sitemap: false,
        }),
        raw_contents: Some(body.to_string()),
        url: Some(URL { url: url.to_string(), absolute: format!("https://example.org{}", url) }),
        output_path: None,
        absolute_output_path: None,
        rendered_contents: None,
        exclude_from_sitemap: false,
    }
}

#[test]
fn context_entries_in_order() {
    let r = page(Kind::SinglePage, "/about", "About", Some("page.html"), true, "# Hi");
    let job = render_job(&config(), &navbar(), &site(), "unused", &r, "<h1>Hi</h1>\n").unwrap();
    let keys: Vec<&str> = job.context.iter().map(|e| e.0.as_str()).collect();
    assert_eq!(
        keys,
        vec![
            "sitename",
            "title",
            "custom",
            "title",
            "navbar",
            "content",
            "blog_tags_and_counts",
            "blog_archives",
            "sitemap",
            "url_for_this",
            "og_url",
            "og_type",
            "og_title",
            "og_description",
        ]
    );
    assert_eq!(job.context[0].1, t("Site"));
    assert_eq!(job.context[1].1, t("About"));
    assert_eq!(job.context[2].1, Datum::Integer(5));
    assert_eq!(job.context[3].1, t("from the bag"));
    assert_eq!(job.context[4].1, navbar_datum(&navbar().for_("/about")));
    assert_eq!(job.context[5].1, t("<h1>Hi</h1>\n"));
    assert_eq!(job.context[6].1, site().tags_and_counts);
    assert_eq!(job.context[7].1, site().blog_archives);
    assert_eq!(job.context[8].1, site().sitemap);
    assert_eq!(job.context[9].1, t("/about"));
    assert_eq!(job.context[10].1, t("https://example.org/about"));
    assert_eq!(job.context[11].1, t("website"));
    assert_eq!(job.context[12].1, t("About"));
    assert_eq!(job.context[13].1, t("d"));
    assert_eq!(job.template, TemplateSource::Named("page.html".to_string()));
}

#[test]
fn context_without_markdown_has_no_content_and_keeps_og_title() {
    let mut r = page(Kind::SinglePage, "/about", "About", None, false, "{{ title }}");
    r.metadata.as_mut().unwrap().og_title = "Shared".to_string();
    let job = render_job(&config(), &navbar(), &site(), "unused", &r, "").unwrap();
    assert_eq!(get(&job.context, "content"), None);
    assert_eq!(get(&job.context, "og_title"), Some(&t("Shared")));
    assert_eq!(job.template, TemplateSource::Inline("{{ title }}".to_string()));
}

#[test]
fn blog_post_template_gets_the_html_in_place_of_the_token() {
    let r = page(Kind::BlogPost, "/blog/a", "A", Some("post.html"), true, "body");
    let job = render_job(
        &config(),
        &navbar(),
        &site(),
        "<a>{{ content | safe }}</a>{{ content | safe }}{{ content }}",
        &r,
        "<p>{{ title }}</p>",
    )
    .unwrap();
    assert_eq!(
        job.template,
        TemplateSource::Inline("<a><p>{{ title }}</p></a><p>{{ title }}</p>{{ content }}".to_string())
    );
}

#[test]
fn navbar_value_shape() {
    let bar = Navbar {
        entries: vec![NavbarEntry {
            url: "/docs".to_string(),
            title: "Docs".to_string(),
            active: true,
            children: vec![NavbarEntry {
                url: "/docs/a".to_string(),
                title: "A".to_string(),
                active: false,
                children: vec![],
            }],
        }],
    };
    let child = Datum::Mapping(bag(vec![
        ("url", t("/docs/a")),
        ("title", t("A")),
        ("active", Datum::Boolean(false)),
        ("children", Datum::List(vec![])),
    ]));
    let parent = Datum::Mapping(bag(vec![
        ("url", t("/docs")),
        ("title", t("Docs")),
        ("active", Datum::Boolean(true)),
        ("children", Datum::List(vec![child])),
    ]));
    assert_eq!(navbar_datum(&bar), Datum::Mapping(bag(vec![("entries", Datum::List(vec![parent]))])));
}

#[test]
fn aggregates_as_values() {
    let index = BlogpostIndex {
        entries: vec![BlogpostIndexEntry {
            url: "/blog/a".to_string(),
            slug: "a".to_string(),
            title: "A".to_string(),
            excerpt: "e".to_string(),
            date: "2024/03/05".to_string(),
            year: "2024".to_string(),
            month: "03".to_string(),
            day: "05".to_string(),
            tags: vec!["rust".to_string()],
            featured: false,
        }],
    };
    let data = site_data(&index, &Sitemap { entries: vec!["/blog/a".to_string()] }).unwrap();
    assert_eq!(
        data.tags_and_counts,
        Datum::Mapping(bag(vec![(
            "entries",
            Datum::List(vec![Datum::List(vec![t("rust"), Datum::Integer(1)])])
        )]))
    );
    assert_eq!(data.sitemap, Datum::Mapping(bag(vec![("entries", Datum::List(vec![t("/blog/a")]))])));
    let post = Datum::Mapping(bag(vec![
        ("url", t("/blog/a")),
        ("slug", t("a")),
        ("title", t("A")),
        ("excerpt", t("e")),
        ("date", t("2024/03/05")),
        ("year", t("2024")),
        ("month", t("03")),
        ("day", t("05")),
        ("tags", Datum::List(vec![t("rust")])),
        ("featured", Datum::Boolean(false)),
    ]));
    assert_eq!(
        data.blog_archives,
        Datum::Mapping(bag(vec![(
            "entries",
            Datum::List(vec![Datum::List(vec![t("2024"), t("March"), Datum::List(vec![post])])])
        )]))
    );
}

#[test]
fn markdown_is_converted() {
    let r = page(Kind::SinglePage, "/about", "About", Some("page.html"), true, "# Hello\n\n*world*");
    let job = prepare(&config(), &navbar(), &site(), "unused", &r).unwrap();
    assert_eq!(get(&job.context, "content"), Some(&t("<h1>Hello</h1>\n<p><em>world</em></p>\n")));
    let r = page(Kind::SinglePage, "/about", "About", Some("page.html"), false, "# Hello");
    let job = prepare(&config(), &navbar(), &site(), "unused", &r).unwrap();
    assert_eq!(get(&job.context, "content"), None);
}

#[test]
fn context_holds_the_last_value_of_a_key() {
    let entries = bag(vec![("a", Datum::Integer(1)), ("b", t("x")), ("a", Datum::Integer(2))]);
    let context = context_of(&entries);
    assert_eq!(context.get("a"), Some(&serde_json::Value::from(2)));
    assert_eq!(context.get("b"), Some(&serde_json::Value::from("x")));
    assert_eq!(context.get("c"), None);
}

#[test]
fn render_inline_and_named() {
    let mut engine = templates();
    let job = RenderJob {
        context: bag(vec![("title", t("T")), ("sitename", t("S")), ("content", t("<b>c</b>"))]),
        template: TemplateSource::Named("page.html".to_string()),
    };
    assert_eq!(engine_render(&mut engine, &job).unwrap(), "<title>T - S</title><b>c</b>");
    let job = RenderJob {
        context: bag(vec![("n", Datum::Integer(3))]),
        template: TemplateSource::Inline("{{ n + 1 }}".to_string()),
    };
    assert_eq!(engine_render(&mut engine, &job).unwrap(), "4");
    let job = RenderJob { context: vec![], template: TemplateSource::Named("missing.html".to_string()) };
    assert!(engine_render(&mut engine, &job).is_err());
    let job = RenderJob { context: vec![], template: TemplateSource::Inline("{% if %}".to_string()) };
    assert!(engine_render(&mut engine, &job).is_err());
}

#[test]
fn rendered_text_maps_failures() {
    assert_eq!(rendered_text("/a", Ok("text".to_string())), Ok("text".to_string()));
    assert_eq!(
        rendered_text("/a", Err(tera::Error::msg("boom"))),
        Err(SiteError { kind: ErrorKind::Template, subject: "/a".to_string() })
    );
}

fn empty_index() -> BlogpostIndex {
    BlogpostIndex { entries: vec![] }
}

#[test]
fn generator_renders_pages_and_leaves_the_rest() {
    let asset = Record {
        source_path: "a.css".to_string(),
        kind: Kind::StaticAsset,
        metadata: None,
        raw_contents: None,
        url: Some(URL { url: "a.css".to_string(), absolute: "x".to_string() }),
        output_path: Some("a.css".to_string()),
        absolute_output_path: None,
        rendered_contents: None,
        exclude_from_sitemap: true,
    };
    let mut unresolved = page(Kind::TagPageTemplate, "/x", "Tag", Some("tag.html"), false, "");
    unresolved.url = None;
    let records = vec![
        asset,
        page(Kind::SinglePage, "/about", "About", Some("page.html"), true, "hello"),
        unresolved,
        page(Kind::SinglePage, "/self", "Self", None, false, "{{ title }}|{{ custom }}|{{ og_title }}|{{ navbar.entries | length }}"),
        page(Kind::BlogPost, "/blog/a", "Post", Some("post.html"), true, "text with {{ sitename }}"),
    ];
    let mut engine = templates();
    let out = generate(
        &config(),
        navbar(),
        &empty_index(),
        &Sitemap { entries: vec![] },
        &mut engine,
        &blog_template(),
        records,
    )
    .unwrap();
    assert_eq!(out.len(), 5);
    assert_eq!(out[0].rendered_contents, None);
    assert_eq!(
        out[1].rendered_contents,
        Some("<title>from the bag - Site</title><p>hello</p>\n".to_string())
    );
    assert_eq!(out[2].rendered_contents, None);
    assert_eq!(out[3].rendered_contents, Some("from the bag|5|Self|2".to_string()));
    assert_eq!(
        out[4].rendered_contents,
        Some("<article><p>text with Site</p>\n</article><h1>from the bag</h1>".to_string())
    );
    assert_eq!(out[1].url.as_ref().unwrap().url, "/about");
    assert_eq!(out[1].raw_contents, Some("hello".to_string()));
}

#[test]
fn generator_fails_without_blog_template() {
    let mut engine = templates();
    let out = generate(
        &config(),
        navbar(),
        &empty_index(),
        &Sitemap { entries: vec![] },
        &mut engine,
        &None,
        vec![],
    );
    assert_eq!(
        out,
        Err(SiteError { kind: ErrorKind::MissingBlogpostTemplate, subject: "post.html".to_string() })
    );
}

#[test]
fn generator_fails_on_invalid_month_before_the_template() {
    let index = BlogpostIndex {
        entries: vec![BlogpostIndexEntry {
            url: "/blog/a".to_string(),
            slug: "a".to_string(),
            title: "A".to_string(),
            excerpt: "e".to_string(),
            date: "2024/00/05".to_string(),
            year: "2024".to_string(),
            month: "00".to_string(),
            day: "05".to_string(),
            tags: vec![],
            featured: false,
        }],
    };
    let mut engine = templates();
    let out = generate(
        &config(),
        navbar(),
        &index,
        &Sitemap { entries: vec![] },
        &mut engine,
        &None,
        vec![],
    );
    assert_eq!(out, Err(SiteError { kind: ErrorKind::InvalidMonth, subject: "00".to_string() }));
}

#[test]
fn generator_fails_at_the_first_page_that_does_not_render() {
    let records = vec![
        page(Kind::SinglePage, "/ok", "Ok", None, false, "fine"),
        page(Kind::SinglePage, "/missing", "M", Some("nothing.html"), false, ""),
        page(Kind::SinglePage, "/syntax", "S", None, false, "{% for %}"),
    ];
    let mut engine = templates();
    let out = generate(
        &config(),
        navbar(),
        &empty_index(),
        &Sitemap { entries: vec![] },
        &mut engine,
        &blog_template(),
        records,
    );
    assert_eq!(out, Err(SiteError { kind: ErrorKind::UnknownTemplate, subject: "nothing.html".to_string() }));
}

fn file(kind: Kind, path: &str, text: &str) -> SourceFile {
    SourceFile { kind, path: path.to_string(), text: text.to_string() }
}

fn sources() -> Vec<SourceFile> {
    vec![
        file(
            Kind::SinglePage,
            "/site/src/index.md",
            "{\n\"route\": \"home\", \"title\": \"Home\", \"navbar\": {\"index\": 0}\n}\n\n{{ title }}: {% for e in sitemap.entries %}{{ e }} {% endfor %}",
        ),
        file(
            Kind::SinglePage,
            "/site/src/about.md",
            "{\n\"route\": \"about\", \"title\": \"About\", \"template\": \"page.html\", \"markdown\": true, \"navbar\": {\"index\": 1}, \"exclude_from_sitemap\": true\n}\n\n*me*",
        ),
        file(
            Kind::BlogPost,
            "/site/src/posts/first-post.md",
            "{\n\"route\": \"post\", \"title\": \"First\", \"date\": \"2024/3/5\", \"excerpt\": \"one\", \"tags\": [\"x\", \"y\"]\n}\n\nHello **world**",
        ),
        file(
            Kind::BlogPost,
            "/site/src/posts/second-post.md",
            "{\n\"route\": \"post\", \"title\": \"Second\", \"date\": \"2024/11/20\", \"excerpt\": \"two\", \"tags\": [\"y\"]\n}\n\nAgain",
        ),
        file(
            Kind::TagPageTemplate,
            "/site/src/tag.md",
            "{\n\"route\": \"tag\", \"title\": \"Tag\", \"template\": \"tag.html\"\n}\n\nunused",
        ),
        file(
            Kind::RssTemplate,
            "/site/src/feed.xml",
            "{\n\"route\": \"feed\", \"title\": \"Feed\", \"exclude_from_sitemap\": true\n}\n\n{% for t in blog_tags_and_counts.entries %}{{ t.0 }}={{ t.1 }};{% endfor %}{% for m in blog_archives.entries %}{{ m.1 }} {{ m.0 }}:{% for p in m.2 %}{{ p.slug }}{% endfor %};{% endfor %}",
        ),
    ]
}

#[test]
fn run_builds_the_site() {
    let mut engine = templates();
    let statics = vec!["/site/src/css/main.css".to_string()];
    let out = run_all(&config(), &statics, &sources(), &mut engine, &blog_template()).unwrap();
    let summary: Vec<(&str, Option<&str>, Option<&str>)> = out
        .iter()
        .map(|r| {
            (
                r.source_path.as_str(),
                r.absolute_output_path.as_deref(),
                r.rendered_contents.as_deref(),
            )
        })
        .collect();
    assert_eq!(
        summary,
        vec![
            ("css/main.css", Some("/site/out/css/main.css"), None),
            (
                "index.md",
                Some("/site/out/index.html"),
                Some("Home: / /blog/2024/first-post /blog/2024/second-post /tags/x /tags/y ")
            ),
            (
                "about.md",
                Some("/site/out/about/index.html"),
                Some("<title>About - Site</title><p><em>me</em></p>\n")
            ),
            (
                "posts/first-post.md",
                Some("/site/out/blog/2024/first-post/index.html"),
                Some("<article><p>Hello <strong>world</strong></p>\n</article><h1>First</h1>")
            ),
            (
                "posts/second-post.md",
                Some("/site/out/blog/2024/second-post/index.html"),
                Some("<article><p>Again</p>\n</article><h1>Second</h1>")
            ),
            ("tag.md", None, None),
            (
                "feed.xml",
                Some("/site/out/feed.xml"),
                Some("y=2;x=1;November 2024:second-post;March 2024:first-post;")
            ),
            ("tag.md", Some("/site/out/tags/y/index.html"), Some("tag y at /tags/y")),
            ("tag.md", Some("/site/out/tags/x/index.html"), Some("tag x at /tags/x")),
        ]
    );
    assert_eq!(out[3].metadata.as_ref().unwrap().og_type, "article");
    assert_eq!(out[0].kind, Kind::StaticAsset);
}

#[test]
fn run_fails_for_blog_post_without_date() {
    let mut files = sources();
    files.push(file(
        Kind::BlogPost,
        "/site/src/posts/undated.md",
        "{\n\"route\": \"post\", \"title\": \"Undated\", \"excerpt\": \"e\"\n}\n\ntext",
    ));
    let mut engine = templates();
    assert_eq!(
        run_all(&config(), &vec![], &files, &mut engine, &blog_template()),
        Err(SiteError { kind: ErrorKind::MissingDate, subject: "posts/undated.md".to_string() })
    );
}

#[test]
fn run_fails_for_route_with_unresolvable_placeholder() {
    let mut files = sources();
    files.push(file(
        Kind::SinglePage,
        "/site/src/broken.md",
        "{\n\"route\": \"broken\", \"title\": \"Broken\"\n}\n\ntext",
    ));
    let mut engine = templates();
    assert_eq!(
        run_all(&config(), &vec![], &files, &mut engine, &blog_template()),
        Err(SiteError { kind: ErrorKind::UnresolvedPlaceholder, subject: "/x/{missing}".to_string() })
    );
}

#[test]
fn run_fails_for_navbar_group_with_two_primaries() {
    let files = vec![
        file(
            Kind::SinglePage,
            "/site/src/a.md",
            "{\n\"route\": \"home\", \"title\": \"A\", \"navbar\": {\"index\": 0, \"group\": \"g\", \"is_primary\": true}\n}\n\nA",
        ),
        file(
            Kind::SinglePage,
            "/site/src/b.md",
            "{\n\"route\": \"about\", \"title\": \"B\", \"navbar\": {\"index\": 1, \"group\": \"g\", \"is_primary\": true}\n}\n\nB",
        ),
    ];
    let mut engine = templates();
    assert_eq!(
        run_all(&config(), &vec![], &files, &mut engine, &blog_template()),
        Err(SiteError { kind: ErrorKind::AmbiguousNavbarPrimary, subject: "g".to_string() })
    );
}

#[test]
fn run_fails_for_unknown_route_and_missing_excerpt() {
    let files = vec![file(
        Kind::SinglePage,
        "/site/src/a.md",
        "{\n\"route\": \"nowhere\", \"title\": \"A\"\n}\n\nA",
    )];
    let mut engine = templates();
    assert_eq!(
        run_all(&config(), &vec![], &files, &mut engine, &blog_template()),
        Err(SiteError { kind: ErrorKind::UnknownRoute, subject: "nowhere".to_string() })
    );
    let files = vec![file(
        Kind::BlogPost,
        "/site/src/p.md",
        "{\n\"route\": \"post\", \"title\": \"P\", \"date\": \"2024/01/02\"\n}\n\nA",
    )];
    assert_eq!(
        run_all(&config(), &vec![], &files, &mut engine, &blog_template()),
        Err(SiteError { kind: ErrorKind::MissingExcerpt, subject: "/blog/2024/p".to_string() })
    );
}

#[test]
fn plan_then_steps_are_a_run() {
    let statics = vec!["/site/src/css/main.css".to_string()];
    let made = plan(&config(), &statics, &sources()).unwrap();
    assert_eq!(made.records.len(), 9);
    assert_eq!(made.sitemap.entries, vec!["/", "/blog/2024/first-post", "/blog/2024/second-post", "/tags/x", "/tags/y"]);
    let dates: Vec<&str> = made.index.entries.iter().map(|e| e.date.as_str()).collect();
    assert_eq!(dates, vec!["2024/11/20", "2024/03/05"]);
    let bar: Vec<&str> = made.navbar.entries.iter().map(|e| e.url.as_str()).collect();
    assert_eq!(bar, vec!["/", "/about"]);
    assert_eq!(made.records[7].output_path, Some("/tags/y/index.html".to_string()));
    let mut engine = templates();
    let first = start(&config(), made, catalog(&engine), &blog_template()).unwrap();
    let out = drive(&config(), &mut engine, first);
    let mut again = templates();
    assert_eq!(out, run_all(&config(), &statics, &sources(), &mut again, &blog_template()));
    assert!(out.is_ok());
}

#[test]
fn steps_ask_for_one_page_after_the_other() {
    let records = vec![
        page(Kind::SinglePage, "/one", "One", None, false, "first"),
        page(Kind::TagPageTemplate, "/skipped", "T", None, false, ""),
        page(Kind::SinglePage, "/two", "Two", Some("page.html"), false, "second"),
    ];
    let mut records = records;
    records[1].url = None;
    let engine = templates();
    let state =
        start_rendering(&config(), navbar(), &empty_index(), &Sitemap { entries: vec![] }, catalog(&engine), &blog_template(), records)
            .unwrap();
    assert_eq!(state.at, 0);
    assert_eq!(state.blog_template, blog_template().unwrap());
    assert_eq!(state.catalog, vec!["page.html", "post.html", "tag.html"]);
    let (state, job) = match dynamic_content_generator(&config(), state, None).unwrap() {
        Progress::Render(state, job) => (state, job),
        Progress::Finished(_) => panic!("finished too early"),
    };
    assert_eq!(state.at, 0);
    assert_eq!(job.template, TemplateSource::Inline("first".to_string()));
    let (state, job) = match dynamic_content_generator(&config(), state, Some(Ok("ONE".to_string()))).unwrap() {
        Progress::Render(state, job) => (state, job),
        Progress::Finished(_) => panic!("finished too early"),
    };
    assert_eq!(state.at, 2);
    assert_eq!(state.records[0].rendered_contents, Some("ONE".to_string()));
    assert_eq!(job.template, TemplateSource::Named("page.html".to_string()));
    assert_eq!(get(&job.context, "url_for_this"), Some(&t("/two")));
    match finish(&config(), state, Some(Ok("TWO".to_string()))).unwrap() {
        Progress::Finished(out) => {
            let texts: Vec<Option<&str>> = out.iter().map(|r| r.rendered_contents.as_deref()).collect();
            assert_eq!(texts, vec![Some("ONE"), None, Some("TWO")]);
            assert_eq!(out[0].absolute_output_path, None);
        }
        Progress::Render(_, _) => panic!("not finished"),
    }
}

#[test]
fn a_step_fails_as_the_engine_did() {
    let records = vec![page(Kind::SinglePage, "/one", "One", None, false, "first")];
    let state = start_rendering(&config(), navbar(), &empty_index(), &Sitemap { entries: vec![] }, vec![], &blog_template(), records)
        .unwrap();
    let state = match dynamic_content_generator(&config(), state, None).unwrap() {
        Progress::Render(state, _) => state,
        Progress::Finished(_) => panic!("finished too early"),
    };
    assert_eq!(
        dynamic_content_generator(&config(), state, Some(Err(tera::Error::msg("boom")))),
        Err(SiteError { kind: ErrorKind::Template, subject: "/one".to_string() })
    );
}

#[test]
fn a_page_that_names_a_template_the_engine_lacks_fails() {
    let records = vec![
        page(Kind::SinglePage, "/one", "One", Some("nothing.html"), false, "first"),
    ];
    let state = start_rendering(
        &config(),
        navbar(),
        &empty_index(),
        &Sitemap { entries: vec![] },
        vec!["page.html".to_string()],
        &blog_template(),
        records,
    )
    .unwrap();
    assert_eq!(
        dynamic_content_generator(&config(), state, None),
        Err(SiteError { kind: ErrorKind::UnknownTemplate, subject: "nothing.html".to_string() })
    );
    let post = vec![page(Kind::BlogPost, "/blog/a", "A", Some("nothing.html"), true, "text")];
    let state = start_rendering(&config(), navbar(), &empty_index(), &Sitemap { entries: vec![] }, vec![], &blog_template(), post)
        .unwrap();
    assert!(matches!(dynamic_content_generator(&config(), state, None), Ok(Progress::Render(_, _))));
}

#[test]
fn an_answer_that_no_page_awaits_is_set_aside() {
    let records = vec![page(Kind::StaticAsset, "/a.css", "A", None, false, "")];
    let state = start_rendering(&config(), navbar(), &empty_index(), &Sitemap { entries: vec![] }, vec![], &blog_template(), records)
        .unwrap();
    match dynamic_content_generator(&config(), state, Some(Ok("text".to_string()))).unwrap() {
        Progress::Finished(out) => assert_eq!(out[0].rendered_contents, None),
        Progress::Render(_, _) => panic!("nothing to render"),
    }
}

#[test]
fn records_that_are_no_pages_have_no_job() {
    let mut unresolved = page(Kind::SinglePage, "/x", "X", None, false, "text");
    unresolved.url = None;
    assert_eq!(prepare(&config(), &navbar(), &site(), "unused", &unresolved), None);
    let mut asset = page(Kind::StaticAsset, "/x", "X", None, false, "text");
    asset.metadata = None;
    asset.raw_contents = None;
    assert_eq!(render_job(&config(), &navbar(), &site(), "unused", &asset, ""), None);
}

#[test]
fn generator_fails_at_the_first_page_that_the_engine_refuses() {
    let records = vec![
        page(Kind::SinglePage, "/ok", "Ok", None, false, "fine"),
        page(Kind::SinglePage, "/syntax", "S", None, false, "{% for %}"),
        page(Kind::SinglePage, "/missing", "M", Some("nothing.html"), false, ""),
    ];
    let mut engine = templates();
    let out = generate(
        &config(),
        navbar(),
        &empty_index(),
        &Sitemap { entries: vec![] },
        &mut engine,
        &blog_template(),
        records,
    );
    assert_eq!(out, Err(SiteError { kind: ErrorKind::Template, subject: "/syntax".to_string() }));
}
