use suji::config::{create_source_loaders, Config, Kind, LoaderTarget, SourceLoader, SourceType};
use suji::error::{ErrorKind, SiteError};
use suji::json::Datum;
use suji::metadata::{DynamicContentMetadata, NavbarConfig};
use suji::navbar::{build_navbar, navbar_indexer, NavCandidate, Navbar, NavbarEntry};
use suji::record::Record;
use suji::resolve::generate_urls;
use suji::url::{metadata_to_url, url_for_impl, CallError, UrlFor, URL};

fn t(s: &str) -> Datum {
    Datum::Text(s.to_string())
}

fn bag(entries: Vec<(&str, Datum)>) -> Vec<(String, Datum)> {
    entries.into_iter().map(|(k, v)| (k.to_string(), v)).collect()
}

fn config() -> Config {
    Config {
        source_dir: "/site/src".to_string(),
        output_dir: "/site/out".to_string(),
        sitename: "Site".to_string(),
        sources: vec![],
        routes: vec![
            ("home".to_string(), "/".to_string()),
            ("about".to_string(), "/about".to_string()),
            ("post".to_string(), "/blog/{year}/{month}/{slug}".to_string()),
            ("tag".to_string(), "/tags/{tag}".to_string()),
            ("page".to_string(), "/p/{n}/{n}".to_string()),
            ("feed".to_string(), "/feed.xml".to_string()),
        ],
        blogpost_template: "post.html".to_string(),
        site_url: "https://example.org".to_string(),
    }
}

fn metadata(route: &str, title: &str, stuff: Vec<(&str, Datum)>) -> DynamicContentMetadata {
    DynamicContentMetadata {
        route: route.to_string(),
        title: title.to_string(),
        template: None,
        navbar: None,
        markdown: false,
        stuff: bag(stuff),
        og_title: String::new(),
        og_type: String::new(),
        og_description: String::new(),
        exclude_from_sitemap: false,
    }
}

fn page(kind: Kind, m: DynamicContentMetadata) -> Record {
    Record {
        source_path: "x.md".to_string(),
        kind,
        metadata: Some(m),
        raw_contents: Some("body".to_string()),
        url: None,
        output_path: None,
        absolute_output_path: None,
        rendered_contents: None,
        exclude_from_sitemap: false,
    }
}

fn candidate(url: &str, title: &str, index: usize, group: Option<&str>, is_primary: bool) -> NavCandidate {
    NavCandidate {
        url: url.to_string(),
        title: title.to_string(),
        index,
        group: group.map(|g| g.to_string()),
        is_primary,
    }
}

fn leaf(url: &str, title: &str) -> NavbarEntry {
    NavbarEntry { url: url.to_string(), title: title.to_string(), active: false, children: vec![] }
}

#[test]
fn source_loaders_follow_the_sources() {
    let mut c = config();
    c.sources = vec![
        ("static/**/*".to_string(), SourceType::StaticContent),
        ("templates/*.html".to_string(), SourceType::Template),
        ("pages/*.md".to_string(), SourceType::DynamicContentSinglePage),
        ("posts/*.md".to_string(), SourceType::DynamicContentBlogPost),
        ("tag.md".to_string(), SourceType::DynamicContentBlogpostTagPage),
        ("archive.md".to_string(), SourceType::DynamicContentBlogpostArchivePage),
        ("rss.xml".to_string(), SourceType::DynamicContentBlogpostRssPage),
        ("sitemap.xml".to_string(), SourceType::DynamicContentSitemap),
    ];
    let loaders = create_source_loaders(&c);
    let expected = vec![
        ("static/**/*", LoaderTarget::StaticContent),
        ("templates/*.html", LoaderTarget::Template),
        ("pages/*.md", LoaderTarget::DynamicContent(Kind::SinglePage)),
        ("posts/*.md", LoaderTarget::DynamicContent(Kind::BlogPost)),
        ("tag.md", LoaderTarget::DynamicContent(Kind::TagPageTemplate)),
        ("archive.md", LoaderTarget::DynamicContent(Kind::ArchivePageTemplate)),
        ("rss.xml", LoaderTarget::DynamicContent(Kind::RssTemplate)),
        ("sitemap.xml", LoaderTarget::DynamicContent(Kind::SitemapTemplate)),
    ];
    let expected: Vec<SourceLoader> = expected
        .into_iter()
        .map(|(g, target)| SourceLoader { glob: g.to_string(), target })
        .collect();
    assert_eq!(loaders, expected);
}

#[test]
fn url_without_placeholders() {
    let u = url_for_impl(&config(), "about", &bag(vec![])).unwrap();
    assert_eq!(u, URL { url: "/about".to_string(), absolute: "https://example.org/about".to_string() });
}

#[test]
fn url_with_text_and_integer_values() {
    let values = bag(vec![("slug", t("hello")), ("year", Datum::Integer(2024)), ("month", t("03"))]);
    let u = url_for_impl(&config(), "post", &values).unwrap();
    assert_eq!(u.url, "/blog/2024/03/hello");
    assert_eq!(u.absolute, "https://example.org/blog/2024/03/hello");
}

#[test]
fn url_fills_every_occurrence_of_a_placeholder() {
    let u = url_for_impl(&config(), "page", &bag(vec![("n", Datum::Integer(-3))])).unwrap();
    assert_eq!(u.url, "/p/-3/-3");
}

#[test]
fn url_of_unknown_route_fails() {
    let out = url_for_impl(&config(), "nowhere", &bag(vec![("tag", t("x"))]));
    assert_eq!(out, Err(SiteError { kind: ErrorKind::UnknownRoute, subject: "nowhere".to_string() }));
}

#[test]
fn url_with_unresolved_placeholder_fails() {
    let out = url_for_impl(&config(), "tag", &bag(vec![("slug", t("x"))]));
    assert_eq!(
        out,
        Err(SiteError { kind: ErrorKind::UnresolvedPlaceholder, subject: "/tags/{tag}".to_string() })
    );
    let out = url_for_impl(&config(), "tag", &bag(vec![("tag", Datum::Boolean(true))]));
    assert_eq!(
        out,
        Err(SiteError { kind: ErrorKind::UnresolvedPlaceholder, subject: "/tags/{tag}".to_string() })
    );
    let out = url_for_impl(&config(), "post", &bag(vec![("year", t("2024")), ("month", t("01"))]));
    assert_eq!(
        out,
        Err(SiteError {
            kind: ErrorKind::UnresolvedPlaceholder,
            subject: "/blog/2024/01/{slug}".to_string()
        })
    );
}

#[test]
fn url_of_metadata_uses_route_and_bag() {
    let m = metadata("tag", "Tag", vec![("tag", t("rust"))]);
    assert_eq!(metadata_to_url(&config(), &m).unwrap().url, "/tags/rust");
}

#[test]
fn url_for_function() {
    let f = UrlFor { config: config() };
    assert_eq!(f.call(&bag(vec![("route", t("tag")), ("tag", t("rust"))])), Ok(t("/tags/rust")));
    assert_eq!(f.call(&bag(vec![("tag", t("rust"))])), Err(CallError::MissingRoute));
    assert_eq!(f.call(&bag(vec![("route", Datum::Integer(1))])), Err(CallError::InvalidRoute));
    assert_eq!(
        f.call(&bag(vec![("route", t("nowhere"))])),
        Err(CallError::Unresolved(SiteError {
            kind: ErrorKind::UnknownRoute,
            subject: "nowhere".to_string()
        }))
    );
}

#[test]
fn generate_urls_skips_assets_and_tag_templates() {
    let asset = Record {
        source_path: "a.css".to_string(),
        kind: Kind::StaticAsset,
        metadata: None,
        raw_contents: None,
        url: Some(URL { url: "a.css".to_string(), absolute: "https://example.org/a.css".to_string() }),
        output_path: Some("a.css".to_string()),
        absolute_output_path: None,
        rendered_contents: None,
        exclude_from_sitemap: true,
    };
    let records = vec![
        asset,
        page(Kind::SinglePage, metadata("about", "About", vec![])),
        page(Kind::TagPageTemplate, metadata("tag", "Tag", vec![])),
        page(Kind::RssTemplate, metadata("feed", "Feed", vec![])),
    ];
    let out = generate_urls(&config(), records).unwrap();
    assert_eq!(out.len(), 4);
    assert_eq!(out[0].url.as_ref().unwrap().url, "a.css");
    assert_eq!(out[1].url.as_ref().unwrap().url, "/about");
    assert_eq!(out[1].url.as_ref().unwrap().absolute, "https://example.org/about");
    assert_eq!(out[2].url, None);
    assert_eq!(out[3].url.as_ref().unwrap().url, "/feed.xml");
    assert_eq!(out[1].metadata, Some(metadata("about", "About", vec![])));
}

#[test]
fn generate_urls_fails_at_the_first_unresolved_route() {
    let records = vec![
        page(Kind::SinglePage, metadata("about", "About", vec![])),
        page(Kind::SinglePage, metadata("tag", "Broken", vec![])),
        page(Kind::SinglePage, metadata("nowhere", "Lost", vec![])),
    ];
    assert_eq!(
        generate_urls(&config(), records),
        Err(SiteError { kind: ErrorKind::UnresolvedPlaceholder, subject: "/tags/{tag}".to_string() })
    );
}

#[test]
fn navbar_groups_and_orders() {
    let cs = vec![
        candidate("/docs/b", "B", 2, Some("docs"), false),
        candidate("/about", "About", 3, None, false),
        candidate("/docs", "Docs", 1, Some("docs"), true),
        candidate("/", "Home", 0, None, false),
        candidate("/docs/a", "A", 1, Some("docs"), false),
        candidate("/blog", "Blog", 2, Some("blog"), true),
    ];
    let navbar = build_navbar(&cs).unwrap();
    let expected = Navbar {
        entries: vec![
            leaf("/", "Home"),
            NavbarEntry {
                url: "/docs".to_string(),
                title: "Docs".to_string(),
                active: false,
                children: vec![leaf("/docs/a", "A"), leaf("/docs/b", "B")],
            },
            NavbarEntry {
                url: "/blog".to_string(),
                title: "Blog".to_string(),
                active: false,
                children: vec![],
            },
            leaf("/about", "About"),
        ],
    };
    assert_eq!(navbar, expected);
}

#[test]
fn navbar_ties_keep_ungrouped_first_then_groups_by_name() {
    let cs = vec![
        candidate("/z", "Z group", 1, Some("z"), true),
        candidate("/a", "A group", 1, Some("a"), true),
        candidate("/second", "Second", 1, None, false),
        candidate("/first", "First", 1, None, true),
    ];
    let navbar = build_navbar(&cs).unwrap();
    let urls: Vec<&str> = navbar.entries.iter().map(|e| e.url.as_str()).collect();
    assert_eq!(urls, vec!["/second", "/first", "/a", "/z"]);
}

#[test]
fn navbar_of_nothing_is_empty() {
    assert_eq!(build_navbar(&vec![]), Ok(Navbar { entries: vec![] }));
}

#[test]
fn navbar_group_with_two_primaries_fails() {
    let cs = vec![
        candidate("/docs", "Docs", 1, Some("docs"), true),
        candidate("/docs2", "Docs 2", 2, Some("docs"), true),
    ];
    assert_eq!(
        build_navbar(&cs),
        Err(SiteError { kind: ErrorKind::AmbiguousNavbarPrimary, subject: "docs".to_string() })
    );
}

#[test]
fn navbar_group_without_primary_fails() {
    let cs = vec![candidate("/docs/a", "A", 1, Some("docs"), false)];
    assert_eq!(
        build_navbar(&cs),
        Err(SiteError { kind: ErrorKind::MissingNavbarPrimary, subject: "docs".to_string() })
    );
}

#[test]
fn navbar_first_failing_group_in_order_of_names_is_reported() {
    let cs = vec![
        candidate("/z", "Z", 1, Some("zeta"), false),
        candidate("/a1", "A1", 1, Some("alpha"), true),
        candidate("/a2", "A2", 2, Some("alpha"), true),
    ];
    assert_eq!(
        build_navbar(&cs),
        Err(SiteError { kind: ErrorKind::AmbiguousNavbarPrimary, subject: "alpha".to_string() })
    );
}

#[test]
fn navbar_indexer_takes_pages_with_url_and_placement() {
    let mut with_place = metadata("about", "About", vec![]);
    with_place.navbar = Some(NavbarConfig { index: 1, group: None, is_primary: false });
    let mut no_url = metadata("home", "Home", vec![]);
    no_url.navbar = Some(NavbarConfig { index: 0, group: None, is_primary: false });
    let mut a = page(Kind::SinglePage, with_place);
    a.url = Some(URL { url: "/about".to_string(), absolute: "https://example.org/about".to_string() });
    let b = page(Kind::SinglePage, no_url);
    let mut c = page(Kind::SinglePage, metadata("feed", "Feed", vec![]));
    c.url = Some(URL { url: "/feed.xml".to_string(), absolute: "x".to_string() });
    let navbar = navbar_indexer(&vec![a, b, c]).unwrap();
    assert_eq!(navbar, Navbar { entries: vec![leaf("/about", "About")] });
}

#[test]
fn navbar_marks_active_entries() {
    let navbar = Navbar {
        entries: vec![
            leaf("/", "Home"),
            NavbarEntry {
                url: "/docs".to_string(),
                title: "Docs".to_string(),
                active: false,
                children: vec![leaf("/docs/a", "A"), leaf("/docs/b", "B")],
            },
            leaf("/about", "About"),
        ],
    };
    let marked = navbar.for_("/docs/a");
    let active: Vec<bool> = marked.entries.iter().map(|e| e.active).collect();
    assert_eq!(active, vec![false, true, false]);
    let children: Vec<bool> = marked.entries[1].children.iter().map(|e| e.active).collect();
    assert_eq!(children, vec![true, false]);
    assert_eq!(marked.entries[1].children[0].url, "/docs/a");
    assert_eq!(marked.entries[1].title, "Docs");

    let root = navbar.for_("/");
    let active: Vec<bool> = root.entries.iter().map(|e| e.active).collect();
    assert_eq!(active, vec![true, false, false]);

    let prefix = navbar.for_("/about-us");
    let active: Vec<bool> = prefix.entries.iter().map(|e| e.active).collect();
    assert_eq!(active, vec![false, false, false]);

    let below = navbar.for_("/about/team");
    let active: Vec<bool> = below.entries.iter().map(|e| e.active).collect();
    assert_eq!(active, vec![false, false, true]);
}

#[test]
fn copies_are_equal() {
    let c = candidate("/docs", "Docs", 1, Some("docs"), true);
    assert_eq!(c.duplicate(), c);
    let e = NavbarEntry {
        url: "/docs".to_string(),
        title: "Docs".to_string(),
        active: true,
        children: vec![leaf("/docs/a", "A")],
    };
    assert_eq!(e.duplicate(), e);
    let u = URL { url: "/a".to_string(), absolute: "https://example.org/a".to_string() };
    assert_eq!(u.duplicate(), u);
    let mut m = metadata("about", "About", vec![("k", t("v")), ("n", Datum::List(vec![Datum::Integer(1)]))]);
    m.navbar = Some(NavbarConfig { index: 4, group: Some("g".to_string()), is_primary: false });
    m.template = Some("page.html".to_string());
    assert_eq!(m.duplicate(), m);
}

#[test]
fn texts_are_sorted_by_code_point() {
    let texts: Vec<String> = ["b", "a", "B", "ab", "", "é", "a"].iter().map(|s| s.to_string()).collect();
    assert_eq!(suji::sort::sort_texts(texts), vec!["", "B", "a", "a", "ab", "b", "é"]);
    assert!(suji::seqs::holds_text(&vec!["a".to_string()], &"a".to_string()));
    assert!(!suji::seqs::holds_text(&vec!["a".to_string()], &"b".to_string()));
}

#[test]
fn route_table_lookup() {
    assert_eq!(suji::config::route_template(&config(), "tag"), Some(&"/tags/{tag}".to_string()));
    assert_eq!(suji::config::route_template(&config(), "none"), None);
}

#[test]
fn navbar_marks_by_path_prefix() {
    let navbar = Navbar { entries: vec![leaf("/blog", "Blog"), leaf("/docs/", "Docs"), leaf("/", "Home")] };
    let active = |url: &str| -> Vec<bool> { navbar.for_(url).entries.iter().map(|e| e.active).collect() };
    assert_eq!(active("/blogroll"), vec![false, false, false]);
    assert_eq!(active("/blog"), vec![true, false, false]);
    assert_eq!(active("/blog/"), vec![true, false, false]);
    assert_eq!(active("/blog/2024/post"), vec![true, false, false]);
    assert_eq!(active("/docs/a"), vec![false, true, false]);
    assert_eq!(active("/docs"), vec![false, false, false]);
    assert_eq!(active("/"), vec![false, false, true]);
}

#[test]
fn url_resolution_repeats_its_passes() {
    let mut c = config();
    c.routes.push(("a".to_string(), "/{a}".to_string()));
    c.routes.push(("b".to_string(), "/{b}".to_string()));
    let u = url_for_impl(&c, "a", &bag(vec![("b", t("x")), ("a", t("{b}"))])).unwrap();
    assert_eq!(u.url, "/x");
    let u = url_for_impl(&c, "a", &bag(vec![("a", t("{b}")), ("b", t("x"))])).unwrap();
    assert_eq!(u.url, "/x");
    let u = url_for_impl(&c, "b", &bag(vec![("a", t("x")), ("b", t("{a}"))])).unwrap();
    assert_eq!(u.url, "/x");
    let chain = bag(vec![("d", Datum::Integer(4)), ("c", t("{d}")), ("b", t("{c}/{c}")), ("a", t("{b}"))]);
    assert_eq!(url_for_impl(&c, "a", &chain).unwrap().url, "/4/4");
}

#[test]
fn url_resolution_stops_at_a_value_that_holds_its_own_placeholder() {
    let mut c = config();
    c.routes.push(("a".to_string(), "/{a}".to_string()));
    assert_eq!(
        url_for_impl(&c, "a", &bag(vec![("a", t("{a}"))])),
        Err(SiteError { kind: ErrorKind::UnresolvedPlaceholder, subject: "/{a}".to_string() })
    );
    assert_eq!(
        url_for_impl(&c, "a", &bag(vec![("a", t("{b}")), ("b", t("{a}"))])),
        Err(SiteError { kind: ErrorKind::UnresolvedPlaceholder, subject: "/{a}".to_string() })
    );
    assert_eq!(
        url_for_impl(&c, "a", &bag(vec![("a", t("x{")), ("b", t("y"))])),
        Err(SiteError { kind: ErrorKind::UnresolvedPlaceholder, subject: "/x{".to_string() })
    );
}
