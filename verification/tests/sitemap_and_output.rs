use suji::blog::{BlogpostIndex, BlogpostIndexEntry};
use suji::config::{Config, Kind};
use suji::error::{ErrorKind, SiteError};
use suji::json::{get, Datum};
use suji::metadata::DynamicContentMetadata;
use suji::output::{map_urls_to_relative_paths, output_folder_creator, output_path_for, path_absoluter};
use suji::record::Record;
use suji::sitemap::{sitemap_indexer, tag_page_generator, Sitemap};
use suji::url::URL;

fn t(s: &str) -> Datum {
    Datum::Text(s.to_string())
}

fn config() -> Config {
    Config {
        source_dir: "/site/src".to_string(),
        output_dir: "/site/out".to_string(),
        sitename: "Site".to_string(),
        sources: vec![],
        routes: vec![
            ("tag".to_string(), "/tags/{tag}".to_string()),
            ("paged".to_string(), "/tags/{tag}/{page}".to_string()),
        ],
        blogpost_template: "post.html".to_string(),
        site_url: "https://example.org".to_string(),
    }
}

fn record(kind: Kind, url: Option<&str>, excluded: bool) -> Record {
    Record {
        source_path: "x.md".to_string(),
        kind,
        metadata: None,
        raw_contents: None,
        url: url.map(|u| URL { url: u.to_string(), absolute: format!("https://example.org{}", u) }),
        output_path: None,
        absolute_output_path: None,
        rendered_contents: None,
        exclude_from_sitemap: excluded,
    }
}

fn template(route: &str, excluded_in_header: bool) -> Record {
    Record {
        source_path: "tag.md".to_string(),
        kind: Kind::TagPageTemplate,
        metadata: Some(DynamicContentMetadata {
            route: route.to_string(),
            title: "Tag".to_string(),
            template: Some("tag.html".to_string()),
            navbar: None,
            markdown: false,
            stuff: vec![("tag".to_string(), t("placeholder")), ("k".to_string(), Datum::Integer(1))],
            og_title: String::new(),
            og_type: String::new(),
            og_description: String::new(),
            exclude_from_sitemap: excluded_in_header,
        }),
        raw_contents: Some("posts tagged {{ tag }}".to_string()),
        url: None,
        output_path: None,
        absolute_output_path: None,
        rendered_contents: None,
        exclude_from_sitemap: excluded_in_header,
    }
}

fn entry(title: &str, tags: Vec<&str>) -> BlogpostIndexEntry {
    BlogpostIndexEntry {
        url: format!("/blog/{}", title),
        slug: title.to_string(),
        title: title.to_string(),
        excerpt: String::new(),
        date: "2024/01/01".to_string(),
        year: "2024".to_string(),
        month: "01".to_string(),
        day: "01".to_string(),
        tags: tags.into_iter().map(|s| s.to_string()).collect(),
        featured: false,
    }
}

#[test]
fn output_path_defaulting() {
    assert_eq!(output_path_for("/blog/my-post"), "/blog/my-post/index.html");
    assert_eq!(output_path_for("/feed.xml"), "/feed.xml");
    assert_eq!(output_path_for("/"), "/index.html");
    assert_eq!(output_path_for("/tags/rust/"), "/tags/rust/index.html");
    assert_eq!(output_path_for(""), "index.html");
    assert_eq!(output_path_for("/v1.2/notes"), "/v1.2/notes/index.html");
}

#[test]
fn output_paths_are_given_once() {
    let mut with_path = record(Kind::StaticAsset, Some("css/a.css"), true);
    with_path.output_path = Some("kept/a.css".to_string());
    let records = vec![
        record(Kind::SinglePage, Some("/about"), false),
        with_path,
        record(Kind::TagPageTemplate, None, false),
    ];
    let out = map_urls_to_relative_paths(records);
    assert_eq!(out[0].output_path, Some("/about/index.html".to_string()));
    assert_eq!(out[1].output_path, Some("kept/a.css".to_string()));
    assert_eq!(out[2].output_path, None);
}

#[test]
fn absolute_paths_lie_below_the_output_directory() {
    let mut a = record(Kind::SinglePage, Some("/about"), false);
    a.output_path = Some("/about/index.html".to_string());
    let mut b = record(Kind::StaticAsset, Some("css/a.css"), true);
    b.output_path = Some("css/a.css".to_string());
    let c = record(Kind::TagPageTemplate, None, false);
    let out = path_absoluter(&config(), vec![a, b, c]);
    assert_eq!(out[0].absolute_output_path, Some("/site/out/about/index.html".to_string()));
    assert_eq!(out[1].absolute_output_path, Some("/site/out/css/a.css".to_string()));
    assert_eq!(out[2].absolute_output_path, None);
    assert_eq!(out[0].output_path, Some("/about/index.html".to_string()));
}

#[test]
fn output_folders_are_listed_once() {
    let mut records = Vec::new();
    for p in ["/site/out/index.html", "/site/out/blog/a/index.html", "/site/out/feed.xml", "/site/out/blog/a/b.png"] {
        let mut r = record(Kind::SinglePage, Some("/x"), false);
        r.absolute_output_path = Some(p.to_string());
        records.push(r);
    }
    records.push(record(Kind::TagPageTemplate, None, false));
    assert_eq!(output_folder_creator(&records), vec!["/site/out", "/site/out/blog/a"]);
}

#[test]
fn sitemap_is_sorted_and_deduplicated() {
    let records = vec![
        record(Kind::SinglePage, Some("/b"), false),
        record(Kind::SinglePage, Some("/a"), false),
        record(Kind::BlogPost, Some("/b"), false),
        record(Kind::TagPageTemplate, None, false),
        record(Kind::SinglePage, Some("/B"), false),
    ];
    assert_eq!(sitemap_indexer(&records).entries, vec!["/B", "/a", "/b"]);
}

#[test]
fn sitemap_exclusion() {
    let records = vec![
        record(Kind::SinglePage, Some("/secret"), true),
        record(Kind::StaticAsset, Some("css/a.css"), true),
        record(Kind::BlogPost, Some("/hidden-post"), true),
        record(Kind::SinglePage, Some("/shown"), false),
    ];
    assert_eq!(sitemap_indexer(&records).entries, vec!["/shown"]);
    assert_eq!(sitemap_indexer(&vec![]).entries, Vec::<String>::new());
}

#[test]
fn expansion_completeness() {
    let index = BlogpostIndex {
        entries: vec![entry("one", vec!["x", "y"]), entry("two", vec!["z", "y"])],
    };
    let records = vec![record(Kind::SinglePage, Some("/about"), false), template("tag", false)];
    let sitemap = Sitemap { entries: vec!["/about".to_string()] };
    let (out, listing) = tag_page_generator(&config(), &index, sitemap, records).unwrap();
    assert_eq!(out.len(), 5);
    assert_eq!(out[0].url.as_ref().unwrap().url, "/about");
    assert_eq!(out[1].kind, Kind::TagPageTemplate);
    assert_eq!(out[1].url, None);
    let made = &out[2..];
    let tags: Vec<&Datum> = made.iter().map(|r| get(&r.metadata.as_ref().unwrap().stuff, "tag").unwrap()).collect();
    assert_eq!(tags, vec![&t("y"), &t("z"), &t("x")]);
    let urls: Vec<&str> = made.iter().map(|r| r.url.as_ref().unwrap().url.as_str()).collect();
    assert_eq!(urls, vec!["/tags/y", "/tags/z", "/tags/x"]);
    for r in made {
        assert!(listing.entries.contains(&r.url.as_ref().unwrap().url));
        assert_eq!(r.kind, Kind::TagPageTemplate);
        assert_eq!(r.source_path, "tag.md");
        assert_eq!(r.raw_contents, Some("posts tagged {{ tag }}".to_string()));
        assert_eq!(r.url.as_ref().unwrap().absolute, format!("https://example.org{}", r.url.as_ref().unwrap().url));
        assert_eq!(get(&r.metadata.as_ref().unwrap().stuff, "k"), Some(&Datum::Integer(1)));
        assert_eq!(r.metadata.as_ref().unwrap().stuff.len(), 2);
        assert!(!r.exclude_from_sitemap);
        assert_eq!(r.output_path, None);
    }
    assert_eq!(listing.entries, vec!["/about", "/tags/x", "/tags/y", "/tags/z"]);
}

#[test]
fn expansion_without_tags_or_templates_makes_nothing() {
    let index = BlogpostIndex { entries: vec![entry("one", vec![])] };
    let records = vec![template("tag", false)];
    let sitemap = Sitemap { entries: vec!["/b".to_string(), "/a".to_string()] };
    let (out, listing) = tag_page_generator(&config(), &index, sitemap, records).unwrap();
    assert_eq!(out.len(), 1);
    assert_eq!(listing.entries, vec!["/a", "/b"]);

    let index = BlogpostIndex { entries: vec![entry("one", vec!["x"])] };
    let records = vec![record(Kind::SinglePage, Some("/about"), false)];
    let (out, listing) = tag_page_generator(&config(), &index, Sitemap { entries: vec![] }, records).unwrap();
    assert_eq!(out.len(), 1);
    assert_eq!(listing.entries, Vec::<String>::new());
}

#[test]
fn expansion_of_two_templates_keeps_template_order() {
    let index = BlogpostIndex { entries: vec![entry("one", vec!["x", "y"])] };
    let mut second = template("tag", false);
    second.source_path = "tag2.md".to_string();
    let records = vec![template("tag", false), second];
    let (out, listing) = tag_page_generator(&config(), &index, Sitemap { entries: vec![] }, records).unwrap();
    let made: Vec<(&str, &str)> = out[2..]
        .iter()
        .map(|r| (r.source_path.as_str(), r.url.as_ref().unwrap().url.as_str()))
        .collect();
    assert_eq!(
        made,
        vec![("tag.md", "/tags/y"), ("tag.md", "/tags/x"), ("tag2.md", "/tags/y"), ("tag2.md", "/tags/x")]
    );
    assert_eq!(listing.entries, vec!["/tags/x", "/tags/x", "/tags/y", "/tags/y"]);
}

#[test]
fn expansion_lists_pages_of_a_template_that_is_kept_out() {
    let index = BlogpostIndex { entries: vec![entry("one", vec!["x"])] };
    let records = vec![template("tag", true)];
    let (out, listing) = tag_page_generator(&config(), &index, Sitemap { entries: vec![] }, records).unwrap();
    assert!(!out[1].exclude_from_sitemap);
    assert!(out[1].metadata.as_ref().unwrap().exclude_from_sitemap);
    assert_eq!(listing.entries, vec!["/tags/x"]);
}

#[test]
fn expansion_fails_where_the_route_does_not_resolve() {
    let index = BlogpostIndex { entries: vec![entry("one", vec!["x"])] };
    let records = vec![template("paged", false)];
    assert_eq!(
        tag_page_generator(&config(), &index, Sitemap { entries: vec![] }, records),
        Err(SiteError { kind: ErrorKind::UnresolvedPlaceholder, subject: "/tags/x/{page}".to_string() })
    );
    let records = vec![template("nowhere", false)];
    assert_eq!(
        tag_page_generator(&config(), &index, Sitemap { entries: vec![] }, records),
        Err(SiteError { kind: ErrorKind::UnknownRoute, subject: "nowhere".to_string() })
    );
}
