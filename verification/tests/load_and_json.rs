use suji::config::{Config, Kind};
use suji::error::{ErrorKind, SiteError};
use suji::json::{duplicate_entries, find_key, get, Datum};
use suji::load::{
    dynamic_content_source_loader, load_dynamic_content, load_static_content, record_from_header,
    static_content_source_loader, SourceFile,
};
use suji::record::Record;
use suji::url::URL;

fn t(s: &str) -> Datum {
    Datum::Text(s.to_string())
}

fn bag(entries: Vec<(&str, Datum)>) -> Vec<(String, Datum)> {
    entries.into_iter().map(|(k, v)| (k.to_string(), v)).collect()
}

fn config() -> Config {
    Config {
        source_dir: "/site/src".to_string(),
        output_dir: "/site/out".to_string(),
        sitename: "Site".to_string(),
        sources: vec![],
        routes: vec![("home".to_string(), "/".to_string())],
        blogpost_template: "post.html".to_string(),
        site_url: "https://example.org/".to_string(),
    }
}

#[test]
fn static_asset_record() {
    let r = load_static_content(&config(), "/site/src/css/main.css").unwrap();
    assert_eq!(
        r,
        Record {
            source_path: "css/main.css".to_string(),
            kind: Kind::StaticAsset,
            metadata: None,
            raw_contents: None,
            url: Some(URL {
                url: "css/main.css".to_string(),
                absolute: "https://example.org/css/main.css".to_string(),
            }),
            output_path: Some("css/main.css".to_string()),
            absolute_output_path: None,
            rendered_contents: None,
            exclude_from_sitemap: true,
        }
    );
    assert!(r.is_static_asset());
    assert!(!r.is_page());
}

#[test]
fn static_loader_keeps_the_order_and_fails_outside_the_source_directory() {
    let paths = vec!["/site/src/b.png".to_string(), "a.png".to_string()];
    let records = static_content_source_loader(&config(), &paths).unwrap();
    let sources: Vec<&str> = records.iter().map(|r| r.source_path.as_str()).collect();
    assert_eq!(sources, vec!["b.png", "a.png"]);
    let paths = vec!["/site/src/b.png".to_string(), "/elsewhere/a.png".to_string(), "/x".to_string()];
    assert_eq!(
        static_content_source_loader(&config(), &paths),
        Err(SiteError { kind: ErrorKind::SourceOutsideBase, subject: "/elsewhere/a.png".to_string() })
    );
}

#[test]
fn content_file_is_parsed() {
    let text = "{\n  \"route\": \"home\",\n  \"title\": \"Home \\u00e9\",\n  \"count\": 3,\n  \"ratio\": 1.5,\n  \"big\": 18446744073709551615,\n  \"neg\": -7,\n  \"nested\": {\"b\": [true, null], \"a\": \"x\"},\n  \"exclude_from_sitemap\": true\n}\n\n# Body\n";
    let r = load_dynamic_content(&config(), Kind::SinglePage, "/site/src/index.md", text).unwrap();
    assert_eq!(r.source_path, "index.md");
    assert_eq!(r.kind, Kind::SinglePage);
    assert_eq!(r.raw_contents, Some("# Body\n".to_string()));
    assert_eq!(r.url, None);
    assert!(r.exclude_from_sitemap);
    let m = r.metadata.unwrap();
    assert_eq!(m.route, "home");
    assert_eq!(m.title, "Home é");
    assert!(m.exclude_from_sitemap);
    assert_eq!(get(&m.stuff, "count"), Some(&Datum::Integer(3)));
    assert_eq!(get(&m.stuff, "neg"), Some(&Datum::Integer(-7)));
    assert_eq!(get(&m.stuff, "ratio"), Some(&Datum::Number("1.5".to_string())));
    assert_eq!(get(&m.stuff, "big"), Some(&Datum::Number("18446744073709551615".to_string())));
    assert_eq!(
        get(&m.stuff, "nested"),
        Some(&Datum::Mapping(bag(vec![
            ("a", t("x")),
            ("b", Datum::List(vec![Datum::Boolean(true), Datum::Null])),
        ])))
    );
    assert_eq!(get(&m.stuff, "route"), None);
    assert_eq!(m.stuff.len(), 5);
}

#[test]
fn blog_post_file_is_enriched() {
    let text = "{\n\"route\": \"home\", \"title\": \"P\", \"date\": \"2024/3/5\", \"excerpt\": \"e\"\n}\n\nbody";
    let r = load_dynamic_content(&config(), Kind::BlogPost, "posts/my-post.md", text).unwrap();
    let m = r.metadata.unwrap();
    assert_eq!(get(&m.stuff, "slug"), Some(&t("my-post")));
    assert_eq!(get(&m.stuff, "year"), Some(&t("2024")));
    assert_eq!(get(&m.stuff, "month"), Some(&t("03")));
    assert_eq!(get(&m.stuff, "day"), Some(&t("05")));
    assert_eq!(m.template, Some("post.html".to_string()));
    assert!(m.markdown);
}

#[test]
fn content_file_failures() {
    let c = config();
    let fail = |kind: ErrorKind, subject: &str| Err(SiteError { kind, subject: subject.to_string() });
    assert_eq!(
        load_dynamic_content(&c, Kind::SinglePage, "/other/a.md", "{\n}\n\n"),
        fail(ErrorKind::SourceOutsideBase, "/other/a.md")
    );
    assert_eq!(
        load_dynamic_content(&c, Kind::SinglePage, "/site/src/a.md", "no header"),
        fail(ErrorKind::MissingOpeningMarker, "a.md")
    );
    assert_eq!(
        load_dynamic_content(&c, Kind::SinglePage, "a.md", "{\n\"title\": \"x\"}\n"),
        fail(ErrorKind::MissingTerminator, "a.md")
    );
    assert_eq!(
        load_dynamic_content(&c, Kind::SinglePage, "a.md", "{\n\"title\": \n}\n\nbody"),
        fail(ErrorKind::MalformedMetadata, "a.md")
    );
    assert_eq!(
        load_dynamic_content(&c, Kind::SinglePage, "a.md", "{\n\"title\": \"only\"\n}\n\nbody"),
        fail(ErrorKind::MalformedMetadata, "a.md")
    );
    assert_eq!(
        load_dynamic_content(
            &c,
            Kind::BlogPost,
            "a.md",
            "{\n\"title\": \"t\", \"route\": \"home\"\n}\n\nbody"
        ),
        fail(ErrorKind::MissingDate, "a.md")
    );
}

#[test]
fn record_from_header_without_parsed_header_fails() {
    let out = record_from_header(&config(), Kind::SinglePage, "a.md".to_string(), None, "b".to_string());
    assert_eq!(out, Err(SiteError { kind: ErrorKind::MalformedMetadata, subject: "a.md".to_string() }));
    let out = record_from_header(
        &config(),
        Kind::SinglePage,
        "a.md".to_string(),
        Some(Datum::List(vec![])),
        "b".to_string(),
    );
    assert_eq!(out, Err(SiteError { kind: ErrorKind::MalformedMetadata, subject: "a.md".to_string() }));
}

#[test]
fn record_from_header_with_header() {
    let header = Datum::Mapping(bag(vec![("route", t("home")), ("title", t("T")), ("k", t("v"))]));
    let r = record_from_header(&config(), Kind::RssTemplate, "feed.xml".to_string(), Some(header), "b".to_string())
        .unwrap();
    assert_eq!(r.kind, Kind::RssTemplate);
    assert_eq!(r.raw_contents, Some("b".to_string()));
    assert!(!r.exclude_from_sitemap);
    assert_eq!(r.metadata.unwrap().stuff, bag(vec![("k", t("v"))]));
}

#[test]
fn dynamic_loader_fails_at_the_first_bad_file() {
    let files = vec![
        SourceFile {
            kind: Kind::SinglePage,
            path: "a.md".to_string(),
            text: "{\n\"route\": \"home\", \"title\": \"A\"\n}\n\nbody".to_string(),
        },
        SourceFile { kind: Kind::SinglePage, path: "b.md".to_string(), text: "oops".to_string() },
        SourceFile { kind: Kind::SinglePage, path: "c.md".to_string(), text: "{\n".to_string() },
    ];
    assert_eq!(
        dynamic_content_source_loader(&config(), &files),
        Err(SiteError { kind: ErrorKind::MissingOpeningMarker, subject: "b.md".to_string() })
    );
    let files = vec![SourceFile {
        kind: Kind::SinglePage,
        path: "a.md".to_string(),
        text: "{\n\"route\": \"home\", \"title\": \"A\"\n}\n\nbody".to_string(),
    }];
    let records = dynamic_content_source_loader(&config(), &files).unwrap();
    assert_eq!(records.len(), 1);
    assert_eq!(records[0].metadata.as_ref().unwrap().title, "A");
}

#[test]
fn values_pass_to_serde_json_and_back() {
    let text = "{\"a\": [1, -2, 2.5, 18446744073709551615, \"s\", true, null], \"b\": {\"c\": {}}}";
    let raw: serde_json::Value = serde_json::from_str(text).unwrap();
    let value = Datum::from_json(raw.clone());
    assert_eq!(
        value,
        Datum::Mapping(bag(vec![
            (
                "a",
                Datum::List(vec![
                    Datum::Integer(1),
                    Datum::Integer(-2),
                    Datum::Number("2.5".to_string()),
                    Datum::Number("18446744073709551615".to_string()),
                    t("s"),
                    Datum::Boolean(true),
                    Datum::Null,
                ])
            ),
            ("b", Datum::Mapping(bag(vec![("c", Datum::Mapping(vec![]))]))),
        ]))
    );
    assert_eq!(value.to_json(), raw);
    assert_eq!(Datum::Number("not a number".to_string()).to_json(), serde_json::Value::Null);
}

#[test]
fn value_accessors() {
    assert_eq!(t("x").as_string(), Some(&"x".to_string()));
    assert_eq!(Datum::Integer(1).as_string(), None);
    assert_eq!(Datum::Integer(-4).as_integer(), Some(-4));
    assert_eq!(Datum::Number("1.5".to_string()).as_integer(), None);
    assert_eq!(Datum::Boolean(true).as_boolean(), Some(true));
    assert_eq!(Datum::Null.as_boolean(), None);
    assert_eq!(Datum::List(vec![Datum::Null]).as_list(), Some(&vec![Datum::Null]));
    assert_eq!(t("x").as_list(), None);
    assert_eq!(Datum::Mapping(bag(vec![("k", t("v"))])).as_mapping(), Some(&bag(vec![("k", t("v"))])));
    assert_eq!(Datum::Null.as_mapping(), None);
    assert_eq!(Datum::text("abc"), t("abc"));
    assert_eq!(Datum::count(12), Datum::Integer(12));
}

#[test]
fn value_copies_are_equal() {
    let v = Datum::Mapping(bag(vec![
        ("a", Datum::List(vec![Datum::Integer(1), t("x"), Datum::Number("1e3".to_string())])),
        ("b", Datum::Mapping(bag(vec![("c", Datum::Boolean(false)), ("d", Datum::Null)]))),
    ]));
    assert_eq!(v.duplicate(), v);
    let entries = bag(vec![("k", t("v")), ("k", t("w"))]);
    assert_eq!(duplicate_entries(&entries), entries);
    assert_eq!(find_key(&entries, "k"), Some(0));
    assert_eq!(get(&entries, "k"), Some(&t("v")));
    assert_eq!(find_key(&entries, "q"), None);
}

#[test]
fn content_errors_are_collected() {
    let files = vec![
        SourceFile {
            kind: Kind::BlogPost,
            path: "a.md".to_string(),
            text: "{\n\"route\": \"home\", \"title\": \"A\"\n}\n\nbody".to_string(),
        },
        SourceFile { kind: Kind::SinglePage, path: "b.md".to_string(), text: "oops".to_string() },
        SourceFile {
            kind: Kind::BlogPost,
            path: "c.md".to_string(),
            text: "{\n\"route\": \"home\", \"title\": \"C\", \"date\": \"2024-01-01\"\n}\n\nbody".to_string(),
        },
        SourceFile {
            kind: Kind::BlogPost,
            path: "d.md".to_string(),
            text: "{\n\"route\": \"home\", \"title\": \"D\", \"date\": \"2024/01/01\"\n}\n\nbody".to_string(),
        },
    ];
    assert_eq!(
        suji::load::content_errors(&config(), &files),
        vec![
            SiteError { kind: ErrorKind::MissingDate, subject: "a.md".to_string() },
            SiteError { kind: ErrorKind::InvalidDate, subject: "c.md".to_string() },
        ]
    );
}

#[test]
fn frontmatter_round_trip_through_serde_json() {
    let raw: serde_json::Value =
        serde_json::from_str("{\"title\": \"Home\", \"route\": \"home\", \"tags\": [\"a\", 2], \"n\": {\"k\": null}}")
            .unwrap();
    let header = serde_json::to_string_pretty(&raw).unwrap();
    let body = "# Body\n\n}\n\nmore";
    let text = format!("{}\n\n{}", header, body);
    let (head, rest) = suji::metadata::split_frontmatter(&text).unwrap();
    assert_eq!(head, header);
    assert_eq!(rest, body);
    let parsed: serde_json::Value = serde_json::from_str(&head).unwrap();
    let again = serde_json::to_string_pretty(&Datum::from_json(parsed).to_json()).unwrap();
    assert_eq!(format!("{}\n\n{}", again, rest), text);
}
