use suji::config::Kind;
use suji::error::{ErrorClass, ErrorKind, SiteError};
use suji::json::{get, insert, Datum};
use suji::metadata::{enrich, split_frontmatter, DynamicContentMetadata, NavbarConfig};

fn t(s: &str) -> Datum {
    Datum::Text(s.to_string())
}

fn header(entries: Vec<(&str, Datum)>) -> Datum {
    Datum::Mapping(entries.into_iter().map(|(k, v)| (k.to_string(), v)).collect())
}

fn plain(route: &str, title: &str, stuff: Vec<(&str, Datum)>) -> DynamicContentMetadata {
    DynamicContentMetadata {
        route: route.to_string(),
        title: title.to_string(),
        template: None,
        navbar: None,
        markdown: false,
        stuff: stuff.into_iter().map(|(k, v)| (k.to_string(), v)).collect(),
        og_title: String::new(),
        og_type: String::new(),
        og_description: String::new(),
        exclude_from_sitemap: false,
    }
}

#[test]
fn frontmatter_is_parted_at_the_first_terminator() {
    let text = "{\n\"title\": \"T\"\n}\n\nbody\n}\n\nmore";
    let (head, body) = split_frontmatter(text).unwrap();
    assert_eq!(head, "{\n\"title\": \"T\"\n}");
    assert_eq!(body, "body\n}\n\nmore");
}

#[test]
fn frontmatter_round_trip() {
    let text = "{\n  \"route\": \"home\",\n  \"title\": \"Home\"\n}\n\n# Hello\n\nworld\n";
    let (head, body) = split_frontmatter(text).unwrap();
    assert_eq!(format!("{}\n\n{}", head, body), text);
}

#[test]
fn frontmatter_with_empty_body() {
    let (head, body) = split_frontmatter("{\n}\n\n").unwrap();
    assert_eq!(head, "{\n}");
    assert_eq!(body, "");
}

#[test]
fn frontmatter_needs_the_opening_marker() {
    assert_eq!(split_frontmatter("title\n}\n\nbody"), Err(ErrorKind::MissingOpeningMarker));
    assert_eq!(split_frontmatter("{ \"a\": 1\n}\n\nbody"), Err(ErrorKind::MissingOpeningMarker));
    assert_eq!(split_frontmatter(""), Err(ErrorKind::MissingOpeningMarker));
}

#[test]
fn frontmatter_needs_the_terminator() {
    assert_eq!(split_frontmatter("{\n\"a\": 1\n}\nbody"), Err(ErrorKind::MissingTerminator));
    assert_eq!(split_frontmatter("{\n"), Err(ErrorKind::MissingTerminator));
}

#[test]
fn metadata_with_all_fields() {
    let h = header(vec![
        ("route", t("page")),
        ("title", t("A page")),
        ("template", t("page.html")),
        (
            "navbar",
            header(vec![("index", Datum::Integer(2)), ("group", t("g")), ("is_primary", Datum::Boolean(true))]),
        ),
        ("markdown", Datum::Boolean(true)),
        ("og_title", t("OG")),
        ("og_type", t("website")),
        ("og_description", t("desc")),
        ("exclude_from_sitemap", Datum::Boolean(true)),
        ("custom", Datum::Integer(7)),
        ("tags", Datum::List(vec![t("a")])),
    ]);
    let m = DynamicContentMetadata::from_datum(&h).unwrap();
    assert_eq!(m.route, "page");
    assert_eq!(m.title, "A page");
    assert_eq!(m.template, Some("page.html".to_string()));
    assert_eq!(
        m.navbar,
        Some(NavbarConfig { index: 2, group: Some("g".to_string()), is_primary: true })
    );
    assert!(m.markdown);
    assert_eq!(m.og_title, "OG");
    assert_eq!(m.og_type, "website");
    assert_eq!(m.og_description, "desc");
    assert!(m.exclude_from_sitemap);
    assert_eq!(
        m.stuff,
        vec![("custom".to_string(), Datum::Integer(7)), ("tags".to_string(), Datum::List(vec![t("a")]))]
    );
}

#[test]
fn metadata_defaults() {
    let h = header(vec![("title", t("T")), ("route", t("r"))]);
    let m = DynamicContentMetadata::from_datum(&h).unwrap();
    assert_eq!(m, plain("r", "T", vec![]));
}

#[test]
fn metadata_null_template_and_navbar_are_absent() {
    let h = header(vec![
        ("title", t("T")),
        ("route", t("r")),
        ("template", Datum::Null),
        ("navbar", Datum::Null),
    ]);
    let m = DynamicContentMetadata::from_datum(&h).unwrap();
    assert_eq!(m.template, None);
    assert_eq!(m.navbar, None);
}

#[test]
fn metadata_navbar_defaults() {
    let h = header(vec![
        ("title", t("T")),
        ("route", t("r")),
        ("navbar", header(vec![("index", Datum::Integer(0))])),
    ]);
    let m = DynamicContentMetadata::from_datum(&h).unwrap();
    assert_eq!(m.navbar, Some(NavbarConfig { index: 0, group: None, is_primary: false }));
}

#[test]
fn metadata_of_wrong_shape_is_refused() {
    assert_eq!(DynamicContentMetadata::from_datum(&t("x")), None);
    assert_eq!(DynamicContentMetadata::from_datum(&header(vec![("title", t("T"))])), None);
    assert_eq!(DynamicContentMetadata::from_datum(&header(vec![("route", t("r"))])), None);
    assert_eq!(
        DynamicContentMetadata::from_datum(&header(vec![("route", t("r")), ("title", Datum::Integer(1))])),
        None
    );
    assert_eq!(
        DynamicContentMetadata::from_datum(&header(vec![
            ("route", t("r")),
            ("title", t("T")),
            ("markdown", t("yes")),
        ])),
        None
    );
    assert_eq!(
        DynamicContentMetadata::from_datum(&header(vec![
            ("route", t("r")),
            ("title", t("T")),
            ("og_title", Datum::Null),
        ])),
        None
    );
    assert_eq!(
        DynamicContentMetadata::from_datum(&header(vec![
            ("route", t("r")),
            ("title", t("T")),
            ("navbar", header(vec![("index", Datum::Integer(-1))])),
        ])),
        None
    );
    assert_eq!(
        DynamicContentMetadata::from_datum(&header(vec![
            ("route", t("r")),
            ("title", t("T")),
            ("navbar", header(vec![("group", t("g"))])),
        ])),
        None
    );
    assert_eq!(
        DynamicContentMetadata::from_datum(&header(vec![
            ("route", t("r")),
            ("title", t("T")),
            ("navbar", Datum::Integer(3)),
        ])),
        None
    );
}

#[test]
fn bag_insert_replaces_or_appends() {
    let mut bag = vec![("a".to_string(), Datum::Integer(1)), ("b".to_string(), Datum::Integer(2))];
    insert(&mut bag, "a", Datum::Integer(9));
    insert(&mut bag, "c", Datum::Integer(3));
    assert_eq!(
        bag,
        vec![
            ("a".to_string(), Datum::Integer(9)),
            ("b".to_string(), Datum::Integer(2)),
            ("c".to_string(), Datum::Integer(3)),
        ]
    );
    assert_eq!(get(&bag, "b"), Some(&Datum::Integer(2)));
    assert_eq!(get(&bag, "z"), None);
}

#[test]
fn other_kinds_are_not_enriched() {
    let m = plain("r", "T", vec![("date", t("nonsense"))]);
    let out = enrich(Kind::SinglePage, plain("r", "T", vec![("date", t("nonsense"))]), "post.html", "x.md");
    assert_eq!(out, Ok(m));
    let out = enrich(Kind::TagPageTemplate, plain("r", "T", vec![]), "post.html", "/");
    assert_eq!(out, Ok(plain("r", "T", vec![])));
}

#[test]
fn blog_post_is_enriched() {
    let given = plain("post", "Hello", vec![("date", t("2024/3/5")), ("excerpt", t("short"))]);
    let m = enrich(Kind::BlogPost, given, "post.html", "posts/hello-world.md").unwrap();
    assert!(m.markdown);
    assert_eq!(m.template, Some("post.html".to_string()));
    assert_eq!(m.og_type, "article");
    assert_eq!(m.og_description, "short");
    assert_eq!(
        m.stuff,
        vec![
            ("date".to_string(), t("2024/03/05")),
            ("excerpt".to_string(), t("short")),
            ("slug".to_string(), t("hello-world")),
            ("year".to_string(), t("2024")),
            ("month".to_string(), t("03")),
            ("day".to_string(), t("05")),
        ]
    );
}

#[test]
fn blog_post_overwrites_given_slug_and_keeps_description_without_excerpt() {
    let mut given = plain("post", "Hello", vec![("slug", t("mine")), ("date", t("1999/12/31"))]);
    given.og_description = "given".to_string();
    let m = enrich(Kind::BlogPost, given, "post.html", "a/b.md").unwrap();
    assert_eq!(get(&m.stuff, "slug"), Some(&t("b")));
    assert_eq!(get(&m.stuff, "year"), Some(&t("1999")));
    assert_eq!(get(&m.stuff, "month"), Some(&t("12")));
    assert_eq!(get(&m.stuff, "day"), Some(&t("31")));
    assert_eq!(get(&m.stuff, "date"), Some(&t("1999/12/31")));
    assert_eq!(m.og_description, "given");
}

#[test]
fn blog_post_with_excerpt_that_is_no_text_has_empty_description() {
    let mut given = plain("post", "Hello", vec![("date", t("2024/01/02")), ("excerpt", Datum::Integer(1))]);
    given.og_description = "given".to_string();
    let m = enrich(Kind::BlogPost, given, "post.html", "a/b.md").unwrap();
    assert_eq!(m.og_description, "");
}

#[test]
fn blog_post_without_date_fails() {
    let out = enrich(Kind::BlogPost, plain("post", "Hello", vec![]), "post.html", "posts/a.md");
    assert_eq!(out, Err(SiteError { kind: ErrorKind::MissingDate, subject: "posts/a.md".to_string() }));
}

#[test]
fn blog_post_with_date_that_is_no_text_fails() {
    let out = enrich(
        Kind::BlogPost,
        plain("post", "Hello", vec![("date", Datum::Integer(20240305))]),
        "post.html",
        "posts/a.md",
    );
    assert_eq!(out, Err(SiteError { kind: ErrorKind::InvalidDate, subject: "posts/a.md".to_string() }));
}

#[test]
fn blog_post_with_date_of_wrong_shape_fails() {
    for date in ["2024/03", "2024/03/05/06", "2024-03-05", ""] {
        let out = enrich(
            Kind::BlogPost,
            plain("post", "Hello", vec![("date", t(date))]),
            "post.html",
            "posts/a.md",
        );
        assert_eq!(
            out,
            Err(SiteError { kind: ErrorKind::InvalidDate, subject: "posts/a.md".to_string() })
        );
    }
}

#[test]
fn blog_post_without_stem_fails() {
    let out = enrich(
        Kind::BlogPost,
        plain("post", "Hello", vec![("date", t("2024/03/05"))]),
        "post.html",
        "posts/..",
    );
    assert_eq!(out, Err(SiteError { kind: ErrorKind::MissingSlug, subject: "posts/..".to_string() }));
}

#[test]
fn error_classes() {
    assert_eq!(ErrorKind::UnknownRoute.class(), ErrorClass::Configuration);
    assert_eq!(ErrorKind::MalformedMetadata.class(), ErrorClass::Configuration);
    assert_eq!(ErrorKind::AmbiguousNavbarPrimary.class(), ErrorClass::Configuration);
    assert_eq!(ErrorKind::MissingDate.class(), ErrorClass::Content);
    assert_eq!(ErrorKind::InvalidMonth.class(), ErrorClass::Content);
    assert_eq!(ErrorKind::MissingExcerpt.class(), ErrorClass::Content);
    assert_eq!(ErrorKind::Template.class(), ErrorClass::Template);
    assert_eq!(ErrorKind::MissingBlogpostTemplate.class(), ErrorClass::Template);
    assert_eq!(ErrorKind::UnknownTemplate.class(), ErrorClass::Template);
}

#[test]
fn blog_post_date_is_written_in_full() {
    for (given, full) in [("24/1/2", "0024/01/02"), ("2024/11/20", "2024/11/20"), ("//", "0000/00/00"), ("20245/123/x", "20245/123/0x")] {
        let m = enrich(
            Kind::BlogPost,
            plain("post", "Hello", vec![("date", t(given))]),
            "post.html",
            "posts/a.md",
        )
        .unwrap();
        assert_eq!(get(&m.stuff, "date"), Some(&t(full)));
    }
}

#[test]
fn failure_message_names_kind_and_subject() {
    let e = SiteError::new(ErrorKind::MissingDate, "posts/a.md");
    assert_eq!(e, SiteError { kind: ErrorKind::MissingDate, subject: "posts/a.md".to_string() });
    assert_eq!(e.message(), "blog post has no date: posts/a.md");
    assert_eq!(SiteError::new(ErrorKind::UnknownRoute, "home").message(), "no route defined: home");
}

#[test]
fn navbar_index_may_be_a_number_beyond_the_signed_integers() {
    let h = header(vec![
        ("title", t("T")),
        ("route", t("r")),
        ("navbar", header(vec![("index", Datum::Number("18446744073709551615".to_string()))])),
    ]);
    let m = DynamicContentMetadata::from_datum(&h).unwrap();
    assert_eq!(m.navbar.unwrap().index, 18446744073709551615usize);
    for bad in ["18446744073709551616", "1.5", "-1", "", "1e3", "12a"] {
        let h = header(vec![
            ("title", t("T")),
            ("route", t("r")),
            ("navbar", header(vec![("index", Datum::Number(bad.to_string()))])),
        ]);
        assert_eq!(DynamicContentMetadata::from_datum(&h), None, "index {:?}", bad);
    }
}

#[test]
fn counts_of_values() {
    assert_eq!(Datum::Integer(0).as_count(), Some(0));
    assert_eq!(Datum::Integer(41).as_count(), Some(41));
    assert_eq!(Datum::Integer(-1).as_count(), None);
    assert_eq!(Datum::Number("9223372036854775808".to_string()).as_count(), Some(9223372036854775808usize));
    assert_eq!(Datum::Number("007".to_string()).as_count(), Some(7));
    assert_eq!(Datum::Number("2.0".to_string()).as_count(), None);
    assert_eq!(t("3").as_count(), None);
    assert_eq!(Datum::Null.as_count(), None);
}
