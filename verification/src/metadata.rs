//! The metadata header of a content file: how it is parted from the body,
//! which shape it must have, and what a blog post adds to it.

use crate::config::Kind;
use crate::error::{failure, ErrorKind, SiteError, SiteErrorView};
use crate::json::{
    count_of, duplicate_entries, entries_view, get, insert, lookup, with_entry, BagView, Datum,
    DatumView,
};
use crate::paths::{file_stem, file_stem_exec, slice};
use crate::text::{
    append, find, first_occurrence, from_chars, matches_at, matches_at_exec, split, split_exec,
    starts_with, str_eq, to_chars, zero_pad, zero_pad_exec,
};
use vstd::prelude::*;

verus! {

/// Where a page stands in the navigation bar.
#[derive(Debug, PartialEq, Eq)]
pub struct NavbarConfig {
    /// The position within the group; for a primary entry, the position of
    /// the group among the top-level entries.
    pub index: usize,
    /// The group, if the page is shown inside one.
    pub group: Option<String>,
    /// Whether the page heads its group.
    pub is_primary: bool,
}

/// A navbar placement as specifications see it.
pub ghost struct NavbarConfigView {
    pub index: usize,
    pub group: Option<Seq<char>>,
    pub is_primary: bool,
}

/// The content of an optional text.
pub open spec fn optional_text(t: Option<String>) -> Option<Seq<char>> {
    match t {
        Some(s) => Some(s@),
        None => None,
    }
}

impl View for NavbarConfig {
    type V = NavbarConfigView;

    open spec fn view(&self) -> NavbarConfigView {
        NavbarConfigView {
            index: self.index,
            group: optional_text(self.group),
            is_primary: self.is_primary,
        }
    }
}

/// The metadata of one page.
#[derive(Debug, PartialEq, Eq)]
pub struct DynamicContentMetadata {
    /// The name of the page's route.
    pub route: String,
    pub title: String,
    /// The template that renders the page; without one the page's own body
    /// is the template.
    pub template: Option<String>,
    pub navbar: Option<NavbarConfig>,
    /// Whether the body is markdown.
    pub markdown: bool,
    /// Every other key of the header, with its value.
    pub stuff: Vec<(String, Datum)>,
    pub og_title: String,
    pub og_type: String,
    pub og_description: String,
    pub exclude_from_sitemap: bool,
}

/// Metadata as specifications see it.
pub ghost struct MetadataView {
    pub route: Seq<char>,
    pub title: Seq<char>,
    pub template: Option<Seq<char>>,
    pub navbar: Option<NavbarConfigView>,
    pub markdown: bool,
    pub stuff: BagView,
    pub og_title: Seq<char>,
    pub og_type: Seq<char>,
    pub og_description: Seq<char>,
    pub exclude_from_sitemap: bool,
}

impl View for DynamicContentMetadata {
    type V = MetadataView;

    open spec fn view(&self) -> MetadataView {
        MetadataView {
            route: self.route@,
            title: self.title@,
            template: optional_text(self.template),
            navbar: match self.navbar {
                Some(n) => Some(n@),
                None => None,
            },
            markdown: self.markdown,
            stuff: entries_view(self.stuff@),
            og_title: self.og_title@,
            og_type: self.og_type@,
            og_description: self.og_description@,
            exclude_from_sitemap: self.exclude_from_sitemap,
        }
    }
}

/// The two characters that open a header.
pub open spec fn opening() -> Seq<char> {
    seq!['{', '\n']
}

/// The four characters that end a header: the closing brace on a line of
/// its own, then an empty line.
pub open spec fn terminator() -> Seq<char> {
    seq!['\n', '}', '\n', '\n']
}

/// `text` is a header `header`, an empty line and a body `body`: it opens
/// with the opening marker, and the header ends with the brace of the first
/// terminator.
pub open spec fn framed(text: Seq<char>, header: Seq<char>, body: Seq<char>) -> bool {
    &&& starts_with(text, opening())
    &&& exists|i: int|
        first_occurrence(text, terminator(), i) && header == text.take(i + 2) && body == text.skip(
            i + 4,
        )
}

/// Header and body of a framed text put together again give the text.
pub proof fn lemma_frame_round_trip(text: Seq<char>, header: Seq<char>, body: Seq<char>)
    requires
        framed(text, header, body),
    ensures
        header + seq!['\n', '\n'] + body == text,
{
    let i = choose|i: int|
        first_occurrence(text, terminator(), i) && header == text.take(i + 2) && body == text.skip(
            i + 4,
        );
    let t = text.subrange(i, i + 4);
    assert(t == terminator());
    assert(t[2] == '\n' && t[3] == '\n');
    assert(text[i + 2] == '\n' && text[i + 3] == '\n');
    assert(header + seq!['\n', '\n'] + body =~= text);
}

/// A header that opens with the marker, ends with a closing brace on its
/// own line and holds no terminator before that, followed by an empty line
/// and any body, is framed as that header and that body.
pub proof fn lemma_frame_of_parts(header: Seq<char>, body: Seq<char>)
    requires
        starts_with(header, opening()),
        header.len() >= 4,
        header[header.len() - 2] == '\n',
        header[header.len() - 1] == '}',
        forall|j: int| 0 <= j < header.len() - 2 ==> !matches_at(header + seq!['\n', '\n'], terminator(), j),
    ensures
        framed(header + seq!['\n', '\n'] + body, header, body),
{
    let text = header + seq!['\n', '\n'] + body;
    let i = header.len() - 2;
    assert(text.subrange(0, 2) =~= header.subrange(0, 2));
    assert(text.subrange(i, i + 4) =~= terminator());
    assert forall|j: int| 0 <= j < i implies !matches_at(text, terminator(), j) by {
        let framed_header = header + seq!['\n', '\n'];
        assert(!matches_at(framed_header, terminator(), j));
        assert(text.subrange(j, j + 4) =~= framed_header.subrange(j, j + 4));
    }
    assert(first_occurrence(text, terminator(), i));
    assert(header =~= text.take(i + 2));
    assert(body =~= text.skip(i + 4));
}

/// Parts `text` into its header and its body.
pub fn split_frontmatter(text: &str) -> (r: Result<(String, String), ErrorKind>)
    ensures
        match r {
            Ok((header, body)) => framed(text@, header@, body@),
            Err(kind) => if starts_with(text@, opening()) {
                kind == ErrorKind::MissingTerminator && forall|j: int|
                    !matches_at(text@, terminator(), j)
            } else {
                kind == ErrorKind::MissingOpeningMarker
            },
        },
{
    let s = to_chars(text);
    let mut open: Vec<char> = Vec::new();
    open.push('{');
    open.push('\n');
    assert(open@ =~= opening());
    if !matches_at_exec(&s, &open, 0) {
        return Err(ErrorKind::MissingOpeningMarker);
    }
    let mut token: Vec<char> = Vec::new();
    token.push('\n');
    token.push('}');
    token.push('\n');
    token.push('\n');
    assert(token@ =~= terminator());
    match find(&s, &token) {
        None => Err(ErrorKind::MissingTerminator),
        Some(i) => {
            assert(token@.len() == 4);
            assert(i + 4 <= s.len());
            let header = slice(&s, 0, i + 2);
            let body = slice(&s, i + 4, s.len());
            proof {
                assert(header@ =~= s@.take(i + 2));
                assert(body@ =~= s@.skip(i + 4));
            }
            Ok((from_chars(&header), from_chars(&body)))
        },
    }
}

/// Whether `key` is one of the header fields with a meaning of its own.
pub open spec fn is_named_field(key: Seq<char>) -> bool {
    ||| key == "route"@
    ||| key == "title"@
    ||| key == "template"@
    ||| key == "navbar"@
    ||| key == "markdown"@
    ||| key == "og_title"@
    ||| key == "og_type"@
    ||| key == "og_description"@
    ||| key == "exclude_from_sitemap"@
}

/// A text that must be there.
pub open spec fn required_text(bag: BagView, key: Seq<char>) -> Option<Seq<char>> {
    match lookup(bag, key) {
        Some(DatumView::Text(s)) => Some(s),
        _ => None,
    }
}

/// A text that is empty where the key is absent.
pub open spec fn defaulted_text(bag: BagView, key: Seq<char>) -> Option<Seq<char>> {
    match lookup(bag, key) {
        None => Some(Seq::<char>::empty()),
        Some(DatumView::Text(s)) => Some(s),
        _ => None,
    }
}

/// A text that may be absent or null.
pub open spec fn nullable_text(bag: BagView, key: Seq<char>) -> Option<Option<Seq<char>>> {
    match lookup(bag, key) {
        None => Some(None),
        Some(DatumView::Null) => Some(None),
        Some(DatumView::Text(s)) => Some(Some(s)),
        _ => None,
    }
}

/// A flag that is off where the key is absent.
pub open spec fn defaulted_flag(bag: BagView, key: Seq<char>) -> Option<bool> {
    match lookup(bag, key) {
        None => Some(false),
        Some(DatumView::Boolean(b)) => Some(b),
        _ => None,
    }
}

/// The count under `key`.
pub open spec fn required_count(bag: BagView, key: Seq<char>) -> Option<usize> {
    match lookup(bag, key) {
        Some(v) => count_of(v),
        None => None,
    }
}

/// The navbar placement that the fields `fields` describe: an `index` that
/// is a count, an optional `group`, an optional `is_primary`.
pub open spec fn placement_of_fields(fields: BagView) -> Option<NavbarConfigView> {
    match (
        required_count(fields, "index"@),
        nullable_text(fields, "group"@),
        defaulted_flag(fields, "is_primary"@),
    ) {
        (Some(index), Some(group), Some(is_primary)) => Some(
            NavbarConfigView { index, group, is_primary },
        ),
        _ => None,
    }
}

/// The navbar placement of a header: none where `navbar` is absent or null.
pub open spec fn placement_of(bag: BagView) -> Option<Option<NavbarConfigView>> {
    match lookup(bag, "navbar"@) {
        None => Some(None),
        Some(DatumView::Null) => Some(None),
        Some(DatumView::Mapping(fields)) => match placement_of_fields(fields) {
            Some(n) => Some(Some(n)),
            None => None,
        },
        _ => None,
    }
}

/// The entries of a header whose keys have no meaning of their own.
pub open spec fn other_fields(bag: BagView) -> BagView {
    bag.filter(|e: (Seq<char>, DatumView)| !is_named_field(e.0))
}

/// The metadata that a header with the entries `bag` describes, or nothing
/// where it has not the expected shape: `route` and `title` are texts;
/// `template` is a text, null or absent; `navbar` a placement, null or
/// absent; `markdown` and `exclude_from_sitemap` are booleans or absent;
/// `og_title`, `og_type` and `og_description` are texts or absent.
pub open spec fn metadata_of(bag: BagView) -> Option<MetadataView> {
    match (
        required_text(bag, "route"@),
        required_text(bag, "title"@),
        nullable_text(bag, "template"@),
        placement_of(bag),
        defaulted_flag(bag, "markdown"@),
        defaulted_text(bag, "og_title"@),
        defaulted_text(bag, "og_type"@),
        defaulted_text(bag, "og_description"@),
        defaulted_flag(bag, "exclude_from_sitemap"@),
    ) {
        (
            Some(route),
            Some(title),
            Some(template),
            Some(navbar),
            Some(markdown),
            Some(og_title),
            Some(og_type),
            Some(og_description),
            Some(exclude_from_sitemap),
        ) => Some(
            MetadataView {
                route,
                title,
                template,
                navbar,
                markdown,
                stuff: other_fields(bag),
                og_title,
                og_type,
                og_description,
                exclude_from_sitemap,
            },
        ),
        _ => None,
    }
}

/// The metadata of a parsed header: that of its entries where it is an
/// object.
pub open spec fn metadata_of_datum(header: DatumView) -> Option<MetadataView> {
    match header {
        DatumView::Mapping(bag) => metadata_of(bag),
        _ => None,
    }
}

pub fn required_text_exec(entries: &Vec<(String, Datum)>, key: &str) -> (r: Option<String>)
    ensures
        optional_text(r) == required_text(entries_view(entries@), key@),
{
    match get(entries, key) {
        Some(Datum::Text(s)) => Some(s.clone()),
        _ => None,
    }
}

fn defaulted_text_exec(entries: &Vec<(String, Datum)>, key: &str) -> (r: Option<String>)
    ensures
        optional_text(r) == defaulted_text(entries_view(entries@), key@),
{
    match get(entries, key) {
        None => Some(String::new()),
        Some(Datum::Text(s)) => Some(s.clone()),
        _ => None,
    }
}

fn nullable_text_exec(entries: &Vec<(String, Datum)>, key: &str) -> (r: Option<Option<String>>)
    ensures
        match r {
            Some(t) => nullable_text(entries_view(entries@), key@) == Some(optional_text(t)),
            None => nullable_text(entries_view(entries@), key@) is None,
        },
{
    match get(entries, key) {
        None => Some(None),
        Some(Datum::Null) => Some(None),
        Some(Datum::Text(s)) => Some(Some(s.clone())),
        _ => None,
    }
}

fn defaulted_flag_exec(entries: &Vec<(String, Datum)>, key: &str) -> (r: Option<bool>)
    ensures
        r == defaulted_flag(entries_view(entries@), key@),
{
    match get(entries, key) {
        None => Some(false),
        Some(Datum::Boolean(b)) => Some(*b),
        _ => None,
    }
}

fn placement_of_fields_exec(fields: &Vec<(String, Datum)>) -> (r: Option<NavbarConfig>)
    ensures
        match r {
            Some(n) => placement_of_fields(entries_view(fields@)) == Some(n@),
            None => placement_of_fields(entries_view(fields@)) is None,
        },
{
    let given = match get(fields, "index") {
        Some(v) => v.as_count(),
        None => None,
    };
    let index: usize = match given {
        Some(index) => index,
        None => {
            return None;
        },
    };
    let group = match nullable_text_exec(fields, "group") {
        Some(g) => g,
        None => {
            return None;
        },
    };
    let is_primary = match defaulted_flag_exec(fields, "is_primary") {
        Some(p) => p,
        None => {
            return None;
        },
    };
    Some(NavbarConfig { index, group, is_primary })
}

fn placement_of_exec(entries: &Vec<(String, Datum)>) -> (r: Option<Option<NavbarConfig>>)
    ensures
        match r {
            Some(Some(n)) => placement_of(entries_view(entries@)) == Some(Some(n@)),
            Some(None) => placement_of(entries_view(entries@)) == Some(None::<NavbarConfigView>),
            None => placement_of(entries_view(entries@)) is None,
        },
{
    match get(entries, "navbar") {
        None => Some(None),
        Some(Datum::Null) => Some(None),
        Some(Datum::Mapping(fields)) => {
            proof {
                crate::json::lemma_mapping_view(*fields);
            }
            match placement_of_fields_exec(fields) {
                Some(n) => Some(Some(n)),
                None => None,
            }
        },
        _ => None,
    }
}

/// Whether `key` is one of the header fields with a meaning of its own.
pub fn is_named_field_exec(key: &str) -> (r: bool)
    ensures
        r == is_named_field(key@),
{
    str_eq(key, "route") || str_eq(key, "title") || str_eq(key, "template") || str_eq(
        key,
        "navbar",
    ) || str_eq(key, "markdown") || str_eq(key, "og_title") || str_eq(key, "og_type") || str_eq(
        key,
        "og_description",
    ) || str_eq(key, "exclude_from_sitemap")
}

fn other_fields_exec(entries: &Vec<(String, Datum)>) -> (out: Vec<(String, Datum)>)
    ensures
        entries_view(out@) == other_fields(entries_view(entries@)),
{
    let ghost bag = entries_view(entries@);
    let ghost keep = |e: (Seq<char>, DatumView)| !is_named_field(e.0);
    let mut out: Vec<(String, Datum)> = Vec::new();
    let mut i: usize = 0;
    proof {
        reveal(Seq::filter);
        assert(bag.take(0) =~= Seq::empty());
        assert(entries_view(out@) =~= bag.take(0).filter(keep));
    }
    while i < entries.len()
        invariant
            i <= entries.len(),
            bag == entries_view(entries@),
            keep == |e: (Seq<char>, DatumView)| !is_named_field(e.0),
            entries_view(out@) == bag.take(i as int).filter(keep),
        decreases entries.len() - i,
    {
        proof {
            reveal(Seq::filter);
            assert(bag.take(i + 1).drop_last() =~= bag.take(i as int));
            assert(bag.take(i + 1).last() == bag[i as int]);
            assert(bag[i as int] == (entries[i as int].0@, entries[i as int].1@));
        }
        let ghost before = entries_view(out@);
        if !is_named_field_exec(entries[i].0.as_str()) {
            out.push((entries[i].0.clone(), entries[i].1.duplicate()));
            assert(entries_view(out@) =~= before.push(bag[i as int]));
        }
        i = i + 1;
    }
    assert(bag.take(entries.len() as int) =~= bag);
    out
}

impl DynamicContentMetadata {
    /// The metadata that the parsed header `header` describes.
    pub fn from_datum(header: &Datum) -> (r: Option<DynamicContentMetadata>)
        ensures
            match r {
                Some(m) => metadata_of_datum(header@) == Some(m@),
                None => metadata_of_datum(header@) is None,
            },
    {
        let entries = match header.as_mapping() {
            Some(entries) => entries,
            None => {
                return None;
            },
        };
        let route = match required_text_exec(entries, "route") {
            Some(t) => t,
            None => {
                return None;
            },
        };
        let title = match required_text_exec(entries, "title") {
            Some(t) => t,
            None => {
                return None;
            },
        };
        let template = match nullable_text_exec(entries, "template") {
            Some(t) => t,
            None => {
                return None;
            },
        };
        let navbar = match placement_of_exec(entries) {
            Some(n) => n,
            None => {
                return None;
            },
        };
        let markdown = match defaulted_flag_exec(entries, "markdown") {
            Some(b) => b,
            None => {
                return None;
            },
        };
        let og_title = match defaulted_text_exec(entries, "og_title") {
            Some(t) => t,
            None => {
                return None;
            },
        };
        let og_type = match defaulted_text_exec(entries, "og_type") {
            Some(t) => t,
            None => {
                return None;
            },
        };
        let og_description = match defaulted_text_exec(entries, "og_description") {
            Some(t) => t,
            None => {
                return None;
            },
        };
        let exclude_from_sitemap = match defaulted_flag_exec(entries, "exclude_from_sitemap") {
            Some(b) => b,
            None => {
                return None;
            },
        };
        let stuff = other_fields_exec(entries);
        Some(
            DynamicContentMetadata {
                route,
                title,
                template,
                navbar,
                markdown,
                stuff,
                og_title,
                og_type,
                og_description,
                exclude_from_sitemap,
            },
        )
    }

    /// A copy with the same contents.
    pub fn duplicate(&self) -> (out: DynamicContentMetadata)
        ensures
            out@ == self@,
    {
        DynamicContentMetadata {
            route: self.route.clone(),
            title: self.title.clone(),
            template: match &self.template {
                Some(t) => Some(t.clone()),
                None => None,
            },
            navbar: match &self.navbar {
                Some(n) => Some(
                    NavbarConfig {
                        index: n.index,
                        group: match &n.group {
                            Some(g) => Some(g.clone()),
                            None => None,
                        },
                        is_primary: n.is_primary,
                    },
                ),
                None => None,
            },
            markdown: self.markdown,
            stuff: duplicate_entries(&self.stuff),
            og_title: self.og_title.clone(),
            og_type: self.og_type.clone(),
            og_description: self.og_description.clone(),
            exclude_from_sitemap: self.exclude_from_sitemap,
        }
    }
}

/// The excerpt that a blog post shows as its description: the text under
/// `excerpt`, nothing where that is no text, and what the header gave where
/// there is no `excerpt`.
pub open spec fn described_by(stuff: BagView, given: Seq<char>) -> Seq<char> {
    match lookup(stuff, "excerpt"@) {
        Some(DatumView::Text(s)) => s,
        Some(_) => Seq::<char>::empty(),
        None => given,
    }
}

/// The date written in full: its three parts, each filled with zeros to
/// its width, with slashes between.
pub open spec fn normalized_date(parts: Seq<Seq<char>>) -> Seq<char> {
    zero_pad(parts[0], 4) + seq!['/'] + zero_pad(parts[1], 2) + seq!['/'] + zero_pad(parts[2], 2)
}

/// The bag of a blog post with the three parts of its date under `year`,
/// `month` and `day`, each filled with zeros to its width, and the date
/// written in full under `date`.
pub open spec fn with_date_parts(stuff: BagView, parts: Seq<Seq<char>>) -> BagView {
    with_entry(
        with_entry(
            with_entry(
                with_entry(stuff, "year"@, DatumView::Text(zero_pad(parts[0], 4))),
                "month"@,
                DatumView::Text(zero_pad(parts[1], 2)),
            ),
            "day"@,
            DatumView::Text(zero_pad(parts[2], 2)),
        ),
        "date"@,
        DatumView::Text(normalized_date(parts)),
    )
}

/// What the kind of a record adds to its metadata. A blog post is
/// markdown, rendered by the blog-post template, of type `article`; its
/// bag gains `slug`, the stem of its source path, and `year`, `month` and
/// `day` from its `date`, which must be a text of three parts between
/// slashes and is then written in full. Any other kind adds nothing.
pub open spec fn enriched(
    kind: Kind,
    m: MetadataView,
    blogpost_template: Seq<char>,
    source_path: Seq<char>,
) -> Result<MetadataView, SiteErrorView> {
    if kind != Kind::BlogPost {
        Ok(m)
    } else {
        match file_stem(source_path) {
            None => Err(failure(ErrorKind::MissingSlug, source_path)),
            Some(stem) => {
                let slugged = with_entry(m.stuff, "slug"@, DatumView::Text(stem));
                match lookup(slugged, "date"@) {
                    None => Err(failure(ErrorKind::MissingDate, source_path)),
                    Some(DatumView::Text(date)) => if split(date, '/').len() != 3 {
                        Err(failure(ErrorKind::InvalidDate, source_path))
                    } else {
                        let stuff = with_date_parts(slugged, split(date, '/'));
                        Ok(
                            MetadataView {
                                markdown: true,
                                template: Some(blogpost_template),
                                stuff,
                                og_type: "article"@,
                                og_description: described_by(stuff, m.og_description),
                                ..m
                            },
                        )
                    },
                    Some(_) => Err(failure(ErrorKind::InvalidDate, source_path)),
                }
            },
        }
    }
}

/// The five keys that a blog post gains are five different keys.
pub proof fn lemma_post_keys_differ()
    ensures
        "slug"@ != "date"@,
        "slug"@ != "year"@,
        "slug"@ != "month"@,
        "slug"@ != "day"@,
        "date"@ != "year"@,
        "date"@ != "month"@,
        "date"@ != "day"@,
        "year"@ != "month"@,
        "year"@ != "day"@,
        "month"@ != "day"@,
{
    reveal_strlit("slug");
    reveal_strlit("date");
    reveal_strlit("year");
    reveal_strlit("month");
    reveal_strlit("day");
    assert("slug"@[0] == 's');
    assert("date"@[0] == 'd');
    assert("year"@[0] == 'y');
    assert("month"@[0] == 'm');
    assert("day"@.len() == 3);
    assert("date"@.len() == 4);
}

/// Past the load stage the bag of a blog post holds, as texts, its `slug`,
/// the stem of its source path, and its `date`, `year`, `month` and `day`,
/// each written in full; the post is markdown, of type `article`, and
/// rendered by the blog-post template.
pub proof fn lemma_enriched_post(
    m: MetadataView,
    blogpost_template: Seq<char>,
    source_path: Seq<char>,
)
    requires
        enriched(Kind::BlogPost, m, blogpost_template, source_path) is Ok,
    ensures
        ({
            let full = enriched(Kind::BlogPost, m, blogpost_template, source_path)->Ok_0;
            let parts = split(required_text(m.stuff, "date"@)->Some_0, '/');
            &&& required_text(m.stuff, "date"@) is Some
            &&& parts.len() == 3
            &&& required_text(full.stuff, "slug"@) == file_stem(source_path)
            &&& required_text(full.stuff, "year"@) == Some(zero_pad(parts[0], 4))
            &&& required_text(full.stuff, "month"@) == Some(zero_pad(parts[1], 2))
            &&& required_text(full.stuff, "day"@) == Some(zero_pad(parts[2], 2))
            &&& required_text(full.stuff, "date"@) == Some(normalized_date(parts))
            &&& full.markdown
            &&& full.template == Some(blogpost_template)
            &&& full.og_type == "article"@
        }),
{
    lemma_post_keys_differ();
    let stem = file_stem(source_path)->Some_0;
    let slugged = with_entry(m.stuff, "slug"@, DatumView::Text(stem));
    crate::json::lemma_with_entry_lookup(m.stuff, "slug"@, DatumView::Text(stem), "date"@);
    let parts = split(required_text(m.stuff, "date"@)->Some_0, '/');
    let year = DatumView::Text(zero_pad(parts[0], 4));
    let month = DatumView::Text(zero_pad(parts[1], 2));
    let day = DatumView::Text(zero_pad(parts[2], 2));
    let date = DatumView::Text(normalized_date(parts));
    let b1 = with_entry(slugged, "year"@, year);
    let b2 = with_entry(b1, "month"@, month);
    let b3 = with_entry(b2, "day"@, day);
    let b4 = with_entry(b3, "date"@, date);
    crate::json::lemma_with_entry_lookup(m.stuff, "slug"@, DatumView::Text(stem), "slug"@);
    crate::json::lemma_with_entry_lookup(slugged, "year"@, year, "slug"@);
    crate::json::lemma_with_entry_lookup(b1, "month"@, month, "slug"@);
    crate::json::lemma_with_entry_lookup(b1, "month"@, month, "year"@);
    crate::json::lemma_with_entry_lookup(b2, "day"@, day, "slug"@);
    crate::json::lemma_with_entry_lookup(b2, "day"@, day, "year"@);
    crate::json::lemma_with_entry_lookup(b2, "day"@, day, "month"@);
    crate::json::lemma_with_entry_lookup(b3, "date"@, date, "slug"@);
    crate::json::lemma_with_entry_lookup(b3, "date"@, date, "year"@);
    crate::json::lemma_with_entry_lookup(b3, "date"@, date, "month"@);
    crate::json::lemma_with_entry_lookup(b3, "date"@, date, "day"@);
}

/// Adds to `metadata` what the kind `kind` asks for.
pub fn enrich(
    kind: Kind,
    metadata: DynamicContentMetadata,
    blogpost_template: &str,
    source_path: &str,
) -> (r: Result<DynamicContentMetadata, SiteError>)
    ensures
        match r {
            Ok(m) => enriched(kind, metadata@, blogpost_template@, source_path@) == Ok::<
                MetadataView,
                SiteErrorView,
            >(m@),
            Err(e) => enriched(kind, metadata@, blogpost_template@, source_path@) == Err::<
                MetadataView,
                SiteErrorView,
            >(e@),
        },
{
    match kind {
        Kind::BlogPost => {},
        _ => {
            return Ok(metadata);
        },
    }
    let mut metadata = metadata;
    let ghost given = metadata@;
    let stem = match file_stem_exec(source_path) {
        Some(stem) => stem,
        None => {
            return Err(SiteError::new(ErrorKind::MissingSlug, source_path));
        },
    };
    insert(&mut metadata.stuff, "slug", Datum::Text(stem));
    let date: Vec<char> = match get(&metadata.stuff, "date") {
        None => {
            return Err(SiteError::new(ErrorKind::MissingDate, source_path));
        },
        Some(Datum::Text(date)) => to_chars(date.as_str()),
        Some(_) => {
            return Err(SiteError::new(ErrorKind::InvalidDate, source_path));
        },
    };
    let parts = split_exec(&date, '/');
    if parts.len() != 3 {
        return Err(SiteError::new(ErrorKind::InvalidDate, source_path));
    }
    let year = zero_pad_exec(&parts[0], 4);
    let month = zero_pad_exec(&parts[1], 2);
    let day = zero_pad_exec(&parts[2], 2);
    let mut full: Vec<char> = Vec::new();
    append(&mut full, &year);
    full.push('/');
    append(&mut full, &month);
    full.push('/');
    append(&mut full, &day);
    assert(full@ =~= normalized_date(split(date@, '/')));
    insert(&mut metadata.stuff, "year", Datum::Text(from_chars(&year)));
    insert(&mut metadata.stuff, "month", Datum::Text(from_chars(&month)));
    insert(&mut metadata.stuff, "day", Datum::Text(from_chars(&day)));
    insert(&mut metadata.stuff, "date", Datum::Text(from_chars(&full)));
    metadata.markdown = true;
    metadata.template = Some(blogpost_template.to_owned());
    metadata.og_type = "article".to_owned();
    let description: Option<String> = match get(&metadata.stuff, "excerpt") {
        Some(Datum::Text(s)) => Some(s.clone()),
        Some(_) => Some(String::new()),
        None => None,
    };
    match description {
        Some(d) => {
            metadata.og_description = d;
        },
        None => {},
    }
    Ok(metadata)
}

} // verus!
