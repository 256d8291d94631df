//! The aggregates of a run as values that a template can read.

use crate::blog::{ArchiveMonth, ArchiveMonthView, BlogpostIndexEntry, EntryView};
use crate::json::{
    count_view, entries_view, items_view, lemma_list_view, lemma_mapping_view, Datum, DatumView,
};
use crate::navbar::{lemma_children_view, Navbar, NavbarEntry, NavbarEntryView, NavbarView};
use crate::seqs::views;
use crate::sitemap::{Sitemap, SitemapView};
use vstd::prelude::*;

verus! {

/// The list value of the items `items`.
pub fn list(items: Vec<Datum>) -> (out: Datum)
    ensures
        out@ == DatumView::List(items_view(items@)),
{
    proof {
        lemma_list_view(items);
    }
    Datum::List(items)
}

/// The mapping value of the entries `entries`.
pub fn mapping(entries: Vec<(String, Datum)>) -> (out: Datum)
    ensures
        out@ == DatumView::Mapping(entries_view(entries@)),
{
    proof {
        lemma_mapping_view(entries);
    }
    Datum::Mapping(entries)
}

/// A record with the one field `entries`.
pub open spec fn entries_value(items: Seq<DatumView>) -> DatumView {
    DatumView::Mapping(seq![("entries"@, DatumView::List(items))])
}

/// A record with the one field `entries`.
pub fn entries_datum(items: Vec<Datum>) -> (out: Datum)
    ensures
        out@ == entries_value(items_view(items@)),
{
    let mut fields: Vec<(String, Datum)> = Vec::new();
    fields.push(("entries".to_owned(), list(items)));
    assert(entries_view(fields@) =~= seq![("entries"@, DatumView::List(items_view(items@)))]);
    mapping(fields)
}

/// A list of texts.
pub open spec fn texts_value(texts: Seq<Seq<char>>) -> DatumView {
    DatumView::List(texts.map_values(|t: Seq<char>| DatumView::Text(t)))
}

/// A list of texts.
pub fn texts_datum(texts: &Vec<String>) -> (out: Datum)
    ensures
        out@ == texts_value(views(texts@)),
{
    let mut items: Vec<Datum> = Vec::new();
    let mut i: usize = 0;
    while i < texts.len()
        invariant
            i <= texts.len(),
            items.len() == i,
            forall|j: int| 0 <= j < i ==> items[j]@ == DatumView::Text(texts[j]@),
        decreases texts.len() - i,
    {
        items.push(Datum::Text(texts[i].clone()));
        i = i + 1;
    }
    assert(items_view(items@) =~= views(texts@).map_values(|t: Seq<char>| DatumView::Text(t)));
    list(items)
}

/// A post of the index, field by field.
pub open spec fn post_value(e: EntryView) -> DatumView {
    DatumView::Mapping(
        seq![
            ("url"@, DatumView::Text(e.url)),
            ("slug"@, DatumView::Text(e.slug)),
            ("title"@, DatumView::Text(e.title)),
            ("excerpt"@, DatumView::Text(e.excerpt)),
            ("date"@, DatumView::Text(e.date)),
            ("year"@, DatumView::Text(e.year)),
            ("month"@, DatumView::Text(e.month)),
            ("day"@, DatumView::Text(e.day)),
            ("tags"@, texts_value(e.tags)),
            ("featured"@, DatumView::Boolean(e.featured)),
        ],
    )
}

/// A post of the index, field by field.
pub fn post_datum(e: &BlogpostIndexEntry) -> (out: Datum)
    ensures
        out@ == post_value(e@),
{
    let mut fields: Vec<(String, Datum)> = Vec::new();
    fields.push(("url".to_owned(), Datum::Text(e.url.clone())));
    fields.push(("slug".to_owned(), Datum::Text(e.slug.clone())));
    fields.push(("title".to_owned(), Datum::Text(e.title.clone())));
    fields.push(("excerpt".to_owned(), Datum::Text(e.excerpt.clone())));
    fields.push(("date".to_owned(), Datum::Text(e.date.clone())));
    fields.push(("year".to_owned(), Datum::Text(e.year.clone())));
    fields.push(("month".to_owned(), Datum::Text(e.month.clone())));
    fields.push(("day".to_owned(), Datum::Text(e.day.clone())));
    fields.push(("tags".to_owned(), texts_datum(&e.tags)));
    fields.push(("featured".to_owned(), Datum::Boolean(e.featured)));
    assert(entries_view(fields@) =~= post_value(e@)->Mapping_0);
    mapping(fields)
}

/// The posts `entries`, each as a value.
pub fn post_data(entries: &Vec<BlogpostIndexEntry>) -> (out: Vec<Datum>)
    ensures
        items_view(out@) == views(entries@).map_values(|e: EntryView| post_value(e)),
{
    let mut items: Vec<Datum> = Vec::new();
    let mut i: usize = 0;
    while i < entries.len()
        invariant
            i <= entries.len(),
            items.len() == i,
            forall|j: int| 0 <= j < i ==> items[j]@ == post_value(entries[j]@),
        decreases entries.len() - i,
    {
        items.push(post_datum(&entries[i]));
        i = i + 1;
    }
    assert(items_view(items@) =~= views(entries@).map_values(|e: EntryView| post_value(e)));
    items
}

/// An entry of the navigation bar with its children, field by field.
pub open spec fn nav_entry_value(e: NavbarEntryView) -> DatumView
    decreases e,
{
    DatumView::Mapping(
        seq![
            ("url"@, DatumView::Text(e.url)),
            ("title"@, DatumView::Text(e.title)),
            ("active"@, DatumView::Boolean(e.active)),
            (
                "children"@,
                DatumView::List(
                    Seq::new(
                        e.children.len(),
                        |i: int|
                            if 0 <= i < e.children.len() {
                                nav_entry_value(e.children[i])
                            } else {
                                DatumView::Null
                            },
                    ),
                ),
            ),
        ],
    )
}

/// An entry of the navigation bar with its children, field by field.
pub fn nav_entry_datum(e: &NavbarEntry) -> (out: Datum)
    ensures
        out@ == nav_entry_value(e@),
    decreases e,
{
    let mut children: Vec<Datum> = Vec::new();
    let mut i: usize = 0;
    proof {
        lemma_children_view(*e);
    }
    while i < e.children.len()
        invariant
            i <= e.children.len(),
            children.len() == i,
            e@.children == views(e.children@),
            forall|j: int| 0 <= j < i ==> children[j]@ == nav_entry_value(e@.children[j]),
        decreases e.children.len() - i,
    {
        proof {
            assert(decreases_to!(e.children => e.children[i as int]));
            assert(decreases_to!(*e => e.children));
        }
        children.push(nav_entry_datum(&e.children[i]));
        i = i + 1;
    }
    let mut fields: Vec<(String, Datum)> = Vec::new();
    fields.push(("url".to_owned(), Datum::Text(e.url.clone())));
    fields.push(("title".to_owned(), Datum::Text(e.title.clone())));
    fields.push(("active".to_owned(), Datum::Boolean(e.active)));
    proof {
        let kids = nav_entry_value(e@)->Mapping_0[3].1->List_0;
        assert(kids.len() == e@.children.len());
        assert forall|j: int| 0 <= j < kids.len() implies kids[j] == items_view(children@)[j] by {
            assert(kids[j] == nav_entry_value(e@.children[j]));
        }
        assert(items_view(children@) =~= kids);
    }
    fields.push(("children".to_owned(), list(children)));
    assert(entries_view(fields@) =~= nav_entry_value(e@)->Mapping_0);
    mapping(fields)
}

/// The navigation bar as a value.
pub open spec fn navbar_value(n: NavbarView) -> DatumView {
    entries_value(n.entries.map_values(|e: NavbarEntryView| nav_entry_value(e)))
}

/// The navigation bar as a value.
pub fn navbar_datum(n: &Navbar) -> (out: Datum)
    ensures
        out@ == navbar_value(n@),
{
    let mut items: Vec<Datum> = Vec::new();
    let mut i: usize = 0;
    while i < n.entries.len()
        invariant
            i <= n.entries.len(),
            items.len() == i,
            forall|j: int| 0 <= j < i ==> items[j]@ == nav_entry_value(n.entries[j]@),
        decreases n.entries.len() - i,
    {
        items.push(nav_entry_datum(&n.entries[i]));
        i = i + 1;
    }
    assert(items_view(items@) =~= n@.entries.map_values(|e: NavbarEntryView| nav_entry_value(e)));
    entries_datum(items)
}

/// A tag with its count, as a pair.
pub open spec fn count_value(t: (Seq<char>, usize)) -> DatumView {
    DatumView::List(seq![DatumView::Text(t.0), count_view(t.1 as nat)])
}

/// The tags with their counts as a value.
pub open spec fn counts_value(counts: Seq<(Seq<char>, usize)>) -> DatumView {
    entries_value(counts.map_values(|t: (Seq<char>, usize)| count_value(t)))
}

/// The tags with their counts as a value.
pub fn counts_datum(counts: &Vec<(String, usize)>) -> (out: Datum)
    ensures
        out@ == counts_value(crate::blog::count_views(counts@)),
{
    let mut items: Vec<Datum> = Vec::new();
    let mut i: usize = 0;
    while i < counts.len()
        invariant
            i <= counts.len(),
            items.len() == i,
            forall|j: int| 0 <= j < i ==> items[j]@ == count_value((counts[j].0@, counts[j].1)),
        decreases counts.len() - i,
    {
        let mut pair: Vec<Datum> = Vec::new();
        pair.push(Datum::Text(counts[i].0.clone()));
        pair.push(Datum::count(counts[i].1));
        assert(items_view(pair@) =~= seq![
            DatumView::Text(counts[i as int].0@),
            count_view(counts[i as int].1 as nat),
        ]);
        items.push(list(pair));
        i = i + 1;
    }
    assert(items_view(items@) =~= crate::blog::count_views(counts@).map_values(
        |t: (Seq<char>, usize)| count_value(t),
    ));
    entries_datum(items)
}

/// A month of the archives, as a triple.
pub open spec fn month_value(a: ArchiveMonthView) -> DatumView {
    DatumView::List(
        seq![
            DatumView::Text(a.year),
            DatumView::Text(a.month_name),
            DatumView::List(a.entries.map_values(|e: EntryView| post_value(e))),
        ],
    )
}

/// The archives as a value.
pub open spec fn archives_value(months: Seq<ArchiveMonthView>) -> DatumView {
    entries_value(months.map_values(|a: ArchiveMonthView| month_value(a)))
}

/// The archives as a value.
pub fn archives_datum(months: &Vec<ArchiveMonth>) -> (out: Datum)
    ensures
        out@ == archives_value(views(months@)),
{
    let mut items: Vec<Datum> = Vec::new();
    let mut i: usize = 0;
    while i < months.len()
        invariant
            i <= months.len(),
            items.len() == i,
            forall|j: int| 0 <= j < i ==> items[j]@ == month_value(months[j]@),
        decreases months.len() - i,
    {
        let mut triple: Vec<Datum> = Vec::new();
        triple.push(Datum::Text(months[i].year.clone()));
        triple.push(Datum::Text(months[i].month_name.clone()));
        triple.push(list(post_data(&months[i].entries)));
        assert(items_view(triple@) =~= month_value(months[i as int]@)->List_0);
        items.push(list(triple));
        i = i + 1;
    }
    assert(items_view(items@) =~= views(months@).map_values(|a: ArchiveMonthView| month_value(a)));
    entries_datum(items)
}

/// The sitemap as a value.
pub open spec fn sitemap_value(s: SitemapView) -> DatumView {
    DatumView::Mapping(seq![("entries"@, texts_value(s.entries))])
}

/// The sitemap as a value.
pub fn sitemap_datum(s: &Sitemap) -> (out: Datum)
    ensures
        out@ == sitemap_value(s@),
{
    let mut fields: Vec<(String, Datum)> = Vec::new();
    fields.push(("entries".to_owned(), texts_datum(&s.entries)));
    assert(entries_view(fields@) =~= seq![("entries"@, texts_value(s@.entries))]);
    mapping(fields)
}

} // verus!
