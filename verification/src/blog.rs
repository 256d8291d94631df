//! The index of blog posts, newest first, and what is drawn from it: the
//! featured posts, the tags with their counts, the archives by month, and
//! the posts that a template asks for.

use crate::config::Kind;
use crate::error::{failure, ErrorKind, SiteError, SiteErrorView};
use crate::json::{entries_view, get, items_view, lookup, BagView, Datum, DatumView};
use crate::metadata::{required_text, required_text_exec};
use crate::record::{Record, RecordView};
use crate::seqs::{
    distinct, lemma_distinct, lemma_filter_map_prefix, lemma_try_map_fails, occurrences, try_map,
    views,
};
use crate::sort::{
    in_order, lemma_sorted_by_in_order, lemma_sorted_by_map, sort_by, sorted_by, total, transitive,
};
use crate::text::{
    all_digits, chars_eq, lemma_digits_order, lemma_lex_le_order, lemma_lex_lt_parts,
    lemma_lex_trichotomy, lex_le, lex_lt, lex_lt_exec, number, str_eq, to_chars,
};
use vstd::prelude::*;

verus! {

/// One post in the index.
#[derive(Debug, PartialEq, Eq)]
pub struct BlogpostIndexEntry {
    pub url: String,
    pub slug: String,
    pub title: String,
    pub excerpt: String,
    pub date: String,
    pub year: String,
    pub month: String,
    pub day: String,
    pub tags: Vec<String>,
    pub featured: bool,
}

/// A post in the index as specifications see it.
pub ghost struct EntryView {
    pub url: Seq<char>,
    pub slug: Seq<char>,
    pub title: Seq<char>,
    pub excerpt: Seq<char>,
    pub date: Seq<char>,
    pub year: Seq<char>,
    pub month: Seq<char>,
    pub day: Seq<char>,
    pub tags: Seq<Seq<char>>,
    pub featured: bool,
}

impl View for BlogpostIndexEntry {
    type V = EntryView;

    open spec fn view(&self) -> EntryView {
        EntryView {
            url: self.url@,
            slug: self.slug@,
            title: self.title@,
            excerpt: self.excerpt@,
            date: self.date@,
            year: self.year@,
            month: self.month@,
            day: self.day@,
            tags: views(self.tags@),
            featured: self.featured,
        }
    }
}

/// A copy of `texts` with the same contents.
pub fn duplicate_texts(texts: &Vec<String>) -> (out: Vec<String>)
    ensures
        views(out@) == views(texts@),
{
    let mut out: Vec<String> = Vec::new();
    let mut i: usize = 0;
    while i < texts.len()
        invariant
            i <= texts.len(),
            out.len() == i,
            forall|j: int| 0 <= j < i ==> out[j]@ == texts[j]@,
        decreases texts.len() - i,
    {
        out.push(texts[i].clone());
        i = i + 1;
    }
    assert(views(out@) =~= views(texts@));
    out
}

impl BlogpostIndexEntry {
    /// A copy with the same contents.
    pub fn duplicate(&self) -> (out: BlogpostIndexEntry)
        ensures
            out@ == self@,
    {
        BlogpostIndexEntry {
            url: self.url.clone(),
            slug: self.slug.clone(),
            title: self.title.clone(),
            excerpt: self.excerpt.clone(),
            date: self.date.clone(),
            year: self.year.clone(),
            month: self.month.clone(),
            day: self.day.clone(),
            tags: duplicate_texts(&self.tags),
            featured: self.featured,
        }
    }
}

/// The index of all posts, newest first.
#[derive(Debug, PartialEq, Eq)]
pub struct BlogpostIndex {
    pub entries: Vec<BlogpostIndexEntry>,
}

/// The index as specifications see it.
pub ghost struct BlogpostIndexView {
    pub entries: Seq<EntryView>,
}

impl View for BlogpostIndex {
    type V = BlogpostIndexView;

    open spec fn view(&self) -> BlogpostIndexView {
        BlogpostIndexView { entries: views(self.entries@) }
    }
}

/// The text of a value that is a text.
pub open spec fn text_of(v: DatumView) -> Option<Seq<char>> {
    match v {
        DatumView::Text(s) => Some(s),
        _ => None,
    }
}

/// The tags of a post: the texts in the list under `tags`; none where
/// there is no such list.
pub open spec fn tags_of(bag: BagView) -> Seq<Seq<char>> {
    match lookup(bag, "tags"@) {
        Some(DatumView::List(items)) => items.filter_map(|v: DatumView| text_of(v)),
        _ => Seq::empty(),
    }
}

/// Whether a post is featured: the boolean under `featured`, else not.
pub open spec fn featured_of(bag: BagView) -> bool {
    match lookup(bag, "featured"@) {
        Some(DatumView::Boolean(b)) => b,
        _ => false,
    }
}

/// A record is a post for the index where it is a blog post with its
/// metadata and its URL.
pub open spec fn is_post(r: RecordView) -> bool {
    r.kind == Kind::BlogPost && r.url is Some && r.metadata is Some
}

/// The entry of the post `r`. Its bag must hold the texts `slug`, `date`,
/// `year`, `month` and `day`, and an `excerpt` that is a text.
pub open spec fn entry_of(r: RecordView) -> Result<EntryView, SiteErrorView> {
    let m = r.metadata->Some_0;
    let url = r.url->Some_0.url;
    match (
        required_text(m.stuff, "slug"@),
        required_text(m.stuff, "date"@),
        required_text(m.stuff, "year"@),
        required_text(m.stuff, "month"@),
        required_text(m.stuff, "day"@),
    ) {
        (Some(slug), Some(date), Some(year), Some(month), Some(day)) => match lookup(
            m.stuff,
            "excerpt"@,
        ) {
            None => Err(failure(ErrorKind::MissingExcerpt, url)),
            Some(DatumView::Text(excerpt)) => Ok(
                EntryView {
                    url,
                    slug,
                    title: m.title,
                    excerpt,
                    date,
                    year,
                    month,
                    day,
                    tags: tags_of(m.stuff),
                    featured: featured_of(m.stuff),
                },
            ),
            Some(_) => Err(failure(ErrorKind::InvalidExcerpt, url)),
        },
        _ => Err(failure(ErrorKind::IncompletePost, url)),
    }
}

/// The posts among `records`, in their order.
pub open spec fn posts(records: Seq<RecordView>) -> Seq<RecordView> {
    records.filter_map(
        |r: RecordView|
            if is_post(r) {
                Some(r)
            } else {
                None
            },
    )
}

/// The order of entries with the later date first.
pub open spec fn newest_first() -> spec_fn(EntryView, EntryView) -> bool {
    |a: EntryView, b: EntryView| lex_le(b.date, a.date)
}

/// The entries of the index of the posts `ps`, each of which has an entry:
/// those entries, the later date first, and posts of one date in the order
/// of `ps`.
pub open spec fn index_entries(ps: Seq<RecordView>) -> Seq<EntryView> {
    sorted_by(ps.map_values(|r: RecordView| entry_of(r)->Ok_0), newest_first())
}

/// The index of the posts among `records`: their entries, the later date
/// first, or the failure of the first post without a proper entry.
pub open spec fn index_of(records: Seq<RecordView>) -> Result<BlogpostIndexView, SiteErrorView> {
    match try_map(posts(records), |r: RecordView| entry_of(r)) {
        Err(e) => Err(e),
        Ok(entries) => Ok(BlogpostIndexView { entries: sorted_by(entries, newest_first()) }),
    }
}

/// An index that was built holds its posts with the later date first: no
/// post stands before one of a later date.
pub proof fn lemma_index_newest_first(records: Seq<RecordView>)
    requires
        index_of(records) is Ok,
    ensures
        in_order(index_of(records)->Ok_0.entries, newest_first()),
        forall|i: int, j: int|
            0 <= i < j < index_of(records)->Ok_0.entries.len() ==> !lex_lt(
                index_of(records)->Ok_0.entries[i].date,
                index_of(records)->Ok_0.entries[j].date,
            ),
{
    lemma_lex_le_order();
    assert(total(newest_first()));
    assert(transitive(newest_first()));
    let unsorted = try_map(posts(records), |r: RecordView| entry_of(r))->Ok_0;
    lemma_sorted_by_in_order(unsorted, newest_first());
    let entries = index_of(records)->Ok_0.entries;
    assert forall|i: int, j: int| 0 <= i < j < entries.len() implies !lex_lt(
        entries[i].date,
        entries[j].date,
    ) by {
        assert(newest_first()(entries[i], entries[j]));
        lemma_lex_trichotomy(entries[i].date, entries[j].date);
    }
}

/// Whether the date of a post is written in full: four digits of the
/// year, two of the month, two of the day, with slashes between.
pub open spec fn zero_padded(e: EntryView) -> bool {
    &&& e.year.len() == 4
    &&& e.month.len() == 2
    &&& e.day.len() == 2
    &&& all_digits(e.year)
    &&& all_digits(e.month)
    &&& all_digits(e.day)
    &&& e.date == e.year + seq!['/'] + e.month + seq!['/'] + e.day
}

/// The date of a post as three numbers: year, month, day.
pub open spec fn date_numbers(e: EntryView) -> (int, int, int) {
    (number(e.year), number(e.month), number(e.day))
}

/// The order of dates as three numbers: by year, then month, then day.
pub open spec fn numbers_le(a: (int, int, int), b: (int, int, int)) -> bool {
    a.0 < b.0 || (a.0 == b.0 && (a.1 < b.1 || (a.1 == b.1 && a.2 <= b.2)))
}

/// Dates that are written in full stand, as texts, in the order of their
/// years, months and days as numbers.
pub proof fn lemma_date_order(a: EntryView, b: EntryView)
    requires
        zero_padded(a),
        zero_padded(b),
    ensures
        lex_le(a.date, b.date) <==> numbers_le(date_numbers(a), date_numbers(b)),
{
    let slash = seq!['/'];
    let a_md = a.month + slash + a.day;
    let b_md = b.month + slash + b.day;
    let a_rest = slash + a_md;
    let b_rest = slash + b_md;
    assert(a.date =~= a.year + a_rest);
    assert(b.date =~= b.year + b_rest);
    lemma_lex_lt_parts(a.year, a_rest, b.year, b_rest);
    lemma_lex_lt_parts(slash, a_md, slash, b_md);
    assert(!lex_lt(slash, slash)) by {
        lemma_lex_trichotomy(slash, slash);
    }
    let a_d = slash + a.day;
    let b_d = slash + b.day;
    assert(a_md =~= a.month + a_d);
    assert(b_md =~= b.month + b_d);
    lemma_lex_lt_parts(a.month, a_d, b.month, b_d);
    lemma_lex_lt_parts(slash, a.day, slash, b.day);
    lemma_digits_order(a.year, b.year);
    lemma_digits_order(a.month, b.month);
    lemma_digits_order(a.day, b.day);
    if a.year == b.year && a.month == b.month && a.day == b.day {
        assert(a.date =~= b.date);
    }
    if a.date == b.date {
        assert(a.date.subrange(0, 4) =~= a.year);
        assert(b.date.subrange(0, 4) =~= b.year);
        assert(a.date.subrange(5, 7) =~= a.month);
        assert(b.date.subrange(5, 7) =~= b.month);
        assert(a.date.subrange(8, 10) =~= a.day);
        assert(b.date.subrange(8, 10) =~= b.day);
    }
}

/// In an index that was built from dates written in full, no post stands
/// before one of a later day.
pub proof fn lemma_index_by_numbers(records: Seq<RecordView>)
    requires
        index_of(records) is Ok,
        forall|i: int|
            0 <= i < index_of(records)->Ok_0.entries.len() ==> zero_padded(
                #[trigger] index_of(records)->Ok_0.entries[i],
            ),
    ensures
        forall|i: int, j: int|
            0 <= i < j < index_of(records)->Ok_0.entries.len() ==> numbers_le(
                date_numbers(#[trigger] index_of(records)->Ok_0.entries[j]),
                date_numbers(#[trigger] index_of(records)->Ok_0.entries[i]),
            ),
{
    lemma_index_newest_first(records);
    let entries = index_of(records)->Ok_0.entries;
    assert forall|i: int, j: int| 0 <= i < j < entries.len() implies numbers_le(
        date_numbers(#[trigger] entries[j]),
        date_numbers(#[trigger] entries[i]),
    ) by {
        assert(newest_first()(entries[i], entries[j]));
        lemma_date_order(entries[j], entries[i]);
    }
}

fn tags_exec(stuff: &Vec<(String, Datum)>) -> (out: Vec<String>)
    ensures
        views(out@) == tags_of(entries_view(stuff@)),
{
    let mut out: Vec<String> = Vec::new();
    let items = match get(stuff, "tags") {
        Some(Datum::List(items)) => {
            proof {
                crate::json::lemma_list_view(*items);
            }
            items
        },
        _ => {
            assert(views(out@) =~= Seq::<Seq<char>>::empty());
            return out;
        },
    };
    let ghost all = items_view(items@);
    let ghost pick = |v: DatumView| text_of(v);
    let mut i: usize = 0;
    proof {
        assert(all.take(0) =~= Seq::empty());
        assert(views(out@) =~= all.take(0).filter_map(pick));
    }
    while i < items.len()
        invariant
            i <= items.len(),
            all == items_view(items@),
            pick == |v: DatumView| text_of(v),
            views(out@) == all.take(i as int).filter_map(pick),
        decreases items.len() - i,
    {
        proof {
            all.lemma_filter_map_take_succ(pick, i as int);
            assert(all[i as int] == items[i as int]@);
        }
        let ghost before = views(out@);
        match &items[i] {
            Datum::Text(s) => {
                out.push(s.clone());
                assert(views(out@) =~= before + seq![s@]);
            },
            _ => {},
        }
        i = i + 1;
    }
    assert(all.take(items.len() as int) =~= all);
    out
}

fn featured_exec(stuff: &Vec<(String, Datum)>) -> (r: bool)
    ensures
        r == featured_of(entries_view(stuff@)),
{
    match get(stuff, "featured") {
        Some(Datum::Boolean(b)) => *b,
        _ => false,
    }
}

/// The entry of one post.
fn entry_from(record: &Record) -> (r: Result<BlogpostIndexEntry, SiteError>)
    requires
        is_post(record@),
    ensures
        match r {
            Ok(entry) => entry_of(record@) == Ok::<EntryView, SiteErrorView>(entry@),
            Err(e) => entry_of(record@) == Err::<EntryView, SiteErrorView>(e@),
        },
{
    let (m, u) = match (&record.metadata, &record.url) {
        (Some(m), Some(u)) => (m, u),
        _ => unreached(),
    };
    let slug = required_text_exec(&m.stuff, "slug");
    let date = required_text_exec(&m.stuff, "date");
    let year = required_text_exec(&m.stuff, "year");
    let month = required_text_exec(&m.stuff, "month");
    let day = required_text_exec(&m.stuff, "day");
    match (slug, date, year, month, day) {
        (Some(slug), Some(date), Some(year), Some(month), Some(day)) => match get(
            &m.stuff,
            "excerpt",
        ) {
            None => Err(SiteError::new(ErrorKind::MissingExcerpt, u.url.as_str())),
            Some(Datum::Text(excerpt)) => Ok(
                BlogpostIndexEntry {
                    url: u.url.clone(),
                    slug,
                    title: m.title.clone(),
                    excerpt: excerpt.clone(),
                    date,
                    year,
                    month,
                    day,
                    tags: tags_exec(&m.stuff),
                    featured: featured_exec(&m.stuff),
                },
            ),
            Some(_) => Err(SiteError::new(ErrorKind::InvalidExcerpt, u.url.as_str())),
        },
        _ => Err(SiteError::new(ErrorKind::IncompletePost, u.url.as_str())),
    }
}

fn date_ge(a: &BlogpostIndexEntry, b: &BlogpostIndexEntry) -> (r: bool)
    ensures
        r == lex_le(b.date@, a.date@),
{
    let x = to_chars(a.date.as_str());
    let y = to_chars(b.date.as_str());
    chars_eq(&y, &x) || lex_lt_exec(&y, &x)
}

/// The index of the posts among `records`: their entries, the later date
/// first. The first post without a proper entry fails the index.
pub fn blogpost_indexer(records: &Vec<Record>) -> (r: Result<BlogpostIndex, SiteError>)
    ensures
        match r {
            Ok(index) => index_of(views(records@)) == Ok::<BlogpostIndexView, SiteErrorView>(index@),
            Err(e) => index_of(views(records@)) == Err::<BlogpostIndexView, SiteErrorView>(e@),
        },
        match r {
            Ok(index) => {
                &&& forall|i: int|
                    0 <= i < records.len() && is_post(#[trigger] records[i]@) ==> entry_of(
                        records[i]@,
                    ) is Ok
                &&& index@.entries == index_entries(posts(views(records@)))
            },
            Err(e) => exists|i: int|
                {
                    &&& 0 <= i < records.len()
                    &&& is_post(#[trigger] records[i]@)
                    &&& entry_of(records[i]@) == Err::<EntryView, SiteErrorView>(e@)
                    &&& forall|j: int|
                        0 <= j < i && is_post(#[trigger] records[j]@) ==> entry_of(records[j]@) is Ok
                },
        },
{
    let ghost all = views(records@);
    let ghost pick = |r: RecordView|
        if is_post(r) {
            Some(r)
        } else {
            None
        };
    let ghost entry = |r: RecordView| entry_of(r)->Ok_0;
    let ghost step = |r: RecordView| entry_of(r);
    let mut entries: Vec<BlogpostIndexEntry> = Vec::new();
    let mut i: usize = 0;
    proof {
        assert(all.take(0) =~= Seq::empty());
        assert(views(entries@) =~= all.take(0).filter_map(pick).map_values(entry));
        assert(views(entries@) =~= Seq::<EntryView>::empty());
    }
    while i < records.len()
        invariant
            i <= records.len(),
            all == views(records@),
            pick == |r: RecordView|
                if is_post(r) {
                    Some(r)
                } else {
                    None
                },
            entry == |r: RecordView| entry_of(r)->Ok_0,
            step == |r: RecordView| entry_of(r),
            views(entries@) == all.take(i as int).filter_map(pick).map_values(entry),
            try_map(all.take(i as int).filter_map(pick), step) == Ok::<Seq<EntryView>, SiteErrorView>(
                views(entries@),
            ),
            forall|j: int| 0 <= j < i && is_post(#[trigger] records[j]@) ==> entry_of(records[j]@) is Ok,
        decreases records.len() - i,
    {
        proof {
            all.lemma_filter_map_take_succ(pick, i as int);
            assert(all[i as int] == records[i as int]@);
        }
        let ghost before = views(entries@);
        let ghost seen = all.take(i as int).filter_map(pick);
        let r = &records[i];
        let post = match r.kind {
            Kind::BlogPost => r.url.is_some() && r.metadata.is_some(),
            _ => false,
        };
        if post {
            proof {
                assert((seen + seq![all[i as int]]).drop_last() =~= seen);
                assert((seen + seq![all[i as int]]).last() == all[i as int]);
            }
            match entry_from(r) {
                Ok(e) => {
                    entries.push(e);
                    proof {
                        assert((seen + seq![all[i as int]]).map_values(entry) =~= seen.map_values(
                            entry,
                        ).push(entry(all[i as int])));
                        assert(views(entries@) =~= before.push(entry(all[i as int])));
                    }
                },
                Err(e) => {
                    proof {
                        let next = seen + seq![all[i as int]];
                        lemma_filter_map_prefix(all, pick, i + 1);
                        assert(posts(all).take(next.len() as int) == next);
                        lemma_try_map_fails(posts(all), step, next.len() as int);
                    }
                    return Err(e);
                },
            }
        } else {
            assert(seen + Seq::<RecordView>::empty() =~= seen);
        }
        i = i + 1;
    }
    assert(all.take(records.len() as int) =~= all);
    let ghost rel = |a: BlogpostIndexEntry, b: BlogpostIndexEntry| lex_le(b.date@, a.date@);
    let ghost unsorted = entries@;
    let sorted = sort_by(entries, date_ge, Ghost(rel));
    proof {
        lemma_sorted_by_map(unsorted, |e: BlogpostIndexEntry| e@, rel, newest_first());
    }
    Ok(BlogpostIndex { entries: sorted })
}

/// All tags of `entries`, post by post, each as often as it is given.
pub open spec fn all_tags(entries: Seq<EntryView>) -> Seq<Seq<char>>
    decreases entries.len(),
{
    if entries.len() == 0 {
        Seq::empty()
    } else {
        all_tags(entries.drop_last()) + entries.last().tags
    }
}

/// A count as a machine number: at most the largest one.
pub open spec fn capped(n: nat) -> usize {
    if n > usize::MAX {
        usize::MAX
    } else {
        n as usize
    }
}

/// Each distinct text of `tags`, where it first occurs, with the number of
/// its occurrences.
pub open spec fn counted(tags: Seq<Seq<char>>) -> Seq<(Seq<char>, usize)> {
    distinct(tags).map_values(|t: Seq<char>| (t, capped(occurrences(tags, t))))
}

/// The order of counted tags: the larger count first, and of equal counts
/// the later name first.
pub open spec fn by_count() -> spec_fn((Seq<char>, usize), (Seq<char>, usize)) -> bool {
    |a: (Seq<char>, usize), b: (Seq<char>, usize)| a.1 > b.1 || (a.1 == b.1 && lex_le(b.0, a.0))
}

/// The tags of `entries` with their counts, in the order of counted tags.
pub open spec fn tag_counts(entries: Seq<EntryView>) -> Seq<(Seq<char>, usize)> {
    sorted_by(counted(all_tags(entries)), by_count())
}

/// The tags with their counts stand with the larger count first and, of
/// equal counts, the later name first; each tag that a post gives stands
/// there once, with the number of times it is given.
pub proof fn lemma_tag_counts(entries: Seq<EntryView>)
    ensures
        in_order(tag_counts(entries), by_count()),
        tag_counts(entries).len() == distinct(all_tags(entries)).len(),
        forall|t: Seq<char>|
            #[trigger] all_tags(entries).contains(t) <==> tag_counts(entries).contains(
                (t, capped(occurrences(all_tags(entries), t))),
            ),
{
    lemma_lex_le_order();
    assert(total(by_count())) by {
        assert forall|a: (Seq<char>, usize), b: (Seq<char>, usize)| #[trigger]
            by_count()(a, b) || by_count()(b, a) by {
            lemma_lex_trichotomy(a.0, b.0);
        }
    }
    assert(transitive(by_count())) by {
        assert forall|a: (Seq<char>, usize), b: (Seq<char>, usize), c: (Seq<char>, usize)|
            #[trigger] by_count()(a, b) && #[trigger] by_count()(b, c) implies by_count()(a, c) by {
            if a.1 == b.1 && b.1 == c.1 {
                assert(lex_le(c.0, b.0) && lex_le(b.0, a.0));
            }
        }
    }
    let tags = all_tags(entries);
    let pairs = counted(tags);
    lemma_sorted_by_in_order(pairs, by_count());
    crate::sort::lemma_sorted_by_multiset(pairs, by_count());
    lemma_distinct(tags);
    assert forall|t: Seq<char>| #[trigger]
        tags.contains(t) <==> tag_counts(entries).contains((t, capped(occurrences(tags, t)))) by {
        let pair = (t, capped(occurrences(tags, t)));
        crate::sort::lemma_sorted_by_contains(pairs, by_count(), pair);
        if tags.contains(t) {
            assert(distinct(tags).contains(t));
            let k = choose|k: int| 0 <= k < distinct(tags).len() && distinct(tags)[k] == t;
            assert(pairs[k] == pair);
        }
        if pairs.contains(pair) {
            let k = choose|k: int| 0 <= k < pairs.len() && pairs[k] == pair;
            assert(distinct(tags)[k] == t);
            assert(distinct(tags).contains(t));
        }
    }
}

/// The contents of counted texts.
pub open spec fn count_views(items: Seq<(String, usize)>) -> Seq<(Seq<char>, usize)> {
    items.map_values(|t: (String, usize)| (t.0@, t.1))
}

fn all_tags_exec(entries: &Vec<BlogpostIndexEntry>) -> (out: Vec<String>)
    ensures
        views(out@) == all_tags(views(entries@)),
{
    let ghost all = views(entries@);
    let mut out: Vec<String> = Vec::new();
    let mut i: usize = 0;
    proof {
        assert(all.take(0) =~= Seq::empty());
        assert(views(out@) =~= all_tags(all.take(0)));
    }
    while i < entries.len()
        invariant
            i <= entries.len(),
            all == views(entries@),
            views(out@) == all_tags(all.take(i as int)),
        decreases entries.len() - i,
    {
        proof {
            assert(all.take(i + 1).drop_last() =~= all.take(i as int));
            assert(all.take(i + 1).last() == entries[i as int]@);
        }
        let ghost before = views(out@);
        let tags = &entries[i].tags;
        let mut j: usize = 0;
        while j < tags.len()
            invariant
                j <= tags.len(),
                views(out@) == before + views(tags@).take(j as int),
            decreases tags.len() - j,
        {
            let ghost sofar = views(out@);
            out.push(tags[j].clone());
            j = j + 1;
            assert(views(out@) =~= sofar.push(tags[j - 1]@));
            assert(views(tags@).take(j as int) =~= views(tags@).take(j - 1).push(tags[j - 1]@));
            assert(views(out@) =~= before + views(tags@).take(j as int));
        }
        assert(views(tags@).take(tags.len() as int) =~= views(tags@));
        i = i + 1;
    }
    assert(all.take(entries.len() as int) =~= all);
    out
}

fn find_counted(counts: &Vec<(String, usize)>, t: &String) -> (r: Option<usize>)
    ensures
        match r {
            Some(i) => i < counts.len() && counts[i as int].0@ == t@,
            None => forall|j: int| 0 <= j < counts.len() ==> counts[j].0@ != t@,
        },
{
    let mut i: usize = 0;
    while i < counts.len()
        invariant
            i <= counts.len(),
            forall|j: int| 0 <= j < i ==> counts[j].0@ != t@,
        decreases counts.len() - i,
    {
        if counts[i].0 == *t {
            return Some(i);
        }
        i = i + 1;
    }
    None
}

fn count_exec(tags: &Vec<String>) -> (out: Vec<(String, usize)>)
    ensures
        count_views(out@) == counted(views(tags@)),
{
    let ghost all = views(tags@);
    let mut out: Vec<(String, usize)> = Vec::new();
    let mut i: usize = 0;
    proof {
        assert(all.take(0) =~= Seq::empty());
        assert(count_views(out@) =~= counted(all.take(0)));
    }
    while i < tags.len()
        invariant
            i <= tags.len(),
            all == views(tags@),
            count_views(out@) == counted(all.take(i as int)),
        decreases tags.len() - i,
    {
        let ghost seen = all.take(i as int);
        let ghost next = all.take(i + 1);
        let ghost t = tags[i as int]@;
        let ghost before = out@;
        proof {
            assert(next.drop_last() =~= seen);
            assert(next.last() == t);
            lemma_distinct(seen);
            assert(count_views(out@).len() == distinct(seen).len());
            assert forall|j: int| 0 <= j < out.len() implies out[j].0@ == distinct(seen)[j]
                && out[j].1 == capped(occurrences(seen, distinct(seen)[j])) by {
                assert(count_views(out@)[j] == (out[j].0@, out[j].1));
                assert(counted(seen)[j] == (
                    distinct(seen)[j],
                    capped(occurrences(seen, distinct(seen)[j])),
                ));
            }
        }
        match find_counted(&out, &tags[i]) {
            Some(k) => {
                let c = out[k].1;
                if c < usize::MAX {
                    out[k].1 = c + 1;
                }
                proof {
                    assert(distinct(seen)[k as int] == t);
                    assert(distinct(seen).contains(t));
                    assert(distinct(next) == distinct(seen));
                    assert forall|j: int| 0 <= j < out.len() implies count_views(out@)[j]
                        == counted(next)[j] by {
                        assert(out[j].0@ == before[j].0@);
                        if j != k {
                            assert(distinct(seen)[j] != distinct(seen)[k as int]);
                            assert(out[j].1 == before[j].1);
                        }
                    }
                    assert(count_views(out@) =~= counted(next));
                }
            },
            None => {
                out.push((tags[i].clone(), 1));
                proof {
                    assert(!distinct(seen).contains(t)) by {
                        if distinct(seen).contains(t) {
                            let m = choose|m: int|
                                0 <= m < distinct(seen).len() && distinct(seen)[m] == t;
                            assert(before[m].0@ == t);
                        }
                    }
                    assert(!seen.contains(t));
                    assert(occurrences(seen, t) == 0);
                    assert(distinct(next) == distinct(seen).push(t));
                    assert forall|j: int| 0 <= j < out.len() implies count_views(out@)[j]
                        == counted(next)[j] by {
                        if j < before.len() {
                            assert(out[j] == before[j]);
                            assert(distinct(seen).contains(distinct(seen)[j]));
                        }
                    }
                    assert(count_views(out@) =~= counted(next));
                }
            },
        }
        i = i + 1;
    }
    assert(all.take(tags.len() as int) =~= all);
    out
}

fn count_ge(a: &(String, usize), b: &(String, usize)) -> (r: bool)
    ensures
        r == (a.1 > b.1 || (a.1 == b.1 && lex_le(b.0@, a.0@))),
{
    if a.1 > b.1 {
        return true;
    }
    if a.1 < b.1 {
        return false;
    }
    let x = to_chars(a.0.as_str());
    let y = to_chars(b.0.as_str());
    chars_eq(&y, &x) || lex_lt_exec(&y, &x)
}

/// What a two-digit month is called.
pub open spec fn month_name(month: Seq<char>) -> Option<Seq<char>> {
    if month == "01"@ {
        Some("January"@)
    } else if month == "02"@ {
        Some("February"@)
    } else if month == "03"@ {
        Some("March"@)
    } else if month == "04"@ {
        Some("April"@)
    } else if month == "05"@ {
        Some("May"@)
    } else if month == "06"@ {
        Some("June"@)
    } else if month == "07"@ {
        Some("July"@)
    } else if month == "08"@ {
        Some("August"@)
    } else if month == "09"@ {
        Some("September"@)
    } else if month == "10"@ {
        Some("October"@)
    } else if month == "11"@ {
        Some("November"@)
    } else if month == "12"@ {
        Some("December"@)
    } else {
        None
    }
}

/// What a two-digit month is called.
pub fn month_name_exec(month: &str) -> (r: Option<String>)
    ensures
        match r {
            Some(name) => month_name(month@) == Some(name@),
            None => month_name(month@) is None,
        },
{
    if str_eq(month, "01") {
        Some("January".to_owned())
    } else if str_eq(month, "02") {
        Some("February".to_owned())
    } else if str_eq(month, "03") {
        Some("March".to_owned())
    } else if str_eq(month, "04") {
        Some("April".to_owned())
    } else if str_eq(month, "05") {
        Some("May".to_owned())
    } else if str_eq(month, "06") {
        Some("June".to_owned())
    } else if str_eq(month, "07") {
        Some("July".to_owned())
    } else if str_eq(month, "08") {
        Some("August".to_owned())
    } else if str_eq(month, "09") {
        Some("September".to_owned())
    } else if str_eq(month, "10") {
        Some("October".to_owned())
    } else if str_eq(month, "11") {
        Some("November".to_owned())
    } else if str_eq(month, "12") {
        Some("December".to_owned())
    } else {
        None
    }
}

/// The year and month of a post.
pub open spec fn month_key(e: EntryView) -> (Seq<char>, Seq<char>) {
    (e.year, e.month)
}

/// The order of months with the later one first: by year, then by month.
pub open spec fn latest_month_first() -> spec_fn((Seq<char>, Seq<char>), (Seq<char>, Seq<char>)) -> bool {
    |a: (Seq<char>, Seq<char>), b: (Seq<char>, Seq<char>)|
        lex_lt(b.0, a.0) || (a.0 == b.0 && lex_le(b.1, a.1))
}

/// The months that have posts, each once, the later one first.
pub open spec fn archive_months(entries: Seq<EntryView>) -> Seq<(Seq<char>, Seq<char>)> {
    sorted_by(distinct(entries.map_values(|e: EntryView| month_key(e))), latest_month_first())
}

/// The posts of the month `key`, in the order of `entries`.
pub open spec fn posts_of_month(entries: Seq<EntryView>, key: (Seq<char>, Seq<char>)) -> Seq<EntryView> {
    entries.filter_map(
        |e: EntryView|
            if month_key(e) == key {
                Some(e)
            } else {
                None
            },
    )
}

/// One month of the archives: its year, its name and its posts.
#[derive(Debug, PartialEq, Eq)]
pub struct ArchiveMonth {
    pub year: String,
    pub month_name: String,
    pub entries: Vec<BlogpostIndexEntry>,
}

/// A month of the archives as specifications see it.
pub ghost struct ArchiveMonthView {
    pub year: Seq<char>,
    pub month_name: Seq<char>,
    pub entries: Seq<EntryView>,
}

impl View for ArchiveMonth {
    type V = ArchiveMonthView;

    open spec fn view(&self) -> ArchiveMonthView {
        ArchiveMonthView {
            year: self.year@,
            month_name: self.month_name@,
            entries: views(self.entries@),
        }
    }
}

/// The archive of the month `key`, whose month has a name.
pub open spec fn archive_of(entries: Seq<EntryView>, key: (Seq<char>, Seq<char>)) -> ArchiveMonthView {
    ArchiveMonthView {
        year: key.0,
        month_name: month_name(key.1)->Some_0,
        entries: posts_of_month(entries, key),
    }
}

/// The archives of the months `months`, month by month; the first month
/// without a name fails them.
pub open spec fn archives_of_months(entries: Seq<EntryView>, months: Seq<(Seq<char>, Seq<char>)>) -> Result<
    Seq<ArchiveMonthView>,
    SiteErrorView,
>
    decreases months.len(),
{
    if months.len() == 0 {
        Ok(Seq::empty())
    } else {
        match archives_of_months(entries, months.drop_last()) {
            Err(e) => Err(e),
            Ok(init) => match month_name(months.last().1) {
                None => Err(failure(ErrorKind::InvalidMonth, months.last().1)),
                Some(_) => Ok(init.push(archive_of(entries, months.last()))),
            },
        }
    }
}

/// The archives of the posts `entries`: the months that have posts, the
/// later one first, each with its posts.
pub open spec fn archives_of(entries: Seq<EntryView>) -> Result<Seq<ArchiveMonthView>, SiteErrorView> {
    archives_of_months(entries, archive_months(entries))
}

/// The contents of pairs of texts.
pub open spec fn pair_views(items: Seq<(String, String)>) -> Seq<(Seq<char>, Seq<char>)> {
    items.map_values(|t: (String, String)| (t.0@, t.1@))
}

fn month_ge(a: &(String, String), b: &(String, String)) -> (r: bool)
    ensures
        r == (lex_lt(b.0@, a.0@) || (a.0@ == b.0@ && lex_le(b.1@, a.1@))),
{
    let ay = to_chars(a.0.as_str());
    let by = to_chars(b.0.as_str());
    if lex_lt_exec(&by, &ay) {
        return true;
    }
    if !chars_eq(&ay, &by) {
        return false;
    }
    let am = to_chars(a.1.as_str());
    let bm = to_chars(b.1.as_str());
    chars_eq(&bm, &am) || lex_lt_exec(&bm, &am)
}

fn has_month(keys: &Vec<(String, String)>, year: &String, month: &String) -> (r: bool)
    ensures
        r == pair_views(keys@).contains((year@, month@)),
{
    let mut i: usize = 0;
    while i < keys.len()
        invariant
            i <= keys.len(),
            forall|j: int| 0 <= j < i ==> pair_views(keys@)[j] != (year@, month@),
        decreases keys.len() - i,
    {
        if keys[i].0 == *year && keys[i].1 == *month {
            assert(pair_views(keys@)[i as int] == (year@, month@));
            return true;
        }
        i = i + 1;
    }
    false
}

fn months_exec(entries: &Vec<BlogpostIndexEntry>) -> (out: Vec<(String, String)>)
    ensures
        pair_views(out@) == archive_months(views(entries@)),
{
    let ghost all = views(entries@).map_values(|e: EntryView| month_key(e));
    let mut keys: Vec<(String, String)> = Vec::new();
    let mut i: usize = 0;
    proof {
        assert(all.take(0) =~= Seq::empty());
        assert(pair_views(keys@) =~= distinct(all.take(0)));
    }
    while i < entries.len()
        invariant
            i <= entries.len(),
            all == views(entries@).map_values(|e: EntryView| month_key(e)),
            pair_views(keys@) == distinct(all.take(i as int)),
        decreases entries.len() - i,
    {
        proof {
            assert(all.take(i + 1).drop_last() =~= all.take(i as int));
            assert(all.take(i + 1).last() == (entries[i as int].year@, entries[i as int].month@));
        }
        let ghost before = pair_views(keys@);
        if !has_month(&keys, &entries[i].year, &entries[i].month) {
            keys.push((entries[i].year.clone(), entries[i].month.clone()));
            assert(pair_views(keys@) =~= before.push(all[i as int]));
        }
        i = i + 1;
    }
    assert(all.take(entries.len() as int) =~= all);
    let ghost rel = |a: (String, String), b: (String, String)|
        lex_lt(b.0@, a.0@) || (a.0@ == b.0@ && lex_le(b.1@, a.1@));
    let ghost unsorted = keys@;
    let sorted = sort_by(keys, month_ge, Ghost(rel));
    proof {
        lemma_sorted_by_map(
            unsorted,
            |t: (String, String)| (t.0@, t.1@),
            rel,
            latest_month_first(),
        );
    }
    sorted
}

fn posts_of_month_exec(entries: &Vec<BlogpostIndexEntry>, year: &String, month: &String) -> (out:
    Vec<BlogpostIndexEntry>)
    ensures
        views(out@) == posts_of_month(views(entries@), (year@, month@)),
{
    let ghost all = views(entries@);
    let ghost pick = |e: EntryView|
        if month_key(e) == (year@, month@) {
            Some(e)
        } else {
            None
        };
    let mut out: Vec<BlogpostIndexEntry> = Vec::new();
    let mut i: usize = 0;
    proof {
        assert(all.take(0) =~= Seq::empty());
        assert(views(out@) =~= all.take(0).filter_map(pick));
    }
    while i < entries.len()
        invariant
            i <= entries.len(),
            all == views(entries@),
            pick == |e: EntryView|
                if month_key(e) == (year@, month@) {
                    Some(e)
                } else {
                    None
                },
            views(out@) == all.take(i as int).filter_map(pick),
        decreases entries.len() - i,
    {
        proof {
            all.lemma_filter_map_take_succ(pick, i as int);
            assert(all[i as int] == entries[i as int]@);
        }
        let ghost before = views(out@);
        if entries[i].year == *year && entries[i].month == *month {
            out.push(entries[i].duplicate());
            assert(views(out@) =~= before + seq![all[i as int]]);
        }
        i = i + 1;
    }
    assert(all.take(entries.len() as int) =~= all);
    out
}

/// Archives that fail for the first months fail alike for all.
pub proof fn lemma_archives_fail(entries: Seq<EntryView>, months: Seq<(Seq<char>, Seq<char>)>, n: int)
    requires
        0 <= n <= months.len(),
        archives_of_months(entries, months.take(n)) is Err,
    ensures
        archives_of_months(entries, months) == archives_of_months(entries, months.take(n)),
    decreases months.len() - n,
{
    if n == months.len() {
        assert(months.take(n) =~= months);
    } else {
        assert(months.take(n + 1).drop_last() =~= months.take(n));
        lemma_archives_fail(entries, months, n + 1);
    }
}

/// The featured posts among `entries`, in their order.
pub open spec fn featured_posts(entries: Seq<EntryView>) -> Seq<EntryView> {
    entries.filter_map(
        |e: EntryView|
            if e.featured {
                Some(e)
            } else {
                None
            },
    )
}

impl BlogpostIndex {
    /// The featured posts, in the order of the index.
    pub fn featured(&self) -> (out: Vec<BlogpostIndexEntry>)
        ensures
            views(out@) == featured_posts(self@.entries),
    {
        let ghost all = views(self.entries@);
        let ghost pick = |e: EntryView|
            if e.featured {
                Some(e)
            } else {
                None
            };
        let mut out: Vec<BlogpostIndexEntry> = Vec::new();
        let mut i: usize = 0;
        proof {
            assert(all.take(0) =~= Seq::empty());
            assert(views(out@) =~= all.take(0).filter_map(pick));
        }
        while i < self.entries.len()
            invariant
                i <= self.entries.len(),
                all == views(self.entries@),
                pick == |e: EntryView|
                    if e.featured {
                        Some(e)
                    } else {
                        None
                    },
                views(out@) == all.take(i as int).filter_map(pick),
            decreases self.entries.len() - i,
        {
            proof {
                all.lemma_filter_map_take_succ(pick, i as int);
                assert(all[i as int] == self.entries[i as int]@);
            }
            let ghost before = views(out@);
            if self.entries[i].featured {
                out.push(self.entries[i].duplicate());
                assert(views(out@) =~= before + seq![all[i as int]]);
            }
            i = i + 1;
        }
        assert(all.take(self.entries.len() as int) =~= all);
        out
    }

    /// All posts, in the order of the index.
    pub fn recent(&self) -> (out: Vec<BlogpostIndexEntry>)
        ensures
            views(out@) == self@.entries,
    {
        let mut out: Vec<BlogpostIndexEntry> = Vec::new();
        let mut i: usize = 0;
        while i < self.entries.len()
            invariant
                i <= self.entries.len(),
                out.len() == i,
                forall|j: int| 0 <= j < i ==> out[j]@ == self.entries[j]@,
            decreases self.entries.len() - i,
        {
            out.push(self.entries[i].duplicate());
            i = i + 1;
        }
        assert(views(out@) =~= views(self.entries@));
        out
    }

    /// The tags of all posts with the number of posts' mentions of each,
    /// the larger count first and, of equal counts, the later name first.
    pub fn tags_and_counts(&self) -> (out: Vec<(String, usize)>)
        ensures
            count_views(out@) == tag_counts(self@.entries),
    {
        let tags = all_tags_exec(&self.entries);
        let counts = count_exec(&tags);
        let ghost rel = |a: (String, usize), b: (String, usize)|
            a.1 > b.1 || (a.1 == b.1 && lex_le(b.0@, a.0@));
        let ghost unsorted = counts@;
        let sorted = sort_by(counts, count_ge, Ghost(rel));
        proof {
            lemma_sorted_by_map(unsorted, |t: (String, usize)| (t.0@, t.1), rel, by_count());
        }
        sorted
    }

    /// The posts by month, the later month first. The first month, in this
    /// order, that has no name fails the archives.
    pub fn archives(&self) -> (r: Result<Vec<ArchiveMonth>, SiteError>)
        ensures
            match r {
                Ok(out) => archives_of(self@.entries) == Ok::<Seq<ArchiveMonthView>, SiteErrorView>(
                    views(out@),
                ),
                Err(e) => archives_of(self@.entries) == Err::<Seq<ArchiveMonthView>, SiteErrorView>(
                    e@,
                ),
            },
            match r {
                Ok(out) => {
                    &&& forall|k: int|
                        0 <= k < archive_months(self@.entries).len() ==> month_name(
                            (#[trigger] archive_months(self@.entries)[k]).1,
                        ) is Some
                    &&& views(out@) == archive_months(self@.entries).map_values(
                        |key: (Seq<char>, Seq<char>)| archive_of(self@.entries, key),
                    )
                },
                Err(e) => exists|k: int|
                    {
                        &&& 0 <= k < archive_months(self@.entries).len()
                        &&& month_name((#[trigger] archive_months(self@.entries)[k]).1) is None
                        &&& e@ == failure(
                            ErrorKind::InvalidMonth,
                            archive_months(self@.entries)[k].1,
                        )
                        &&& forall|j: int|
                            0 <= j < k ==> month_name(
                                (#[trigger] archive_months(self@.entries)[j]).1,
                            ) is Some
                    },
            },
    {
        let keys = months_exec(&self.entries);
        let ghost months = archive_months(self@.entries);
        let mut out: Vec<ArchiveMonth> = Vec::new();
        let mut k: usize = 0;
        proof {
            assert(months.take(0) =~= Seq::empty());
            assert(views(out@) =~= Seq::<ArchiveMonthView>::empty());
        }
        while k < keys.len()
            invariant
                k <= keys.len(),
                months == archive_months(self@.entries),
                pair_views(keys@) == months,
                out.len() == k,
                forall|j: int| 0 <= j < k ==> month_name((#[trigger] months[j]).1) is Some,
                forall|j: int| 0 <= j < k ==> out[j]@ == archive_of(self@.entries, months[j]),
                archives_of_months(self@.entries, months.take(k as int)) == Ok::<
                    Seq<ArchiveMonthView>,
                    SiteErrorView,
                >(views(out@)),
            decreases keys.len() - k,
        {
            assert(months[k as int] == (keys[k as int].0@, keys[k as int].1@));
            proof {
                assert(months.take(k + 1).drop_last() =~= months.take(k as int));
                assert(months.take(k + 1).last() == months[k as int]);
            }
            let ghost before = views(out@);
            let name = match month_name_exec(keys[k].1.as_str()) {
                Some(name) => name,
                None => {
                    proof {
                        lemma_archives_fail(self@.entries, months, k + 1);
                    }
                    return Err(SiteError::new(ErrorKind::InvalidMonth, keys[k].1.as_str()));
                },
            };
            let entries = posts_of_month_exec(&self.entries, &keys[k].0, &keys[k].1);
            out.push(ArchiveMonth { year: keys[k].0.clone(), month_name: name, entries });
            k = k + 1;
            assert(views(out@) =~= before.push(archive_of(self@.entries, months[k - 1])));
        }
        assert(months.take(keys.len() as int) =~= months);
        assert(views(out@) =~= months.map_values(
            |key: (Seq<char>, Seq<char>)| archive_of(self@.entries, key),
        ));
        Ok(out)
    }
}

} // verus!
