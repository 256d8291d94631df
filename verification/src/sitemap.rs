//! The sitemap, and the pages that are made for each tag once the index of
//! posts is known.

use crate::blog::{count_views, tag_counts, BlogpostIndex};
use crate::config::{Config, ConfigView, Kind};
use crate::error::{SiteError, SiteErrorView};
use crate::json::{insert, lemma_with_entry_lookup, lookup, with_entry, Datum, DatumView};
use crate::metadata::MetadataView;
use crate::record::{Record, RecordView};
use crate::seqs::{
    all_done, distinct, first_failure, holds_text, lemma_distinct, lemma_try_map_ok, try_map, views,
};
use crate::sort::{by_text, lemma_sorted_by_contains, sort_texts, sorted_by};
use crate::url::{metadata_to_url, resolved};
use vstd::prelude::*;

verus! {

/// The URLs of the site that a sitemap lists.
#[derive(Debug, PartialEq, Eq)]
pub struct Sitemap {
    pub entries: Vec<String>,
}

/// A sitemap as specifications see it.
pub ghost struct SitemapView {
    pub entries: Seq<Seq<char>>,
}

impl View for Sitemap {
    type V = SitemapView;

    open spec fn view(&self) -> SitemapView {
        SitemapView { entries: views(self.entries@) }
    }
}

/// The URL under which the sitemap lists a record: it has a URL and is
/// not kept out.
pub open spec fn listed(r: RecordView) -> Option<Seq<char>> {
    if r.url is Some && !r.exclude_from_sitemap {
        Some(r.url->Some_0.url)
    } else {
        None
    }
}

/// The entries of the sitemap of `records`: the URLs of the listed
/// records, each once, in the order of texts.
pub open spec fn sitemap_entries(records: Seq<RecordView>) -> Seq<Seq<char>> {
    sorted_by(distinct(records.filter_map(|r: RecordView| listed(r))), by_text())
}

/// The sitemap of `records`.
pub fn sitemap_indexer(records: &Vec<Record>) -> (out: Sitemap)
    ensures
        out@.entries == sitemap_entries(views(records@)),
{
    let ghost all = views(records@);
    let ghost pick = |r: RecordView| listed(r);
    let mut urls: Vec<String> = Vec::new();
    let mut i: usize = 0;
    proof {
        assert(all.take(0) =~= Seq::empty());
        assert(all.take(0).filter_map(pick) =~= Seq::empty());
        assert(views(urls@) =~= distinct(all.take(0).filter_map(pick)));
    }
    while i < records.len()
        invariant
            i <= records.len(),
            all == views(records@),
            pick == |r: RecordView| listed(r),
            views(urls@) == distinct(all.take(i as int).filter_map(pick)),
        decreases records.len() - i,
    {
        proof {
            all.lemma_filter_map_take_succ(pick, i as int);
            assert(all[i as int] == records[i as int]@);
        }
        let ghost before = views(urls@);
        let ghost seen = all.take(i as int).filter_map(pick);
        let url = if records[i].exclude_from_sitemap {
            None
        } else {
            match &records[i].url {
                Some(u) => Some(u.url.clone()),
                None => None,
            }
        };
        match url {
            Some(u) => {
                proof {
                    assert((seen + seq![u@]).drop_last() =~= seen);
                    assert((seen + seq![u@]).last() == u@);
                }
                if !holds_text(&urls, &u) {
                    urls.push(u);
                    assert(views(urls@) =~= before.push(u@));
                }
            },
            None => {
                assert(seen + Seq::<Seq<char>>::empty() =~= seen);
            },
        }
        i = i + 1;
    }
    assert(all.take(records.len() as int) =~= all);
    Sitemap { entries: sort_texts(urls) }
}

/// Whether a record is a template of tag pages that can be expanded: it
/// has that kind, its metadata and its body.
pub open spec fn is_tag_template(r: RecordView) -> bool {
    r.kind == Kind::TagPageTemplate && r.metadata is Some && r.raw_contents is Some
}

/// The templates of tag pages among `records`, in their order.
pub open spec fn tag_templates(records: Seq<RecordView>) -> Seq<RecordView> {
    records.filter_map(
        |r: RecordView|
            if is_tag_template(r) {
                Some(r)
            } else {
                None
            },
    )
}

/// The pages to make: each template with each tag, template by template.
pub open spec fn expansions(templates: Seq<RecordView>, tags: Seq<Seq<char>>) -> Seq<
    (RecordView, Seq<char>),
>
    decreases templates.len(),
{
    if templates.len() == 0 {
        Seq::empty()
    } else {
        expansions(templates.drop_last(), tags) + tags.map_values(
            |t: Seq<char>| (templates.last(), t),
        )
    }
}

/// The tag page of the template `job.0` for the tag `job.1`: a new record
/// with the template's source path, kind and body, its metadata with the
/// tag stored under `tag`, and the URL that these metadata resolve to.
pub open spec fn expanded(config: ConfigView, job: (RecordView, Seq<char>)) -> Result<
    RecordView,
    SiteErrorView,
> {
    let template = job.0;
    let given = template.metadata->Some_0;
    let m = MetadataView { stuff: with_entry(given.stuff, "tag"@, DatumView::Text(job.1)), ..given };
    match resolved(config, m.route, m.stuff) {
        Ok(u) => Ok(
            RecordView {
                source_path: template.source_path,
                kind: template.kind,
                metadata: Some(m),
                raw_contents: template.raw_contents,
                url: Some(u),
                output_path: None,
                absolute_output_path: None,
                rendered_contents: None,
                exclude_from_sitemap: false,
            },
        ),
        Err(e) => Err(e),
    }
}

/// The names of counted tags, in their order.
pub open spec fn tag_names(counts: Seq<(Seq<char>, usize)>) -> Seq<Seq<char>> {
    counts.map_values(|t: (Seq<char>, usize)| t.0)
}

/// The URLs of records that have one.
pub open spec fn urls_of(records: Seq<RecordView>) -> Seq<Seq<char>> {
    records.map_values(|r: RecordView| r.url->Some_0.url)
}

/// The page of one template for one tag.
fn expand(config: &Config, template: &Record, tag: &String) -> (r: Result<Record, SiteError>)
    requires
        is_tag_template(template@),
    ensures
        match r {
            Ok(page) => expanded(config@, (template@, tag@)) == Ok::<RecordView, SiteErrorView>(
                page@,
            ),
            Err(e) => expanded(config@, (template@, tag@)) == Err::<RecordView, SiteErrorView>(e@),
        },
{
    let (given, body) = match (&template.metadata, &template.raw_contents) {
        (Some(m), Some(b)) => (m, b),
        _ => unreached(),
    };
    let mut metadata = given.duplicate();
    insert(&mut metadata.stuff, "tag", Datum::Text(tag.clone()));
    let url = match metadata_to_url(config, &metadata) {
        Ok(u) => u,
        Err(e) => {
            return Err(e);
        },
    };
    Ok(
        Record {
            source_path: template.source_path.clone(),
            kind: template.kind,
            metadata: Some(metadata),
            raw_contents: Some(body.clone()),
            url: Some(url),
            output_path: None,
            absolute_output_path: None,
            rendered_contents: None,
            exclude_from_sitemap: false,
        },
    )
}

/// Makes, for each template of tag pages and each tag of the index, the
/// page of that tag, behind the records that were there, and lists the URL
/// of each new page in the sitemap, which is then put in order again. The
/// first page whose URL does not resolve fails the stage.
pub fn tag_page_generator(
    config: &Config,
    index: &BlogpostIndex,
    sitemap: Sitemap,
    records: Vec<Record>,
) -> (r: Result<(Vec<Record>, Sitemap), SiteError>)
    ensures
        match r {
            Ok((out, listing)) => {
                let made = views(out@).skip(records.len() as int);
                &&& out.len() >= records.len()
                &&& views(out@).take(records.len() as int) == views(records@)
                &&& all_done(
                    expansions(
                        tag_templates(views(records@)),
                        tag_names(tag_counts(index@.entries)),
                    ),
                    made,
                    |job: (RecordView, Seq<char>)| expanded(config@, job),
                )
                &&& listing@.entries == sorted_by(sitemap@.entries + urls_of(made), by_text())
            },
            Err(e) => first_failure(
                expansions(tag_templates(views(records@)), tag_names(tag_counts(index@.entries))),
                e@,
                |job: (RecordView, Seq<char>)| expanded(config@, job),
            ),
        },
{
    let counts = index.tags_and_counts();
    let ghost tags = tag_names(tag_counts(index@.entries));
    let ghost all = views(records@);
    let ghost pick = |r: RecordView|
        if is_tag_template(r) {
            Some(r)
        } else {
            None
        };
    let ghost step = |job: (RecordView, Seq<char>)| expanded(config@, job);
    let mut made: Vec<Record> = Vec::new();
    let mut urls: Vec<String> = sitemap.entries;
    let ghost listed_before = views(urls@);
    let mut i: usize = 0;
    proof {
        assert(all.take(0) =~= Seq::empty());
        assert(all.take(0).filter_map(pick) =~= Seq::empty());
        assert(views(urls@) =~= listed_before + urls_of(views(made@)));
    }
    while i < records.len()
        invariant
            i <= records.len(),
            all == views(records@),
            tags == tag_names(tag_counts(index@.entries)),
            count_views(counts@) == tag_counts(index@.entries),
            listed_before == sitemap@.entries,
            pick == |r: RecordView|
                if is_tag_template(r) {
                    Some(r)
                } else {
                    None
                },
            step == |job: (RecordView, Seq<char>)| expanded(config@, job),
            all_done(expansions(all.take(i as int).filter_map(pick), tags), views(made@), step),
            views(urls@) == listed_before + urls_of(views(made@)),
            forall|j: int| 0 <= j < made.len() ==> (#[trigger] made[j]).url is Some,
        decreases records.len() - i,
    {
        proof {
            all.lemma_filter_map_take_succ(pick, i as int);
            assert(all[i as int] == records[i as int]@);
        }
        let ghost seen = all.take(i as int).filter_map(pick);
        let ghost done = expansions(seen, tags);
        let template = &records[i];
        let fits = match template.kind {
            Kind::TagPageTemplate => template.metadata.is_some() && template.raw_contents.is_some(),
            _ => false,
        };
        if fits {
            let ghost next = seen + seq![template@];
            proof {
                assert(next.drop_last() =~= seen);
                assert(next.last() == template@);
            }
            let ghost row = tags.map_values(|t: Seq<char>| (template@, t));
            let mut k: usize = 0;
            while k < counts.len()
                invariant
                    k <= counts.len(),
                    is_tag_template(template@),
                    all == views(records@),
                    template@ == all[i as int],
                    0 <= i < all.len(),
                    tags == tag_names(tag_counts(index@.entries)),
                    count_views(counts@) == tag_counts(index@.entries),
                    listed_before == sitemap@.entries,
                    pick == |r: RecordView|
                        if is_tag_template(r) {
                            Some(r)
                        } else {
                            None
                        },
                    seen == all.take(i as int).filter_map(pick),
                    next == seen + seq![template@],
                    next == all.take(i + 1).filter_map(pick),
                    expansions(next, tags) == done + row,
                    row == tags.map_values(|t: Seq<char>| (template@, t)),
                    done == expansions(seen, tags),
                    step == |job: (RecordView, Seq<char>)| expanded(config@, job),
                    all_done(done + row.take(k as int), views(made@), step),
                    views(urls@) == listed_before + urls_of(views(made@)),
                    forall|j: int| 0 <= j < made.len() ==> (#[trigger] made[j]).url is Some,
                decreases counts.len() - k,
            {
                proof {
                    assert(tags[k as int] == count_views(counts@)[k as int].0);
                    assert(row[k as int] == (template@, counts[k as int].0@));
                }
                let ghost before_made = views(made@);
                let ghost before_urls = views(urls@);
                let ghost inputs = done + row.take(k as int);
                match expand(config, template, &counts[k].0) {
                    Ok(page) => {
                        let url = match &page.url {
                            Some(u) => u.url.clone(),
                            None => unreached(),
                        };
                        urls.push(url);
                        made.push(page);
                        proof {
                            let after = done + row.take(k + 1);
                            assert(after =~= inputs.push(row[k as int]));
                            assert(views(made@) =~= before_made.push(made[made.len() - 1]@));
                            assert forall|j: int| 0 <= j < after.len() implies step(
                                #[trigger] after[j],
                            ) == Ok::<RecordView, SiteErrorView>(views(made@)[j]) by {
                                if j < inputs.len() {
                                    assert(after[j] == inputs[j]);
                                    assert(step(inputs[j]) == Ok::<RecordView, SiteErrorView>(
                                        before_made[j],
                                    ));
                                }
                            }
                            assert(views(urls@) =~= before_urls.push(
                                made[made.len() - 1]@.url->Some_0.url,
                            ));
                            assert(urls_of(views(made@)) =~= urls_of(before_made).push(
                                made[made.len() - 1]@.url->Some_0.url,
                            ));
                            assert(views(urls@) =~= listed_before + urls_of(views(made@)));
                        }
                    },
                    Err(e) => {
                        proof {
                            let jobs = expansions(tag_templates(all), tags);
                            lemma_expansions_prefix(all, tags, i + 1);
                            let at = inputs.len() as int;
                            assert((done + row)[at] == row[k as int]);
                            assert(jobs[at] == row[k as int]);
                            assert forall|j: int| 0 <= j < at implies step(#[trigger] jobs[j]) is Ok by {
                                assert(jobs.take((done + row).len() as int)[j] == (done + row)[j]);
                                assert(jobs[j] == inputs[j]);
                                assert(step(inputs[j]) == Ok::<RecordView, SiteErrorView>(
                                    views(made@)[j],
                                ));
                            }
                        }
                        return Err(e);
                    },
                }
                k = k + 1;
            }
            proof {
                assert(row.take(counts.len() as int) =~= row);
            }
        } else {
            proof {
                assert(seen + Seq::<RecordView>::empty() =~= seen);
            }
        }
        i = i + 1;
    }
    proof {
        assert(all.take(records.len() as int) =~= all);
    }
    let ghost before = views(records@);
    let ghost added = views(made@);
    let mut out = records;
    out.append(&mut made);
    proof {
        assert(views(out@) =~= before + added);
        assert(views(out@).skip(records.len() as int) =~= added);
        assert(views(out@).take(records.len() as int) =~= before);
    }
    Ok((out, Sitemap { entries: sort_texts(urls) }))
}

/// The pages to make from the first records are the first pages to make
/// from all of them.
pub proof fn lemma_expansions_prefix(all: Seq<RecordView>, tags: Seq<Seq<char>>, n: int)
    requires
        0 <= n <= all.len(),
    ensures
        ({
            let part = expansions(tag_templates(all.take(n)), tags);
            let whole = expansions(tag_templates(all), tags);
            part.len() <= whole.len() && whole.take(part.len() as int) == part
        }),
    decreases all.len() - n,
{
    let pick = |r: RecordView|
        if is_tag_template(r) {
            Some(r)
        } else {
            None
        };
    if n == all.len() {
        assert(all.take(n) =~= all);
        let whole = expansions(tag_templates(all), tags);
        assert(whole.take(whole.len() as int) =~= whole);
    } else {
        lemma_expansions_prefix(all, tags, n + 1);
        all.lemma_filter_map_take_succ(pick, n);
        let part = expansions(tag_templates(all.take(n)), tags);
        let more = expansions(tag_templates(all.take(n + 1)), tags);
        let whole = expansions(tag_templates(all), tags);
        if is_tag_template(all[n]) {
            let seen = all.take(n).filter_map(pick);
            let next = seen + seq![all[n]];
            assert(next.drop_last() =~= seen);
            assert(next.last() == all[n]);
            assert(more == part + tags.map_values(|t: Seq<char>| (all[n], t)));
            assert(whole.take(part.len() as int) =~= more.take(part.len() as int));
            assert(more.take(part.len() as int) =~= part);
        } else {
            assert(all.take(n).filter_map(pick) + Seq::<RecordView>::empty() =~= all.take(
                n,
            ).filter_map(pick));
        }
    }
}

/// As many pages are made as there are templates times tags.
pub proof fn lemma_expansions_len(templates: Seq<RecordView>, tags: Seq<Seq<char>>)
    ensures
        expansions(templates, tags).len() == templates.len() * tags.len(),
    decreases templates.len(),
{
    if templates.len() > 0 {
        lemma_expansions_len(templates.drop_last(), tags);
        assert(templates.len() * tags.len() == (templates.len() - 1) * tags.len() + tags.len())
            by (nonlinear_arith);
    }
}


/// Every entry of the sitemap is the URL of a record that is not kept out
/// of it: a record that is kept out adds nothing to the sitemap.
pub proof fn lemma_sitemap_exclusion(records: Seq<RecordView>, url: Seq<char>)
    requires
        sitemap_entries(records).contains(url),
    ensures
        exists|i: int| 0 <= i < records.len() && listed(#[trigger] records[i]) == Some(url),
{
    let pick = |r: RecordView| listed(r);
    let urls = records.filter_map(pick);
    lemma_sorted_by_contains(distinct(urls), by_text(), url);
    lemma_distinct(urls);
    assert(urls.contains(url));
    records.lemma_filter_map_contains(pick, url);
    let t = choose|t: RecordView| #[trigger] records.contains(t) && pick(t) == Some(url);
    let i = choose|i: int| 0 <= i < records.len() && records[i] == t;
    assert(listed(records[i]) == Some(url));
}

/// What stands among the templates of tag pages is such a template.
pub proof fn lemma_tag_templates(records: Seq<RecordView>, t: RecordView)
    requires
        tag_templates(records).contains(t),
    ensures
        is_tag_template(t),
        records.contains(t),
{
    let pick = |r: RecordView|
        if is_tag_template(r) {
            Some(r)
        } else {
            None
        };
    records.lemma_filter_map_contains(pick, t);
}

/// Each page to make pairs one of the templates with one of the tags.
pub proof fn lemma_expansions_members(templates: Seq<RecordView>, tags: Seq<Seq<char>>, i: int)
    requires
        0 <= i < expansions(templates, tags).len(),
    ensures
        templates.contains(expansions(templates, tags)[i].0),
        tags.contains(expansions(templates, tags)[i].1),
    decreases templates.len(),
{
    if templates.len() > 0 {
        let init = expansions(templates.drop_last(), tags);
        if i < init.len() {
            lemma_expansions_members(templates.drop_last(), tags, i);
            let t = init[i].0;
            let k = choose|k: int| 0 <= k < templates.drop_last().len() && templates.drop_last()[k] == t;
            assert(templates[k] == t);
        } else {
            assert(expansions(templates, tags)[i] == (templates.last(), tags[i - init.len()]));
            assert(templates[templates.len() - 1] == templates.last());
        }
    }
}

/// Where the tag pages are made, there are as many as templates times
/// tags; each holds its tag, which is one of the tags, under `tag`, and the
/// sitemap that lists the new pages behind `before` holds the URL of each.
pub proof fn lemma_expansion_complete(
    config: ConfigView,
    templates: Seq<RecordView>,
    tags: Seq<Seq<char>>,
    before: Seq<Seq<char>>,
)
    requires
        try_map(
            expansions(templates, tags),
            |job: (RecordView, Seq<char>)| expanded(config, job),
        ) is Ok,
    ensures
        ({
            let jobs = expansions(templates, tags);
            let made = try_map(jobs, |job: (RecordView, Seq<char>)| expanded(config, job))->Ok_0;
            &&& made.len() == templates.len() * tags.len()
            &&& forall|i: int|
                0 <= i < made.len() ==> {
                    &&& tags.contains(jobs[i].1)
                    &&& (#[trigger] made[i]).metadata is Some
                    &&& lookup(made[i].metadata->Some_0.stuff, "tag"@) == Some(
                        DatumView::Text(jobs[i].1),
                    )
                    &&& made[i].url is Some
                    &&& sorted_by(before + urls_of(made), by_text()).contains(
                        made[i].url->Some_0.url,
                    )
                }
        }),
{
    let jobs = expansions(templates, tags);
    let step = |job: (RecordView, Seq<char>)| expanded(config, job);
    let made = try_map(jobs, step)->Ok_0;
    lemma_try_map_ok(jobs, step);
    lemma_expansions_len(templates, tags);
    assert forall|i: int| 0 <= i < made.len() implies {
        &&& tags.contains(jobs[i].1)
        &&& (#[trigger] made[i]).metadata is Some
        &&& lookup(made[i].metadata->Some_0.stuff, "tag"@) == Some(DatumView::Text(jobs[i].1))
        &&& made[i].url is Some
        &&& sorted_by(before + urls_of(made), by_text()).contains(made[i].url->Some_0.url)
    } by {
        lemma_expansions_members(templates, tags, i);
        assert(step(jobs[i]) == Ok::<RecordView, SiteErrorView>(made[i]));
        let given = jobs[i].0.metadata->Some_0;
        lemma_with_entry_lookup(given.stuff, "tag"@, DatumView::Text(jobs[i].1), "tag"@);
        let all = before + urls_of(made);
        assert(all[before.len() + i] == made[i].url->Some_0.url);
        assert(all.contains(made[i].url->Some_0.url));
        lemma_sorted_by_contains(all, by_text(), made[i].url->Some_0.url);
    }
}

} // verus!
