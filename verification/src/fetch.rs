//! The template function that hands posts of the index to a template.

use crate::blog::{featured_posts, BlogpostIndex, BlogpostIndexEntry, EntryView};
use crate::json::{count_of, entries_view, get, lookup, BagView, Datum, DatumView};
use crate::seqs::{holds_text, views};
use crate::url::CallError;
use crate::values::{list, post_data, post_value};
use vstd::prelude::*;

verus! {

/// A template function over a list of posts: it gives the first `count`
/// of them that are offered.
#[derive(Debug, PartialEq, Eq)]
pub struct BlogpostFetcherFunction {
    pub entries: Vec<BlogpostIndexEntry>,
    /// Whether featured posts are left out.
    pub skip_featured: bool,
}

/// The argument `count`: a value that holds a count.
pub open spec fn count_arg(args: BagView) -> Option<usize> {
    match lookup(args, "count"@) {
        Some(v) => count_of(v),
        None => None,
    }
}

/// The argument `tag`: a text, or absent.
pub open spec fn tag_arg(args: BagView) -> Option<Option<Seq<char>>> {
    match lookup(args, "tag"@) {
        None => Some(None),
        Some(DatumView::Text(t)) => Some(Some(t)),
        Some(_) => None,
    }
}

/// Whether a post is offered: it is not featured where those are left out,
/// and it has the tag where one is asked for.
pub open spec fn offered(e: EntryView, skip_featured: bool, tag: Option<Seq<char>>) -> bool {
    (!skip_featured || !e.featured) && match tag {
        Some(t) => e.tags.contains(t),
        None => true,
    }
}

/// The offered posts among `entries`, in their order.
pub open spec fn offered_posts(entries: Seq<EntryView>, skip_featured: bool, tag: Option<Seq<char>>) -> Seq<
    EntryView,
> {
    entries.filter_map(
        |e: EntryView|
            if offered(e, skip_featured, tag) {
                Some(e)
            } else {
                None
            },
    )
}

/// The first `count` of `posts`, or all where there are fewer.
pub open spec fn first_posts(posts: Seq<EntryView>, count: usize) -> Seq<EntryView> {
    if count <= posts.len() {
        posts.take(count as int)
    } else {
        posts
    }
}

impl BlogpostFetcherFunction {
    /// The first `count` offered posts as a list value. The argument
    /// `count` must be a count; the argument `tag`, where given, a text.
    pub fn call(&self, args: &Vec<(String, Datum)>) -> (r: Result<Datum, CallError>)
        ensures
            match (count_arg(entries_view(args@)), tag_arg(entries_view(args@))) {
                (None, _) => r == Err::<Datum, CallError>(CallError::InvalidCount),
                (Some(_), None) => r == Err::<Datum, CallError>(CallError::InvalidTag),
                (Some(count), Some(tag)) => r matches Ok(v) && v@ == DatumView::List(
                    first_posts(
                        offered_posts(views(self.entries@), self.skip_featured, tag),
                        count,
                    ).map_values(|e: EntryView| post_value(e)),
                ),
            },
    {
        let given = match get(args, "count") {
            Some(v) => v.as_count(),
            None => None,
        };
        let count: usize = match given {
            Some(count) => count,
            None => {
                return Err(CallError::InvalidCount);
            },
        };
        let tag: Option<&String> = match get(args, "tag") {
            None => None,
            Some(Datum::Text(t)) => Some(t),
            Some(_) => {
                return Err(CallError::InvalidTag);
            },
        };
        let ghost wanted: Option<Seq<char>> = match tag {
            Some(t) => Some(t@),
            None => None,
        };
        let ghost all = views(self.entries@);
        let ghost pick = |e: EntryView|
            if offered(e, self.skip_featured, wanted) {
                Some(e)
            } else {
                None
            };
        let mut out: Vec<BlogpostIndexEntry> = Vec::new();
        let mut i: usize = 0;
        proof {
            assert(all.take(0) =~= Seq::empty());
            assert(views(out@) =~= all.take(0).filter_map(pick));
        }
        while i < self.entries.len()
            invariant
                i <= self.entries.len(),
                all == views(self.entries@),
                wanted == match tag {
                    Some(t) => Some(t@),
                    None => None,
                },
                pick == |e: EntryView|
                    if offered(e, self.skip_featured, wanted) {
                        Some(e)
                    } else {
                        None
                    },
                views(out@) == all.take(i as int).filter_map(pick),
            decreases self.entries.len() - i,
        {
            proof {
                all.lemma_filter_map_take_succ(pick, i as int);
                assert(all[i as int] == self.entries[i as int]@);
            }
            let ghost before = views(out@);
            let e = &self.entries[i];
            let fits = (!self.skip_featured || !e.featured) && match tag {
                Some(t) => holds_text(&e.tags, t),
                None => true,
            };
            if fits {
                out.push(e.duplicate());
                assert(views(out@) =~= before + seq![all[i as int]]);
            }
            i = i + 1;
        }
        proof {
            assert(all.take(self.entries.len() as int) =~= all);
        }
        let ghost found = views(out@);
        if count < out.len() {
            out.truncate(count);
            assert(views(out@) =~= found.take(count as int));
        }
        proof {
            if count == found.len() {
                assert(found.take(count as int) =~= found);
            }
        }
        Ok(list(post_data(&out)))
    }
}

/// A template function over posts as specifications see it: its name, its
/// posts, and whether it leaves featured posts out.
pub ghost struct FetcherView {
    pub name: Seq<char>,
    pub entries: Seq<EntryView>,
    pub skip_featured: bool,
}

/// The contents of named template functions.
pub open spec fn fetcher_views(items: Seq<(String, BlogpostFetcherFunction)>) -> Seq<FetcherView> {
    items.map_values(
        |t: (String, BlogpostFetcherFunction)|
            FetcherView {
                name: t.0@,
                entries: views(t.1.entries@),
                skip_featured: t.1.skip_featured,
            },
    )
}

/// The template functions over the posts `entries` of the index:
/// `blogposts_featured` gives the featured posts; `blogposts_recent` gives
/// all but the featured ones; `blogposts_tagged` and `blogposts_all` give
/// all posts.
pub open spec fn fetcher_table(entries: Seq<EntryView>) -> Seq<FetcherView> {
    seq![
        FetcherView {
            name: "blogposts_featured"@,
            entries: featured_posts(entries),
            skip_featured: false,
        },
        FetcherView { name: "blogposts_recent"@, entries, skip_featured: true },
        FetcherView { name: "blogposts_tagged"@, entries, skip_featured: false },
        FetcherView { name: "blogposts_all"@, entries, skip_featured: false },
    ]
}

/// The template functions over the posts of `index`, each with the name
/// under which templates call it.
pub fn fetchers(index: &BlogpostIndex) -> (out: Vec<(String, BlogpostFetcherFunction)>)
    ensures
        fetcher_views(out@) == fetcher_table(index@.entries),
{
    let mut out: Vec<(String, BlogpostFetcherFunction)> = Vec::new();
    out.push(
        (
            "blogposts_featured".to_owned(),
            BlogpostFetcherFunction { entries: index.featured(), skip_featured: false },
        ),
    );
    out.push(
        (
            "blogposts_recent".to_owned(),
            BlogpostFetcherFunction { entries: index.recent(), skip_featured: true },
        ),
    );
    out.push(
        (
            "blogposts_tagged".to_owned(),
            BlogpostFetcherFunction { entries: index.recent(), skip_featured: false },
        ),
    );
    out.push(
        (
            "blogposts_all".to_owned(),
            BlogpostFetcherFunction { entries: index.recent(), skip_featured: false },
        ),
    );
    assert(fetcher_views(out@) =~= fetcher_table(index@.entries));
    out
}

} // verus!
