//! The navigation bar: a two-level tree built from the pages that ask for a
//! place in it, and marked anew for each page that shows it.

use crate::error::{failure, ErrorKind, SiteError, SiteErrorView};
use crate::metadata::optional_text;
use crate::record::{Record, RecordView};
use crate::seqs::{
    all_done, distinct, first_failure, holds_text, lemma_distinct, lemma_try_map_done,
    lemma_try_map_failure, try_map, views,
};
use crate::sort::{
    by_text, in_order, lemma_sorted_by_in_order, lemma_sorted_by_map, lemma_sorted_by_multiset,
    sort_by, sort_texts, sorted_by, total, transitive,
};
use crate::text::{chars_eq, matches_at_exec, starts_with, to_chars};
use vstd::prelude::*;

verus! {

/// One entry of the navigation bar.
#[derive(Debug, PartialEq, Eq)]
pub struct NavbarEntry {
    pub url: String,
    pub title: String,
    /// Whether the page that shows the bar lies at or below this entry.
    pub active: bool,
    pub children: Vec<NavbarEntry>,
}

/// An entry as specifications see it.
#[verifier::ext_equal]
pub ghost struct NavbarEntryView {
    pub url: Seq<char>,
    pub title: Seq<char>,
    pub active: bool,
    pub children: Seq<NavbarEntryView>,
}

impl View for NavbarEntry {
    type V = NavbarEntryView;

    open spec fn view(&self) -> NavbarEntryView
        decreases self,
    {
        NavbarEntryView {
            url: self.url@,
            title: self.title@,
            active: self.active,
            children: Seq::new(
                self.children.len() as nat,
                |i: int|
                    if 0 <= i < self.children.len() {
                        self.children[i].view()
                    } else {
                        NavbarEntryView {
                            url: self.url@,
                            title: self.title@,
                            active: self.active,
                            children: Seq::<NavbarEntryView>::empty(),
                        }
                    },
            ),
        }
    }
}

/// The children of an entry are seen as the views of its children.
pub proof fn lemma_children_view(e: NavbarEntry)
    ensures
        e@.children == views(e.children@),
{
    assert(e@.children =~= views(e.children@));
}

impl NavbarEntry {
    /// A copy with the same contents.
    pub fn duplicate(&self) -> (out: NavbarEntry)
        ensures
            out@ == self@,
        decreases self,
    {
        let mut children: Vec<NavbarEntry> = Vec::new();
        let mut i: usize = 0;
        while i < self.children.len()
            invariant
                i <= self.children.len(),
                children.len() == i,
                forall|j: int| 0 <= j < i ==> children[j]@ == self.children[j]@,
            decreases self.children.len() - i,
        {
            proof {
                assert(decreases_to!(self.children => self.children[i as int]));
                assert(decreases_to!(*self => self.children));
            }
            children.push(self.children[i].duplicate());
            i = i + 1;
        }
        let out = NavbarEntry {
            url: self.url.clone(),
            title: self.title.clone(),
            active: self.active,
            children,
        };
        proof {
            lemma_children_view(out);
            lemma_children_view(*self);
            assert(views(out.children@) =~= views(self.children@));
        }
        out
    }
}

/// The navigation bar of the site: its top-level entries, in order.
#[derive(Debug, PartialEq, Eq)]
pub struct Navbar {
    pub entries: Vec<NavbarEntry>,
}

/// The navigation bar as specifications see it.
pub ghost struct NavbarView {
    pub entries: Seq<NavbarEntryView>,
}

impl View for Navbar {
    type V = NavbarView;

    open spec fn view(&self) -> NavbarView {
        NavbarView { entries: views(self.entries@) }
    }
}

/// `prefix` is a beginning of `path` that ends where a segment ends: at the
/// end of `path`, at a slash of its own, or before a slash of `path`.
pub open spec fn is_path_prefix(prefix: Seq<char>, path: Seq<char>) -> bool {
    &&& starts_with(path, prefix)
    &&& {
        ||| path.len() == prefix.len()
        ||| (prefix.len() > 0 && prefix.last() == '/')
        ||| path[prefix.len() as int] == '/'
    }
}

/// An entry is active for the page at `current` where it is that page, or
/// where it is not the root and its URL is a path prefix of `current`.
pub open spec fn is_active(entry_url: Seq<char>, current: Seq<char>) -> bool {
    entry_url == current || (entry_url != seq!['/'] && is_path_prefix(entry_url, current))
}

/// The entry `e` marked for the page at `current`, its children left as
/// they are.
pub open spec fn marked_alone(e: NavbarEntryView, current: Seq<char>) -> NavbarEntryView {
    NavbarEntryView { active: is_active(e.url, current), ..e }
}

/// The entry `e` and each of its children marked for the page at `current`.
pub open spec fn marked(e: NavbarEntryView, current: Seq<char>) -> NavbarEntryView {
    NavbarEntryView {
        active: is_active(e.url, current),
        children: e.children.map_values(|c: NavbarEntryView| marked_alone(c, current)),
        ..e
    }
}

fn is_active_exec(entry_url: &str, current: &Vec<char>) -> (r: bool)
    ensures
        r == is_active(entry_url@, current@),
{
    let e = to_chars(entry_url);
    if chars_eq(&e, current) {
        return true;
    }
    let mut root: Vec<char> = Vec::new();
    root.push('/');
    assert(root@ =~= seq!['/']);
    if chars_eq(&e, &root) || !matches_at_exec(current, &e, 0) {
        return false;
    }
    current.len() == e.len() || (e.len() > 0 && e[e.len() - 1] == '/') || current[e.len()] == '/'
}

fn mark_alone(e: &NavbarEntry, current: &Vec<char>) -> (out: NavbarEntry)
    ensures
        out@ == marked_alone(e@, current@),
{
    let copy = e.duplicate();
    let out = NavbarEntry {
        url: copy.url,
        title: copy.title,
        active: is_active_exec(e.url.as_str(), current),
        children: copy.children,
    };
    proof {
        lemma_children_view(out);
        lemma_children_view(copy);
    }
    out
}

fn mark(e: &NavbarEntry, current: &Vec<char>) -> (out: NavbarEntry)
    ensures
        out@ == marked(e@, current@),
{
    let mut children: Vec<NavbarEntry> = Vec::new();
    let mut i: usize = 0;
    while i < e.children.len()
        invariant
            i <= e.children.len(),
            children.len() == i,
            forall|j: int| 0 <= j < i ==> children[j]@ == marked_alone(e.children[j]@, current@),
        decreases e.children.len() - i,
    {
        children.push(mark_alone(&e.children[i], current));
        i = i + 1;
    }
    let out = NavbarEntry {
        url: e.url.clone(),
        title: e.title.clone(),
        active: is_active_exec(e.url.as_str(), current),
        children,
    };
    proof {
        lemma_children_view(out);
        lemma_children_view(*e);
        assert(views(out.children@) =~= e@.children.map_values(
            |c: NavbarEntryView| marked_alone(c, current@),
        ));
    }
    out
}

impl Navbar {
    /// The bar as the page at `url` shows it: every top-level entry and
    /// every child marked active or not for this page.
    pub fn for_(&self, url: &str) -> (out: Navbar)
        ensures
            out@.entries == self@.entries.map_values(|e: NavbarEntryView| marked(e, url@)),
    {
        let current = to_chars(url);
        let mut entries: Vec<NavbarEntry> = Vec::new();
        let mut i: usize = 0;
        while i < self.entries.len()
            invariant
                i <= self.entries.len(),
                entries.len() == i,
                current@ == url@,
                forall|j: int| 0 <= j < i ==> entries[j]@ == marked(self.entries[j]@, url@),
            decreases self.entries.len() - i,
        {
            entries.push(mark(&self.entries[i], &current));
            i = i + 1;
        }
        let out = Navbar { entries };
        assert(out@.entries =~= self@.entries.map_values(|e: NavbarEntryView| marked(e, url@)));
        out
    }
}

/// A page that asks for a place in the navigation bar.
#[derive(Debug, PartialEq, Eq)]
pub struct NavCandidate {
    pub url: String,
    pub title: String,
    pub index: usize,
    pub group: Option<String>,
    pub is_primary: bool,
}

/// A candidate as specifications see it.
pub ghost struct NavCandidateView {
    pub url: Seq<char>,
    pub title: Seq<char>,
    pub index: usize,
    pub group: Option<Seq<char>>,
    pub is_primary: bool,
}

impl View for NavCandidate {
    type V = NavCandidateView;

    open spec fn view(&self) -> NavCandidateView {
        NavCandidateView {
            url: self.url@,
            title: self.title@,
            index: self.index,
            group: optional_text(self.group),
            is_primary: self.is_primary,
        }
    }
}

impl NavCandidate {
    /// A copy with the same contents.
    pub fn duplicate(&self) -> (out: NavCandidate)
        ensures
            out@ == self@,
    {
        NavCandidate {
            url: self.url.clone(),
            title: self.title.clone(),
            index: self.index,
            group: match &self.group {
                Some(g) => Some(g.clone()),
                None => None,
            },
            is_primary: self.is_primary,
        }
    }
}

/// The place that a record asks for: it needs a URL, metadata and, in
/// these, a navbar placement.
pub open spec fn candidate_of(r: RecordView) -> Option<NavCandidateView> {
    match (r.url, r.metadata) {
        (Some(u), Some(m)) => match m.navbar {
            Some(n) => Some(
                NavCandidateView {
                    url: u.url,
                    title: m.title,
                    index: n.index,
                    group: n.group,
                    is_primary: n.is_primary,
                },
            ),
            None => None,
        },
        _ => None,
    }
}

/// The candidates among `records`, in their order.
pub open spec fn candidates(records: Seq<RecordView>) -> Seq<NavCandidateView> {
    records.filter_map(|r: RecordView| candidate_of(r))
}

/// The order of candidates by their index.
pub open spec fn by_index() -> spec_fn(NavCandidateView, NavCandidateView) -> bool {
    |a: NavCandidateView, b: NavCandidateView| a.index <= b.index
}

/// The order of keyed entries by their key.
pub open spec fn by_key() -> spec_fn((usize, NavbarEntryView), (usize, NavbarEntryView)) -> bool {
    |a: (usize, NavbarEntryView), b: (usize, NavbarEntryView)| a.0 <= b.0
}

/// Whether the candidate `c` is wanted: in the group `group` (or in none)
/// and, where `primary` says so, primary or not.
pub open spec fn wanted(c: NavCandidateView, group: Option<Seq<char>>, primary: Option<bool>) -> bool {
    c.group == group && match primary {
        Some(p) => c.is_primary == p,
        None => true,
    }
}

/// The wanted candidates among `cs`, in their order.
pub open spec fn selected(
    cs: Seq<NavCandidateView>,
    group: Option<Seq<char>>,
    primary: Option<bool>,
) -> Seq<NavCandidateView> {
    cs.filter_map(
        |c: NavCandidateView|
            if wanted(c, group, primary) {
                Some(c)
            } else {
                None
            },
    )
}

/// The names of the groups of `cs`, each once, in the order of texts.
pub open spec fn group_names(cs: Seq<NavCandidateView>) -> Seq<Seq<char>> {
    sorted_by(distinct(cs.filter_map(|c: NavCandidateView| c.group)), by_text())
}

/// The entry of a candidate without children.
pub open spec fn leaf(c: NavCandidateView) -> NavbarEntryView {
    NavbarEntryView { url: c.url, title: c.title, active: false, children: Seq::empty() }
}

/// The entry of a candidate without children, with its index as key.
pub open spec fn keyed_leaf(c: NavCandidateView) -> (usize, NavbarEntryView) {
    (c.index, leaf(c))
}

/// The candidates outside any group, by their index.
pub open spec fn ungrouped(cs: Seq<NavCandidateView>) -> Seq<NavCandidateView> {
    sorted_by(selected(cs, None, None), by_index())
}

/// The candidates of the group `g` that are not primary, by their index.
pub open spec fn children_of(cs: Seq<NavCandidateView>, g: Seq<char>) -> Seq<NavCandidateView> {
    sorted_by(selected(cs, Some(g), Some(false)), by_index())
}

/// The node of the group `g`: its primary candidate with the others as
/// children, and the primary's index as key.
pub open spec fn group_node(cs: Seq<NavCandidateView>, g: Seq<char>) -> (usize, NavbarEntryView) {
    let p = selected(cs, Some(g), Some(true))[0];
    (
        p.index,
        NavbarEntryView {
            url: p.url,
            title: p.title,
            active: false,
            children: children_of(cs, g).map_values(|c: NavCandidateView| leaf(c)),
        },
    )
}

/// What is wrong with the group `g`, if anything: it must have exactly one
/// primary candidate.
pub open spec fn group_failure(cs: Seq<NavCandidateView>, g: Seq<char>) -> Option<SiteErrorView> {
    let n = selected(cs, Some(g), Some(true)).len();
    if n > 1 {
        Some(failure(ErrorKind::AmbiguousNavbarPrimary, g))
    } else if n == 0 {
        Some(failure(ErrorKind::MissingNavbarPrimary, g))
    } else {
        None
    }
}

/// The top-level nodes with their keys, before they are put in order: the
/// candidates outside any group, then the nodes of the groups.
pub open spec fn top_level(cs: Seq<NavCandidateView>) -> Seq<(usize, NavbarEntryView)> {
    ungrouped(cs).map_values(|c: NavCandidateView| keyed_leaf(c)) + group_names(cs).map_values(
        |g: Seq<char>| group_node(cs, g),
    )
}

/// The entries of the navigation bar: the top-level nodes by their key.
pub open spec fn navbar_entries(cs: Seq<NavCandidateView>) -> Seq<NavbarEntryView> {
    sorted_by(top_level(cs), by_key()).map_values(|t: (usize, NavbarEntryView)| t.1)
}

/// The group `g`, or what is wrong with it.
pub open spec fn checked_group(cs: Seq<NavCandidateView>, g: Seq<char>) -> Result<
    Seq<char>,
    SiteErrorView,
> {
    match group_failure(cs, g) {
        Some(e) => Err(e),
        None => Ok(g),
    }
}

/// The navigation bar of the candidates `cs`, or the failure of the first
/// group, in the order of texts, that has not exactly one primary candidate.
pub open spec fn navbar_of(cs: Seq<NavCandidateView>) -> Result<NavbarView, SiteErrorView> {
    match try_map(group_names(cs), |g: Seq<char>| checked_group(cs, g)) {
        Err(e) => Err(e),
        Ok(_) => Ok(NavbarView { entries: navbar_entries(cs) }),
    }
}

/// Where no group fails, the bar is that of the candidates.
pub proof fn lemma_navbar_of_ok(cs: Seq<NavCandidateView>)
    requires
        forall|k: int|
            0 <= k < group_names(cs).len() ==> group_failure(cs, #[trigger] group_names(cs)[k]) is None,
    ensures
        navbar_of(cs) == Ok::<NavbarView, SiteErrorView>(NavbarView { entries: navbar_entries(cs) }),
{
    let names = group_names(cs);
    let step = |g: Seq<char>| checked_group(cs, g);
    assert(all_done(names, names, step));
    lemma_try_map_done(names, names, step);
}

/// Where a group fails and none before it, the bar fails as that group.
pub proof fn lemma_navbar_of_err(cs: Seq<NavCandidateView>, e: SiteErrorView)
    requires
        exists|k: int|
            {
                &&& 0 <= k < group_names(cs).len()
                &&& group_failure(cs, #[trigger] group_names(cs)[k]) == Some(e)
                &&& forall|j: int|
                    0 <= j < k ==> group_failure(cs, #[trigger] group_names(cs)[j]) is None
            },
    ensures
        navbar_of(cs) == Err::<NavbarView, SiteErrorView>(e),
{
    let names = group_names(cs);
    let step = |g: Seq<char>| checked_group(cs, g);
    let k = choose|k: int|
        {
            &&& 0 <= k < group_names(cs).len()
            &&& group_failure(cs, #[trigger] group_names(cs)[k]) == Some(e)
            &&& forall|j: int|
                0 <= j < k ==> group_failure(cs, #[trigger] group_names(cs)[j]) is None
        };
    assert(step(names[k]) == Err::<Seq<char>, SiteErrorView>(e));
    assert forall|j: int| 0 <= j < k implies step(#[trigger] names[j]) is Ok by {
        assert(group_failure(cs, names[j]) is None);
    }
    assert(first_failure(names, e, step));
    lemma_try_map_failure(names, e, step);
}

/// In a bar that was built, every group is named once and has exactly one
/// primary candidate, whose node is the only one of the group at the top
/// level; the others of a group stand below it in the order of their
/// indexes, and the top-level entries stand in the order of their keys.
pub proof fn lemma_navbar_grouping(cs: Seq<NavCandidateView>)
    requires
        navbar_of(cs) is Ok,
    ensures
        group_names(cs).no_duplicates(),
        forall|k: int|
            0 <= k < group_names(cs).len() ==> selected(
                cs,
                Some(#[trigger] group_names(cs)[k]),
                Some(true),
            ).len() == 1,
        forall|g: Seq<char>| in_order(#[trigger] children_of(cs, g), by_index()),
        in_order(sorted_by(top_level(cs), by_key()), by_key()),
        navbar_entries(cs).len() == ungrouped(cs).len() + group_names(cs).len(),
{
    let names = group_names(cs);
    let step = |g: Seq<char>| checked_group(cs, g);
    crate::seqs::lemma_try_map_ok(names, step);
    assert forall|k: int| 0 <= k < names.len() implies selected(
        cs,
        Some(#[trigger] names[k]),
        Some(true),
    ).len() == 1 by {
        assert(step(names[k]) is Ok);
    }
    assert(total(by_index()) && transitive(by_index()));
    assert forall|g: Seq<char>| in_order(#[trigger] children_of(cs, g), by_index()) by {
        lemma_sorted_by_in_order(selected(cs, Some(g), Some(false)), by_index());
    }
    assert(total(by_key()) && transitive(by_key()));
    lemma_sorted_by_in_order(top_level(cs), by_key());
    lemma_sorted_by_multiset(top_level(cs), by_key());
    let all = distinct(cs.filter_map(|c: NavCandidateView| c.group));
    lemma_distinct(cs.filter_map(|c: NavCandidateView| c.group));
    lemma_sorted_by_multiset(all, by_text());
    all.lemma_multiset_has_no_duplicates();
    names.lemma_multiset_has_no_duplicates_conv();
}

/// The candidates among `records`.
pub fn collect_candidates(records: &Vec<Record>) -> (out: Vec<NavCandidate>)
    ensures
        views(out@) == candidates(views(records@)),
{
    let ghost all = views(records@);
    let ghost pick = |r: RecordView| candidate_of(r);
    let mut out: Vec<NavCandidate> = Vec::new();
    let mut i: usize = 0;
    proof {
        assert(all.take(0) =~= Seq::empty());
        assert(views(out@) =~= all.take(0).filter_map(pick));
    }
    while i < records.len()
        invariant
            i <= records.len(),
            all == views(records@),
            pick == |r: RecordView| candidate_of(r),
            views(out@) == all.take(i as int).filter_map(pick),
        decreases records.len() - i,
    {
        proof {
            all.lemma_filter_map_take_succ(pick, i as int);
            assert(all[i as int] == records[i as int]@);
        }
        let ghost before = views(out@);
        let r = &records[i];
        match (&r.url, &r.metadata) {
            (Some(u), Some(m)) => match &m.navbar {
                Some(n) => {
                    let c = NavCandidate {
                        url: u.url.clone(),
                        title: m.title.clone(),
                        index: n.index,
                        group: match &n.group {
                            Some(g) => Some(g.clone()),
                            None => None,
                        },
                        is_primary: n.is_primary,
                    };
                    out.push(c);
                    assert(views(out@) =~= before + seq![candidate_of(all[i as int])->Some_0]);
                },
                None => {},
            },
            _ => {},
        }
        i = i + 1;
    }
    assert(all.take(records.len() as int) =~= all);
    out
}

fn group_is(c: &NavCandidate, group: &Option<String>) -> (r: bool)
    ensures
        r == (c@.group == optional_text(*group)),
{
    match (&c.group, group) {
        (Some(a), Some(b)) => *a == *b,
        (None, None) => true,
        _ => false,
    }
}

fn select(cs: &Vec<NavCandidate>, group: &Option<String>, primary: Option<bool>) -> (out: Vec<
    NavCandidate,
>)
    ensures
        views(out@) == selected(views(cs@), optional_text(*group), primary),
{
    let ghost all = views(cs@);
    let ghost pick = |c: NavCandidateView|
        if wanted(c, optional_text(*group), primary) {
            Some(c)
        } else {
            None
        };
    let mut out: Vec<NavCandidate> = Vec::new();
    let mut i: usize = 0;
    proof {
        assert(all.take(0) =~= Seq::empty());
        assert(views(out@) =~= all.take(0).filter_map(pick));
    }
    while i < cs.len()
        invariant
            i <= cs.len(),
            all == views(cs@),
            pick == |c: NavCandidateView|
                if wanted(c, optional_text(*group), primary) {
                    Some(c)
                } else {
                    None
                },
            views(out@) == all.take(i as int).filter_map(pick),
        decreases cs.len() - i,
    {
        proof {
            all.lemma_filter_map_take_succ(pick, i as int);
            assert(all[i as int] == cs[i as int]@);
        }
        let ghost before = views(out@);
        let fits = group_is(&cs[i], group) && match primary {
            Some(p) => cs[i].is_primary == p,
            None => true,
        };
        if fits {
            out.push(cs[i].duplicate());
            assert(views(out@) =~= before + seq![all[i as int]]);
        }
        i = i + 1;
    }
    assert(all.take(cs.len() as int) =~= all);
    out
}

fn index_le(a: &NavCandidate, b: &NavCandidate) -> (r: bool)
    ensures
        r == (a.index <= b.index),
{
    a.index <= b.index
}

fn sort_candidates(items: Vec<NavCandidate>) -> (out: Vec<NavCandidate>)
    ensures
        views(out@) == sorted_by(views(items@), by_index()),
{
    let ghost rel = |a: NavCandidate, b: NavCandidate| a.index <= b.index;
    let out = sort_by(items, index_le, Ghost(rel));
    proof {
        lemma_sorted_by_map(items@, |c: NavCandidate| c@, rel, by_index());
    }
    out
}

/// The contents of keyed entries.
pub open spec fn keyed_views(items: Seq<(usize, NavbarEntry)>) -> Seq<(usize, NavbarEntryView)> {
    items.map_values(|t: (usize, NavbarEntry)| (t.0, t.1@))
}

fn key_le(a: &(usize, NavbarEntry), b: &(usize, NavbarEntry)) -> (r: bool)
    ensures
        r == (a.0 <= b.0),
{
    a.0 <= b.0
}

fn sort_keyed(items: Vec<(usize, NavbarEntry)>) -> (out: Vec<(usize, NavbarEntry)>)
    ensures
        keyed_views(out@) == sorted_by(keyed_views(items@), by_key()),
{
    let ghost rel = |a: (usize, NavbarEntry), b: (usize, NavbarEntry)| a.0 <= b.0;
    let out = sort_by(items, key_le, Ghost(rel));
    proof {
        lemma_sorted_by_map(items@, |t: (usize, NavbarEntry)| (t.0, t.1@), rel, by_key());
    }
    out
}

fn collect_group_names(cs: &Vec<NavCandidate>) -> (out: Vec<String>)
    ensures
        views(out@) == group_names(views(cs@)),
{
    let ghost all = views(cs@);
    let ghost pick = |c: NavCandidateView| c.group;
    let mut names: Vec<String> = Vec::new();
    let mut i: usize = 0;
    proof {
        assert(all.take(0) =~= Seq::empty());
        assert(all.take(0).filter_map(pick) =~= Seq::empty());
        assert(views(names@) =~= distinct(all.take(0).filter_map(pick)));
    }
    while i < cs.len()
        invariant
            i <= cs.len(),
            all == views(cs@),
            pick == |c: NavCandidateView| c.group,
            views(names@) == distinct(all.take(i as int).filter_map(pick)),
        decreases cs.len() - i,
    {
        proof {
            all.lemma_filter_map_take_succ(pick, i as int);
            assert(all[i as int] == cs[i as int]@);
        }
        let ghost before = views(names@);
        let ghost seen = all.take(i as int).filter_map(pick);
        match &cs[i].group {
            Some(g) => {
                proof {
                    assert((seen + seq![g@]).drop_last() =~= seen);
                    assert((seen + seq![g@]).last() == g@);
                }
                if !holds_text(&names, g) {
                    names.push(g.clone());
                    assert(views(names@) =~= before.push(g@));
                }
            },
            None => {
                assert(seen + Seq::<Seq<char>>::empty() =~= seen);
            },
        }
        i = i + 1;
    }
    assert(all.take(cs.len() as int) =~= all);
    sort_texts(names)
}

fn leaf_of(c: &NavCandidate) -> (out: NavbarEntry)
    ensures
        out@ == leaf(c@),
{
    let out = NavbarEntry {
        url: c.url.clone(),
        title: c.title.clone(),
        active: false,
        children: Vec::new(),
    };
    proof {
        lemma_children_view(out);
        assert(views(out.children@) =~= Seq::<NavbarEntryView>::empty());
    }
    out
}

fn leaves_of(cs: &Vec<NavCandidate>) -> (out: Vec<NavbarEntry>)
    ensures
        views(out@) == views(cs@).map_values(|c: NavCandidateView| leaf(c)),
{
    let mut out: Vec<NavbarEntry> = Vec::new();
    let mut i: usize = 0;
    while i < cs.len()
        invariant
            i <= cs.len(),
            out.len() == i,
            forall|j: int| 0 <= j < i ==> out[j]@ == leaf(cs[j]@),
        decreases cs.len() - i,
    {
        out.push(leaf_of(&cs[i]));
        i = i + 1;
    }
    assert(views(out@) =~= views(cs@).map_values(|c: NavCandidateView| leaf(c)));
    out
}

/// The navigation bar of the candidates `cs`. Each group must have exactly
/// one primary candidate; the first group, in the order of texts, that has
/// more or none fails the bar.
pub fn build_navbar(cs: &Vec<NavCandidate>) -> (r: Result<Navbar, SiteError>)
    ensures
        match r {
            Ok(navbar) => {
                &&& navbar@.entries == navbar_entries(views(cs@))
                &&& forall|k: int|
                    0 <= k < group_names(views(cs@)).len() ==> group_failure(
                        views(cs@),
                        #[trigger] group_names(views(cs@))[k],
                    ) is None
            },
            Err(e) => exists|k: int|
                {
                    &&& 0 <= k < group_names(views(cs@)).len()
                    &&& group_failure(views(cs@), #[trigger] group_names(views(cs@))[k]) == Some(e@)
                    &&& forall|j: int|
                        0 <= j < k ==> group_failure(
                            views(cs@),
                            #[trigger] group_names(views(cs@))[j],
                        ) is None
                },
        },
{
    let ghost all = views(cs@);
    let none: Option<String> = None;
    let free = sort_candidates(select(cs, &none, None));
    let mut top: Vec<(usize, NavbarEntry)> = Vec::new();
    let mut i: usize = 0;
    while i < free.len()
        invariant
            i <= free.len(),
            top.len() == i,
            forall|j: int| 0 <= j < i ==> (top[j].0, top[j].1@) == keyed_leaf(free[j]@),
        decreases free.len() - i,
    {
        top.push((free[i].index, leaf_of(&free[i])));
        i = i + 1;
    }
    let ghost leaves = ungrouped(all).map_values(|c: NavCandidateView| keyed_leaf(c));
    assert(keyed_views(top@) =~= leaves);
    let names = collect_group_names(cs);
    let ghost groups = group_names(all);
    let mut k: usize = 0;
    while k < names.len()
        invariant
            k <= names.len(),
            all == views(cs@),
            groups == group_names(all),
            views(names@) == groups,
            leaves == ungrouped(all).map_values(|c: NavCandidateView| keyed_leaf(c)),
            keyed_views(top@) == leaves + groups.take(k as int).map_values(
                |g: Seq<char>| group_node(all, g),
            ),
            forall|j: int| 0 <= j < k ==> group_failure(all, #[trigger] groups[j]) is None,
        decreases names.len() - k,
    {
        let group = Some(names[k].clone());
        assert(optional_text(group) == Some(groups[k as int]));
        let mut primaries = select(cs, &group, Some(true));
        assert(views(primaries@).len() == primaries.len());
        if primaries.len() > 1 {
            return Err(SiteError::new(ErrorKind::AmbiguousNavbarPrimary, names[k].as_str()));
        }
        let primary = match primaries.pop() {
            Some(p) => p,
            None => {
                return Err(SiteError::new(ErrorKind::MissingNavbarPrimary, names[k].as_str()));
            },
        };
        assert(primary@ == selected(all, Some(groups[k as int]), Some(true))[0]);
        let rest = sort_candidates(select(cs, &group, Some(false)));
        let node = NavbarEntry {
            url: primary.url,
            title: primary.title,
            active: false,
            children: leaves_of(&rest),
        };
        proof {
            lemma_children_view(node);
            assert((primary.index, node@) == group_node(all, groups[k as int]));
        }
        let ghost before = keyed_views(top@);
        top.push((primary.index, node));
        k = k + 1;
        proof {
            assert(keyed_views(top@) =~= before.push(group_node(all, groups[k - 1])));
            assert(groups.take(k as int).map_values(|g: Seq<char>| group_node(all, g))
                =~= groups.take(k - 1).map_values(|g: Seq<char>| group_node(all, g)).push(
                group_node(all, groups[k - 1]),
            ));
        }
    }
    assert(groups.take(names.len() as int) =~= groups);
    let sorted = sort_keyed(top);
    let mut entries: Vec<NavbarEntry> = Vec::new();
    let mut sorted = sorted;
    let ghost keyed = keyed_views(sorted@);
    let ghost n = sorted.len();
    while sorted.len() > 0
        invariant
            sorted.len() <= n,
            keyed.len() == n,
            entries.len() + sorted.len() == n,
            forall|j: int| 0 <= j < sorted.len() ==> (sorted[j].0, sorted[j].1@) == keyed[j],
            forall|j: int| 0 <= j < entries.len() ==> entries[j]@ == keyed[n - 1 - j].1,
        decreases sorted.len(),
    {
        match sorted.pop() {
            Some(t) => {
                entries.push(t.1);
            },
            None => {},
        }
    }
    let mut ordered: Vec<NavbarEntry> = Vec::new();
    while entries.len() > 0
        invariant
            entries.len() <= n,
            keyed.len() == n,
            ordered.len() + entries.len() == n,
            forall|j: int| 0 <= j < entries.len() ==> entries[j]@ == keyed[n - 1 - j].1,
            forall|j: int| 0 <= j < ordered.len() ==> ordered[j]@ == keyed[j].1,
        decreases entries.len(),
    {
        match entries.pop() {
            Some(e) => {
                ordered.push(e);
            },
            None => {},
        }
    }
    let navbar = Navbar { entries: ordered };
    assert(navbar@.entries =~= keyed.map_values(|t: (usize, NavbarEntryView)| t.1));
    Ok(navbar)
}

/// The navigation bar of the pages among `records` that ask for a place.
pub fn navbar_indexer(records: &Vec<Record>) -> (r: Result<Navbar, SiteError>)
    ensures
        match r {
            Ok(navbar) => navbar_of(candidates(views(records@))) == Ok::<NavbarView, SiteErrorView>(
                navbar@,
            ),
            Err(e) => navbar_of(candidates(views(records@))) == Err::<NavbarView, SiteErrorView>(e@),
        },
        match r {
            Ok(navbar) => {
                &&& navbar@.entries == navbar_entries(candidates(views(records@)))
                &&& forall|k: int|
                    0 <= k < group_names(candidates(views(records@))).len() ==> group_failure(
                        candidates(views(records@)),
                        #[trigger] group_names(candidates(views(records@)))[k],
                    ) is None
            },
            Err(e) => exists|k: int|
                {
                    &&& 0 <= k < group_names(candidates(views(records@))).len()
                    &&& group_failure(
                        candidates(views(records@)),
                        #[trigger] group_names(candidates(views(records@)))[k],
                    ) == Some(e@)
                    &&& forall|j: int|
                        0 <= j < k ==> group_failure(
                            candidates(views(records@)),
                            #[trigger] group_names(candidates(views(records@)))[j],
                        ) is None
                },
        },
{
    let cs = collect_candidates(records);
    match build_navbar(&cs) {
        Ok(navbar) => {
            proof {
                lemma_navbar_of_ok(views(cs@));
            }
            Ok(navbar)
        },
        Err(e) => {
            proof {
                lemma_navbar_of_err(views(cs@), e@);
            }
            Err(e)
        },
    }
}

} // verus!
