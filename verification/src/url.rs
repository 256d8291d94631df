//! URLs from the route table: a route's template with the values of a bag
//! put in place of its placeholders.

use crate::config::{route_template, Config, ConfigView};
use crate::error::{failure, ErrorKind, SiteError, SiteErrorView};
use crate::json::{entries_view, get, lookup, BagView, Datum, DatumView};
use crate::metadata::DynamicContentMetadata;
use crate::text::{
    append, contains_char, decimal, decimal_exec, find, from_chars, matches_at, replace_all,
    replace_all_exec, to_chars,
};
use vstd::prelude::*;

verus! {

/// Where a record is found on the site.
#[derive(Debug, PartialEq, Eq)]
pub struct URL {
    /// The URL within the site.
    pub url: String,
    /// The same behind the site's base URL.
    pub absolute: String,
}

/// A URL as specifications see it.
pub ghost struct UrlView {
    pub url: Seq<char>,
    pub absolute: Seq<char>,
}

impl View for URL {
    type V = UrlView;

    open spec fn view(&self) -> UrlView {
        UrlView { url: self.url@, absolute: self.absolute@ }
    }
}

impl URL {
    /// A copy with the same contents.
    pub fn duplicate(&self) -> (out: URL)
        ensures
            out@ == self@,
    {
        URL { url: self.url.clone(), absolute: self.absolute.clone() }
    }
}

/// The placeholder for `key`: the key between braces.
pub open spec fn placeholder(key: Seq<char>) -> Seq<char> {
    seq!['{'] + key + seq!['}']
}

/// `url` with the placeholder of one entry filled in: by the text of a
/// text value or the decimal form of an integer. Other values fill nothing.
pub open spec fn filled(url: Seq<char>, entry: (Seq<char>, DatumView)) -> Seq<char> {
    match entry.1 {
        DatumView::Integer(n) => replace_all(url, placeholder(entry.0), decimal(n)),
        DatumView::Text(s) => replace_all(url, placeholder(entry.0), s),
        _ => url,
    }
}

/// Whether a value fills a placeholder: a text or an integer does.
pub open spec fn fills(v: DatumView) -> bool {
    v is Integer || v is Text
}

/// `pat` occurs somewhere in `url`.
pub open spec fn occurs(url: Seq<char>, pat: Seq<char>) -> bool {
    exists|i: int| matches_at(url, pat, i)
}

/// The placeholder of some entry of `bag` that fills one occurs in `url`.
pub open spec fn token_occurs(url: Seq<char>, bag: BagView) -> bool {
    exists|k: int|
        0 <= k < bag.len() && fills((#[trigger] bag[k]).1) && occurs(url, placeholder(bag[k].0))
}

/// `url` after one pass: each entry of `bag`, one after the other, has
/// filled its placeholder.
pub open spec fn one_pass(url: Seq<char>, bag: BagView) -> Seq<char>
    decreases bag.len(),
{
    if bag.len() == 0 {
        url
    } else {
        one_pass(filled(url, bag[0]), bag.skip(1))
    }
}

/// The most passes that are made over one URL. A value may hold its own
/// placeholder, so that no number of passes would use it up.
pub open spec fn pass_limit() -> nat {
    16
}

/// `url` after passes are made for as long as the placeholder of some
/// entry occurs in it, `passes` of them at most.
pub open spec fn substituted(url: Seq<char>, bag: BagView, passes: nat) -> Seq<char>
    decreases passes,
{
    if passes == 0 || !token_occurs(url, bag) {
        url
    } else {
        substituted(one_pass(url, bag), bag, (passes - 1) as nat)
    }
}

/// The URL of the route `route` with the values of `bag`: the route must be
/// in the table, and no opening brace may be left once no placeholder of
/// the bag occurs any more, or the passes are used up.
pub open spec fn resolved(config: ConfigView, route: Seq<char>, bag: BagView) -> Result<
    UrlView,
    SiteErrorView,
> {
    match lookup(config.routes, route) {
        None => Err(failure(ErrorKind::UnknownRoute, route)),
        Some(template) => {
            let url = substituted(template, bag, pass_limit());
            if url.contains('{') {
                Err(failure(ErrorKind::UnresolvedPlaceholder, url))
            } else {
                Ok(UrlView { url, absolute: config.site_url + url })
            }
        },
    }
}

/// A URL that resolves holds no opening brace, and a route that the table
/// lacks never resolves.
pub proof fn lemma_resolution_is_total(config: ConfigView, route: Seq<char>, bag: BagView)
    ensures
        resolved(config, route, bag) matches Ok(u) ==> !u.url.contains('{'),
        lookup(config.routes, route) is None ==> resolved(config, route, bag) == Err::<
            UrlView,
            SiteErrorView,
        >(failure(ErrorKind::UnknownRoute, route)),
{
}

/// The placeholder for `key`.
fn placeholder_exec(key: &str) -> (token: Vec<char>)
    ensures
        token@ == placeholder(key@),
{
    let mut token: Vec<char> = Vec::new();
    token.push('{');
    let key = to_chars(key);
    append(&mut token, &key);
    token.push('}');
    assert(token@ =~= placeholder(key@));
    token
}

/// Whether the placeholder of some entry that fills one occurs in `url`.
fn token_occurs_exec(url: &Vec<char>, replacements: &Vec<(String, Datum)>) -> (r: bool)
    ensures
        r == token_occurs(url@, entries_view(replacements@)),
{
    let ghost bag = entries_view(replacements@);
    let mut k: usize = 0;
    while k < replacements.len()
        invariant
            k <= replacements.len(),
            bag == entries_view(replacements@),
            forall|j: int|
                0 <= j < k ==> !(fills((#[trigger] bag[j]).1) && occurs(url@, placeholder(bag[j].0))),
        decreases replacements.len() - k,
    {
        assert(bag[k as int] == (replacements[k as int].0@, replacements[k as int].1@));
        let fills = match &replacements[k].1 {
            Datum::Integer(_) => true,
            Datum::Text(_) => true,
            _ => false,
        };
        if fills {
            let token = placeholder_exec(replacements[k].0.as_str());
            match find(url, &token) {
                Some(i) => {
                    assert(matches_at(url@, token@, i as int));
                    return true;
                },
                None => {},
            }
        }
        k = k + 1;
    }
    false
}

/// One pass over `url`.
fn one_pass_exec(url: &Vec<char>, replacements: &Vec<(String, Datum)>) -> (out: Vec<char>)
    ensures
        out@ == one_pass(url@, entries_view(replacements@)),
{
    let ghost bag = entries_view(replacements@);
    let mut out: Vec<char> = Vec::new();
    append(&mut out, url);
    let mut i: usize = 0;
    proof {
        assert(out@ =~= url@);
        assert(bag.skip(0) =~= bag);
    }
    while i < replacements.len()
        invariant
            i <= replacements.len(),
            bag == entries_view(replacements@),
            one_pass(url@, bag) == one_pass(out@, bag.skip(i as int)),
        decreases replacements.len() - i,
    {
        proof {
            assert(bag.skip(i as int)[0] == bag[i as int]);
            assert(bag.skip(i as int).skip(1) =~= bag.skip(i + 1));
            assert(bag[i as int] == (replacements[i as int].0@, replacements[i as int].1@));
        }
        match &replacements[i].1 {
            Datum::Integer(n) => {
                let token = placeholder_exec(replacements[i].0.as_str());
                let value = decimal_exec(*n);
                out = replace_all_exec(&out, &token, &value);
            },
            Datum::Text(s) => {
                let token = placeholder_exec(replacements[i].0.as_str());
                let value = to_chars(s.as_str());
                out = replace_all_exec(&out, &token, &value);
            },
            _ => {},
        }
        i = i + 1;
    }
    out
}

/// The URL of the route `route` with the values of `replacements`.
pub fn url_for_impl(config: &Config, route: &str, replacements: &Vec<(String, Datum)>) -> (r:
    Result<URL, SiteError>)
    ensures
        match r {
            Ok(u) => resolved(config@, route@, entries_view(replacements@)) == Ok::<
                UrlView,
                SiteErrorView,
            >(u@),
            Err(e) => resolved(config@, route@, entries_view(replacements@)) == Err::<
                UrlView,
                SiteErrorView,
            >(e@),
        },
        r matches Ok(u) ==> !u.url@.contains('{'),
        lookup(config@.routes, route@) is None ==> (r matches Err(e) && e.kind
            == ErrorKind::UnknownRoute),
{
    let template = match route_template(config, route) {
        Some(t) => t,
        None => {
            return Err(SiteError::new(ErrorKind::UnknownRoute, route));
        },
    };
    let ghost bag = entries_view(replacements@);
    let mut url: Vec<char> = to_chars(template.as_str());
    let mut left: usize = 16;
    while left > 0 && token_occurs_exec(&url, replacements)
        invariant
            left <= 16,
            bag == entries_view(replacements@),
            substituted(template@, bag, pass_limit()) == substituted(url@, bag, left as nat),
        decreases left,
    {
        url = one_pass_exec(&url, replacements);
        left = left - 1;
    }
    let relative = from_chars(&url);
    if contains_char(&url, '{') {
        return Err(SiteError::new(ErrorKind::UnresolvedPlaceholder, relative.as_str()));
    }
    let mut absolute = to_chars(config.site_url.as_str());
    append(&mut absolute, &url);
    Ok(URL { url: relative, absolute: from_chars(&absolute) })
}

/// The URL of a page: that of its route with the values of its bag.
pub fn metadata_to_url(config: &Config, metadata: &DynamicContentMetadata) -> (r: Result<
    URL,
    SiteError,
>)
    ensures
        match r {
            Ok(u) => resolved(config@, metadata@.route, metadata@.stuff) == Ok::<
                UrlView,
                SiteErrorView,
            >(u@),
            Err(e) => resolved(config@, metadata@.route, metadata@.stuff) == Err::<
                UrlView,
                SiteErrorView,
            >(e@),
        },
{
    url_for_impl(config, metadata.route.as_str(), &metadata.stuff)
}

/// Why a call from a template fails.
#[derive(Debug, PartialEq, Eq)]
pub enum CallError {
    /// The argument `route` is missing.
    MissingRoute,
    /// The argument `route` is no text.
    InvalidRoute,
    /// The argument `count` is missing or no count.
    InvalidCount,
    /// The argument `tag` is no text.
    InvalidTag,
    /// The route does not resolve.
    Unresolved(SiteError),
}

/// The template function that gives the URL of a route, its own arguments
/// being the values for the placeholders.
#[derive(Debug, PartialEq, Eq)]
pub struct UrlFor {
    pub config: Config,
}

impl UrlFor {
    /// The URL, within the site, of the route named by the argument
    /// `route`, as a text value.
    pub fn call(&self, args: &Vec<(String, Datum)>) -> (r: Result<Datum, CallError>)
        ensures
            match lookup(entries_view(args@), "route"@) {
                None => r == Err::<Datum, CallError>(CallError::MissingRoute),
                Some(DatumView::Text(route)) => match resolved(
                    self.config@,
                    route,
                    entries_view(args@),
                ) {
                    Ok(u) => r matches Ok(v) && v@ == DatumView::Text(u.url),
                    Err(e) => r matches Err(CallError::Unresolved(f)) && f@ == e,
                },
                Some(_) => r == Err::<Datum, CallError>(CallError::InvalidRoute),
            },
    {
        let route = match get(args, "route") {
            None => {
                return Err(CallError::MissingRoute);
            },
            Some(Datum::Text(route)) => route,
            Some(_) => {
                return Err(CallError::InvalidRoute);
            },
        };
        match url_for_impl(&self.config, route.as_str(), args) {
            Ok(u) => Ok(Datum::Text(u.url)),
            Err(e) => Err(CallError::Unresolved(e)),
        }
    }
}

} // verus!
