//! The stage that gives each page its URL.

use crate::config::{Config, ConfigView, Kind};
use crate::error::{SiteError, SiteErrorView};
use crate::record::{Record, RecordView};
use crate::seqs::{all_done, first_failure, views};
use crate::url::{metadata_to_url, resolved};
use vstd::prelude::*;

verus! {

/// Whether the stage resolves a URL for the record: it does for every
/// record with metadata but a static asset and the template of the tag
/// pages, whose pages get their URLs tag by tag.
pub open spec fn wants_url(r: RecordView) -> bool {
    r.kind != Kind::StaticAsset && r.kind != Kind::TagPageTemplate && r.metadata is Some
}

/// The record with the URL of its route, where it wants one.
pub open spec fn with_url(config: ConfigView, r: RecordView) -> Result<RecordView, SiteErrorView> {
    if wants_url(r) {
        match resolved(config, r.metadata->Some_0.route, r.metadata->Some_0.stuff) {
            Ok(u) => Ok(RecordView { url: Some(u), ..r }),
            Err(e) => Err(e),
        }
    } else {
        Ok(r)
    }
}

/// Gives each record that wants one its URL. The first record whose route
/// does not resolve fails the stage.
pub fn generate_urls(config: &Config, records: Vec<Record>) -> (r: Result<Vec<Record>, SiteError>)
    ensures
        match r {
            Ok(out) => all_done(views(records@), views(out@), |r: RecordView| with_url(config@, r)),
            Err(e) => first_failure(views(records@), e@, |r: RecordView| with_url(config@, r)),
        },
{
    let ghost orig = views(records@);
    let ghost step = |r: RecordView| with_url(config@, r);
    let mut v = records;
    let mut i: usize = 0;
    while i < v.len()
        invariant
            i <= v.len(),
            v.len() == orig.len(),
            orig == views(records@),
            step == |r: RecordView| with_url(config@, r),
            forall|j: int| 0 <= j < i ==> step(#[trigger] orig[j]) == Ok::<RecordView, SiteErrorView>(v[j]@),
            forall|j: int| i <= j < v.len() ==> #[trigger] v[j]@ == orig[j],
        decreases v.len() - i,
    {
        assert(v[i as int]@ == orig[i as int]);
        let resolved = match v[i].kind {
            Kind::StaticAsset => None,
            Kind::TagPageTemplate => None,
            _ => match &v[i].metadata {
                Some(m) => Some(metadata_to_url(config, m)),
                None => None,
            },
        };
        match resolved {
            Some(Ok(u)) => {
                v[i].url = Some(u);
            },
            Some(Err(e)) => {
                proof {
                    assert(step(orig[i as int]) == Err::<RecordView, SiteErrorView>(e@));
                    assert forall|j: int| 0 <= j < i implies step(#[trigger] orig[j]) is Ok by {
                        assert(step(orig[j]) == Ok::<RecordView, SiteErrorView>(v[j]@));
                    }
                }
                return Err(e);
            },
            None => {},
        }
        i = i + 1;
    }
    proof {
        assert forall|j: int| 0 <= j < orig.len() implies step(#[trigger] orig[j]) == Ok::<
            RecordView,
            SiteErrorView,
        >(views(v@)[j]) by {
            assert(step(orig[j]) == Ok::<RecordView, SiteErrorView>(v[j]@));
        }
    }
    Ok(v)
}

} // verus!
