//! Where the output of each record is written.

use crate::config::{Config, ConfigView};
use crate::paths::{
    has_extension, has_extension_exec, join, join_exec, parent, parent_exec, trim_start_slashes,
    trim_start_slashes_exec,
};
use crate::record::{Record, RecordView};
use crate::seqs::{distinct, holds_text, views};
use vstd::prelude::*;

verus! {

/// The output path of the page at `url`, seen from the output directory:
/// the URL itself where it names a file with an extension, else the
/// document `index.html` in the directory that the URL names.
pub open spec fn output_path_of(url: Seq<char>) -> Seq<char> {
    if has_extension(url) {
        url
    } else {
        join(url, "index.html"@)
    }
}

/// The record with its output path, where it has a URL and no output path
/// yet.
pub open spec fn with_output_path(r: RecordView) -> RecordView {
    if r.url is Some && r.output_path is None {
        RecordView { output_path: Some(output_path_of(r.url->Some_0.url)), ..r }
    } else {
        r
    }
}

/// The output path of the page at `url`.
pub fn output_path_for(url: &str) -> (out: String)
    ensures
        out@ == output_path_of(url@),
{
    if has_extension_exec(url) {
        url.to_owned()
    } else {
        join_exec(url, "index.html")
    }
}

/// Gives each record with a URL its output path, unless it has one.
pub fn map_urls_to_relative_paths(records: Vec<Record>) -> (out: Vec<Record>)
    ensures
        views(out@) == views(records@).map_values(|r: RecordView| with_output_path(r)),
{
    let ghost orig = views(records@);
    let mut records = records;
    let mut i: usize = 0;
    while i < records.len()
        invariant
            i <= records.len(),
            records.len() == orig.len(),
            forall|j: int| 0 <= j < i ==> #[trigger] records[j]@ == with_output_path(orig[j]),
            forall|j: int| i <= j < records.len() ==> #[trigger] records[j]@ == orig[j],
        decreases records.len() - i,
    {
        assert(records[i as int]@ == orig[i as int]);
        if records[i].output_path.is_none() {
            let path = match &records[i].url {
                Some(u) => Some(output_path_for(u.url.as_str())),
                None => None,
            };
            match path {
                Some(p) => {
                    records[i].output_path = Some(p);
                },
                None => {},
            }
        }
        i = i + 1;
    }
    assert(views(records@) =~= orig.map_values(|r: RecordView| with_output_path(r)));
    records
}

/// Where the output at `relative` lies below `output_dir`: slashes at the
/// start of `relative` do not count.
pub open spec fn absolute_path_of(output_dir: Seq<char>, relative: Seq<char>) -> Seq<char> {
    join(output_dir, trim_start_slashes(relative))
}

/// The record with the place of its output below the output directory,
/// where it has an output path.
pub open spec fn with_absolute_path(config: ConfigView, r: RecordView) -> RecordView {
    match r.output_path {
        Some(p) => RecordView {
            absolute_output_path: Some(absolute_path_of(config.output_dir, p)),
            ..r
        },
        None => r,
    }
}

/// Gives each record with an output path the place of its output below the
/// output directory.
pub fn path_absoluter(config: &Config, records: Vec<Record>) -> (out: Vec<Record>)
    ensures
        views(out@) == views(records@).map_values(|r: RecordView| with_absolute_path(config@, r)),
{
    let ghost orig = views(records@);
    let mut records = records;
    let mut i: usize = 0;
    while i < records.len()
        invariant
            i <= records.len(),
            records.len() == orig.len(),
            forall|j: int| 0 <= j < i ==> #[trigger] records[j]@ == with_absolute_path(config@, orig[j]),
            forall|j: int| i <= j < records.len() ==> #[trigger] records[j]@ == orig[j],
        decreases records.len() - i,
    {
        assert(records[i as int]@ == orig[i as int]);
        let path = match &records[i].output_path {
            Some(p) => {
                let relative = trim_start_slashes_exec(p.as_str());
                Some(join_exec(config.output_dir.as_str(), relative.as_str()))
            },
            None => None,
        };
        match path {
            Some(p) => {
                records[i].absolute_output_path = Some(p);
            },
            None => {},
        }
        i = i + 1;
    }
    assert(views(records@) =~= orig.map_values(|r: RecordView| with_absolute_path(config@, r)));
    records
}

/// The directory that must exist before the record is written.
pub open spec fn folder_of(r: RecordView) -> Option<Seq<char>> {
    match r.absolute_output_path {
        Some(p) => parent(p),
        None => None,
    }
}

/// The directories that must exist before `records` are written, each once.
pub open spec fn folders_of(records: Seq<RecordView>) -> Seq<Seq<char>> {
    distinct(records.filter_map(|r: RecordView| folder_of(r)))
}

/// The directories to create before `records` are written: the directory
/// of each output, each once, in the order of the records.
pub fn output_folder_creator(records: &Vec<Record>) -> (out: Vec<String>)
    ensures
        views(out@) == folders_of(views(records@)),
{
    let ghost all = views(records@);
    let ghost pick = |r: RecordView| folder_of(r);
    let mut out: Vec<String> = Vec::new();
    let mut i: usize = 0;
    proof {
        assert(all.take(0) =~= Seq::empty());
        assert(all.take(0).filter_map(pick) =~= Seq::empty());
        assert(views(out@) =~= distinct(all.take(0).filter_map(pick)));
    }
    while i < records.len()
        invariant
            i <= records.len(),
            all == views(records@),
            pick == |r: RecordView| folder_of(r),
            views(out@) == distinct(all.take(i as int).filter_map(pick)),
        decreases records.len() - i,
    {
        proof {
            all.lemma_filter_map_take_succ(pick, i as int);
            assert(all[i as int] == records[i as int]@);
        }
        let ghost before = views(out@);
        let ghost seen = all.take(i as int).filter_map(pick);
        let folder = match &records[i].absolute_output_path {
            Some(p) => parent_exec(p.as_str()),
            None => None,
        };
        match folder {
            Some(f) => {
                proof {
                    assert((seen + seq![f@]).drop_last() =~= seen);
                    assert((seen + seq![f@]).last() == f@);
                }
                if !holds_text(&out, &f) {
                    out.push(f);
                    assert(views(out@) =~= before.push(f@));
                }
            },
            None => {
                assert(seen + Seq::<Seq<char>>::empty() =~= seen);
            },
        }
        i = i + 1;
    }
    assert(all.take(records.len() as int) =~= all);
    out
}

} // verus!
