//! Grouping of chunk descriptors into tracks.
//!
//! Chunks that carry the same track name form one track. Grouping is stable:
//! a track holds its chunks in index order, and the tracks stand in the order
//! in which their first chunk appears.

use vstd::prelude::*;
use itertools::Itertools;
use crate::sbf::SBFIndexEntry;
use crate::text::str_eq;

verus! {

/// A track: its name and its chunks.
#[derive(Debug)]
pub struct TrackGroup {
    pub ident: String,
    pub chunks: Vec<SBFIndexEntry>,
}

impl Clone for TrackGroup {
    fn clone(&self) -> (r: Self)
        ensures
            r.ident == self.ident,
            r.chunks@ == self.chunks@,
    {
        let chunks = self.chunks.clone();
        assert(chunks@ =~= self.chunks@);
        TrackGroup { ident: self.ident.clone(), chunks }
    }
}

/// The chunks that carry the track name `ident`, in their order in `chunks`.
pub open spec fn chunks_of(chunks: Seq<SBFIndexEntry>, ident: Seq<char>) -> Seq<SBFIndexEntry>
    decreases chunks.len(),
{
    if chunks.len() == 0 {
        Seq::empty()
    } else {
        let before = chunks_of(chunks.drop_last(), ident);
        if chunks.last().ident@ == ident {
            before.push(chunks.last())
        } else {
            before
        }
    }
}

/// The track names that occur in `chunks`, each once, in order of first
/// occurrence.
pub open spec fn distinct_idents(chunks: Seq<SBFIndexEntry>) -> Seq<Seq<char>>
    decreases chunks.len(),
{
    if chunks.len() == 0 {
        Seq::empty()
    } else {
        let before = distinct_idents(chunks.drop_last());
        if before.contains(chunks.last().ident@) {
            before
        } else {
            before.push(chunks.last().ident@)
        }
    }
}

/// Whether `groups` is the grouping of `chunks` by track name: one group for
/// each name, in order of first occurrence, none twice, each with exactly the
/// chunks of its name in index order.
pub open spec fn is_grouping_of(groups: Seq<TrackGroup>, chunks: Seq<SBFIndexEntry>) -> bool {
    &&& groups.len() == distinct_idents(chunks).len()
    &&& forall|i: int|
        0 <= i < groups.len() ==> (#[trigger] groups[i]).ident@ == distinct_idents(chunks)[i]
    &&& forall|i: int|
        0 <= i < groups.len() ==> (#[trigger] groups[i]).chunks@ == chunks_of(
            chunks,
            groups[i].ident@,
        )
    &&& forall|i: int, j: int|
        0 <= i < j < groups.len() ==> (#[trigger] groups[i]).ident@ != (#[trigger] groups[j]).ident@
}

/// One run of neighbouring chunks: all carry the key as track name, and there
/// is at least one.
pub open spec fn is_run(run: (String, Vec<SBFIndexEntry>)) -> bool {
    &&& run.1@.len() > 0
    &&& forall|j: int| 0 <= j < run.1@.len() ==> (#[trigger] run.1@[j]).ident@ == run.0@
}

/// The chunks of all runs, one run after the other.
pub open spec fn concat_runs(runs: Seq<(String, Vec<SBFIndexEntry>)>) -> Seq<SBFIndexEntry>
    decreases runs.len(),
{
    if runs.len() == 0 {
        Seq::empty()
    } else {
        concat_runs(runs.drop_last()) + runs.last().1@
    }
}

/// A name that no group carries has no chunk.
proof fn lemma_absent_ident(chunks: Seq<SBFIndexEntry>, ident: Seq<char>)
    requires
        !distinct_idents(chunks).contains(ident),
    ensures
        chunks_of(chunks, ident) == Seq::<SBFIndexEntry>::empty(),
    decreases chunks.len(),
{
    if chunks.len() > 0 {
        let before = distinct_idents(chunks.drop_last());
        if before.contains(chunks.last().ident@) {
            lemma_absent_ident(chunks.drop_last(), ident);
        } else {
            let now = before.push(chunks.last().ident@);
            assert(now.last() == chunks.last().ident@);
            assert(now.contains(chunks.last().ident@));
            if before.contains(ident) {
                let w = choose|i: int| 0 <= i < before.len() && before[i] == ident;
                assert(now[w] == ident);
            }
            lemma_absent_ident(chunks.drop_last(), ident);
        }
    }
}

/// The track name of every chunk is among the names.
pub proof fn lemma_every_chunk_has_a_track(chunks: Seq<SBFIndexEntry>, k: int)
    requires
        0 <= k < chunks.len(),
    ensures
        distinct_idents(chunks).contains(chunks[k].ident@),
    decreases chunks.len(),
{
    let before = distinct_idents(chunks.drop_last());
    let names = distinct_idents(chunks);
    if k == chunks.len() - 1 {
        if !before.contains(chunks.last().ident@) {
            assert(names.last() == chunks.last().ident@);
        }
    } else {
        lemma_every_chunk_has_a_track(chunks.drop_last(), k);
        assert(chunks.drop_last()[k] == chunks[k]);
        let w = choose|i: int| 0 <= i < before.len() && before[i] == chunks[k].ident@;
        assert(names[w] == chunks[k].ident@);
    }
}

/// No name stands twice among the names.
pub proof fn lemma_names_are_distinct(chunks: Seq<SBFIndexEntry>, i: int, j: int)
    requires
        0 <= i < j < distinct_idents(chunks).len(),
    ensures
        distinct_idents(chunks)[i] != distinct_idents(chunks)[j],
    decreases chunks.len(),
{
    if chunks.len() > 0 {
        let before = distinct_idents(chunks.drop_last());
        if j < before.len() {
            lemma_names_are_distinct(chunks.drop_last(), i, j);
        } else {
            assert(!before.contains(chunks.last().ident@));
            assert(before[i] != chunks.last().ident@);
        }
    }
}

/// Every track name that occurs has at least one chunk.
pub proof fn lemma_group_nonempty(chunks: Seq<SBFIndexEntry>, i: int)
    requires
        0 <= i < distinct_idents(chunks).len(),
    ensures
        chunks_of(chunks, distinct_idents(chunks)[i]).len() > 0,
    decreases chunks.len(),
{
    if chunks.len() > 0 {
        let before = distinct_idents(chunks.drop_last());
        if i < before.len() {
            lemma_group_nonempty(chunks.drop_last(), i);
        }
    }
}

/// Every chunk of a track carries the name of the track.
pub proof fn lemma_chunks_of_named(chunks: Seq<SBFIndexEntry>, ident: Seq<char>, i: int)
    requires
        0 <= i < chunks_of(chunks, ident).len(),
    ensures
        chunks_of(chunks, ident)[i].ident@ == ident,
    decreases chunks.len(),
{
    if chunks.len() > 0 {
        let before = chunks_of(chunks.drop_last(), ident);
        if i < before.len() {
            lemma_chunks_of_named(chunks.drop_last(), ident, i);
        }
    }
}

/// `Itertools::group_by` on the chunks, keyed by track name: it cuts the
/// sequence into its maximal runs of neighbouring chunks with equal names and
/// hands out each run with its name. Joined again the runs give the input, and
/// two runs that follow each other differ in name.
#[verifier::external_body]
fn ident_runs(chunks: &Vec<SBFIndexEntry>) -> (runs: Vec<(String, Vec<SBFIndexEntry>)>)
    ensures
        concat_runs(runs@) == chunks@,
        forall|i: int| 0 <= i < runs@.len() ==> is_run(#[trigger] runs@[i]),
        forall|i: int| 0 < i < runs@.len() ==> runs@[i - 1].0@ != (#[trigger] runs@[i]).0@,
{
    let grouped = chunks.iter().cloned().group_by(|e| e.ident.clone());
    grouped.into_iter().map(|(key, run)| (key, run.collect())).collect()
}

/// The position of the group named `ident`, if there is one.
pub fn find_group(groups: &Vec<TrackGroup>, ident: &str) -> (r: Option<usize>)
    ensures
        match r {
            Some(i) => i < groups@.len() && groups@[i as int].ident@ == ident@ && forall|j: int|
                0 <= j < i ==> (#[trigger] groups@[j]).ident@ != ident@,
            None => forall|j: int| 0 <= j < groups@.len() ==> (#[trigger] groups@[j]).ident@ != ident@,
        },
{
    let mut i: usize = 0;
    while i < groups.len()
        invariant
            i <= groups@.len(),
            forall|j: int| 0 <= j < i ==> (#[trigger] groups@[j]).ident@ != ident@,
        decreases groups@.len() - i,
    {
        if str_eq(groups[i].ident.as_str(), ident) {
            return Some(i);
        }
        i = i + 1;
    }
    None
}

/// Groups chunk descriptors by track name.
pub fn group_chunks(chunks: &Vec<SBFIndexEntry>) -> (groups: Vec<TrackGroup>)
    ensures
        is_grouping_of(groups@, chunks@),
{
    let runs = ident_runs(chunks);
    let mut groups: Vec<TrackGroup> = Vec::new();
    let ghost mut done: Seq<SBFIndexEntry> = Seq::empty();
    let mut r: usize = 0;
    while r < runs.len()
        invariant
            r <= runs@.len(),
            done == concat_runs(runs@.take(r as int)),
            is_grouping_of(groups@, done),
            forall|i: int| 0 <= i < runs@.len() ==> is_run(#[trigger] runs@[i]),
        decreases runs@.len() - r,
    {
        let key = &runs[r].0;
        let items = &runs[r].1;
        let mut at = find_group(&groups, key.as_str());
        let ghost before = done;
        let mut j: usize = 0;
        assert(is_run(runs@[r as int]));
        while j < items.len()
            invariant
                j <= items@.len(),
                is_run((*key, *items)),
                done == before + items@.take(j as int),
                is_grouping_of(groups@, done),
                match at {
                    Some(i) => i < groups@.len() && groups@[i as int].ident@ == key@,
                    None => forall|k: int|
                        0 <= k < groups@.len() ==> (#[trigger] groups@[k]).ident@ != key@,
                },
            decreases items@.len() - j,
        {
            let e = items[j].clone();
            let ghost grown = done.push(e);
            proof {
                assert(grown.drop_last() =~= done);
                assert(grown.last() == e);
                assert(e.ident@ == key@);
                assert(before + items@.take(j + 1) =~= grown);
                let names = distinct_idents(done);
                match at {
                    Some(i) => {
                        assert(names[i as int] == key@);
                        assert(names.contains(key@));
                    },
                    None => {
                        if names.contains(key@) {
                            let w = choose|k: int| 0 <= k < names.len() && names[k] == key@;
                            assert(groups@[w].ident@ == key@);
                        }
                        lemma_absent_ident(done, key@);
                    },
                }
            }
            match at {
                Some(i) => {
                    groups[i].chunks.push(e);
                },
                None => {
                    let mut first: Vec<SBFIndexEntry> = Vec::new();
                    first.push(e);
                    groups.push(TrackGroup { ident: key.clone(), chunks: first });
                    at = Some(groups.len() - 1);
                },
            }
            proof {
                done = grown;
            }
            j = j + 1;
        }
        proof {
            assert(items@.take(j as int) =~= items@);
            assert(runs@.take(r + 1).drop_last() =~= runs@.take(r as int));
            assert(runs@.take(r + 1).last() == runs@[r as int]);
        }
        r = r + 1;
    }
    proof {
        assert(runs@.take(r as int) =~= runs@);
    }
    groups
}

} // verus!
