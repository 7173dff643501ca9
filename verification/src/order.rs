//! Putting the chunks of a track into a configured order.
//!
//! An order is a list of chunk suffixes. A chunk ranks by the first place at
//! which its suffix stands in the list.

use vstd::prelude::*;
use vstd::seq_lib::lemma_multiset_commutative;
use crate::config::texts;
use crate::error::ConfigError;
use crate::group::chunks_of;
use crate::sbf::{SBFIndexEntry, SBF};
use crate::text::str_eq;

verus! {

/// The first place from `from` on at which `suffix` stands in `order`, or the
/// length of `order` if there is none.
pub open spec fn rank_from(order: Seq<Seq<char>>, suffix: Seq<char>, from: int) -> int
    decreases order.len() - from,
{
    if from < 0 || from >= order.len() || order[from] == suffix {
        from
    } else {
        rank_from(order, suffix, from + 1)
    }
}

/// The first place at which `suffix` stands in `order`, or the length of
/// `order` if it stands nowhere.
pub open spec fn rank(order: Seq<Seq<char>>, suffix: Seq<char>) -> int {
    rank_from(order, suffix, 0)
}

/// The chunks of `track` that rank `p`, in their order in `track`.
pub open spec fn ranked(track: Seq<SBFIndexEntry>, order: Seq<Seq<char>>, p: int) -> Seq<
    SBFIndexEntry,
>
    decreases track.len(),
{
    if track.len() == 0 {
        Seq::empty()
    } else {
        let before = ranked(track.drop_last(), order, p);
        if rank(order, track.last().suffix@) == p {
            before.push(track.last())
        } else {
            before
        }
    }
}

/// The chunks of `track` that rank below `upto`, by rank, and among equals in
/// their order in `track`.
pub open spec fn ordered(track: Seq<SBFIndexEntry>, order: Seq<Seq<char>>, upto: int) -> Seq<
    SBFIndexEntry,
>
    decreases upto,
{
    if upto <= 0 {
        Seq::empty()
    } else {
        ordered(track, order, upto - 1) + ranked(track, order, upto - 1)
    }
}

/// Whether `order` lists the suffix of every chunk of `track`.
pub open spec fn all_listed(track: Seq<SBFIndexEntry>, order: Seq<Seq<char>>) -> bool {
    forall|i: int| 0 <= i < track.len() ==> rank(order, (#[trigger] track[i]).suffix@) < order.len()
}

/// The suffixes of the chunks of `track`.
pub open spec fn suffixes_of(track: Seq<SBFIndexEntry>) -> Seq<Seq<char>> {
    Seq::new(track.len(), |i: int| track[i].suffix@)
}

/// A rank is a place of the order, or its length.
proof fn lemma_rank_bounds(order: Seq<Seq<char>>, suffix: Seq<char>, from: int)
    requires
        0 <= from <= order.len(),
    ensures
        from <= rank_from(order, suffix, from) <= order.len(),
    decreases order.len() - from,
{
    if from < order.len() && order[from] != suffix {
        lemma_rank_bounds(order, suffix, from + 1);
    }
}

/// Finds the rank of a suffix.
pub fn rank_of(order: &Vec<String>, suffix: &str) -> (r: usize)
    ensures
        r as int == rank(texts(order@), suffix@),
        r <= order@.len(),
{
    let mut i: usize = 0;
    while i < order.len() && !str_eq(order[i].as_str(), suffix)
        invariant
            i <= order@.len(),
            rank_from(texts(order@), suffix@, i as int) == rank(texts(order@), suffix@),
        decreases order@.len() - i,
    {
        i = i + 1;
    }
    i
}

/// The suffixes of the chunks of a track, in the order of the track.
pub fn track_suffixes(track: &Vec<SBFIndexEntry>) -> (r: Vec<String>)
    ensures
        texts(r@) == suffixes_of(track@),
{
    let mut out: Vec<String> = Vec::new();
    let mut i: usize = 0;
    while i < track.len()
        invariant
            i <= track@.len(),
            out@.len() == i,
            forall|k: int| 0 <= k < i ==> (#[trigger] out@[k])@ == track@[k].suffix@,
        decreases track@.len() - i,
    {
        out.push(track[i].suffix.clone());
        i = i + 1;
    }
    assert(texts(out@) =~= suffixes_of(track@));
    out
}

/// Puts the chunks of `track` into the order that `order` lists: by the rank
/// of their suffixes, chunks of equal rank staying as they stood. A chunk whose
/// suffix the order does not list makes the order unusable.
pub fn order_by_config(track: &Vec<SBFIndexEntry>, order: &Vec<String>) -> (r: Result<
    Vec<SBFIndexEntry>,
    ConfigError,
>)
    ensures
        match r {
            Ok(sorted) => all_listed(track@, texts(order@)) && sorted@ == ordered(
                track@,
                texts(order@),
                order@.len() as int,
            ),
            Err(e) => e == ConfigError::UnlistedChunk && !all_listed(track@, texts(order@)),
        },
{
    let mut ranks: Vec<usize> = Vec::new();
    let mut i: usize = 0;
    while i < track.len()
        invariant
            i <= track@.len(),
            ranks@.len() == i,
            forall|k: int|
                0 <= k < i ==> (#[trigger] ranks@[k]) as int == rank(
                    texts(order@),
                    track@[k].suffix@,
                ) && ranks@[k] < order@.len(),
        decreases track@.len() - i,
    {
        let place = rank_of(order, track[i].suffix.as_str());
        if place == order.len() {
            return Err(ConfigError::UnlistedChunk);
        }
        ranks.push(place);
        i = i + 1;
    }
    assert forall|k: int| 0 <= k < track@.len() implies rank(
        texts(order@),
        (#[trigger] track@[k]).suffix@,
    ) < order@.len() by {
        assert(ranks@[k] < order@.len());
    }
    let mut sorted: Vec<SBFIndexEntry> = Vec::new();
    let mut p: usize = 0;
    while p < order.len()
        invariant
            p <= order@.len(),
            ranks@.len() == track@.len(),
            forall|k: int|
                0 <= k < track@.len() ==> (#[trigger] ranks@[k]) as int == rank(
                    texts(order@),
                    track@[k].suffix@,
                ),
            all_listed(track@, texts(order@)),
            sorted@ == ordered(track@, texts(order@), p as int),
        decreases order@.len() - p,
    {
        let ghost before = sorted@;
        let mut k: usize = 0;
        while k < track.len()
            invariant
                k <= track@.len(),
                ranks@.len() == track@.len(),
                forall|j: int|
                    0 <= j < track@.len() ==> (#[trigger] ranks@[j]) as int == rank(
                        texts(order@),
                        track@[j].suffix@,
                    ),
                sorted@ == before + ranked(track@.take(k as int), texts(order@), p as int),
            decreases track@.len() - k,
        {
            proof {
                assert(track@.take(k + 1).drop_last() =~= track@.take(k as int));
                assert(track@.take(k + 1).last() == track@[k as int]);
            }
            if ranks[k] == p {
                sorted.push(track[k].clone());
                assert(sorted@ =~= before + ranked(track@.take(k + 1), texts(order@), p as int));
            }
            k = k + 1;
        }
        assert(track@.take(k as int) =~= track@);
        p = p + 1;
    }
    Ok(sorted)
}

/// Every chunk among those that rank `p` ranks `p`.
pub proof fn lemma_ranked_rank(track: Seq<SBFIndexEntry>, order: Seq<Seq<char>>, p: int, i: int)
    requires
        0 <= i < ranked(track, order, p).len(),
    ensures
        rank(order, ranked(track, order, p)[i].suffix@) == p,
    decreases track.len(),
{
    if track.len() > 0 {
        let before = ranked(track.drop_last(), order, p);
        if i < before.len() {
            lemma_ranked_rank(track.drop_last(), order, p, i);
        }
    }
}

/// Every chunk of the ordered track ranks below the ranks that were taken.
pub proof fn lemma_ordered_rank_bound(
    track: Seq<SBFIndexEntry>,
    order: Seq<Seq<char>>,
    upto: int,
    i: int,
)
    requires
        0 <= i < ordered(track, order, upto).len(),
    ensures
        0 <= rank(order, ordered(track, order, upto)[i].suffix@) < upto,
    decreases upto,
{
    if upto > 0 {
        let head = ordered(track, order, upto - 1);
        if i < head.len() {
            lemma_ordered_rank_bound(track, order, upto - 1, i);
        } else {
            lemma_ranked_rank(track, order, upto - 1, i - head.len());
        }
    }
}

/// The ordered track is sorted: no chunk ranks above a chunk behind it.
pub proof fn lemma_ordered_is_sorted(
    track: Seq<SBFIndexEntry>,
    order: Seq<Seq<char>>,
    upto: int,
    i: int,
    j: int,
)
    requires
        0 <= i <= j < ordered(track, order, upto).len(),
    ensures
        rank(order, ordered(track, order, upto)[i].suffix@) <= rank(
            order,
            ordered(track, order, upto)[j].suffix@,
        ),
    decreases upto,
{
    if upto > 0 {
        let head = ordered(track, order, upto - 1);
        if j < head.len() {
            lemma_ordered_is_sorted(track, order, upto - 1, i, j);
        } else {
            lemma_ranked_rank(track, order, upto - 1, j - head.len());
            if i < head.len() {
                lemma_ordered_rank_bound(track, order, upto - 1, i);
            } else {
                lemma_ranked_rank(track, order, upto - 1, i - head.len());
            }
        }
    }
}

/// A track without chunks stays without chunks.
proof fn lemma_ordered_empty(order: Seq<Seq<char>>, upto: int)
    ensures
        ordered(Seq::<SBFIndexEntry>::empty(), order, upto) == Seq::<SBFIndexEntry>::empty(),
    decreases upto,
{
    if upto > 0 {
        lemma_ordered_empty(order, upto - 1);
        assert(ordered(Seq::<SBFIndexEntry>::empty(), order, upto) =~= Seq::<
            SBFIndexEntry,
        >::empty());
    }
}

/// One more chunk in the track is one more chunk in the result, once the
/// ranks that are taken reach its own.
proof fn lemma_ordered_adds(track: Seq<SBFIndexEntry>, order: Seq<Seq<char>>, upto: int)
    requires
        track.len() > 0,
        0 <= upto,
    ensures
        ordered(track, order, upto).to_multiset() == if rank(order, track.last().suffix@) < upto
            && 0 <= rank(order, track.last().suffix@) {
            ordered(track.drop_last(), order, upto).to_multiset().insert(track.last())
        } else {
            ordered(track.drop_last(), order, upto).to_multiset()
        },
    decreases upto,
{
    let place = rank(order, track.last().suffix@);
    let rest = track.drop_last();
    if upto > 0 {
        lemma_ordered_adds(track, order, upto - 1);
        let head = ordered(track, order, upto - 1);
        let tail = ranked(track, order, upto - 1);
        let rest_head = ordered(rest, order, upto - 1);
        let rest_tail = ranked(rest, order, upto - 1);
        lemma_multiset_commutative(head, tail);
        lemma_multiset_commutative(rest_head, rest_tail);
        rest_tail.to_multiset_ensures();
        if place == upto - 1 {
            assert(tail == rest_tail.push(track.last()));
            assert(ordered(track, order, upto).to_multiset() =~= ordered(
                rest,
                order,
                upto,
            ).to_multiset().insert(track.last()));
        } else {
            assert(tail == rest_tail);
            if place < upto - 1 && 0 <= place {
                assert(ordered(track, order, upto).to_multiset() =~= ordered(
                    rest,
                    order,
                    upto,
                ).to_multiset().insert(track.last()));
            } else {
                assert(ordered(track, order, upto).to_multiset() =~= ordered(
                    rest,
                    order,
                    upto,
                ).to_multiset());
            }
        }
    }
}

/// Ordering a track keeps its chunks: the result holds each chunk as often as
/// the track does.
pub proof fn lemma_ordered_is_permutation(track: Seq<SBFIndexEntry>, order: Seq<Seq<char>>)
    requires
        all_listed(track, order),
    ensures
        ordered(track, order, order.len() as int).to_multiset() == track.to_multiset(),
    decreases track.len(),
{
    if track.len() == 0 {
        lemma_ordered_empty(order, order.len() as int);
        assert(track =~= Seq::<SBFIndexEntry>::empty());
    } else {
        let rest = track.drop_last();
        assert forall|i: int| 0 <= i < rest.len() implies rank(order, (#[trigger] rest[i]).suffix@)
            < order.len() by {
            assert(rest[i] == track[i]);
        }
        lemma_ordered_is_permutation(rest, order);
        lemma_ordered_adds(track, order, order.len() as int);
        assert(track.last() == track[track.len() - 1]);
        lemma_rank_bounds(order, track.last().suffix@, 0);
        rest.to_multiset_ensures();
        assert(rest.push(track.last()) =~= track);
        assert(ordered(track, order, order.len() as int).to_multiset() =~= track.to_multiset());
    }
}

/// The first place from `from` on at which `chunks` holds a chunk of the
/// track `track` with the suffix `suffix`, or the length of `chunks` if there
/// is none.
pub open spec fn first_chunk_from(
    chunks: Seq<SBFIndexEntry>,
    track: Seq<char>,
    suffix: Seq<char>,
    from: int,
) -> int
    decreases chunks.len() - from,
{
    if from < 0 || from >= chunks.len() || (chunks[from].ident@ == track && chunks[from].suffix@
        == suffix) {
        from
    } else {
        first_chunk_from(chunks, track, suffix, from + 1)
    }
}

/// The first place at which `chunks` holds a chunk of the track `track` with
/// the suffix `suffix`, or the length of `chunks` if there is none.
pub open spec fn first_chunk(chunks: Seq<SBFIndexEntry>, track: Seq<char>, suffix: Seq<char>) -> int {
    first_chunk_from(chunks, track, suffix, 0)
}

/// Whether the container holds a chunk of the track for every suffix of the
/// list.
pub open spec fn all_found(chunks: Seq<SBFIndexEntry>, track: Seq<char>, suffixes: Seq<Seq<char>>) -> bool {
    forall|i: int|
        0 <= i < suffixes.len() ==> first_chunk(chunks, track, #[trigger] suffixes[i])
            < chunks.len()
}

/// The chunks that a list of suffixes picks from the track `track`: for each
/// suffix the first chunk of the index that carries it.
pub open spec fn picked_chunks(
    chunks: Seq<SBFIndexEntry>,
    track: Seq<char>,
    suffixes: Seq<Seq<char>>,
) -> Seq<SBFIndexEntry> {
    Seq::new(suffixes.len(), |i: int| chunks[first_chunk(chunks, track, suffixes[i])])
}

impl SBF {
    /// The place in the index of the first chunk of the track `track` with
    /// the suffix `suffix`, if there is one.
    pub fn find_chunk(&self, track: &str, suffix: &str) -> (r: Option<usize>)
        ensures
            match r {
                Some(i) => i < self.chunks@.len() && i as int == first_chunk(
                    self.chunks@,
                    track@,
                    suffix@,
                ),
                None => first_chunk(self.chunks@, track@, suffix@) == self.chunks@.len(),
            },
    {
        let mut i: usize = 0;
        while i < self.chunks.len()
            invariant
                i <= self.chunks@.len(),
                first_chunk_from(self.chunks@, track@, suffix@, i as int) == first_chunk(
                    self.chunks@,
                    track@,
                    suffix@,
                ),
            decreases self.chunks@.len() - i,
        {
            if str_eq(self.chunks[i].ident.as_str(), track) && str_eq(
                self.chunks[i].suffix.as_str(),
                suffix,
            ) {
                return Some(i);
            }
            i = i + 1;
        }
        None
    }

    /// The chunks of the track `track` that the list of suffixes names, one
    /// for each entry of the list and in its order: for each suffix the first
    /// chunk of the index that carries it. A suffix without a chunk makes the
    /// list unusable.
    pub fn select_chunks(&self, track: &str, suffixes: &Vec<String>) -> (r: Result<
        Vec<SBFIndexEntry>,
        ConfigError,
    >)
        ensures
            match r {
                Ok(picked) => {
                    &&& all_found(self.chunks@, track@, texts(suffixes@))
                    &&& picked@ == picked_chunks(self.chunks@, track@, texts(suffixes@))
                },
                Err(e) => e == ConfigError::UnknownSuffix && !all_found(
                    self.chunks@,
                    track@,
                    texts(suffixes@),
                ),
            },
    {
        let mut picked: Vec<SBFIndexEntry> = Vec::new();
        let mut i: usize = 0;
        while i < suffixes.len()
            invariant
                i <= suffixes@.len(),
                picked@.len() == i,
                forall|k: int|
                    0 <= k < i ==> first_chunk(self.chunks@, track@, #[trigger] texts(suffixes@)[k])
                        < self.chunks@.len(),
                forall|k: int|
                    0 <= k < i ==> (#[trigger] picked@[k]) == self.chunks@[first_chunk(
                        self.chunks@,
                        track@,
                        suffixes@[k]@,
                    )],
            decreases suffixes@.len() - i,
        {
            match self.find_chunk(track, suffixes[i].as_str()) {
                Some(at) => {
                    picked.push(self.chunks[at].clone());
                },
                None => {
                    assert(texts(suffixes@)[i as int] == suffixes@[i as int]@);
                    return Err(ConfigError::UnknownSuffix);
                },
            }
            assert(texts(suffixes@)[i as int] == suffixes@[i as int]@);
            i = i + 1;
        }
        assert(picked@ =~= picked_chunks(self.chunks@, track@, texts(suffixes@)));
        Ok(picked)
    }

    /// The chunks of the track `track`, in index order.
    pub fn track_chunks(&self, track: &str) -> (r: Vec<SBFIndexEntry>)
        ensures
            r@ == chunks_of(self.chunks@, track@),
    {
        let mut out: Vec<SBFIndexEntry> = Vec::new();
        let mut i: usize = 0;
        assert(self.chunks@.take(0) =~= Seq::<SBFIndexEntry>::empty());
        while i < self.chunks.len()
            invariant
                i <= self.chunks@.len(),
                out@ == chunks_of(self.chunks@.take(i as int), track@),
            decreases self.chunks@.len() - i,
        {
            proof {
                assert(self.chunks@.take(i + 1).drop_last() =~= self.chunks@.take(i as int));
                assert(self.chunks@.take(i + 1).last() == self.chunks@[i as int]);
            }
            if str_eq(self.chunks[i].ident.as_str(), track) {
                out.push(self.chunks[i].clone());
            }
            i = i + 1;
        }
        assert(self.chunks@.take(i as int) =~= self.chunks@);
        out
    }

    /// The chunks of the track `track` in the order that the list of suffixes
    /// names, where the container holds a chunk for every suffix of the list.
    /// A list that names a suffix without a chunk is not used: the track then
    /// comes in index order, and the second part of the result says so.
    pub fn select_chunks_or_default(&self, track: &str, suffixes: &Vec<String>) -> (r: (
        Vec<SBFIndexEntry>,
        bool,
    ))
        ensures
            r.1 == !all_found(self.chunks@, track@, texts(suffixes@)),
            r.0@ == if all_found(self.chunks@, track@, texts(suffixes@)) {
                picked_chunks(self.chunks@, track@, texts(suffixes@))
            } else {
                chunks_of(self.chunks@, track@)
            },
    {
        match self.select_chunks(track, suffixes) {
            Ok(picked) => (picked, false),
            Err(_) => (self.track_chunks(track), true),
        }
    }
}

/// The order in which the chunks stand lists every one of them.
pub proof fn lemma_own_order_lists_all(track: Seq<SBFIndexEntry>)
    ensures
        all_listed(track, suffixes_of(track)),
{
    assert forall|i: int| 0 <= i < track.len() implies rank(
        suffixes_of(track),
        (#[trigger] track[i]).suffix@,
    ) < suffixes_of(track).len() by {
        lemma_rank_reaches(suffixes_of(track), track[i].suffix@, 0, i);
    }
}

/// A suffix ranks no later than any place at which it stands.
proof fn lemma_rank_reaches(order: Seq<Seq<char>>, suffix: Seq<char>, from: int, at: int)
    requires
        0 <= from <= at < order.len(),
        order[at] == suffix,
    ensures
        rank_from(order, suffix, from) <= at,
    decreases at - from,
{
    if from < at && order[from] != suffix {
        lemma_rank_reaches(order, suffix, from + 1, at);
    }
}

} // verus!
