//! The persisted chunk order: for each track name a list of chunk suffixes
//! in the order in which the chunks are to play. It is kept as a JSON object
//! of string arrays.

use vstd::prelude::*;
use std::collections::BTreeMap;
use crate::error::ConfigError;
use crate::text::str_eq;

verus! {

/// The chosen chunk order of one track.
#[derive(Debug)]
pub struct TrackOrder {
    pub ident: String,
    pub suffixes: Vec<String>,
}

/// The chosen chunk orders, at most one for each track name.
#[derive(Debug)]
pub struct PlayerConfig {
    pub tracks: Vec<TrackOrder>,
}

/// The texts of a list of strings.
pub open spec fn texts(list: Seq<String>) -> Seq<Seq<char>> {
    Seq::new(list.len(), |i: int| list[i]@)
}

/// The texts of a list of pairs of a track name and its suffixes.
pub open spec fn entry_texts(entries: Seq<(String, Vec<String>)>) -> Seq<
    (Seq<char>, Seq<Seq<char>>),
> {
    Seq::new(entries.len(), |i: int| (entries[i].0@, texts(entries[i].1@)))
}

/// The mapping that a list of pairs stands for. Where a name occurs more than
/// once, the last pair counts.
pub open spec fn map_of_entries(entries: Seq<(Seq<char>, Seq<Seq<char>>)>) -> Map<
    Seq<char>,
    Seq<Seq<char>>,
>
    decreases entries.len(),
{
    if entries.len() == 0 {
        Map::empty()
    } else {
        map_of_entries(entries.drop_last()).insert(entries.last().0, entries.last().1)
    }
}

/// The pairs that a JSON document stands for when it is an object whose
/// values are arrays of strings, in ascending order of the names; nothing for
/// any other text.
pub uninterp spec fn json_track_orders(text: Seq<char>) -> Option<Seq<(Seq<char>, Seq<Seq<char>>)>>;

/// The indented JSON document for an object with the given pairs as members,
/// or nothing where the serialiser fails.
pub uninterp spec fn json_document(entries: Seq<(Seq<char>, Seq<Seq<char>>)>) -> Option<Seq<char>>;

/// The JSON array, on one line, of a list of strings, or nothing where the
/// serialiser fails.
pub uninterp spec fn json_array(items: Seq<Seq<char>>) -> Option<Seq<char>>;

/// `serde_json::Error`: why a document could not be read or written. It is
/// carried through unread.
#[verifier::external_type_specification]
#[verifier::external_body]
pub struct ExJsonError(serde_json::Error);

/// `serde_json::from_str` for a map from strings to lists of strings. The
/// outcome depends on the text alone. The members come out in ascending order
/// of their names.
#[verifier::external_body]
fn parse_track_orders(text: &str) -> (r: Result<Vec<(String, Vec<String>)>, serde_json::Error>)
    ensures
        match r {
            Ok(entries) => json_track_orders(text@) == Some(entry_texts(entries@)),
            Err(_) => json_track_orders(text@) is None,
        },
{
    let parsed: Result<BTreeMap<String, Vec<String>>, serde_json::Error> = serde_json::from_str(text);
    parsed.map(|orders| orders.into_iter().collect())
}

/// `serde_json::to_string_pretty` for a map with the given pairs as members.
/// The outcome depends on the pairs alone.
#[verifier::external_body]
fn write_track_orders(entries: &Vec<(String, Vec<String>)>) -> (r: Result<String, serde_json::Error>)
    ensures
        match r {
            Ok(text) => json_document(entry_texts(entries@)) == Some(text@),
            Err(_) => json_document(entry_texts(entries@)) is None,
        },
{
    let orders: BTreeMap<&String, &Vec<String>> = entries.iter().map(|e| (&e.0, &e.1)).collect();
    serde_json::to_string_pretty(&orders)
}

/// `serde_json::to_string` for a list of strings. The outcome depends on
/// the strings alone.
#[verifier::external_body]
pub(crate) fn write_string_list(items: &Vec<String>) -> (r: Result<String, serde_json::Error>)
    ensures
        match r {
            Ok(text) => json_array(texts(items@)) == Some(text@),
            Err(_) => json_array(texts(items@)) is None,
        },
{
    serde_json::to_string(items)
}

/// A name is a key of the mapping exactly if some pair carries it.
pub proof fn lemma_map_keys(entries: Seq<(Seq<char>, Seq<Seq<char>>)>, name: Seq<char>)
    ensures
        map_of_entries(entries).dom().contains(name) <==> exists|i: int|
            0 <= i < entries.len() && (#[trigger] entries[i]).0 == name,
    decreases entries.len(),
{
    if entries.len() > 0 {
        lemma_map_keys(entries.drop_last(), name);
        if exists|i: int| 0 <= i < entries.len() && (#[trigger] entries[i]).0 == name {
            let w = choose|i: int| 0 <= i < entries.len() && (#[trigger] entries[i]).0 == name;
            if w < entries.len() - 1 {
                assert(entries.drop_last()[w].0 == name);
            }
        }
        if map_of_entries(entries.drop_last()).dom().contains(name) {
            let w = choose|i: int|
                0 <= i < entries.drop_last().len() && (#[trigger] entries.drop_last()[i]).0 == name;
            assert(entries[w].0 == name);
        }
        if entries.last().0 == name {
            assert(entries[entries.len() - 1].0 == name);
        }
    }
}

/// Whether no two pairs carry the same name.
pub open spec fn distinct_names(entries: Seq<(Seq<char>, Seq<Seq<char>>)>) -> bool {
    forall|i: int, j: int|
        0 <= i < j < entries.len() ==> (#[trigger] entries[i]).0 != (#[trigger] entries[j]).0
}

/// Among pairs with distinct names, each name maps to the list of its pair.
pub proof fn lemma_map_value(entries: Seq<(Seq<char>, Seq<Seq<char>>)>, i: int)
    requires
        distinct_names(entries),
        0 <= i < entries.len(),
    ensures
        map_of_entries(entries).dom().contains(entries[i].0),
        map_of_entries(entries)[entries[i].0] == entries[i].1,
    decreases entries.len(),
{
    if i < entries.len() - 1 {
        assert(entries.drop_last()[i] == entries[i]);
        assert(entries.last() == entries[entries.len() - 1]);
        lemma_map_value(entries.drop_last(), i);
    }
}

/// Among pairs with distinct names, a new list in the place of an old one
/// changes the mapping at that name only.
pub proof fn lemma_map_update(
    entries: Seq<(Seq<char>, Seq<Seq<char>>)>,
    i: int,
    list: Seq<Seq<char>>,
)
    requires
        distinct_names(entries),
        0 <= i < entries.len(),
    ensures
        map_of_entries(entries.update(i, (entries[i].0, list))) == map_of_entries(entries).insert(
            entries[i].0,
            list,
        ),
    decreases entries.len(),
{
    let name = entries[i].0;
    let updated = entries.update(i, (name, list));
    if i == entries.len() - 1 {
        assert(updated.drop_last() =~= entries.drop_last());
        assert(map_of_entries(updated) =~= map_of_entries(entries).insert(name, list));
    } else {
        assert(updated.drop_last() =~= entries.drop_last().update(i, (name, list)));
        assert(updated.last() == entries.last());
        assert(entries.drop_last()[i] == entries[i]);
        assert(entries.last() == entries[entries.len() - 1]);
        lemma_map_update(entries.drop_last(), i, list);
        assert(map_of_entries(updated) =~= map_of_entries(entries).insert(name, list));
    }
}

impl View for PlayerConfig {
    type V = Map<Seq<char>, Seq<Seq<char>>>;

    /// The mapping from track names to suffix lists.
    open spec fn view(&self) -> Map<Seq<char>, Seq<Seq<char>>> {
        map_of_entries(self.entries())
    }
}

impl PlayerConfig {
    /// The pairs of track name and suffix list, as texts.
    pub open spec fn entries(&self) -> Seq<(Seq<char>, Seq<Seq<char>>)> {
        Seq::new(
            self.tracks@.len(),
            |i: int| (self.tracks@[i].ident@, texts(self.tracks@[i].suffixes@)),
        )
    }

    /// Whether no track name occurs twice.
    pub open spec fn wf(&self) -> bool {
        distinct_names(self.entries())
    }

    /// A configuration without any track: every track plays in index order.
    pub fn new() -> (r: PlayerConfig)
        ensures
            r.wf(),
            r@ == Map::<Seq<char>, Seq<Seq<char>>>::empty(),
    {
        let r = PlayerConfig { tracks: Vec::new() };
        assert(r.entries() =~= Seq::empty());
        r
    }

    /// The position of the order for the track `name`, if there is one.
    fn position(&self, name: &str) -> (r: Option<usize>)
        ensures
            match r {
                Some(i) => i < self.tracks@.len() && self.tracks@[i as int].ident@ == name@,
                None => !self@.dom().contains(name@),
            },
            r is Some ==> self@.dom().contains(name@),
    {
        let mut i: usize = 0;
        while i < self.tracks.len()
            invariant
                i <= self.tracks@.len(),
                forall|j: int| 0 <= j < i ==> (#[trigger] self.tracks@[j]).ident@ != name@,
            decreases self.tracks@.len() - i,
        {
            if str_eq(self.tracks[i].ident.as_str(), name) {
                proof {
                    lemma_map_keys(self.entries(), name@);
                    assert(self.entries()[i as int].0 == name@);
                }
                return Some(i);
            }
            i = i + 1;
        }
        proof {
            lemma_map_keys(self.entries(), name@);
            if self@.dom().contains(name@) {
                let w = choose|k: int|
                    0 <= k < self.entries().len() && (#[trigger] self.entries()[k]).0 == name@;
                assert(self.tracks@[w].ident@ == name@);
            }
        }
        None
    }

    /// Whether an order is configured for the track `name`.
    pub fn contains_key(&self, name: &str) -> (r: bool)
        ensures
            r == self@.dom().contains(name@),
    {
        self.position(name).is_some()
    }

    /// The configured order of the track `name`, if there is one.
    pub fn get(&self, name: &str) -> (r: Option<&Vec<String>>)
        requires
            self.wf(),
        ensures
            match r {
                Some(list) => self@.dom().contains(name@) && texts(list@) == self@[name@],
                None => !self@.dom().contains(name@),
            },
    {
        match self.position(name) {
            Some(i) => {
                proof {
                    lemma_map_value(self.entries(), i as int);
                }
                Some(&self.tracks[i].suffixes)
            },
            None => None,
        }
    }

    /// Sets the order of the track `name`, in the place of an earlier one if
    /// there was one.
    pub fn insert(&mut self, name: String, suffixes: Vec<String>)
        requires
            old(self).wf(),
        ensures
            final(self).wf(),
            final(self)@ == old(self)@.insert(name@, texts(suffixes@)),
    {
        let ghost before = self.entries();
        match self.position(name.as_str()) {
            Some(i) => {
                proof {
                    lemma_map_update(before, i as int, texts(suffixes@));
                }
                self.tracks.set(i, TrackOrder { ident: name, suffixes });
                assert(self.entries() =~= before.update(i as int, (name@, texts(suffixes@))));
                assert forall|a: int, b: int| 0 <= a < b < self.entries().len() implies (
                #[trigger] self.entries()[a]).0 != (#[trigger] self.entries()[b]).0 by {
                    assert(self.entries()[a].0 == before[a].0);
                    assert(self.entries()[b].0 == before[b].0);
                }
            },
            None => {
                proof {
                    lemma_map_keys(before, name@);
                }
                self.tracks.push(TrackOrder { ident: name, suffixes });
                assert(self.entries().drop_last() =~= before);
                assert(self.entries().last() == (name@, texts(suffixes@)));
                assert forall|a: int, b: int| 0 <= a < b < self.entries().len() implies (
                #[trigger] self.entries()[a]).0 != (#[trigger] self.entries()[b]).0 by {
                    assert(self.entries()[a] == before[a]);
                    if b < before.len() {
                        assert(self.entries()[b] == before[b]);
                    }
                }
            },
        }
    }

    /// The configuration that a list of pairs stands for. Where a name occurs
    /// more than once, the last pair counts.
    pub fn from_entries(entries: &Vec<(String, Vec<String>)>) -> (r: PlayerConfig)
        ensures
            r.wf(),
            r@ == map_of_entries(entry_texts(entries@)),
    {
        let mut config = PlayerConfig::new();
        let ghost all = entry_texts(entries@);
        let mut i: usize = 0;
        assert(all.take(0) =~= Seq::empty());
        while i < entries.len()
            invariant
                i <= entries@.len(),
                all == entry_texts(entries@),
                config.wf(),
                config@ == map_of_entries(all.take(i as int)),
            decreases entries@.len() - i,
        {
            let name = entries[i].0.clone();
            let suffixes = clone_strings(&entries[i].1);
            proof {
                assert(all.take(i + 1).drop_last() =~= all.take(i as int));
                assert(all.take(i + 1).last() == (name@, texts(suffixes@)));
            }
            config.insert(name, suffixes);
            i = i + 1;
        }
        assert(all.take(i as int) =~= all);
        config
    }

    /// The pairs of track name and suffix list, in the order in which the
    /// tracks were first configured.
    pub fn to_entries(&self) -> (r: Vec<(String, Vec<String>)>)
        ensures
            entry_texts(r@) == self.entries(),
    {
        let mut out: Vec<(String, Vec<String>)> = Vec::new();
        let mut i: usize = 0;
        while i < self.tracks.len()
            invariant
                i <= self.tracks@.len(),
                out@.len() == i,
                forall|k: int|
                    0 <= k < i ==> (#[trigger] out@[k]).0@ == self.tracks@[k].ident@ && texts(
                        out@[k].1@,
                    ) == texts(self.tracks@[k].suffixes@),
            decreases self.tracks@.len() - i,
        {
            let suffixes = clone_strings(&self.tracks[i].suffixes);
            out.push((self.tracks[i].ident.clone(), suffixes));
            i = i + 1;
        }
        assert(entry_texts(out@) =~= self.entries());
        out
    }

    /// Reads a configuration from its JSON document.
    pub fn from_json(text: &str) -> (r: Result<PlayerConfig, ConfigError>)
        ensures
            match json_track_orders(text@) {
                Some(entries) => r is Ok && r.unwrap().wf() && r.unwrap()@ == map_of_entries(entries),
                None => r == Err::<PlayerConfig, ConfigError>(ConfigError::Malformed),
            },
    {
        match parse_track_orders(text) {
            Ok(entries) => Ok(PlayerConfig::from_entries(&entries)),
            Err(_) => Err(ConfigError::Malformed),
        }
    }

    /// The configuration to start with: the one that the persisted document
    /// holds, or the empty one where there is no document or it is malformed.
    pub fn load(text: Option<&str>) -> (r: PlayerConfig)
        ensures
            r.wf(),
            r@ == match text {
                Some(t) => match json_track_orders(t@) {
                    Some(entries) => map_of_entries(entries),
                    None => Map::empty(),
                },
                None => Map::empty(),
            },
    {
        match text {
            Some(t) => match PlayerConfig::from_json(t) {
                Ok(config) => config,
                Err(_) => PlayerConfig::new(),
            },
            None => PlayerConfig::new(),
        }
    }

    /// The JSON document of this configuration, or nothing where the
    /// serialiser fails.
    pub fn to_json(&self) -> (r: Option<String>)
        ensures
            match r {
                Some(text) => json_document(self.entries()) == Some(text@),
                None => json_document(self.entries()) is None,
            },
    {
        let entries = self.to_entries();
        match write_track_orders(&entries) {
            Ok(text) => Some(text),
            Err(_) => None,
        }
    }
}

/// A copy of a list of strings.
pub fn clone_strings(list: &Vec<String>) -> (r: Vec<String>)
    ensures
        r@ == list@,
{
    let mut out: Vec<String> = Vec::new();
    let mut i: usize = 0;
    while i < list.len()
        invariant
            i <= list@.len(),
            out@ == list@.take(i as int),
        decreases list@.len() - i,
    {
        out.push(list[i].clone());
        assert(list@.take(i + 1) =~= list@.take(i as int).push(list@[i as int]));
        i = i + 1;
    }
    assert(list@.take(list@.len() as int) =~= list@);
    out
}

} // verus!
