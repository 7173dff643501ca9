//! The decisions of the interactive chunk editor.
//!
//! The editor holds one track in its current chunk order, a selection, and
//! the timeline of the track. Moving a chunk marks the timeline as stale, and
//! playback assembles it anew before any sample is handed out. The caller
//! reads the keys, performs the actions and draws the screen.

use vstd::prelude::*;
use vstd::string::StringExecFns;
use crate::config::{json_array, texts, write_string_list, PlayerConfig};
use crate::error::{ConfigError, FormatError};
use crate::group::{chunks_of, distinct_idents, lemma_group_nonempty};
use crate::order::{
    all_listed, lemma_ordered_is_permutation, order_by_config, ordered, suffixes_of,
    track_suffixes,
};
use crate::sbf::{SBFIndexEntry, SBF};
use crate::text::{decimal, decimal_text};
use crate::timeline::{track_error, ReorderedData};

verus! {

/// The distance of one seek step, and the lead with which playback of a
/// chunk starts: two seconds, in frames.
pub const SEEK_FRAMES: u128 = 44100;

/// A key as the editor understands it.
#[derive(Clone, Copy, Debug, PartialEq, Eq, Structural)]
pub enum Key {
    /// Select the chunk above.
    Up,
    /// Select the chunk below.
    Down,
    /// Go back in the playing track.
    SeekBack,
    /// Go forward in the playing track.
    SeekForward,
    /// Move the selected chunk one place up.
    MoveUp,
    /// Move the selected chunk one place down.
    MoveDown,
    /// Play from the selected chunk.
    Play,
    /// Pause playback, or leave the editor when playback is paused.
    Back,
    /// Hand out the names of the chunks in their current order.
    Export,
    /// Any other key.
    Other,
}

/// What the caller is to do after a key.
#[derive(Debug)]
pub enum Action {
    /// Nothing beyond drawing the screen again.
    Redraw,
    /// Move the playback position to the given frame.
    Seek { to: u128 },
    /// Replace what plays by these samples and start at the given frame.
    Play { pcm: Vec<i16>, from: u128 },
    /// Pause playback.
    Pause,
    /// The chunk order has been entered into the configuration: persist it
    /// and leave the editor.
    Commit,
    /// Report the chunk names in their current order: the names, and the
    /// line that declares them, where it can be written.
    Export { names: Vec<String>, line: Option<String> },
}

/// The editor of one track.
#[derive(Debug)]
pub struct TrackEditor {
    pub track_name: String,
    pub track: Vec<SBFIndexEntry>,
    pub selected_chunk: usize,
    pub rd: ReorderedData,
    pub rd_dirty: bool,
}

/// What the editor shows: the chunk order, the selection, and whether the
/// timeline is stale.
pub struct EditorState {
    pub track: Seq<SBFIndexEntry>,
    pub selected: int,
    pub dirty: bool,
}

/// The sequence with the item at `at` moved to the place `to`.
pub open spec fn moved<T>(s: Seq<T>, at: int, to: int) -> Seq<T> {
    s.remove(at).insert(to, s[at])
}

/// The state that a key leads to, where the timeline can be assembled.
pub open spec fn next_state(s: EditorState, key: Key) -> EditorState {
    match key {
        Key::Up => if s.selected != 0 {
            EditorState { selected: s.selected - 1, ..s }
        } else {
            s
        },
        Key::Down => if s.selected != s.track.len() - 1 {
            EditorState { selected: s.selected + 1, ..s }
        } else {
            s
        },
        Key::MoveUp => if s.selected != 0 {
            EditorState {
                track: moved(s.track, s.selected, s.selected - 1),
                selected: s.selected - 1,
                dirty: true,
            }
        } else {
            s
        },
        Key::MoveDown => if s.selected != s.track.len() - 1 {
            EditorState {
                track: moved(s.track, s.selected, s.selected + 1),
                selected: s.selected + 1,
                dirty: true,
            }
        } else {
            s
        },
        Key::Play => EditorState { dirty: false, ..s },
        _ => s,
    }
}

/// The frame two seconds before `frame`, or the start.
pub open spec fn lead_in(frame: int) -> int {
    if frame >= 44100 {
        frame - 44100
    } else {
        0
    }
}

/// The frame two seconds after `frame`, or the last frame that can be
/// counted.
pub open spec fn skip_ahead(frame: int) -> int {
    if frame + 44100 <= u128::MAX {
        frame + 44100
    } else {
        u128::MAX as int
    }
}

/// The names of the chunks: track name and suffix joined.
pub open spec fn chunk_names(track: Seq<SBFIndexEntry>) -> Seq<Seq<char>> {
    Seq::new(track.len(), |i: int| track[i].ident@ + track[i].suffix@)
}

/// The line that declares the chunk names of a track as a list of string
/// literals under the name of the track, or nothing where the list cannot be
/// written.
pub open spec fn export_text(track_name: Seq<char>, names: Seq<Seq<char>>) -> Option<Seq<char>> {
    match json_array(names) {
        Some(list) => Some(
            "let "@ + track_name + ": [&str; "@ + decimal(names.len()) + "] = "@ + list + ";"@,
        ),
        None => None,
    }
}

/// The chunk order that the editor opens with: the configured order where
/// there is one that lists every chunk, and the order of the index otherwise.
pub open spec fn opening_order(
    chunks: Seq<SBFIndexEntry>,
    config: Map<Seq<char>, Seq<Seq<char>>>,
    track_name: Seq<char>,
) -> Seq<SBFIndexEntry> {
    if usable_order(chunks, config, track_name) {
        ordered(chunks, config[track_name], config[track_name].len() as int)
    } else {
        chunks
    }
}

/// Whether the configuration holds an order for the track that lists every
/// chunk of it.
pub open spec fn usable_order(
    chunks: Seq<SBFIndexEntry>,
    config: Map<Seq<char>, Seq<Seq<char>>>,
    track_name: Seq<char>,
) -> bool {
    config.dom().contains(track_name) && all_listed(chunks, config[track_name])
}

impl View for TrackEditor {
    type V = EditorState;

    /// What the editor shows.
    open spec fn view(&self) -> EditorState {
        EditorState {
            track: self.track@,
            selected: self.selected_chunk as int,
            dirty: self.rd_dirty,
        }
    }
}

impl TrackEditor {
    /// Whether the editor is sound for the container `content`: a chunk is
    /// selected, and the timeline is that of the current order unless it is
    /// marked as stale.
    pub open spec fn wf(&self, content: Seq<u8>) -> bool {
        &&& self.track@.len() > 0
        &&& self.selected_chunk < self.track@.len()
        &&& !self.rd_dirty ==> self.rd.is_timeline_of(content, self.track@)
    }

    /// Opens the editor on the track `track_name`. The chunks come in the
    /// configured order. Where the configuration has no order for the track,
    /// or one that does not list every chunk of it, the chunks come in the
    /// order of the index, and that order is entered into the configuration.
    /// The first chunk is selected, and the timeline is stale. The second
    /// part of the result says whether a configured order was set aside.
    pub fn open(sbf: &SBF, config: &mut PlayerConfig, track_name: &str) -> (r: Result<
        (TrackEditor, bool),
        ConfigError,
    >)
        requires
            sbf.wf(),
            old(config).wf(),
        ensures
            final(config).wf(),
            ({
                let chunks = chunks_of(sbf.chunks@, track_name@);
                let usable = usable_order(chunks, old(config)@, track_name@);
                match r {
                    Ok((editor, fell_back)) => {
                        &&& distinct_idents(sbf.chunks@).contains(track_name@)
                        &&& editor.wf(sbf.content@)
                        &&& editor.track_name@ == track_name@
                        &&& editor@ == EditorState {
                            track: opening_order(chunks, old(config)@, track_name@),
                            selected: 0,
                            dirty: true,
                        }
                        &&& editor.track@.to_multiset() == chunks.to_multiset()
                        &&& fell_back == (old(config)@.dom().contains(track_name@) && !usable)
                        &&& final(config)@ == if usable {
                            old(config)@
                        } else {
                            old(config)@.insert(track_name@, suffixes_of(chunks))
                        }
                    },
                    Err(e) => {
                        &&& !distinct_idents(sbf.chunks@).contains(track_name@)
                        &&& e == ConfigError::UnknownTrack
                        &&& final(config)@ == old(config)@
                    },
                }
            }),
    {
        let ghost names = distinct_idents(sbf.chunks@);
        let group = match sbf.track(track_name) {
            Some(g) => g,
            None => {
                proof {
                    if names.contains(track_name@) {
                        let w = choose|i: int| 0 <= i < names.len() && names[i] == track_name@;
                        assert(sbf.grouped_chunks@[w].ident@ == track_name@);
                    }
                }
                return Err(ConfigError::UnknownTrack);
            },
        };
        let ghost chunks = chunks_of(sbf.chunks@, track_name@);
        proof {
            let w = choose|i: int|
                0 <= i < sbf.grouped_chunks@.len() && *group == #[trigger] sbf.grouped_chunks@[i];
            assert(names[w] == track_name@);
            assert(names.contains(track_name@));
            assert(group.chunks@ == chunks);
            lemma_group_nonempty(sbf.chunks@, w);
        }
        let configured = match config.get(track_name) {
            Some(order) => match order_by_config(&group.chunks, order) {
                Ok(sorted) => {
                    proof {
                        lemma_ordered_is_permutation(chunks, texts(order@));
                    }
                    Some(sorted)
                },
                Err(_) => None,
            },
            None => None,
        };
        let (track, fell_back) = match configured {
            Some(sorted) => {
                proof {
                    sorted@.to_multiset_ensures();
                    chunks.to_multiset_ensures();
                    assert(final(config)@ =~= old(config)@);
                }
                (sorted, false)
            },
            None => {
                let had_order = config.contains_key(track_name);
                config.insert(String::from_str(track_name), track_suffixes(&group.chunks));
                let index_order = group.chunks.clone();
                assert(index_order@ =~= chunks);
                (index_order, had_order)
            },
        };
        Ok(
            (
                TrackEditor {
                    track_name: String::from_str(track_name),
                    track,
                    selected_chunk: 0,
                    rd: ReorderedData::new(),
                    rd_dirty: true,
                },
                fell_back,
            ),
        )
    }

    /// The names of the chunks in their current order.
    pub fn export_names(&self) -> (names: Vec<String>)
        ensures
            texts(names@) == chunk_names(self.track@),
    {
        let mut names: Vec<String> = Vec::new();
        let mut i: usize = 0;
        while i < self.track.len()
            invariant
                i <= self.track@.len(),
                names@.len() == i,
                forall|k: int|
                    0 <= k < i ==> (#[trigger] names@[k])@ == self.track@[k].ident@
                        + self.track@[k].suffix@,
            decreases self.track@.len() - i,
        {
            let name = self.track[i].ident.clone().concat(self.track[i].suffix.as_str());
            names.push(name);
            i = i + 1;
        }
        assert(texts(names@) =~= chunk_names(self.track@));
        names
    }

    /// The line that declares the chunk names in their current order, or
    /// nothing where the list of names cannot be written.
    pub fn export_line(&self) -> (line: Option<String>)
        ensures
            match line {
                Some(text) => export_text(self.track_name@, chunk_names(self.track@)) == Some(
                    text@,
                ),
                None => export_text(self.track_name@, chunk_names(self.track@)) is None,
            },
    {
        let names = self.export_names();
        match write_string_list(&names) {
            Ok(list) => {
                let mut line = String::from_str("let ");
                line.append(self.track_name.as_str());
                line.append(": [&str; ");
                line.append(decimal_text(names.len() as u64).as_str());
                line.append("] = ");
                line.append(list.as_str());
                line.append(";");
                Some(line)
            },
            Err(_) => None,
        }
    }

    /// Moves the selected chunk one place up or down, where there is such a
    /// place, and marks the timeline as stale.
    fn move_selected(&mut self, down: bool)
        requires
            old(self).track@.len() > 0,
            old(self).selected_chunk < old(self).track@.len(),
        ensures
            final(self)@ == next_state(
                old(self)@,
                if down {
                    Key::MoveDown
                } else {
                    Key::MoveUp
                },
            ),
            final(self).track@.len() == old(self).track@.len(),
            final(self).track@.to_multiset() == old(self).track@.to_multiset(),
            final(self).selected_chunk < final(self).track@.len(),
            final(self).track_name == old(self).track_name,
            final(self).rd == old(self).rd,
            final(self).rd_dirty || (final(self).track@ == old(self).track@ && !old(self).rd_dirty),
    {
        let at = self.selected_chunk;
        proof {
            if down && at != self.track@.len() - 1 {
                lemma_moved_is_permutation(self.track@, at as int, at + 1);
            }
            if !down && at != 0 {
                lemma_moved_is_permutation(self.track@, at as int, at - 1);
            }
        }
        if down {
            if at != self.track.len() - 1 {
                let chunk = self.track.remove(at);
                self.track.insert(at + 1, chunk);
                self.selected_chunk = at + 1;
                self.rd_dirty = true;
            }
        } else {
            if at != 0 {
                let chunk = self.track.remove(at);
                self.track.insert(at - 1, chunk);
                self.selected_chunk = at - 1;
                self.rd_dirty = true;
            }
        }
    }

    /// Assembles the timeline if it is stale, and hands out its samples and
    /// the frame at which playback is to start: two seconds before the
    /// selected chunk. Where a chunk cannot be decoded, the timeline stays
    /// stale and nothing plays.
    pub fn start_playback(&mut self, sbf: &SBF) -> (r: Result<(Vec<i16>, u128), FormatError>)
        requires
            old(self).wf(sbf.content@),
        ensures
            final(self).track_name == old(self).track_name,
            final(self).track@ == old(self).track@,
            final(self).selected_chunk == old(self).selected_chunk,
            match r {
                Ok((pcm, from)) => {
                    &&& old(self).rd_dirty ==> track_error(sbf.content@, old(self).track@, 0) is None
                    &&& !final(self).rd_dirty
                    &&& final(self).wf(sbf.content@)
                    &&& pcm@ == final(self).rd.samples()
                    &&& from as int == lead_in(
                        final(self).rd.chunk_offsets@[old(self).selected_chunk as int] as int,
                    )
                },
                Err(e) => {
                    &&& old(self).rd_dirty
                    &&& track_error(sbf.content@, old(self).track@, 0) == Some(e)
                    &&& final(self).rd_dirty
                    &&& final(self).wf(sbf.content@)
                },
            },
    {
        if self.rd_dirty {
            match self.rd.recalc(&self.track, sbf) {
                Ok(_) => {},
                Err(e) => {
                    return Err(e);
                },
            }
            self.rd_dirty = false;
        }
        let pcm = self.rd.pcm();
        let start = self.rd.chunk_offsets[self.selected_chunk];
        let from = if start >= SEEK_FRAMES {
            start - SEEK_FRAMES
        } else {
            0
        };
        Ok((pcm, from))
    }

    /// Enters the current chunk order into the configuration.
    pub fn commit(&self, config: &mut PlayerConfig)
        requires
            old(config).wf(),
        ensures
            final(config).wf(),
            final(config)@ == old(config)@.insert(self.track_name@, suffixes_of(self.track@)),
    {
        config.insert(self.track_name.clone(), track_suffixes(&self.track));
    }

    /// Takes one key. `paused` says whether playback is paused, `position`
    /// the frame at which it stands.
    pub fn handle_key(
        &mut self,
        sbf: &SBF,
        config: &mut PlayerConfig,
        key: Key,
        paused: bool,
        position: u128,
    ) -> (r: Result<Action, FormatError>)
        requires
            old(self).wf(sbf.content@),
            old(config).wf(),
        ensures
            final(self).wf(sbf.content@),
            final(config).wf(),
            final(self).track_name == old(self).track_name,
            final(self).track@.to_multiset() == old(self).track@.to_multiset(),
            r is Ok ==> final(self)@ == next_state(old(self)@, key),
            r is Err ==> final(self)@ == old(self)@,
            r is Err <==> key == Key::Play && old(self).rd_dirty && track_error(
                sbf.content@,
                old(self).track@,
                0,
            ) is Some,
            r is Err ==> Some(r->Err_0) == track_error(sbf.content@, old(self).track@, 0),
            final(config)@ == if key == Key::Back && paused {
                old(config)@.insert(old(self).track_name@, suffixes_of(old(self).track@))
            } else {
                old(config)@
            },
            r is Ok ==> match key {
                Key::SeekBack => if old(self).selected_chunk != old(self).track@.len() - 1 {
                    r->Ok_0 is Seek && r->Ok_0->to as int == lead_in(position as int)
                } else {
                    r->Ok_0 == Action::Redraw
                },
                Key::SeekForward => if old(self).selected_chunk != old(self).track@.len() - 1 {
                    r->Ok_0 is Seek && r->Ok_0->to as int == skip_ahead(position as int)
                } else {
                    r->Ok_0 == Action::Redraw
                },
                Key::Play => {
                    &&& r->Ok_0 is Play
                    &&& final(self).rd.is_timeline_of(sbf.content@, old(self).track@)
                    &&& r->Ok_0->pcm@ == final(self).rd.samples()
                    &&& r->Ok_0->from as int == lead_in(
                        final(self).rd.chunk_offsets@[old(self).selected_chunk as int] as int,
                    )
                },
                Key::Back => r->Ok_0 == if paused {
                    Action::Commit
                } else {
                    Action::Pause
                },
                Key::Export => {
                    &&& r->Ok_0 is Export
                    &&& texts(r->Ok_0->names@) == chunk_names(old(self).track@)
                    &&& match r->Ok_0->line {
                        Some(text) => export_text(
                            old(self).track_name@,
                            chunk_names(old(self).track@),
                        ) == Some(text@),
                        None => export_text(old(self).track_name@, chunk_names(old(self).track@))
                            is None,
                    }
                },
                _ => r->Ok_0 == Action::Redraw,
            },
    {
        let last = self.track.len() - 1;
        match key {
            Key::Up => {
                if self.selected_chunk != 0 {
                    self.selected_chunk = self.selected_chunk - 1;
                }
                Ok(Action::Redraw)
            },
            Key::Down => {
                if self.selected_chunk != last {
                    self.selected_chunk = self.selected_chunk + 1;
                }
                Ok(Action::Redraw)
            },
            Key::SeekBack => {
                if self.selected_chunk != last {
                    let to = if position >= SEEK_FRAMES {
                        position - SEEK_FRAMES
                    } else {
                        0
                    };
                    Ok(Action::Seek { to })
                } else {
                    Ok(Action::Redraw)
                }
            },
            Key::SeekForward => {
                if self.selected_chunk != last {
                    let to = if position <= u128::MAX - SEEK_FRAMES {
                        position + SEEK_FRAMES
                    } else {
                        u128::MAX
                    };
                    Ok(Action::Seek { to })
                } else {
                    Ok(Action::Redraw)
                }
            },
            Key::MoveUp => {
                self.move_selected(false);
                Ok(Action::Redraw)
            },
            Key::MoveDown => {
                self.move_selected(true);
                Ok(Action::Redraw)
            },
            Key::Play => {
                match self.start_playback(sbf) {
                    Ok((pcm, from)) => Ok(Action::Play { pcm, from }),
                    Err(e) => Err(e),
                }
            },
            Key::Back => {
                if paused {
                    self.commit(config);
                    Ok(Action::Commit)
                } else {
                    Ok(Action::Pause)
                }
            },
            Key::Export => {
                let names = self.export_names();
                let line = self.export_line();
                Ok(Action::Export { names, line })
            },
            Key::Other => Ok(Action::Redraw),
        }
    }
}

/// Moving a chunk keeps the chunks: the new order holds each chunk as often
/// as the old one.
pub proof fn lemma_moved_is_permutation<T>(s: Seq<T>, at: int, to: int)
    requires
        0 <= at < s.len(),
        0 <= to < s.len(),
    ensures
        moved(s, at, to).to_multiset() == s.to_multiset(),
        moved(s, at, to).len() == s.len(),
{
    let rest = s.remove(at);
    let after = rest.insert(to, s[at]);
    s.to_multiset_ensures();
    rest.to_multiset_ensures();
    after.to_multiset_ensures();
    assert(after.remove(to) =~= rest);
    assert(after[to] == s[at]);
    assert(after.to_multiset().remove(s[at]) =~= s.to_multiset().remove(s[at]));
    assert(after.to_multiset().count(s[at]) > 0) by {
        assert(after.contains(s[at]));
    }
    assert(s.to_multiset().count(s[at]) > 0) by {
        assert(s.contains(s[at]));
    }
    assert(after.to_multiset() =~= s.to_multiset()) by {
        assert forall|x: T| after.to_multiset().count(x) == s.to_multiset().count(x) by {
            assert(after.to_multiset().remove(s[at]).count(x) == s.to_multiset().remove(
                s[at],
            ).count(x));
        }
    }
}

/// One step of the track menu: the new selection, and the entry that was
/// chosen, if one was.
#[derive(Clone, Copy, Debug, PartialEq, Eq, Structural)]
pub struct MenuStep {
    pub selected: usize,
    pub chosen: Option<usize>,
}

/// Takes one key in the menu of `count` tracks, of which `selected` is
/// marked: up and down move the mark within the menu, and the play key
/// chooses the marked entry.
pub fn select_step(selected: usize, count: usize, key: Key) -> (r: MenuStep)
    ensures
        r.selected as int == match key {
            Key::Up => if selected != 0 {
                selected - 1
            } else {
                selected as int
            },
            Key::Down => if selected + 1 < count {
                selected + 1
            } else {
                selected as int
            },
            _ => selected as int,
        },
        r.chosen == if key == Key::Play && selected < count {
            Some(selected)
        } else {
            None
        },
{
    match key {
        Key::Up => {
            if selected != 0 {
                MenuStep { selected: selected - 1, chosen: None }
            } else {
                MenuStep { selected, chosen: None }
            }
        },
        Key::Down => {
            if selected < count && selected + 1 < count {
                MenuStep { selected: selected + 1, chosen: None }
            } else {
                MenuStep { selected, chosen: None }
            }
        },
        Key::Play => {
            if selected < count {
                MenuStep { selected, chosen: Some(selected) }
            } else {
                MenuStep { selected, chosen: None }
            }
        },
        _ => MenuStep { selected, chosen: None },
    }
}

} // verus!
