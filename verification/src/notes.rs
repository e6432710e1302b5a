//! The editor's note store: notes keyed by a running identifier, with
//! extraction of render groups for the piano roll and of the ordered
//! note-on/note-off event stream for the audio pipeline.
//!
//! The store is a vector of key-note pairs with pairwise distinct keys;
//! its mathematical model is the finite map from keys to notes.

use vstd::prelude::*;
use crate::events::{MIDIEvent, MIDIEventType};

verus! {

use vstd::seq_lib::group_to_multiset_ensures;

/// A note as drawn and edited, in ticks.
#[derive(PartialEq, Eq, Clone, Copy, Debug, Structural)]
pub struct Note {
    /// Start, in ticks.
    pub start: u32,
    /// Length, in ticks.
    pub length: u32,
    pub channel: u8,
    pub key: u8,
    pub velocity: u8,
}

/// A stored note: channel and track packed into one word
/// (`channel_track`), key and velocity as played.
#[derive(PartialEq, Eq, Hash, Clone, Copy, Debug, Structural)]
pub struct ProjectNote {
    pub start: u32,
    pub length: u32,
    /// Track in the middle bits, channel in the low byte.
    pub channel_track: u32,
    pub key: u8,
    pub velocity: u8,
}

/// The finite map modelled by a key-note pair sequence.
pub open spec fn entries_map(s: Seq<(u32, ProjectNote)>) -> Map<u32, ProjectNote>
    decreases s.len(),
{
    if s.len() == 0 {
        Map::empty()
    } else {
        entries_map(s.drop_last()).insert(s.last().0, s.last().1)
    }
}

/// Keys are pairwise distinct.
pub open spec fn entries_unique(s: Seq<(u32, ProjectNote)>) -> bool {
    forall|i: int, j: int| 0 <= i < j < s.len() ==> (#[trigger] s[i]).0 != (#[trigger] s[j]).0
}

/// The group key a stored note is drawn under.
pub open spec fn track_of(n: ProjectNote) -> u32 {
    (n.channel_track >> 16) & 0xffff
}

/// A note sequence ordered by start tick.
pub open spec fn sorted_by_start(s: Seq<ProjectNote>) -> bool {
    forall|i: int, j: int| 0 <= i <= j < s.len() ==> (#[trigger] s[i]).start <= (#[trigger] s[j]).start
}

/// An event sequence ordered by time.
pub open spec fn sorted_by_time(s: Seq<MIDIEvent>) -> bool {
    forall|i: int, j: int| 0 <= i <= j < s.len() ==> (#[trigger] s[i]).time <= (#[trigger] s[j]).time
}

/// The observable content of a channel-voice event.
pub open spec fn event_view(e: MIDIEvent) -> (u64, MIDIEventType, Seq<u8>) {
    (e.time, e.event_type, e.data@)
}

/// The note-on view of a stored note.
pub open spec fn on_view(n: ProjectNote) -> (u64, MIDIEventType, Seq<u8>) {
    (
        n.start as u64,
        MIDIEventType::NoteOn,
        seq![(0x90u8 | ((n.channel_track & 0xff) as u8 & 0x0f)), n.key, n.velocity],
    )
}

/// The note-off view of a stored note.
pub open spec fn off_view(n: ProjectNote) -> (u64, MIDIEventType, Seq<u8>) {
    (
        (n.start + n.length) as u64,
        MIDIEventType::NoteOff,
        seq![(0x80u8 | ((n.channel_track & 0xff) as u8 & 0x0f)), n.key],
    )
}

/// The event stream a pair sequence gives rise to, one on and one off
/// per note, in store order.
pub open spec fn events_model(s: Seq<(u32, ProjectNote)>) -> Seq<(u64, MIDIEventType, Seq<u8>)>
    decreases s.len(),
{
    if s.len() == 0 {
        Seq::empty()
    } else {
        events_model(s.drop_last()) + seq![on_view(s.last().1), off_view(s.last().1)]
    }
}

/// Pushing a pair extends the modelled map by that binding.
proof fn lemma_entries_push(s: Seq<(u32, ProjectNote)>, id: u32, n: ProjectNote)
    ensures
        entries_map(s.push((id, n))) == entries_map(s).insert(id, n),
{
    assert(s.push((id, n)).drop_last() =~= s);
}

/// A key that occurs nowhere in the sequence is not in the map.
proof fn lemma_entries_absent(s: Seq<(u32, ProjectNote)>, id: u32)
    requires
        forall|i: int| 0 <= i < s.len() ==> (#[trigger] s[i]).0 != id,
    ensures
        !entries_map(s).dom().contains(id),
    decreases s.len(),
{
    if s.len() > 0 {
        lemma_entries_absent(s.drop_last(), id);
    }
}

/// Overwriting the pair that holds a key updates the map at that key.
proof fn lemma_entries_update(s: Seq<(u32, ProjectNote)>, i: int, n: ProjectNote)
    requires
        entries_unique(s),
        0 <= i < s.len(),
    ensures
        entries_map(s.update(i, (s[i].0, n))) == entries_map(s).insert(s[i].0, n),
    decreases s.len(),
{
    let id = s[i].0;
    if i == s.len() - 1 {
        assert(s.update(i, (id, n)).drop_last() =~= s.drop_last());
        assert(entries_map(s.update(i, (id, n))) =~= entries_map(s).insert(id, n));
    } else {
        let t = s.drop_last();
        assert(s.update(i, (id, n)).drop_last() =~= t.update(i, (id, n)));
        lemma_entries_update(t, i, n);
        assert(s.last().0 != id);
        assert(entries_map(s.update(i, (id, n))) =~= entries_map(s).insert(id, n));
    }
}

/// Removing the pair that holds a key removes the key from the map.
proof fn lemma_entries_remove(s: Seq<(u32, ProjectNote)>, i: int)
    requires
        entries_unique(s),
        0 <= i < s.len(),
    ensures
        entries_map(s.remove(i)) == entries_map(s).remove(s[i].0),
    decreases s.len(),
{
    let id = s[i].0;
    if i == s.len() - 1 {
        assert(s.remove(i) =~= s.drop_last());
        assert forall|k: int| 0 <= k < s.drop_last().len() implies (#[trigger] s.drop_last()[k]).0
            != id by {}
        lemma_entries_absent(s.drop_last(), id);
        assert(entries_map(s.remove(i)) =~= entries_map(s).remove(id));
    } else {
        let t = s.drop_last();
        assert(s.remove(i).drop_last() =~= t.remove(i));
        assert(s.remove(i).last() == s.last());
        lemma_entries_remove(t, i);
        assert(s.last().0 != id);
        assert(entries_map(s.remove(i)) =~= entries_map(s).remove(id));
    }
}

/// Filtering a sequence extended by one element keeps the element
/// exactly when it satisfies the predicate.
proof fn lemma_filter_push(s: Seq<ProjectNote>, pred: spec_fn(ProjectNote) -> bool, x: ProjectNote)
    ensures
        s.push(x).filter(pred) == (if pred(x) {
            s.filter(pred).push(x)
        } else {
            s.filter(pred)
        }),
{
    reveal(Seq::filter);
    assert(s.push(x).drop_last() =~= s);
}

/// Some group in the list carries this key.
pub open spec fn covered(groups: Seq<(u32, Vec<ProjectNote>)>, key: u32) -> bool {
    exists|g: int| 0 <= g < groups.len() && (#[trigger] groups[g]).0 == key
}

/// The group key of a stored note, as computed.
fn track_key(n: &ProjectNote) -> (k: u32)
    ensures
        k == track_of(*n),
{
    (n.channel_track >> 16) & 0xffff
}

/// Extract-minimum sort of notes by start tick: the result is ordered
/// and holds exactly the same notes.
fn sorted_notes_by_start(input: Vec<ProjectNote>) -> (out: Vec<ProjectNote>)
    ensures
        sorted_by_start(out@),
        out@.to_multiset() == input@.to_multiset(),
{
    broadcast use group_to_multiset_ensures;
    broadcast use vstd::multiset::group_multiset_axioms;

    let mut src = input;
    let mut out: Vec<ProjectNote> = Vec::new();
    proof {
        assert(out@.to_multiset().add(src@.to_multiset()) =~= src@.to_multiset());
    }
    while src.len() > 0
        invariant
            out@.to_multiset().add(src@.to_multiset()) == input@.to_multiset(),
            sorted_by_start(out@),
            forall|a: int, b: int|
                0 <= a < out@.len() && 0 <= b < src@.len() ==> (#[trigger] out@[a]).start
                    <= (#[trigger] src@[b]).start,
        decreases src.len(),
    {
        let mut m: usize = 0;
        let mut j: usize = 1;
        while j < src.len()
            invariant
                m < j <= src.len(),
                forall|k: int| 0 <= k < j ==> src@[m as int].start <= (#[trigger] src@[k]).start,
            decreases src.len() - j,
        {
            if src[j].start < src[m].start {
                m = j;
            }
            j = j + 1;
        }
        let ghost src_before = src@;
        let ghost out_before = out@;
        let x = src.remove(m);
        out.push(x);
        proof {
            assert forall|b: int| 0 <= b < src@.len() implies x.start <= (#[trigger] src@[b]).start
                by {
                let b0 = if b < m { b } else { b + 1 };
                assert(src@[b] == src_before[b0]);
            }
            src_before.to_multiset_ensures();
            out_before.to_multiset_ensures();
            assert(src_before.contains(x));
            assert(src_before.to_multiset().count(x) > 0);
            assert(out@.to_multiset().add(src@.to_multiset()) =~= input@.to_multiset());
        }
    }
    out
}

/// Extract-minimum sort of events by time: the result is ordered and
/// holds events with exactly the same content.
fn sorted_events_by_time(input: Vec<MIDIEvent>) -> (out: Vec<MIDIEvent>)
    ensures
        sorted_by_time(out@),
        out@.map_values(|e: MIDIEvent| event_view(e)).to_multiset() == input@.map_values(
            |e: MIDIEvent| event_view(e),
        ).to_multiset(),
{
    broadcast use group_to_multiset_ensures;
    broadcast use vstd::multiset::group_multiset_axioms;

    let ghost view_fn = |e: MIDIEvent| event_view(e);
    let mut src = input;
    let mut out: Vec<MIDIEvent> = Vec::new();
    proof {
        assert(out@.map_values(view_fn).to_multiset().add(src@.map_values(view_fn).to_multiset())
            =~= src@.map_values(view_fn).to_multiset());
    }
    while src.len() > 0
        invariant
            out@.map_values(view_fn).to_multiset().add(src@.map_values(view_fn).to_multiset())
                == input@.map_values(view_fn).to_multiset(),
            view_fn == (|e: MIDIEvent| event_view(e)),
            sorted_by_time(out@),
            forall|a: int, b: int|
                0 <= a < out@.len() && 0 <= b < src@.len() ==> (#[trigger] out@[a]).time
                    <= (#[trigger] src@[b]).time,
        decreases src.len(),
    {
        let mut m: usize = 0;
        let mut j: usize = 1;
        while j < src.len()
            invariant
                m < j <= src.len(),
                forall|k: int| 0 <= k < j ==> src@[m as int].time <= (#[trigger] src@[k]).time,
            decreases src.len() - j,
        {
            if src[j].time < src[m].time {
                m = j;
            }
            j = j + 1;
        }
        let ghost src_before = src@;
        let ghost out_before = out@;
        let x = src.remove(m);
        out.push(x);
        proof {
            assert forall|b: int| 0 <= b < src@.len() implies x.time <= (#[trigger] src@[b]).time
                by {
                let b0 = if b < m { b } else { b + 1 };
                assert(src@[b] == src_before[b0]);
            }
            assert(src@.map_values(view_fn) =~= src_before.map_values(view_fn).remove(m as int));
            assert(out@.map_values(view_fn) =~= out_before.map_values(view_fn).push(
                event_view(x),
            ));
            src_before.map_values(view_fn).to_multiset_ensures();
            out_before.map_values(view_fn).to_multiset_ensures();
            assert(src_before.map_values(view_fn)[m as int] == event_view(x));
            assert(src_before.map_values(view_fn).contains(event_view(x)));
            assert(src_before.map_values(view_fn).to_multiset().count(event_view(x)) > 0);
            assert(out@.map_values(view_fn).to_multiset().add(
                src@.map_values(view_fn).to_multiset(),
            ) =~= input@.map_values(view_fn).to_multiset());
        }
    }
    out
}

/// The note store.
pub struct ProjectNoteManager {
    /// Key-note pairs, keys pairwise distinct.
    pub project_notes: Vec<(u32, ProjectNote)>,
    /// The key the next added note receives.
    pub curr_id: u32,
    /// Set when the piano roll must re-read the notes.
    pub render_needs_update: bool,
}

impl ProjectNoteManager {
    pub open spec fn wf(self) -> bool {
        entries_unique(self.project_notes@)
    }

    /// The stored notes as a finite map.
    pub open spec fn as_map(self) -> Map<u32, ProjectNote> {
        entries_map(self.project_notes@)
    }

    /// An empty store.
    pub fn new() -> (r: Self)
        ensures
            r.wf(),
            r.as_map() == Map::<u32, ProjectNote>::empty(),
            r.curr_id == 0,
            !r.render_needs_update,
            r.project_notes.len() == 0,
    {
        ProjectNoteManager { project_notes: Vec::new(), curr_id: 0, render_needs_update: false }
    }

    /// Binds `id` to `note`: overwrites the pair holding `id`, or
    /// appends a new pair.
    fn insert_entry(&mut self, id: u32, note: ProjectNote)
        requires
            old(self).wf(),
        ensures
            final(self).wf(),
            final(self).as_map() == old(self).as_map().insert(id, note),
            final(self).curr_id == old(self).curr_id,
            final(self).render_needs_update == old(self).render_needs_update,
            final(self).project_notes.len() <= old(self).project_notes.len() + 1,
    {
        let n = self.project_notes.len();
        let mut i: usize = 0;
        while i < n
            invariant
                old(self).wf(),
                self == old(self),
                n == self.project_notes.len(),
                i <= n,
                forall|k: int| 0 <= k < i ==> (#[trigger] self.project_notes@[k]).0 != id,
            decreases n - i,
        {
            if self.project_notes[i].0 == id {
                proof {
                    lemma_entries_update(self.project_notes@, i as int, note);
                }
                let ghost before = self.project_notes@;
                self.project_notes.set(i, (id, note));
                proof {
                    assert forall|a: int, b: int|
                        0 <= a < b < self.project_notes@.len() implies (#[trigger] self
                        .project_notes@[a]).0 != (#[trigger] self.project_notes@[b]).0 by {
                        assert(self.project_notes@[a].0 == before[a].0);
                        assert(self.project_notes@[b].0 == before[b].0);
                    }
                }
                return ;
            }
            i = i + 1;
        }
        proof {
            lemma_entries_push(self.project_notes@, id, note);
        }
        self.project_notes.push((id, note));
    }

    /// Drops the binding of `id`, if any.
    fn remove_entry(&mut self, id: u32)
        requires
            old(self).wf(),
        ensures
            final(self).wf(),
            final(self).as_map() == old(self).as_map().remove(id),
            final(self).curr_id == old(self).curr_id,
            final(self).render_needs_update == old(self).render_needs_update,
            final(self).project_notes.len() <= old(self).project_notes.len(),
    {
        let n = self.project_notes.len();
        let mut i: usize = 0;
        while i < n
            invariant
                old(self).wf(),
                self == old(self),
                n == self.project_notes.len(),
                i <= n,
                forall|k: int| 0 <= k < i ==> (#[trigger] self.project_notes@[k]).0 != id,
            decreases n - i,
        {
            if self.project_notes[i].0 == id {
                proof {
                    lemma_entries_remove(self.project_notes@, i as int);
                }
                let ghost before = self.project_notes@;
                self.project_notes.remove(i);
                proof {
                    assert forall|a: int, b: int|
                        0 <= a < b < self.project_notes@.len() implies (#[trigger] self
                        .project_notes@[a]).0 != (#[trigger] self.project_notes@[b]).0 by {
                        let a0 = if a < i { a } else { a + 1 };
                        let b0 = if b < i { b } else { b + 1 };
                        assert(self.project_notes@[a].0 == before[a0].0);
                        assert(self.project_notes@[b].0 == before[b0].0);
                    }
                }
                return ;
            }
            i = i + 1;
        }
        proof {
            lemma_entries_absent(self.project_notes@, id);
            assert(old(self).as_map().remove(id) =~= old(self).as_map());
        }
    }

    /// Stores a drawn note under the next key: channel and track packed
    /// into `channel_track`, and the piano roll marked stale.
    pub fn add_note(&mut self, track: u16, note: Note)
        requires
            old(self).wf(),
            old(self).curr_id < u32::MAX,
        ensures
            final(self).wf(),
            final(self).as_map() == old(self).as_map().insert(
                old(self).curr_id,
                (ProjectNote {
                    start: note.start,
                    length: note.length,
                    channel_track: ((track as u32) << 8) | (note.channel as u32),
                    key: note.key,
                    velocity: note.velocity,
                }),
            ),
            final(self).curr_id == old(self).curr_id + 1,
            final(self).render_needs_update,
    {
        let packed: u32 = ((track as u32) << 8) | (note.channel as u32);
        let entry = ProjectNote {
            start: note.start,
            length: note.length,
            channel_track: packed,
            key: note.key,
            velocity: note.velocity,
        };
        let id = self.curr_id;
        self.insert_entry(id, entry);
        self.curr_id = self.curr_id + 1;
        self.render_needs_update = true;
    }

    /// The stored form of an imported note: its `length` field holds an
    /// end tick, so the stored length is end minus start, and the
    /// channel alone is the packed word.
    pub open spec fn converted(n: Note) -> ProjectNote {
        ProjectNote {
            start: n.start,
            length: (n.length - n.start) as u32,
            channel_track: n.channel as u32,
            key: n.key,
            velocity: n.velocity,
        }
    }

    /// The map after storing each imported note in order under running
    /// keys.
    pub open spec fn convert_fold(m: Map<u32, ProjectNote>, id: int, ns: Seq<Note>) -> Map<
        u32,
        ProjectNote,
    >
        decreases ns.len(),
    {
        if ns.len() == 0 {
            m
        } else {
            Self::convert_fold(m.insert(id as u32, Self::converted(ns[0])), id + 1, ns.drop_first())
        }
    }

    /// Imports a batch of notes whose `length` field holds an end tick.
    pub fn convert_notes(&mut self, notes: Vec<Note>)
        requires
            old(self).wf(),
            forall|i: int| 0 <= i < notes.len() ==> (#[trigger] notes[i]).start <= notes[i].length,
            old(self).curr_id + notes.len() <= u32::MAX,
        ensures
            final(self).wf(),
            final(self).as_map() == Self::convert_fold(
                old(self).as_map(),
                old(self).curr_id as int,
                notes@,
            ),
            final(self).curr_id == old(self).curr_id + notes.len(),
            final(self).render_needs_update == old(self).render_needs_update,
    {
        let n = notes.len();
        proof {
            assert(notes@.skip(0) =~= notes@);
        }
        let mut i: usize = 0;
        while i < n
            invariant
                self.wf(),
                n == notes.len(),
                i <= n,
                forall|k: int| 0 <= k < notes.len() ==> (#[trigger] notes[k]).start
                    <= notes[k].length,
                self.curr_id == old(self).curr_id + i,
                self.curr_id + (n - i) <= u32::MAX,
                self.render_needs_update == old(self).render_needs_update,
                Self::convert_fold(old(self).as_map(), old(self).curr_id as int, notes@)
                    == Self::convert_fold(self.as_map(), self.curr_id as int, notes@.skip(i as int)),
            decreases n - i,
        {
            let note = notes[i];
            let entry = ProjectNote {
                start: note.start,
                length: note.length - note.start,
                channel_track: note.channel as u32,
                key: note.key,
                velocity: note.velocity,
            };
            let id = self.curr_id;
            proof {
                assert(notes@.skip(i as int)[0] == note);
                assert(notes@.skip(i as int).drop_first() =~= notes@.skip(i as int + 1));
            }
            self.insert_entry(id, entry);
            self.curr_id = self.curr_id + 1;
            i = i + 1;
        }
        proof {
            assert(notes@.skip(n as int) =~= Seq::<Note>::empty());
        }
    }

    /// The stored notes grouped for the piano roll: one group per
    /// distinct track key, each group the start-ordered notes of that
    /// track.  The groups partition one start-ordered arrangement of
    /// all stored notes.
    pub fn get_notes(&self) -> (groups: Vec<(u32, Vec<ProjectNote>)>)
        requires
            self.wf(),
        ensures
            forall|g1: int, g2: int|
                0 <= g1 < g2 < groups@.len() ==> (#[trigger] groups@[g1]).0 != (
                #[trigger] groups@[g2]).0,
            exists|arranged: Seq<ProjectNote>|
                {
                    &&& #[trigger] arranged.to_multiset() == self.project_notes@.map_values(
                        |p: (u32, ProjectNote)| p.1,
                    ).to_multiset()
                    &&& sorted_by_start(arranged)
                    &&& forall|g: int|
                        0 <= g < groups@.len() ==> (#[trigger] groups@[g]).1@ == arranged.filter(
                            |n: ProjectNote| track_of(n) == groups@[g].0,
                        )
                    &&& forall|i: int|
                        0 <= i < arranged.len() ==> #[trigger] covered(
                            groups@,
                            track_of(arranged[i]),
                        )
                },
    {
        let n = self.project_notes.len();
        let mut vals: Vec<ProjectNote> = Vec::new();
        let mut i: usize = 0;
        while i < n
            invariant
                n == self.project_notes.len(),
                i <= n,
                vals@ == self.project_notes@.take(i as int).map_values(
                    |p: (u32, ProjectNote)| p.1,
                ),
            decreases n - i,
        {
            let entry = self.project_notes[i].1;
            vals.push(entry);
            proof {
                assert(self.project_notes@.take(i as int + 1).map_values(
                    |p: (u32, ProjectNote)| p.1,
                ) =~= self.project_notes@.take(i as int).map_values(
                    |p: (u32, ProjectNote)| p.1,
                ).push(entry));
            }
            i = i + 1;
        }
        proof {
            assert(self.project_notes@.take(n as int) =~= self.project_notes@);
        }
        let sorted = sorted_notes_by_start(vals);
        let m = sorted.len();
        let mut groups: Vec<(u32, Vec<ProjectNote>)> = Vec::new();
        let mut i: usize = 0;
        while i < m
            invariant
                m == sorted.len(),
                i <= m,
                sorted_by_start(sorted@),
                forall|g1: int, g2: int|
                    0 <= g1 < g2 < groups@.len() ==> (#[trigger] groups@[g1]).0 != (
                    #[trigger] groups@[g2]).0,
                forall|g: int|
                    0 <= g < groups@.len() ==> (#[trigger] groups@[g]).1@ == sorted@.filter(
                        |n: ProjectNote| track_of(n) == groups@[g].0,
                    ),
                forall|k: int| 0 <= k < i ==> #[trigger] covered(groups@, track_of(sorted@[k])),
            decreases m - i,
        {
            let ghost groups_before = groups@;
            let key: u32 = (track_key(&sorted[i]));
            let mut seen: bool = false;
            let mut g: usize = 0;
            while g < groups.len()
                invariant
                    g <= groups.len(),
                    seen == exists|h: int|
                        0 <= h < g && (#[trigger] groups@[h]).0 == key,
                decreases groups.len() - g,
            {
                if groups[g].0 == key {
                    seen = true;
                }
                g = g + 1;
            }
            if !seen {
                let mut members: Vec<ProjectNote> = Vec::new();
                let mut j: usize = 0;
                proof {
                    assert(sorted@.take(0) =~= Seq::<ProjectNote>::empty());
                    reveal(Seq::filter);
                }
                while j < m
                    invariant
                        m == sorted.len(),
                        j <= m,
                        sorted_by_start(sorted@),
                        members@ == sorted@.take(j as int).filter(
                            |n: ProjectNote| track_of(n) == key,
                        ),
                        sorted_by_start(members@),
                        forall|a: int, b: int|
                            0 <= a < members@.len() && j <= b < m ==> (
                            #[trigger] members@[a]).start <= (#[trigger] sorted@[b]).start,
                    decreases m - j,
                {
                    let candidate = sorted[j];
                    proof {
                        lemma_filter_push(
                            sorted@.take(j as int),
                            |n: ProjectNote| track_of(n) == key,
                            candidate,
                        );
                        assert(sorted@.take(j as int + 1) =~= sorted@.take(j as int).push(
                            candidate,
                        ));
                        sorted@.take(j as int).filter(
                            |n: ProjectNote| track_of(n) == key,
                        ).lemma_filter_len(|n: ProjectNote| track_of(n) == key);
                    }
                    if track_key(&candidate) == key {
                        members.push(candidate);
                    }
                    j = j + 1;
                }
                proof {
                    assert(sorted@.take(m as int) =~= sorted@);
                }
                groups.push((key, members));
            }
            proof {
                assert(covered(groups@, track_of(sorted@[i as int]))) by {
                    if !seen {
                        assert(groups@[groups@.len() - 1].0 == key);
                    }
                }
                assert forall|k: int| 0 <= k < i + 1 implies #[trigger] covered(
                    groups@,
                    track_of(sorted@[k]),
                ) by {
                    if k < i {
                        assert(covered(groups_before, track_of(sorted@[k])));
                        let gk = choose|g: int|
                            0 <= g < groups_before.len() && (#[trigger] groups_before[g]).0
                                == track_of(sorted@[k]);
                        assert(0 <= gk < groups@.len());
                        assert(groups@[gk] == groups_before[gk]);
                        assert(groups@[gk].0 == track_of(sorted@[k]));
                    }
                }
            }
            i = i + 1;
        }
        proof {
            let values = self.project_notes@.map_values(|p: (u32, ProjectNote)| p.1);
            assert(sorted@.to_multiset() == values.to_multiset());
            assert(sorted_by_start(sorted@));
            assert(forall|g: int|
                0 <= g < groups@.len() ==> (#[trigger] groups@[g]).1@ == sorted@.filter(
                    |n: ProjectNote| track_of(n) == groups@[g].0,
                ));
            assert(forall|i: int|
                0 <= i < sorted@.len() ==> #[trigger] covered(groups@, track_of(sorted@[i])));
        }
        groups
    }

    /// The stored notes as a note-on/note-off event stream, ordered by
    /// time: one on and one off per note, the off at start plus length,
    /// the channel in the status byte's low nibble.
    pub fn get_events(&mut self) -> (events: Vec<MIDIEvent>)
        requires
            old(self).wf(),
            forall|i: int|
                0 <= i < old(self).project_notes.len() ==> (#[trigger] old(
                    self,
                ).project_notes@[i]).1.start + old(self).project_notes@[i].1.length <= u32::MAX,
        ensures
            *final(self) == *old(self),
            sorted_by_time(events@),
            events@.map_values(|e: MIDIEvent| event_view(e)).to_multiset() == events_model(
                old(self).project_notes@,
            ).to_multiset(),
    {
        let ghost view_fn = |e: MIDIEvent| event_view(e);
        let n = self.project_notes.len();
        let mut raw: Vec<MIDIEvent> = Vec::new();
        let mut i: usize = 0;
        proof {
            assert(self.project_notes@.take(0) =~= Seq::<(u32, ProjectNote)>::empty());
            assert(raw@.map_values(view_fn) =~= events_model(self.project_notes@.take(0)));
        }
        while i < n
            invariant
                *self == *old(self),
                n == self.project_notes.len(),
                i <= n,
                forall|k: int|
                    0 <= k < n ==> (#[trigger] self.project_notes@[k]).1.start
                        + self.project_notes@[k].1.length <= u32::MAX,
                view_fn == (|e: MIDIEvent| event_view(e)),
                raw@.map_values(view_fn) == events_model(self.project_notes@.take(i as int)),
            decreases n - i,
        {
            let note: ProjectNote = self.project_notes[i].1;
            let ch: u8 = (note.channel_track & 0xff) as u8;
            let mut on_data: Vec<u8> = Vec::new();
            on_data.push(0x90u8 | (ch & 0x0f));
            on_data.push(note.key);
            on_data.push(note.velocity);
            let on = MIDIEvent {
                time: note.start as u64,
                event_type: MIDIEventType::NoteOn,
                data: on_data,
            };
            let mut off_data: Vec<u8> = Vec::new();
            off_data.push(0x80u8 | (ch & 0x0f));
            off_data.push(note.key);
            let off = MIDIEvent {
                time: (note.start + note.length) as u64,
                event_type: MIDIEventType::NoteOff,
                data: off_data,
            };
            let ghost raw_before = raw@;
            raw.push(on);
            raw.push(off);
            proof {
                assert(self.project_notes@.take(i as int + 1).drop_last() =~= self
                    .project_notes@.take(i as int));
                assert(on_data@ =~= on_view(note).2);
                assert(off_data@ =~= off_view(note).2);
                assert(raw@.map_values(view_fn) =~= raw_before.map_values(view_fn)
                    + seq![on_view(note), off_view(note)]);
                assert(raw@.map_values(view_fn) =~= events_model(
                    self.project_notes@.take(i as int + 1),
                ));
            }
            i = i + 1;
        }
        proof {
            assert(self.project_notes@.take(n as int) =~= self.project_notes@);
        }
        sorted_events_by_time(raw)
    }

    /// Steps the running key back by one, removing its binding if it
    /// exists; a no-op on an empty store.
    pub fn remove_last_note(&mut self)
        requires
            old(self).wf(),
            old(self).project_notes.len() > 0 ==> old(self).curr_id >= 1,
        ensures
            final(self).wf(),
            old(self).project_notes.len() > 0 ==> {
                &&& final(self).as_map() == old(self).as_map().remove(old(self).curr_id)
                &&& final(self).curr_id == old(self).curr_id - 1
            },
            old(self).project_notes.len() == 0 ==> *final(self) == *old(self),
            final(self).render_needs_update == old(self).render_needs_update,
    {
        if self.project_notes.len() > 0 {
            let id = self.curr_id;
            self.remove_entry(id);
            self.curr_id = self.curr_id - 1;
        }
    }
}

impl Default for ProjectNoteManager {
    fn default() -> (r: Self)
        ensures
            r.wf(),
            r.as_map() == Map::<u32, ProjectNote>::empty(),
            r.curr_id == 0,
            !r.render_needs_update,
            r.project_notes.len() == 0,
    {
        ProjectNoteManager::new()
    }
}

} // verus!
