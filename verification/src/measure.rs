//! A measure: a fixed-width span of the staff with its notes, which moves
//! left as time passes.

use crate::config::Config;
use crate::note::{generated, Note};
use crate::sprites::SheetConfig;
use crate::subdivision::lemma_pow2_small;
use vstd::prelude::*;

verus! {

/// The same notes with no match marked on any of them.
pub open spec fn unmarked(notes: Seq<Note>) -> Seq<Note> {
    Seq::new(notes.len(), |i: int| Note { special: false, ..notes[i] })
}

/// The notes are those of a new measure: at least one, each of them
/// generated for the layout and none of them matched.
pub open spec fn fresh_notes(notes: Seq<Note>, config: &Config, sc: &SheetConfig) -> bool {
    &&& generated(notes, config, sc, 0, 0)
    &&& notes.len() >= 1
    &&& forall|j: int| 0 <= j < notes.len() ==> !(#[trigger] notes[j]).special
}

/// Note `i` is the one on which a key played at `note_x` scores: it is hit,
/// and no note before it is.
pub open spec fn scores(notes: Seq<Note>, key: char, note_x: int, i: int) -> bool {
    &&& 0 <= i < notes.len()
    &&& notes[i].hit_by(key, note_x)
    &&& forall|j: int| 0 <= j < i ==> !(#[trigger] notes[j]).hit_by(key, note_x)
}

/// The notes after a key played at `note_x` has been matched against them:
/// the note on which it scores is marked, and nothing else changes.
pub open spec fn marked(notes: Seq<Note>, key: char, note_x: int) -> Seq<Note> {
    Seq::new(
        notes.len(),
        |i: int| Note { special: notes[i].special || scores(notes, key, note_x, i), ..notes[i] },
    )
}

/// Some note is hit by a key played at `note_x`.
pub open spec fn any_hit(notes: Seq<Note>, key: char, note_x: int) -> bool {
    exists|i: int| 0 <= i < notes.len() && (#[trigger] notes[i]).hit_by(key, note_x)
}

#[derive(Debug)]
pub struct Measure {
    /// The notes, in the order in which they were generated.
    pub notes: Vec<Note>,
    /// Left edge, in thousandths of a unit.
    pub x: i64,
    pub config: Config,
}

impl Measure {
    /// The measure's notes are generated notes of its layout, whatever
    /// matches have been marked on them since.
    pub open spec fn wf(&self, sc: &SheetConfig) -> bool {
        &&& self.config.valid()
        &&& sc.wf(&self.config)
        &&& generated(unmarked(self.notes@), &self.config, sc, 0, 0)
    }

    /// The measure's right edge lies left of the layout's origin.
    pub open spec fn off_screen(&self) -> bool {
        self.x + 1000 * self.config.measure_size < 1000 * self.config.x
    }

    /// A measure at `x` with freshly generated notes.
    pub fn new(config: Config, x: i64, sc: &SheetConfig) -> (measure: Measure)
        requires
            config.valid(),
            sc.wf(&config),
        ensures
            measure.x == x,
            measure.config == config,
            fresh_notes(measure.notes@, &config, sc),
            measure.wf(sc),
    {
        proof {
            lemma_pow2_small(0);
        }
        let notes = Note::random(&config, 0, 0, sc);
        proof {
            crate::subdivision::lemma_note_ranges(notes@, &config, sc, 0, 0);
            assert(unmarked(notes@) =~= notes@);
        }
        Measure { notes, x, config }
    }

    /// Moves the measure left by what its speed covers in `dt`
    /// milliseconds. The notes move with it.
    pub fn update(&mut self, dt: u32)
        requires
            old(self).x - dt * old(self).config.speed >= i64::MIN,
            old(self).x - dt * old(self).config.speed <= i64::MAX,
        ensures
            final(self).x == old(self).x - dt * old(self).config.speed,
            final(self).notes == old(self).notes,
            final(self).config == old(self).config,
    {
        let step: i128 = (dt as i128) * (self.config.speed as i128);
        let x: i128 = self.x as i128 - step;
        self.x = x as i64;
    }

    /// Whether the measure has moved off the screen entirely.
    pub fn is_out_screen(&self) -> (out: bool)
        ensures
            out == self.off_screen(),
    {
        let right: i128 = self.x as i128 + 1000 * (self.config.measure_size as i128);
        right < 1000 * (self.config.x as i128)
    }

    /// Matches a played key against the notes, the cursor being at
    /// `note_x` on the measure's own axis. The first note that is hit is
    /// marked and scores; no other note changes.
    pub fn check(&mut self, note_char: char, note_x: i64) -> (out: bool)
        ensures
            out == any_hit(old(self).notes@, note_char, note_x - old(self).x),
            final(self).x == old(self).x,
            final(self).config == old(self).config,
            final(self).notes@ == marked(old(self).notes@, note_char, note_x - old(self).x),
            unmarked(final(self).notes@) == unmarked(old(self).notes@),
    {
        let local: i128 = note_x as i128 - self.x as i128;
        let ghost before = self.notes@;
        let mut out = false;
        let mut i: usize = 0;
        while i < self.notes.len()
            invariant
                i <= self.notes@.len(),
                self.notes@.len() == before.len(),
                self.x == old(self).x,
                self.config == old(self).config,
                before == old(self).notes@,
                local == note_x - old(self).x,
                out == exists|j: int| 0 <= j < i && (#[trigger] before[j]).hit_by(note_char, local as int),
                forall|k: int| i <= k < before.len() ==> #[trigger] self.notes@[k] == before[k],
                forall|k: int|
                    0 <= k < i ==> #[trigger] self.notes@[k] == (Note {
                        special: before[k].special || scores(before, note_char, local as int, k),
                        ..before[k]
                    }),
            decreases self.notes@.len() - i,
        {
            let mut note: Note = self.notes[i];
            if !out {
                let hit = note.check(note_char, local);
                if hit {
                    self.notes[i] = note;
                    out = true;
                    assert(scores(before, note_char, local as int, i as int));
                }
            }
            assert(before[i as int].hit_by(note_char, local as int) ==> out);
            i += 1;
        }
        assert(self.notes@ =~= marked(before, note_char, local as int));
        assert(unmarked(self.notes@) =~= unmarked(before));
        out
    }
}

/// A well-formed measure holds at least one note, and each of its notes
/// starts inside the measure: at or right of its left edge, and left of its
/// right edge.
pub proof fn lemma_notes_inside(measure: &Measure, sc: &SheetConfig, i: int)
    requires
        measure.wf(sc),
        0 <= i < measure.notes@.len(),
    ensures
        measure.notes@.len() >= 1,
        0 <= measure.notes@[i].x < 1000 * measure.config.measure_size,
        measure.notes@[i].size <= measure.config.smallest_note,
        measure.notes@[i].note < crate::rhythm::PITCHES,
{
    let plain = unmarked(measure.notes@);
    lemma_pow2_small(0);
    crate::subdivision::lemma_note_ranges(plain, &measure.config, sc, 0, 0);
    let n = plain[i];
    assert(n == crate::note::fresh(&measure.config, sc, n.note, n.size as nat, n.slot as nat));
    crate::subdivision::lemma_note_inside(&measure.config, sc, n.note, n.size as nat, n.slot as nat);
}

} // verus!
