//! Notes: where the notes of a rhythm stand within their measure, and how
//! a played key is matched against a note.

use crate::config::{note_span, Config, FINE, MAX_DEPTH};
use crate::rhythm::{Rhythm, PITCHES};
use crate::sprites::{Frame, SheetConfig};
use crate::subdivision::{all_smallest, lemma_laid_out, lemma_pow2_small, regular, tiles};
use vstd::arithmetic::power2::{lemma2_to64, lemma_pow2_pos, lemma_pow2_unfold, pow2};
use vstd::prelude::*;

verus! {

/// One note of a measure.
#[derive(Clone, Copy, Debug, PartialEq, Eq, Structural)]
pub struct Note {
    /// Left edge within the measure, in thousandths of a unit.
    pub x: i64,
    /// Index of the pitch in the scale E, F, G, A, B, C, D.
    pub note: usize,
    /// Subdivision depth: 0 is the longest note, each step halves it.
    pub size: u32,
    /// Which of the `2^size` spans of its depth the note fills, counted
    /// from the left: the note starts at the fraction `slot / 2^size` of
    /// its measure.
    pub slot: u32,
    /// Width on screen, in thousandths of a unit.
    pub width: i64,
    /// Whether the note has been matched by a played key.
    pub special: bool,
}

/// The letter of a pitch of the scale, in upper case.
pub open spec fn letter(pitch: usize) -> char {
    if pitch == 0 {
        'E'
    } else if pitch == 1 {
        'F'
    } else if pitch == 2 {
        'G'
    } else if pitch == 3 {
        'A'
    } else if pitch == 4 {
        'B'
    } else if pitch == 5 {
        'C'
    } else {
        'D'
    }
}

/// The letter of a pitch of the scale, in lower case.
pub open spec fn small_letter(pitch: usize) -> char {
    if pitch == 0 {
        'e'
    } else if pitch == 1 {
        'f'
    } else if pitch == 2 {
        'g'
    } else if pitch == 3 {
        'a'
    } else if pitch == 4 {
        'b'
    } else if pitch == 5 {
        'c'
    } else {
        'd'
    }
}

/// The letter of a pitch, in upper case.
pub fn pitch_letter(pitch: usize) -> (c: char)
    ensures
        c == letter(pitch),
{
    if pitch == 0 {
        'E'
    } else if pitch == 1 {
        'F'
    } else if pitch == 2 {
        'G'
    } else if pitch == 3 {
        'A'
    } else if pitch == 4 {
        'B'
    } else if pitch == 5 {
        'C'
    } else {
        'D'
    }
}

/// The key names the pitch, in either case. A pitch outside the scale has
/// no name.
pub open spec fn names(key: char, pitch: usize) -> bool {
    pitch < PITCHES && (key == letter(pitch) || key == small_letter(pitch))
}

/// Free room of a measure: its size less the width reserved for a note, in
/// thousandths of a unit.
pub open spec fn room(config: &Config) -> int {
    1000 * config.measure_size - note_span(config.height as int, config.lines as int)
}

/// Left edge of the note in span `slot` of depth `size`: the fraction
/// `slot / 2^size` of the measure's free room, rounded down.
pub open spec fn offset(config: &Config, size: nat, slot: nat) -> int {
    slot * room(config) / (pow2(size) as int)
}

/// The unmatched note of the given pitch in span `slot` of depth `size`.
pub open spec fn fresh(config: &Config, sc: &SheetConfig, pitch: usize, size: nat, slot: nat) -> Note {
    Note {
        x: offset(config, size, slot) as i64,
        note: pitch,
        size: size as u32,
        slot: slot as u32,
        width: sc.span(size as int) as i64,
        special: false,
    }
}

/// The notes of a rhythm that fills span `slot` of depth `depth`, from left
/// to right: a single note fills the span itself, two halves fill the spans
/// `2 * slot` and `2 * slot + 1` of the next depth.
pub open spec fn laid_out(rhythm: Rhythm, config: &Config, sc: &SheetConfig, depth: nat, slot: nat) -> Seq<Note>
    decreases rhythm,
{
    match rhythm {
        Rhythm::Single { pitch } => seq![fresh(config, sc, pitch, depth, slot)],
        Rhythm::Split { first, second } => laid_out(*first, config, sc, depth + 1, 2 * slot)
            + laid_out(*second, config, sc, depth + 1, 2 * slot + 1),
    }
}

/// The notes are those of some rhythm for span `slot` of depth `depth`
/// that goes no deeper than the layout's smallest note.
pub open spec fn generated(notes: Seq<Note>, config: &Config, sc: &SheetConfig, depth: nat, slot: nat) -> bool {
    exists|rhythm: Rhythm|
        rhythm.fits((config.smallest_note - depth) as nat) && notes == #[trigger] laid_out(
            rhythm,
            config,
            sc,
            depth,
            slot,
        )
}

/// Height of a pitch below the upper edge of the staff, in thousandths of a
/// unit: the pitches stand on a gamut of nine places, the lowest pitch of
/// the scale lowest.
pub open spec fn pitch_height(config: &Config, pitch: usize) -> int {
    (8 - pitch) * (1000 * config.height) / 8
}

/// Height of the marks drawn with a note: the layout's height divided by
/// one more than its number of lines, in thousandths of a unit.
pub open spec fn mark_height(config: &Config) -> int {
    1000 * config.height / (config.lines + 1)
}

/// Computes `2^exp`.
pub fn two_to(exp: u32) -> (power: i64)
    requires
        exp <= MAX_DEPTH,
    ensures
        power == pow2(exp as nat),
        1 <= power <= 1_048_576,
{
    let mut power: i64 = 1;
    let mut done: u32 = 0;
    proof {
        lemma2_to64();
    }
    while done < exp
        invariant
            done <= exp <= MAX_DEPTH,
            power == pow2(done as nat),
            1 <= power,
            power * pow2((20 - done) as nat) == 1_048_576,
        decreases exp - done,
    {
        proof {
            lemma_pow2_unfold((done + 1) as nat);
            lemma_pow2_unfold((20 - done) as nat);
            lemma_pow2_pos((19 - done) as nat);
            assert(power * (2 * pow2((19 - done) as nat)) == (2 * power) * pow2((19 - done) as nat))
                by (nonlinear_arith);
            assert(2 * power <= (2 * power) * pow2((19 - done) as nat)) by (nonlinear_arith)
                requires
                    1 <= power,
                    1 <= pow2((19 - done) as nat),
            ;
        }
        power = 2 * power;
        done += 1;
    }
    proof {
        lemma_pow2_pos((20 - done) as nat);
        assert(power <= power * pow2((20 - done) as nat)) by (nonlinear_arith)
            requires
                1 <= power,
                1 <= pow2((20 - done) as nat),
        ;
    }
    power
}

/// Computes the free room of a measure of `config`.
pub fn free_room(config: &Config) -> (free: i64)
    requires
        config.valid(),
    ensures
        free == room(config),
        0 <= free <= 1000 * config.measure_size,
{
    let cell: i64 = config.cell();
    FINE * config.measure_size - 3 * cell / 2
}

impl Note {
    /// The note lies under the position `note_x` of its measure: at or
    /// right of its left edge, and left of its right edge.
    pub open spec fn under(&self, note_x: int) -> bool {
        self.x <= note_x < self.x + self.width
    }

    /// A key played while the cursor is at `note_x` scores on this note: it
    /// names the note's pitch, the note lies under the cursor, and it has
    /// not been matched before.
    pub open spec fn hit_by(&self, key: char, note_x: int) -> bool {
        names(key, self.note) && self.under(note_x) && !self.special
    }

    /// The unmatched note of the given pitch in span `slot` of depth
    /// `size`.
    pub fn place(config: &Config, pitch: usize, size: u32, slot: u32, sc: &SheetConfig) -> (note: Note)
        requires
            config.valid(),
            sc.wf(config),
            size <= config.smallest_note,
            slot < pow2(size as nat),
        ensures
            note == fresh(config, sc, pitch, size as nat, slot as nat),
            0 <= note.x <= room(config),
            0 <= note.width,
    {
        let free: i64 = free_room(config);
        let parts: i64 = two_to(size);
        proof {
            assert(0 <= slot * free <= 1_048_576 * 1_000_000_000_000) by (nonlinear_arith)
                requires
                    0 <= slot < parts <= 1_048_576,
                    0 <= free <= 1_000_000_000_000,
            ;
            assert(0 <= (slot * free) / (parts as int) <= free) by (nonlinear_arith)
                requires
                    0 <= slot < parts,
                    0 <= free,
            ;
        }
        let x: i64 = (slot as i64) * free / parts;
        let width: i64 = sc.width_of(size);
        Note { x, note: pitch, size, slot, width, special: false }
    }

    /// Lays out the notes of `rhythm` in span `slot` of depth `depth`, from
    /// left to right.
    pub fn lay_out(config: &Config, rhythm: &Rhythm, depth: u32, slot: u32, sc: &SheetConfig) -> (notes: Vec<Note>)
        requires
            config.valid(),
            sc.wf(config),
            depth <= config.smallest_note,
            slot < pow2(depth as nat),
            rhythm.fits((config.smallest_note - depth) as nat),
        ensures
            notes@ == laid_out(*rhythm, config, sc, depth as nat, slot as nat),
        decreases rhythm,
    {
        match rhythm {
            Rhythm::Single { pitch } => {
                let mut notes: Vec<Note> = Vec::new();
                notes.push(Note::place(config, *pitch, depth, slot, sc));
                assert(notes@ =~= seq![fresh(config, sc, *pitch, depth as nat, slot as nat)]);
                notes
            },
            Rhythm::Split { first, second } => {
                proof {
                    lemma_pow2_unfold((depth + 1) as nat);
                    lemma_pow2_small(depth as nat);
                }
                let mut one = Note::lay_out(config, first, depth + 1, 2 * slot, sc);
                let mut other = Note::lay_out(config, second, depth + 1, 2 * slot + 1, sc);
                one.append(&mut other);
                one
            },
        }
    }

    /// Generates the notes for span `slot` of depth `depth`: draws a rhythm
    /// and lays it out.
    pub fn random(config: &Config, depth: u32, slot: u32, sc: &SheetConfig) -> (notes: Vec<Note>)
        requires
            config.valid(),
            sc.wf(config),
            depth <= config.smallest_note,
            slot < pow2(depth as nat),
        ensures
            generated(notes@, config, sc, depth as nat, slot as nat),
            1 <= notes@.len() <= pow2((config.smallest_note - depth) as nat),
            notes@.len() == pow2((config.smallest_note - depth) as nat) <==> all_smallest(
                notes@,
                config,
            ),
            regular(notes@, config, sc, depth as nat),
            tiles(notes@, config.smallest_note as nat, depth as nat, slot as nat),
    {
        let rhythm = Rhythm::random(depth, config.smallest_note);
        proof {
            lemma_laid_out(rhythm, config, sc, depth as nat, slot as nat);
        }
        Note::lay_out(config, &rhythm, depth, slot, sc)
    }

    /// Where the note is drawn within its measure: at its left edge, and at
    /// the height of its pitch, whatever the number of staff lines.
    pub fn anchor(&self, config: &Config) -> (at: (i64, i64))
        requires
            config.in_bounds(),
            self.note < PITCHES,
        ensures
            at.0 == self.x,
            at.1 == pitch_height(config, self.note),
    {
        let total: i64 = FINE * config.height;
        let steps: i64 = 8 - self.note as i64;
        proof {
            assert(0 <= steps * total <= 8 * total) by (nonlinear_arith)
                requires
                    0 <= total,
                    0 <= steps <= 8,
            ;
        }
        (self.x, steps * total / 8)
    }

    /// The frame of the halo drawn around a matched note, relative to the
    /// note's anchor: two marks wide and high, reaching from one and a half
    /// marks above the anchor to half a mark below it. An unmatched note
    /// has no halo.
    pub fn halo(&self, config: &Config) -> (frame: Option<Frame>)
        requires
            config.in_bounds(),
            1 <= config.lines <= crate::config::MAX_EXTENT,
        ensures
            frame == if self.special {
                Some(
                    Frame {
                        x: 0,
                        y: (-(3 * mark_height(config) / 2)) as i64,
                        width: (2 * mark_height(config)) as i64,
                        height: (2 * mark_height(config)) as i64,
                    },
                )
            } else {
                None
            },
    {
        if !self.special {
            return None;
        }
        let total: i64 = FINE * config.height;
        proof {
            assert(0 <= (total as int) / (config.lines + 1) <= total) by (nonlinear_arith)
                requires
                    0 <= total,
                    1 <= config.lines,
            ;
        }
        let mark: i64 = total / (config.lines + 1);
        Some(Frame { x: 0, y: -(3 * mark / 2), width: 2 * mark, height: 2 * mark })
    }

    /// Whether `key` names the note's pitch, in either case.
    pub fn named_by(&self, key: char) -> (named: bool)
        ensures
            named == names(key, self.note),
    {
        if self.note == 0 {
            key == 'E' || key == 'e'
        } else if self.note == 1 {
            key == 'F' || key == 'f'
        } else if self.note == 2 {
            key == 'G' || key == 'g'
        } else if self.note == 3 {
            key == 'A' || key == 'a'
        } else if self.note == 4 {
            key == 'B' || key == 'b'
        } else if self.note == 5 {
            key == 'C' || key == 'c'
        } else if self.note == 6 {
            key == 'D' || key == 'd'
        } else {
            false
        }
    }

    /// Matches a played key against the note, the cursor being at
    /// `note_x` within the note's measure. A hit marks the note, so that
    /// the same note scores once only.
    pub fn check(&mut self, note: char, note_x: i128) -> (hit: bool)
        ensures
            hit == old(self).hit_by(note, note_x as int),
            *final(self) == (Note { special: old(self).special || hit, ..*old(self) }),
    {
        let left: i128 = self.x as i128;
        let right: i128 = left + self.width as i128;
        if self.named_by(note) && left <= note_x && note_x < right && !self.special {
            self.special = true;
            true
        } else {
            false
        }
    }
}

} // verus!
