//! What holds of the notes of every rhythm: how many there are, how deep
//! they go, and that they fill their span without gap or overlap.

use crate::config::Config;
use crate::note::{fresh, generated, laid_out, room, Note};
use crate::rhythm::{Rhythm, PITCHES};
use crate::sprites::SheetConfig;
use vstd::arithmetic::power2::{
    lemma2_to64, lemma_pow2_pos, lemma_pow2_strictly_increases, lemma_pow2_unfold, pow2,
};
use vstd::prelude::*;

verus! {

/// Length of a note in ticks, a tick being the length of the smallest note
/// of depth `smallest`.
pub open spec fn ticks(note: Note, smallest: nat) -> int {
    pow2((smallest - note.size) as nat) as int
}

/// The tick at which a note starts.
pub open spec fn start(note: Note, smallest: nat) -> int {
    note.slot * ticks(note, smallest)
}

/// Every note is the unmatched note of its own pitch, depth and span; its
/// depth lies between `depth` and the smallest note's; its span is one of
/// the spans of its depth; and its pitch belongs to the scale.
pub open spec fn regular(notes: Seq<Note>, config: &Config, sc: &SheetConfig, depth: nat) -> bool {
    forall|i: int|
        0 <= i < notes.len() ==> {
            let n = #[trigger] notes[i];
            &&& n == fresh(config, sc, n.note, n.size as nat, n.slot as nat)
            &&& depth <= n.size <= config.smallest_note
            &&& n.slot < pow2(n.size as nat)
            &&& n.note < PITCHES
        }
}

/// Every note has the smallest note's depth.
pub open spec fn all_smallest(notes: Seq<Note>, config: &Config) -> bool {
    forall|i: int| 0 <= i < notes.len() ==> (#[trigger] notes[i]).size == config.smallest_note
}

/// The notes fill span `slot` of depth `depth` from left to right: the
/// first starts where the span starts, each next one where the one before
/// it ends, and the last ends where the span ends.
pub open spec fn tiles(notes: Seq<Note>, smallest: nat, depth: nat, slot: nat) -> bool {
    let whole = pow2((smallest - depth) as nat) as int;
    &&& notes.len() >= 1
    &&& start(notes[0], smallest) == slot * whole
    &&& forall|i: int|
        0 <= i < notes.len() - 1 ==> start(#[trigger] notes[i], smallest) + ticks(notes[i], smallest)
            == start(notes[i + 1], smallest)
    &&& start(notes.last(), smallest) + ticks(notes.last(), smallest) == (slot + 1) * whole
}

/// Powers of two grow with the exponent.
pub proof fn lemma_pow2_grows(low: nat, high: nat)
    requires
        low <= high,
    ensures
        pow2(low) <= pow2(high),
{
    if low < high {
        lemma_pow2_strictly_increases(low, high);
    }
}

/// No power of two up to the deepest subdivision exceeds `2^20`.
pub proof fn lemma_pow2_small(e: nat)
    requires
        e <= 20,
    ensures
        1 <= pow2(e) <= 1_048_576,
{
    lemma2_to64();
    lemma_pow2_grows(e, 20);
    lemma_pow2_pos(e);
}

/// A single note fills its span.
proof fn lemma_single(pitch: usize, config: &Config, sc: &SheetConfig, depth: nat, slot: nat)
    requires
        config.valid(),
        depth <= config.smallest_note,
        slot < pow2(depth),
        pitch < PITCHES,
    ensures
        ({
            let notes = seq![fresh(config, sc, pitch, depth, slot)];
            &&& regular(notes, config, sc, depth)
            &&& 1 == pow2((config.smallest_note - depth) as nat) <==> all_smallest(notes, config)
            &&& tiles(notes, config.smallest_note as nat, depth, slot)
        }),
{
    let smallest = config.smallest_note as nat;
    let whole = pow2((smallest - depth) as nat);
    let n = fresh(config, sc, pitch, depth, slot);
    let notes = seq![n];
    lemma_pow2_small(depth);
    lemma_pow2_pos((smallest - depth) as nat);
    if depth < smallest {
        lemma_pow2_unfold((smallest - depth) as nat);
        lemma_pow2_pos((smallest - depth - 1) as nat);
    } else {
        lemma_pow2_small(0);
        lemma_pow2_grows(0, 0);
        assert(pow2(0) == 1) by {
            lemma2_to64();
        }
    }
    assert(notes[0] == n);
    assert(notes.last() == n);
    assert(n.size as nat == depth);
    assert(n.slot as nat == slot);
    assert(ticks(n, smallest) == whole);
    assert(slot * whole + whole == (slot + 1) * whole) by (nonlinear_arith);
}

/// Regular notes of two halves are regular notes of the whole.
proof fn lemma_join_regular(a: Seq<Note>, b: Seq<Note>, config: &Config, sc: &SheetConfig, depth: nat)
    requires
        regular(a, config, sc, depth + 1),
        regular(b, config, sc, depth + 1),
    ensures
        regular(a + b, config, sc, depth),
        all_smallest(a + b, config) <==> all_smallest(a, config) && all_smallest(b, config),
{
    let notes = a + b;
    assert forall|i: int| 0 <= i < notes.len() implies {
        let n = #[trigger] notes[i];
        &&& n == fresh(config, sc, n.note, n.size as nat, n.slot as nat)
        &&& depth <= n.size <= config.smallest_note
        &&& n.slot < pow2(n.size as nat)
        &&& n.note < PITCHES
    } by {
        if i < a.len() {
            assert(notes[i] == a[i]);
        } else {
            assert(notes[i] == b[i - a.len()]);
        }
    }
    if all_smallest(notes, config) {
        assert forall|i: int| 0 <= i < a.len() implies (#[trigger] a[i]).size
            == config.smallest_note by {
            assert(notes[i] == a[i]);
        }
        assert forall|i: int| 0 <= i < b.len() implies (#[trigger] b[i]).size
            == config.smallest_note by {
            assert(notes[i + a.len()] == b[i]);
        }
    }
    if all_smallest(a, config) && all_smallest(b, config) {
        assert forall|i: int| 0 <= i < notes.len() implies (#[trigger] notes[i]).size
            == config.smallest_note by {
            if i < a.len() {
                assert(notes[i] == a[i]);
            } else {
                assert(notes[i] == b[i - a.len()]);
            }
        }
    }
}

/// Notes that fill the two halves of a span fill the span.
proof fn lemma_join_tiles(a: Seq<Note>, b: Seq<Note>, smallest: nat, depth: nat, slot: nat)
    requires
        depth < smallest,
        tiles(a, smallest, depth + 1, 2 * slot),
        tiles(b, smallest, depth + 1, 2 * slot + 1),
    ensures
        tiles(a + b, smallest, depth, slot),
{
    let notes = a + b;
    let whole = pow2((smallest - depth) as nat) as int;
    let half = pow2((smallest - (depth + 1)) as nat) as int;
    lemma_pow2_unfold((smallest - depth) as nat);
    assert(whole == 2 * half);
    assert((2 * slot) * half == slot * whole) by (nonlinear_arith)
        requires
            whole == 2 * half,
    ;
    assert((2 * slot + 1 + 1) * half == (slot + 1) * whole) by (nonlinear_arith)
        requires
            whole == 2 * half,
    ;
    assert(notes[0] == a[0]);
    assert(notes.last() == b.last());
    assert forall|i: int| 0 <= i < notes.len() - 1 implies start(#[trigger] notes[i], smallest)
        + ticks(notes[i], smallest) == start(notes[i + 1], smallest) by {
        if i < a.len() - 1 {
            assert(notes[i] == a[i]);
            assert(notes[i + 1] == a[i + 1]);
        } else if i == a.len() - 1 {
            assert(notes[i] == a.last());
            assert(notes[i + 1] == b[0]);
        } else {
            assert(notes[i] == b[i - a.len()]);
            assert(notes[i + 1] == b[i - a.len() + 1]);
        }
    }
}

/// The notes of a rhythm, by induction over the rhythm.
pub proof fn lemma_laid_out(rhythm: Rhythm, config: &Config, sc: &SheetConfig, depth: nat, slot: nat)
    requires
        config.valid(),
        depth <= config.smallest_note,
        slot < pow2(depth),
        rhythm.fits((config.smallest_note - depth) as nat),
    ensures
        ({
            let notes = laid_out(rhythm, config, sc, depth, slot);
            &&& notes.len() == rhythm.count()
            &&& 1 <= notes.len() <= pow2((config.smallest_note - depth) as nat)
            &&& regular(notes, config, sc, depth)
            &&& notes.len() == pow2((config.smallest_note - depth) as nat) <==> all_smallest(
                notes,
                config,
            )
            &&& tiles(notes, config.smallest_note as nat, depth, slot)
        }),
    decreases rhythm,
{
    let smallest = config.smallest_note as nat;
    lemma_pow2_pos((smallest - depth) as nat);
    match rhythm {
        Rhythm::Single { pitch } => {
            lemma_single(pitch, config, sc, depth, slot);
        },
        Rhythm::Split { first, second } => {
            let a = laid_out(*first, config, sc, depth + 1, 2 * slot);
            let b = laid_out(*second, config, sc, depth + 1, 2 * slot + 1);
            lemma_pow2_unfold(depth + 1);
            lemma_pow2_unfold((smallest - depth) as nat);
            lemma_laid_out(*first, config, sc, depth + 1, 2 * slot);
            lemma_laid_out(*second, config, sc, depth + 1, 2 * slot + 1);
            lemma_join_regular(a, b, config, sc, depth);
            lemma_join_tiles(a, b, smallest, depth, slot);
        },
    }
}

/// Generated notes are the notes of a rhythm that fits: this gives one.
pub proof fn lemma_rhythm_of(notes: Seq<Note>, config: &Config, sc: &SheetConfig, depth: nat, slot: nat) -> (rhythm: Rhythm)
    requires
        generated(notes, config, sc, depth, slot),
    ensures
        rhythm.fits((config.smallest_note - depth) as nat),
        notes == laid_out(rhythm, config, sc, depth, slot),
{
    choose|rhythm: Rhythm|
        rhythm.fits((config.smallest_note - depth) as nat) && notes == #[trigger] laid_out(
            rhythm,
            config,
            sc,
            depth,
            slot,
        )
}

/// Generated notes number at least one and at most `2^d`, where `d` is the
/// number of depths from the span's own down to the smallest note's; and
/// they number exactly `2^d` if and only if every one of them has the
/// smallest note's depth.
pub proof fn lemma_note_count(notes: Seq<Note>, config: &Config, sc: &SheetConfig, depth: nat, slot: nat)
    requires
        config.valid(),
        depth <= config.smallest_note,
        slot < pow2(depth),
        generated(notes, config, sc, depth, slot),
    ensures
        1 <= notes.len() <= pow2((config.smallest_note - depth) as nat),
        notes.len() == pow2((config.smallest_note - depth) as nat) <==> all_smallest(notes, config),
{
    let rhythm = lemma_rhythm_of(notes, config, sc, depth, slot);
    lemma_laid_out(rhythm, config, sc, depth, slot);
}

/// Every generated note has a depth from the span's own down to the
/// smallest note's, starts at a fraction `slot / 2^size` of its measure
/// that is at least 0 and less than 1, has a pitch of the scale, is
/// unmatched, and stands where its depth and span put it.
pub proof fn lemma_note_ranges(notes: Seq<Note>, config: &Config, sc: &SheetConfig, depth: nat, slot: nat)
    requires
        config.valid(),
        depth <= config.smallest_note,
        slot < pow2(depth),
        generated(notes, config, sc, depth, slot),
    ensures
        regular(notes, config, sc, depth),
        forall|i: int|
            0 <= i < notes.len() ==> {
                let n = #[trigger] notes[i];
                &&& depth <= n.size <= config.smallest_note
                &&& 0 <= n.slot < pow2(n.size as nat)
                &&& n.note < PITCHES
                &&& !n.special
            },
{
    let rhythm = lemma_rhythm_of(notes, config, sc, depth, slot);
    lemma_laid_out(rhythm, config, sc, depth, slot);
}

/// Generated notes fill their span from left to right without gap or
/// overlap.
pub proof fn lemma_notes_tile(notes: Seq<Note>, config: &Config, sc: &SheetConfig, depth: nat, slot: nat)
    requires
        config.valid(),
        depth <= config.smallest_note,
        slot < pow2(depth),
        generated(notes, config, sc, depth, slot),
    ensures
        tiles(notes, config.smallest_note as nat, depth, slot),
{
    let rhythm = lemma_rhythm_of(notes, config, sc, depth, slot);
    lemma_laid_out(rhythm, config, sc, depth, slot);
}

/// A note placed in one of the spans of its depth starts inside its
/// measure and leaves room for the width reserved for a note.
pub proof fn lemma_note_inside(config: &Config, sc: &SheetConfig, pitch: usize, size: nat, slot: nat)
    requires
        config.valid(),
        size <= config.smallest_note,
        slot < pow2(size),
    ensures
        ({
            let n = fresh(config, sc, pitch, size, slot);
            &&& 0 <= n.x < 1000 * config.measure_size
            &&& n.x <= room(config)
        }),
{
    let free = room(config);
    let parts = pow2(size) as int;
    let whole = 1000 * config.measure_size;
    lemma_pow2_small(size);
    assert(0 <= 1000 * config.height / (config.lines as int) <= 1000 * config.height)
        by (nonlinear_arith)
        requires
            0 <= config.height,
            2 <= config.lines,
    ;
    assert(0 <= free <= whole);
    assert(0 <= (slot * free) / parts <= free && ((slot * free) / parts < whole)) by (nonlinear_arith)
        requires
            0 <= slot < parts,
            0 <= free <= whole,
            0 < whole,
    ;
}

} // verus!
