//! The sheet: a window of measures that tile the staff, move left
//! together, and are replaced one for one as they leave the screen.

use crate::config::{Config, FINE};
use crate::measure::{any_hit, fresh_notes, marked, Measure};
use crate::sprites::{SheetConfig, SpriteSize};
use vstd::prelude::*;

verus! {

/// Where the judgment line stands on a sheet's axis, in thousandths of a
/// unit.
pub const CURSOR: i64 = 200_000;

/// `count` measures are just enough to cover the layout's width and one
/// measure more.
pub open spec fn covers(config: &Config, count: int) -> bool {
    (count - 1) * config.measure_size < config.width + config.measure_size <= count
        * config.measure_size
}

/// Each measure starts where the one before it ends.
pub open spec fn tiled(measures: Seq<Measure>, config: &Config) -> bool {
    forall|i: int|
        0 <= i < measures.len() ==> (#[trigger] measures[i]).x == measures[0].x + i * (1000
            * config.measure_size)
}

/// Each measure but the last is followed by one that starts exactly one
/// measure size further right.
pub open spec fn adjoin(measures: Seq<Measure>, config: &Config) -> bool {
    forall|i: int|
        0 <= i < measures.len() - 1 ==> (#[trigger] measures[i + 1]).x == measures[i].x + 1000
            * config.measure_size
}

/// The measure's right edge lies left of the cursor at `note_x`.
pub open spec fn passed(measure: Measure, config: &Config, note_x: int) -> bool {
    measure.x + 1000 * config.measure_size < note_x
}

/// Measure `i` is the one that faces the cursor at `note_x`: the first
/// whose right edge has not passed it.
pub open spec fn faces(measures: Seq<Measure>, config: &Config, note_x: int, i: int) -> bool {
    &&& 0 <= i < measures.len()
    &&& !passed(measures[i], config, note_x)
    &&& forall|j: int| 0 <= j < i ==> passed(#[trigger] measures[j], config, note_x)
}

#[derive(Debug)]
pub struct Sheet {
    pub config: Config,
    /// The measures, from left to right.
    pub sheet: Vec<Measure>,
    pub sheet_config: SheetConfig,
    /// The judgment line, in thousandths of a unit.
    pub note_x: i64,
}

impl Sheet {
    /// The window holds just enough measures of the sheet's layout, they
    /// tile the staff from left to right, and the first of them starts no
    /// further right than the later of the axis' zero and the layout's
    /// origin.
    pub open spec fn wf(&self) -> bool {
        &&& self.config.valid()
        &&& self.sheet_config.wf(&self.config)
        &&& covers(&self.config, self.sheet@.len() as int)
        &&& forall|i: int|
            0 <= i < self.sheet@.len() ==> (#[trigger] self.sheet@[i]).config == self.config
                && self.sheet@[i].wf(&self.sheet_config)
        &&& tiled(self.sheet@, &self.config)
        &&& self.sheet@[0].x <= 0 || self.sheet@[0].x <= 1000 * self.config.x
    }

    /// A sheet for the layout `config` whose note images have the given
    /// pixel sizes, one for each subdivision depth. Its measures start at 0
    /// and are freshly generated.
    pub fn new(config: Config, textures: Vec<SpriteSize>) -> (sheet: Sheet)
        requires
            config.valid(),
            textures@.len() == config.smallest_note + 1,
            textures@[0].height > 0,
        ensures
            sheet.wf(),
            sheet.config == config,
            sheet.note_x == CURSOR,
            sheet.sheet_config.textures@ == textures@,
            sheet.sheet@[0].x == 0,
            adjoin(sheet.sheet@, &config),
            forall|i: int|
                0 <= i < sheet.sheet@.len() ==> fresh_notes(
                    (#[trigger] sheet.sheet@[i]).notes@,
                    &config,
                    &sheet.sheet_config,
                ),
    {
        let sc = SheetConfig::new(&config, textures);
        let mut measures: Vec<Measure> = Vec::new();
        let mut x: i64 = 0;
        assert(measures@.len() * config.measure_size == 0) by (nonlinear_arith)
            requires
                measures@.len() == 0,
        ;
        while x < config.width + config.measure_size
            invariant
                config.valid(),
                sc.wf(&config),
                x == measures@.len() * config.measure_size,
                0 <= x <= config.width + 2 * config.measure_size,
                measures@.len() > 0 ==> x - config.measure_size < config.width + config.measure_size,
                forall|i: int|
                    0 <= i < measures@.len() ==> (#[trigger] measures@[i]).config == config && measures@[i].wf(
                        &sc,
                    ) && measures@[i].x == i * (1000 * config.measure_size) && fresh_notes(
                        measures@[i].notes@,
                        &config,
                        &sc,
                    ),
            decreases config.width + 2 * config.measure_size - x,
        {
            let ghost count = measures@.len() as int;
            measures.push(Measure::new(config, FINE * x, &sc));
            proof {
                assert((count + 1) * config.measure_size == count * config.measure_size
                    + config.measure_size) by (nonlinear_arith);
                assert(1000 * (count * config.measure_size) == count * (1000
                    * config.measure_size)) by (nonlinear_arith);
            }
            x += config.measure_size;
        }
        proof {
            let count = measures@.len() as int;
            assert(count > 0);
            assert((count - 1) * config.measure_size == count * config.measure_size
                - config.measure_size) by (nonlinear_arith);
            assert(measures@[0].x == 0);
            lemma_tiled_adjoin(measures@, &config);
        }
        Sheet { note_x: CURSOR, sheet: measures, config, sheet_config: sc }
    }

    /// Matches a played key against the measure that faces the cursor: the
    /// first one, from the left, whose right edge has not passed it. The
    /// key scores if it hits a note of that measure; the first note hit is
    /// marked. No other measure is touched, and with every measure past
    /// the cursor nothing scores.
    pub fn check(&mut self, note: char) -> (out: bool)
        ensures
            out == exists|i: int|
                faces(old(self).sheet@, &old(self).config, old(self).note_x as int, i) && any_hit(
                    old(self).sheet@[i].notes@,
                    note,
                    old(self).note_x - old(self).sheet@[i].x,
                ),
            final(self).config == old(self).config,
            final(self).sheet_config == old(self).sheet_config,
            final(self).note_x == old(self).note_x,
            final(self).sheet@.len() == old(self).sheet@.len(),
            forall|i: int|
                0 <= i < old(self).sheet@.len() ==> {
                    let before = old(self).sheet@[i];
                    let after = #[trigger] final(self).sheet@[i];
                    &&& after.x == before.x
                    &&& after.config == before.config
                    &&& after.notes@ == if faces(
                        old(self).sheet@,
                        &old(self).config,
                        old(self).note_x as int,
                        i,
                    ) {
                        marked(before.notes@, note, old(self).note_x - before.x)
                    } else {
                        before.notes@
                    }
                },
            old(self).wf() ==> final(self).wf(),
    {
        let mut i: usize = 0;
        while i < self.sheet.len()
            invariant
                *self == *old(self),
                i <= self.sheet@.len(),
                forall|j: int|
                    0 <= j < i ==> passed(#[trigger] self.sheet@[j], &self.config, self.note_x as int),
            decreases self.sheet@.len() - i,
        {
            let right: i128 = self.sheet[i].x as i128 + 1000 * (self.config.measure_size as i128);
            if right < self.note_x as i128 {
                i += 1;
            } else {
                assert(faces(self.sheet@, &self.config, self.note_x as int, i as int));
                let out = self.sheet[i].check(note, self.note_x);
                proof {
                    let before = old(self).sheet@;
                    let after = self.sheet@;
                    assert forall|k: int| 0 <= k < before.len() && k != i implies !faces(
                        before,
                        &old(self).config,
                        old(self).note_x as int,
                        k,
                    ) by {
                        if k < i {
                        } else {
                            assert(!passed(before[i as int], &old(self).config, old(self).note_x as int));
                        }
                    }
                    if old(self).wf() {
                        assert forall|k: int| 0 <= k < after.len() implies (#[trigger] after[k]).config
                            == self.config && after[k].wf(&self.sheet_config) by {
                            assert(before[k].wf(&self.sheet_config));
                        }
                        assert(tiled(after, &self.config)) by {
                            assert forall|k: int| 0 <= k < after.len() implies (#[trigger] after[k]).x
                                == after[0].x + k * (1000 * self.config.measure_size) by {
                                assert(before[k].x == before[0].x + k * (1000
                                    * self.config.measure_size));
                            }
                        }
                    }
                }
                return out;
            }
        }
        proof {
            assert forall|k: int| !faces(
                old(self).sheet@,
                &old(self).config,
                old(self).note_x as int,
                k,
            ) by {
                if 0 <= k < old(self).sheet@.len() {
                    assert(passed(old(self).sheet@[k], &old(self).config, old(self).note_x as int));
                }
            }
        }
        false
    }

    /// Whether the sheet can advance by `dt` milliseconds without its first
    /// measure leaving the range of positions.
    pub fn can_update(&self, dt: u32) -> (ok: bool)
        requires
            self.wf(),
        ensures
            ok == (self.sheet@[0].x - dt * self.config.speed >= i64::MIN),
    {
        proof {
            lemma_window(&self.config, self.sheet@.len() as int);
            assert(0 <= dt * self.config.speed <= 0xffff_ffff * 1_000_000_000) by (nonlinear_arith)
                requires
                    0 <= dt <= 0xffff_ffff,
                    0 < self.config.speed <= 1_000_000_000,
            ;
        }
        let step: i128 = (dt as i128) * (self.config.speed as i128);
        self.sheet[0].x as i128 - step >= i64::MIN as i128
    }

    /// Advances the sheet by `dt` milliseconds: every measure moves left by
    /// what the layout's speed covers in that time. If the first measure
    /// has then left the screen, it is dropped, the others move up by one
    /// place, and a freshly generated measure is appended where the last
    /// one ends.
    pub fn update(&mut self, dt: u32)
        requires
            old(self).wf(),
            old(self).sheet@[0].x - dt * old(self).config.speed >= i64::MIN,
        ensures
            final(self).wf(),
            final(self).config == old(self).config,
            final(self).sheet_config == old(self).sheet_config,
            final(self).note_x == old(self).note_x,
            final(self).sheet@.len() == old(self).sheet@.len(),
            adjoin(final(self).sheet@, &final(self).config),
            follows(old(self), final(self), dt),
            !old(self).sheet@[0].off_screen() && dt * old(self).config.speed <= 1000 * old(
                self,
            ).config.measure_size ==> !final(self).sheet@[0].off_screen(),
            !recycles(old(self), dt) ==> forall|i: int|
                0 <= i < old(self).sheet@.len() ==> moved(
                    old(self).sheet@[i],
                    #[trigger] final(self).sheet@[i],
                    dt * old(self).config.speed,
                ),
            recycles(old(self), dt) ==> {
                let last = old(self).sheet@.len() - 1;
                &&& forall|i: int|
                    0 <= i < last ==> moved(
                        old(self).sheet@[i + 1],
                        #[trigger] final(self).sheet@[i],
                        dt * old(self).config.speed,
                    )
                &&& final(self).sheet@[last].x == old(self).sheet@[last].x - dt * old(
                    self,
                ).config.speed + 1000 * old(self).config.measure_size
                &&& fresh_notes(
                    final(self).sheet@[last].notes@,
                    &old(self).config,
                    &old(self).sheet_config,
                )
            },
    {
        let ghost before = self.sheet@;
        let ghost step = dt * self.config.speed;
        let ghost width = 1000 * self.config.measure_size;
        let count: usize = self.sheet.len();
        proof {
            assert(0 <= step) by (nonlinear_arith)
                requires
                    step == dt * self.config.speed,
                    0 <= dt,
                    0 < self.config.speed,
            ;
            lemma_window(&self.config, count as int);
        }
        let mut i: usize = 0;
        while i < count
            invariant
                i <= count == before.len(),
                self.sheet@.len() == count,
                self.config == old(self).config,
                self.sheet_config == old(self).sheet_config,
                self.note_x == old(self).note_x,
                before == old(self).sheet@,
                old(self).wf(),
                step == dt * self.config.speed,
                0 <= step,
                before[0].x - step >= i64::MIN,
                forall|k: int| i <= k < count ==> #[trigger] self.sheet@[k] == before[k],
                forall|k: int| 0 <= k < i ==> moved(before[k], #[trigger] self.sheet@[k], step),
            decreases count - i,
        {
            proof {
                assert(before[i as int].x == before[0].x + i * (1000 * self.config.measure_size));
                assert(0 <= i * (1000 * self.config.measure_size)) by (nonlinear_arith)
                    requires
                        0 <= i,
                        0 < self.config.measure_size,
                ;
                assert(before[i as int].config == self.config);
            }
            self.sheet[i].update(dt);
            i += 1;
        }
        let replace = self.sheet[0].is_out_screen();
        proof {
            assert(moved(before[0], self.sheet@[0], step));
            assert(before[0].config == self.config);
            assert(replace == recycles(old(self), dt));
            assert(moved(before[count - 1], self.sheet@[count - 1], step));
            assert(before[count - 1].x == before[0].x + (count - 1) * width);
        }
        if replace {
            let x: i64 = self.sheet[count - 1].x + FINE * self.config.measure_size;
            let ghost shifted = self.sheet@;
            self.sheet.remove(0);
            let fresh = Measure::new(self.config, x, &self.sheet_config);
            self.sheet.push(fresh);
            proof {
                let after = self.sheet@;
                assert forall|k: int| 0 <= k < count - 1 implies moved(
                    before[k + 1],
                    #[trigger] after[k],
                    step,
                ) by {
                    assert(after[k] == shifted[k + 1]);
                }
                assert forall|k: int| 0 <= k < after.len() implies (#[trigger] after[k]).config
                    == self.config && after[k].wf(&self.sheet_config) by {
                    if k < count - 1 {
                        assert(moved(before[k + 1], after[k], step));
                        assert(before[k + 1].wf(&self.sheet_config));
                    }
                }
                assert forall|k: int| 0 <= k < after.len() implies (#[trigger] after[k]).x
                    == after[0].x + k * width by {
                    assert((k + 1) * width == k * width + width) by (nonlinear_arith);
                    if count == 1 {
                    } else if k < count - 1 {
                        assert(moved(before[k + 1], after[k], step));
                        assert(moved(before[1], after[0], step));
                        assert(before[k + 1].x == before[0].x + (k + 1) * width);
                        assert(before[1].x == before[0].x + 1 * width);
                    } else {
                        assert(moved(before[1], after[0], step));
                        assert(before[1].x == before[0].x + 1 * width);
                    }
                }
            }
        } else {
            proof {
                let after = self.sheet@;
                assert forall|k: int| 0 <= k < after.len() implies (#[trigger] after[k]).config
                    == self.config && after[k].wf(&self.sheet_config) by {
                    assert(moved(before[k], after[k], step));
                    assert(before[k].wf(&self.sheet_config));
                }
                assert forall|k: int| 0 <= k < after.len() implies (#[trigger] after[k]).x
                    == after[0].x + k * width by {
                    assert(moved(before[k], after[k], step));
                    assert(before[k].x == before[0].x + k * width);
                }
            }
        }
        proof {
            lemma_tiled_adjoin(self.sheet@, &self.config);
        }
    }
}

/// The first measure of the sheet will have left the screen once the sheet
/// has advanced by `dt` milliseconds.
pub open spec fn recycles(sheet: &Sheet, dt: u32) -> bool {
    sheet.sheet@[0].x - dt * sheet.config.speed + 1000 * sheet.config.measure_size < 1000
        * sheet.config.x
}

/// `after` is `before` moved left by `step`, with the same notes.
pub open spec fn moved(before: Measure, after: Measure, step: int) -> bool {
    &&& after.x == before.x - step
    &&& after.notes == before.notes
    &&& after.config == before.config
}

/// A window that just covers its layout holds at least one measure, and
/// spans no more than the layout's width and two measures.
pub proof fn lemma_window(config: &Config, count: int)
    requires
        config.valid(),
        covers(config, count),
    ensures
        1 <= count,
        (count - 1) * (1000 * config.measure_size) < 1000 * (config.width + config.measure_size),
{
    let size = config.measure_size as int;
    assert(1 <= count) by (nonlinear_arith)
        requires
            0 < size,
            0 <= config.width,
            config.width + size <= count * size,
    ;
    assert((count - 1) * (1000 * size) == 1000 * ((count - 1) * size)) by (nonlinear_arith);
}

/// Measures that are tiled from the first one on adjoin one another.
pub proof fn lemma_tiled_adjoin(measures: Seq<Measure>, config: &Config)
    requires
        tiled(measures, config),
    ensures
        adjoin(measures, config),
{
    let width = 1000 * config.measure_size;
    assert forall|i: int| 0 <= i < measures.len() - 1 implies (#[trigger] measures[i + 1]).x
        == measures[i].x + width by {
        assert((i + 1) * width == i * width + width) by (nonlinear_arith);
        assert(measures[i].x == measures[0].x + i * width);
    }
}

/// In a well-formed sheet every measure but the last is followed by one
/// that starts exactly one measure size further right: the measures
/// neither overlap nor leave a gap. `Sheet::new` makes such a sheet and
/// `Sheet::update` and `Sheet::check` keep it one, so this holds after any
/// number of steps.
pub proof fn lemma_measures_adjoin(sheet: &Sheet, i: int)
    requires
        sheet.wf(),
        0 <= i < sheet.sheet@.len() - 1,
    ensures
        sheet.sheet@[i + 1].x == sheet.sheet@[i].x + 1000 * sheet.config.measure_size,
{
    let width = 1000 * sheet.config.measure_size;
    assert((i + 1) * width == i * width + width) by (nonlinear_arith);
}

/// The measures of a well-formed sheet span, from the left edge of the
/// first to the right edge of the last, at least the layout's width and
/// one measure more.
pub proof fn lemma_window_spans(sheet: &Sheet)
    requires
        sheet.wf(),
    ensures
        sheet.sheet@.len() >= 1,
        sheet.sheet@.last().x + 1000 * sheet.config.measure_size - sheet.sheet@[0].x >= 1000 * (
        sheet.config.width + sheet.config.measure_size),
{
    let count = sheet.sheet@.len() as int;
    let size = sheet.config.measure_size as int;
    lemma_window(&sheet.config, count);
    assert((count - 1) * (1000 * size) + 1000 * size == 1000 * (count * size)) by (nonlinear_arith);
}

/// While the first measure of a well-formed sheet has not left the screen,
/// the measures reach from the later of the axis' zero and the layout's
/// origin, or from further left, to the right edge of the layout's
/// rectangle, or further right.
pub proof fn lemma_screen_covered(sheet: &Sheet)
    requires
        sheet.wf(),
        !sheet.sheet@[0].off_screen(),
    ensures
        sheet.sheet@[0].x <= 0 || sheet.sheet@[0].x <= 1000 * sheet.config.x,
        sheet.sheet@.last().x + 1000 * sheet.config.measure_size >= 1000 * (sheet.config.x
            + sheet.config.width),
{
    lemma_window_spans(sheet);
    assert(sheet.sheet@[0].config == sheet.config);
}

/// Where the first measure of the sheet starts once the sheet has advanced
/// by `dt` milliseconds: it has moved left with the others, and if the
/// first measure was dropped, the measure that was second has taken its
/// place.
pub open spec fn first_after(sheet: &Sheet, dt: u32) -> int {
    sheet.sheet@[0].x - dt * sheet.config.speed + if recycles(sheet, dt) {
        1000 * sheet.config.measure_size
    } else {
        0
    }
}

/// `after` is a well-formed sheet of the same layout and size as `before`
/// whose first measure starts where one step of `dt` milliseconds puts it.
pub open spec fn follows(before: &Sheet, after: &Sheet, dt: u32) -> bool {
    &&& after.wf()
    &&& after.config == before.config
    &&& after.sheet@.len() == before.sheet@.len()
    &&& after.sheet@[0].x == first_after(before, dt)
}

/// The sheets are the states of one sheet before, between and after steps
/// of the given lengths, in milliseconds.
pub open spec fn run(sheets: Seq<Sheet>, steps: Seq<u32>) -> bool {
    &&& sheets.len() == steps.len() + 1
    &&& sheets[0].wf()
    &&& forall|j: int|
        0 <= j < steps.len() ==> follows(&sheets[j], #[trigger] &sheets[j + 1], steps[j])
}

/// The time that the steps take together, in milliseconds.
pub open spec fn elapsed(steps: Seq<u32>) -> int
    decreases steps.len(),
{
    if steps.len() == 0 {
        0
    } else {
        elapsed(steps.drop_last()) + steps.last()
    }
}

/// Over any run of steps a sheet keeps its layout and its number of
/// measures, and its first measure starts where the first one of the start
/// would have moved to, further right by one measure size for each measure
/// that was dropped; their number is what is returned. If after at least
/// one step the first measure of the start would have left the screen, it
/// has been dropped: every measure of the sheet then starts at least one
/// measure size right of where that one would be.
pub proof fn lemma_run(sheets: Seq<Sheet>, steps: Seq<u32>) -> (dropped: nat)
    requires
        run(sheets, steps),
    ensures
        sheets.last().wf(),
        sheets.last().config == sheets[0].config,
        sheets.last().sheet@.len() == sheets[0].sheet@.len(),
        sheets.last().sheet@[0].x == sheets[0].sheet@[0].x - sheets[0].config.speed * elapsed(steps)
            + dropped * (1000 * sheets[0].config.measure_size),
        steps.len() > 0 && sheets[0].sheet@[0].x - sheets[0].config.speed * elapsed(steps) + 1000
            * sheets[0].config.measure_size < 1000 * sheets[0].config.x ==> dropped >= 1 && forall|i: int|
            0 <= i < sheets.last().sheet@.len() ==> (#[trigger] sheets.last().sheet@[i]).x
                >= sheets[0].sheet@[0].x - sheets[0].config.speed * elapsed(steps) + 1000
                * sheets[0].config.measure_size,
    decreases steps.len(),
{
    let speed = sheets[0].config.speed as int;
    let width = 1000 * sheets[0].config.measure_size;
    let start = sheets[0].sheet@[0].x as int;
    if steps.len() == 0 {
        assert(sheets.last() == sheets[0]);
        assert(speed * elapsed(steps) == 0) by (nonlinear_arith)
            requires
                elapsed(steps) == 0,
        ;
        assert(0 * width == 0);
        0
    } else {
        let k = steps.len() as int;
        let earlier = sheets.drop_last();
        let shorter = steps.drop_last();
        assert forall|j: int| 0 <= j < shorter.len() implies follows(
            &earlier[j],
            #[trigger] &earlier[j + 1],
            shorter[j],
        ) by {
            assert(follows(&sheets[j], &sheets[j + 1], steps[j]));
        }
        let before = lemma_run(earlier, shorter);
        let dt = steps.last();
        let prev = sheets[k - 1];
        let last = sheets[k];
        assert(earlier.last() == prev);
        assert(sheets.last() == last);
        assert(follows(&prev, &sheets[k - 1 + 1], steps[k - 1]));
        let gone: nat = if recycles(&prev, dt) {
            1
        } else {
            0
        };
        let dropped = before + gone;
        assert(speed * elapsed(steps) == speed * elapsed(shorter) + dt * speed) by (nonlinear_arith)
            requires
                elapsed(steps) == elapsed(shorter) + dt,
        ;
        assert(dropped * width == before * width + gone * width) by (nonlinear_arith)
            requires
                dropped == before + gone,
        ;
        assert(0 <= before * width) by (nonlinear_arith)
            requires
                0 <= before,
                0 < width,
        ;
        if start - speed * elapsed(steps) + width < 1000 * sheets[0].config.x {
            if before == 0 {
                assert(recycles(&prev, dt));
            }
            assert(dropped >= 1);
            assert(width <= dropped * width) by (nonlinear_arith)
                requires
                    1 <= dropped,
                    0 < width,
            ;
            assert forall|i: int| 0 <= i < last.sheet@.len() implies (#[trigger] last.sheet@[i]).x
                >= start - speed * elapsed(steps) + width by {
                assert(last.sheet@[i].x == last.sheet@[0].x + i * width);
                assert(0 <= i * width) by (nonlinear_arith)
                    requires
                        0 <= i,
                        0 < width,
                ;
            }
        }
        dropped
    }
}

} // verus!
