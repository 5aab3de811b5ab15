//! The layout configuration: a rectangle on screen together with the
//! timing parameters shared by everything drawn inside it.

use vstd::prelude::*;

verus! {

/// Largest magnitude of any coordinate or extent of a layout.
pub const MAX_EXTENT: i64 = 1_000_000_000;

/// Largest subdivision depth a layout may ask for.
pub const MAX_DEPTH: u32 = 20;

/// Denominator of the fractions handed to the splitting functions: a
/// fraction `f` stands for `f / 1000`.
pub const PER_MILLE: i64 = 1000;

/// Number of position steps in one layout unit.
pub const FINE: i64 = 1000;

/// The part `fraction / 1000` of `total`, rounded down.
pub open spec fn share(total: int, fraction: int) -> int {
    total * fraction / 1000
}

/// Height of one staff cell (the layout's height divided by its number of
/// lines), in thousandths of a unit.
pub open spec fn cell_height(height: int, lines: int) -> int {
    1000 * height / lines
}

/// Width reserved for a note: one and a half staff cells, in thousandths of
/// a unit.
pub open spec fn note_span(height: int, lines: int) -> int {
    3 * cell_height(height, lines) / 2
}

/// A share of a non-negative total lies between nothing and the total.
pub proof fn lemma_share_bounds(total: int, fraction: int)
    requires
        0 <= total,
        0 <= fraction <= 1000,
    ensures
        0 <= share(total, fraction) <= total,
        0 <= total * fraction <= total * 1000,
{
    assert(0 <= total * fraction <= total * 1000) by (nonlinear_arith)
        requires
            0 <= total,
            0 <= fraction <= 1000,
    ;
}

/// Twice a share of at most a half is no more than the total.
pub proof fn lemma_share_half(total: int, fraction: int)
    requires
        0 <= total,
        0 <= fraction <= 500,
    ensures
        2 * share(total, fraction) <= total,
{
    assert(2 * (total * fraction / 1000) <= total) by (nonlinear_arith)
        requires
            0 <= total,
            0 <= fraction <= 500,
    ;
}

/// Computes `share(total, fraction)`.
pub fn portion(total: i64, fraction: i64) -> (part: i64)
    requires
        0 <= total <= 2 * MAX_EXTENT,
        0 <= fraction <= PER_MILLE,
    ensures
        part == share(total as int, fraction as int),
        0 <= part <= total,
{
    proof {
        lemma_share_bounds(total as int, fraction as int);
    }
    total * fraction / PER_MILLE
}

/// The layout of a sheet. A plain value: splitting and padding give new
/// layouts and leave the one they start from as it is.
#[derive(Clone, Copy, Debug, PartialEq, Eq, Structural)]
pub struct Config {
    /// Width of the rectangle, in units.
    pub width: i64,
    /// Height of the rectangle, in units.
    pub height: i64,
    /// Width of one measure, in units.
    pub measure_size: i64,
    /// Units by which the measures move left in one second.
    pub speed: i64,
    /// Number of staff lines.
    pub lines: i64,
    /// Left edge of the rectangle.
    pub x: i64,
    /// Upper edge of the rectangle.
    pub y: i64,
    /// Subdivision depth of the shortest note: a measure holds at most
    /// `2^smallest_note` notes.
    pub smallest_note: u32,
}

impl Config {
    /// The rectangle has non-negative extents and lies within the square of
    /// coordinates from `-MAX_EXTENT` to `MAX_EXTENT`.
    pub open spec fn in_bounds(&self) -> bool {
        &&& 0 <= self.width
        &&& 0 <= self.height
        &&& -MAX_EXTENT <= self.x
        &&& -MAX_EXTENT <= self.y
        &&& self.x + self.width <= MAX_EXTENT
        &&& self.y + self.height <= MAX_EXTENT
    }

    /// What a sheet needs of its layout: a rectangle in bounds, a positive
    /// measure size and speed, at least two staff lines, a bounded
    /// subdivision depth, and room for a note inside a measure.
    pub open spec fn valid(&self) -> bool {
        &&& self.in_bounds()
        &&& 0 < self.measure_size <= MAX_EXTENT
        &&& 0 < self.speed <= MAX_EXTENT
        &&& 2 <= self.lines <= MAX_EXTENT
        &&& self.smallest_note <= MAX_DEPTH
        &&& note_span(self.height as int, self.lines as int) <= 1000 * self.measure_size
    }

    /// The layout of a square staff of five lines.
    pub fn default() -> (c: Config)
        ensures
            c == (Config {
                width: 1000,
                height: 1000,
                measure_size: 400,
                speed: 500,
                lines: 5,
                x: 0,
                y: 0,
                smallest_note: 3,
            }),
            c.valid(),
    {
        Config {
            width: 1000,
            height: 1000,
            measure_size: 400,
            speed: 500,
            lines: 5,
            x: 0,
            y: 0,
            smallest_note: 3,
        }
    }

    /// A layout for a narrow staff: a fifth as high as the default one, and
    /// slower.
    pub fn small() -> (c: Config)
        ensures
            c == (Config {
                width: 1000,
                height: 200,
                measure_size: 400,
                speed: 400,
                lines: 5,
                x: 0,
                y: 0,
                smallest_note: 3,
            }),
            c.valid(),
    {
        Config {
            width: 1000,
            height: 200,
            measure_size: 400,
            speed: 400,
            lines: 5,
            x: 0,
            y: 0,
            smallest_note: 3,
        }
    }

    /// Whether the rectangle is in bounds.
    pub fn fits(&self) -> (ok: bool)
        ensures
            ok == self.in_bounds(),
    {
        0 <= self.width && 0 <= self.height && -MAX_EXTENT <= self.x && -MAX_EXTENT <= self.y
            && self.x <= MAX_EXTENT && self.width <= MAX_EXTENT - self.x && self.y <= MAX_EXTENT
            && self.height <= MAX_EXTENT - self.y
    }

    /// Whether the layout is one a sheet can be made for.
    pub fn is_valid(&self) -> (ok: bool)
        ensures
            ok == self.valid(),
    {
        if !self.fits() || self.measure_size <= 0 || self.measure_size > MAX_EXTENT || self.speed
            <= 0 || self.speed > MAX_EXTENT || self.lines < 2 || self.lines > MAX_EXTENT
            || self.smallest_note > MAX_DEPTH {
            return false;
        }
        3 * self.cell() / 2 <= FINE * self.measure_size
    }

    /// Computes the height of one staff cell, in thousandths of a unit.
    pub fn cell(&self) -> (cell: i64)
        requires
            self.in_bounds(),
            1 <= self.lines,
        ensures
            cell == cell_height(self.height as int, self.lines as int),
            0 <= cell <= 1000 * self.height,
    {
        let total: i64 = FINE * self.height;
        proof {
            assert(0 <= total / self.lines <= total) by (nonlinear_arith)
                requires
                    0 <= total,
                    1 <= self.lines,
            ;
        }
        total / self.lines
    }

    /// Splits the rectangle into an upper and a lower part. `padding` (per
    /// mille of the height) is left free between them; `perc` (per mille of
    /// what remains) goes to the upper part and the rest to the lower one.
    pub fn split_vert(&self, perc: i64, padding: i64) -> (parts: (Config, Config))
        requires
            self.in_bounds(),
            0 <= perc <= PER_MILLE,
            0 <= padding <= PER_MILLE,
        ensures
            ({
                let gap = share(self.height as int, padding as int);
                let upper = share(self.height - gap, perc as int);
                &&& parts.0 == (Config { height: upper as i64, ..*self })
                &&& parts.1 == (Config {
                    height: (self.height - gap - upper) as i64,
                    y: (self.y + upper + gap) as i64,
                    ..*self
                })
                &&& 0 <= gap <= self.height
                &&& 0 <= upper <= self.height - gap
            }),
            parts.0.in_bounds(),
            parts.1.in_bounds(),
    {
        let gap: i64 = portion(self.height, padding);
        let rest: i64 = self.height - gap;
        let upper: i64 = portion(rest, perc);
        let lower: i64 = rest - upper;
        let mut c1 = *self;
        let mut c2 = *self;
        c1.height = upper;
        c2.height = lower;
        c2.y = self.y + upper + gap;
        (c1, c2)
    }

    /// Splits the rectangle into a left and a right part. `padding` (per
    /// mille of the width) is left free between them; `perc` (per mille of
    /// what remains) goes to the left part and the rest to the right one.
    pub fn split_hor(&self, perc: i64, padding: i64) -> (parts: (Config, Config))
        requires
            self.in_bounds(),
            0 <= perc <= PER_MILLE,
            0 <= padding <= PER_MILLE,
        ensures
            ({
                let gap = share(self.width as int, padding as int);
                let left = share(self.width - gap, perc as int);
                &&& parts.0 == (Config { width: left as i64, ..*self })
                &&& parts.1 == (Config {
                    width: (self.width - gap - left) as i64,
                    x: (self.x + left + gap) as i64,
                    ..*self
                })
                &&& 0 <= gap <= self.width
                &&& 0 <= left <= self.width - gap
            }),
            parts.0.in_bounds(),
            parts.1.in_bounds(),
    {
        let gap: i64 = portion(self.width, padding);
        let rest: i64 = self.width - gap;
        let left: i64 = portion(rest, perc);
        let right: i64 = rest - left;
        let mut c1 = *self;
        let mut c2 = *self;
        c1.width = left;
        c2.width = right;
        c2.x = self.x + left + gap;
        (c1, c2)
    }

    /// Insets the rectangle on all four sides: by `x_padding` per mille of
    /// its width on the left and on the right, and by `y_padding` per mille
    /// of its height above and below. With more than half of an extent
    /// taken on either side nothing is left of it, and the extent that
    /// comes out is negative.
    pub fn with_padding(&self, x_padding: i64, y_padding: i64) -> (out: Config)
        requires
            self.in_bounds(),
            0 <= x_padding <= PER_MILLE,
            0 <= y_padding <= PER_MILLE,
        ensures
            ({
                let x_pad = share(self.width as int, x_padding as int);
                let y_pad = share(self.height as int, y_padding as int);
                out == (Config {
                    x: (self.x + x_pad) as i64,
                    y: (self.y + y_pad) as i64,
                    width: (self.width - 2 * x_pad) as i64,
                    height: (self.height - 2 * y_pad) as i64,
                    ..*self
                })
            }),
            x_padding <= 500 && y_padding <= 500 ==> out.in_bounds(),
    {
        let x_pad: i64 = portion(self.width, x_padding);
        let y_pad: i64 = portion(self.height, y_padding);
        proof {
            if x_padding <= 500 {
                lemma_share_half(self.width as int, x_padding as int);
            }
            if y_padding <= 500 {
                lemma_share_half(self.height as int, y_padding as int);
            }
        }
        let mut out = *self;
        out.x = out.x + x_pad;
        out.y = out.y + y_pad;
        out.width = out.width - 2 * x_pad;
        out.height = out.height - 2 * y_pad;
        out
    }

    /// The rectangle as left edge, upper edge, width and height.
    pub fn as_dims(&self) -> (dims: [i64; 4])
        ensures
            dims@ == seq![self.x, self.y, self.width, self.height],
    {
        let dims: [i64; 4] = [self.x, self.y, self.width, self.height];
        assert(dims@ =~= seq![self.x, self.y, self.width, self.height]);
        dims
    }

    /// The factors, per mille, by which the layout has to be scaled in
    /// either direction to fill a window of the given size.
    pub fn scale_to(&self, width: i64, height: i64) -> (factors: (i64, i64))
        requires
            0 < self.width,
            0 < self.height,
            0 <= width <= MAX_EXTENT,
            0 <= height <= MAX_EXTENT,
        ensures
            factors.0 == 1000 * width / (self.width as int),
            factors.1 == 1000 * height / (self.height as int),
    {
        let wide: i64 = FINE * width;
        let high: i64 = FINE * height;
        proof {
            assert(0 <= wide / self.width <= wide) by (nonlinear_arith)
                requires
                    0 <= wide,
                    0 < self.width,
            ;
            assert(0 <= high / self.height <= high) by (nonlinear_arith)
                requires
                    0 <= high,
                    0 < self.height,
            ;
        }
        (wide / self.width, high / self.height)
    }

    /// Height of staff line `line`, counted from the top, below the upper
    /// edge, in thousandths of a unit: the lines divide the height evenly,
    /// the first on the upper edge and the last on the lower one.
    pub fn line_y(&self, line: i64) -> (y: i64)
        requires
            self.in_bounds(),
            2 <= self.lines,
            0 <= line < self.lines,
        ensures
            y == line * (1000 * self.height) / (self.lines - 1),
            0 <= y <= 1000 * self.height,
            line == 0 ==> y == 0,
            line == self.lines - 1 ==> y == 1000 * self.height,
    {
        let total: i128 = 1000 * (self.height as i128);
        let gaps: i128 = self.lines as i128 - 1;
        proof {
            assert(0 <= line * total <= gaps * total) by (nonlinear_arith)
                requires
                    0 <= line <= gaps,
                    0 <= total,
            ;
            assert(line * total <= 0x7fff_ffff_ffff_ffff * 0x7fff_ffff_ffff_ffff) by (nonlinear_arith)
                requires
                    0 <= line <= 0x7fff_ffff_ffff_ffff,
                    0 <= total <= 0x7fff_ffff_ffff_ffff,
            ;
            assert(0 <= (line * total) / (gaps as int) <= total) by (nonlinear_arith)
                requires
                    0 <= line * total <= gaps * total,
                    0 < gaps,
            ;
            assert((gaps * total) / (gaps as int) == total) by (nonlinear_arith)
                requires
                    0 < gaps,
            ;
            assert(0 * total == 0);
        }
        let y: i128 = (line as i128) * total / gaps;
        y as i64
    }
}

} // verus!
