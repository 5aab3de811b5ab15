//! What a sheet knows of the note images: their pixel sizes, one per
//! subdivision depth, the scale that fits them to the staff, and where each
//! is drawn relative to its note.

use crate::config::{cell_height, Config, FINE, MAX_EXTENT};
use vstd::prelude::*;

verus! {

/// Pixel size of a note image.
#[derive(Clone, Copy, Debug, PartialEq, Eq, Structural)]
pub struct SpriteSize {
    pub width: u16,
    pub height: u16,
}

/// A rectangle in thousandths of a unit.
#[derive(Clone, Copy, Debug, PartialEq, Eq, Structural)]
pub struct Frame {
    pub x: i64,
    pub y: i64,
    pub width: i64,
    pub height: i64,
}

/// Width on screen of an image `width` pixels wide, once it is scaled by
/// `cell / base`; in thousandths of a unit.
pub open spec fn scaled_width(width: int, cell: int, base: int) -> int {
    width * cell / base
}

/// The rectangle into which the image of size `size` is drawn: shifted
/// right by a quarter of the first image's scaled width, and raised so that
/// its lower edge lies half a staff cell below the note's anchor.
pub open spec fn frame_of(size: SpriteSize, first: SpriteSize, cell: int) -> Frame {
    Frame {
        x: (scaled_width(first.width as int, cell, first.height as int) / 4) as i64,
        y: (cell / 2 - 1000 * size.height) as i64,
        width: (1000 * size.width) as i64,
        height: (1000 * size.height) as i64,
    }
}

/// The note images of a sheet. The scale of the images is the ratio
/// `cell / base`.
#[derive(Debug)]
pub struct SheetConfig {
    /// Size of the image for each subdivision depth.
    pub textures: Vec<SpriteSize>,
    /// Where the image for each subdivision depth is drawn.
    pub images: Vec<Frame>,
    /// Height of a staff cell, in thousandths of a unit.
    pub cell: i64,
    /// Pixel height of the first image.
    pub base: i64,
}

impl SheetConfig {
    /// The images are those of `config`: one per depth up to its smallest
    /// note, scaled so that the first image is one staff cell high, each
    /// with its frame.
    pub open spec fn wf(&self, config: &Config) -> bool {
        &&& self.textures@.len() == config.smallest_note + 1
        &&& self.images@.len() == self.textures@.len()
        &&& self.base == self.textures@[0].height
        &&& self.cell == cell_height(config.height as int, config.lines as int)
        &&& self.scales()
        &&& forall|d: int|
            0 <= d < self.images@.len() ==> #[trigger] self.images@[d] == frame_of(
                self.textures@[d],
                self.textures@[0],
                self.cell as int,
            )
    }

    /// The scale is a ratio of a staff cell's height, which no layout in
    /// bounds exceeds, to a positive pixel height.
    pub open spec fn scales(&self) -> bool {
        0 <= self.cell <= 2000 * MAX_EXTENT && 0 < self.base
    }

    /// Width on screen of the image for depth `size`, in thousandths of a
    /// unit.
    pub open spec fn span(&self, size: int) -> int {
        scaled_width(self.textures@[size].width as int, self.cell as int, self.base as int)
    }

    /// Fits the images of the given pixel sizes to the staff of `config`.
    pub fn new(config: &Config, textures: Vec<SpriteSize>) -> (sc: SheetConfig)
        requires
            config.valid(),
            textures@.len() == config.smallest_note + 1,
            textures@[0].height > 0,
        ensures
            sc.wf(config),
            sc.textures@ == textures@,
    {
        let cell: i64 = config.cell();
        let first: SpriteSize = textures[0];
        let base: i64 = first.height as i64;
        let shift: i64 = scale_width(first.width, cell, base) / 4;
        let half: i64 = cell / 2;
        let mut images: Vec<Frame> = Vec::new();
        let mut d: usize = 0;
        while d < textures.len()
            invariant
                d <= textures@.len(),
                images@.len() == d,
                first == textures@[0],
                0 <= cell <= 2000 * MAX_EXTENT,
                half == cell / 2,
                shift == scaled_width(first.width as int, cell as int, first.height as int) / 4,
                forall|k: int|
                    0 <= k < d ==> #[trigger] images@[k] == frame_of(
                        textures@[k],
                        first,
                        cell as int,
                    ),
            decreases textures@.len() - d,
        {
            let size: SpriteSize = textures[d];
            images.push(
                Frame {
                    x: shift,
                    y: half - FINE * (size.height as i64),
                    width: FINE * (size.width as i64),
                    height: FINE * (size.height as i64),
                },
            );
            d += 1;
        }
        SheetConfig { textures, images, cell, base }
    }

    /// Width on screen of the image for depth `size`.
    pub fn width_of(&self, size: u32) -> (w: i64)
        requires
            size < self.textures@.len(),
            self.scales(),
        ensures
            w == self.span(size as int),
            0 <= w,
    {
        scale_width(self.textures[size as usize].width, self.cell, self.base)
    }
}

/// Computes `scaled_width(width, cell, base)`.
pub fn scale_width(width: u16, cell: i64, base: i64) -> (w: i64)
    requires
        0 <= cell <= 2000 * MAX_EXTENT,
        0 < base,
    ensures
        w == scaled_width(width as int, cell as int, base as int),
        0 <= w <= width * cell,
{
    proof {
        assert(0 <= width * cell <= 65535 * (2000 * MAX_EXTENT)) by (nonlinear_arith)
            requires
                0 <= width <= 65535,
                0 <= cell <= 2000 * MAX_EXTENT,
        ;
        assert(0 <= (width * cell) / (base as int) <= width * cell) by (nonlinear_arith)
            requires
                0 <= width * cell,
                0 < base,
        ;
    }
    (width as i64) * cell / base
}

} // verus!
