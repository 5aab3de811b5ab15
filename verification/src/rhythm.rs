//! The rhythm of one measure: a binary tree that says, span by span,
//! whether a span holds one note or is halved into two shorter spans.

use rand::Rng;
use vstd::prelude::*;

verus! {

/// Number of pitches of the scale.
pub const PITCHES: usize = 7;

/// How a span of a measure is filled: by a single note of some pitch, or by
/// two halves that are filled in turn, the earlier one first.
#[derive(Debug)]
pub enum Rhythm {
    Single { pitch: usize },
    Split { first: Box<Rhythm>, second: Box<Rhythm> },
}

impl Rhythm {
    /// The tree halves no span more than `room` times in a row, and each of
    /// its pitches belongs to the scale.
    pub open spec fn fits(self, room: nat) -> bool
        decreases self,
    {
        match self {
            Rhythm::Single { pitch } => pitch < PITCHES,
            Rhythm::Split { first, second } => {
                &&& room > 0
                &&& first.fits((room - 1) as nat)
                &&& second.fits((room - 1) as nat)
            },
        }
    }

    /// Number of notes of the tree.
    pub open spec fn count(self) -> nat
        decreases self,
    {
        match self {
            Rhythm::Single { .. } => 1,
            Rhythm::Split { first, second } => first.count() + second.count(),
        }
    }

    /// Whether a coin that came up `coin` ends the subdivision of a span:
    /// the first of its two faces does, the second halves the span.
    pub fn ends_on(coin: usize) -> (ends: bool)
        ensures
            ends == (coin == 0),
    {
        coin < 1
    }

    /// Draws a rhythm for a span at subdivision depth `depth`. At the
    /// smallest note's depth the span holds one note; above it a fair coin
    /// decides between one note and two halves. Pitches are drawn uniformly
    /// from the scale.
    pub fn random(depth: u32, smallest: u32) -> (rhythm: Rhythm)
        requires
            depth <= smallest,
        ensures
            rhythm.fits((smallest - depth) as nat),
            depth == smallest ==> rhythm is Single,
        decreases smallest - depth, 1nat,
    {
        if depth == smallest {
            Rhythm::Single { pitch: draw_below(PITCHES) }
        } else {
            Rhythm::on_coin(depth, smallest, draw_below(2))
        }
    }

    /// The rhythm of a span above the smallest note's depth, once the coin
    /// has come up `coin`: on the first face a single note, whose pitch is
    /// drawn; on the other face two halves, each with a rhythm drawn for
    /// the next depth.
    pub fn on_coin(depth: u32, smallest: u32, coin: usize) -> (rhythm: Rhythm)
        requires
            depth < smallest,
        ensures
            rhythm.fits((smallest - depth) as nat),
            coin == 0 ==> rhythm is Single,
            coin != 0 ==> rhythm is Split,
            coin != 0 ==> rhythm->first.fits((smallest - depth - 1) as nat) && rhythm->second.fits(
                (smallest - depth - 1) as nat,
            ),
        decreases smallest - depth, 0nat,
    {
        if Rhythm::ends_on(coin) {
            Rhythm::Single { pitch: draw_below(PITCHES) }
        } else {
            let first = Rhythm::random(depth + 1, smallest);
            let second = Rhythm::random(depth + 1, smallest);
            Rhythm::Split { first: Box::new(first), second: Box::new(second) }
        }
    }
}

/// `rand::Rng::gen_range` on the generator that `rand::thread_rng` hands
/// out, with the lower bound 0: the value drawn is at least 0 and less than
/// `bound`. Which value it is is left open, and so is that the values
/// are spread evenly.
#[verifier::external_body]
fn draw_below(bound: usize) -> (drawn: usize)
    requires
        0 < bound,
    ensures
        drawn < bound,
{
    rand::thread_rng().gen_range(0, bound)
}

} // verus!
