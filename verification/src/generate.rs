//! Pictures by chance.
//!
//! A random picture has between four and eleven squares of its left three
//! columns painted, no square twice, in one random colour or, as a rainbow, in
//! a new random colour for every square. The random numbers come from the
//! `rand` crate: nothing is known of them but the range they were asked for,
//! so what is proved of a picture holds whatever numbers came.

use vstd::prelude::*;
use rand::rngs::ThreadRng;
use rand::Rng;
use crate::border::{border_fits, lemma_border_end_exact};
use crate::color::Color;
use crate::model::{blank_cells, is_mirrored, paint_all, valid_strokes, GhPfp, Stroke};

verus! {

/// The least number of squares painted in a random picture.
pub const MIN_SQUARES: usize = 4;

/// The greatest number of squares painted in a random picture.
pub const MAX_SQUARES: usize = 11;

/// The number of squares that can be painted directly: five in each of the
/// left three columns.
pub const PAINTABLE_SQUARES: usize = 15;

/// The length of the squares of a picture that is not scaled up.
pub const DEFAULT_SQUARE_LENGTH: u32 = 70;

/// `rand::rngs::ThreadRng`, the handle of a thread's random number generator.
#[verifier::external_type_specification]
#[verifier::external_body]
pub struct ExThreadRng(ThreadRng);

/// Whether no two strokes paint the same square.
pub open spec fn distinct_squares(strokes: Seq<Stroke>) -> bool {
    forall|i: int, j: int|
        0 <= i < j < strokes.len() ==> !((#[trigger] strokes[i]).0 == (#[trigger] strokes[j]).0
            && strokes[i].1 == strokes[j].1)
}

/// Whether all strokes have the same colour.
pub open spec fn one_color(strokes: Seq<Stroke>) -> bool {
    forall|i: int, j: int|
        0 <= i < strokes.len() && 0 <= j < strokes.len() ==> (#[trigger] strokes[i]).2 == (
        #[trigger] strokes[j]).2
}

/// Whether `strokes` is what a random picture is painted with: four to
/// eleven strokes on different squares of the left three columns, all in one
/// colour unless the picture is a rainbow.
pub open spec fn random_strokes(strokes: Seq<Stroke>, rainbow: bool) -> bool {
    &&& MIN_SQUARES <= strokes.len() <= MAX_SQUARES
    &&& valid_strokes(strokes)
    &&& distinct_squares(strokes)
    &&& !rainbow ==> one_color(strokes)
}

/// Calls `rand::Rng::gen_range` on the inclusive range from `low` to `high`,
/// which gives a number of that range.
///
/// The outside function panics on an empty range; the precondition leaves
/// those out.
#[verifier::external_body]
fn random_between(rng: &mut ThreadRng, low: usize, high: usize) -> (value: usize)
    requires
        low <= high,
    ensures
        low <= value <= high,
{
    rng.gen_range(low..=high)
}

/// Calls `rand::Rng::gen` for three bytes, which become the channels of a
/// colour. Any colour may come.
#[verifier::external_body]
fn random_color(rng: &mut ThreadRng) -> (color: Color) {
    let channels: [u8; 3] = rng.gen();
    Color { r: channels[0], g: channels[1], b: channels[2] }
}

/// The fifteen squares that can be painted, in some order: first those that
/// have been dealt, in the order in which they were, then the others.
pub struct Deck {
    squares: [usize; 15],
    dealt: usize,
}

/// Whether `squares` holds each of the numbers below fifteen once.
pub open spec fn is_shuffle(squares: Seq<usize>) -> bool {
    &&& squares.len() == 15
    &&& forall|i: int| 0 <= i < 15 ==> 0 <= #[trigger] squares[i] < 15
    &&& forall|i: int, j: int| 0 <= i < j < 15 ==> #[trigger] squares[i] != #[trigger] squares[j]
}

/// The column and the row of the square with the given number: squares are
/// numbered column by column, each column from the top.
pub open spec fn square_position(square: usize) -> (usize, usize) {
    ((square / 5) as usize, (square % 5) as usize)
}

impl Deck {
    #[verifier::type_invariant]
    spec fn shuffled(self) -> bool {
        is_shuffle(self.squares@) && self.dealt <= 15
    }

    /// The numbers of all squares in their present order.
    pub closed spec fn squares(&self) -> Seq<usize> {
        self.squares@
    }

    /// How many squares have been dealt.
    pub closed spec fn dealt(&self) -> nat {
        self.dealt as nat
    }

    /// The squares in the order of their numbers, none of them dealt.
    pub fn new() -> (deck: Deck)
        ensures
            deck.dealt() == 0,
            is_shuffle(deck.squares()),
            forall|i: int| 0 <= i < 15 ==> deck.squares()[i] == i,
    {
        let mut squares: [usize; 15] = [0;15];
        let mut filled: usize = 0;
        while filled < PAINTABLE_SQUARES
            invariant
                filled <= PAINTABLE_SQUARES,
                forall|i: int| 0 <= i < filled ==> squares@[i] == i,
            decreases PAINTABLE_SQUARES - filled,
        {
            squares[filled] = filled;
            filled += 1;
        }
        Deck { squares, dealt: 0 }
    }

    /// How many squares are left to deal. Like every deck, this one holds
    /// each square once and has dealt at most all of them.
    pub fn left(&self) -> (count: usize)
        ensures
            count == 15 - self.dealt(),
            self.dealt() <= 15,
            is_shuffle(self.squares()),
    {
        proof {
            use_type_invariant(self);
        }
        PAINTABLE_SQUARES - self.dealt
    }

    /// Deals the square that is `pick` places after the first that is left,
    /// which takes its place, and gives its column and row.
    pub fn deal(&mut self, pick: usize) -> (position: (usize, usize))
        requires
            pick < 15 - old(self).dealt(),
        ensures
            position == square_position(old(self).squares()[old(self).dealt() + pick]),
            position.0 <= 2,
            position.1 < 5,
            final(self).dealt() == old(self).dealt() + 1,
            final(self).squares() == old(self).squares().update(
                old(self).dealt() + pick,
                old(self).squares()[old(self).dealt() as int],
            ).update(
                old(self).dealt() as int,
                old(self).squares()[old(self).dealt() + pick],
            ),
            is_shuffle(final(self).squares()),
    {
        proof {
            use_type_invariant(&*self);
        }
        let first: usize = self.dealt;
        let mut squares = self.squares;
        let square: usize = squares[first + pick];
        squares[first + pick] = squares[first];
        squares[first] = square;
        self.squares = squares;
        self.dealt = first + 1;
        (square / 5, square % 5)
    }
}

/// A random picture: white but for the squares that `random_strokes` paint.
pub fn random_picture(rng: &mut ThreadRng, rainbow: bool) -> (picture: GhPfp)
    ensures
        picture.default_color() is None,
        is_mirrored(picture.cells()),
        exists|strokes: Seq<Stroke>|
            random_strokes(strokes, rainbow) && picture.cells() == paint_all(
                blank_cells(),
                strokes,
            ),
{
    let mut picture = GhPfp::new(None);
    let squares_count: usize = random_between(rng, MIN_SQUARES, MAX_SQUARES);
    let mut color: Option<Color> = None;
    let mut deck = Deck::new();

    let ghost mut strokes: Seq<Stroke> = Seq::empty();
    let mut done: usize = 0;
    while done < squares_count
        invariant
            done <= squares_count <= MAX_SQUARES,
            picture.default_color() is None,
            is_mirrored(picture.cells()),
            picture.cells() == paint_all(blank_cells(), strokes),
            strokes.len() == done,
            valid_strokes(strokes),
            deck.dealt() == done,
            is_shuffle(deck.squares()),
            forall|i: int|
                0 <= i < done ==> (#[trigger] strokes[i]).0 == square_position(
                    deck.squares()[i],
                ).0 && strokes[i].1 == square_position(deck.squares()[i]).1,
            done > 0 ==> color is Some,
            !rainbow ==> forall|i: int| 0 <= i < done ==> (#[trigger] strokes[i]).2 == color->0,
        decreases squares_count - done,
    {
        color = match color {
            None => Some(random_color(rng)),
            Some(old_color) => if rainbow {
                Some(random_color(rng))
            } else {
                Some(old_color)
            },
        };

        let pick: usize = random_between(rng, 0, deck.left() - 1);
        let position: (usize, usize) = deck.deal(pick);

        let result = picture.set_square(position, color);
        proof {
            let stroke: Stroke = (position.0 as int, position.1 as int, color->0);
            assert(strokes.push(stroke).drop_last() =~= strokes);
            strokes = strokes.push(stroke);
        }
        done += 1;
    }
    proof {
        assert(random_strokes(strokes, rainbow));
    }
    picture
}

/// The length of the squares of a picture that is scaled up `upscale` times;
/// none for zero times, which would leave nothing to draw. The content area
/// of such a picture is five squares wide.
pub fn scaled_square_length(upscale: u8) -> (length: Option<u32>)
    ensures
        upscale == 0 ==> length is None,
        upscale > 0 ==> length == Some((DEFAULT_SQUARE_LENGTH * upscale) as u32),
        length matches Some(l) ==> 0 < l && 6 * l <= u32::MAX && border_fits(l as nat),
{
    if upscale == 0 {
        return None;
    }
    let length: u32 = DEFAULT_SQUARE_LENGTH * upscale as u32;
    proof {
        lemma_border_end_exact(length as nat);
    }
    Some(length)
}

} // verus!
