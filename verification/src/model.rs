//! The picture: a grid of five by five coloured squares that is its own
//! mirror image, and the way it is drawn.
//!
//! Squares are addressed by column and row. Only the left three columns are
//! painted directly; painting a square paints its mirror image in the same
//! step, so the grid is symmetric about its middle column at all times.
//!
//! A picture is drawn with a white border of half a square on every side, so
//! its side is six squares long.

use vstd::prelude::*;
use vstd::arithmetic::div_mod::lemma_div_multiples_vanish_quotient;
use crate::border::{border_end, border_fits, lemma_border_end_exact, upper_border, EXACT_LENGTH};
use crate::color::{white, Color};
use crate::error::PaintError;
use crate::raster::{image_dimensions, image_pixels, RenderedImage};

verus! {

/// Squares per row and per column of a picture.
pub const PAINTED_SQUARES_IN_GITHUB_PFP: u32 = 5;

/// Columns that are painted directly: the left two and the middle one.
pub const HORIZONTAL_TO_GITHUB_PFP: u32 = 3;

/// Side of a drawn picture in squares: five squares and two half-square borders.
const SQUARES_IN_GITHUB_PFP: u32 = 6;

/// Where the square at `column` and `row` lies in the sequence of squares:
/// columns follow each other, each with its five rows from the top.
pub open spec fn cell_index(column: int, row: int) -> int {
    column * 5 + row
}

/// Whether `cells` is a grid of 25 squares in which every square has the
/// colour of the square opposite to it in the same row.
pub open spec fn is_mirrored(cells: Seq<Color>) -> bool {
    &&& cells.len() == 25
    &&& forall|column: int, row: int|
        0 <= column < 5 && 0 <= row < 5 ==> #[trigger] cells[cell_index(column, row)]
            == cells[cell_index(4 - column, row)]
}

/// The grid in which every square is white.
pub open spec fn blank_cells() -> Seq<Color> {
    Seq::new(25, |i: int| white())
}

/// `cells` after the square at `column` and `row` and its mirror image have
/// been given `color`.
pub open spec fn painted(cells: Seq<Color>, column: int, row: int, color: Color) -> Seq<Color> {
    cells.update(cell_index(column, row), color).update(cell_index(4 - column, row), color)
}

/// The colour that a square is painted with: the one given, or else the default.
pub open spec fn resolved_color(given: Option<Color>, default_color: Option<Color>) -> Option<
    Color,
> {
    if given is Some {
        given
    } else {
        default_color
    }
}

/// How painting at `column` ends for a picture with the given default colour:
/// for the two mirrored columns and everything beyond it fails as invalid
/// input, whatever the colour; for the left three columns it fails for want
/// of a colour when there is none, and succeeds otherwise.
pub open spec fn paint_outcome(
    default_color: Option<Color>,
    column: int,
    given: Option<Color>,
) -> Result<(), PaintError> {
    if column > 2 {
        Err(PaintError::InvalidInput)
    } else if resolved_color(given, default_color) is None {
        Err(PaintError::MissingColor)
    } else {
        Ok(())
    }
}

/// A paint call that succeeds: a column of the left three, a row, a colour.
pub type Stroke = (int, int, Color);

/// Whether every stroke addresses a square of the left three columns.
pub open spec fn valid_strokes(strokes: Seq<Stroke>) -> bool {
    forall|i: int|
        0 <= i < strokes.len() ==> 0 <= (#[trigger] strokes[i]).0 <= 2 && 0 <= strokes[i].1 < 5
}

/// `cells` after the strokes have been painted one after the other.
pub open spec fn paint_all(cells: Seq<Color>, strokes: Seq<Stroke>) -> Seq<Color>
    decreases strokes.len(),
{
    if strokes.len() == 0 {
        cells
    } else {
        let last = strokes.last();
        painted(paint_all(cells, strokes.drop_last()), last.0, last.1, last.2)
    }
}

/// Whether the pixel coordinate `v` lies in the border of a picture with
/// squares of length `s`: in the near border up to and including half a
/// square, or in the far border from `border_end(s)` on.
pub open spec fn in_border(v: int, s: nat) -> bool {
    v <= s / 2 || border_end(s) <= v
}

/// The column (or row) of squares that the pixel coordinate `v` falls into.
pub open spec fn grid_coordinate(v: int, s: nat) -> int {
    (v - s / 2) / (s as int)
}

/// The colour of the pixel at `(x, y)` when `cells` is drawn with squares of
/// length `s`: white in the border, and otherwise the colour of the square
/// that the pixel falls into.
pub open spec fn pixel_color(cells: Seq<Color>, x: int, y: int, s: nat) -> Color {
    if in_border(x, s) || in_border(y, s) {
        white()
    } else {
        cells[cell_index(grid_coordinate(x, s), grid_coordinate(y, s))]
    }
}

/// Whether the pixel at `(x, y)` of a picture with squares of length `s` is on
/// the grid: in the border, or in one of the five columns and five rows.
pub open spec fn on_grid(x: int, y: int, s: nat) -> bool {
    !in_border(x, s) && !in_border(y, s) ==> grid_coordinate(x, s) < 5 && grid_coordinate(y, s)
        < 5
}

/// Whether a picture can be drawn with squares of length `s`: the length is
/// positive, the side of six squares fits `u32`, the three channels of all
/// pixels fit one allocation, and the content area is at most five squares wide.
pub open spec fn renderable(s: nat) -> bool {
    &&& 0 < s
    &&& 6 * s <= u32::MAX
    &&& 108 * s * s <= isize::MAX
    &&& border_fits(s)
}

/// Computes `cell_index`: the one place where a column and a row become a
/// place in the array of squares.
fn index_of(column: usize, row: usize) -> (index: usize)
    requires
        column < 5,
        row < 5,
    ensures
        index == cell_index(column as int, row as int),
        index < 25,
{
    let rows: usize = PAINTED_SQUARES_IN_GITHUB_PFP as usize;
    column * rows + row
}

/// A picture: 25 coloured squares, symmetric about the middle column, and
/// the colour to paint with when none is given.
pub struct GithubProfilePicture {
    positions: [Color; 25],
    default_color: Option<Color>,
}

pub type GhPfp = GithubProfilePicture;

impl GithubProfilePicture {
    #[verifier::type_invariant]
    spec fn symmetric(self) -> bool {
        is_mirrored(self.positions@)
    }

    /// The colours of the 25 squares, the square at column `c` and row `r` at
    /// `cell_index(c, r)`.
    pub closed spec fn cells(&self) -> Seq<Color> {
        self.positions@
    }

    /// The colour used when a square is painted without one.
    pub closed spec fn default_color(&self) -> Option<Color> {
        self.default_color
    }

    /// A picture with every square white.
    pub fn new(default_color: Option<Color>) -> (picture: Self)
        ensures
            picture.cells() == blank_cells(),
            picture.default_color() == default_color,
            is_mirrored(picture.cells()),
    {
        let picture = Self { positions: [Color::white();25], default_color };
        picture
    }

    /// Paints the square at `position`, a column and a row, and its mirror
    /// image, with `color` or else with the default colour.
    ///
    /// Fails, leaving the picture as it was, when the column is not one of
    /// the left three, and otherwise when there is no colour to paint with.
    /// In one of the left three columns the row must be one of the five.
    pub fn set_square(&mut self, position: (usize, usize), color: Option<Color>) -> (res: Result<
        (),
        PaintError,
    >)
        requires
            position.0 <= 2 ==> position.1 < 5,
        ensures
            res == paint_outcome(old(self).default_color(), position.0 as int, color),
            res is Ok ==> final(self).cells() == painted(
                old(self).cells(),
                position.0 as int,
                position.1 as int,
                resolved_color(color, old(self).default_color())->0,
            ),
            res is Err ==> final(self).cells() == old(self).cells(),
            final(self).default_color() == old(self).default_color(),
            is_mirrored(final(self).cells()),
    {
        proof {
            use_type_invariant(&*self);
        }
        let (x, y) = position;
        if x > 2 {
            return Err(PaintError::InvalidInput);
        }

        let color = match color {
            Some(color) => color,
            None => match self.default_color {
                Some(color) => color,
                None => return Err(PaintError::MissingColor),
            },
        };
        let mut positions = self.positions;
        positions[index_of(x, y)] = color;
        let x: usize = PAINTED_SQUARES_IN_GITHUB_PFP as usize - x - 1;
        positions[index_of(x, y)] = color;
        proof {
            lemma_painted_is_mirrored(self.positions@, position.0 as int, y as int, color);
        }
        self.positions = positions;

        Ok(())
    }

    /// The colour of the square at `position`, a column and a row. Like
    /// every picture, this one has 25 squares and is symmetric.
    pub fn get_square(&self, position: (usize, usize)) -> (color: Color)
        requires
            position.0 < 5,
            position.1 < 5,
        ensures
            color == self.cells()[cell_index(position.0 as int, position.1 as int)],
            is_mirrored(self.cells()),
    {
        proof {
            use_type_invariant(self);
        }
        self.positions[index_of(position.0, position.1)]
    }

    /// The colour of the pixel at `position` when the picture is drawn with
    /// squares of length `square_length`. The pixel must be one of the border
    /// or of the 25 squares, as every pixel is when `border_fits`.
    pub fn get_corresponding_color(&self, position: (u32, u32), square_length: u32) -> (color:
        Color)
        requires
            on_grid(position.0 as int, position.1 as int, square_length as nat),
        ensures
            color == pixel_color(
                self.cells(),
                position.0 as int,
                position.1 as int,
                square_length as nat,
            ),
            is_mirrored(self.cells()),
    {
        proof {
            use_type_invariant(self);
        }
        let (x, y) = position;
        let half: u32 = square_length / 2;
        let end: u32 = upper_border(square_length);
        if x <= half || end <= x || y <= half || end <= y {
            return Color::white();
        }
        proof {
            if square_length == 0 {
                lemma_border_end_exact(0);
            }
            lemma_grid_coordinate_from(x as int, square_length as nat);
            lemma_grid_coordinate_from(y as int, square_length as nat);
        }
        let column: u32 = (x - half) / square_length;
        let row: u32 = (y - half) / square_length;
        self.positions[index_of(column as usize, row as usize)]
    }

    /// Draws the picture with squares of length `square_length`: a raster of
    /// six squares by six in which every pixel has its `pixel_color`.
    pub fn to_image(&self, square_length: u32) -> (img: RenderedImage)
        requires
            renderable(square_length as nat),
        ensures
            is_mirrored(self.cells()),
            image_dimensions(img) == (
                (6 * square_length) as u32,
                (6 * square_length) as u32,
            ),
            forall|x: int, y: int|
                0 <= x < 6 * square_length && 0 <= y < 6 * square_length
                    ==> #[trigger] image_pixels(img)[(x, y)] == pixel_color(
                    self.cells(),
                    x,
                    y,
                    square_length as nat,
                ),
    {
        proof {
            use_type_invariant(self);
        }
        let total_size_xy: u32 = square_length * SQUARES_IN_GITHUB_PFP;
        assert(3 * total_size_xy * total_size_xy == 108 * square_length * square_length)
            by (nonlinear_arith)
            requires
                total_size_xy == 6 * square_length,
        ;
        let mut image = RenderedImage::blank(total_size_xy, total_size_xy);
        let mut y: u32 = 0;
        while y < total_size_xy
            invariant
                y <= total_size_xy,
                border_fits(square_length as nat),
                image_dimensions(image) == (total_size_xy, total_size_xy),
                forall|px: int, py: int|
                    0 <= px < total_size_xy && 0 <= py < y ==> #[trigger] image_pixels(image)[(
                        px,
                        py,
                    )] == pixel_color(self.cells(), px, py, square_length as nat),
            decreases total_size_xy - y,
        {
            let mut x: u32 = 0;
            while x < total_size_xy
                invariant
                    x <= total_size_xy,
                    y < total_size_xy,
                    border_fits(square_length as nat),
                    image_dimensions(image) == (total_size_xy, total_size_xy),
                    forall|px: int, py: int|
                        0 <= px < total_size_xy && 0 <= py < y ==> #[trigger] image_pixels(
                            image,
                        )[(px, py)] == pixel_color(self.cells(), px, py, square_length as nat),
                    forall|px: int|
                        0 <= px < x ==> #[trigger] image_pixels(image)[(px, y as int)]
                            == pixel_color(self.cells(), px, y as int, square_length as nat),
                decreases total_size_xy - x,
            {
                proof {
                    lemma_border_fits_on_grid(x as int, y as int, square_length as nat);
                }
                let color = self.get_corresponding_color((x, y), square_length);
                image.put(x, y, color);
                x += 1;
            }
            y += 1;
        }
        image
    }
}

/// Whether `square_length` is a length that a picture can be drawn with.
pub fn is_renderable(square_length: u32) -> (ok: bool)
    ensures
        ok == renderable(square_length as nat),
{
    if square_length == 0 || square_length > u32::MAX / 6 {
        return false;
    }
    let s: u128 = square_length as u128;
    assert(108 * s * s <= 108 * 0x1_0000_0000 * 0x1_0000_0000) by (nonlinear_arith)
        requires
            s <= 0x1_0000_0000,
    ;
    if 108 * s * s > isize::MAX as u128 {
        return false;
    }
    upper_border(square_length) as u64 <= 5 * (square_length as u64) + (square_length as u64) / 2
}

/// Painting a square of the left three columns keeps a symmetric grid symmetric.
pub proof fn lemma_painted_is_mirrored(cells: Seq<Color>, column: int, row: int, color: Color)
    requires
        is_mirrored(cells),
        0 <= column <= 2,
        0 <= row < 5,
    ensures
        is_mirrored(painted(cells, column, row, color)),
{
}

/// The grid of white squares is symmetric.
pub proof fn lemma_blank_is_mirrored()
    ensures
        is_mirrored(blank_cells()),
{
}

/// However many squares of the left three columns are painted, one after the
/// other, on a symmetric grid: the grid is symmetric after each of them.
pub proof fn lemma_paint_all_is_mirrored(cells: Seq<Color>, strokes: Seq<Stroke>, done: int)
    requires
        is_mirrored(cells),
        valid_strokes(strokes),
        0 <= done <= strokes.len(),
    ensures
        is_mirrored(paint_all(cells, strokes.take(done))),
    decreases done,
{
    let prefix = strokes.take(done);
    if done > 0 {
        lemma_paint_all_is_mirrored(cells, strokes, done - 1);
        assert(prefix.drop_last() =~= strokes.take(done - 1));
        lemma_painted_is_mirrored(
            paint_all(cells, prefix.drop_last()),
            prefix.last().0,
            prefix.last().1,
            prefix.last().2,
        );
    }
}

/// Painting at one of the two mirrored columns, or beyond them, fails as
/// invalid input, whatever the colour given and the default colour.
pub proof fn lemma_mirrored_column_rejected(
    default_color: Option<Color>,
    column: int,
    given: Option<Color>,
)
    requires
        column > 2,
    ensures
        paint_outcome(default_color, column, given) == Err::<(), PaintError>(
            PaintError::InvalidInput,
        ),
{
}

/// A picture whose squares all have one colour is drawn in that colour
/// everywhere but in the border, which is white.
pub proof fn lemma_uniform_picture(cells: Seq<Color>, color: Color, x: int, y: int, s: nat)
    requires
        cells.len() == 25,
        forall|i: int| 0 <= i < 25 ==> cells[i] == color,
        on_grid(x, y, s),
    ensures
        pixel_color(cells, x, y, s) == (if in_border(x, s) || in_border(y, s) {
            white()
        } else {
            color
        }),
{
    if !in_border(x, s) && !in_border(y, s) {
        lemma_grid_coordinate_from(x, s);
        lemma_grid_coordinate_from(y, s);
    }
}

/// Drawn with squares `k` times as long, an even length before, the pixel at
/// `k` times the coordinates has the colour that the pixel at the coordinates
/// had: scaling a picture up keeps what it shows. Lengths up to
/// `EXACT_LENGTH` are covered, where no rounding moves the far border.
pub proof fn lemma_scaling_keeps_colors(cells: Seq<Color>, x: int, y: int, s: nat, k: nat)
    requires
        0 < s,
        s % 2 == 0,
        1 <= k,
        k * s <= EXACT_LENGTH,
    ensures
        pixel_color(cells, k * x, k * y, k * s) == pixel_color(cells, x, y, s),
{
    lemma_scaled_coordinate(x, s, k);
    lemma_scaled_coordinate(y, s, k);
}

/// Scaling a coordinate and an even length alike keeps the coordinate in or
/// out of the border, and outside the border in its column (or row).
proof fn lemma_scaled_coordinate(v: int, s: nat, k: nat)
    requires
        0 < s,
        s % 2 == 0,
        1 <= k,
        k * s <= EXACT_LENGTH,
    ensures
        in_border(k * v, k * s) == in_border(v, s),
        !in_border(v, s) ==> grid_coordinate(k * v, k * s) == grid_coordinate(v, s),
{
    let h: int = (s / 2) as int;
    let long: nat = k * s;
    assert(s <= long && long == 2 * (k * h) && 11 * long == 2 * (11 * (k * h)) && k * (v - h) == k
        * v - k * h && k * (11 * h) == 11 * (k * h)) by (nonlinear_arith)
        requires
            long == k * s,
            s == 2 * h,
            1 <= k,
            0 < s,
    ;
    lemma_border_end_exact(s);
    lemma_border_end_exact(long);
    assert((k * v <= k * h) == (v <= h) && (k * (11 * h) <= k * v) == (11 * h <= v))
        by (nonlinear_arith)
        requires
            1 <= k,
    ;
    if !in_border(v, s) {
        lemma_div_multiples_vanish_quotient(k as int, v - h, s as int);
    }
}

/// Whatever the length of the squares, a pixel that lies within the square at
/// `column` and `row`, counted from the end of the near border, and not in the
/// border has the colour of that square.
pub proof fn lemma_pixel_in_square(
    cells: Seq<Color>,
    column: int,
    row: int,
    x: int,
    y: int,
    s: nat,
)
    requires
        0 < s,
        s / 2 + column * s <= x < s / 2 + (column + 1) * s,
        s / 2 + row * s <= y < s / 2 + (row + 1) * s,
        !in_border(x, s),
        !in_border(y, s),
    ensures
        pixel_color(cells, x, y, s) == cells[cell_index(column, row)],
{
    lemma_within_square(column, x - s / 2, s as int);
    lemma_within_square(row, y - s / 2, s as int);
}

/// A distance of at least `k` and less than `k + 1` lengths is `k` whole lengths.
proof fn lemma_within_square(k: int, d: int, s: int)
    requires
        0 < s,
        k * s <= d < (k + 1) * s,
    ensures
        d / s == k,
{
    assert(d / s == k) by (nonlinear_arith)
        requires
            0 < s,
            k * s <= d < (k + 1) * s,
    ;
}

/// A coordinate outside the border belongs to a picture with squares of
/// positive length and falls into a column (or row) that is not negative.
pub proof fn lemma_grid_coordinate_from(v: int, s: nat)
    requires
        !in_border(v, s),
    ensures
        0 < s,
        0 <= grid_coordinate(v, s),
{
    if s == 0 {
        lemma_border_end_exact(0);
    }
    let d = v - s / 2;
    assert(0 <= d / (s as int)) by (nonlinear_arith)
        requires
            0 < d,
            0 < s,
    ;
}

/// Where the content area is at most five squares wide, every pixel is on
/// the grid.
pub proof fn lemma_border_fits_on_grid(x: int, y: int, s: nat)
    requires
        border_fits(s),
    ensures
        on_grid(x, y, s),
{
    if !in_border(x, s) && !in_border(y, s) {
        lemma_grid_coordinate_bounds(x, s);
        lemma_grid_coordinate_bounds(y, s);
    }
}

/// A pixel outside the border falls into one of the five columns (or rows),
/// provided the content area is at most five squares wide.
pub proof fn lemma_grid_coordinate_bounds(v: int, s: nat)
    requires
        border_fits(s),
        !in_border(v, s),
    ensures
        0 < s,
        0 <= grid_coordinate(v, s) < 5,
{
    if s == 0 {
        lemma_border_end_exact(0);
    }
    let d = v - s / 2;
    assert(0 <= d / (s as int) < 5) by (nonlinear_arith)
        requires
            0 < d < 5 * s,
            0 < s,
    ;
}

} // verus!
