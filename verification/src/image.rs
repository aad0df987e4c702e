//! An `Image` is an immutable snapshot of the 5x5 brightness grid that
//! the display driver renders: one value in `0..=9` per cell, copied by
//! value when a new frame is installed.

use vstd::prelude::*;

verus! {

/// Largest brightness level a cell can hold.
pub const MAX_BRIGHTNESS: u8 = 9;

/// A fixed 5x5 grid of brightness values, each in `0..=MAX_BRIGHTNESS`.
/// Immutable once constructed; it has no identity beyond its contents.
#[derive(Clone, Copy, PartialEq, Eq, Debug)]
pub struct Image {
    rows: [[u8; 5]; 5],
}

impl Image {
    /// Brightness of the cell at row `r`, column `c`.
    pub closed spec fn at(self, r: int, c: int) -> u8 {
        self.rows[r][c]
    }

    /// Every cell holds a legal brightness level.
    pub open spec fn wf(self) -> bool {
        forall|r: int, c: int|
            0 <= r < 5 && 0 <= c < 5 ==> #[trigger] self.at(r, c) <= MAX_BRIGHTNESS
    }

    /// Wraps a grid of brightness values as an `Image`.
    pub fn new(rows: [[u8; 5]; 5]) -> (img: Image)
        requires
            forall|r: int, c: int| 0 <= r < 5 && 0 <= c < 5 ==> rows[r][c] <= MAX_BRIGHTNESS,
        ensures
            img.wf(),
            forall|r: int, c: int|
                0 <= r < 5 && 0 <= c < 5 ==> #[trigger] img.at(r, c) == rows[r][c],
    {
        Image { rows }
    }

    /// The all-dark image: what the matrix shows before any frame has
    /// been installed.
    pub fn blank() -> (img: Image)
        ensures
            img.wf(),
            img == uniform_image(0),
            forall|r: int, c: int| 0 <= r < 5 && 0 <= c < 5 ==> #[trigger] img.at(r, c) == 0,
    {
        square_image(0)
    }

    /// Reads one cell.
    pub fn get(&self, r: usize, c: usize) -> (b: u8)
        requires
            r < 5,
            c < 5,
        ensures
            b == self.at(r as int, c as int),
    {
        self.rows[r][c]
    }
}

/// The concentric frame as a value: border ring at `b`, inner ring at
/// `b1`, centre at `b2` — cell by cell, `pattern_cell(b, b1, b2, r, c)`.
pub closed spec fn concentric_image(b: u8, b1: u8, b2: u8) -> Image {
    Image {
        rows: [
            [b, b, b, b, b],
            [b, b1, b1, b1, b],
            [b, b1, b2, b1, b],
            [b, b1, b1, b1, b],
            [b, b, b, b, b],
        ],
    }
}

/// The image whose every cell holds brightness `b`.
pub open spec fn uniform_image(b: u8) -> Image {
    concentric_image(b, b, b)
}

/// Every cell of the concentric frame holds what the pattern assigns it.
pub broadcast proof fn lemma_concentric_image_at(b: u8, b1: u8, b2: u8, r: int, c: int)
    requires
        0 <= r < 5,
        0 <= c < 5,
    ensures
        #[trigger] concentric_image(b, b1, b2).at(r, c) == pattern_cell(b, b1, b2, r, c),
{
}

/// At legal brightness levels the concentric frame is well-formed.
pub proof fn lemma_concentric_image_wf(b: u8, b1: u8, b2: u8)
    requires
        b <= MAX_BRIGHTNESS,
        b1 <= MAX_BRIGHTNESS,
        b2 <= MAX_BRIGHTNESS,
    ensures
        concentric_image(b, b1, b2).wf(),
{
    assert forall|r: int, c: int| 0 <= r < 5 && 0 <= c < 5 implies #[trigger] concentric_image(
        b,
        b1,
        b2,
    ).at(r, c) <= MAX_BRIGHTNESS by {
        lemma_concentric_image_at(b, b1, b2, r, c);
    }
}

/// An image has no identity beyond its contents: two images whose cells
/// agree are the same image.
pub proof fn lemma_image_ext(a: Image, b: Image)
    requires
        forall|r: int, c: int|
            0 <= r < 5 && 0 <= c < 5 ==> #[trigger] a.at(r, c) == b.at(r, c),
    ensures
        a == b,
{
    broadcast use vstd::array::group_array_axioms;

    assert forall|r: int| 0 <= r < 5 implies a.rows[r] == b.rows[r] by {
        assert forall|c: int| 0 <= c < 5 implies a.rows[r][c] == b.rows[r][c] by {
            assert(a.at(r, c) == b.at(r, c));
        }
        assert(a.rows[r] =~= b.rows[r]);
    }
    assert(a.rows =~= b.rows);
}

/// Brightness that the concentric frame pattern assigns to the cell at
/// row `r`, column `c`: the border ring holds `b`, the centre cell `b2`,
/// and the inner ring between them `b1`.
pub open spec fn pattern_cell(b: u8, b1: u8, b2: u8, r: int, c: int) -> u8 {
    if r == 0 || r == 4 || c == 0 || c == 4 {
        b
    } else if r == 2 && c == 2 {
        b2
    } else {
        b1
    }
}

/// Builds the concentric frame: border at `b`, inner ring at `b1`,
/// centre at `b2`.
pub fn create_image(b: u8, b1: u8, b2: u8) -> (img: Image)
    requires
        b <= MAX_BRIGHTNESS,
        b1 <= MAX_BRIGHTNESS,
        b2 <= MAX_BRIGHTNESS,
    ensures
        img.wf(),
        img == concentric_image(b, b1, b2),
        forall|r: int, c: int|
            0 <= r < 5 && 0 <= c < 5 ==> #[trigger] img.at(r, c) == pattern_cell(b, b1, b2, r, c),
{
    let rows: [[u8; 5]; 5] = [
        [b, b, b, b, b],
        [b, b1, b1, b1, b],
        [b, b1, b2, b1, b],
        [b, b1, b1, b1, b],
        [b, b, b, b, b],
    ];
    assert(forall|r: int, c: int|
        0 <= r < 5 && 0 <= c < 5 ==> rows[r][c] == pattern_cell(b, b1, b2, r, c));
    let img = Image::new(rows);
    proof {
        assert forall|r: int, c: int| 0 <= r < 5 && 0 <= c < 5 implies #[trigger] img.at(r, c)
            == concentric_image(b, b1, b2).at(r, c) by {
            lemma_concentric_image_at(b, b1, b2, r, c);
        }
        lemma_image_ext(img, concentric_image(b, b1, b2));
    }
    img
}

/// Builds the uniform frame the animation shows: every cell at `b`.
pub fn square_image(b: u8) -> (img: Image)
    requires
        b <= MAX_BRIGHTNESS,
    ensures
        img.wf(),
        img == uniform_image(b),
        forall|r: int, c: int|
            0 <= r < 5 && 0 <= c < 5 ==> #[trigger] img.at(r, c) == b,
{
    create_image(b, b, b)
}

} // verus!
