//! The frame buffer: one snapshot of the grid of glyphs.

use vstd::prelude::*;
use crate::{NUM_COLS, NUM_ROWS};

verus! {

/// The glyph of a cell that shows nothing.
pub const BLANK: char = ' ';

/// The contents of a frame: `NUM_COLS` columns of `NUM_ROWS` glyphs each,
/// indexed by column first.
pub type Grid = Seq<Seq<char>>;

/// Whether `grid` has the dimensions of the playing field.
pub open spec fn well_shaped(grid: Grid) -> bool {
    &&& grid.len() == NUM_COLS
    &&& forall|x: int| 0 <= x < NUM_COLS ==> (#[trigger] grid[x]).len() == NUM_ROWS
}

/// Whether `(x, y)` names a cell of the playing field.
pub open spec fn in_field(x: int, y: int) -> bool {
    0 <= x < NUM_COLS && 0 <= y < NUM_ROWS
}

/// The grid in which every cell is blank.
pub open spec fn blank_grid() -> Grid {
    Seq::new(NUM_COLS as nat, |x: int| Seq::new(NUM_ROWS as nat, |y: int| BLANK))
}

/// `grid` with `glyph` written at `(x, y)`; unchanged when the cell lies
/// outside the playing field.
pub open spec fn grid_put(grid: Grid, x: int, y: int, glyph: char) -> Grid {
    if in_field(x, y) {
        grid.update(x, grid[x].update(y, glyph))
    } else {
        grid
    }
}

/// The glyph that `grid` shows at `(x, y)`.
pub open spec fn glyph_at(grid: Grid, x: int, y: int) -> char {
    grid[x][y]
}

/// Writing a glyph changes the cell written to and no other, and keeps the
/// shape of the grid.
pub proof fn lemma_grid_put(grid: Grid, x: int, y: int, glyph: char)
    requires
        well_shaped(grid),
    ensures
        well_shaped(grid_put(grid, x, y, glyph)),
        forall|px: int, py: int|
            in_field(px, py) ==> #[trigger] glyph_at(grid_put(grid, x, y, glyph), px, py) == if px
                == x && py == y {
                glyph
            } else {
                glyph_at(grid, px, py)
            },
{
}

/// Two grids of the right shape that show the same glyph in every cell are
/// the same grid.
pub proof fn lemma_grids_equal(a: Grid, b: Grid)
    requires
        well_shaped(a),
        well_shaped(b),
        forall|x: int, y: int| in_field(x, y) ==> #[trigger] glyph_at(a, x, y) == glyph_at(b, x, y),
    ensures
        a == b,
{
    assert forall|x: int| 0 <= x < NUM_COLS implies a[x] =~= b[x] by {
        assert forall|y: int| 0 <= y < NUM_ROWS implies a[x][y] == b[x][y] by {
            assert(glyph_at(a, x, y) == glyph_at(b, x, y));
        }
    }
    assert(a =~= b);
}

/// A full snapshot of the playing field.
#[derive(Debug, PartialEq, Eq)]
pub struct Frame {
    cells: Vec<char>,
}

impl Frame {
    #[verifier::type_invariant]
    spec fn inv(&self) -> bool {
        self.cells@.len() == NUM_COLS * NUM_ROWS
    }

    /// The glyph stored for the cell `(x, y)`.
    pub closed spec fn glyph(&self, x: int, y: int) -> char {
        self.cells@[x * NUM_ROWS + y]
    }

    /// Reads the glyph at `(x, y)`.
    pub fn get(&self, x: usize, y: usize) -> (glyph: char)
        requires
            x < NUM_COLS,
            y < NUM_ROWS,
        ensures
            glyph == self@[x as int][y as int],
    {
        proof {
            use_type_invariant(self);
        }
        self.cells[x * NUM_ROWS + y]
    }

    /// Writes `glyph` at `(x, y)`. Coordinates outside the playing field are
    /// ignored.
    pub fn put(&mut self, x: usize, y: usize, glyph: char)
        ensures
            final(self)@ == grid_put(old(self)@, x as int, y as int, glyph),
    {
        proof {
            use_type_invariant(&*self);
        }
        if x < NUM_COLS && y < NUM_ROWS {
            self.cells[x * NUM_ROWS + y] = glyph;
        }
        assert(self@ =~~= grid_put(old(self)@, x as int, y as int, glyph));
    }
}

impl View for Frame {
    type V = Grid;

    open spec fn view(&self) -> Grid {
        Seq::new(NUM_COLS as nat, |x: int| Seq::new(NUM_ROWS as nat, |y: int| self.glyph(x, y)))
    }
}

/// A fresh frame with every cell blank.
pub fn new_frame() -> (frame: Frame)
    ensures
        frame@ == blank_grid(),
{
    let mut cells: Vec<char> = Vec::new();
    let mut i: usize = 0;
    while i < NUM_COLS * NUM_ROWS
        invariant
            i <= NUM_COLS * NUM_ROWS,
            cells@.len() == i,
            forall|k: int| 0 <= k < i ==> cells@[k] == BLANK,
        decreases NUM_COLS * NUM_ROWS - i,
    {
        cells.push(BLANK);
        i = i + 1;
    }
    let frame = Frame { cells };
    assert(frame@ =~~= blank_grid());
    frame
}

/// Something that can paint itself into a frame.
pub trait Drawable {
    /// The grid that results from painting `self` over `grid`.
    spec fn drawn(&self, grid: Grid) -> Grid;

    /// Paints `self` into `frame`, over whatever is there. Glyphs that fall
    /// outside the playing field are left out.
    fn draw(&self, frame: &mut Frame)
        ensures
            final(frame)@ == self.drawn(old(frame)@),
    ;
}

} // verus!
