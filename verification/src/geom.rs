//! Field dimensions, cell coordinates and the four headings.

use vstd::prelude::*;

verus! {

/// Width of the playing field in cells, border ring included.
pub const FIELD_XMAX: usize = 30;
/// Height of the playing field in cells, border ring included.
pub const FIELD_YMAX: usize = 20;
/// Total number of cells in the field buffer.
pub const FIELD_PIXELS: usize = FIELD_XMAX * FIELD_YMAX;
/// Length of the snake at game start.
pub const SNAKE_MIN_LEN: usize = 8;
/// Capacity of the snake body: every interior cell occupied at once.
pub const SNAKE_MAX_LEN: usize = FIELD_PIXELS - 2 * FIELD_XMAX - 2 * (FIELD_YMAX - 2);
/// Number of fruit slots.
pub const FRUITS_MAX: usize = 2;

/// One cell of the field, addressed by column `x` and row `y`.
#[derive(Clone, Copy, PartialEq, Eq, Structural, Debug)]
pub struct Cell {
    pub x: usize,
    pub y: usize,
}

/// Heading of the snake.
#[derive(Clone, Copy, PartialEq, Eq, Structural, Debug)]
pub enum Orientation {
    North,
    East,
    South,
    West,
}

/// A coordinate pair inside the field buffer, border ring included.
pub open spec fn in_field(c: Cell) -> bool {
    c.x < FIELD_XMAX && c.y < FIELD_YMAX
}

/// A coordinate pair on the outer border ring.
pub open spec fn on_border(c: Cell) -> bool {
    c.x == 0 || c.x == FIELD_XMAX - 1 || c.y == 0 || c.y == FIELD_YMAX - 1
}

/// A coordinate pair strictly inside the border ring.
pub open spec fn interior(c: Cell) -> bool {
    1 <= c.x && c.x < FIELD_XMAX - 1 && 1 <= c.y && c.y < FIELD_YMAX - 1
}

/// Linear index of a cell in the row-major field buffer.
pub open spec fn spec_index_of(c: Cell) -> int {
    c.x + c.y * FIELD_XMAX
}

/// The heading opposite to `o`.
pub open spec fn opposite(o: Orientation) -> Orientation {
    match o {
        Orientation::North => Orientation::South,
        Orientation::East => Orientation::West,
        Orientation::South => Orientation::North,
        Orientation::West => Orientation::East,
    }
}

/// The cell one unit away from `c` in direction `o`.
pub open spec fn spec_offset(o: Orientation, c: Cell) -> Cell {
    match o {
        Orientation::North => Cell { x: c.x, y: (c.y - 1) as usize },
        Orientation::East => Cell { x: (c.x + 1) as usize, y: c.y },
        Orientation::South => Cell { x: c.x, y: (c.y + 1) as usize },
        Orientation::West => Cell { x: (c.x - 1) as usize, y: c.y },
    }
}

/// Linear index of an in-field cell.
pub fn index_of(c: Cell) -> (r: usize)
    requires
        in_field(c),
    ensures
        r == spec_index_of(c),
        r < FIELD_PIXELS,
{
    c.x + c.y * FIELD_XMAX
}

/// Whether `c` lies on the outer border ring.
pub fn is_border(c: Cell) -> (r: bool)
    ensures
        r == on_border(c),
{
    c.x == 0 || c.x == FIELD_XMAX - 1 || c.y == 0 || c.y == FIELD_YMAX - 1
}

/// Whether `c` lies strictly inside the border ring.
pub fn is_interior(c: Cell) -> (r: bool)
    ensures
        r == interior(c),
{
    1 <= c.x && c.x < FIELD_XMAX - 1 && 1 <= c.y && c.y < FIELD_YMAX - 1
}

/// The cell one unit away from `c` in direction `o`.
pub fn offset(o: Orientation, c: Cell) -> (r: Cell)
    requires
        interior(c),
    ensures
        r == spec_offset(o, c),
        in_field(r),
{
    match o {
        Orientation::North => Cell { x: c.x, y: c.y - 1 },
        Orientation::East => Cell { x: c.x + 1, y: c.y },
        Orientation::South => Cell { x: c.x, y: c.y + 1 },
        Orientation::West => Cell { x: c.x - 1, y: c.y },
    }
}

/// The heading opposite to `o`.
pub fn opposite_dir(o: Orientation) -> (r: Orientation)
    ensures
        r == opposite(o),
{
    match o {
        Orientation::North => Orientation::South,
        Orientation::East => Orientation::West,
        Orientation::South => Orientation::North,
        Orientation::West => Orientation::East,
    }
}

/// A heading is never its own opposite.
pub proof fn lemma_opposite_irreflexive(o: Orientation)
    ensures
        opposite(o) != o,
{
}

} // verus!
