//! The field buffer: one optional content value per cell.

use vstd::prelude::*;

use crate::geom::{
    in_field, index_of, interior, is_border, on_border, spec_index_of, Cell, FIELD_PIXELS,
    FIELD_XMAX, FIELD_YMAX,
};

verus! {

/// What a touched cell of the field holds. A cell that was never touched
/// holds nothing and is never drawn; an `Empty` cell is drawn as blank to
/// erase an earlier glyph.
#[derive(Clone, Copy, PartialEq, Eq, Structural, Debug)]
pub enum CellContent {
    Border,
    Snake,
    Fruit,
    Empty,
}

/// The field buffer, row-major, `FIELD_PIXELS` entries.
///
/// Its invariant: every cell of the outer border ring holds `Border`, and
/// nothing ever overwrites it.
pub struct GridModel {
    cells: Vec<Option<CellContent>>,
}

impl GridModel {
    /// The buffer as a sequence, row-major; index a cell with
    /// `spec_index_of`.
    pub closed spec fn view(&self) -> Seq<Option<CellContent>> {
        self.cells@
    }

    /// Well-formed: full size, and the border ring is stamped `Border`.
    pub open spec fn wf(&self) -> bool {
        &&& self@.len() == FIELD_PIXELS
        &&& forall|c: Cell|
            in_field(c) && on_border(c) ==> self@[spec_index_of(c)] == Some(CellContent::Border)
    }

    /// A fresh field: the border ring stamped `Border`, every interior cell
    /// untouched.
    pub fn new() -> (r: GridModel)
        ensures
            r.wf(),
            forall|c: Cell|
                in_field(c) && !on_border(c) ==> r@[spec_index_of(c)] is None,
    {
        let mut cells: Vec<Option<CellContent>> = vec![None; FIELD_PIXELS];
        let mut y: usize = 0;
        while y < FIELD_YMAX
            invariant
                cells@.len() == FIELD_PIXELS,
                forall|c: Cell|
                    in_field(c) && (c.x == 0 || c.x == FIELD_XMAX - 1) && c.y < y
                        ==> cells@[spec_index_of(c)] == Some(CellContent::Border),
                forall|c: Cell|
                    in_field(c) && !(c.x == 0 || c.x == FIELD_XMAX - 1)
                        ==> cells@[spec_index_of(c)] is None,
            decreases FIELD_YMAX - y,
        {
            cells[0 + y * FIELD_XMAX] = Some(CellContent::Border);
            cells[FIELD_XMAX - 1 + y * FIELD_XMAX] = Some(CellContent::Border);
            y = y + 1;
        }
        let mut x: usize = 0;
        while x < FIELD_XMAX
            invariant
                cells@.len() == FIELD_PIXELS,
                forall|c: Cell|
                    in_field(c) && (c.x == 0 || c.x == FIELD_XMAX - 1)
                        ==> cells@[spec_index_of(c)] == Some(CellContent::Border),
                forall|c: Cell|
                    in_field(c) && (c.y == 0 || c.y == FIELD_YMAX - 1) && c.x < x
                        ==> cells@[spec_index_of(c)] == Some(CellContent::Border),
                forall|c: Cell|
                    in_field(c) && !on_border(c) ==> cells@[spec_index_of(c)] is None,
            decreases FIELD_XMAX - x,
        {
            cells[x + 0 * FIELD_XMAX] = Some(CellContent::Border);
            cells[x + (FIELD_YMAX - 1) * FIELD_XMAX] = Some(CellContent::Border);
            x = x + 1;
        }
        GridModel { cells }
    }

    /// The content of cell `c`, `None` for a cell never touched.
    pub fn cell_at(&self, c: Cell) -> (r: Option<CellContent>)
        requires
            self.wf(),
            in_field(c),
        ensures
            r == self@[spec_index_of(c)],
    {
        self.cells[index_of(c)]
    }

    /// Writes `content` into the interior cell `c`; the border ring is
    /// never written.
    pub fn set_cell(&mut self, c: Cell, content: CellContent)
        requires
            old(self).wf(),
            interior(c),
        ensures
            final(self).wf(),
            final(self)@ == old(self)@.update(spec_index_of(c), Some(content)),
    {
        let i = index_of(c);
        self.cells[i] = Some(content);
        proof {
            assert forall|b: Cell| in_field(b) && on_border(b)
                implies self@[spec_index_of(b)] == Some(CellContent::Border) by {
                assert(spec_index_of(b) != spec_index_of(c)) by {
                    lemma_index_injective(b, c);
                }
            }
        }
    }

    /// Marks the interior cell `c` as empty, so that a stale glyph there is
    /// drawn over with a blank.
    pub fn clear_cell(&mut self, c: Cell)
        requires
            old(self).wf(),
            interior(c),
        ensures
            final(self).wf(),
            final(self)@ == old(self)@.update(spec_index_of(c), Some(CellContent::Empty)),
    {
        self.set_cell(c, CellContent::Empty);
    }

    /// Whether `c` lies on the outer border ring.
    pub fn is_border(&self, c: Cell) -> (r: bool)
        ensures
            r == on_border(c),
    {
        is_border(c)
    }
}

/// Distinct in-field cells have distinct linear indices.
pub proof fn lemma_index_injective(a: Cell, b: Cell)
    requires
        in_field(a),
        in_field(b),
        a != b,
    ensures
        spec_index_of(a) != spec_index_of(b),
{
    if a.y == b.y {
    } else {
        assert(spec_index_of(a) != spec_index_of(b)) by (nonlinear_arith)
            requires
                a.x < FIELD_XMAX,
                b.x < FIELD_XMAX,
                a.y != b.y,
                spec_index_of(a) == a.x + a.y * FIELD_XMAX,
                spec_index_of(b) == b.x + b.y * FIELD_XMAX,
        ;
    }
}

} // verus!
