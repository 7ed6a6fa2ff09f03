//! The snake body: an ordered sequence of occupied cells, head first.

use vstd::prelude::*;

use crate::geom::{
    in_field, interior, offset, spec_offset, Cell, Orientation, SNAKE_MAX_LEN, SNAKE_MIN_LEN,
};

verus! {

/// Well-formed body: between the starting length and the capacity, every
/// cell inside the field buffer.
pub open spec fn body_wf(body: Seq<Cell>) -> bool {
    &&& SNAKE_MIN_LEN <= body.len() <= SNAKE_MAX_LEN
    &&& forall|i: int| 0 <= i < body.len() ==> in_field(#[trigger] body[i])
}

/// No cell occupied twice.
pub open spec fn distinct_cells(body: Seq<Cell>) -> bool {
    forall|i: int, j: int| 0 <= i < j < body.len() ==> #[trigger] body[i] != #[trigger] body[j]
}

/// The body after one move in direction `dir`: the new head in front, every
/// other cell shifted one place toward the tail, the old tail kept exactly
/// when `grow` is true.
pub open spec fn body_after(body: Seq<Cell>, dir: Orientation, grow: bool) -> Seq<Cell> {
    body.take(if grow { body.len() as int } else { body.len() - 1 }).insert(
        0,
        spec_offset(dir, body[0]),
    )
}

/// Whether a candidate head hits the body: it matches some occupied cell
/// other than the tail cell that a non-growing move vacates; a growing move
/// keeps the tail, so there the tail counts too.
pub open spec fn self_hit(body: Seq<Cell>, candidate: Cell, grow: bool) -> bool {
    exists|i: int|
        0 <= i < (if grow { body.len() as int } else { body.len() - 1 }) && body[i] == candidate
}

/// The snake body, head at index 0.
pub struct SnakeBody {
    cells: Vec<Cell>,
}

impl SnakeBody {
    /// The occupied cells, head first.
    pub closed spec fn view(&self) -> Seq<Cell> {
        self.cells@
    }

    pub open spec fn wf(&self) -> bool {
        body_wf(self@)
    }

    /// The starting body: a horizontal line of `SNAKE_MIN_LEN` cells on the
    /// middle row, head to the right.
    pub fn initial() -> (r: SnakeBody)
        ensures
            r.wf(),
            distinct_cells(r@),
            r@.len() == SNAKE_MIN_LEN,
            forall|i: int|
                0 <= i < SNAKE_MIN_LEN ==> #[trigger] r@[i] == (Cell {
                    x: (SNAKE_MIN_LEN + 3 - i) as usize,
                    y: (crate::geom::FIELD_YMAX / 2) as usize,
                }),
            forall|i: int| 0 <= i < r@.len() ==> interior(#[trigger] r@[i]),
    {
        let mut cells: Vec<Cell> = Vec::new();
        let mut i: usize = 0;
        while i < SNAKE_MIN_LEN
            invariant
                i <= SNAKE_MIN_LEN,
                cells@.len() == i,
                forall|k: int|
                    0 <= k < i ==> #[trigger] cells@[k] == (Cell {
                        x: (SNAKE_MIN_LEN + 3 - k) as usize,
                        y: (crate::geom::FIELD_YMAX / 2) as usize,
                    }),
            decreases SNAKE_MIN_LEN - i,
        {
            cells.push(Cell { x: SNAKE_MIN_LEN + 3 - i, y: crate::geom::FIELD_YMAX / 2 });
            i = i + 1;
        }
        SnakeBody { cells }
    }

    /// A body built from the given cells, head first.
    pub fn from_cells(cells: Vec<Cell>) -> (r: SnakeBody)
        requires
            body_wf(cells@),
        ensures
            r@ == cells@,
    {
        SnakeBody { cells }
    }

    /// The head cell.
    pub fn head_cell(&self) -> (r: Cell)
        requires
            self.wf(),
        ensures
            r == self@[0],
    {
        self.cells[0]
    }

    /// The occupied cell at position `i`, head first.
    pub fn cell(&self, i: usize) -> (r: Cell)
        requires
            i < self@.len(),
        ensures
            r == self@[i as int],
    {
        self.cells[i]
    }

    /// The occupied cells as one list, head first.
    pub fn occupied_cells(&self) -> (r: Vec<Cell>)
        ensures
            r@ == self@,
    {
        let mut out: Vec<Cell> = Vec::new();
        let mut i: usize = 0;
        while i < self.cells.len()
            invariant
                i <= self.cells@.len(),
                out@ == self.cells@.take(i as int),
            decreases self.cells@.len() - i,
        {
            proof {
                assert(self.cells@.take(i + 1) =~= self.cells@.take(i as int).push(
                    self.cells@[i as int],
                ));
            }
            out.push(self.cells[i]);
            i = i + 1;
        }
        proof {
            assert(self.cells@.take(self.cells@.len() as int) =~= self.cells@);
        }
        out
    }

    /// Whether `candidate` hits the body, per `self_hit`: the tail cell that
    /// a non-growing move vacates does not count.
    pub fn collides_with_self(&self, candidate: Cell, grow: bool) -> (r: bool)
        requires
            self.wf(),
        ensures
            r == self_hit(self@, candidate, grow),
    {
        let limit: usize = if grow {
            self.cells.len()
        } else {
            self.cells.len() - 1
        };
        let mut i: usize = 0;
        while i < limit
            invariant
                i <= limit,
                limit <= self.cells@.len(),
                limit == (if grow {
                    self.cells@.len() as int
                } else {
                    self.cells@.len() - 1
                }),
                forall|k: int| 0 <= k < i ==> self.cells@[k] != candidate,
            decreases limit - i,
        {
            if self.cells[i] == candidate {
                return true;
            }
            i = i + 1;
        }
        false
    }

    /// One move: every cell shifts one place toward the tail, the new head
    /// is the old head offset one unit in `dir`. A non-growing move vacates
    /// the old tail and returns it so the caller can erase its glyph; a
    /// growing move keeps it and the length rises by one.
    pub fn advance(&mut self, dir: Orientation, grow: bool) -> (dropped: Option<Cell>)
        requires
            old(self).wf(),
            interior(old(self)@[0]),
            grow ==> old(self)@.len() < SNAKE_MAX_LEN,
        ensures
            final(self).wf(),
            final(self)@ == body_after(old(self)@, dir, grow),
            final(self)@.len() == old(self)@.len() + (if grow { 1int } else { 0int }),
            final(self)@[0] == spec_offset(dir, old(self)@[0]),
            forall|i: int| 1 <= i < final(self)@.len() ==> final(self)@[i] == old(self)@[i - 1],
            dropped == (if grow { None::<Cell> } else { Some(old(self)@.last()) }),
    {
        let new_head = offset(dir, self.cells[0]);
        let dropped: Option<Cell> = if grow {
            None
        } else {
            self.cells.pop()
        };
        self.cells.insert(0, new_head);
        proof {
            assert(final(self)@ =~= body_after(old(self)@, dir, grow));
        }
        dropped
    }
}

/// The current length of the body.
pub fn get_snake_len(snake: &SnakeBody) -> (r: usize)
    ensures
        r == snake@.len(),
{
    snake.cells.len()
}

/// A move that does not hit the body keeps its cells distinct: the new head
/// differs from every cell kept, and the kept cells were distinct already.
pub proof fn lemma_advance_keeps_distinct(body: Seq<Cell>, dir: Orientation, grow: bool)
    requires
        body.len() >= 1,
        distinct_cells(body),
        !self_hit(body, spec_offset(dir, body[0]), grow),
    ensures
        distinct_cells(body_after(body, dir, grow)),
{
    let after = body_after(body, dir, grow);
    let kept = if grow {
        body.len() as int
    } else {
        body.len() - 1
    };
    assert forall|i: int, j: int| 0 <= i < j < after.len() implies after[i] != after[j] by {
        if i == 0 {
            assert(after[j] == body[j - 1]);
            assert(!(body[j - 1] == spec_offset(dir, body[0])));
        } else {
            assert(after[i] == body[i - 1]);
            assert(after[j] == body[j - 1]);
        }
    }
}

} // verus!
