//! Fruit placement: a random interior cell that the active exclusion rule
//! accepts against the snake body.

use rand::Rng;
use vstd::prelude::*;

use crate::geom::{interior, is_interior, Cell, FIELD_XMAX, FIELD_YMAX};
use crate::snake::{get_snake_len, SnakeBody};

verus! {

/// How many random samples are drawn before the search falls back to a
/// deterministic sweep of the interior, so that it always terminates.
pub const SPAWN_RETRIES: usize = 128;

/// How strictly a candidate fruit cell is held against the snake body.
/// `ExactCell` rejects only a candidate equal to an occupied cell.
/// `RowOrColumn` also rejects a candidate that merely shares a row or a
/// column with one — a much looser rule, kept available as a variant.
#[derive(Clone, Copy, PartialEq, Eq, Structural, Debug)]
pub enum ExclusionRule {
    ExactCell,
    RowOrColumn,
}

/// Whether `rule` rejects candidate `c` on account of the body cell `b`.
pub open spec fn rejects(rule: ExclusionRule, b: Cell, c: Cell) -> bool {
    match rule {
        ExclusionRule::ExactCell => b == c,
        ExclusionRule::RowOrColumn => b.x == c.x || b.y == c.y,
    }
}

/// Whether some cell of `body` makes `rule` reject the candidate `c`.
pub open spec fn excluded(rule: ExclusionRule, c: Cell, body: Seq<Cell>) -> bool {
    exists|i: int| 0 <= i < body.len() && rejects(rule, #[trigger] body[i], c)
}

/// A cell the spawner may return: strictly inside the border ring and not
/// rejected against any body cell.
pub open spec fn acceptable(rule: ExclusionRule, c: Cell, body: Seq<Cell>) -> bool {
    interior(c) && !excluded(rule, c, body)
}

/// Relies on rand: `thread_rng` hands out the calling thread's generator,
/// and `Rng::gen_range(0..bound)` returns a uniform sample in that range,
/// panicking only when the range is empty.
#[verifier::external_body]
fn random_below(bound: usize) -> (r: usize)
    requires
        bound >= 1,
    ensures
        r < bound,
{
    rand::thread_rng().gen_range(0..bound)
}

/// Whether `rule` accepts `c` as a fruit cell against the body of `snake`.
pub fn is_acceptable(rule: ExclusionRule, c: Cell, snake: &SnakeBody) -> (r: bool)
    ensures
        r == acceptable(rule, c, snake@),
{
    if !is_interior(c) {
        return false;
    }
    let n = get_snake_len(snake);
    let mut i: usize = 0;
    while i < n
        invariant
            i <= n,
            n == snake@.len(),
            forall|k: int| 0 <= k < i ==> !rejects(rule, #[trigger] snake@[k], c),
        decreases n - i,
    {
        let b = snake.cell(i);
        let hit = match rule {
            ExclusionRule::ExactCell => b == c,
            ExclusionRule::RowOrColumn => b.x == c.x || b.y == c.y,
        };
        if hit {
            return false;
        }
        i = i + 1;
    }
    true
}

/// Places fruit cells under one fixed exclusion rule.
#[derive(Clone, Copy)]
pub struct FruitSpawner {
    pub rule: ExclusionRule,
}

impl FruitSpawner {
    /// Draws random field coordinates until the exclusion rule accepts a
    /// cell; after `SPAWN_RETRIES` rejected samples it sweeps the interior
    /// deterministically, so the search terminates, and it returns a cell
    /// exactly when some acceptable cell exists at all.
    pub fn spawn(&self, snake: &SnakeBody) -> (r: Option<Cell>)
        ensures
            r matches Some(c) ==> acceptable(self.rule, c, snake@),
            r is Some <==> exists|c: Cell| acceptable(self.rule, c, snake@),
    {
        let mut tries: usize = 0;
        while tries < SPAWN_RETRIES
            invariant
                tries <= SPAWN_RETRIES,
            decreases SPAWN_RETRIES - tries,
        {
            let c = Cell { x: random_below(FIELD_XMAX), y: random_below(FIELD_YMAX) };
            if is_acceptable(self.rule, c, snake) {
                return Some(c);
            }
            tries = tries + 1;
        }
        let mut y: usize = 1;
        while y < FIELD_YMAX - 1
            invariant
                1 <= y <= FIELD_YMAX - 1,
                forall|c: Cell|
                    interior(c) && c.y < y ==> !(#[trigger] acceptable(self.rule, c, snake@)),
            decreases FIELD_YMAX - 1 - y,
        {
            let mut x: usize = 1;
            while x < FIELD_XMAX - 1
                invariant
                    1 <= x <= FIELD_XMAX - 1,
                    1 <= y < FIELD_YMAX - 1,
                    forall|c: Cell|
                        interior(c) && c.y < y ==> !(#[trigger] acceptable(self.rule, c, snake@)),
                    forall|c: Cell|
                        interior(c) && c.y == y && c.x < x
                            ==> !(#[trigger] acceptable(self.rule, c, snake@)),
                decreases FIELD_XMAX - 1 - x,
            {
                let c = Cell { x, y };
                if is_acceptable(self.rule, c, snake) {
                    return Some(c);
                }
                x = x + 1;
            }
            y = y + 1;
        }
        proof {
            assert forall|c: Cell| !acceptable(self.rule, c, snake@) by {
                if interior(c) {
                    assert(c.y < FIELD_YMAX - 1);
                }
            }
        }
        None
    }
}

} // verus!
