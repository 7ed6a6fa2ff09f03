//! The game loop state machine: one `tick` takes the whole game state and
//! at most one input event to the next state.

use vstd::prelude::*;

use crate::fruit::{acceptable, excluded, rejects, ExclusionRule, FruitSpawner};
use crate::geom::{
    in_field, interior, is_border, offset, on_border, opposite, opposite_dir, spec_index_of,
    spec_offset, Cell, Orientation, FIELD_YMAX, FRUITS_MAX, SNAKE_MAX_LEN,
    SNAKE_MIN_LEN,
};
use crate::grid::{lemma_index_injective, CellContent, GridModel};
use crate::snake::{
    body_after, distinct_cells, get_snake_len, lemma_advance_keeps_distinct, self_hit,
    SnakeBody,
};

verus! {

/// Tick duration in milliseconds at game start.
pub const SPEED_START: usize = 250;
/// The tick duration is never driven below this floor.
pub const SPEED_MIN: usize = 10;
/// Milliseconds taken off the tick duration at each speed-up.
pub const SPEED_STEP: usize = 5;
/// Points scored for each fruit the head lands on.
pub const FRUIT_SCORE: usize = 10;
/// A speed-up happens whenever the score lands on a multiple of this.
pub const SPEEDUP_SCORE: usize = 30;
/// The snake grows on every tick whose number is a multiple of this.
pub const GROW_TICKS: usize = 50;
/// Ticks beyond this count are not driven; it keeps the score far from
/// the integer limit on every machine.
pub const TICKS_LIMIT: usize = 100000000;

/// One interpreted input event, as the input source hands it over.
#[derive(Clone, Copy, PartialEq, Eq, Structural, Debug)]
pub enum InputEvent {
    Quit,
    TogglePause,
    Steer(Orientation),
}

/// The heading after a steering intent: an intent that would reverse the
/// current heading outright is ignored.
pub open spec fn steer(cur: Orientation, intent: Orientation) -> Orientation {
    if intent == opposite(cur) {
        cur
    } else {
        intent
    }
}

/// The heading after a tick's event: only a steering intent moves it.
pub open spec fn orientation_after(cur: Orientation, event: Option<InputEvent>) -> Orientation {
    match event {
        Some(InputEvent::Steer(d)) => steer(cur, d),
        _ => cur,
    }
}

/// The pause flag after a tick's event.
pub open spec fn paused_after(paused: bool, event: Option<InputEvent>) -> bool {
    match event {
        Some(InputEvent::TogglePause) => !paused,
        _ => paused,
    }
}

/// Whether a fruit slot holds exactly the cell the head landed on.
pub open spec fn fruit_hit(f: Option<Cell>, head: Cell) -> bool {
    f == Some(head)
}

/// How many of the first `k` fruit slots the head lands on.
pub open spec fn hit_count(fruits: Seq<Option<Cell>>, head: Cell, k: int) -> int
    decreases k,
{
    if k <= 0 {
        0
    } else {
        hit_count(fruits, head, k - 1) + (if fruit_hit(fruits[k - 1], head) {
            1int
        } else {
            0int
        })
    }
}

/// The tick duration after the first `k` fruit slots are settled: each hit
/// adds `FRUIT_SCORE` to the running score, and when that score lands on a
/// multiple of `SPEEDUP_SCORE` while the duration is above the floor, the
/// duration drops by `SPEED_STEP`.
pub open spec fn speed_after(
    fruits: Seq<Option<Cell>>,
    head: Cell,
    k: int,
    score0: int,
    speed0: int,
) -> int
    decreases k,
{
    if k <= 0 {
        speed0
    } else {
        let prev = speed_after(fruits, head, k - 1, score0, speed0);
        if fruit_hit(fruits[k - 1], head) {
            if (score0 + FRUIT_SCORE * hit_count(fruits, head, k)) % (SPEEDUP_SCORE as int) == 0
                && prev > SPEED_MIN {
                prev - SPEED_STEP
            } else {
                prev
            }
        } else {
            prev
        }
    }
}

/// Whether some of the first `k` body cells is `c`.
pub open spec fn body_covers(body: Seq<Cell>, k: int, c: Cell) -> bool {
    exists|j: int| 0 <= j < k && body[j] == c
}

/// Whether some of the first `k` fruit slots holds `c`.
pub open spec fn fruit_covers(fruits: Seq<Option<Cell>>, k: int, c: Cell) -> bool {
    exists|j: int| 0 <= j < k && fruits[j] == Some(c)
}

/// What the field buffer holds at cell `c` after a tick's writes. Fruit
/// glyphs are written first, then the snake, then the vacated tail is
/// blanked, so of coinciding writes the later one shows.
pub open spec fn rendered_cell(
    pre_grid: Seq<Option<CellContent>>,
    fruits: Seq<Option<Cell>>,
    body: Seq<Cell>,
    dropped: Option<Cell>,
    c: Cell,
) -> Option<CellContent> {
    if dropped == Some(c) {
        Some(CellContent::Empty)
    } else if body_covers(body, body.len() as int, c) {
        Some(CellContent::Snake)
    } else if fruit_covers(fruits, fruits.len() as int, c) {
        Some(CellContent::Fruit)
    } else {
        pre_grid[spec_index_of(c)]
    }
}

/// One fruit slot across a tick: a slot the new head lands on is refilled
/// from the spawner against the moved body (left empty exactly when no
/// acceptable cell exists); any other slot is untouched.
pub open spec fn fruit_slot_ok(
    pre: Option<Cell>,
    post: Option<Cell>,
    head: Cell,
    rule: ExclusionRule,
    body: Seq<Cell>,
) -> bool {
    if fruit_hit(pre, head) {
        &&& (post matches Some(c) ==> acceptable(rule, c, body))
        &&& (post is Some <==> exists|c: Cell| acceptable(rule, c, body))
    } else {
        post == pre
    }
}

/// One steering step can never leave the heading at the exact opposite of
/// what it was: a reversing intent is dropped, and any other intent is not
/// the opposite to begin with.
pub proof fn lemma_steer_never_reverses(cur: Orientation, intent: Orientation)
    ensures
        steer(cur, intent) != opposite(cur),
{
    crate::geom::lemma_opposite_irreflexive(cur);
}

/// Settling any number of fruit slots never lengthens the tick duration,
/// and from a duration on the `SPEED_STEP` lattice at or above the floor
/// it never leaves that lattice nor drops below the floor.
pub proof fn lemma_speed_never_increases(
    fruits: Seq<Option<Cell>>,
    head: Cell,
    k: int,
    score0: int,
    speed0: int,
)
    requires
        SPEED_MIN <= speed0,
        speed0 % (SPEED_STEP as int) == 0,
    ensures
        speed_after(fruits, head, k, score0, speed0) <= speed0,
        SPEED_MIN <= speed_after(fruits, head, k, score0, speed0),
        speed_after(fruits, head, k, score0, speed0) % (SPEED_STEP as int) == 0,
    decreases k,
{
    if k > 0 {
        lemma_speed_never_increases(fruits, head, k - 1, score0, speed0);
    }
}

/// Covering one more body cell covers exactly what it covered before plus
/// that cell.
pub proof fn lemma_body_covers_step(body: Seq<Cell>, k: int, c: Cell)
    requires
        0 <= k < body.len(),
    ensures
        body_covers(body, k + 1, c) <==> (body_covers(body, k, c) || body[k] == c),
{
    if body_covers(body, k + 1, c) && body[k] != c {
        let j = choose|j: int| 0 <= j < k + 1 && body[j] == c;
        assert(0 <= j < k && body[j] == c);
    }
}

/// Covering one more fruit slot covers exactly what it covered before plus
/// that slot's cell, if any.
pub proof fn lemma_fruit_covers_step(fruits: Seq<Option<Cell>>, k: int, c: Cell)
    requires
        0 <= k < fruits.len(),
    ensures
        fruit_covers(fruits, k + 1, c) <==> (fruit_covers(fruits, k, c) || fruits[k] == Some(c)),
{
    if fruit_covers(fruits, k + 1, c) && fruits[k] != Some(c) {
        let j = choose|j: int| 0 <= j < k + 1 && fruits[j] == Some(c);
        assert(0 <= j < k && fruits[j] == Some(c));
    }
}

/// The whole game state that one tick carries forward.
pub struct GameState {
    pub grid: GridModel,
    pub snake: SnakeBody,
    pub fruits: Vec<Option<Cell>>,
    pub orientation: Orientation,
    pub paused: bool,
    pub crashed: bool,
    pub score: usize,
    pub speed: usize,
    pub tick_counter: usize,
    pub spawner: FruitSpawner,
}

/// Whether the snake grows on the tick that moves `pre` one step: every
/// `GROW_TICKS`-th tick, suppressed when the body is already at capacity.
pub open spec fn grows(pre: GameState) -> bool {
    (pre.tick_counter + 1) % (GROW_TICKS as int) == 0 && pre.snake@.len() < SNAKE_MAX_LEN
}

/// The moving part of a tick, from the state `pre` after its event was
/// applied: the body shifts behind the new head; the state crashes exactly
/// when the new head lands on the border ring or on the body; on a crash
/// nothing else moves, otherwise the fruit slots, score, speed and field
/// buffer are settled against the new head.
pub open spec fn tick_moved(pre: GameState, post: GameState, event: Option<InputEvent>) -> bool {
    let dir = orientation_after(pre.orientation, event);
    let grow = grows(pre);
    let head = spec_offset(dir, pre.snake@[0]);
    let dropped = if grow {
        None
    } else {
        Some(pre.snake@.last())
    };
    &&& post.snake@ == body_after(pre.snake@, dir, grow)
    &&& post.crashed == (on_border(head) || self_hit(pre.snake@, head, grow))
    &&& (post.crashed ==> {
        &&& post.grid@ == pre.grid@
        &&& post.fruits@ == pre.fruits@
        &&& post.score == pre.score
        &&& post.speed == pre.speed
    })
    &&& (!post.crashed ==> {
        &&& post.score == pre.score + FRUIT_SCORE * hit_count(pre.fruits@, head, FRUITS_MAX as int)
        &&& post.speed == speed_after(
            pre.fruits@,
            head,
            FRUITS_MAX as int,
            pre.score as int,
            pre.speed as int,
        )
        &&& post.fruits@.len() == FRUITS_MAX
        &&& forall|j: int|
            0 <= j < FRUITS_MAX ==> fruit_slot_ok(
                pre.fruits@[j],
                #[trigger] post.fruits@[j],
                head,
                pre.spawner.rule,
                post.snake@,
            )
        &&& forall|c: Cell|
            in_field(c) ==> post.grid@[#[trigger] spec_index_of(c)] == rendered_cell(
                pre.grid@,
                post.fruits@,
                post.snake@,
                dropped,
                c,
            )
    })
}

impl GameState {
    /// Well-formed state: the parts hold their own invariants, every fruit
    /// is interior, the tick duration sits between its floor and its start
    /// value on the `SPEED_STEP` lattice, the score is bounded by what the
    /// ticks so far could have earned, and as long as nothing crashed the
    /// body is interior and free of overlaps.
    pub open spec fn wf(&self) -> bool {
        &&& self.grid.wf()
        &&& self.snake.wf()
        &&& self.fruits@.len() == FRUITS_MAX
        &&& forall|j: int|
            0 <= j < FRUITS_MAX ==> match #[trigger] self.fruits@[j] {
                Some(c) => interior(c),
                None => true,
            }
        &&& SPEED_MIN <= self.speed <= SPEED_START
        &&& self.speed % SPEED_STEP == 0
        &&& self.score <= 2 * FRUIT_SCORE * self.tick_counter
        &&& (!self.crashed ==> {
            &&& distinct_cells(self.snake@)
            &&& forall|i: int| 0 <= i < self.snake@.len() ==> interior(#[trigger] self.snake@[i])
        })
    }

    /// A fresh game: the starting body on the middle row heading East, a
    /// stamped border, both fruit slots filled under the exact-cell rule,
    /// score zero and the starting tick duration.
    pub fn new() -> (r: GameState)
        ensures
            r.wf(),
            !r.crashed,
            !r.paused,
            r.score == 0,
            r.speed == SPEED_START,
            r.tick_counter == 0,
            r.orientation == Orientation::East,
            r.spawner.rule == ExclusionRule::ExactCell,
            r.snake@.len() == SNAKE_MIN_LEN,
            forall|i: int|
                0 <= i < SNAKE_MIN_LEN ==> #[trigger] r.snake@[i] == (Cell {
                    x: (SNAKE_MIN_LEN + 3 - i) as usize,
                    y: (FIELD_YMAX / 2) as usize,
                }),
            r.fruits@.len() == FRUITS_MAX,
            forall|j: int| 0 <= j < FRUITS_MAX ==> (#[trigger] r.fruits@[j]) is Some,
            forall|j: int|
                0 <= j < FRUITS_MAX ==> ((#[trigger] r.fruits@[j]) matches Some(c)
                    ==> acceptable(ExclusionRule::ExactCell, c, r.snake@)),
            forall|c: Cell|
                in_field(c) ==> r.grid@[#[trigger] spec_index_of(c)] == (if on_border(c) {
                    Some(CellContent::Border)
                } else {
                    None::<CellContent>
                }),
    {
        let snake = SnakeBody::initial();
        let spawner = FruitSpawner { rule: ExclusionRule::ExactCell };
        let mut fruits: Vec<Option<Cell>> = Vec::new();
        let mut i: usize = 0;
        #[verifier::loop_isolation(false)]
        while i < FRUITS_MAX
            invariant
                i <= FRUITS_MAX,
                fruits@.len() == i,
                forall|j: int| 0 <= j < i ==> (#[trigger] fruits@[j]) is Some,
                forall|j: int|
                    0 <= j < i ==> ((#[trigger] fruits@[j]) matches Some(c)
                        ==> acceptable(ExclusionRule::ExactCell, c, snake@)),
            decreases FRUITS_MAX - i,
        {
            proof {
                let w = Cell { x: 1, y: 1 };
                assert(!excluded(ExclusionRule::ExactCell, w, snake@)) by {
                    assert forall|k: int| 0 <= k < snake@.len()
                        implies !rejects(ExclusionRule::ExactCell, #[trigger] snake@[k], w) by {
                        assert(snake@[k].y == FIELD_YMAX / 2);
                    }
                }
                assert(acceptable(ExclusionRule::ExactCell, w, snake@));
            }
            let f = spawner.spawn(&snake);
            fruits.push(f);
            i = i + 1;
        }
        let grid = GridModel::new();
        GameState {
            grid,
            snake,
            fruits,
            orientation: Orientation::East,
            paused: false,
            crashed: false,
            score: 0,
            speed: SPEED_START,
            tick_counter: 0,
            spawner,
        }
    }

    /// One tick: the event is applied to the pause flag and the heading (a
    /// reversal is ignored); a paused game moves nothing else; otherwise
    /// the body advances, the state crashes exactly when the new head
    /// lands on the border or the body, and on a clean move the fruit
    /// slots, score, speed and field buffer are settled per `tick_moved`.
    #[verifier::loop_isolation(false)]
    pub fn tick(&mut self, event: Option<InputEvent>)
        requires
            old(self).wf(),
            !old(self).crashed,
            old(self).tick_counter < TICKS_LIMIT,
        ensures
            final(self).wf(),
            final(self).tick_counter == old(self).tick_counter + 1,
            final(self).orientation == orientation_after(old(self).orientation, event),
            final(self).orientation != opposite(old(self).orientation),
            final(self).paused == paused_after(old(self).paused, event),
            final(self).spawner == old(self).spawner,
            final(self).speed <= old(self).speed,
            final(self).paused ==> {
                &&& final(self).snake@ == old(self).snake@
                &&& final(self).fruits@ == old(self).fruits@
                &&& final(self).grid@ == old(self).grid@
                &&& final(self).score == old(self).score
                &&& final(self).speed == old(self).speed
                &&& !final(self).crashed
            },
            !final(self).paused ==> tick_moved(*old(self), *final(self), event),
    {
        proof {
            crate::geom::lemma_opposite_irreflexive(old(self).orientation);
        }
        self.tick_counter = self.tick_counter + 1;
        let grow = self.tick_counter % GROW_TICKS == 0 && get_snake_len(&self.snake)
            < SNAKE_MAX_LEN;
        match event {
            Some(InputEvent::TogglePause) => {
                self.paused = !self.paused;
            },
            Some(InputEvent::Steer(d)) => {
                if d != opposite_dir(self.orientation) {
                    self.orientation = d;
                }
            },
            _ => {},
        }
        if self.paused {
            return ;
        }
        let ghost dirg = self.orientation;
        let ghost growg = grows(*old(self));
        proof {
            assert(grow == growg);
        }
        let head0 = self.snake.head_cell();
        let new_head = offset(self.orientation, head0);
        let wall = is_border(new_head);
        let hit_self = self.snake.collides_with_self(new_head, grow);
        let dropped = self.snake.advance(self.orientation, grow);
        if wall || hit_self {
            self.crashed = true;
            return ;
        }
        proof {
            lemma_advance_keeps_distinct(old(self).snake@, dirg, growg);
            assert(interior(new_head));
            assert forall|i: int| 0 <= i < self.snake@.len()
                implies interior(#[trigger] self.snake@[i]) by {
                if i >= 1 {
                    assert(self.snake@[i] == old(self).snake@[i - 1]);
                }
            }
        }
        let ghost fruits0 = old(self).fruits@;
        let ghost score0 = old(self).score as int;
        let ghost speed0 = old(self).speed as int;
        let ghost body1 = self.snake@;
        let mut i: usize = 0;
        while i < FRUITS_MAX
            invariant
                i <= FRUITS_MAX,
                self.grid == old(self).grid,
                self.snake@ == body1,
                self.crashed == false,
                self.paused == false,
                self.orientation == dirg,
                self.tick_counter == old(self).tick_counter + 1,
                self.spawner == old(self).spawner,
                self.fruits@.len() == FRUITS_MAX,
                forall|j: int| i <= j < FRUITS_MAX ==> #[trigger] self.fruits@[j] == fruits0[j],
                forall|j: int|
                    0 <= j < i ==> fruit_slot_ok(
                        fruits0[j],
                        #[trigger] self.fruits@[j],
                        new_head,
                        old(self).spawner.rule,
                        body1,
                    ),
                self.score as int == score0 + FRUIT_SCORE * hit_count(fruits0, new_head, i as int),
                self.score as int <= score0 + FRUIT_SCORE * (i as int),
                self.speed as int == speed_after(fruits0, new_head, i as int, score0, speed0),
                SPEED_MIN <= self.speed,
                self.speed as int <= speed0,
                self.speed % SPEED_STEP == 0,
            decreases FRUITS_MAX - i,
        {
            let f = self.fruits[i];
            let is_hit = match f {
                Some(c) => c == new_head,
                None => false,
            };
            if is_hit {
                self.score = self.score + FRUIT_SCORE;
                let nf = self.spawner.spawn(&self.snake);
                self.fruits[i] = nf;
                if self.score % SPEEDUP_SCORE == 0 && self.speed > SPEED_MIN {
                    self.speed = self.speed - SPEED_STEP;
                }
            }
            i = i + 1;
        }
        let ghost fruits1 = self.fruits@;
        let ghost score1 = self.score;
        let ghost speed1 = self.speed;
        let ghost grid0 = old(self).grid@;
        proof {
            assert forall|j: int| 0 <= j < FRUITS_MAX implies match #[trigger] fruits1[j] {
                Some(c) => interior(c),
                None => true,
            } by {
                assert(fruit_slot_ok(
                    fruits0[j],
                    self.fruits@[j],
                    new_head,
                    old(self).spawner.rule,
                    body1,
                ));
            }
        }
        let mut fi: usize = 0;
        while fi < FRUITS_MAX
            invariant
                fi <= FRUITS_MAX,
                self.snake@ == body1,
                self.crashed == false,
                self.paused == false,
                self.orientation == dirg,
                self.tick_counter == old(self).tick_counter + 1,
                self.spawner == old(self).spawner,
                self.fruits@ == fruits1,
                self.score == score1,
                self.speed == speed1,
                self.grid.wf(),
                forall|c: Cell|
                    in_field(c) ==> self.grid@[#[trigger] spec_index_of(c)] == (if fruit_covers(
                        fruits1,
                        fi as int,
                        c,
                    ) {
                        Some(CellContent::Fruit)
                    } else {
                        grid0[spec_index_of(c)]
                    }),
            decreases FRUITS_MAX - fi,
        {
            let f = self.fruits[fi];
            match f {
                Some(c) => {
                    self.grid.set_cell(c, CellContent::Fruit);
                    proof {
                        assert forall|b: Cell| in_field(b)
                            implies self.grid@[#[trigger] spec_index_of(b)] == (if fruit_covers(
                            fruits1,
                            fi + 1,
                            b,
                        ) {
                            Some(CellContent::Fruit)
                        } else {
                            grid0[spec_index_of(b)]
                        }) by {
                            lemma_fruit_covers_step(fruits1, fi as int, b);
                            if b != c {
                                lemma_index_injective(b, c);
                            }
                        }
                    }
                },
                None => {
                    proof {
                        assert forall|b: Cell| in_field(b) implies (fruit_covers(fruits1, fi + 1, b)
                            == fruit_covers(fruits1, fi as int, b)) by {
                            lemma_fruit_covers_step(fruits1, fi as int, b);
                        }
                    }
                },
            }
            fi = fi + 1;
        }
        let snake_len = get_snake_len(&self.snake);
        let mut si: usize = 0;
        while si < snake_len
            invariant
                si <= snake_len,
                snake_len == body1.len(),
                self.snake@ == body1,
                self.crashed == false,
                self.paused == false,
                self.orientation == dirg,
                self.tick_counter == old(self).tick_counter + 1,
                self.spawner == old(self).spawner,
                self.fruits@ == fruits1,
                self.score == score1,
                self.speed == speed1,
                self.grid.wf(),
                forall|c: Cell|
                    in_field(c) ==> self.grid@[#[trigger] spec_index_of(c)] == (if body_covers(
                        body1,
                        si as int,
                        c,
                    ) {
                        Some(CellContent::Snake)
                    } else if fruit_covers(fruits1, FRUITS_MAX as int, c) {
                        Some(CellContent::Fruit)
                    } else {
                        grid0[spec_index_of(c)]
                    }),
            decreases snake_len - si,
        {
            let c = self.snake.cell(si);
            self.grid.set_cell(c, CellContent::Snake);
            proof {
                assert forall|b: Cell| in_field(b)
                    implies self.grid@[#[trigger] spec_index_of(b)] == (if body_covers(
                    body1,
                    si + 1,
                    b,
                ) {
                    Some(CellContent::Snake)
                } else if fruit_covers(fruits1, FRUITS_MAX as int, b) {
                    Some(CellContent::Fruit)
                } else {
                    grid0[spec_index_of(b)]
                }) by {
                    lemma_body_covers_step(body1, si as int, b);
                    if b != c {
                        lemma_index_injective(b, c);
                    }
                }
            }
            si = si + 1;
        }
        match dropped {
            Some(c) => {
                self.grid.clear_cell(c);
            },
            None => {},
        }
        proof {
            let ghost droppedg = if growg {
                None
            } else {
                Some(old(self).snake@.last())
            };
            assert forall|c: Cell| in_field(c)
                implies self.grid@[#[trigger] spec_index_of(c)] == rendered_cell(
                grid0,
                fruits1,
                body1,
                droppedg,
                c,
            ) by {
                match droppedg {
                    Some(t) => {
                        if c != t {
                            lemma_index_injective(c, t);
                        }
                    },
                    None => {},
                }
            }
        }
    }
}

} // verus!
