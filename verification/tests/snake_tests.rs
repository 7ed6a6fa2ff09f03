use snake_core::geom::{Cell, Orientation, FIELD_YMAX, SNAKE_MIN_LEN};
use snake_core::snake::{get_snake_len, SnakeBody};

fn row_body(head_x: usize, y: usize, len: usize) -> Vec<Cell> {
    (0..len).map(|i| Cell { x: head_x - i, y }).collect()
}

#[test]
fn initial_body_is_a_line_heading_east() {
    let s = SnakeBody::initial();
    assert_eq!(get_snake_len(&s), SNAKE_MIN_LEN);
    for i in 0..SNAKE_MIN_LEN {
        assert_eq!(s.cell(i), Cell { x: SNAKE_MIN_LEN + 3 - i, y: FIELD_YMAX / 2 });
    }
    assert_eq!(s.head_cell(), Cell { x: 11, y: 10 });
}

#[test]
fn advance_without_growth_keeps_length_and_drops_tail() {
    let mut s = SnakeBody::initial();
    let dropped = s.advance(Orientation::East, false);
    assert_eq!(get_snake_len(&s), SNAKE_MIN_LEN);
    assert_eq!(dropped, Some(Cell { x: 4, y: 10 }));
    assert_eq!(s.head_cell(), Cell { x: 12, y: 10 });
    // shift invariant: every other cell is the previous cell one closer to
    // the head
    for i in 1..SNAKE_MIN_LEN {
        assert_eq!(s.cell(i), Cell { x: 11 - (i - 1), y: 10 });
    }
}

#[test]
fn advance_with_growth_adds_one_and_drops_nothing() {
    let mut s = SnakeBody::initial();
    let dropped = s.advance(Orientation::North, true);
    assert_eq!(get_snake_len(&s), SNAKE_MIN_LEN + 1);
    assert_eq!(dropped, None);
    assert_eq!(s.head_cell(), Cell { x: 11, y: 9 });
    for i in 1..SNAKE_MIN_LEN + 1 {
        assert_eq!(s.cell(i), Cell { x: 11 - (i - 1), y: 10 });
    }
}

#[test]
fn advance_in_each_direction_moves_one_unit() {
    for (dir, dx, dy) in [
        (Orientation::North, 0i32, -1i32),
        (Orientation::East, 1, 0),
        (Orientation::South, 0, 1),
        (Orientation::West, -1, 0),
    ] {
        let mut s = SnakeBody::from_cells(row_body(11, 10, SNAKE_MIN_LEN));
        s.advance(dir, false);
        let h = s.head_cell();
        assert_eq!(h.x as i32, 11 + dx);
        assert_eq!(h.y as i32, 10 + dy);
    }
}

#[test]
fn occupied_cells_lists_the_body_head_first() {
    let s = SnakeBody::initial();
    let cells = s.occupied_cells();
    assert_eq!(cells.len(), SNAKE_MIN_LEN);
    for (i, c) in cells.iter().enumerate() {
        assert_eq!(*c, s.cell(i));
    }
}

#[test]
fn vacated_tail_is_no_collision_target() {
    // a closed ring of 8 cells round (5,5); the tail sits right below the head
    let ring = vec![
        Cell { x: 4, y: 4 },
        Cell { x: 5, y: 4 },
        Cell { x: 6, y: 4 },
        Cell { x: 6, y: 5 },
        Cell { x: 6, y: 6 },
        Cell { x: 5, y: 6 },
        Cell { x: 4, y: 6 },
        Cell { x: 4, y: 5 },
    ];
    let s = SnakeBody::from_cells(ring);
    // moving South lands on the tail cell (4,5): vacated, so no hit
    assert!(!s.collides_with_self(Cell { x: 4, y: 5 }, false));
    // when growing, the tail is kept, so the same cell is a hit
    assert!(s.collides_with_self(Cell { x: 4, y: 5 }, true));
    // an inner body cell is a hit either way
    assert!(s.collides_with_self(Cell { x: 5, y: 4 }, false));
    assert!(s.collides_with_self(Cell { x: 5, y: 4 }, true));
    // a free cell is never a hit
    assert!(!s.collides_with_self(Cell { x: 5, y: 5 }, false));
    assert!(!s.collides_with_self(Cell { x: 5, y: 5 }, true));
}
