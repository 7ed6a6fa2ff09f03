use snake_core::fruit::{is_acceptable, ExclusionRule, FruitSpawner};
use snake_core::geom::{Cell, FIELD_XMAX, FIELD_YMAX, SNAKE_MIN_LEN};
use snake_core::snake::{get_snake_len, SnakeBody};

#[test]
fn spawned_fruit_is_strictly_inside_the_border() {
    let snake = SnakeBody::initial();
    let spawner = FruitSpawner { rule: ExclusionRule::ExactCell };
    for _ in 0..200 {
        let c = spawner.spawn(&snake).expect("an acceptable cell exists");
        assert!(1 <= c.x && c.x <= FIELD_XMAX - 2);
        assert!(1 <= c.y && c.y <= FIELD_YMAX - 2);
    }
}

#[test]
fn exact_rule_never_spawns_on_the_snake() {
    let snake = SnakeBody::initial();
    let spawner = FruitSpawner { rule: ExclusionRule::ExactCell };
    for _ in 0..200 {
        let c = spawner.spawn(&snake).expect("an acceptable cell exists");
        for i in 0..get_snake_len(&snake) {
            assert_ne!(c, snake.cell(i));
        }
    }
}

#[test]
fn row_or_column_rule_avoids_shared_rows_and_columns() {
    let snake = SnakeBody::initial();
    let spawner = FruitSpawner { rule: ExclusionRule::RowOrColumn };
    for _ in 0..200 {
        let c = spawner.spawn(&snake).expect("an acceptable cell exists");
        for i in 0..get_snake_len(&snake) {
            let b = snake.cell(i);
            assert_ne!(c.x, b.x);
            assert_ne!(c.y, b.y);
        }
    }
}

#[test]
fn acceptability_check_matches_the_rules() {
    let snake = SnakeBody::initial();
    // the initial body runs from (4,10) to (11,10)
    assert!(!is_acceptable(ExclusionRule::ExactCell, Cell { x: 7, y: 10 }, &snake));
    assert!(is_acceptable(ExclusionRule::ExactCell, Cell { x: 7, y: 9 }, &snake));
    // same column as a body cell: only the looser rule rejects it
    assert!(!is_acceptable(ExclusionRule::RowOrColumn, Cell { x: 7, y: 9 }, &snake));
    assert!(is_acceptable(ExclusionRule::RowOrColumn, Cell { x: 2, y: 9 }, &snake));
    // border cells are never acceptable
    assert!(!is_acceptable(ExclusionRule::ExactCell, Cell { x: 0, y: 10 }, &snake));
    assert!(!is_acceptable(ExclusionRule::ExactCell, Cell { x: 29, y: 10 }, &snake));
    assert!(!is_acceptable(ExclusionRule::ExactCell, Cell { x: 5, y: 0 }, &snake));
    assert!(!is_acceptable(ExclusionRule::ExactCell, Cell { x: 5, y: 19 }, &snake));
}

#[test]
fn spawn_reports_when_no_cell_is_acceptable() {
    // a snake whose rows and columns cross every interior cell: under the
    // row-or-column rule nothing is acceptable
    let mut cells = Vec::new();
    for x in 1..FIELD_XMAX - 1 {
        cells.push(Cell { x, y: 10 });
    }
    assert!(cells.len() >= SNAKE_MIN_LEN);
    let snake = SnakeBody::from_cells(cells);
    let spawner = FruitSpawner { rule: ExclusionRule::RowOrColumn };
    assert_eq!(spawner.spawn(&snake), None);
}
