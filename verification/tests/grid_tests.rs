use snake_core::geom::{Cell, FIELD_XMAX, FIELD_YMAX};
use snake_core::grid::{CellContent, GridModel};

#[test]
fn fresh_grid_has_border_ring_and_empty_interior() {
    let g = GridModel::new();
    for x in 0..FIELD_XMAX {
        for y in 0..FIELD_YMAX {
            let c = Cell { x, y };
            let on_ring = x == 0 || x == FIELD_XMAX - 1 || y == 0 || y == FIELD_YMAX - 1;
            assert_eq!(g.is_border(c), on_ring);
            if on_ring {
                assert_eq!(g.cell_at(c), Some(CellContent::Border));
            } else {
                assert_eq!(g.cell_at(c), None);
            }
        }
    }
}

#[test]
fn set_and_clear_touch_only_their_cell() {
    let mut g = GridModel::new();
    let a = Cell { x: 5, y: 5 };
    let b = Cell { x: 6, y: 5 };
    g.set_cell(a, CellContent::Snake);
    g.set_cell(b, CellContent::Fruit);
    assert_eq!(g.cell_at(a), Some(CellContent::Snake));
    assert_eq!(g.cell_at(b), Some(CellContent::Fruit));
    assert_eq!(g.cell_at(Cell { x: 7, y: 5 }), None);
    g.clear_cell(a);
    assert_eq!(g.cell_at(a), Some(CellContent::Empty));
    assert_eq!(g.cell_at(b), Some(CellContent::Fruit));
    assert_eq!(g.cell_at(Cell { x: 0, y: 5 }), Some(CellContent::Border));
}
