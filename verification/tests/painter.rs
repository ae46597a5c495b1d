use sandforge::painter::{BrushRes, BrushShape, BrushType};
use sandforge::vector::IVec2;

fn iv(x: i32, y: i32) -> IVec2 {
    IVec2 { x, y }
}

#[test]
fn default_brush() {
    let brush = BrushRes::new();
    assert!(brush.material.is_none());
    assert_eq!(brush.brush_type, BrushType::Cell);
    assert_eq!(brush.shape, BrushShape::Circle);
    assert_eq!(brush.size, 10);
}

#[test]
fn square_brush_covers_the_square_column_by_column() {
    let cells = BrushShape::Square.draw(iv(10, 20), 1);
    assert_eq!(
        cells,
        vec![
            iv(9, 19), iv(9, 20), iv(9, 21),
            iv(10, 19), iv(10, 20), iv(10, 21),
            iv(11, 19), iv(11, 20), iv(11, 21),
        ]
    );
}

#[test]
fn circle_brush_of_radius_one_is_a_plus() {
    let cells = BrushShape::Circle.draw(iv(0, 0), 1);
    assert_eq!(cells, vec![iv(-1, 0), iv(0, -1), iv(0, 0), iv(0, 1), iv(1, 0)]);
}

#[test]
fn circle_brush_counts() {
    assert_eq!(BrushShape::Circle.draw(iv(5, 5), 2).len(), 13);
    assert_eq!(BrushShape::Circle.draw(iv(5, 5), 10).len(), 317);
    assert_eq!(BrushShape::Square.draw(iv(5, 5), 10).len(), 441);
}

#[test]
fn brush_of_size_zero_and_negative() {
    assert_eq!(BrushShape::Square.draw(iv(3, 4), 0), vec![iv(3, 4)]);
    assert_eq!(BrushShape::Circle.draw(iv(3, 4), 0), vec![iv(3, 4)]);
    assert!(BrushShape::Circle.draw(iv(3, 4), -2).is_empty());
}

#[test]
fn circle_brush_cells_are_within_radius() {
    let size = 7;
    let cells = BrushShape::Circle.draw(iv(-3, 8), size);
    for c in &cells {
        let (dx, dy) = (c.x + 3, c.y - 8);
        assert!(dx * dx + dy * dy <= size * size);
    }
    for w in cells.windows(2) {
        assert!(w[0].x < w[1].x || (w[0].x == w[1].x && w[0].y < w[1].y));
    }
}


#[test]
fn square_brush_near_the_edge_of_the_range() {
    let cells = BrushShape::Square.draw(iv(i32::MAX - 1, i32::MIN + 1), 1);
    assert_eq!(cells.len(), 9);
    assert_eq!(cells[0], iv(i32::MAX - 2, i32::MIN));
    assert_eq!(cells[8], iv(i32::MAX, i32::MIN + 2));
}
