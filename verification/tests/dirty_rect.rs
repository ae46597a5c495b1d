use sandforge::dirty_rect::{extend_rect_if_needed, update_dirty_rects, update_dirty_rects_3x3, DirtyRects, RectMap};
use sandforge::vector::{IVec2, URect, UVec2};

fn iv(x: i32, y: i32) -> IVec2 {
    IVec2 { x, y }
}

fn uv(x: u32, y: u32) -> UVec2 {
    UVec2 { x, y }
}

fn rect(x0: u32, y0: u32, x1: u32, y1: u32) -> URect {
    URect { min: uv(x0, y0), max: uv(x1, y1) }
}

#[test]
fn new_maps_are_empty() {
    let m = RectMap::new();
    assert_eq!(m.len(), 0);
    assert_eq!(m.get((0, 0)), None);
    let d = DirtyRects::new();
    assert_eq!(d.current.len(), 0);
    assert_eq!(d.new.len(), 0);
    assert_eq!(d.render.len(), 0);
}

#[test]
fn map_insert_then_get() {
    let mut m = RectMap::new();
    m.insert((1, -2), rect(1, 2, 3, 4));
    assert_eq!(m.get((1, -2)), Some(rect(1, 2, 3, 4)));
    assert_eq!(m.get((-2, 1)), None);
    m.insert((1, -2), rect(0, 0, 1, 1));
    assert_eq!(m.get((1, -2)), Some(rect(0, 0, 1, 1)));
    assert_eq!(m.len(), 1);
}

#[test]
fn swap_exchanges_current_and_new() {
    let mut d = DirtyRects::new();
    d.new.insert((3, 3), rect(0, 0, 2, 2));
    d.render.insert((4, 4), rect(0, 0, 1, 1));
    d.swap();
    assert_eq!(d.current.get((3, 3)), Some(rect(0, 0, 2, 2)));
    assert_eq!(d.new.len(), 0);
    assert_eq!(d.render.get((4, 4)), Some(rect(0, 0, 1, 1)));
}

#[test]
fn extend_rect_grows_and_clamps() {
    let mut r = rect(5, 5, 6, 6);
    extend_rect_if_needed(&mut r, &uv(2, 8));
    assert_eq!(r, rect(2, 5, 6, 9));
    extend_rect_if_needed(&mut r, &uv(70, 70));
    assert_eq!(r, rect(2, 5, 64, 64));
    extend_rect_if_needed(&mut r, &uv(3, 6));
    assert_eq!(r, rect(2, 5, 64, 64));
}

#[test]
fn marking_a_cell() {
    let mut m = RectMap::new();
    update_dirty_rects(&mut m, iv(0, 0), uv(5, 5));
    assert_eq!(m.get((0, 0)), Some(rect(5, 5, 6, 6)));
    update_dirty_rects(&mut m, iv(0, 0), uv(10, 2));
    assert_eq!(m.get((0, 0)), Some(rect(5, 2, 11, 6)));
    update_dirty_rects(&mut m, iv(-1, 7), uv(63, 63));
    assert_eq!(m.get((-1, 7)), Some(rect(63, 63, 64, 64)));
    assert_eq!(m.len(), 2);
}

#[test]
fn marked_cell_is_covered() {
    let mut m = RectMap::new();
    for &(x, y) in &[(7u32, 40u32), (0, 0), (63, 12), (30, 63)] {
        update_dirty_rects(&mut m, iv(2, 2), uv(x, y));
        let r = m.get((2, 2)).unwrap();
        assert!(r.min.x <= x && x < r.max.x && r.min.y <= y && y < r.max.y);
        assert!(r.max.x <= 64 && r.max.y <= 64);
    }
}

#[test]
fn marking_three_by_three_inside_a_chunk() {
    let mut m = RectMap::new();
    update_dirty_rects_3x3(&mut m, iv(0, 0), uv(5, 5));
    assert_eq!(m.get((0, 0)), Some(rect(4, 4, 7, 7)));
    assert_eq!(m.len(), 1);
    update_dirty_rects_3x3(&mut m, iv(0, 0), uv(20, 1));
    assert_eq!(m.get((0, 0)), Some(rect(4, 0, 22, 7)));
}

#[test]
fn marking_three_by_three_on_a_side() {
    let mut m = RectMap::new();
    update_dirty_rects_3x3(&mut m, iv(0, 0), uv(63, 10));
    assert_eq!(m.get((0, 0)), Some(rect(62, 9, 64, 12)));
    assert_eq!(m.get((1, 0)), Some(rect(0, 10, 2, 12)));
    assert_eq!(m.len(), 2);
}

#[test]
fn marking_three_by_three_in_a_corner() {
    let mut m = RectMap::new();
    update_dirty_rects_3x3(&mut m, iv(0, 0), uv(0, 0));
    assert_eq!(m.get((0, 0)), Some(rect(0, 0, 2, 2)));
    assert_eq!(m.get((-1, -1)), Some(rect(63, 63, 64, 64)));
    assert_eq!(m.get((-1, 0)), Some(rect(63, 0, 64, 2)));
    assert_eq!(m.get((0, -1)), Some(rect(0, 63, 2, 64)));
    assert_eq!(m.len(), 4);
}

#[test]
fn marking_three_by_three_in_a_mixed_corner() {
    // Top-left corner: only the chunk to the upper left is marked.
    let mut m = RectMap::new();
    update_dirty_rects_3x3(&mut m, iv(5, 5), uv(0, 63));
    assert_eq!(m.get((5, 5)), Some(rect(0, 62, 2, 64)));
    assert_eq!(m.get((4, 6)), Some(rect(63, 0, 64, 2)));
    assert_eq!(m.len(), 2);
}

#[test]
fn marking_three_by_three_covers_neighbours() {
    let mut m = RectMap::new();
    update_dirty_rects(&mut m, iv(1, 1), uv(30, 30));
    for &(x, y) in &[(10u32, 10u32), (0, 33), (63, 63), (40, 0)] {
        update_dirty_rects_3x3(&mut m, iv(1, 1), uv(x, y));
        let r = m.get((1, 1)).unwrap();
        for qx in x.saturating_sub(1)..=(x + 1).min(63) {
            for qy in y.saturating_sub(1)..=(y + 1).min(63) {
                assert!(r.min.x <= qx && qx < r.max.x && r.min.y <= qy && qy < r.max.y);
            }
        }
        assert!(r.min.x <= 30 && 30 < r.max.x);
    }
}

#[test]
fn marking_three_by_three_touches_only_nearby_chunks() {
    let mut m = RectMap::new();
    update_dirty_rects(&mut m, iv(9, 9), uv(1, 1));
    update_dirty_rects(&mut m, iv(0, 0), uv(30, 30));
    for &(x, y) in &[(0u32, 0u32), (63, 63), (0, 30), (30, 63)] {
        update_dirty_rects_3x3(&mut m, iv(0, 0), uv(x, y));
    }
    assert_eq!(m.get((9, 9)), Some(rect(1, 1, 2, 2)));
    for kx in -2..=2 {
        for ky in -2..=2 {
            if let Some(r) = m.get((kx, ky)) {
                assert!(kx.abs() <= 1 && ky.abs() <= 1);
                assert!(r.min.x < r.max.x && r.max.x <= 64 && r.min.y < r.max.y && r.max.y <= 64);
            }
        }
    }
}
