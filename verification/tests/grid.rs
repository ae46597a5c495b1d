use sandforge::constants::{CHUNK_CELLS, CHUNK_SIZE};
use sandforge::rolls::{dir_of, vec_8_of, vec_of};
use sandforge::helpers::{global_to_local, line_from_pixels, local_to_global, modify_local_position};
use sandforge::vector::{clamp_u32, i32_div_euclid, i32_rem_euclid, IVec2, URect, UVec2};

fn iv(x: i32, y: i32) -> IVec2 {
    IVec2 { x, y }
}

fn uv(x: u32, y: u32) -> UVec2 {
    UVec2 { x, y }
}

#[test]
fn chunk_constants() {
    assert_eq!(CHUNK_SIZE, 64);
    assert_eq!(CHUNK_CELLS, CHUNK_SIZE * CHUNK_SIZE);
}

#[test]
fn euclidean_division_rounds_down() {
    assert_eq!(i32_div_euclid(-7, 64), -1);
    assert_eq!(i32_rem_euclid(-7, 64), 57);
    assert_eq!(i32_div_euclid(130, 64), 2);
    assert_eq!(i32_rem_euclid(130, 64), 2);
    assert_eq!(i32_div_euclid(-64, 64), -1);
    assert_eq!(i32_rem_euclid(-64, 64), 0);
    assert_eq!(i32_div_euclid(i32::MIN, 64), i32::MIN / 64);
    assert_eq!(i32_rem_euclid(i32::MIN, 64), 0);
}

#[test]
fn clamping_and_saturation() {
    assert_eq!(clamp_u32(70, 0, 63), 63);
    assert_eq!(clamp_u32(5, 10, 63), 10);
    assert_eq!(clamp_u32(20, 10, 63), 20);
    assert_eq!(uv(70, 3).clamp(0, 63), uv(63, 3));
    assert_eq!(uv(u32::MAX, 4).saturating_add(2), uv(u32::MAX, 6));
    assert_eq!(uv(0, 4).saturating_sub(1), uv(0, 3));
}

#[test]
fn rect_from_corners_orders_corners() {
    let r = URect::from_corners(uv(5, 1), uv(2, 9));
    assert_eq!(r.min, uv(2, 1));
    assert_eq!(r.max, uv(5, 9));
}

#[test]
fn global_to_local_splits_positions() {
    assert_eq!(global_to_local(iv(0, 0)), (iv(0, 0), uv(0, 0)));
    assert_eq!(global_to_local(iv(63, 64)), (iv(0, 1), uv(63, 0)));
    assert_eq!(global_to_local(iv(-1, 130)), (iv(-1, 2), uv(63, 2)));
    assert_eq!(global_to_local(iv(-65, -64)), (iv(-2, -1), uv(63, 0)));
}

#[test]
fn local_to_global_joins_positions() {
    assert_eq!(local_to_global(iv(-1, 2), uv(63, 2)), iv(-1, 130));
    assert_eq!(local_to_global(iv(3, -4), uv(0, 10)), iv(192, -246));
}

#[test]
fn global_local_round_trip() {
    for &(x, y) in &[(0, 0), (-1, -1), (63, 64), (-129, 200), (1000, -1000), (i32::MAX, i32::MIN)] {
        let (chunk, cell) = global_to_local(iv(x, y));
        assert_eq!(local_to_global(chunk, cell), iv(x, y));
    }
    for &(cx, cy, lx, ly) in &[(0, 0, 0, 0), (-3, 5, 63, 1), (7, -7, 10, 62)] {
        let global = local_to_global(iv(cx, cy), uv(lx, ly));
        assert_eq!(global_to_local(global), (iv(cx, cy), uv(lx, ly)));
    }
}

#[test]
fn modify_local_position_crosses_chunks() {
    assert_eq!(modify_local_position(iv(0, 0), uv(63, 0), iv(1, 0)), (iv(1, 0), uv(0, 0)));
    assert_eq!(modify_local_position(iv(0, 0), uv(0, 0), iv(-1, -1)), (iv(-1, -1), uv(63, 63)));
    assert_eq!(modify_local_position(iv(2, 2), uv(10, 10), iv(3, -4)), (iv(2, 2), uv(13, 6)));
}

#[test]
fn line_shallow() {
    let points = line_from_pixels(iv(0, 0), iv(3, 1));
    assert_eq!(points, vec![iv(0, 0), iv(1, 0), iv(2, 1), iv(3, 1)]);
}

#[test]
fn line_steep_backwards() {
    let points = line_from_pixels(iv(2, 3), iv(0, -1));
    assert_eq!(points, vec![iv(2, 3), iv(2, 2), iv(1, 1), iv(1, 0), iv(0, -1)]);
}

#[test]
fn line_single_point() {
    assert_eq!(line_from_pixels(iv(-5, 7), iv(-5, 7)), vec![iv(-5, 7)]);
}

#[test]
fn line_diagonal_and_axis() {
    assert_eq!(line_from_pixels(iv(0, 0), iv(3, 3)), vec![iv(0, 0), iv(1, 1), iv(2, 2), iv(3, 3)]);
    assert_eq!(line_from_pixels(iv(4, 1), iv(1, 1)), vec![iv(4, 1), iv(3, 1), iv(2, 1), iv(1, 1)]);
}

#[test]
fn rolls_map_to_directions_and_offsets() {
    assert_eq!(dir_of(0), -1);
    assert_eq!(dir_of(7), 1);
    assert_eq!(dir_of(998), -1);
    assert_eq!(vec_of(0), (1, 1));
    assert_eq!(vec_of(3), (0, -1));
    assert_eq!(vec_of(8), (0, 0));
    assert_eq!(vec_of(9 + 5), (-1, 0));
    assert_eq!(vec_of(1999), (1, 0));
    assert_eq!(vec_8_of(0), (1, 1));
    assert_eq!(vec_8_of(4), (-1, -1));
    assert_eq!(vec_8_of(7), (0, 1));
}
