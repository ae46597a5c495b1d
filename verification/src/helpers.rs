use vstd::prelude::*;

use crate::constants::CHUNK_SIZE;
use crate::vector::{IVec2, UVec2, div_euclid, rem_euclid, fits_i32, lemma_euclid, lemma_euclid_unique, i32_div_euclid, i32_rem_euclid};

verus! {

/// The chunk that holds a global cell position.
pub open spec fn chunk_of(position: IVec2) -> IVec2 {
    IVec2 {
        x: div_euclid(position.x as int, CHUNK_SIZE as int) as i32,
        y: div_euclid(position.y as int, CHUNK_SIZE as int) as i32,
    }
}

/// The position of a global cell inside its chunk.
pub open spec fn cell_in_chunk(position: IVec2) -> UVec2 {
    UVec2 {
        x: rem_euclid(position.x as int, CHUNK_SIZE as int) as u32,
        y: rem_euclid(position.y as int, CHUNK_SIZE as int) as u32,
    }
}

/// The global coordinate of cell `cell` in chunk `chunk` along one axis.
pub open spec fn global_coord(chunk: i32, cell: u32) -> int {
    chunk * CHUNK_SIZE + (cell as i32)
}

/// `local_to_global` does not overflow for these arguments.
pub open spec fn local_to_global_fits(chunk_position: IVec2, cell_position: UVec2) -> bool {
    &&& fits_i32(chunk_position.x * CHUNK_SIZE, chunk_position.y * CHUNK_SIZE)
    &&& fits_i32(
        global_coord(chunk_position.x, cell_position.x),
        global_coord(chunk_position.y, cell_position.y),
    )
}

pub open spec fn spec_local_to_global(chunk_position: IVec2, cell_position: UVec2) -> IVec2 {
    IVec2 {
        x: global_coord(chunk_position.x, cell_position.x) as i32,
        y: global_coord(chunk_position.y, cell_position.y) as i32,
    }
}

/// A cell position that lies inside a chunk.
pub open spec fn is_cell_in_chunk(cell_position: UVec2) -> bool {
    cell_position.x < CHUNK_SIZE && cell_position.y < CHUNK_SIZE
}

proof fn lemma_axis_to_local(a: i32)
    ensures
        i32::MIN <= div_euclid(a as int, CHUNK_SIZE as int) <= i32::MAX,
        0 <= rem_euclid(a as int, CHUNK_SIZE as int) < CHUNK_SIZE,
        div_euclid(a as int, CHUNK_SIZE as int) * CHUNK_SIZE
            + rem_euclid(a as int, CHUNK_SIZE as int) == a,
{
    lemma_euclid(a as int, CHUNK_SIZE as int);
}

/// Splits a global cell position into its chunk and its position in that chunk.
pub fn global_to_local(position: IVec2) -> (res: (IVec2, UVec2))
    ensures
        res.0 == chunk_of(position),
        res.1 == cell_in_chunk(position),
        is_cell_in_chunk(res.1),
{
    proof {
        lemma_axis_to_local(position.x);
        lemma_axis_to_local(position.y);
    }
    let chunk_position = IVec2 {
        x: i32_div_euclid(position.x, CHUNK_SIZE),
        y: i32_div_euclid(position.y, CHUNK_SIZE),
    };
    let cell_position = UVec2 {
        x: i32_rem_euclid(position.x, CHUNK_SIZE) as u32,
        y: i32_rem_euclid(position.y, CHUNK_SIZE) as u32,
    };
    (chunk_position, cell_position)
}

/// The global position of a cell given by its chunk and its position in that chunk.
pub fn local_to_global(chunk_position: IVec2, cell_position: UVec2) -> (res: IVec2)
    requires
        local_to_global_fits(chunk_position, cell_position),
    ensures
        res == spec_local_to_global(chunk_position, cell_position),
{
    IVec2 {
        x: chunk_position.x * CHUNK_SIZE + #[verifier::truncate] (cell_position.x as i32),
        y: chunk_position.y * CHUNK_SIZE + #[verifier::truncate] (cell_position.y as i32),
    }
}

/// Moves a local position by a global offset, crossing chunk borders as needed.
pub fn modify_local_position(chunk_position: IVec2, cell_position: UVec2, change: IVec2) -> (res: (
    IVec2,
    UVec2,
))
    requires
        local_to_global_fits(chunk_position, cell_position),
        fits_i32(
            global_coord(chunk_position.x, cell_position.x) + change.x,
            global_coord(chunk_position.y, cell_position.y) + change.y,
        ),
    ensures
        ({
            let g = spec_local_to_global(chunk_position, cell_position);
            let moved = IVec2 { x: (g.x + change.x) as i32, y: (g.y + change.y) as i32 };
            res == (chunk_of(moved), cell_in_chunk(moved))
        }),
{
    let global_position = local_to_global(chunk_position, cell_position);
    let moved = IVec2 { x: global_position.x + change.x, y: global_position.y + change.y };
    global_to_local(moved)
}

/// Splitting a global position and joining the parts gives the position back.
pub proof fn lemma_local_to_global_of_global_to_local(position: IVec2)
    ensures
        local_to_global_fits(chunk_of(position), cell_in_chunk(position)),
        spec_local_to_global(chunk_of(position), cell_in_chunk(position)) == position,
{
    lemma_axis_to_local(position.x);
    lemma_axis_to_local(position.y);
}

/// Joining a chunk and an in-chunk position, then splitting, gives the parts back.
pub proof fn lemma_global_to_local_of_local_to_global(chunk_position: IVec2, cell_position: UVec2)
    requires
        local_to_global_fits(chunk_position, cell_position),
        is_cell_in_chunk(cell_position),
    ensures
        chunk_of(spec_local_to_global(chunk_position, cell_position)) == chunk_position,
        cell_in_chunk(spec_local_to_global(chunk_position, cell_position)) == cell_position,
{
    let g = spec_local_to_global(chunk_position, cell_position);
    lemma_euclid_unique(g.x as int, CHUNK_SIZE as int, chunk_position.x as int, cell_position.x as int);
    lemma_euclid_unique(g.y as int, CHUNK_SIZE as int, chunk_position.y as int, cell_position.y as int);
}


/// Distance between two coordinates.
pub open spec fn abs_diff(a: i32, b: i32) -> int {
    if a <= b { b - a } else { a - b }
}

/// `c` lies on the side of `from` that faces `to` (the side walked by a line).
pub open spec fn on_walk_side(from: i32, to: i32, c: int) -> bool {
    if from < to { c >= from } else { c <= from }
}

/// The error term a line starts with.
pub open spec fn line_error0(dx: int, dy: int) -> int {
    if dx > dy { dx / 2 } else { -(dy / 2) }
}

/// The number of cells on the line between two points.
pub open spec fn line_len(point_1: IVec2, point_2: IVec2) -> int {
    let dx = abs_diff(point_1.x, point_2.x);
    let dy = abs_diff(point_1.y, point_2.y);
    if dx > dy { dx + 1 } else { dy + 1 }
}

/// The rounding error of cell `(i, j)` steps away from the line's start.
pub open spec fn line_error(dx: int, dy: int, i: int, j: int) -> int {
    line_error0(dx, dy) + j * dx - i * dy
}

/// The `k`-th cell of the rasterized line from `point_1` to `point_2` is `p`:
/// along the major axis it lies `k` steps from `point_1`, and along the minor axis
/// it is the cell whose rounding error stays inside one cell's width.
pub open spec fn is_line_cell(point_1: IVec2, point_2: IVec2, k: int, p: IVec2) -> bool {
    let dx = abs_diff(point_1.x, point_2.x);
    let dy = abs_diff(point_1.y, point_2.y);
    let i = abs_diff(point_1.x, p.x);
    let j = abs_diff(point_1.y, p.y);
    let e = line_error(dx, dy, i, j);
    &&& on_walk_side(point_1.x, point_2.x, p.x as int)
    &&& on_walk_side(point_1.y, point_2.y, p.y as int)
    &&& 0 <= i <= dx
    &&& 0 <= j <= dy
    &&& if dx > dy {
        i == k && 0 <= e < dx
    } else {
        j == k && (dy == 0 || -dy < e) && e <= 0
    }
}

/// The line's endpoints are at most `i32::MAX` apart on each axis.
pub open spec fn line_fits(point_1: IVec2, point_2: IVec2) -> bool {
    &&& -i32::MAX <= point_2.x - point_1.x <= i32::MAX
    &&& -i32::MAX <= point_2.y - point_1.y <= i32::MAX
}

/// One step of the line walk keeps the walk on the line and never passes its end.
proof fn lemma_line_step(dx: int, dy: int, i: int, j: int)
    requires
        0 <= dx,
        0 <= dy,
        0 <= i <= dx,
        0 <= j <= dy,
        dx > dy ==> 0 <= line_error(dx, dy, i, j) < dx,
        dx <= dy ==> (dy == 0 || -dy < line_error(dx, dy, i, j)) && line_error(dx, dy, i, j) <= 0,
        !(i == dx && j == dy),
    ensures
        ({
            let e = line_error(dx, dy, i, j);
            let mx = e > -dx;
            let my = e < dy;
            let i2 = if mx { i + 1 } else { i };
            let j2 = if my { j + 1 } else { j };
            let e2 = (if mx { e - dy } else { e }) + (if my { dx } else { 0 });
            &&& mx || my
            &&& i2 <= dx
            &&& j2 <= dy
            &&& e2 == line_error(dx, dy, i2, j2)
            &&& dx > dy ==> mx && 0 <= e2 < dx
            &&& dx <= dy ==> my && -dy < e2 <= 0
        }),
{
    let e0 = line_error0(dx, dy);
    let e = line_error(dx, dy, i, j);
    assert(line_error(dx, dy, i + 1, j) == e - dy) by (nonlinear_arith)
        requires e == e0 + j * dx - i * dy, line_error(dx, dy, i + 1, j) == e0 + j * dx - (i + 1) * dy;
    assert(line_error(dx, dy, i, j + 1) == e + dx) by (nonlinear_arith)
        requires e == e0 + j * dx - i * dy, line_error(dx, dy, i, j + 1) == e0 + (j + 1) * dx - i * dy;
    assert(line_error(dx, dy, i + 1, j + 1) == e - dy + dx) by (nonlinear_arith)
        requires e == e0 + j * dx - i * dy, line_error(dx, dy, i + 1, j + 1) == e0 + (j + 1) * dx - (i + 1) * dy;
    if dx > dy {
        assert(0 <= e0 < dx);
        if i == dx {
            // at the end of the major axis the minor axis is done too
            assert(e == e0 - (dy - j) * dx) by (nonlinear_arith)
                requires e == e0 + j * dx - i * dy, i == dx;
            if j < dy {
                assert((dy - j) * dx >= dx) by (nonlinear_arith) requires dy - j >= 1, dx >= 0;
            }
        }
        if j == dy && e < dy {
            assert(e == e0 + (dx - i) * dy) by (nonlinear_arith)
                requires e == e0 + j * dx - i * dy, j == dy;
            if i < dx {
                assert((dx - i) * dy >= dy) by (nonlinear_arith) requires dx - i >= 1, dy >= 0;
            }
        }
    } else {
        assert(-dy < e0 <= 0 || dy == 0);
        if dy == 0 {
            assert(dx == 0);
        }
        if j == dy {
            assert(e == e0 + (dx - i) * dy) by (nonlinear_arith)
                requires e == e0 + j * dx - i * dy, j == dy;
            if i < dx {
                assert((dx - i) * dy >= dy) by (nonlinear_arith) requires dx - i >= 1, dy >= 0;
            }
        }
        if i == dx && e > -dx {
            assert(e == e0 - (dy - j) * dx) by (nonlinear_arith)
                requires e == e0 + j * dx - i * dy, i == dx;
            if j < dy {
                assert((dy - j) * dx >= dx) by (nonlinear_arith) requires dy - j >= 1, dx >= 0;
            }
        }
    }
}

/// The cells of the line from `point_1` to `point_2`, in the order in which they are
/// walked: `point_1` first, `point_2` last, each one the rounding of the ideal line.
pub fn line_from_pixels(point_1: IVec2, point_2: IVec2) -> (points: Vec<IVec2>)
    requires
        line_fits(point_1, point_2),
    ensures
        points.len() == line_len(point_1, point_2),
        points@[0] == point_1,
        points@.last() == point_2,
        forall|k: int| 0 <= k < points.len() ==> is_line_cell(point_1, point_2, k, #[trigger] points@[k]),
{
    let dx: i64 = if point_1.x <= point_2.x {
        point_2.x as i64 - point_1.x as i64
    } else {
        point_1.x as i64 - point_2.x as i64
    };
    let dy: i64 = if point_1.y <= point_2.y {
        point_2.y as i64 - point_1.y as i64
    } else {
        point_1.y as i64 - point_2.y as i64
    };
    let sx: i64 = if point_1.x < point_2.x { 1 } else { -1 };
    let sy: i64 = if point_1.y < point_2.y { 1 } else { -1 };

    let mut error: i64 = if dx > dy { dx / 2 } else { -(dy / 2) };
    let mut current_x: i64 = point_1.x as i64;
    let mut current_y: i64 = point_1.y as i64;

    let mut points: Vec<IVec2> = Vec::new();
    let ghost mut i: int = 0;
    let ghost mut j: int = 0;

    loop
        invariant_except_break
            dx > dy ==> (i == points.len() && 0 <= error < dx),
            dx <= dy ==> (j == points.len() && (dy == 0 || -dy < error) && error <= 0),
            points.len() == 0 ==> i == 0 && j == 0,
        invariant
            dx == abs_diff(point_1.x, point_2.x),
            dy == abs_diff(point_1.y, point_2.y),
            0 <= dx <= i32::MAX,
            0 <= dy <= i32::MAX,
            sx == (if point_1.x < point_2.x { 1int } else { -1int }),
            sy == (if point_1.y < point_2.y { 1int } else { -1int }),
            0 <= i <= dx,
            0 <= j <= dy,
            current_x == (if point_1.x < point_2.x { point_1.x + i } else { point_1.x - i }),
            current_y == (if point_1.y < point_2.y { point_1.y + j } else { point_1.y - j }),
            error == line_error(dx as int, dy as int, i, j),
            points.len() > 0 ==> points@[0] == point_1,
            forall|k: int| 0 <= k < points.len() ==> is_line_cell(point_1, point_2, k, #[trigger] points@[k]),
        ensures
            points.len() == line_len(point_1, point_2),
            points@[0] == point_1,
            points@.last() == point_2,
            forall|k: int| 0 <= k < points.len() ==> is_line_cell(point_1, point_2, k, #[trigger] points@[k]),
        decreases (dx - i) + (dy - j),
    {
        let point = IVec2 { x: current_x as i32, y: current_y as i32 };
        assert(abs_diff(point_1.x, point.x) == i);
        assert(abs_diff(point_1.y, point.y) == j);
        assert(is_line_cell(point_1, point_2, points.len() as int, point));
        points.push(point);

        if current_x == point_2.x as i64 && current_y == point_2.y as i64 {
            assert(i == dx && j == dy);
            break;
        }
        proof {
            lemma_line_step(dx as int, dy as int, i, j);
        }
        let error2: i64 = error;
        if error2 > -dx {
            error = error - dy;
            current_x = current_x + sx;
            proof { i = i + 1; }
        }
        if error2 < dy {
            error = error + dx;
            current_y = current_y + sy;
            proof { j = j + 1; }
        }
    }
    points
}

} // verus!