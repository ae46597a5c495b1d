use vstd::prelude::*;

use crate::materials::Material;
use crate::vector::IVec2;

verus! {

/// What the brush places.
#[derive(Clone, Copy, PartialEq, Eq, Structural, Debug)]
pub enum BrushType {
    Cell,
    Object,
    Particle(u8),
}

/// The shape of the brush.
#[derive(Clone, Copy, PartialEq, Eq, Structural, Debug)]
pub enum BrushShape {
    Circle,
    Square,
}

/// The brush the player paints with.
pub struct BrushRes {
    pub material: Option<Material>,
    pub brush_type: BrushType,
    pub shape: BrushShape,
    pub size: i32,
}

impl BrushRes {
    /// The brush a game starts with: no material, placing cells, a circle of radius 10.
    pub fn new() -> (b: BrushRes)
        ensures
            b.material is None,
            b.brush_type == BrushType::Cell,
            b.shape == BrushShape::Circle,
            b.size == 10,
    {
        BrushRes { material: None, brush_type: BrushType::Cell, shape: BrushShape::Circle, size: 10 }
    }
}

/// The offset `(dx, dy)` lies in a brush of the given shape and size.
pub open spec fn in_brush(shape: BrushShape, size: int, dx: int, dy: int) -> bool {
    &&& -size <= dx <= size
    &&& -size <= dy <= size
    &&& shape == BrushShape::Circle ==> dx * dx + dy * dy <= size * size
}

/// `a` comes before `b` column by column: by `x`, then by `y`.
pub open spec fn before(a: IVec2, b: IVec2) -> bool {
    a.x < b.x || (a.x == b.x && a.y < b.y)
}

/// The brush's cells can be named, and a circle's squared distances computed, without
/// overflowing an `i32`.
pub open spec fn brush_fits(shape: BrushShape, position: IVec2, size: int) -> bool {
    size >= 0 ==> {
        &&& shape == BrushShape::Circle ==> size <= 32767
        &&& i32::MIN <= position.x - size
        &&& position.x + size <= i32::MAX
        &&& i32::MIN <= position.y - size
        &&& position.y + size <= i32::MAX
    }
}

impl BrushShape {
    /// The cells the brush covers around `position`, column by column from the
    /// bottom-left: every cell within `size` in both directions, and for a circle only
    /// those within distance `size`. Each cell comes once.
    pub fn draw(&self, position: IVec2, size: i32) -> (cells: Vec<IVec2>)
        requires
            brush_fits(*self, position, size as int),
        ensures
            forall|k: int| 0 <= k < cells.len() ==> in_brush(*self, size as int, cells@[k].x - position.x, cells@[k].y - position.y),
            forall|q: IVec2| in_brush(*self, size as int, q.x - position.x, q.y - position.y) ==> cells@.contains(q),
            forall|k: int, l: int| 0 <= k < l < cells.len() ==> before(#[trigger] cells@[k], #[trigger] cells@[l]),
    {
        let mut cells: Vec<IVec2> = Vec::new();
        if size < 0 {
            return cells;
        }
        let size_64 = size as i64;
        let mut dx: i64 = -size_64;
        while dx <= size_64
            invariant
                0 <= size,
                size_64 == size,
                *self == BrushShape::Circle ==> size <= 32767,
                brush_fits(*self, position, size as int),
                -size <= dx <= size + 1,
                forall|k: int| 0 <= k < cells.len() ==> in_brush(*self, size as int, cells@[k].x - position.x, cells@[k].y - position.y),
                forall|k: int| 0 <= k < cells.len() ==> #[trigger] cells@[k].x < position.x + dx,
                forall|q: IVec2| q.x < position.x + dx && in_brush(*self, size as int, q.x - position.x, q.y - position.y)
                    ==> cells@.contains(q),
                forall|k: int, l: int| 0 <= k < l < cells.len() ==> before(#[trigger] cells@[k], #[trigger] cells@[l]),
            decreases size + 1 - dx,
        {
            let mut dy: i64 = -size_64;
            let ghost start = cells@;
            while dy <= size_64
                invariant
                    0 <= size,
                    size_64 == size,
                    *self == BrushShape::Circle ==> size <= 32767,
                    brush_fits(*self, position, size as int),
                    -size <= dx <= size,
                    -size <= dy <= size + 1,
                    start.len() <= cells.len(),
                    forall|k: int| 0 <= k < start.len() ==> cells@[k] == start[k],
                    forall|k: int| 0 <= k < start.len() ==> #[trigger] start[k].x < position.x + dx,
                    forall|k: int| start.len() <= k < cells.len() ==> #[trigger] cells@[k].x == position.x + dx && cells@[k].y < position.y + dy,
                    forall|k: int| 0 <= k < cells.len() ==> in_brush(*self, size as int, cells@[k].x - position.x, cells@[k].y - position.y),
                    forall|q: IVec2| q.x < position.x + dx && in_brush(*self, size as int, q.x - position.x, q.y - position.y)
                        ==> start.contains(q),
                    forall|q: IVec2| q.x == position.x + dx && q.y < position.y + dy && in_brush(*self, size as int, q.x - position.x, q.y - position.y)
                        ==> cells@.contains(q),
                    forall|k: int, l: int| 0 <= k < l < cells.len() ==> before(#[trigger] cells@[k], #[trigger] cells@[l]),
                decreases size + 1 - dy,
            {
                let inside = match self {
                    BrushShape::Circle => {
                        proof {
                            assert(0 <= dx * dx <= 32767 * 32767) by (nonlinear_arith) requires -32767 <= dx <= 32767;
                            assert(0 <= dy * dy <= 32767 * 32767) by (nonlinear_arith) requires -32767 <= dy <= 32767;
                            assert(0 <= size_64 * size_64 <= 32767 * 32767) by (nonlinear_arith)
                                requires 0 <= size_64 <= 32767;
                        }
                        dx * dx + dy * dy <= size_64 * size_64
                    },
                    BrushShape::Square => true,
                };
                if inside {
                    let ghost before_push = cells@;
                    let cell = IVec2 { x: (position.x as i64 + dx) as i32, y: (position.y as i64 + dy) as i32 };
                    assert forall|k: int| 0 <= k < before_push.len() implies before(before_push[k], cell) by {
                        if k < start.len() {
                            assert(start[k].x < position.x + dx);
                        }
                    }
                    cells.push(cell);
                    assert forall|k: int, l: int| 0 <= k < l < cells.len() implies before(
                        #[trigger] cells@[k],
                        #[trigger] cells@[l],
                    ) by {
                        if l < before_push.len() {
                            assert(before(before_push[k], before_push[l]));
                        } else {
                            assert(before(before_push[k], cell));
                        }
                    }
                    assert forall|q: IVec2| q.x == position.x + dx && q.y < position.y + dy + 1
                        && in_brush(*self, size as int, q.x - position.x, q.y - position.y) implies cells@.contains(q) by {
                        if q.y < position.y + dy {
                            assert(before_push.contains(q));
                            let j = choose|j: int| 0 <= j < before_push.len() && before_push[j] == q;
                            assert(cells@[j] == q);
                        } else {
                            assert(cells@[cells.len() - 1] == q);
                        }
                    }
                    assert forall|q: IVec2| q.x < position.x + dx && in_brush(*self, size as int, q.x - position.x, q.y - position.y)
                        implies start.contains(q) by {}
                }
                dy = dy + 1;
            }
            assert forall|k: int| 0 <= k < cells.len() implies #[trigger] cells@[k].x < position.x + dx + 1 by {
                if k < start.len() {
                    assert(start[k].x < position.x + dx);
                }
            }
            assert forall|q: IVec2| q.x < position.x + dx + 1 && in_brush(*self, size as int, q.x - position.x, q.y - position.y)
                implies cells@.contains(q) by {
                if q.x < position.x + dx {
                    assert(start.contains(q));
                    let j = choose|j: int| 0 <= j < start.len() && start[j] == q;
                    assert(cells@[j] == q);
                }
            }
            dx = dx + 1;
        }
        cells
    }
}

} // verus!
