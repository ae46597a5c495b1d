use vstd::prelude::*;

use crate::constants::CHUNK_SIZE;
use crate::helpers::{chunk_of, cell_in_chunk, global_coord, is_cell_in_chunk, local_to_global_fits, modify_local_position, spec_local_to_global};
use crate::vector::{IVec2, URect, UVec2, fits_i32, spec_clamp, spec_from_corners, spec_max, spec_min};

verus! {

/// Asks for the cell at `cell_position` of chunk `chunk_position` to be simulated in
/// the next pass (and, if `awake_surrouding`, its neighbours too).
#[derive(Clone, Copy, PartialEq, Eq, Structural, Debug, Default)]
pub struct UpdateMessage {
    pub chunk_position: IVec2,
    pub cell_position: UVec2,
    pub awake_surrouding: bool,
}

/// Asks for the cell at `cell_position` of chunk `chunk_position` to be redrawn.
#[derive(Clone, Copy, PartialEq, Eq, Structural, Debug, Default)]
pub struct RenderMessage {
    pub chunk_position: IVec2,
    pub cell_position: UVec2,
}

/// The dirty rectangles of chunks, keyed by chunk position `(x, y)`, kept in a
/// `bevy_utils::HashMap`.
#[verifier::external_body]
pub struct RectMap {
    map: bevy_utils::HashMap<(i32, i32), URect>,
}

/// A map without rectangles.
pub open spec fn empty_rect_map() -> Map<(i32, i32), URect> {
    Map::empty()
}

/// The rectangles a `RectMap` holds, by chunk position.
pub uninterp spec fn rect_map_contents(m: RectMap) -> Map<(i32, i32), URect>;

impl RectMap {
    /// Calls `bevy_utils::HashMap::default`: an empty map.
    #[verifier::external_body]
    pub fn new() -> (result: RectMap)
        ensures
            rect_map_contents(result) == empty_rect_map(),
    {
        RectMap { map: bevy_utils::HashMap::default() }
    }

    /// Calls `HashMap::get`: the rectangle stored for `key`, if any.
    #[verifier::external_body]
    pub fn get(&self, key: (i32, i32)) -> (r: Option<URect>)
        ensures
            r == (if rect_map_contents(*self).contains_key(key) {
                Some(rect_map_contents(*self)[key])
            } else {
                None
            }),
    {
        self.map.get(&key).copied()
    }

    /// Calls `HashMap::insert`: stores `value` for `key`, replacing what was there.
    #[verifier::external_body]
    pub fn insert(&mut self, key: (i32, i32), value: URect)
        ensures
            rect_map_contents(*final(self)) == rect_map_contents(*old(self)).insert(key, value),
    {
        self.map.insert(key, value);
    }

    /// Calls `HashMap::len`: the number of chunks with a rectangle.
    #[verifier::external_body]
    pub fn len(&self) -> (n: usize)
        ensures
            n == rect_map_contents(*self).len(),
    {
        self.map.len()
    }
}

/// The dirty rectangles of the chunks: those being simulated, those to simulate in
/// the next pass, and those to redraw.
pub struct DirtyRects {
    pub current: RectMap,
    pub new: RectMap,
    pub render: RectMap,
}

impl DirtyRects {
    /// No dirty rectangles at all.
    pub fn new() -> (d: DirtyRects)
        ensures
            rect_map_contents(d.current) == empty_rect_map(),
            rect_map_contents(d.new) == empty_rect_map(),
            rect_map_contents(d.render) == empty_rect_map(),
    {
        DirtyRects { current: RectMap::new(), new: RectMap::new(), render: RectMap::new() }
    }

    /// Makes the rectangles collected for the next pass the current ones, and the
    /// current ones the collection to fill next.
    pub fn swap(&mut self)
        ensures
            final(self).current == old(self).new,
            final(self).new == old(self).current,
            final(self).render == old(self).render,
    {
        std::mem::swap(&mut self.current, &mut self.new)
    }
}

/// A rectangle grown to cover the cell `pos`, kept inside the chunk.
pub open spec fn extended(rect: URect, pos: UVec2) -> URect {
    URect {
        min: UVec2 {
            x: spec_clamp(spec_min(rect.min.x as int, pos.x as int), 0, CHUNK_SIZE - 1) as u32,
            y: spec_clamp(spec_min(rect.min.y as int, pos.y as int), 0, CHUNK_SIZE - 1) as u32,
        },
        max: UVec2 {
            x: spec_clamp(spec_max(rect.max.x as int, pos.x + 1), 0, CHUNK_SIZE as int) as u32,
            y: spec_clamp(spec_max(rect.max.y as int, pos.y + 1), 0, CHUNK_SIZE as int) as u32,
        },
    }
}

/// Grows `rect` to cover the cell `pos`, kept inside the chunk.
pub fn extend_rect_if_needed(rect: &mut URect, pos: &UVec2)
    requires
        pos.x < u32::MAX,
        pos.y < u32::MAX,
    ensures
        *final(rect) == extended(*old(rect), *pos),
{
    let min_x = if rect.min.x <= pos.x { rect.min.x } else { pos.x };
    rect.min.x = crate::vector::clamp_u32(min_x, 0, CHUNK_SIZE as u32 - 1);
    let max_x = if rect.max.x >= pos.x + 1 { rect.max.x } else { pos.x + 1 };
    rect.max.x = crate::vector::clamp_u32(max_x, 0, CHUNK_SIZE as u32);

    let min_y = if rect.min.y <= pos.y { rect.min.y } else { pos.y };
    rect.min.y = crate::vector::clamp_u32(min_y, 0, CHUNK_SIZE as u32 - 1);
    let max_y = if rect.max.y >= pos.y + 1 { rect.max.y } else { pos.y + 1 };
    rect.max.y = crate::vector::clamp_u32(max_y, 0, CHUNK_SIZE as u32);
}

/// The rectangle from `lo` up to (not including) `hi`, both kept inside the chunk.
pub open spec fn clamped_rect(lo: UVec2, hi: UVec2) -> URect {
    spec_from_corners(
        UVec2 {
            x: spec_clamp(lo.x as int, 0, CHUNK_SIZE - 1) as u32,
            y: spec_clamp(lo.y as int, 0, CHUNK_SIZE - 1) as u32,
        },
        UVec2 {
            x: spec_clamp(hi.x as int, 0, CHUNK_SIZE as int) as u32,
            y: spec_clamp(hi.y as int, 0, CHUNK_SIZE as int) as u32,
        },
    )
}

/// `v + n` on each coordinate, saturating at `u32::MAX`.
pub open spec fn sat_plus(v: UVec2, n: int) -> UVec2 {
    UVec2 { x: spec_min(v.x + n, u32::MAX as int) as u32, y: spec_min(v.y + n, u32::MAX as int) as u32 }
}

/// `v - n` on each coordinate, saturating at 0.
pub open spec fn sat_minus(v: UVec2, n: int) -> UVec2 {
    UVec2 { x: spec_max(v.x - n, 0) as u32, y: spec_max(v.y - n, 0) as u32 }
}

pub open spec fn key(chunk_position: IVec2) -> (i32, i32) {
    (chunk_position.x, chunk_position.y)
}

/// The map after marking `pos` of chunk `k`: its rectangle grows to cover `pos`, or,
/// when the chunk had none, it gets `fresh`.
pub open spec fn marked(m: Map<(i32, i32), URect>, k: (i32, i32), pos: UVec2, fresh: URect) -> Map<
    (i32, i32),
    URect,
> {
    if m.contains_key(k) {
        m.insert(k, extended(m[k], pos))
    } else {
        m.insert(k, fresh)
    }
}

fn mark_or_insert(dirty_rects: &mut RectMap, chunk_position: IVec2, pos: UVec2, fresh: URect)
    requires
        pos.x < u32::MAX,
        pos.y < u32::MAX,
    ensures
        rect_map_contents(*final(dirty_rects)) == marked(rect_map_contents(*old(dirty_rects)), key(chunk_position), pos, fresh),
{
    let k = (chunk_position.x, chunk_position.y);
    match dirty_rects.get(k) {
        Some(rect) => {
            let mut rect = rect;
            extend_rect_if_needed(&mut rect, &pos);
            dirty_rects.insert(k, rect);
        },
        None => {
            dirty_rects.insert(k, fresh);
        },
    }
}

/// Marks the cell `cell_position` of chunk `chunk_position` dirty.
pub fn update_dirty_rects(dirty_rects: &mut RectMap, chunk_position: IVec2, cell_position: UVec2)
    requires
        cell_position.x < u32::MAX,
        cell_position.y < u32::MAX,
    ensures
        rect_map_contents(*final(dirty_rects)) == marked(
            rect_map_contents(*old(dirty_rects)),
            key(chunk_position),
            cell_position,
            clamped_rect(cell_position, sat_plus(cell_position, 1)),
        ),
{
    let fresh = URect::from_corners(
        cell_position.clamp(0, CHUNK_SIZE as u32 - 1),
        cell_position.saturating_add(1).clamp(0, CHUNK_SIZE as u32),
    );
    mark_or_insert(dirty_rects, chunk_position, cell_position, fresh);
}

/// `1` at the chunk's last row or column, `-1` at its first, `0` inside.
pub open spec fn border_offset(c: u32) -> int {
    (if c == CHUNK_SIZE - 1 { 1int } else { 0 }) - (if c == 0 { 1int } else { 0 })
}

/// The neighbouring cell `(dx, dy)` away, as a chunk position and a position inside it.
pub open spec fn neighbour(chunk_position: IVec2, cell_position: UVec2, dx: int, dy: int) -> (IVec2, UVec2) {
    let g = spec_local_to_global(chunk_position, cell_position);
    let moved = IVec2 { x: (g.x + dx) as i32, y: (g.y + dy) as i32 };
    (chunk_of(moved), cell_in_chunk(moved))
}

/// The map after marking the neighbouring cell `(dx, dy)` away together with the cell
/// after it.
pub open spec fn marked_neighbour(
    m: Map<(i32, i32), URect>,
    chunk_position: IVec2,
    cell_position: UVec2,
    dx: int,
    dy: int,
) -> Map<(i32, i32), URect> {
    let (c, l) = neighbour(chunk_position, cell_position, dx, dy);
    marked(m, key(c), l, clamped_rect(l, sat_plus(l, 2)))
}

/// The `i`-th of the nine offsets around a cell, column by column from `(-1, -1)`.
pub open spec fn nine_offset(i: int) -> (int, int) {
    (i / 3 - 1, i % 3 - 1)
}

/// The map after marking the neighbours at the first `n` of the nine offsets.
pub open spec fn marked_nine(m: Map<(i32, i32), URect>, chunk_position: IVec2, cell_position: UVec2, n: nat) -> Map<
    (i32, i32),
    URect,
>
    decreases n,
{
    if n == 0 {
        m
    } else {
        let o = nine_offset(n - 1);
        marked_neighbour(marked_nine(m, chunk_position, cell_position, (n - 1) as nat), chunk_position, cell_position, o.0, o.1)
    }
}

/// The map after marking the cell and its eight neighbours dirty: the cell's own
/// chunk grows to cover the cells around it; a cell on the chunk's border also marks
/// the neighbouring chunk in the direction of that border (all eight neighbours for
/// the bottom-left and top-right corner cells).
pub open spec fn marked_3x3(m: Map<(i32, i32), URect>, chunk_position: IVec2, cell_position: UVec2) -> Map<
    (i32, i32),
    URect,
> {
    let k = key(chunk_position);
    let m1 = if m.contains_key(k) {
        m.insert(k, extended(extended(m[k], sat_plus(cell_position, 1)), sat_minus(cell_position, 1)))
    } else {
        m.insert(k, clamped_rect(sat_minus(cell_position, 1), sat_plus(cell_position, 2)))
    };
    let ox = border_offset(cell_position.x);
    let oy = border_offset(cell_position.y);
    if ox == 0 && oy == 0 {
        m1
    } else if (ox == 1 && oy == 1) || (ox == -1 && oy == -1) {
        marked_nine(m1, chunk_position, cell_position, 9)
    } else {
        marked_neighbour(m1, chunk_position, cell_position, ox, oy)
    }
}

/// The neighbours of a cell on a chunk's border can be named.
pub open spec fn neighbours_fit(chunk_position: IVec2, cell_position: UVec2) -> bool {
    let gx = global_coord(chunk_position.x, cell_position.x);
    let gy = global_coord(chunk_position.y, cell_position.y);
    &&& local_to_global_fits(chunk_position, cell_position)
    &&& fits_i32(gx - 1, gy - 1)
    &&& fits_i32(gx + 1, gy + 1)
}

fn mark_neighbour(dirty_rects: &mut RectMap, chunk_position: IVec2, cell_position: UVec2, dx: i32, dy: i32)
    requires
        neighbours_fit(chunk_position, cell_position),
        -1 <= dx <= 1,
        -1 <= dy <= 1,
    ensures
        rect_map_contents(*final(dirty_rects)) == marked_neighbour(
            rect_map_contents(*old(dirty_rects)),
            chunk_position,
            cell_position,
            dx as int,
            dy as int,
        ),
{
    let (chunk_position, cell_position) = modify_local_position(chunk_position, cell_position, IVec2 { x: dx, y: dy });
    let fresh = URect::from_corners(
        cell_position.clamp(0, CHUNK_SIZE as u32 - 1),
        cell_position.saturating_add(2).clamp(0, CHUNK_SIZE as u32),
    );
    mark_or_insert(dirty_rects, chunk_position, cell_position, fresh);
}

/// Marks the cell `cell_position` of chunk `chunk_position` and the cells around it dirty.
pub fn update_dirty_rects_3x3(dirty_rects: &mut RectMap, chunk_position: IVec2, cell_position: UVec2)
    requires
        cell_position.x < u32::MAX - 1,
        cell_position.y < u32::MAX - 1,
        border_offset(cell_position.x) != 0 || border_offset(cell_position.y) != 0 ==> neighbours_fit(
            chunk_position,
            cell_position,
        ),
    ensures
        rect_map_contents(*final(dirty_rects)) == marked_3x3(rect_map_contents(*old(dirty_rects)), chunk_position, cell_position),
{
    let k = (chunk_position.x, chunk_position.y);
    match dirty_rects.get(k) {
        Some(rect) => {
            let mut rect = rect;
            extend_rect_if_needed(&mut rect, &cell_position.saturating_add(1));
            extend_rect_if_needed(&mut rect, &cell_position.saturating_sub(1));
            dirty_rects.insert(k, rect);
        },
        None => {
            dirty_rects.insert(
                k,
                URect::from_corners(
                    cell_position.saturating_sub(1).clamp(0, CHUNK_SIZE as u32 - 1),
                    cell_position.saturating_add(2).clamp(0, CHUNK_SIZE as u32),
                ),
            );
        },
    }
    let ghost m1 = rect_map_contents(*dirty_rects);

    let ox: i32 = (if cell_position.x == CHUNK_SIZE as u32 - 1 { 1i32 } else { 0i32 }) - (if cell_position.x == 0 { 1i32 } else { 0i32 });
    let oy: i32 = (if cell_position.y == CHUNK_SIZE as u32 - 1 { 1i32 } else { 0i32 }) - (if cell_position.y == 0 { 1i32 } else { 0i32 });

    if ox == 0 && oy == 0 {
    } else if (ox == 1 && oy == 1) || (ox == -1 && oy == -1) {
        let mut i: i32 = 0;
        while i < 9
            invariant
                0 <= i <= 9,
                neighbours_fit(chunk_position, cell_position),
                rect_map_contents(*dirty_rects) == marked_nine(m1, chunk_position, cell_position, i as nat),
            decreases 9 - i,
        {
            let x = i / 3 - 1;
            let y = i % 3 - 1;
            mark_neighbour(dirty_rects, chunk_position, cell_position, x, y);
            i = i + 1;
        }
    } else {
        mark_neighbour(dirty_rects, chunk_position, cell_position, ox, oy);
    }
}

/// `r` covers the cell `p`.
pub open spec fn covers(r: URect, p: UVec2) -> bool {
    r.min.x <= p.x < r.max.x && r.min.y <= p.y < r.max.y
}

/// `r` lies inside a chunk.
pub open spec fn in_chunk_rect(r: URect) -> bool {
    r.min.x < CHUNK_SIZE && r.min.y < CHUNK_SIZE && r.max.x <= CHUNK_SIZE && r.max.y <= CHUNK_SIZE
}

/// `outer` covers every cell `inner` covers.
pub open spec fn contains_rect(outer: URect, inner: URect) -> bool {
    outer.min.x <= inner.min.x && outer.min.y <= inner.min.y && inner.max.x <= outer.max.x
        && inner.max.y <= outer.max.y
}

proof fn lemma_extended_grows(r: URect, p: UVec2)
    requires
        in_chunk_rect(r),
        p.x <= CHUNK_SIZE,
        p.y <= CHUNK_SIZE,
    ensures
        in_chunk_rect(extended(r, p)),
        contains_rect(extended(r, p), r),
        is_cell_in_chunk(p) ==> covers(extended(r, p), p),
{
}

/// Marking a cell of a chunk on `m` keeps the rectangle of chunk `k` (which `m` has)
/// inside its chunk and covering at least what it covered.
proof fn lemma_marked_keeps(m: Map<(i32, i32), URect>, k: (i32, i32), k2: (i32, i32), l: UVec2, fresh: URect)
    requires
        m.contains_key(k),
        in_chunk_rect(m[k]),
        is_cell_in_chunk(l),
    ensures
        marked(m, k2, l, fresh).contains_key(k),
        in_chunk_rect(marked(m, k2, l, fresh)[k]),
        contains_rect(marked(m, k2, l, fresh)[k], m[k]),
{
    if k2 == k {
        lemma_extended_grows(m[k], l);
    }
}

proof fn lemma_marked_nine_keeps(m: Map<(i32, i32), URect>, k: (i32, i32), chunk_position: IVec2, cell_position: UVec2, n: nat)
    requires
        m.contains_key(k),
        in_chunk_rect(m[k]),
        n <= 9,
    ensures
        marked_nine(m, chunk_position, cell_position, n).contains_key(k),
        in_chunk_rect(marked_nine(m, chunk_position, cell_position, n)[k]),
        contains_rect(marked_nine(m, chunk_position, cell_position, n)[k], m[k]),
    decreases n,
{
    if n > 0 {
        let prev = marked_nine(m, chunk_position, cell_position, (n - 1) as nat);
        lemma_marked_nine_keeps(m, k, chunk_position, cell_position, (n - 1) as nat);
        let o = nine_offset(n - 1);
        let (c, l) = neighbour(chunk_position, cell_position, o.0, o.1);
        let g = spec_local_to_global(chunk_position, cell_position);
        crate::vector::lemma_euclid(((g.x + o.0) as i32) as int, CHUNK_SIZE as int);
        crate::vector::lemma_euclid(((g.y + o.1) as i32) as int, CHUNK_SIZE as int);
        assert(is_cell_in_chunk(l));
        lemma_marked_keeps(prev, k, key(c), l, clamped_rect(l, sat_plus(l, 2)));
    }
}

/// Marking a cell of a chunk dirty leaves that chunk with a rectangle that covers the
/// cell and everything it covered before, and leaves the other chunks alone.
pub proof fn law_marked_cell_is_dirty(m: Map<(i32, i32), URect>, chunk_position: IVec2, cell_position: UVec2)
    requires
        is_cell_in_chunk(cell_position),
        m.contains_key(key(chunk_position)) ==> in_chunk_rect(m[key(chunk_position)]),
    ensures
        ({
            let k = key(chunk_position);
            let m2 = marked(m, k, cell_position, clamped_rect(cell_position, sat_plus(cell_position, 1)));
            &&& m2.contains_key(k)
            &&& in_chunk_rect(m2[k])
            &&& covers(m2[k], cell_position)
            &&& m.contains_key(k) ==> contains_rect(m2[k], m[k])
            &&& m2.remove(k) == m.remove(k)
        }),
{
    let k = key(chunk_position);
    if m.contains_key(k) {
        lemma_extended_grows(m[k], cell_position);
    }
    let m2 = marked(m, k, cell_position, clamped_rect(cell_position, sat_plus(cell_position, 1)));
    assert(m2.remove(k) =~= m.remove(k));
}

/// Marking a cell and its neighbours dirty leaves the cell's chunk with a rectangle
/// that covers every cell of that chunk next to or at the marked one, and everything
/// it covered before.
pub proof fn law_marked_3x3_is_dirty(m: Map<(i32, i32), URect>, chunk_position: IVec2, cell_position: UVec2)
    requires
        is_cell_in_chunk(cell_position),
        m.contains_key(key(chunk_position)) ==> in_chunk_rect(m[key(chunk_position)]),
    ensures
        ({
            let k = key(chunk_position);
            let m2 = marked_3x3(m, chunk_position, cell_position);
            &&& m2.contains_key(k)
            &&& in_chunk_rect(m2[k])
            &&& m.contains_key(k) ==> contains_rect(m2[k], m[k])
            &&& forall|q: UVec2|
                is_cell_in_chunk(q) && -1 <= q.x - cell_position.x <= 1 && -1 <= q.y - cell_position.y <= 1
                    ==> #[trigger] covers(m2[k], q)
        }),
{
    let k = key(chunk_position);
    let m1 = if m.contains_key(k) {
        lemma_extended_grows(m[k], sat_plus(cell_position, 1));
        lemma_extended_grows(extended(m[k], sat_plus(cell_position, 1)), sat_minus(cell_position, 1));
        m.insert(k, extended(extended(m[k], sat_plus(cell_position, 1)), sat_minus(cell_position, 1)))
    } else {
        m.insert(k, clamped_rect(sat_minus(cell_position, 1), sat_plus(cell_position, 2)))
    };
    assert(in_chunk_rect(m1[k]));
    let m2 = marked_3x3(m, chunk_position, cell_position);
    let ox = border_offset(cell_position.x);
    let oy = border_offset(cell_position.y);
    if ox == 0 && oy == 0 {
    } else if (ox == 1 && oy == 1) || (ox == -1 && oy == -1) {
        lemma_marked_nine_keeps(m1, k, chunk_position, cell_position, 9);
    } else {
        let (c, l) = neighbour(chunk_position, cell_position, ox, oy);
        let g = spec_local_to_global(chunk_position, cell_position);
        crate::vector::lemma_euclid(((g.x + ox) as i32) as int, CHUNK_SIZE as int);
        crate::vector::lemma_euclid(((g.y + oy) as i32) as int, CHUNK_SIZE as int);
        lemma_marked_keeps(m1, k, key(c), l, clamped_rect(l, sat_plus(l, 2)));
    }
    assert forall|q: UVec2|
        is_cell_in_chunk(q) && -1 <= q.x - cell_position.x <= 1 && -1 <= q.y - cell_position.y <= 1
            implies #[trigger] covers(m2[k], q) by {
        assert(covers(m1[k], q));
    }
}

/// `r` is a non-empty rectangle inside a chunk.
pub open spec fn good_rect(r: URect) -> bool {
    &&& in_chunk_rect(r)
    &&& r.min.x < r.max.x
    &&& r.min.y < r.max.y
}

/// Every rectangle of `m` is non-empty and inside its chunk.
pub open spec fn all_good(m: Map<(i32, i32), URect>) -> bool {
    forall|k: (i32, i32)| #[trigger] m.contains_key(k) ==> good_rect(m[k])
}

/// `m2` keeps every chunk of `m`, each with a rectangle at least as large.
pub open spec fn grows(m: Map<(i32, i32), URect>, m2: Map<(i32, i32), URect>) -> bool {
    forall|k: (i32, i32)| #[trigger] m.contains_key(k) ==> m2.contains_key(k) && contains_rect(m2[k], m[k])
}

/// The chunk `k` is `c` or one of its eight neighbours.
pub open spec fn near(k: (i32, i32), c: IVec2) -> bool {
    -1 <= k.0 - c.x <= 1 && -1 <= k.1 - c.y <= 1
}

/// The chunks whose rectangle `m2` adds or changes against `m` all satisfy `ok`.
pub open spec fn changed_only(m: Map<(i32, i32), URect>, m2: Map<(i32, i32), URect>, ok: spec_fn((i32, i32)) -> bool) -> bool {
    forall|k: (i32, i32)| #[trigger] m2.contains_key(k) && !(m.contains_key(k) && m2[k] == m[k]) ==> ok(k)
}

/// Marking one cell keeps the rectangles good, only grows them, and touches only the
/// marked chunk.
proof fn lemma_marked_general(m: Map<(i32, i32), URect>, k2: (i32, i32), l: UVec2, fresh: URect)
    requires
        all_good(m),
        l.x <= CHUNK_SIZE,
        l.y <= CHUNK_SIZE,
        good_rect(fresh),
    ensures
        all_good(marked(m, k2, l, fresh)),
        grows(m, marked(m, k2, l, fresh)),
        changed_only(m, marked(m, k2, l, fresh), |k: (i32, i32)| k == k2),
{
    if m.contains_key(k2) {
        lemma_extended_grows(m[k2], l);
    }
    let m2 = marked(m, k2, l, fresh);
    assert forall|k: (i32, i32)| #[trigger] m.contains_key(k) implies m2.contains_key(k) && contains_rect(m2[k], m[k]) by {
        if k == k2 {
            lemma_extended_grows(m[k2], l);
        }
    }
}

/// The neighbouring cell `(dx, dy)` away lies in a chunk next to (or at) the cell's own.
proof fn lemma_neighbour_near(chunk_position: IVec2, cell_position: UVec2, dx: int, dy: int)
    requires
        is_cell_in_chunk(cell_position),
        neighbours_fit(chunk_position, cell_position),
        -1 <= dx <= 1,
        -1 <= dy <= 1,
    ensures
        near(key(neighbour(chunk_position, cell_position, dx, dy).0), chunk_position),
        is_cell_in_chunk(neighbour(chunk_position, cell_position, dx, dy).1),
{
    let g = spec_local_to_global(chunk_position, cell_position);
    let ax = g.x + dx;
    let ay = g.y + dy;
    crate::vector::lemma_euclid(ax, CHUNK_SIZE as int);
    crate::vector::lemma_euclid(ay, CHUNK_SIZE as int);
    assert(((g.x + dx) as i32) as int == ax);
    assert(((g.y + dy) as i32) as int == ay);
}

/// Marking the neighbours at the first `n` of the nine offsets keeps the rectangles
/// good, only grows them, and touches only chunks next to the cell's own.
proof fn lemma_marked_nine_general(m: Map<(i32, i32), URect>, chunk_position: IVec2, cell_position: UVec2, n: nat)
    requires
        all_good(m),
        is_cell_in_chunk(cell_position),
        neighbours_fit(chunk_position, cell_position),
        n <= 9,
    ensures
        all_good(marked_nine(m, chunk_position, cell_position, n)),
        grows(m, marked_nine(m, chunk_position, cell_position, n)),
        changed_only(m, marked_nine(m, chunk_position, cell_position, n), |k: (i32, i32)| near(k, chunk_position)),
    decreases n,
{
    if n > 0 {
        let prev = marked_nine(m, chunk_position, cell_position, (n - 1) as nat);
        lemma_marked_nine_general(m, chunk_position, cell_position, (n - 1) as nat);
        let o = nine_offset(n - 1);
        lemma_neighbour_near(chunk_position, cell_position, o.0, o.1);
        let (c, l) = neighbour(chunk_position, cell_position, o.0, o.1);
        lemma_marked_general(prev, key(c), l, clamped_rect(l, sat_plus(l, 2)));
        let next = marked_nine(m, chunk_position, cell_position, n);
        assert(next == marked(prev, key(c), l, clamped_rect(l, sat_plus(l, 2))));
        assert forall|k: (i32, i32)| #[trigger] m.contains_key(k) implies next.contains_key(k) && contains_rect(next[k], m[k]) by {
            assert(prev.contains_key(k));
        }
        assert forall|k: (i32, i32)| #[trigger] next.contains_key(k) && !(m.contains_key(k) && next[k] == m[k]) implies near(
            k,
            chunk_position,
        ) by {
            if !(prev.contains_key(k) && next[k] == prev[k]) {
                assert(k == key(c));
            } else {
                assert(prev.contains_key(k) && !(m.contains_key(k) && prev[k] == m[k]));
            }
        }
    }
}

/// Marking a cell and its neighbours dirty keeps every rectangle non-empty and inside
/// its chunk, keeps every chunk that had a rectangle and only grows its rectangle, and
/// adds or changes rectangles only of the cell's chunk and the eight around it.
pub proof fn law_marked_3x3_stays_local(m: Map<(i32, i32), URect>, chunk_position: IVec2, cell_position: UVec2)
    requires
        all_good(m),
        is_cell_in_chunk(cell_position),
        border_offset(cell_position.x) != 0 || border_offset(cell_position.y) != 0 ==> neighbours_fit(
            chunk_position,
            cell_position,
        ),
    ensures
        all_good(marked_3x3(m, chunk_position, cell_position)),
        grows(m, marked_3x3(m, chunk_position, cell_position)),
        changed_only(m, marked_3x3(m, chunk_position, cell_position), |k: (i32, i32)| near(k, chunk_position)),
{
    let k0 = key(chunk_position);
    let m1 = if m.contains_key(k0) {
        lemma_extended_grows(m[k0], sat_plus(cell_position, 1));
        lemma_extended_grows(extended(m[k0], sat_plus(cell_position, 1)), sat_minus(cell_position, 1));
        m.insert(k0, extended(extended(m[k0], sat_plus(cell_position, 1)), sat_minus(cell_position, 1)))
    } else {
        m.insert(k0, clamped_rect(sat_minus(cell_position, 1), sat_plus(cell_position, 2)))
    };
    assert(all_good(m1));
    assert forall|k: (i32, i32)| #[trigger] m.contains_key(k) implies m1.contains_key(k) && contains_rect(m1[k], m[k]) by {
        if k == k0 {
            lemma_extended_grows(m[k0], sat_plus(cell_position, 1));
            lemma_extended_grows(extended(m[k0], sat_plus(cell_position, 1)), sat_minus(cell_position, 1));
        }
    }
    let m2 = marked_3x3(m, chunk_position, cell_position);
    let ox = border_offset(cell_position.x);
    let oy = border_offset(cell_position.y);
    if ox == 0 && oy == 0 {
        assert(m2 == m1);
    } else {
        if (ox == 1 && oy == 1) || (ox == -1 && oy == -1) {
            lemma_marked_nine_general(m1, chunk_position, cell_position, 9);
            assert(m2 == marked_nine(m1, chunk_position, cell_position, 9));
        } else {
            lemma_neighbour_near(chunk_position, cell_position, ox, oy);
            let (c, l) = neighbour(chunk_position, cell_position, ox, oy);
            lemma_marked_general(m1, key(c), l, clamped_rect(l, sat_plus(l, 2)));
            assert(m2 == marked(m1, key(c), l, clamped_rect(l, sat_plus(l, 2))));
        }
        assert forall|k: (i32, i32)| #[trigger] m.contains_key(k) implies m2.contains_key(k) && contains_rect(m2[k], m[k]) by {
            assert(m1.contains_key(k));
        }
        assert forall|k: (i32, i32)| #[trigger] m2.contains_key(k) && !(m.contains_key(k) && m2[k] == m[k]) implies near(
            k,
            chunk_position,
        ) by {
            if !(m1.contains_key(k) && m2[k] == m1[k]) {
            } else {
                assert(k == k0);
            }
        }
    }
}

/// Marking a cell of `k` covers that cell (which lies in its chunk), whether the chunk
/// had a rectangle or gets `fresh`, as long as `fresh` covers it.
proof fn lemma_marked_covers(m: Map<(i32, i32), URect>, k: (i32, i32), l: UVec2, fresh: URect)
    requires
        is_cell_in_chunk(l),
        covers(fresh, l),
    ensures
        marked(m, k, l, fresh).contains_key(k),
        covers(marked(m, k, l, fresh)[k], l),
{
}

/// Marking any cell keeps every rectangle covering the in-chunk cells it covered.
proof fn lemma_marked_keeps_cover(m: Map<(i32, i32), URect>, k: (i32, i32), q: UVec2, k2: (i32, i32), l: UVec2, fresh: URect)
    requires
        m.contains_key(k),
        covers(m[k], q),
        is_cell_in_chunk(q),
    ensures
        marked(m, k2, l, fresh).contains_key(k),
        covers(marked(m, k2, l, fresh)[k], q),
{
}

/// The neighbour across the border a cell lies on: one chunk over along each axis on
/// which the cell is at the first (`-1`) or last (`1`) row or column, at the far edge
/// of that chunk.
proof fn lemma_neighbour_across(chunk_position: IVec2, cell_position: UVec2, ox: int, oy: int)
    requires
        is_cell_in_chunk(cell_position),
        neighbours_fit(chunk_position, cell_position),
        ox == (if cell_position.x == 63 { 1int } else if cell_position.x == 0 { -1int } else { 0int }),
        oy == (if cell_position.y == 63 { 1int } else if cell_position.y == 0 { -1int } else { 0int }),
    ensures
        key(neighbour(chunk_position, cell_position, ox, oy).0) == ((chunk_position.x + ox) as i32, (
        chunk_position.y + oy) as i32),
        neighbour(chunk_position, cell_position, ox, oy).1 == (UVec2 {
            x: (if ox == 1 { 0int } else if ox == -1 { 63int } else { cell_position.x as int }) as u32,
            y: (if oy == 1 { 0int } else if oy == -1 { 63int } else { cell_position.y as int }) as u32,
        }),
{
    let g = spec_local_to_global(chunk_position, cell_position);
    let ax = g.x + ox;
    let ay = g.y + oy;
    assert(((g.x + ox) as i32) as int == ax);
    assert(((g.y + oy) as i32) as int == ay);
    let qx = chunk_position.x + ox;
    let qy = chunk_position.y + oy;
    let rx = if ox == 1 { 0int } else if ox == -1 { 63int } else { cell_position.x as int };
    let ry = if oy == 1 { 0int } else if oy == -1 { 63int } else { cell_position.y as int };
    assert(ax == qx * CHUNK_SIZE + rx);
    assert(ay == qy * CHUNK_SIZE + ry);
    crate::vector::lemma_euclid_unique(ax, CHUNK_SIZE as int, qx, rx);
    crate::vector::lemma_euclid_unique(ay, CHUNK_SIZE as int, qy, ry);
}

/// After marking the neighbours at the first `n` of the nine offsets, the neighbour at
/// offset index `j < n` has a rectangle covering its marked cell.
proof fn lemma_marked_nine_covers(m: Map<(i32, i32), URect>, chunk_position: IVec2, cell_position: UVec2, n: nat, j: int)
    requires
        is_cell_in_chunk(cell_position),
        neighbours_fit(chunk_position, cell_position),
        n <= 9,
        0 <= j < n,
    ensures
        ({
            let o = nine_offset(j);
            let (c, l) = neighbour(chunk_position, cell_position, o.0, o.1);
            &&& marked_nine(m, chunk_position, cell_position, n).contains_key(key(c))
            &&& covers(marked_nine(m, chunk_position, cell_position, n)[key(c)], l)
        }),
    decreases n,
{
    let o = nine_offset(j);
    let (c, l) = neighbour(chunk_position, cell_position, o.0, o.1);
    lemma_neighbour_near(chunk_position, cell_position, o.0, o.1);
    let prev = marked_nine(m, chunk_position, cell_position, (n - 1) as nat);
    let on = nine_offset(n - 1);
    lemma_neighbour_near(chunk_position, cell_position, on.0, on.1);
    let (cn, ln) = neighbour(chunk_position, cell_position, on.0, on.1);
    if j == n - 1 {
        lemma_marked_covers(prev, key(c), l, clamped_rect(l, sat_plus(l, 2)));
    } else {
        lemma_marked_nine_covers(m, chunk_position, cell_position, (n - 1) as nat, j);
        lemma_marked_keeps_cover(prev, key(c), l, key(cn), ln, clamped_rect(ln, sat_plus(ln, 2)));
    }
}

/// Marking a cell on a chunk's border wakes the chunk across that border: for a cell on
/// the first or last row or column, the chunk one over in that direction (diagonally
/// for a corner) gets a rectangle covering the cell next to the marked one across the
/// border.
pub proof fn law_marked_3x3_wakes_across_border(m: Map<(i32, i32), URect>, chunk_position: IVec2, cell_position: UVec2)
    requires
        is_cell_in_chunk(cell_position),
        cell_position.x == 0 || cell_position.x == 63 || cell_position.y == 0 || cell_position.y == 63 ==> neighbours_fit(
            chunk_position,
            cell_position,
        ),
    ensures
        ({
            let ox = if cell_position.x == 63 { 1int } else if cell_position.x == 0 { -1int } else { 0int };
            let oy = if cell_position.y == 63 { 1int } else if cell_position.y == 0 { -1int } else { 0int };
            let k = ((chunk_position.x + ox) as i32, (chunk_position.y + oy) as i32);
            let q = UVec2 {
                x: (if ox == 1 { 0int } else if ox == -1 { 63int } else { cell_position.x as int }) as u32,
                y: (if oy == 1 { 0int } else if oy == -1 { 63int } else { cell_position.y as int }) as u32,
            };
            let m2 = marked_3x3(m, chunk_position, cell_position);
            (ox != 0 || oy != 0) ==> m2.contains_key(k) && covers(m2[k], q)
        }),
{
    let ox = if cell_position.x == 63 { 1int } else if cell_position.x == 0 { -1int } else { 0int };
    let oy = if cell_position.y == 63 { 1int } else if cell_position.y == 0 { -1int } else { 0int };
    if ox != 0 || oy != 0 {
        assert(border_offset(cell_position.x) == ox);
        assert(border_offset(cell_position.y) == oy);
        lemma_neighbour_across(chunk_position, cell_position, ox, oy);
        let (c, l) = neighbour(chunk_position, cell_position, ox, oy);
        lemma_neighbour_near(chunk_position, cell_position, ox, oy);
        let k0 = key(chunk_position);
        let m1 = if m.contains_key(k0) {
            m.insert(k0, extended(extended(m[k0], sat_plus(cell_position, 1)), sat_minus(cell_position, 1)))
        } else {
            m.insert(k0, clamped_rect(sat_minus(cell_position, 1), sat_plus(cell_position, 2)))
        };
        if (ox == 1 && oy == 1) || (ox == -1 && oy == -1) {
            let j = if ox == 1 { 8int } else { 0int };
            assert(nine_offset(j) == (ox, oy));
            lemma_marked_nine_covers(m1, chunk_position, cell_position, 9, j);
        } else {
            lemma_marked_covers(m1, key(c), l, clamped_rect(l, sat_plus(l, 2)));
        }
    }
}

} // verus!
