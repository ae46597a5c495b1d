use vstd::prelude::*;

use crate::constants::{CHUNK_CELLS, CHUNK_SIZE};
use crate::helpers::{global_coord, is_cell_in_chunk};
use crate::channel::Outbox;
use crate::dirty_rect::{RenderMessage, UpdateMessage};
use crate::materials::{Material, PhysicsType};
use crate::pixel::{Pixel, is_air, is_color_of, is_wall, wall};
use crate::random::fastrand_i32;
use crate::rolls::{dir_of, dir_of_roll, roll_hits, vec_8_of, vec_8_of_roll, vec_of, vec_of_roll};
use crate::vector::{IVec2, URect, UVec2, div_euclid, rem_euclid, fits_i32, lemma_euclid, i32_div_euclid, i32_rem_euclid};

verus! {

/// The cells of one chunk, row by row from the bottom.
pub struct ChunkData {
    pub cells: Vec<Pixel>,
}

/// The storage index of an in-chunk position.
pub open spec fn cell_index(x: int, y: int) -> int {
    y * CHUNK_SIZE + x
}

impl ChunkData {
    /// A chunk of air.
    pub fn new() -> (chunk: ChunkData)
        ensures
            chunk.cells.len() == CHUNK_CELLS,
            forall|i: int| 0 <= i < CHUNK_CELLS ==> is_air(#[trigger] chunk.cells@[i]),
    {
        let mut cells: Vec<Pixel> = Vec::new();
        while cells.len() < CHUNK_CELLS as usize
            invariant
                cells.len() <= CHUNK_CELLS,
                forall|i: int| 0 <= i < cells.len() ==> is_air(#[trigger] cells@[i]),
            decreases CHUNK_CELLS - cells.len(),
        {
            cells.push(Pixel::default());
        }
        ChunkData { cells }
    }

    /// The cell at an in-chunk position.
    pub fn index(&self, position: IVec2) -> (p: &Pixel)
        requires
            self.cells.len() == CHUNK_CELLS,
            0 <= position.x < CHUNK_SIZE,
            0 <= position.y < CHUNK_SIZE,
        ensures
            *p == self.cells@[cell_index(position.x as int, position.y as int)],
    {
        &self.cells[(position.y * CHUNK_SIZE + position.x) as usize]
    }

    /// A mutable reference to the cell at an in-chunk position; what is written through
    /// it lands in that cell.
    pub fn index_mut(&mut self, position: IVec2) -> (p: &mut Pixel)
        requires
            old(self).cells.len() == CHUNK_CELLS,
            0 <= position.x < CHUNK_SIZE,
            0 <= position.y < CHUNK_SIZE,
        ensures
            *p == old(self).cells@[cell_index(position.x as int, position.y as int)],
            final(self).cells@ == old(self).cells@.update(cell_index(position.x as int, position.y as int), *final(p)),
    {
        &mut self.cells[(position.y * CHUNK_SIZE + position.x) as usize]
    }
}

/// The colors a burning pixel flickers between.
pub open spec fn fire_color(i: int) -> Seq<u8> {
    if i == 0 {
        seq![0xA9u8, 0x43u8, 0x1Eu8, 0xFFu8]
    } else if i == 1 {
        seq![0xD7u8, 0x88u8, 0x25u8, 0xFFu8]
    } else if i == 2 {
        seq![0xEAu8, 0xAAu8, 0x00u8, 0xFFu8]
    } else if i == 3 {
        seq![0xE1u8, 0xCDu8, 0x00u8, 0xFFu8]
    } else {
        seq![0xEEu8, 0xDCu8, 0x00u8, 0xFFu8]
    }
}

/// `c` is a color `p` may be drawn with in a chunk's image: one of the fire colors
/// while it burns, else one of its own colors.
pub open spec fn drawn_as(p: Pixel, c: Seq<u8>) -> bool {
    if p.on_fire {
        exists|i: int| 0 <= i < 5 && c == #[trigger] fire_color(i)
    } else {
        is_color_of(p, c)
    }
}

/// The four bytes of cell `i` in an RGBA image.
pub open spec fn rgba_at(data: Seq<u8>, i: int) -> Seq<u8> {
    data.subrange(4 * i, 4 * i + 4)
}

/// The `i`-th fire color.
fn fire_color_at(i: i32) -> (c: [u8; 4])
    requires
        0 <= i < 5,
    ensures
        c@ == fire_color(i as int),
{
    let c: [u8; 4] = if i == 0 {
        [0xA9, 0x43, 0x1E, 0xFF]
    } else if i == 1 {
        [0xD7, 0x88, 0x25, 0xFF]
    } else if i == 2 {
        [0xEA, 0xAA, 0x00, 0xFF]
    } else if i == 3 {
        [0xE1, 0xCD, 0x00, 0xFF]
    } else {
        [0xEE, 0xDC, 0x00, 0xFF]
    };
    assert(c@ =~= fire_color(i as int));
    c
}

/// The color to draw `pixel` with: a random fire color while it burns, else its own.
pub fn pixel_rgba(pixel: &Pixel) -> (c: [u8; 4])
    ensures
        drawn_as(*pixel, c@),
{
    if pixel.on_fire {
        let i = fastrand_i32(5);
        let c = fire_color_at(i);
        assert(c@ == fire_color(i as int));
        c
    } else {
        pixel.get_color()
    }
}

/// Writes the color of `pixel` into the bytes of cell `i`; the other bytes stay.
fn write_rgba(data: &mut Vec<u8>, i: usize, pixel: &Pixel)
    requires
        4 * i + 4 <= old(data).len(),
    ensures
        final(data).len() == old(data).len(),
        drawn_as(*pixel, rgba_at(final(data)@, i as int)),
        forall|b: int| 0 <= b < old(data).len() && !(4 * i <= b < 4 * i + 4) ==> final(data)@[b] == old(data)@[b],
{
    let c = pixel_rgba(pixel);
    data.set(4 * i, c[0]);
    data.set(4 * i + 1, c[1]);
    data.set(4 * i + 2, c[2]);
    data.set(4 * i + 3, c[3]);
    assert(rgba_at(data@, i as int) =~= c@);
}

impl ChunkData {
    /// A blank RGBA image of a chunk: four zero bytes per cell.
    pub fn new_image() -> (data: Vec<u8>)
        ensures
            data.len() == 4 * CHUNK_CELLS,
            forall|b: int| 0 <= b < data.len() ==> data@[b] == 0,
    {
        let mut data: Vec<u8> = Vec::new();
        while data.len() < 4 * CHUNK_CELLS as usize
            invariant
                data.len() <= 4 * CHUNK_CELLS,
                forall|b: int| 0 <= b < data.len() ==> data@[b] == 0,
            decreases 4 * CHUNK_CELLS - data.len(),
        {
            data.push(0);
        }
        data
    }

    /// Draws every cell into the first `4 * CHUNK_CELLS` bytes of `data`, an RGBA image of
    /// the chunk stored row by row; bytes after those stay.
    /// (A liquid's transparency and a displaced pixel's shading come from floating-point
    /// quantities; they are drawn over this by the caller.)
    pub fn update_all(&self, data: &mut Vec<u8>)
        requires
            self.cells.len() == CHUNK_CELLS,
            old(data).len() >= 4 * CHUNK_CELLS,
        ensures
            final(data).len() == old(data).len(),
            forall|b: int| 4 * CHUNK_CELLS <= b < old(data).len() ==> final(data)@[b] == old(data)@[b],
            forall|i: int| 0 <= i < CHUNK_CELLS ==> drawn_as(self.cells@[i], #[trigger] rgba_at(final(data)@, i)),
    {
        let ghost start = data@;
        let mut i: usize = 0;
        while i < self.cells.len()
            invariant
                self.cells.len() == CHUNK_CELLS,
                data.len() == start.len(),
                start.len() >= 4 * CHUNK_CELLS,
                start == old(data)@,
                forall|b: int| 4 * CHUNK_CELLS <= b < start.len() ==> data@[b] == start[b],
                i <= CHUNK_CELLS,
                forall|j: int| 0 <= j < i ==> drawn_as(self.cells@[j], #[trigger] rgba_at(data@, j)),
            decreases CHUNK_CELLS - i,
        {
            let ghost before = data@;
            write_rgba(data, i, &self.cells[i]);
            assert forall|j: int| 0 <= j < i + 1 implies drawn_as(self.cells@[j], #[trigger] rgba_at(data@, j)) by {
                if j < i {
                    assert(rgba_at(data@, j) =~= rgba_at(before, j));
                }
            }
            i = i + 1;
        }
    }

    /// Draws the cells of `rect` into `data`, an RGBA image of the chunk stored row by
    /// row; the rest of the image stays. (A liquid's transparency and a displaced pixel's
    /// shading come from floating-point quantities; they are drawn over this by the caller.)
    pub fn update_rect(&self, data: &mut Vec<u8>, rect: URect)
        requires
            self.cells.len() == CHUNK_CELLS,
            old(data).len() >= 4 * CHUNK_CELLS,
            rect.max.x <= CHUNK_SIZE,
            rect.max.y <= CHUNK_SIZE,
        ensures
            final(data).len() == old(data).len(),
            forall|b: int| 4 * CHUNK_CELLS <= b < old(data).len() ==> final(data)@[b] == old(data)@[b],
            forall|x: int, y: int|
                0 <= x < CHUNK_SIZE && 0 <= y < CHUNK_SIZE ==> if rect.min.x <= x < rect.max.x && rect.min.y <= y < rect.max.y {
                    drawn_as(self.cells@[cell_index(x, y)], #[trigger] rgba_at(final(data)@, cell_index(x, y)))
                } else {
                    rgba_at(final(data)@, cell_index(x, y)) == rgba_at(old(data)@, cell_index(x, y))
                },
    {
        let ghost start = data@;
        assert(start == old(data)@);
        let mut x: u32 = rect.min.x;
        while x < rect.max.x
            invariant
                self.cells.len() == CHUNK_CELLS,
                data.len() == start.len(),
                start.len() >= 4 * CHUNK_CELLS,
                forall|b: int| 4 * CHUNK_CELLS <= b < start.len() ==> data@[b] == start[b],
                rect.max.x <= CHUNK_SIZE,
                rect.max.y <= CHUNK_SIZE,
                rect.min.x <= x,
                x <= rect.max.x || x == rect.min.x,
                forall|cx: int, cy: int|
                    0 <= cx < CHUNK_SIZE && 0 <= cy < CHUNK_SIZE ==> if rect.min.x <= cx < x && rect.min.y <= cy < rect.max.y {
                        drawn_as(self.cells@[cell_index(cx, cy)], #[trigger] rgba_at(data@, cell_index(cx, cy)))
                    } else {
                        rgba_at(data@, cell_index(cx, cy)) == rgba_at(start, cell_index(cx, cy))
                    },
            decreases rect.max.x - x,
        {
            let mut y: u32 = rect.min.y;
            while y < rect.max.y
                invariant
                    self.cells.len() == CHUNK_CELLS,
                    data.len() == start.len(),
                    start.len() >= 4 * CHUNK_CELLS,
                    forall|b: int| 4 * CHUNK_CELLS <= b < start.len() ==> data@[b] == start[b],
                    rect.max.x <= CHUNK_SIZE,
                    rect.max.y <= CHUNK_SIZE,
                    rect.min.x <= x < rect.max.x,
                    rect.min.y <= y,
                    y <= rect.max.y || y == rect.min.y,
                    forall|cx: int, cy: int|
                        0 <= cx < CHUNK_SIZE && 0 <= cy < CHUNK_SIZE ==> if (rect.min.x <= cx < x && rect.min.y <= cy < rect.max.y)
                            || (cx == x && rect.min.y <= cy < y) {
                            drawn_as(self.cells@[cell_index(cx, cy)], #[trigger] rgba_at(data@, cell_index(cx, cy)))
                        } else {
                            rgba_at(data@, cell_index(cx, cy)) == rgba_at(start, cell_index(cx, cy))
                        },
                decreases rect.max.y - y,
            {
                let index = (y * CHUNK_SIZE as u32 + x) as usize;
                let ghost before = data@;
                write_rgba(data, index, &self.cells[index]);
                assert forall|cx: int, cy: int|
                    0 <= cx < CHUNK_SIZE && 0 <= cy < CHUNK_SIZE implies if (rect.min.x <= cx < x && rect.min.y <= cy
                        < rect.max.y) || (cx == x && rect.min.y <= cy < y + 1) {
                        drawn_as(self.cells@[cell_index(cx, cy)], #[trigger] rgba_at(data@, cell_index(cx, cy)))
                    } else {
                        rgba_at(data@, cell_index(cx, cy)) == rgba_at(start, cell_index(cx, cy))
                    } by {
                    if cx != x || cy != y {
                        lemma_cell_index_distinct(cx, cy, x as int, y as int);
                        assert(rgba_at(data@, cell_index(cx, cy)) =~= rgba_at(before, cell_index(cx, cy)));
                    }
                }
                y = y + 1;
            }
            x = x + 1;
        }
    }
}

/// Distinct in-chunk positions have distinct cell indices, at least four bytes apart
/// in an RGBA image.
proof fn lemma_cell_index_distinct(x1: int, y1: int, x2: int, y2: int)
    requires
        0 <= x1 < CHUNK_SIZE,
        0 <= y1 < CHUNK_SIZE,
        0 <= x2 < CHUNK_SIZE,
        0 <= y2 < CHUNK_SIZE,
        x1 != x2 || y1 != y2,
    ensures
        cell_index(x1, y1) != cell_index(x2, y2),
        0 <= cell_index(x1, y1) < CHUNK_CELLS,
        0 <= cell_index(x2, y2) < CHUNK_CELLS,
{
}

impl Default for ChunkData {
    fn default() -> (chunk: ChunkData)
        ensures
            chunk.cells.len() == CHUNK_CELLS,
            forall|i: int| 0 <= i < CHUNK_CELLS ==> is_air(#[trigger] chunk.cells@[i]),
    {
        ChunkData::new()
    }
}

/// `new` is `old` with `pixel` stored at `(x, y)`: the chunk holding that position
/// changed at that cell only, and no other chunk changed.
pub open spec fn stored_at(old: ChunkGroup, new: ChunkGroup, x: int, y: int, pixel: Pixel) -> bool {
    let ox = div_euclid(x, CHUNK_SIZE as int);
    let oy = div_euclid(y, CHUNK_SIZE as int);
    let id0 = (oy + 1) * 3 + ox + 1;
    let i0 = cell_index(rem_euclid(x, CHUNK_SIZE as int), rem_euclid(y, CHUNK_SIZE as int));
    &&& -1 <= ox <= 1
    &&& -1 <= oy <= 1
    &&& old.chunk_view(id0) matches Some(c) && c.len() == CHUNK_CELLS && new.chunk_view(id0) == Some(c.update(i0, pixel))
    &&& forall|id: int| id != id0 ==> #[trigger] new.chunk_view(id) == old.chunk_view(id)
}

/// Storing one pixel changes the pixel map at that position only.
proof fn lemma_pixels_after_store(old: ChunkGroup, new: ChunkGroup, x: int, y: int, pixel: Pixel)
    requires
        stored_at(old, new, x, y, pixel),
    ensures
        new.pixels() == old.pixels().insert((x, y), pixel),
{
    lemma_euclid(x, CHUNK_SIZE as int);
    lemma_euclid(y, CHUNK_SIZE as int);
    assert forall|k: (int, int)| #[trigger] new.pixel_at(k.0, k.1) == (if k == (x, y) {
        Some(pixel)
    } else {
        old.pixel_at(k.0, k.1)
    }) by {
        lemma_euclid(k.0, CHUNK_SIZE as int);
        lemma_euclid(k.1, CHUNK_SIZE as int);
    }
    assert(new.pixels() =~= old.pixels().insert((x, y), pixel));
}

/// A chunk and its eight neighbours, as seen from the center chunk. Chunk ids count
/// row by row from the bottom left (`6 7 8 / 3 4 5 / 0 1 2`); the center is id 4,
/// the corners (ids 0, 2, 6, 8) and the sides (ids 1, 3, 5, 7) are stored in id order.
/// A missing neighbour is `None`.
pub struct ChunkGroup {
    pub center: Option<Vec<Pixel>>,
    pub corners: [Option<Vec<Pixel>>; 4],
    pub sides: [Option<Vec<Pixel>>; 4],
}

/// A chunk that is missing or holds one cell per in-chunk position.
pub open spec fn chunk_ok(chunk: Option<Vec<Pixel>>) -> bool {
    chunk matches Some(c) ==> c.len() == CHUNK_CELLS
}

impl ChunkGroup {
    /// The center chunk is there, and every chunk has a full set of cells.
    pub open spec fn wf(&self) -> bool {
        &&& self.center is Some
        &&& chunk_ok(self.center)
        &&& forall|i: int| 0 <= i < 4 ==> chunk_ok(#[trigger] self.corners[i])
        &&& forall|i: int| 0 <= i < 4 ==> chunk_ok(#[trigger] self.sides[i])
    }

    /// The chunk with the given id.
    pub open spec fn chunk_by_id(&self, id: int) -> Option<Vec<Pixel>> {
        if id == 4 {
            self.center
        } else if id == 0 {
            self.corners[0]
        } else if id == 2 {
            self.corners[1]
        } else if id == 6 {
            self.corners[2]
        } else if id == 8 {
            self.corners[3]
        } else if id == 1 {
            self.sides[0]
        } else if id == 3 {
            self.sides[1]
        } else if id == 5 {
            self.sides[2]
        } else if id == 7 {
            self.sides[3]
        } else {
            None
        }
    }

    /// The cells of the chunk with the given id.
    pub open spec fn chunk_view(&self, id: int) -> Option<Seq<Pixel>> {
        match self.chunk_by_id(id) {
            Some(c) => Some(c@),
            None => None,
        }
    }

    /// The pixel at a position measured from the center chunk's origin, if its chunk is there.
    pub open spec fn pixel_at(&self, x: int, y: int) -> Option<Pixel> {
        let ox = div_euclid(x, CHUNK_SIZE as int);
        let oy = div_euclid(y, CHUNK_SIZE as int);
        if -1 <= ox <= 1 && -1 <= oy <= 1 {
            match self.chunk_view((oy + 1) * 3 + ox + 1) {
                Some(c) => Some(
                    c[cell_index(rem_euclid(x, CHUNK_SIZE as int), rem_euclid(y, CHUNK_SIZE as int))],
                ),
                None => None,
            }
        } else {
            None
        }
    }

    /// The pixels of the group, by position measured from the center chunk's origin.
    pub open spec fn pixels(&self) -> Map<(int, int), Pixel> {
        Map::new(|k: (int, int)| self.pixel_at(k.0, k.1) is Some, |k: (int, int)| self.pixel_at(k.0, k.1)->0)
    }

    /// Where the pixel at `cell_position` is stored: the offset of its chunk from the
    /// center and its index in that chunk.
    fn locate(cell_position: IVec2) -> (res: (IVec2, usize))
        ensures
            res.0.x == div_euclid(cell_position.x as int, CHUNK_SIZE as int),
            res.0.y == div_euclid(cell_position.y as int, CHUNK_SIZE as int),
            res.1 == cell_index(
                rem_euclid(cell_position.x as int, CHUNK_SIZE as int),
                rem_euclid(cell_position.y as int, CHUNK_SIZE as int),
            ),
            res.1 < CHUNK_CELLS,
    {
        let chunk_offset = IVec2 {
            x: i32_div_euclid(cell_position.x, CHUNK_SIZE),
            y: i32_div_euclid(cell_position.y, CHUNK_SIZE),
        };
        let cx = i32_rem_euclid(cell_position.x, CHUNK_SIZE);
        let cy = i32_rem_euclid(cell_position.y, CHUNK_SIZE);
        (chunk_offset, (cy * CHUNK_SIZE + cx) as usize)
    }

    /// The index in `corners` of the corner chunk at a chunk offset.
    fn corner_index(chunk_offset: IVec2) -> (i: usize)
        ensures
            i == (if chunk_offset.x > 0 { 1int } else { 0 }) + (if chunk_offset.y > 0 { 2int } else { 0 }),
    {
        let mut corner_index: usize = 0;
        if chunk_offset.x > 0 {
            corner_index += 1;
        }
        if chunk_offset.y > 0 {
            corner_index += 2;
        }
        corner_index
    }

    /// The index in `sides` of the side chunk at a chunk offset.
    fn side_index(chunk_offset: IVec2) -> (i: usize)
        requires
            -1 <= chunk_offset.x <= 1,
        ensures
            chunk_offset.x == 0 ==> i == (if chunk_offset.y > 0 { 3int } else { 0 }),
            chunk_offset.x == -1 ==> i == 1,
            chunk_offset.x == 1 ==> i == 2,
    {
        let mut side_index: usize = 0;
        if chunk_offset.y > 0 {
            side_index += 3;
        }
        if chunk_offset.x != 0 {
            let s = chunk_offset.x + 1;
            let signum: i32 = if s > 0 { 1 } else if s == 0 { 0 } else { -1 };
            side_index = (signum + 1) as usize;
        }
        side_index
    }

    /// The pixel at a position measured from the center chunk's origin, or `None` when
    /// it lies outside the group or in a missing chunk.
    pub fn get(&self, cell_position: IVec2) -> (p: Option<&Pixel>)
        requires
            self.wf(),
        ensures
            match p {
                Some(q) => self.pixel_at(cell_position.x as int, cell_position.y as int) == Some(*q),
                None => self.pixel_at(cell_position.x as int, cell_position.y as int) is None,
            },
    {
        let (chunk_offset, cell_index) = Self::locate(cell_position);
        if chunk_offset.x < -1 || chunk_offset.y < -1 || chunk_offset.x > 1 || chunk_offset.y > 1 {
            return None;
        }
        let id = self.chunk_offset_to_id(chunk_offset);
        if id == 4 {
            match &self.center {
                Some(chunk) => Some(&chunk[cell_index]),
                None => None,
            }
        } else if id == 0 || id == 2 || id == 6 || id == 8 {
            let corner_index = Self::corner_index(chunk_offset);
            match &self.corners[corner_index] {
                Some(chunk) => Some(&chunk[cell_index]),
                None => None,
            }
        } else {
            let side_index = Self::side_index(chunk_offset);
            match &self.sides[side_index] {
                Some(chunk) => Some(&chunk[cell_index]),
                None => None,
            }
        }
    }

    /// Writes `pixel` at a position measured from the center chunk's origin. Returns
    /// whether it was written: positions outside the group or in a missing chunk are
    /// left alone.
    pub fn set(&mut self, cell_position: IVec2, pixel: Pixel) -> (written: bool)
        requires
            old(self).wf(),
        ensures
            final(self).wf(),
            written == old(self).pixel_at(cell_position.x as int, cell_position.y as int) is Some,
            stores(*old(self), *final(self), cell_position.x as int, cell_position.y as int, pixel),
    {
        let (chunk_offset, cell_index) = Self::locate(cell_position);
        if chunk_offset.x < -1 || chunk_offset.y < -1 || chunk_offset.x > 1 || chunk_offset.y > 1 {
            return false;
        }
        let ghost x = cell_position.x as int;
        let ghost y = cell_position.y as int;
        let id = self.chunk_offset_to_id(chunk_offset);
        let ghost pre = *self;
        let written = if id == 4 {
            match &mut self.center {
                Some(chunk) => {
                    chunk.set(cell_index, pixel);
                    true
                },
                None => false,
            }
        } else if id == 0 || id == 2 || id == 6 || id == 8 {
            let corner_index = Self::corner_index(chunk_offset);
            match &mut self.corners[corner_index] {
                Some(chunk) => {
                    chunk.set(cell_index, pixel);
                    true
                },
                None => false,
            }
        } else {
            let side_index = Self::side_index(chunk_offset);
            match &mut self.sides[side_index] {
                Some(chunk) => {
                    chunk.set(cell_index, pixel);
                    true
                },
                None => false,
            }
        };
        proof {
            assert forall|i: int| 0 <= i < 4 implies chunk_ok(#[trigger] self.corners[i]) by {
                assert(chunk_ok(pre.corners[i]));
            }
            assert forall|i: int| 0 <= i < 4 implies chunk_ok(#[trigger] self.sides[i]) by {
                assert(chunk_ok(pre.sides[i]));
            }
            if written {
                lemma_pixels_after_store(pre, *self, x, y, pixel);
            } else {
                assert(self.pixels() =~= pre.pixels());
            }
        }
        written
    }

    /// A mutable reference to the pixel at a position measured from the center chunk's
    /// origin, or `None` when it lies outside the group or in a missing chunk. What is
    /// written through the reference lands at that position and nowhere else.
    pub fn get_mut(&mut self, cell_position: IVec2) -> (p: Option<&mut Pixel>)
        requires
            old(self).wf(),
        ensures
            p matches Some(r) ==> old(self).pixel_at(cell_position.x as int, cell_position.y as int) == Some(*r),
            p is Some ==> final(self).wf(),
            p matches Some(r) ==> final(self).pixels() == old(self).pixels().insert(
                (cell_position.x as int, cell_position.y as int),
                *final(r),
            ),
            p is None ==> old(self).pixel_at(cell_position.x as int, cell_position.y as int) is None,
            p is None ==> *final(self) == *old(self),
    {
        let (chunk_offset, cell_index) = Self::locate(cell_position);
        if chunk_offset.x < -1 || chunk_offset.y < -1 || chunk_offset.x > 1 || chunk_offset.y > 1 {
            return None;
        }
        let ghost pre = *self;
        let ghost x = cell_position.x as int;
        let ghost y = cell_position.y as int;
        proof {
            assert forall|new: ChunkGroup, c: Pixel|
                stored_at(pre, new, x, y, c) implies #[trigger] new.pixels() == #[trigger] pre.pixels().insert((x, y), c) by {
                lemma_pixels_after_store(pre, new, x, y, c);
            }
        }
        let id = self.chunk_offset_to_id(chunk_offset);
        if id == 4 {
            if self.center.is_none() {
                return None;
            }
            match &mut self.center {
                Some(chunk) => Some(&mut chunk[cell_index]),
                None => None,
            }
        } else if id == 0 || id == 2 || id == 6 || id == 8 {
            let corner_index = Self::corner_index(chunk_offset);
            if self.corners[corner_index].is_none() {
                return None;
            }
            match &mut self.corners[corner_index] {
                Some(chunk) => Some(&mut chunk[cell_index]),
                None => None,
            }
        } else {
            let side_index = Self::side_index(chunk_offset);
            if self.sides[side_index].is_none() {
                return None;
            }
            match &mut self.sides[side_index] {
                Some(chunk) => Some(&mut chunk[cell_index]),
                None => None,
            }
        }
    }

    /// The pixel at a position measured from the center chunk's origin, which must be in
    /// the group.
    pub fn index(&self, idx: IVec2) -> (p: &Pixel)
        requires
            self.wf(),
            self.pixel_at(idx.x as int, idx.y as int) is Some,
        ensures
            self.pixel_at(idx.x as int, idx.y as int) == Some(*p),
    {
        self.get(idx).unwrap()
    }

    /// A mutable reference to the pixel at a position measured from the center chunk's
    /// origin, which must be in the group.
    pub fn index_mut(&mut self, idx: IVec2) -> (p: &mut Pixel)
        requires
            old(self).wf(),
            old(self).pixel_at(idx.x as int, idx.y as int) is Some,
        ensures
            old(self).pixel_at(idx.x as int, idx.y as int) == Some(*p),
            final(self).wf(),
            final(self).pixels() == old(self).pixels().insert((idx.x as int, idx.y as int), *final(p)),
    {
        self.get_mut(idx).unwrap()
    }

    /// The id of the chunk at a chunk offset from the center.
    pub fn chunk_offset_to_id(&self, chunk_offset: IVec2) -> (id: i32)
        requires
            -1 <= chunk_offset.x <= 1,
            -1 <= chunk_offset.y <= 1,
        ensures
            id == (chunk_offset.y + 1) * 3 + chunk_offset.x + 1,
    {
        (chunk_offset.y + 1) * 3 + chunk_offset.x + 1
    }
}

/// `g1` is `g0` after writing `pixel` at `(x, y)`: the pixel map gains it there when
/// the position is in the group, and is unchanged otherwise.
pub open spec fn stores(g0: ChunkGroup, g1: ChunkGroup, x: int, y: int, pixel: Pixel) -> bool {
    if g0.pixel_at(x, y) is Some {
        g1.pixels() == g0.pixels().insert((x, y), pixel)
    } else {
        g1.pixels() == g0.pixels()
    }
}

/// Writing a pixel into a group and reading back: the written position reads as the
/// pixel when it is in the group (and stays missing when it is not); every other
/// position reads as before.
pub proof fn law_group_read_after_write(g0: ChunkGroup, g1: ChunkGroup, x: int, y: int, pixel: Pixel, qx: int, qy: int)
    requires
        stores(g0, g1, x, y, pixel),
    ensures
        g0.pixel_at(x, y) is Some ==> g1.pixel_at(x, y) == Some(pixel),
        g0.pixel_at(x, y) is None ==> g1.pixel_at(x, y) is None,
        qx != x || qy != y ==> g1.pixel_at(qx, qy) == g0.pixel_at(qx, qy),
{
    lemma_pixels_agree(g0, x, y);
    lemma_pixels_agree(g1, x, y);
    lemma_pixels_agree(g0, qx, qy);
    lemma_pixels_agree(g1, qx, qy);
}

/// The pixel map holds exactly what `pixel_at` reads.
proof fn lemma_pixels_agree(g: ChunkGroup, x: int, y: int)
    ensures
        g.pixels().contains_key((x, y)) == (g.pixel_at(x, y) is Some),
        g.pixel_at(x, y) is Some ==> g.pixel_at(x, y) == Some(g.pixels()[(x, y)]),
{
}

/// A position whose chunk lies within one chunk of the center is within one chunk's
/// width of the center chunk.
pub proof fn lemma_present_bounds(group: ChunkGroup, x: int, y: int)
    requires
        group.pixels().contains_key((x, y)),
    ensures
        -CHUNK_SIZE <= x < 2 * CHUNK_SIZE,
        -CHUNK_SIZE <= y < 2 * CHUNK_SIZE,
        -1 <= div_euclid(x, CHUNK_SIZE as int) <= 1,
        -1 <= div_euclid(y, CHUNK_SIZE as int) <= 1,
{
    assert(group.pixel_at(x, y) is Some);
    lemma_euclid(x, CHUNK_SIZE as int);
    lemma_euclid(y, CHUNK_SIZE as int);
}

/// Exchanging the cell with a neighbour and then exchanging it back, from its new
/// place, restores every pixel and the cell's place.
pub proof fn law_swap_back<'a>(a0: ChunkApi<'a>, a1: ChunkApi<'a>, dx: int, dy: int)
    requires
        a0.wf(),
        a0.present(0, 0),
        a0.present(dx, dy),
        a1.is_swap_of(a0, dx, dy),
    ensures
        a1.present(0, 0),
        a1.present(-dx, -dy),
        a1.at(-dx, -dy) == a0.at(0, 0),
        a1.swapped_pixels(-dx, -dy) == a0.chunk_group.pixels(),
{
    let m = a0.chunk_group.pixels();
    let p = a0.at(0, 0);
    let t = a0.at(dx, dy);
    assert(a1.at(0, 0) == t);
    assert(a1.at(-dx, -dy) == p);
    let m1 = a1.chunk_group.pixels();
    assert(m1 == m.insert(p, m[t]).insert(t, m[p]));
    assert(m1.insert(t, m1[p]).insert(p, m1[t]) =~= m);
}

/// The cell a keep-alive message names is the cell `(dx, dy)` away: the message's
/// chunk and in-chunk position join to that cell's world position.
pub proof fn law_message_names_cell<'a>(api: ChunkApi<'a>, dx: int, dy: int)
    requires
        api.offset_fits(dx, dy),
        fits_i32(
            api.chunk_position.x + div_euclid(api.cell_position.x + dx, CHUNK_SIZE as int),
            api.chunk_position.y + div_euclid(api.cell_position.y + dy, CHUNK_SIZE as int),
        ),
    ensures
        ({
            let (c, l) = api.message_target(dx, dy);
            &&& is_cell_in_chunk(l)
            &&& global_coord(c.x, l.x) == api.chunk_position.x * CHUNK_SIZE + api.cell_position.x + dx
            &&& global_coord(c.y, l.y) == api.chunk_position.y * CHUNK_SIZE + api.cell_position.y + dy
        }),
{
    lemma_euclid(api.cell_position.x + dx, CHUNK_SIZE as int);
    lemma_euclid(api.cell_position.y + dy, CHUNK_SIZE as int);
}

/// The chunk, and the position in it, of the position `pos` of a group whose center
/// chunk is at `chunk_position`.
pub open spec fn target_at(chunk_position: IVec2, pos: (int, int)) -> (IVec2, UVec2) {
    (
        IVec2 {
            x: (chunk_position.x + div_euclid(pos.0, CHUNK_SIZE as int)) as i32,
            y: (chunk_position.y + div_euclid(pos.1, CHUNK_SIZE as int)) as i32,
        },
        UVec2 { x: rem_euclid(pos.0, CHUNK_SIZE as int) as u32, y: rem_euclid(pos.1, CHUNK_SIZE as int) as u32 },
    )
}

/// The message that asks for the cell at `pos` of a group whose center chunk is at
/// `chunk_position`, and its neighbours, to be simulated in the next pass.
pub open spec fn update_message_at(chunk_position: IVec2, pos: (int, int)) -> UpdateMessage {
    UpdateMessage {
        chunk_position: target_at(chunk_position, pos).0,
        cell_position: target_at(chunk_position, pos).1,
        awake_surrouding: true,
    }
}

/// The message that asks for the cell at `pos` of a group whose center chunk is at
/// `chunk_position` to be redrawn.
pub open spec fn render_message_at(chunk_position: IVec2, pos: (int, int)) -> RenderMessage {
    RenderMessage { chunk_position: target_at(chunk_position, pos).0, cell_position: target_at(chunk_position, pos).1 }
}

/// What a cell of a chunk group sees while it is simulated: the group, its own
/// position measured from the center chunk's origin, the center chunk's position in
/// the world, the channels that collect the cells to simulate and redraw next, and
/// the clock of the current pass. Each outbox records, in order, every message the
/// api has handed to its channel.
pub struct ChunkApi<'a> {
    pub chunk_position: IVec2,
    pub cell_position: IVec2,
    pub chunk_group: ChunkGroup,
    pub update_send: Outbox<'a, UpdateMessage>,
    pub render_send: Outbox<'a, RenderMessage>,
    pub clock: u8,
}

impl<'a> ChunkApi<'a> {
    /// An api for the cell at `cell_position` of `chunk_group`, which has handed no
    /// message to its channels yet.
    pub fn new(
        chunk_position: IVec2,
        cell_position: IVec2,
        chunk_group: ChunkGroup,
        update_send: &'a async_channel::Sender<UpdateMessage>,
        render_send: &'a async_channel::Sender<RenderMessage>,
        clock: u8,
    ) -> (api: ChunkApi<'a>)
        ensures
            api.chunk_position == chunk_position,
            api.cell_position == cell_position,
            api.chunk_group == chunk_group,
            api.update_send.sender() == update_send,
            api.render_send.sender() == render_send,
            api.clock == clock,
            api.update_log() == Seq::<UpdateMessage>::empty(),
            api.render_log() == Seq::<RenderMessage>::empty(),
    {
        ChunkApi {
            chunk_position,
            cell_position,
            chunk_group,
            update_send: Outbox::new(update_send),
            render_send: Outbox::new(render_send),
            clock,
        }
    }

    /// The simulate-next messages the api has handed to its channel, oldest first.
    pub open spec fn update_log(&self) -> Seq<UpdateMessage> {
        self.update_send.log()
    }

    /// The redraw messages the api has handed to its channel, oldest first.
    pub open spec fn render_log(&self) -> Seq<RenderMessage> {
        self.render_send.log()
    }

    /// The message that asks for the cell `(dx, dy)` away, and its neighbours, to be
    /// simulated in the next pass.
    pub open spec fn update_message(&self, dx: int, dy: int) -> UpdateMessage {
        update_message_at(self.chunk_position, self.at(dx, dy))
    }

    /// The message that asks for the cell `(dx, dy)` away to be redrawn.
    pub open spec fn render_message(&self, dx: int, dy: int) -> RenderMessage {
        render_message_at(self.chunk_position, self.at(dx, dy))
    }

    /// `self` is `old` apart from the two logs.
    pub open spec fn same_but_logs(&self, old: ChunkApi<'a>) -> bool {
        &&& self.chunk_group == old.chunk_group
        &&& self.cell_position == old.cell_position
        &&& self.chunk_position == old.chunk_position
        &&& self.clock == old.clock
        &&& self.update_send.sender() == old.update_send.sender()
        &&& self.render_send.sender() == old.render_send.sender()
    }

    /// The group is well formed.
    pub open spec fn wf(&self) -> bool {
        self.chunk_group.wf()
    }

    /// The center chunk is not at the edge of the `i32` range, so that the chunks around
    /// it, which messages may name, can be named.
    pub open spec fn names_neighbours(&self) -> bool {
        &&& i32::MIN < self.chunk_position.x < i32::MAX
        &&& i32::MIN < self.chunk_position.y < i32::MAX
    }

    /// The position `(dx, dy)` away from the cell, measured from the center chunk's origin.
    pub open spec fn at(&self, dx: int, dy: int) -> (int, int) {
        (self.cell_position.x + dx, self.cell_position.y + dy)
    }

    /// Whether the group holds a pixel `(dx, dy)` away from the cell.
    pub open spec fn present(&self, dx: int, dy: int) -> bool {
        self.chunk_group.pixels().contains_key(self.at(dx, dy))
    }

    /// The physics type `(dx, dy)` away; outside the group everything is static.
    pub open spec fn matter(&self, dx: int, dy: int) -> PhysicsType {
        if self.present(dx, dy) {
            self.chunk_group.pixels()[self.at(dx, dy)].matter_type
        } else {
            PhysicsType::Static
        }
    }

    /// The pixels after exchanging the cell with the one `(dx, dy)` away.
    pub open spec fn swapped_pixels(&self, dx: int, dy: int) -> Map<(int, int), Pixel> {
        let m = self.chunk_group.pixels();
        let p = self.at(0, 0);
        let t = self.at(dx, dy);
        m.insert(p, m[t]).insert(t, m[p])
    }

    /// `self` is `old` with the cell moved `(dx, dy)` by an exchange, after asking for
    /// both places to be simulated and redrawn.
    pub open spec fn is_swap_of(&self, old: ChunkApi<'a>, dx: int, dy: int) -> bool {
        &&& self.wf()
        &&& self.update_log() == old.update_log().push(old.update_message(0, 0)).push(old.update_message(dx, dy))
        &&& self.render_log() == old.render_log().push(old.render_message(0, 0)).push(old.render_message(dx, dy))
        &&& self.chunk_group.pixels() == old.swapped_pixels(dx, dy)
        &&& self.cell_position.x == old.cell_position.x + dx
        &&& self.cell_position.y == old.cell_position.y + dy
        &&& self.chunk_position == old.chunk_position
        &&& self.clock == old.clock
        &&& self.update_send.sender() == old.update_send.sender()
        &&& self.render_send.sender() == old.render_send.sender()
    }

    /// `self` is `old` with the pixels replaced by `pixels` (the logs aside).
    pub open spec fn with_pixels(&self, old: ChunkApi<'a>, pixels: Map<(int, int), Pixel>) -> bool {
        &&& self.wf()
        &&& self.chunk_group.pixels() == pixels
        &&& self.cell_position == old.cell_position
        &&& self.chunk_position == old.chunk_position
        &&& self.clock == old.clock
        &&& self.update_send.sender() == old.update_send.sender()
        &&& self.render_send.sender() == old.render_send.sender()
    }

    /// `(dx, dy)` away from the cell is a position that fits an `i32`.
    pub open spec fn offset_fits(&self, dx: int, dy: int) -> bool {
        fits_i32(self.cell_position.x + dx, self.cell_position.y + dy)
    }

    fn offset(&self, dx: i32, dy: i32) -> (p: IVec2)
        requires
            self.offset_fits(dx as int, dy as int),
        ensures
            p.x == self.cell_position.x + dx,
            p.y == self.cell_position.y + dy,
    {
        IVec2 { x: self.cell_position.x + dx, y: self.cell_position.y + dy }
    }

    /// The pixel `(dx, dy)` away; outside the group it is a wall.
    pub fn get(&self, dx: i32, dy: i32) -> (p: Pixel)
        requires
            self.wf(),
            self.offset_fits(dx as int, dy as int),
        ensures
            self.present(dx as int, dy as int) ==> p == self.chunk_group.pixels()[self.at(dx as int, dy as int)],
            !self.present(dx as int, dy as int) ==> is_wall(p),
            p.matter_type == self.matter(dx as int, dy as int),
    {
        let cell_position = self.offset(dx, dy);
        match self.chunk_group.get(cell_position) {
            Some(pixel) => pixel.clone(),
            None => wall(),
        }
    }

    /// The pass in which the pixel `(dx, dy)` away was last updated; 0 outside the group.
    pub fn get_counter(&self, dx: i32, dy: i32) -> (c: u8)
        requires
            self.wf(),
            self.offset_fits(dx as int, dy as int),
        ensures
            self.present(dx as int, dy as int) ==> c == self.chunk_group.pixels()[self.at(dx as int, dy as int)].updated_at,
            !self.present(dx as int, dy as int) ==> c == 0,
    {
        let cell_position = self.offset(dx, dy);
        match self.chunk_group.get(cell_position) {
            Some(pixel) => pixel.updated_at,
            None => 0,
        }
    }

    /// The physics type `(dx, dy)` away; outside the group it is static.
    pub fn get_matter(&self, dx: i32, dy: i32) -> (t: PhysicsType)
        requires
            self.wf(),
            self.offset_fits(dx as int, dy as int),
        ensures
            t == self.matter(dx as int, dy as int),
    {
        let cell_position = self.offset(dx, dy);
        match self.chunk_group.get(cell_position) {
            Some(pixel) => pixel.matter_type,
            None => PhysicsType::Static,
        }
    }

    /// Whether the pixel `(dx, dy)` away is empty; outside the group nothing is.
    pub fn is_empty(&self, dx: i32, dy: i32) -> (b: bool)
        requires
            self.wf(),
            self.offset_fits(dx as int, dy as int),
        ensures
            b == (self.present(dx as int, dy as int) && self.matter(dx as int, dy as int) == PhysicsType::Empty),
    {
        let cell_position = self.offset(dx, dy);
        match self.chunk_group.get(cell_position) {
            Some(pixel) => pixel.is_empty(),
            None => false,
        }
    }

    /// Whether the pixel `(dx, dy)` away is made of `material`; outside the group nothing is.
    pub fn match_element(&self, dx: i32, dy: i32, material: &Material) -> (b: bool)
        requires
            self.wf(),
            self.offset_fits(dx as int, dy as int),
        ensures
            b == (self.present(dx as int, dy as int)
                && self.chunk_group.pixels()[self.at(dx as int, dy as int)].material_id@ == material.id@),
    {
        let cell_position = self.offset(dx, dy);
        match self.chunk_group.get(cell_position) {
            Some(pixel) => pixel.material_id == material.id,
            None => false,
        }
    }

    /// Replaces the pixel `(dx, dy)` away, which must be in the group.
    pub fn set(&mut self, dx: i32, dy: i32, pixel: Pixel)
        requires
            old(self).wf(),
            old(self).offset_fits(dx as int, dy as int),
            old(self).present(dx as int, dy as int),
        ensures
            final(self).with_pixels(*old(self), old(self).chunk_group.pixels().insert(old(self).at(dx as int, dy as int), pixel)),
            final(self).update_log() == old(self).update_log(),
            final(self).render_log() == old(self).render_log(),
    {
        let cell_position = self.offset(dx, dy);
        self.chunk_group.set(cell_position, pixel);
    }

    /// The chunk, and the position in it, of the cell `(dx, dy)` away.
    pub open spec fn message_target(&self, dx: int, dy: int) -> (IVec2, UVec2) {
        target_at(self.chunk_position, self.at(dx, dy))
    }

    /// The messages that ask for the cell `(dx, dy)` away to be simulated and redrawn.
    pub fn keep_alive_messages(&self, dx: i32, dy: i32) -> (msgs: (UpdateMessage, RenderMessage))
        requires
            self.offset_fits(dx as int, dy as int),
            fits_i32(
                self.chunk_position.x + div_euclid(self.cell_position.x + dx, CHUNK_SIZE as int),
                self.chunk_position.y + div_euclid(self.cell_position.y + dy, CHUNK_SIZE as int),
            ),
        ensures
            msgs == (self.update_message(dx as int, dy as int), self.render_message(dx as int, dy as int)),
    {
        let cell_position = self.offset(dx, dy);
        let local = UVec2 {
            x: i32_rem_euclid(cell_position.x, CHUNK_SIZE) as u32,
            y: i32_rem_euclid(cell_position.y, CHUNK_SIZE) as u32,
        };
        let chunk = IVec2 {
            x: self.chunk_position.x + i32_div_euclid(cell_position.x, CHUNK_SIZE),
            y: self.chunk_position.y + i32_div_euclid(cell_position.y, CHUNK_SIZE),
        };
        (
            UpdateMessage { cell_position: local, chunk_position: chunk, awake_surrouding: true },
            RenderMessage { cell_position: local, chunk_position: chunk },
        )
    }

    /// Asks for the cell `(dx, dy)` away, and its neighbours, to be simulated in the next
    /// pass and redrawn: hands one message to each channel. The group itself is left as
    /// it is. A channel that is full or closed drops its message.
    pub fn keep_alive(&mut self, dx: i32, dy: i32)
        requires
            old(self).offset_fits(dx as int, dy as int),
            fits_i32(
                old(self).chunk_position.x + div_euclid(old(self).cell_position.x + dx, CHUNK_SIZE as int),
                old(self).chunk_position.y + div_euclid(old(self).cell_position.y + dy, CHUNK_SIZE as int),
            ),
        ensures
            final(self).same_but_logs(*old(self)),
            final(self).update_log() == old(self).update_log().push(old(self).update_message(dx as int, dy as int)),
            final(self).render_log() == old(self).render_log().push(old(self).render_message(dx as int, dy as int)),
    {
        let (update, render) = self.keep_alive_messages(dx, dy);
        self.update_send.send(update);
        self.render_send.send(render);
    }

    /// A cell that is in the group can name its chunk.
    proof fn lemma_present_messages(&self, dx: int, dy: int)
        requires
            self.wf(),
            self.names_neighbours(),
            self.present(dx, dy),
        ensures
            self.offset_fits(dx, dy),
            fits_i32(
                self.chunk_position.x + div_euclid(self.cell_position.x + dx, CHUNK_SIZE as int),
                self.chunk_position.y + div_euclid(self.cell_position.y + dy, CHUNK_SIZE as int),
            ),
    {
        lemma_present_bounds(self.chunk_group, self.cell_position.x + dx, self.cell_position.y + dy);
    }

    /// Exchanges the cell with the one `(dx, dy)` away, asks for both places to be
    /// simulated and redrawn, and follows the cell to its new place.
    pub fn swap(&mut self, dx: i32, dy: i32)
        requires
            old(self).wf(),
            old(self).names_neighbours(),
            old(self).present(0, 0),
            old(self).present(dx as int, dy as int),
        ensures
            final(self).is_swap_of(*old(self), dx as int, dy as int),
    {
        proof {
            self.lemma_present_messages(0, 0);
            self.lemma_present_messages(dx as int, dy as int);
        }
        let cell_position_1 = self.offset(0, 0);
        let cell_position_2 = self.offset(dx, dy);
        let ghost m = self.chunk_group.pixels();
        let temp = self.chunk_group.get(cell_position_1).unwrap().clone();
        let other = self.chunk_group.get(cell_position_2).unwrap().clone();
        self.chunk_group.set(cell_position_1, other);
        proof {
            assert(self.chunk_group.pixels().contains_key(self.at(dx as int, dy as int)));
        }
        self.chunk_group.set(cell_position_2, temp);

        self.keep_alive(0, 0);
        self.keep_alive(dx, dy);

        self.cell_position = cell_position_2;
    }

    /// Replaces the cell itself, which must be in the group, and asks for it to be redrawn.
    pub fn update(&mut self, pixel: Pixel)
        requires
            old(self).wf(),
            old(self).names_neighbours(),
            old(self).present(0, 0),
        ensures
            final(self).with_pixels(*old(self), old(self).chunk_group.pixels().insert(old(self).at(0, 0), pixel)),
            final(self).update_log() == old(self).update_log(),
            final(self).render_log() == old(self).render_log().push(old(self).render_message(0, 0)),
    {
        proof {
            self.lemma_present_messages(0, 0);
        }
        self.chunk_group.set(self.cell_position, pixel);
        let (_, render) = self.keep_alive_messages(0, 0);
        self.render_send.send(render);
    }

    /// Stamps the cell, which must be in the group, with the current pass and asks for
    /// it to be redrawn.
    pub fn mark_updated(&mut self)
        requires
            old(self).wf(),
            old(self).names_neighbours(),
            old(self).present(0, 0),
        ensures
            final(self).with_pixels(
                *old(self),
                old(self).chunk_group.pixels().insert(
                    old(self).at(0, 0),
                    Pixel { updated_at: old(self).clock, ..old(self).chunk_group.pixels()[old(self).at(0, 0)] },
                ),
            ),
            final(self).update_log() == old(self).update_log(),
            final(self).render_log() == old(self).render_log().push(old(self).render_message(0, 0)),
    {
        proof {
            self.lemma_present_messages(0, 0);
        }
        let mut pixel = self.chunk_group.get(self.cell_position).unwrap().clone();
        pixel.updated_at = self.clock;
        self.chunk_group.set(self.cell_position, pixel);
        let (_, render) = self.keep_alive_messages(0, 0);
        self.render_send.send(render);
    }

    /// A random integer in `[0, n)`.
    pub fn rand_int(&mut self, n: i32) -> (r: i32)
        requires
            n > 0,
        ensures
            0 <= r < n,
            *final(self) == *old(self),
    {
        fastrand_i32(n)
    }

    /// A random horizontal direction, `-1` or `1`: the direction of a roll in `[0, 1000)`.
    pub fn rand_dir(&mut self) -> (d: i32)
        ensures
            d == 1 || d == -1,
            exists|i: int| 0 <= i < 1000 && d == #[trigger] dir_of_roll(i),
            *final(self) == *old(self),
    {
        let i = self.rand_int(1000);
        dir_of(i as i64) as i32
    }

    /// A random one of the eight neighbouring offsets, or no offset at all: the offset
    /// of a roll in `[0, 2000)`.
    pub fn rand_vec(&mut self) -> (v: (i32, i32))
        ensures
            -1 <= v.0 <= 1,
            -1 <= v.1 <= 1,
            exists|i: int| 0 <= i < 2000 && (v.0 as int, v.1 as int) == #[trigger] vec_of_roll(i),
            *final(self) == *old(self),
    {
        let i = self.rand_int(2000);
        let v = vec_of(i as i64);
        (v.0 as i32, v.1 as i32)
    }

    /// A random one of the eight neighbouring offsets: the offset of a roll in `[0, 8)`.
    pub fn rand_vec_8(&mut self) -> (v: (i32, i32))
        ensures
            -1 <= v.0 <= 1,
            -1 <= v.1 <= 1,
            !(v.0 == 0 && v.1 == 0),
            exists|i: int| 0 <= i < 8 && (v.0 as int, v.1 as int) == #[trigger] vec_8_of_roll(i),
            *final(self) == *old(self),
    {
        let i = self.rand_int(8);
        let v = vec_8_of(i as i64);
        (v.0 as i32, v.1 as i32)
    }

    /// `true` with chance one in `n`: whether a roll in `[0, n)` hits.
    pub fn once_in(&mut self, n: i32) -> (b: bool)
        requires
            n > 0,
        ensures
            n == 1 ==> b,
            exists|r: int| 0 <= r < n && b == #[trigger] roll_hits(r),
            *final(self) == *old(self),
    {
        let r = self.rand_int(n);
        assert(roll_hits(r as int) == (r == 0));
        r == 0
    }

    /// Makes the api act for the cell at `cell_position`.
    pub fn switch_position(&mut self, cell_position: IVec2)
        ensures
            *final(self) == (ChunkApi { cell_position, ..*old(self) }),
    {
        self.cell_position = cell_position;
    }
}

} // verus!
