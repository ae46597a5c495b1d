use vstd::prelude::*;

use crate::cell::{Cell, CellAction, is_fresh_cell, spec_default_cell, spec_wall_cell, wall_cell};
use crate::elements::{Element, is_neighbour_offset, sand_actions, liquid_actions, lean, spread_opinion};
use crate::random::fastrand_i64;
use crate::rolls::{dir_of, dir_of_roll, roll_hits, vec_8_of, vec_8_of_roll};
use vstd::multiset::Multiset;

verus! {

/// A rectangular world of cells, stored row by row, together with the bit that
/// tells which cells were already updated in the current pass.
pub struct World {
    width: usize,
    height: usize,
    cells: Vec<Cell>,
    iter_bit: bool,
}

/// `y * width + x` addresses a cell of a `width` x `height` grid.
pub proof fn lemma_grid_index(x: int, y: int, width: int, height: int)
    requires
        0 <= x < width,
        0 <= y < height,
    ensures
        0 <= y * width + x < width * height,
{
    assert(y * width + x < width * height) by (nonlinear_arith)
        requires 0 <= x < width, 0 <= y < height;
    assert(0 <= y * width) by (nonlinear_arith) requires 0 <= y, 0 <= width;
}

impl World {
    /// The world's storage matches its size, and coordinates fit in an `i32`.
    pub closed spec fn wf(&self) -> bool {
        &&& self.cells.len() == self.width * self.height
        &&& self.width <= i32::MAX
        &&& self.height <= i32::MAX
    }

    pub closed spec fn spec_width(&self) -> int {
        self.width as int
    }

    pub closed spec fn spec_height(&self) -> int {
        self.height as int
    }

    /// The pass the world is in: cells whose bit equals it were updated in this pass.
    pub closed spec fn spec_iter_bit(&self) -> bool {
        self.iter_bit
    }

    /// The world's cells, row by row.
    pub closed spec fn spec_cells(&self) -> Seq<Cell> {
        self.cells@
    }

    pub open spec fn in_bounds(&self, x: int, y: int) -> bool {
        0 <= x < self.spec_width() && 0 <= y < self.spec_height()
    }

    pub open spec fn index_of(&self, x: int, y: int) -> int {
        y * self.spec_width() + x
    }

    /// The cell at `(x, y)`; everything outside the world reads as a wall.
    pub open spec fn cell(&self, x: int, y: int) -> Cell {
        if self.in_bounds(x, y) {
            self.spec_cells()[self.index_of(x, y)]
        } else {
            spec_wall_cell()
        }
    }

    /// The elements of the world's cells, row by row.
    pub open spec fn elements(&self) -> Seq<Element> {
        self.spec_cells().map_values(|c: Cell| c.element)
    }

    /// A world of `width` x `height` empty cells.
    pub fn new(width: usize, height: usize) -> (world: World)
        requires
            width <= i32::MAX,
            height <= i32::MAX,
            width * height <= usize::MAX,
        ensures
            world.wf(),
            world.spec_width() == width,
            world.spec_height() == height,
            !world.spec_iter_bit(),
            world.spec_cells().len() == width * height,
            forall|i: int| 0 <= i < world.spec_cells().len() ==> world.spec_cells()[i] == spec_default_cell(),
    {
        let n = width * height;
        let mut cells: Vec<Cell> = Vec::new();
        while cells.len() < n
            invariant
                cells.len() <= n,
                forall|i: int| 0 <= i < cells.len() ==> cells@[i] == spec_default_cell(),
            decreases n - cells.len(),
        {
            cells.push(Cell::default());
        }
        World { width, height, cells, iter_bit: false }
    }

    /// The world's width, in cells.
    pub fn width(&self) -> (w: usize)
        ensures
            w == self.spec_width(),
    {
        self.width
    }

    /// The world's height, in cells.
    pub fn height(&self) -> (h: usize)
        ensures
            h == self.spec_height(),
    {
        self.height
    }

    /// The storage index of `(x, y)`, or `None` outside the world.
    fn index(&self, x: i64, y: i64) -> (idx: Option<usize>)
        requires
            self.wf(),
        ensures
            idx matches Some(i) ==> self.in_bounds(x as int, y as int) && i == self.index_of(x as int, y as int)
                && i < self.cells.len(),
            idx is None ==> !self.in_bounds(x as int, y as int),
    {
        if 0 <= x && x < self.width as i64 && 0 <= y && y < self.height as i64 {
            proof {
                lemma_grid_index(x as int, y as int, self.width as int, self.height as int);
            }
            Some(y as usize * self.width + x as usize)
        } else {
            None
        }
    }

    /// The cell at a pixel of the world, or `None` outside it.
    pub fn get_cell_by_pixel(&self, x: i32, y: i32) -> (cell: Option<Cell>)
        requires
            self.wf(),
        ensures
            cell matches Some(c) ==> self.in_bounds(x as int, y as int) && c == self.cell(x as int, y as int),
            cell is None ==> !self.in_bounds(x as int, y as int),
    {
        match self.index(x as i64, y as i64) {
            Some(i) => Some(self.cells[i]),
            None => None,
        }
    }

    /// Places a fresh cell of `element` at a pixel of the world; pixels outside it are ignored.
    pub fn set_cell_by_pixel(&mut self, x: i32, y: i32, element: &Element)
        requires
            old(self).wf(),
        ensures
            final(self).wf(),
            final(self).spec_width() == old(self).spec_width(),
            final(self).spec_height() == old(self).spec_height(),
            placed(*old(self), *final(self), x as int, y as int, *element),
    {
        match self.index(x as i64, y as i64) {
            Some(i) => {
                let cell = Cell::new(*element);
                self.cells.set(i, cell);
            },
            None => {},
        }
    }

    /// Carries out the actions of the cell updated at `(x, y)`, in order. Offsets are
    /// taken from `(x, y)`; a swap moves the cell, and `Update` writes wherever it is.
    /// Actions aimed outside the world are skipped.
    fn apply_actions(&mut self, x: i64, y: i64, actions: &Vec<CellAction>)
        requires
            old(self).wf(),
            old(self).in_bounds(x as int, y as int),
        ensures
            final(self).wf(),
            final(self).spec_width() == old(self).spec_width(),
            final(self).spec_height() == old(self).spec_height(),
            final(self).spec_iter_bit() == old(self).spec_iter_bit(),
            final(self).spec_cells() == apply_actions_spec(
                old(self).spec_cells(),
                old(self).spec_width(),
                old(self).spec_height(),
                x as int,
                y as int,
                x as int,
                y as int,
                actions@,
            ),
    {
        let mut cx = x;
        let mut cy = y;
        let mut k: usize = 0;
        let ghost width = self.width as int;
        let ghost height = self.height as int;
        assert(actions@.skip(0) == actions@);
        while k < actions.len()
            invariant
                self.wf(),
                self.width == width,
                self.height == height,
                self.iter_bit == old(self).iter_bit,
                0 <= k <= actions.len(),
                self.in_bounds(cx as int, cy as int),
                self.in_bounds(x as int, y as int),
                apply_actions_spec(self.cells@, width, height, x as int, y as int, cx as int, cy as int, actions@.skip(k as int))
                    == apply_actions_spec(old(self).cells@, width, height, x as int, y as int, x as int, y as int, actions@),
            decreases actions.len() - k,
        {
            let ghost before = self.cells@;
            assert(actions@.skip(k as int).drop_first() == actions@.skip(k + 1));
            let cur = self.index(cx, cy).unwrap();
            match actions[k] {
                CellAction::Swap(dx, dy) => {
                    match (x.checked_add(dx), y.checked_add(dy)) {
                        (Some(tx), Some(ty)) => match self.index(tx, ty) {
                            Some(t) => {
                                let a = self.cells[cur];
                                let b = self.cells[t];
                                self.cells.set(cur, b);
                                self.cells.set(t, a);
                                cx = tx;
                                cy = ty;
                            },
                            None => {},
                        },
                        _ => {},
                    }
                },
                CellAction::SetCell(dx, dy, c) => {
                    match (x.checked_add(dx), y.checked_add(dy)) {
                        (Some(tx), Some(ty)) => match self.index(tx, ty) {
                            Some(t) => {
                                self.cells.set(t, c);
                            },
                            None => {},
                        },
                        _ => {},
                    }
                },
                CellAction::Update(c) => {
                    self.cells.set(cur, c);
                },
            }
            k = k + 1;
        }
        assert(actions@.skip(actions.len() as int).len() == 0);
    }

    /// Updates the cell at `(x, y)` and carries out what it asks for; the world keeps
    /// as many cells of each element as it had.
    fn update_cell(&mut self, x: usize, y: usize)
        requires
            old(self).wf(),
            x < old(self).spec_width(),
            y < old(self).spec_height(),
        ensures
            final(self).wf(),
            final(self).spec_width() == old(self).spec_width(),
            final(self).spec_height() == old(self).spec_height(),
            final(self).spec_iter_bit() == old(self).spec_iter_bit(),
            element_counts(final(self).spec_cells()) == element_counts(old(self).spec_cells()),
            cell_step(*old(self), *final(self), x as int, y as int),
    {
        let idx = self.index(x as i64, y as i64).unwrap();
        let mut cell = self.cells[idx];
        let ghost snapshot: World = *self;
        let ghost gapi = PixelToChunkApi { world: &snapshot, x: x as i64, y: y as i64 };
        let api = PixelToChunkApi { world: &*self, x: x as i64, y: y as i64 };
        assert(api == gapi);
        let ghost cell0 = cell;
        let actions = cell.update(api);
        let ghost w0 = self.cells@;
        self.cells.set(idx, cell);
        proof {
            let width = self.width as int;
            let height = self.height as int;
            let w1 = self.cells@;
            lemma_update_same_element(w0, idx as int, cell);
            assert(matches_view(w1, width, height, x as int, y as int, cell, gapi));
            if actions@.len() > 0 {
                if cell.element == Element::Water {
                    let (dx, fall_ra, vx, vy) = choose|dx: int, fall_ra: Option<u8>, vx: int, vy: int|
                        (dx == 1 || dx == -1) && (fall_ra matches Some(ra) ==> 100 <= ra < 150)
                            && is_neighbour_offset(vx, vy)
                            && actions@ == liquid_actions(cell, gapi, dx, fall_ra, vx, vy);
                    lemma_liquid_conserves(w1, width, height, x as int, y as int, cell, gapi, dx, fall_ra, vx, vy);
                } else {
                    let dx = choose|dx: int| (dx == 1 || dx == -1) && actions@ == sand_actions(cell, gapi, dx);
                    lemma_sand_conserves(w1, width, height, x as int, y as int, cell, gapi, dx);
                }
            }
        }
        self.apply_actions(x as i64, y as i64, &actions);
        proof {
            assert(gapi == PixelToChunkApi { world: &snapshot, x: (x as int) as i64, y: (y as int) as i64 });
            assert(snapshot.cell(x as int, y as int) == cell0);
            assert(cell == stamped(cell0, snapshot.spec_iter_bit()));
            if !(cell0.iter_bit == snapshot.spec_iter_bit() || !cell0.active) {
                if cell.element == Element::Water {
                    let (dx, fall_ra, vx, vy) = choose|dx: int, fall_ra: Option<u8>, vx: int, vy: int|
                        (dx == 1 || dx == -1) && (fall_ra matches Some(ra) ==> 100 <= ra < 150)
                            && is_neighbour_offset(vx, vy)
                            && actions@ == liquid_actions(cell, gapi, dx, fall_ra, vx, vy);
                    assert(actions@ == liquid_actions(cell, gapi, dx, fall_ra, vx, vy));
                } else if cell.element == Element::Sand || cell.element == Element::GlowingSand {
                    let dx = choose|dx: int| (dx == 1 || dx == -1) && actions@ == sand_actions(cell, gapi, dx);
                    assert(actions@ == sand_actions(cell, gapi, dx));
                }
            }
            assert(rule_allows(gapi, actions@));
            assert(snapshot.index_of(x as int, y as int) == idx);
        }
    }

    /// Runs one pass of the simulation over every cell, bottom row first: each cell in
    /// turn is stamped, asks its rule what to do, and has the answer carried out.
    pub fn forced_update(&mut self)
        requires
            old(self).wf(),
        ensures
            final(self).wf(),
            final(self).spec_width() == old(self).spec_width(),
            final(self).spec_height() == old(self).spec_height(),
            final(self).spec_iter_bit() == !old(self).spec_iter_bit(),
            is_pass(*old(self), *final(self)),
            element_counts(final(self).spec_cells()) == element_counts(old(self).spec_cells()),
    {
        let ghost w0 = *self;
        let ghost width = self.width as int;
        let ghost height = self.height as int;
        self.iter_bit = !self.iter_bit;
        let ghost mut states: Seq<World> = seq![*self];
        let ghost mut k: int = 0;
        let mut y = self.height;
        while y > 0
            invariant
                self.wf(),
                self.width == old(self).width,
                self.height == old(self).height,
                self.iter_bit == !old(self).iter_bit,
                w0 == *old(self),
                width == self.width,
                height == self.height,
                y <= self.height,
                k == (height - y) * width,
                states.len() == k + 1,
                states.last() == *self,
                states[0].spec_width() == width,
                states[0].spec_height() == height,
                states[0].spec_iter_bit() == !w0.spec_iter_bit(),
                states[0].spec_cells() == w0.spec_cells(),
                forall|j: int|
                    0 <= j < k ==> cell_step(
                        #[trigger] states[j],
                        states[j + 1],
                        pass_position(j, width, height).0,
                        pass_position(j, width, height).1,
                    ),
                element_counts(self.cells@) == element_counts(old(self).cells@),
            decreases y,
        {
            y = y - 1;
            let mut x: usize = 0;
            while x < self.width
                invariant
                    self.wf(),
                    self.width == old(self).width,
                    self.height == old(self).height,
                    self.iter_bit == !old(self).iter_bit,
                    width == self.width,
                    height == self.height,
                    y < self.height,
                    x <= self.width,
                    k == (height - 1 - y) * width + x,
                    states.len() == k + 1,
                    states.last() == *self,
                    states[0].spec_width() == width,
                    states[0].spec_height() == height,
                    states[0].spec_iter_bit() == !w0.spec_iter_bit(),
                    states[0].spec_cells() == w0.spec_cells(),
                    forall|j: int|
                        0 <= j < k ==> cell_step(
                            #[trigger] states[j],
                            states[j + 1],
                            pass_position(j, width, height).0,
                            pass_position(j, width, height).1,
                        ),
                    element_counts(self.cells@) == element_counts(old(self).cells@),
                decreases self.width - x,
            {
                self.update_cell(x, y);
                proof {
                    vstd::arithmetic::div_mod::lemma_fundamental_div_mod_converse(
                        k,
                        width,
                        height - 1 - y,
                        x as int,
                    );
                    assert(pass_position(k, width, height) == (x as int, y as int));
                    let prev = states;
                    states = states.push(*self);
                    assert forall|j: int|
                        0 <= j < k + 1 implies cell_step(
                            #[trigger] states[j],
                            states[j + 1],
                            pass_position(j, width, height).0,
                            pass_position(j, width, height).1,
                        ) by {
                        if j < k {
                            assert(states[j] == prev[j]);
                            assert(states[j + 1] == prev[j + 1]);
                        }
                    }
                    k = k + 1;
                }
                x = x + 1;
            }
            proof {
                assert(k == (height - y) * width) by (nonlinear_arith)
                    requires k == (height - 1 - y) * width + width;
            }
        }
        proof {
            assert(k == width * height) by (nonlinear_arith)
                requires k == (height - 0) * width;
            assert(w0.spec_width() == width && w0.spec_height() == height);
            assert(pass_trace(w0, states));
        }
    }
}

/// The cells of a `width` x `height` grid after applying `actions` of the cell that
/// was updated at `(ox, oy)` and has moved to `(cx, cy)` so far.
pub open spec fn apply_actions_spec(
    cells: Seq<Cell>,
    width: int,
    height: int,
    ox: int,
    oy: int,
    cx: int,
    cy: int,
    actions: Seq<CellAction>,
) -> Seq<Cell>
    decreases actions.len(),
{
    if actions.len() == 0 {
        cells
    } else {
        let rest = actions.drop_first();
        let cur = cy * width + cx;
        match actions[0] {
            CellAction::Swap(dx, dy) => {
                let tx = ox + dx;
                let ty = oy + dy;
                if 0 <= tx < width && 0 <= ty < height {
                    let t = ty * width + tx;
                    let swapped = cells.update(cur, cells[t]).update(t, cells[cur]);
                    apply_actions_spec(swapped, width, height, ox, oy, tx, ty, rest)
                } else {
                    apply_actions_spec(cells, width, height, ox, oy, cx, cy, rest)
                }
            },
            CellAction::SetCell(dx, dy, c) => {
                let tx = ox + dx;
                let ty = oy + dy;
                if 0 <= tx < width && 0 <= ty < height {
                    apply_actions_spec(cells.update(ty * width + tx, c), width, height, ox, oy, cx, cy, rest)
                } else {
                    apply_actions_spec(cells, width, height, ox, oy, cx, cy, rest)
                }
            },
            CellAction::Update(c) => {
                apply_actions_spec(cells.update(cur, c), width, height, ox, oy, cx, cy, rest)
            },
        }
    }
}

/// The cell as a pass leaves it before its rule runs: a cell that takes part in the
/// pass (active, and not yet updated in it) has its pass bit flipped.
pub open spec fn stamped(c: Cell, iter_bit: bool) -> Cell {
    if c.iter_bit == iter_bit || !c.active {
        c
    } else {
        flipped(c)
    }
}

/// The cell with its pass bit flipped.
pub open spec fn flipped(c: Cell) -> Cell {
    Cell { iter_bit: !c.iter_bit, ..c }
}

/// `actions` is one of the answers the rule of the cell that `api` looks at may give:
/// nothing for a cell that sits the pass out or is empty or stone, else the answer of
/// its element's rule for some random choices.
pub open spec fn rule_allows(api: PixelToChunkApi, actions: Seq<CellAction>) -> bool {
    let c = api.world.cell(api.x as int, api.y as int);
    if c.iter_bit == api.world.spec_iter_bit() || !c.active {
        actions.len() == 0
    } else {
        let f = flipped(c);
        if f.element == Element::Water {
            exists|dx: int, fall_ra: Option<u8>, vx: int, vy: int|
                (dx == 1 || dx == -1) && (fall_ra matches Some(ra) ==> 100 <= ra < 150)
                    && is_neighbour_offset(vx, vy) && actions == #[trigger] liquid_actions(f, api, dx, fall_ra, vx, vy)
        } else if f.element == Element::Sand || f.element == Element::GlowingSand {
            exists|dx: int| (dx == 1 || dx == -1) && actions == #[trigger] sand_actions(f, api, dx)
        } else {
            actions.len() == 0
        }
    }
}

/// `w1` is `w0` after the cell at `(x, y)` was updated: it was stamped, its rule
/// answered, and the answer was carried out.
pub open spec fn cell_step(w0: World, w1: World, x: int, y: int) -> bool {
    &&& w1.spec_width() == w0.spec_width()
    &&& w1.spec_height() == w0.spec_height()
    &&& w1.spec_iter_bit() == w0.spec_iter_bit()
    &&& exists|actions: Seq<CellAction>|
        #[trigger] rule_allows(PixelToChunkApi { world: &w0, x: x as i64, y: y as i64 }, actions)
            && w1.spec_cells() == apply_actions_spec(
            w0.spec_cells().update(w0.index_of(x, y), stamped(w0.cell(x, y), w0.spec_iter_bit())),
            w0.spec_width(),
            w0.spec_height(),
            x,
            y,
            x,
            y,
            actions,
        )
}

/// The cell updated `k`-th in a pass over a `width`-wide, `height`-high world: rows
/// from the bottom (`y = height - 1`) up, each from left to right.
pub open spec fn pass_position(k: int, width: int, height: int) -> (int, int) {
    (k % width, height - 1 - k / width)
}

/// `states` walks through one pass that starts from `w0`: the first state is `w0`
/// with its pass bit flipped, and each next state updates the next cell.
pub open spec fn pass_trace(w0: World, states: Seq<World>) -> bool {
    let n = w0.spec_width() * w0.spec_height();
    &&& states.len() == n + 1
    &&& states[0].spec_width() == w0.spec_width()
    &&& states[0].spec_height() == w0.spec_height()
    &&& states[0].spec_iter_bit() == !w0.spec_iter_bit()
    &&& states[0].spec_cells() == w0.spec_cells()
    &&& forall|k: int|
        0 <= k < n ==> cell_step(
            #[trigger] states[k],
            states[k + 1],
            pass_position(k, w0.spec_width(), w0.spec_height()).0,
            pass_position(k, w0.spec_width(), w0.spec_height()).1,
        )
}

/// `w1` is what one pass of the simulation may make of `w0`.
pub open spec fn is_pass(w0: World, w1: World) -> bool {
    exists|states: Seq<World>| #[trigger] pass_trace(w0, states) && states.last() == w1
}

/// The cell an action writes, if it writes one.
pub open spec fn written_cell(a: CellAction) -> Option<Cell> {
    match a {
        CellAction::Swap(_, _) => None,
        CellAction::SetCell(_, _, c) => Some(c),
        CellAction::Update(c) => Some(c),
    }
}

/// A written cell, if it is not empty, carries the pass bit `iter_bit`.
pub open spec fn marked_if_filled(written: Option<Cell>, iter_bit: bool) -> bool {
    written matches Some(c) ==> (c.element != Element::Empty ==> c.iter_bit == iter_bit)
}

/// Every cell that takes part in a pass is marked as updated in it: each non-empty cell
/// a rule writes carries the pass's bit, so that no cell is updated twice in a pass,
/// even when it moves ahead of the sweep.
pub proof fn law_rule_marks_written_cells(api: PixelToChunkApi, actions: Seq<CellAction>)
    requires
        rule_allows(api, actions),
    ensures
        forall|k: int|
            0 <= k < actions.len() ==> marked_if_filled(#[trigger] written_cell(actions[k]), api.world.spec_iter_bit()),
{
    let c = api.world.cell(api.x as int, api.y as int);
    if !(c.iter_bit == api.world.spec_iter_bit() || !c.active) {
        let f = flipped(c);
        if f.element == Element::Water {
            let (dx, fall_ra, vx, vy) = choose|dx: int, fall_ra: Option<u8>, vx: int, vy: int|
                (dx == 1 || dx == -1) && (fall_ra matches Some(ra) ==> 100 <= ra < 150)
                    && is_neighbour_offset(vx, vy) && actions == liquid_actions(f, api, dx, fall_ra, vx, vy);
            assert(actions == liquid_actions(f, api, dx, fall_ra, vx, vy));
        } else if f.element == Element::Sand || f.element == Element::GlowingSand {
            let dx = choose|dx: int| (dx == 1 || dx == -1) && actions == sand_actions(f, api, dx);
            assert(actions == sand_actions(f, api, dx));
        }
    }
}

/// `w1` is `w0` with a fresh cell of `element` placed at `(x, y)`, or unchanged when
/// that lies outside the world.
pub open spec fn placed(w0: World, w1: World, x: int, y: int, element: Element) -> bool {
    &&& w1.wf()
    &&& w1.spec_width() == w0.spec_width()
    &&& w1.spec_height() == w0.spec_height()
    &&& w1.spec_iter_bit() == w0.spec_iter_bit()
    &&& !w0.in_bounds(x, y) ==> w1.spec_cells() == w0.spec_cells()
    &&& w0.in_bounds(x, y) ==> {
        let i = w0.index_of(x, y);
        &&& w1.spec_cells() == w0.spec_cells().update(i, w1.spec_cells()[i])
        &&& is_fresh_cell(w1.spec_cells()[i], element)
    }
}

/// Placing a cell and reading it back: the placed position holds a fresh cell of the
/// placed element, and every other position reads as before.
pub proof fn law_read_after_place(w0: World, w1: World, x: int, y: int, element: Element, qx: int, qy: int)
    requires
        w0.wf(),
        placed(w0, w1, x, y, element),
    ensures
        w0.in_bounds(x, y) ==> is_fresh_cell(w1.cell(x, y), element),
        qx != x || qy != y ==> w1.cell(qx, qy) == w0.cell(qx, qy),
{
    if w0.in_bounds(qx, qy) && w0.in_bounds(x, y) && (qx != x || qy != y) {
        lemma_index_injective(qx, qy, x, y, w0.spec_width());
    }
    if w0.in_bounds(x, y) {
        lemma_grid_index(x, y, w0.spec_width(), w0.spec_height());
    }
    if w0.in_bounds(qx, qy) {
        lemma_grid_index(qx, qy, w0.spec_width(), w0.spec_height());
    }
}

/// How many cells of each element a row of cells holds.
pub open spec fn element_counts(cells: Seq<Cell>) -> Multiset<Element> {
    cells.map_values(|c: Cell| c.element).to_multiset()
}

proof fn lemma_update_counts(cells: Seq<Cell>, i: int, c: Cell)
    requires
        0 <= i < cells.len(),
    ensures
        element_counts(cells.update(i, c)) == element_counts(cells).remove(cells[i].element).insert(c.element),
        element_counts(cells).count(cells[i].element) > 0,
{
    let s = cells.map_values(|c: Cell| c.element);
    assert(cells.update(i, c).map_values(|c: Cell| c.element) =~= s.update(i, c.element));
    assert(s.update(i, c.element) =~= s.remove(i).insert(i, c.element));
    vstd::seq_lib::to_multiset_remove(s, i);
    vstd::seq_lib::to_multiset_insert(s.remove(i), i, c.element);
    vstd::seq_lib::to_multiset_contains(s, s[i]);
}

/// Overwriting a cell with one of the same element keeps the element counts.
proof fn lemma_update_same_element(cells: Seq<Cell>, i: int, c: Cell)
    requires
        0 <= i < cells.len(),
        cells[i].element == c.element,
    ensures
        element_counts(cells.update(i, c)) == element_counts(cells),
{
    broadcast use vstd::multiset::group_multiset_axioms;
    lemma_update_counts(cells, i, c);
    assert(element_counts(cells.update(i, c)) =~= element_counts(cells));
}

/// Exchanging two cells keeps the element counts.
proof fn lemma_swap_counts(cells: Seq<Cell>, i: int, j: int)
    requires
        0 <= i < cells.len(),
        0 <= j < cells.len(),
    ensures
        element_counts(cells.update(i, cells[j]).update(j, cells[i])) == element_counts(cells),
{
    broadcast use vstd::multiset::group_multiset_axioms;
    let c1 = cells.update(i, cells[j]);
    lemma_update_counts(cells, i, cells[j]);
    lemma_update_counts(c1, j, cells[i]);
    if i == j {
        assert(c1.update(j, cells[i]) =~= cells);
    } else {
        assert(c1[j] == cells[j]);
        assert(element_counts(c1.update(j, cells[i])) =~= element_counts(cells));
    }
}

/// Distinct cells of a grid have distinct storage indices.
proof fn lemma_index_injective(x1: int, y1: int, x2: int, y2: int, width: int)
    requires
        0 <= x1 < width,
        0 <= x2 < width,
        0 <= y1,
        0 <= y2,
        x1 != x2 || y1 != y2,
    ensures
        y1 * width + x1 != y2 * width + x2,
{
    if y1 < y2 {
        assert(y1 * width + x1 < y2 * width + x2) by (nonlinear_arith)
            requires 0 <= x1 < width, 0 <= x2, y1 < y2;
    } else if y2 < y1 {
        assert(y2 * width + x2 < y1 * width + x1) by (nonlinear_arith)
            requires 0 <= x2 < width, 0 <= x1, y2 < y1;
    }
}

/// The ghost picture of a world that an update rule is checked against: `cells` agrees
/// with the world the rule looked at in every element, and holds `cell` at `(x, y)`.
pub open spec fn matches_view(
    cells: Seq<Cell>,
    width: int,
    height: int,
    x: int,
    y: int,
    cell: Cell,
    api: PixelToChunkApi,
) -> bool {
    &&& cells.len() == width * height
    &&& 0 <= x < width
    &&& 0 <= y < height
    &&& cells[y * width + x] == cell
    &&& api.x == x
    &&& api.y == y
    &&& api.world.spec_width() == width
    &&& api.world.spec_height() == height
    &&& api.world.spec_cells().len() == cells.len()
    &&& forall|i: int| 0 <= i < cells.len() ==> #[trigger] api.world.spec_cells()[i].element == cells[i].element
}

/// A neighbour that the rule saw as anything but stone lies inside the world, and
/// `cells` holds the same element there.
proof fn lemma_seen(
    cells: Seq<Cell>,
    width: int,
    height: int,
    x: int,
    y: int,
    cell: Cell,
    api: PixelToChunkApi,
    dx: int,
    dy: int,
)
    requires
        matches_view(cells, width, height, x, y, cell, api),
        api.cell_at(dx, dy).element != Element::Stone,
    ensures
        0 <= x + dx < width,
        0 <= y + dy < height,
        0 <= (y + dy) * width + (x + dx) < cells.len(),
        cells[(y + dy) * width + (x + dx)].element == api.cell_at(dx, dy).element,
{
    lemma_grid_index(x + dx, y + dy, width, height);
}

/// Carrying out a sand cell's actions keeps the element counts.
proof fn lemma_sand_conserves(
    cells: Seq<Cell>,
    width: int,
    height: int,
    x: int,
    y: int,
    cell: Cell,
    api: PixelToChunkApi,
    dx: int,
)
    requires
        matches_view(cells, width, height, x, y, cell, api),
        dx == 1 || dx == -1,
    ensures
        element_counts(apply_actions_spec(cells, width, height, x, y, x, y, sand_actions(cell, api, dx)))
            == element_counts(cells),
{
    reveal_with_fuel(apply_actions_spec, 3);
    lemma_grid_index(x, y, width, height);
    let p = y * width + x;
    let actions = sand_actions(cell, api, dx);
    let (tx, ty) = if api.cell_at(0, 1).element == Element::Empty {
        (0int, 1int)
    } else if api.cell_at(dx, 0).element == Element::Empty {
        (dx, 0int)
    } else {
        (0int, 1int)
    };
    if api.cell_at(0, 1).element == Element::Empty || api.cell_at(dx, 0).element == Element::Empty
        || api.cell_at(0, 1).element == Element::Water {
        lemma_seen(cells, width, height, x, y, cell, api, tx, ty);
        let t = (y + ty) * width + (x + tx);
        let swapped = cells.update(p, cells[t]).update(t, cells[p]);
        assert(actions.drop_first().drop_first().len() == 0);
        lemma_swap_counts(cells, p, t);
        assert(swapped[t] == cell);
        assert(swapped.update(t, cell) =~= swapped);
    } else {
        assert(actions.drop_first().len() == 0);
        assert(cells.update(p, cell) =~= cells);
    }
}

/// Moving the cell at `p` to a free target `t` and then rewriting it there with a cell
/// of the same element keeps the element counts.
proof fn lemma_swap_then_update(cells: Seq<Cell>, p: int, t: int, c: Cell)
    requires
        0 <= p < cells.len(),
        0 <= t < cells.len(),
        cells[p].element == c.element,
    ensures
        element_counts(cells.update(p, cells[t]).update(t, cells[p]).update(t, c)) == element_counts(cells),
{
    let swapped = cells.update(p, cells[t]).update(t, cells[p]);
    lemma_swap_counts(cells, p, t);
    lemma_update_same_element(swapped, t, c);
}

/// Carrying out a water cell's actions keeps the element counts.
#[verifier::rlimit(50)]
proof fn lemma_liquid_conserves(
    cells: Seq<Cell>,
    width: int,
    height: int,
    x: int,
    y: int,
    cell: Cell,
    api: PixelToChunkApi,
    dx: int,
    fall_ra: Option<u8>,
    vx: int,
    vy: int,
)
    requires
        matches_view(cells, width, height, x, y, cell, api),
        cell.element == Element::Water,
        dx == 1 || dx == -1,
        is_neighbour_offset(vx, vy),
    ensures
        element_counts(
            apply_actions_spec(cells, width, height, x, y, x, y, liquid_actions(cell, api, dx, fall_ra, vx, vy)),
        ) == element_counts(cells),
{
    broadcast use vstd::multiset::group_multiset_axioms;
    reveal_with_fuel(apply_actions_spec, 4);
    lemma_grid_index(x, y, width, height);
    let p = y * width + x;
    let actions = liquid_actions(cell, api, dx, fall_ra, vx, vy);
    if api.cell_at(0, 1).element == Element::Empty || api.cell_at(dx, 1).element == Element::Empty
        || api.cell_at(-dx, 1).element == Element::Empty {
        let (tx, ty) = if api.cell_at(0, 1).element == Element::Empty {
            (0int, 1int)
        } else if api.cell_at(dx, 1).element == Element::Empty {
            (dx, 1int)
        } else {
            (-dx, 1int)
        };
        lemma_seen(cells, width, height, x, y, cell, api, tx, ty);
        let t = (y + ty) * width + (x + tx);
        assert(actions.drop_first().drop_first().len() == 0);
        let c = actions[1]->Update_0;
        lemma_swap_then_update(cells, p, t, c);
    } else {
        let d = lean(cell);
        let dx0 = api.cell_at(d, 0);
        if dx0.element == Element::Empty && api.cell_at(2 * d, 0).element == Element::Empty {
            lemma_seen(cells, width, height, x, y, cell, api, 2 * d, 0);
            let t = y * width + (x + 2 * d);
            let swapped = cells.update(p, cells[t]).update(t, cells[p]);
            lemma_swap_counts(cells, p, t);
            let scooted = Cell { rb: 6, ..cell };
            let spread = spread_opinion(scooted, api, vx, vy);
            if spread.len() > 0 {
                lemma_seen(cells, width, height, x, y, cell, api, vx, vy);
                let q = (y + vy) * width + (x + vx);
                lemma_index_injective(x + vx, y + vy, x, y, width);
                lemma_index_injective(x + vx, y + vy, x + 2 * d, y, width);
                assert(swapped[q] == cells[q]);
                lemma_update_same_element(swapped, q, scooted);
                assert(actions.drop_first().drop_first().len() == 0);
            } else {
                assert(actions.drop_first().len() == 0);
            }
        } else if dx0.element == Element::Empty {
            lemma_seen(cells, width, height, x, y, cell, api, d, 0);
            let a = y * width + (x + d);
            lemma_index_injective(x + d, y, x, y, width);
            let c3 = Cell { rb: 3, ..cell };
            let cells1 = cells.update(a, c3);
            let cells2 = cells1.update(p, dx0);
            lemma_update_counts(cells, a, c3);
            lemma_update_counts(cells1, p, dx0);
            assert(cells1[p] == cell);
            assert(element_counts(cells2) =~= element_counts(cells));
            let spread = spread_opinion(cell, api, vx, vy);
            if spread.len() > 0 {
                lemma_seen(cells, width, height, x, y, cell, api, vx, vy);
                let q = (y + vy) * width + (x + vx);
                lemma_index_injective(x + vx, y + vy, x, y, width);
                if vx == d && vy == 0 {
                    assert(false);
                }
                lemma_index_injective(x + vx, y + vy, x + d, y, width);
                assert(cells2[q] == cells[q]);
                lemma_update_same_element(cells2, q, cell);
                assert(actions.drop_first().drop_first().drop_first().len() == 0);
            } else {
                assert(actions.drop_first().drop_first().len() == 0);
            }
        } else if cell.rb == 0 {
            if api.cell_at(-d, 0).element == Element::Empty {
                assert(actions.drop_first().len() == 0);
                lemma_update_same_element(cells, p, actions[0]->Update_0);
            }
        } else {
            assert(actions.drop_first().len() == 0);
            lemma_update_same_element(cells, p, actions[0]->Update_0);
        }
    }
}

/// What a cell sees of the world while it is updated: the cells around it and a
/// source of randomness.
pub struct PixelToChunkApi<'a> {
    pub world: &'a World,
    pub x: i64,
    pub y: i64,
}

impl<'a> PixelToChunkApi<'a> {
    /// The cell at offset `(dx, dy)` from the updated cell.
    pub open spec fn cell_at(&self, dx: int, dy: int) -> Cell {
        self.world.cell(self.x + dx, self.y + dy)
    }

    pub open spec fn iter_bit_spec(&self) -> bool {
        self.world.spec_iter_bit()
    }

    /// The cell at offset `(dx, dy)`; outside the world it is a wall.
    pub fn get(&self, dx: i64, dy: i64) -> (c: Cell)
        requires
            self.world.wf(),
        ensures
            c == self.cell_at(dx as int, dy as int),
    {
        match (self.x.checked_add(dx), self.y.checked_add(dy)) {
            (Some(x), Some(y)) => match self.world.index(x, y) {
                Some(i) => self.world.cells[i],
                None => wall_cell(),
            },
            _ => wall_cell(),
        }
    }

    /// The pass the world is in.
    pub fn iter_bit(&self) -> (b: bool)
        ensures
            b == self.iter_bit_spec(),
    {
        self.world.iter_bit
    }

    /// A random integer in `[0, n)`.
    pub fn rand_int(&mut self, n: i64) -> (r: i64)
        requires
            n > 0,
        ensures
            0 <= r < n,
            *final(self) == *old(self),
    {
        fastrand_i64(n)
    }

    /// A random horizontal direction, `-1` or `1`: the direction of a roll in `[0, 1000)`.
    pub fn rand_dir(&mut self) -> (d: i64)
        ensures
            d == 1 || d == -1,
            exists|i: int| 0 <= i < 1000 && d == #[trigger] dir_of_roll(i),
            *final(self) == *old(self),
    {
        let i = self.rand_int(1000);
        dir_of(i)
    }

    /// `true` with chance one in `n`: whether a roll in `[0, n)` hits.
    pub fn once_in(&mut self, n: i64) -> (b: bool)
        requires
            n > 0,
        ensures
            n == 1 ==> b,
            exists|r: int| 0 <= r < n && b == #[trigger] roll_hits(r),
            *final(self) == *old(self),
    {
        let r = self.rand_int(n);
        assert(roll_hits(r as int) == (r == 0));
        r == 0
    }

    /// A random one of the eight neighbouring offsets: the offset of a roll in `[0, 8)`.
    pub fn rand_vec_8(&mut self) -> (v: (i64, i64))
        ensures
            is_neighbour_offset(v.0 as int, v.1 as int),
            exists|i: int| 0 <= i < 8 && (v.0 as int, v.1 as int) == #[trigger] vec_8_of_roll(i),
            *final(self) == *old(self),
    {
        let i = self.rand_int(8);
        vec_8_of(i)
    }
}

} // verus!
