use vstd::prelude::*;

use crate::cell::{Cell, CellAction};
use crate::world::PixelToChunkApi;

verus! {

/// The substance a cell of the world is made of.
#[derive(Clone, Copy, PartialEq, Eq, Structural, Debug)]
pub enum Element {
    Empty,
    Stone,
    Water,
    Sand,
    GlowingSand,
}

impl Default for Element {
    fn default() -> (e: Element)
        ensures
            e == Element::Empty,
    {
        Element::Empty
    }
}

/// One of the eight neighbouring offsets.
pub open spec fn is_neighbour_offset(dx: int, dy: int) -> bool {
    -1 <= dx <= 1 && -1 <= dy <= 1 && !(dx == 0 && dy == 0)
}

/// What a sand cell does, given the direction `dx` (left or right) it tries first:
/// fall into an empty cell below, else slide into an empty cell beside it, else
/// sink into water below; in any case the cell itself is written back.
pub open spec fn sand_actions(cell: Cell, api: PixelToChunkApi, dx: int) -> Seq<CellAction> {
    let moves = if api.cell_at(0, 1).element == Element::Empty {
        seq![CellAction::Swap(0, 1)]
    } else if api.cell_at(dx, 0).element == Element::Empty {
        seq![CellAction::Swap(dx as i64, 0)]
    } else if api.cell_at(0, 1).element == Element::Water {
        seq![CellAction::Swap(0, 1)]
    } else {
        seq![]
    };
    moves.push(CellAction::Update(cell))
}

/// The offset of an exchange the action asks for, if it asks for one.
pub open spec fn swap_offset(a: CellAction) -> Option<(i64, i64)> {
    match a {
        CellAction::Swap(dx, dy) => Some((dx, dy)),
        _ => None,
    }
}

/// Sand never rises: every exchange its rule asks for is with a cell below it or
/// beside it.
pub proof fn law_sand_never_rises(cell: Cell, api: PixelToChunkApi, dx: int)
    requires
        dx == 1 || dx == -1,
    ensures
        forall|k: int|
            0 <= k < sand_actions(cell, api, dx).len() ==> (#[trigger] swap_offset(sand_actions(cell, api, dx)[k]) matches Some(
                o,
            ) ==> o.1 >= 0),
{
}

/// The update rule of a sand cell.
pub fn update_sand(cell: Cell, api: PixelToChunkApi) -> (actions: Vec<CellAction>)
    requires
        api.world.wf(),
    ensures
        exists|dx: int| (dx == 1 || dx == -1) && actions@ == sand_actions(cell, api, dx),
{
    let mut api = api;
    let mut actions: Vec<CellAction> = Vec::new();
    let dx = api.rand_dir();

    if api.get(0, 1).element == Element::Empty {
        actions.push(CellAction::Swap(0, 1));
    } else if api.get(dx, 0).element == Element::Empty {
        actions.push(CellAction::Swap(dx, 0));
    } else if api.get(0, 1).element == Element::Water {
        actions.push(CellAction::Swap(0, 1));
    }
    actions.push(CellAction::Update(cell));
    assert(actions@ == sand_actions(cell, api, dx as int));
    actions
}

/// The direction a water cell leans to, taken from the parity of `ra`.
pub open spec fn lean(cell: Cell) -> int {
    if cell.ra % 2 == 0 { 1 } else { -1 }
}

/// Spreads the cell's leaning to a water neighbour at `(vx, vy)` that leans the other way.
pub open spec fn spread_opinion(cell: Cell, api: PixelToChunkApi, vx: int, vy: int) -> Seq<CellAction> {
    let nbr = api.cell_at(vx, vy);
    if nbr.element == Element::Water && nbr.ra % 2 != cell.ra % 2 {
        seq![CellAction::SetCell(vx as i64, vy as i64, cell)]
    } else {
        seq![]
    }
}

/// What a water cell does, given the random choices: the direction `dx` it tries
/// first when falling diagonally, the new leaning `fall_ra` it may take while falling
/// (`None` when it keeps its own), and the neighbour `(vx, vy)` it may sway.
pub open spec fn liquid_actions(
    cell: Cell,
    api: PixelToChunkApi,
    dx: int,
    fall_ra: Option<u8>,
    vx: int,
    vy: int,
) -> Seq<CellAction> {
    if api.cell_at(0, 1).element == Element::Empty {
        let fallen = match fall_ra {
            Some(ra) => Cell { ra: ra, ..cell },
            None => cell,
        };
        seq![CellAction::Swap(0, 1), CellAction::Update(fallen)]
    } else if api.cell_at(dx, 1).element == Element::Empty {
        seq![CellAction::Swap(dx as i64, 1), CellAction::Update(cell)]
    } else if api.cell_at(-dx, 1).element == Element::Empty {
        seq![CellAction::Swap(-dx as i64, 1), CellAction::Update(cell)]
    } else {
        let d = lean(cell);
        let dx0 = api.cell_at(d, 0);
        if dx0.element == Element::Empty && api.cell_at(2 * d, 0).element == Element::Empty {
            // scoot two cells at once
            let scooted = Cell { rb: 6, ..cell };
            seq![CellAction::Swap((2 * d) as i64, 0)] + spread_opinion(scooted, api, vx, vy)
        } else if dx0.element == Element::Empty {
            seq![
                CellAction::SetCell(d as i64, 0, Cell { rb: 3, ..cell }),
                CellAction::Update(dx0),
            ] + spread_opinion(cell, api, vx, vy)
        } else if cell.rb == 0 {
            if api.cell_at(-d, 0).element == Element::Empty {
                // bump: lean the other way
                seq![CellAction::Update(Cell { ra: ((cell.ra as int) + d) as u8, ..cell })]
            } else {
                seq![]
            }
        } else {
            // become less certain (more bumpable)
            seq![CellAction::Update(Cell { rb: (cell.rb - 1) as u8, ..cell })]
        }
    }
}

/// Sand falls into an empty cell below; else it slides into an empty cell beside it on
/// the side `dx` it tries; else it sinks into water below; else it stays. In every
/// case it is written back wherever it ends up, and only the first of these moves is
/// made.
pub proof fn law_sand_moves(cell: Cell, api: PixelToChunkApi, dx: int)
    requires
        dx == 1 || dx == -1,
    ensures
        ({
            let actions = sand_actions(cell, api, dx);
            let below = api.cell_at(0, 1).element;
            let side = api.cell_at(dx, 0).element;
            &&& below == Element::Empty ==> actions == seq![CellAction::Swap(0, 1), CellAction::Update(cell)]
            &&& below != Element::Empty && side == Element::Empty ==> actions == seq![
                CellAction::Swap(dx as i64, 0),
                CellAction::Update(cell),
            ]
            &&& below == Element::Water && side != Element::Empty ==> actions == seq![
                CellAction::Swap(0, 1),
                CellAction::Update(cell),
            ]
            &&& below != Element::Empty && below != Element::Water && side != Element::Empty ==> actions == seq![
                CellAction::Update(cell),
            ]
        }),
{
}

/// Water falls into an empty cell below, else into an empty cell diagonally below on
/// the side `dx` it tries first, else on the other side; it is then written back
/// there, with its own shade or, falling straight, perhaps a new one.
pub proof fn law_water_falls(cell: Cell, api: PixelToChunkApi, dx: int, fall_ra: Option<u8>, vx: int, vy: int)
    requires
        dx == 1 || dx == -1,
    ensures
        ({
            let actions = liquid_actions(cell, api, dx, fall_ra, vx, vy);
            let below = api.cell_at(0, 1).element == Element::Empty;
            let first = api.cell_at(dx, 1).element == Element::Empty;
            let second = api.cell_at(-dx, 1).element == Element::Empty;
            &&& below ==> actions.len() == 2 && actions[0] == CellAction::Swap(0, 1) && (actions[1] == CellAction::Update(cell)
                || fall_ra is Some)
            &&& !below && first ==> actions == seq![CellAction::Swap(dx as i64, 1), CellAction::Update(cell)]
            &&& !below && !first && second ==> actions == seq![
                CellAction::Swap(-dx as i64, 1),
                CellAction::Update(cell),
            ]
        }),
{
}

/// A water cell that cannot fall (the cells below and diagonally below are taken)
/// moves along its leaning, which its shade sets: right for an even `ra`, left for an
/// odd one. Two free cells that way: it scoots two cells; only the first free: it
/// steps one cell. Its leaning side taken, the other side free and not set in its way
/// (`rb == 0`): it turns around, its shade moving by one to the other parity; both
/// sides taken: it does nothing.
pub proof fn law_water_follows_its_shade(
    cell: Cell,
    api: PixelToChunkApi,
    dx: int,
    fall_ra: Option<u8>,
    vx: int,
    vy: int,
)
    requires
        dx == 1 || dx == -1,
        is_neighbour_offset(vx, vy),
        api.cell_at(0, 1).element != Element::Empty,
        api.cell_at(1, 1).element != Element::Empty,
        api.cell_at(-1, 1).element != Element::Empty,
    ensures
        ({
            let actions = liquid_actions(cell, api, dx, fall_ra, vx, vy);
            let even = cell.ra % 2 == 0;
            let right_free = api.cell_at(1, 0).element == Element::Empty;
            let left_free = api.cell_at(-1, 0).element == Element::Empty;
            &&& even && right_free && api.cell_at(2, 0).element == Element::Empty ==> actions.len() >= 1
                && actions[0] == CellAction::Swap(2, 0)
            &&& !even && left_free && api.cell_at(-2, 0).element == Element::Empty ==> actions.len() >= 1
                && actions[0] == CellAction::Swap(-2i64, 0)
            &&& even && right_free && api.cell_at(2, 0).element != Element::Empty ==> actions.len() >= 2
                && actions[0] == CellAction::SetCell(1, 0, Cell { rb: 3, ..cell })
            &&& !even && left_free && api.cell_at(-2, 0).element != Element::Empty ==> actions.len() >= 2
                && actions[0] == CellAction::SetCell(-1i64, 0, Cell { rb: 3, ..cell })
            &&& even && !right_free && cell.rb == 0 && left_free ==> actions == seq![
                CellAction::Update(Cell { ra: (cell.ra + 1) as u8, ..cell }),
            ]
            &&& !even && !left_free && cell.rb == 0 && right_free ==> actions == seq![
                CellAction::Update(Cell { ra: (cell.ra - 1) as u8, ..cell }),
            ]
            &&& !right_free && !left_free && cell.rb == 0 ==> actions.len() == 0
        }),
{
}

/// Water never rises: every exchange its rule asks for is with a cell below it or
/// beside it.
pub proof fn law_water_never_rises(cell: Cell, api: PixelToChunkApi, dx: int, fall_ra: Option<u8>, vx: int, vy: int)
    requires
        dx == 1 || dx == -1,
        is_neighbour_offset(vx, vy),
    ensures
        forall|k: int|
            0 <= k < liquid_actions(cell, api, dx, fall_ra, vx, vy).len() ==> (#[trigger] swap_offset(
                liquid_actions(cell, api, dx, fall_ra, vx, vy)[k],
            ) matches Some(o) ==> o.1 >= 0),
{
}

/// The update rule of a water cell.
pub fn update_liquid(cell: Cell, api: PixelToChunkApi) -> (actions: Vec<CellAction>)
    requires
        api.world.wf(),
    ensures
        exists|dx: int, fall_ra: Option<u8>, vx: int, vy: int|
            (dx == 1 || dx == -1) && (fall_ra matches Some(ra) ==> 100 <= ra < 150)
                && is_neighbour_offset(vx, vy) && actions@ == liquid_actions(
                cell,
                api,
                dx,
                fall_ra,
                vx,
                vy,
            ),
{
    let mut api = api;
    let mut cell = cell;
    let ghost start_cell = cell;
    let mut actions: Vec<CellAction> = Vec::new();
    let mut dx = api.rand_dir();
    let ghost first_dx = dx as int;

    if api.get(0, 1).element == Element::Empty {
        actions.push(CellAction::Swap(0, 1));
        let ghost mut fall_ra: Option<u8> = None;
        if api.once_in(20) {
            // randomize direction when falling sometimes
            cell.ra = 100 + api.rand_int(50) as u8;
            proof { fall_ra = Some(cell.ra); }
        }
        actions.push(CellAction::Update(cell));
        assert(actions@ == liquid_actions(start_cell, api, first_dx, fall_ra, 1, 1));
        return actions;
    } else if api.get(dx, 1).element == Element::Empty {
        actions.push(CellAction::Swap(dx, 1));
        actions.push(CellAction::Update(cell));
        assert(actions@ == liquid_actions(start_cell, api, first_dx, None, 1, 1));
        return actions;
    } else if api.get(-dx, 1).element == Element::Empty {
        actions.push(CellAction::Swap(-dx, 1));
        actions.push(CellAction::Update(cell));
        assert(actions@ == liquid_actions(start_cell, api, first_dx, None, 1, 1));
        return actions;
    }
    dx = if cell.ra % 2 == 0 { 1 } else { -1 };
    let dx0 = api.get(dx, 0);

    if api.get(dx, 0).element == Element::Empty && api.get(dx * 2, 0).element == Element::Empty {
        // scoot double
        cell.rb = 6;
        actions.push(CellAction::Swap(2 * dx, 0));
        let (vx, vy) = api.rand_vec_8();
        let nbr = api.get(vx, vy);
        // spread opinion
        if nbr.element == Element::Water {
            if nbr.ra % 2 != cell.ra % 2 {
                actions.push(CellAction::SetCell(vx, vy, Cell { ra: cell.ra, ..cell }));
            }
        }
        assert(actions@ == liquid_actions(start_cell, api, first_dx, None, vx as int, vy as int));
    } else if dx0.element == Element::Empty {
        actions.push(CellAction::SetCell(dx, 0, Cell { rb: 3, ..cell }));
        actions.push(CellAction::Update(dx0));
        let (vx, vy) = api.rand_vec_8();
        let nbr = api.get(vx, vy);
        if nbr.element == Element::Water {
            if nbr.ra % 2 != cell.ra % 2 {
                actions.push(CellAction::SetCell(vx, vy, Cell { ra: cell.ra, ..cell }));
            }
        }
        assert(actions@ == liquid_actions(start_cell, api, first_dx, None, vx as int, vy as int));
    } else if cell.rb == 0 {
        if api.get(-dx, 0).element == Element::Empty {
            // bump
            cell.ra = ((cell.ra as i64) + dx) as u8;
            actions.push(CellAction::Update(cell));
        }
        assert(actions@ == liquid_actions(start_cell, api, first_dx, None, 1, 1));
    } else {
        // become less certain (more bumpable)
        cell.rb = cell.rb - 1;
        actions.push(CellAction::Update(cell));
        assert(actions@ == liquid_actions(start_cell, api, first_dx, None, 1, 1));
    }
    actions
}

} // verus!
