use vstd::prelude::*;

use crate::elements::{Element, liquid_actions, sand_actions, update_liquid, update_sand, is_neighbour_offset};
use crate::random::thread_rng_u8_up_to;
use crate::world::PixelToChunkApi;

verus! {

/// One cell of the world: its element, two bytes of per-element state, the bit that
/// marks in which pass it was last updated, and whether it is simulated at all.
#[derive(Clone, Copy, PartialEq, Eq, Structural, Debug)]
pub struct Cell {
    pub element: Element,
    pub ra: u8,
    pub rb: u8,
    pub iter_bit: bool,
    pub active: bool,
}

/// The cell that stands for everything outside the world: inert stone.
pub open spec fn spec_wall_cell() -> Cell {
    Cell { element: Element::Stone, ra: 0, rb: 0, iter_bit: false, active: true }
}

/// The cell that stands for everything outside the world: inert stone.
pub fn wall_cell() -> (c: Cell)
    ensures
        c == spec_wall_cell(),
{
    Cell { element: Element::Stone, ra: 0, rb: 0, iter_bit: false, active: true }
}

/// What a cell asks the world to do after an update. Offsets are relative to the
/// position the cell had when it was updated.
#[derive(Clone, Copy, PartialEq, Eq, Structural, Debug)]
pub enum CellAction {
    /// Exchange the cell with the one at the offset; the cell is then found there.
    Swap(i64, i64),
    /// Overwrite the cell at the offset.
    SetCell(i64, i64, Cell),
    /// Overwrite the cell itself, wherever it has moved to.
    Update(Cell),
}

pub open spec fn spec_default_cell() -> Cell {
    Cell { element: Element::Empty, ra: 0, rb: 0, iter_bit: false, active: false }
}

impl Default for Cell {
    fn default() -> (c: Cell)
        ensures
            c == spec_default_cell(),
    {
        Cell { element: Element::Empty, ra: 0, rb: 0, iter_bit: false, active: false }
    }
}

/// `c` is a fresh, active cell of `element`, not yet updated in any pass; sand has a
/// shade `ra` below 25, everything else none.
pub open spec fn is_fresh_cell(c: Cell, element: Element) -> bool {
    &&& c.element == element
    &&& c.active
    &&& !c.iter_bit
    &&& c.rb == 0
    &&& element == Element::Sand ==> c.ra < 25
    &&& element != Element::Sand ==> c.ra == 0
}

impl Cell {
    /// A fresh, active cell of `element`; sand gets a random shade `ra` in `[0, 25)`.
    pub fn new(element: Element) -> (cell: Cell)
        ensures
            is_fresh_cell(cell, element),
    {
        let mut cell = Cell { element, active: true, ..Default::default() };
        match cell.element {
            Element::Sand => {
                cell.ra = thread_rng_u8_up_to(24);
            },
            _ => {},
        }
        cell
    }

    /// Updates the cell once per pass: a cell already updated in this pass, or an
    /// inactive one, does nothing; otherwise it records the pass and asks for the
    /// actions of its element's rule. Glowing sand moves by the sand rule.
    pub fn update(&mut self, api: PixelToChunkApi) -> (actions: Vec<CellAction>)
        requires
            api.world.wf(),
        ensures
            old(self).iter_bit == api.iter_bit_spec() || !old(self).active ==> {
                &&& *final(self) == *old(self)
                &&& actions@.len() == 0
            },
            !(old(self).iter_bit == api.iter_bit_spec() || !old(self).active) ==> {
                &&& *final(self) == Cell { iter_bit: !old(self).iter_bit, ..*old(self) }
                &&& (final(self).element == Element::Empty || final(self).element == Element::Stone)
                    ==> actions@.len() == 0
                &&& final(self).element == Element::Water ==> exists|dx: int, fall_ra: Option<u8>, vx: int, vy: int|
                    (dx == 1 || dx == -1) && (fall_ra matches Some(ra) ==> 100 <= ra < 150)
                        && is_neighbour_offset(vx, vy)
                        && actions@ == liquid_actions(*final(self), api, dx, fall_ra, vx, vy)
                &&& (final(self).element == Element::Sand || final(self).element == Element::GlowingSand)
                    ==> exists|dx: int| (dx == 1 || dx == -1) && actions@ == sand_actions(*final(self), api, dx)
            },
    {
        if self.iter_bit == api.iter_bit() || !self.active {
            return Vec::new();
        }
        self.iter_bit = !self.iter_bit;
        match self.element {
            Element::Empty => Vec::new(),
            Element::Stone => Vec::new(),
            Element::Water => update_liquid(*self, api),
            Element::Sand => update_sand(*self, api),
            Element::GlowingSand => update_sand(*self, api),
        }
    }
}

} // verus!
