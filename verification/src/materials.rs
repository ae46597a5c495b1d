use vstd::prelude::*;

use crate::chunk::{ChunkApi, render_message_at, update_message_at};
use crate::dirty_rect::{RenderMessage, UpdateMessage};
use crate::vector::IVec2;
use crate::pixel::Pixel;

verus! {

/// How a burning material behaves.
#[derive(Clone, Copy, PartialEq, Eq, Structural, Debug)]
pub struct FireParameters {
    pub fire_temperature: u16,
    pub ignition_temperature: u16,
    pub fire_hp: u16,
}

/// The parameters of a liquid. Its fractional quantities are kept as the bit
/// patterns of `f32` values (`f32::to_bits`): nothing here computes with them.
#[derive(Clone, Copy, PartialEq, Eq, Structural, Debug)]
pub struct Liquid {
    pub volume_bits: u32,
    pub dry_threshold_bits: u32,
    pub density: u8,
    pub viscosity: u8,
    pub max_compression_bits: u32,
}

/// How the matter of a cell moves.
#[derive(Clone, Copy, PartialEq, Eq, Structural, Debug)]
pub enum PhysicsType {
    Empty,
    Static,
    Powder,
    Liquid(Liquid),
    Gas,
}

/// The name of a physics type, as shown to the player.
pub open spec fn physics_type_name(t: PhysicsType) -> Seq<char> {
    match t {
        PhysicsType::Empty => "Empty"@,
        PhysicsType::Static => "Static"@,
        PhysicsType::Powder => "Powder"@,
        PhysicsType::Liquid(_) => "Liquid"@,
        PhysicsType::Gas => "Gas"@,
    }
}

impl PhysicsType {
    /// The name of the physics type.
    pub fn to_string(&self) -> (s: String)
        ensures
            s@ == physics_type_name(*self),
    {
        match self {
            PhysicsType::Empty => "Empty".to_owned(),
            PhysicsType::Static => "Static".to_owned(),
            PhysicsType::Powder => "Powder".to_owned(),
            PhysicsType::Liquid(_) => "Liquid".to_owned(),
            PhysicsType::Gas => "Gas".to_owned(),
        }
    }
}

impl Default for PhysicsType {
    fn default() -> (t: PhysicsType)
        ensures
            t == PhysicsType::Empty,
    {
        PhysicsType::Empty
    }
}

/// A material that cells can be made of.
#[derive(Clone, PartialEq, Eq, Debug)]
pub struct Material {
    pub id: String,
    pub matter_type: PhysicsType,
    pub color: [u8; 4],
    pub color_offset: u8,
    pub fire_parameters: Option<FireParameters>,
}

impl Default for Material {
    /// Air: the empty material.
    fn default() -> (m: Material)
        ensures
            m.id@ == "air"@,
            m.matter_type == PhysicsType::Empty,
            m.fire_parameters is None,
            m.color@ == seq![0u8, 0u8, 0u8, 0u8],
            m.color_offset == 0,
    {
        Material {
            id: "air".to_owned(),
            matter_type: PhysicsType::Empty,
            fire_parameters: None,
            color: [0, 0, 0, 0],
            color_offset: 0,
        }
    }
}

/// The materials every game knows before its configuration is read: air, grass (which
/// burns), dirt, stone, and the invisible material of actors.
pub fn builtin_materials() -> (materials: Vec<Material>)
    ensures
        materials.len() == 5,
        materials@[0].id@ == "air"@ && materials@[0].matter_type == PhysicsType::Empty
            && materials@[0].color@ == seq![0u8, 0u8, 0u8, 0u8] && materials@[0].color_offset == 0
            && materials@[0].fire_parameters is None,
        materials@[1].id@ == "grass"@ && materials@[1].matter_type == PhysicsType::Static
            && materials@[1].color@ == seq![0x7du8, 0xaau8, 0x4du8, 0xffu8] && materials@[1].color_offset == 10
            && materials@[1].fire_parameters == Some(
            FireParameters { fire_temperature: 125, ignition_temperature: 75, fire_hp: 25 },
        ),
        materials@[2].id@ == "dirt"@ && materials@[2].matter_type == PhysicsType::Static
            && materials@[2].color@ == seq![0x6du8, 0x5fu8, 0x3du8, 0xffu8] && materials@[2].color_offset == 15
            && materials@[2].fire_parameters is None,
        materials@[3].id@ == "stone"@ && materials@[3].matter_type == PhysicsType::Static
            && materials@[3].color@ == seq![0x71u8, 0x77u8, 0x77u8, 0xffu8] && materials@[3].color_offset == 20
            && materials@[3].fire_parameters is None,
        materials@[4].id@ == "actor"@ && materials@[4].matter_type == PhysicsType::Empty
            && materials@[4].color@ == seq![0xffu8, 0x00u8, 0x00u8, 0x50u8] && materials@[4].color_offset == 0
            && materials@[4].fire_parameters is None,
{
    let mut materials: Vec<Material> = Vec::new();
    materials.push(Material::default());
    let grass_color: [u8; 4] = [0x7d, 0xaa, 0x4d, 0xff];
    materials.push(
        Material {
            id: "grass".to_owned(),
            matter_type: PhysicsType::Static,
            color: grass_color,
            color_offset: 10,
            fire_parameters: Some(FireParameters { fire_temperature: 125, ignition_temperature: 75, fire_hp: 25 }),
        },
    );
    let dirt_color: [u8; 4] = [0x6d, 0x5f, 0x3d, 0xff];
    materials.push(
        Material {
            id: "dirt".to_owned(),
            matter_type: PhysicsType::Static,
            color: dirt_color,
            color_offset: 15,
            fire_parameters: None,
        },
    );
    let stone_color: [u8; 4] = [0x71, 0x77, 0x77, 0xff];
    materials.push(
        Material {
            id: "stone".to_owned(),
            matter_type: PhysicsType::Static,
            color: stone_color,
            color_offset: 20,
            fire_parameters: None,
        },
    );
    let actor_color: [u8; 4] = [0xff, 0x00, 0x00, 0x50];
    materials.push(
        Material {
            id: "actor".to_owned(),
            matter_type: PhysicsType::Empty,
            color: actor_color,
            color_offset: 0,
            fire_parameters: None,
        },
    );
    assert(grass_color@ =~= seq![0x7du8, 0xaau8, 0x4du8, 0xffu8]);
    assert(dirt_color@ =~= seq![0x6du8, 0x5fu8, 0x3du8, 0xffu8]);
    assert(stone_color@ =~= seq![0x71u8, 0x77u8, 0x77u8, 0xffu8]);
    assert(actor_color@ =~= seq![0xffu8, 0x00u8, 0x00u8, 0x50u8]);
    materials
}

/// Matter that powders and gases can move into.
pub open spec fn is_free(t: PhysicsType) -> bool {
    t == PhysicsType::Empty || t == PhysicsType::Gas
}

/// Where a powder cell moves, given the direction `dx` it tries first and whether it
/// takes the chance `slide` to slide sideways: into free space below (sometimes
/// diagonally), else diagonally down into free space on either side, else through a
/// liquid below (sometimes diagonally); `None` when it rests.
pub open spec fn sand_target(api: ChunkApi, dx: int, slide: bool) -> Option<(int, int)> {
    if is_free(api.matter(0, -1)) {
        if slide && is_free(api.matter(dx, -1)) { Some((dx, -1)) } else { Some((0, -1)) }
    } else if is_free(api.matter(dx, -1)) {
        Some((dx, -1))
    } else if is_free(api.matter(-dx, -1)) {
        Some((-dx, -1))
    } else if api.matter(0, -1) is Liquid {
        if slide && (is_free(api.matter(dx, -1)) || api.matter(dx, -1) is Liquid) {
            Some((dx, -1))
        } else {
            Some((0, -1))
        }
    } else {
        None
    }
}

/// Powder falls into empty space and through gas: when the cell below is empty or gas,
/// the powder is exchanged with it or slides diagonally down, and only into a cell that
/// is empty or gas. It rests exactly when none of the three cells below is empty or gas
/// and the cell below is not liquid; through a liquid below it sinks straight down or
/// slides diagonally into a cell that is empty, gas or liquid.
pub proof fn law_powder_falls_through_gas(api: ChunkApi, dx: int, slide: bool)
    requires
        dx == 1 || dx == -1,
    ensures
        ({
            let below = api.matter(0, -1);
            let open = |t: PhysicsType| t == PhysicsType::Empty || t == PhysicsType::Gas;
            let target = sand_target(api, dx, slide);
            &&& open(below) ==> target is Some
            &&& open(below) ==> (target->0 == (0int, -1int) || (target->0 == (dx, -1int) && open(api.matter(dx, -1))))
            &&& target is None <==> (!open(below) && !open(api.matter(1, -1)) && !open(api.matter(-1, -1))
                && !(below is Liquid))
            &&& target matches Some(t) ==> t.1 == -1 && (open(api.matter(t.0, -1)) || api.matter(t.0, -1) is Liquid)
        }),
{
}

/// Where powder goes, given the side `dx` it tries first and whether it takes its chance
/// `slide`: with open space (empty or gas) below, straight down unless it slides and
/// the cell diagonally down on its side is open too; with the cell below taken but not
/// liquid, diagonally down on its side if open, else on the other side if open; on a
/// liquid with both diagonals taken, straight down unless it slides into a diagonal
/// that is open or liquid.
pub proof fn law_powder_target_choice(api: ChunkApi, dx: int, slide: bool)
    requires
        dx == 1 || dx == -1,
    ensures
        ({
            let open = |t: PhysicsType| t == PhysicsType::Empty || t == PhysicsType::Gas;
            let target = sand_target(api, dx, slide);
            let side_open = open(api.matter(dx, -1));
            &&& open(api.matter(0, -1)) && slide && side_open ==> target == Some((dx, -1int))
            &&& open(api.matter(0, -1)) && !(slide && side_open) ==> target == Some((0int, -1int))
            &&& !open(api.matter(0, -1)) && side_open ==> target == Some((dx, -1int))
            &&& !open(api.matter(0, -1)) && !side_open && open(api.matter(-dx, -1)) ==> target == Some((-dx, -1int))
            &&& api.matter(0, -1) is Liquid && !side_open && !open(api.matter(-dx, -1)) ==> target == (if slide
                && api.matter(dx, -1) is Liquid {
                Some((dx, -1int))
            } else {
                Some((0int, -1int))
            })
        }),
{
}

/// Powder never rises: wherever the rule sends a powder cell, it is one row down and
/// at most one column aside.
pub proof fn law_powder_falls(api: ChunkApi, dx: int, slide: bool)
    requires
        dx == 1 || dx == -1,
    ensures
        sand_target(api, dx, slide) matches Some(t) ==> t.1 == -1 && -1 <= t.0 <= 1,
{
}

/// The update rule of a powder cell: it moves as `sand_target` says, for some
/// random choice of direction and chance.
pub fn update_sand(api: &mut ChunkApi)
    requires
        old(api).wf(),
        old(api).names_neighbours(),
        old(api).present(0, 0),
    ensures
        exists|dx: int, slide: bool|
            (dx == 1 || dx == -1) && match #[trigger] sand_target(*old(api), dx, slide) {
                Some(t) => final(api).is_swap_of(*old(api), t.0, t.1),
                None => *final(api) == *old(api),
            },
{
    let ghost start = *api;
    proof {
        crate::chunk::lemma_present_bounds(api.chunk_group, api.cell_position.x as int, api.cell_position.y as int);
    }
    let dx = api.rand_dir();
    let ndx = -dx;

    if matches!(api.get_matter(0, -1), PhysicsType::Empty | PhysicsType::Gas) {
        let slide = api.once_in(5);
        if slide && matches!(api.get_matter(dx, -1), PhysicsType::Empty | PhysicsType::Gas) {
            api.swap(dx, -1);
        } else {
            api.swap(0, -1);
        }
        assert(sand_target(start, dx as int, slide) is Some);
    } else if matches!(api.get_matter(dx, -1), PhysicsType::Empty | PhysicsType::Gas) {
        api.swap(dx, -1);
        assert(sand_target(start, dx as int, false) is Some);
    } else if matches!(api.get_matter(ndx, -1), PhysicsType::Empty | PhysicsType::Gas) {
        api.swap(ndx, -1);
        assert(sand_target(start, dx as int, false) is Some);
    } else if matches!(api.get_matter(0, -1), PhysicsType::Liquid(..)) {
        let slide = api.once_in(30);
        if slide && matches!(api.get_matter(dx, -1), PhysicsType::Empty | PhysicsType::Gas | PhysicsType::Liquid(..)) {
            api.swap(dx, -1);
        } else {
            api.swap(0, -1);
        }
        assert(sand_target(start, dx as int, slide) is Some);
    } else {
        assert(sand_target(start, dx as int, false) is None);
    }
}

/// The physics type at `p` of a pixel map; outside it everything is static.
pub open spec fn matter_in(m: Map<(int, int), Pixel>, p: (int, int)) -> PhysicsType {
    if m.contains_key(p) { m[p].matter_type } else { PhysicsType::Static }
}

pub open spec fn plus(p: (int, int), dx: int, dy: int) -> (int, int) {
    (p.0 + dx, p.1 + dy)
}

/// The pixel map after exchanging the pixels at `p` and `t`.
pub open spec fn swap_in(m: Map<(int, int), Pixel>, p: (int, int), t: (int, int)) -> Map<(int, int), Pixel> {
    m.insert(p, m[t]).insert(t, m[p])
}

/// Whether a liquid cell drops one row: the cell below is free, or holds a liquid less
/// dense than its own.
pub open spec fn liquid_drops(api: ChunkApi) -> bool {
    ||| is_free(api.matter(0, -1))
    ||| (api.matter(0, -1) matches PhysicsType::Liquid(below) && api.matter(0, 0) matches PhysicsType::Liquid(own)
        && own.density > below.density)
}

/// A liquid drops into a cell below that is empty or gas, and sinks through a liquid
/// below only when that liquid is strictly less dense; on a liquid at least as dense,
/// or on a powder or a static cell, it stays.
pub proof fn law_liquid_sinks_only_through_lighter(api: ChunkApi, own: Liquid)
    requires
        api.matter(0, 0) == PhysicsType::Liquid(own),
    ensures
        api.matter(0, -1) == PhysicsType::Empty ==> liquid_drops(api),
        api.matter(0, -1) == PhysicsType::Gas ==> liquid_drops(api),
        api.matter(0, -1) == PhysicsType::Static ==> !liquid_drops(api),
        api.matter(0, -1) == PhysicsType::Powder ==> !liquid_drops(api),
        forall|below: Liquid|
            api.matter(0, -1) == PhysicsType::Liquid(below) ==> (liquid_drops(api) <==> own.density > below.density),
{
}

/// The pixels with the cell given the shade `ra`, if any.
pub open spec fn reshaded(api: ChunkApi, ra: Option<u8>) -> Map<(int, int), Pixel> {
    let m = api.chunk_group.pixels();
    let p = api.at(0, 0);
    match ra {
        Some(r) => m.insert(p, Pixel { ra: r, ..m[p] }),
        None => m,
    }
}

impl<'a> ChunkApi<'a> {
    /// `self` is `old` after its liquid cell, first given the shade `ra` (if any, and
    /// redrawn then), fell into the free cell below it.
    pub open spec fn fell_from(&self, old: ChunkApi<'a>, ra: Option<u8>) -> bool {
        &&& self.wf()
        &&& self.chunk_group.pixels() == swap_in(reshaded(old, ra), old.at(0, 0), old.at(0, -1))
        &&& self.cell_position.x == old.cell_position.x
        &&& self.cell_position.y == old.cell_position.y - 1
        &&& self.chunk_position == old.chunk_position
        &&& self.clock == old.clock
        &&& self.update_send.sender() == old.update_send.sender()
        &&& self.render_send.sender() == old.render_send.sender()
        &&& self.update_log() == old.update_log().push(old.update_message(0, 0)).push(old.update_message(0, -1))
        &&& self.render_log() == (if ra is Some {
            old.render_log().push(old.render_message(0, 0))
        } else {
            old.render_log()
        }).push(old.render_message(0, 0)).push(old.render_message(0, -1))
    }
}

/// The first step of the liquid rule, which decides without the liquid's volume: a
/// liquid cell above free space falls into it, sometimes taking a new shade below 20
/// first; one above a less dense liquid sinks through it. Returns whether the cell
/// moved; when it did not, nothing changed and the rule goes on with volumes.
pub fn update_liquid_fall(api: &mut ChunkApi) -> (moved: bool)
    requires
        old(api).wf(),
        old(api).names_neighbours(),
        old(api).present(0, 0),
        old(api).matter(0, 0) is Liquid,
    ensures
        moved == liquid_drops(*old(api)),
        !moved ==> *final(api) == *old(api),
        moved && is_free(old(api).matter(0, -1)) ==> exists|ra: Option<u8>|
            (ra matches Some(r) ==> r < 20) && #[trigger] final(api).fell_from(*old(api), ra),
        moved && !is_free(old(api).matter(0, -1)) ==> final(api).is_swap_of(*old(api), 0, -1),
{
    let ghost start = *api;
    proof {
        crate::chunk::lemma_present_bounds(api.chunk_group, api.cell_position.x as int, api.cell_position.y as int);
    }
    let mut pixel = api.get(0, 0);
    let own = match pixel.matter_type {
        PhysicsType::Liquid(l) => l,
        _ => {
            assert(false);
            return false;
        },
    };
    match api.get_matter(0, -1) {
        PhysicsType::Empty | PhysicsType::Gas => {
            let ghost mut ra: Option<u8> = None;
            if api.once_in(5) {
                pixel.ra = api.rand_int(20) as u8;
                proof {
                    ra = Some(pixel.ra);
                }
                api.update(pixel.clone());
            }
            assert(api.chunk_group.pixels() == reshaded(start, ra));
            api.swap(0, -1);
            assert(api.fell_from(start, ra));
            true
        },
        PhysicsType::Liquid(below) => {
            if own.density > below.density {
                api.swap(0, -1);
                true
            } else {
                false
            }
        },
        _ => false,
    }
}

/// A gas pixel `pix` at `p` sways a liquid neighbour at offset `(vx, vy)` whose
/// leaning (`ra` parity) differs, by overwriting it with a copy of itself.
pub open spec fn gas_spread(m: Map<(int, int), Pixel>, p: (int, int), vx: int, vy: int, pix: Pixel) -> Map<
    (int, int),
    Pixel,
> {
    let t = plus(p, vx, vy);
    if matter_in(m, t) is Liquid && m[t].ra % 2 != pix.ra % 2 {
        m.insert(t, pix)
    } else {
        m
    }
}

/// Where a gas cell at `p0` drifts sideways first, given the direction `dx` it tries
/// first: towards a side that is free at its level and above.
pub open spec fn gas_drift(m: Map<(int, int), Pixel>, p0: (int, int), dx: int) -> (Map<(int, int), Pixel>, (int, int)) {
    if is_free(matter_in(m, plus(p0, dx, 0))) && is_free(matter_in(m, plus(p0, dx, 1))) {
        (swap_in(m, p0, plus(p0, dx, 0)), plus(p0, dx, 0))
    } else if is_free(matter_in(m, plus(p0, -dx, 0))) && is_free(matter_in(m, plus(p0, -dx, 1))) {
        (swap_in(m, p0, plus(p0, -dx, 0)), plus(p0, -dx, 0))
    } else {
        (m, p0)
    }
}

/// The pixel map and the cell's final position after one update of the gas pixel
/// `pixel` that started at `p0`, given the random choices: the side `dx` it drifts to
/// first, the new leaning `rise_ra` it may take while rising (`None` to keep its own),
/// and the neighbour `(vx, vy)` it may sway.
pub open spec fn gas_outcome(
    m0: Map<(int, int), Pixel>,
    p0: (int, int),
    pixel: Pixel,
    dx: int,
    rise_ra: Option<u8>,
    vx: int,
    vy: int,
) -> (Map<(int, int), Pixel>, (int, int)) {
    let (m1, p1) = gas_drift(m0, p0, dx);
    gas_settle(m1, p1, pixel, rise_ra, vx, vy)
}

/// The pixel map and the cell's final position after the gas pixel `pixel`, having
/// drifted to `p1`, rises, scoots sideways or leans, given the random choices.
pub open spec fn gas_settle(
    m1: Map<(int, int), Pixel>,
    p1: (int, int),
    pixel: Pixel,
    rise_ra: Option<u8>,
    vx: int,
    vy: int,
) -> (Map<(int, int), Pixel>, (int, int)) {
    if is_free(matter_in(m1, plus(p1, 0, 1))) {
        // rise
        let p2 = plus(p1, 0, 1);
        let m2 = swap_in(m1, p1, p2);
        let pix = match rise_ra {
            Some(ra) => Pixel { ra: ra, ..pixel },
            None => pixel,
        };
        (m2.insert(p2, pix), p2)
    } else {
        let d = if pixel.ra % 2 == 0 { 1int } else { -1int };
        let dx0 = matter_in(m1, plus(p1, d, 0));
        let dxd = matter_in(m1, plus(p1, 2 * d, 0));
        if dx0 == PhysicsType::Empty && dxd == PhysicsType::Empty {
            // scoot double
            let pix = Pixel { rb: 6, ..pixel };
            let p2 = plus(p1, 2 * d, 0);
            let m2 = gas_spread(swap_in(m1, p1, p2), p2, vx, vy, pix);
            (m2.insert(p2, pix), p2)
        } else if dx0 == PhysicsType::Empty {
            let pix = Pixel { rb: 3, ..pixel };
            let p2 = plus(p1, d, 0);
            let m2 = gas_spread(swap_in(m1, p1, p2), p2, vx, vy, pix);
            (m2.insert(p2, pix), p2)
        } else if pixel.rb == 0 {
            // bump: lean the other way
            let pix = if matter_in(m1, plus(p1, -d, 0)) == PhysicsType::Empty {
                Pixel { ra: ((pixel.ra as int) + d) as u8, ..pixel }
            } else {
                pixel
            };
            (m1.insert(p1, pix), p1)
        } else {
            // become less certain (more bumpable)
            (m1.insert(p1, Pixel { rb: (pixel.rb - 1) as u8, ..pixel }), p1)
        }
    }
}

/// A gas cell first drifts sideways into a side whose cell and the cell above it are
/// both open (empty or gas), trying the side `dx` first; with neither side open it
/// stays. The drift exchanges it with the cell there.
pub proof fn law_gas_drift(m: Map<(int, int), Pixel>, p0: (int, int), dx: int)
    requires
        dx == 1 || dx == -1,
    ensures
        ({
            let open = |t: PhysicsType| t == PhysicsType::Empty || t == PhysicsType::Gas;
            let first = open(matter_in(m, (p0.0 + dx, p0.1))) && open(matter_in(m, (p0.0 + dx, p0.1 + 1)));
            let second = open(matter_in(m, (p0.0 - dx, p0.1))) && open(matter_in(m, (p0.0 - dx, p0.1 + 1)));
            let (m1, p1) = gas_drift(m, p0, dx);
            &&& first ==> p1 == (p0.0 + dx, p0.1) && m1 == m.insert(p0, m[p1]).insert(p1, m[p0])
            &&& !first && second ==> p1 == (p0.0 - dx, p0.1) && m1 == m.insert(p0, m[p1]).insert(p1, m[p0])
            &&& !first && !second ==> p1 == p0 && m1 == m
        }),
{
}

/// A gas cell with open space (empty or gas) above rises into it, exchanging places,
/// and is written there with its shade, or a new shade `ra` if it took one. Blocked
/// above, with two empty cells on its leaning side (right for an even `ra`, left for
/// an odd one) it scoots two cells that way and is set in its way for 6 updates; with
/// only the first empty, one cell, set for 3.
pub proof fn law_gas_rises_or_scoots(
    m1: Map<(int, int), Pixel>,
    p1: (int, int),
    pixel: Pixel,
    rise_ra: Option<u8>,
    vx: int,
    vy: int,
)
    ensures
        ({
            let above = matter_in(m1, (p1.0, p1.1 + 1));
            let open_above = above == PhysicsType::Empty || above == PhysicsType::Gas;
            let out = gas_settle(m1, p1, pixel, rise_ra, vx, vy);
            let s: int = if pixel.ra % 2 == 0 { 1 } else { -1 };
            let near_empty = matter_in(m1, (p1.0 + s, p1.1)) == PhysicsType::Empty;
            let far_empty = matter_in(m1, (p1.0 + 2 * s, p1.1)) == PhysicsType::Empty;
            &&& open_above ==> out.1 == (p1.0, p1.1 + 1) && out.0[out.1] == (match rise_ra {
                Some(ra) => Pixel { ra: ra, ..pixel },
                None => pixel,
            }) && out.0[p1] == m1[(p1.0, p1.1 + 1)]
            &&& !open_above && near_empty && far_empty ==> out.1 == (p1.0 + 2 * s, p1.1) && out.0[out.1] == Pixel {
                rb: 6,
                ..pixel
            }
            &&& !open_above && near_empty && !far_empty ==> out.1 == (p1.0 + s, p1.1) && out.0[out.1] == Pixel {
                rb: 3,
                ..pixel
            }
        }),
{
}

/// A gas cell that cannot rise stays put when the cell on its leaning side (right for
/// an even `ra`, left for an odd one) is taken. If it is not set in its way (`rb == 0`)
/// and the other side is empty, it turns around: its shade moves by one to the other
/// parity; if the other side is taken too, it is written back unchanged. If it is set
/// in its way (`rb > 0`), it only becomes one step less so.
pub proof fn law_gas_turns_toward_free_side(
    m1: Map<(int, int), Pixel>,
    p1: (int, int),
    pixel: Pixel,
    rise_ra: Option<u8>,
    vx: int,
    vy: int,
)
    requires
        matter_in(m1, plus(p1, 0, 1)) != PhysicsType::Empty,
        matter_in(m1, plus(p1, 0, 1)) != PhysicsType::Gas,
    ensures
        ({
            let out = gas_settle(m1, p1, pixel, rise_ra, vx, vy);
            let even = pixel.ra % 2 == 0;
            let right_taken = matter_in(m1, plus(p1, 1, 0)) != PhysicsType::Empty;
            let left_taken = matter_in(m1, plus(p1, -1, 0)) != PhysicsType::Empty;
            &&& even && right_taken && pixel.rb == 0 && !left_taken ==> out == (
                m1.insert(p1, Pixel { ra: (pixel.ra + 1) as u8, ..pixel }),
                p1,
            )
            &&& !even && left_taken && pixel.rb == 0 && !right_taken ==> out == (
                m1.insert(p1, Pixel { ra: (pixel.ra - 1) as u8, ..pixel }),
                p1,
            )
            &&& right_taken && left_taken && pixel.rb == 0 ==> out == (m1.insert(p1, pixel), p1)
            &&& ((even && right_taken) || (!even && left_taken)) && pixel.rb > 0 ==> out == (
                m1.insert(p1, Pixel { rb: (pixel.rb - 1) as u8, ..pixel }),
                p1,
            )
        }),
{
}

/// Gas never sinks: after its update a gas cell is at its starting row or above it,
/// and at most three columns aside (one drifting, two scooting).
pub proof fn law_gas_never_sinks(
    m0: Map<(int, int), Pixel>,
    p0: (int, int),
    pixel: Pixel,
    dx: int,
    rise_ra: Option<u8>,
    vx: int,
    vy: int,
)
    requires
        dx == 1 || dx == -1,
    ensures
        ({
            let end = gas_outcome(m0, p0, pixel, dx, rise_ra, vx, vy).1;
            &&& p0.1 <= end.1 <= p0.1 + 1
            &&& -3 <= end.0 - p0.0 <= 3
        }),
{
}

/// The simulate-next messages of moving a cell of a group whose center chunk is at
/// `chunk_position` from `a` to `b` by an exchange: both places, or none when it stayed.
pub open spec fn move_updates(chunk_position: IVec2, a: (int, int), b: (int, int)) -> Seq<UpdateMessage> {
    if a == b {
        seq![]
    } else {
        seq![update_message_at(chunk_position, a), update_message_at(chunk_position, b)]
    }
}

/// The redraw messages of moving a cell from `a` to `b` by an exchange: both places, or
/// none when it stayed.
pub open spec fn move_renders(chunk_position: IVec2, a: (int, int), b: (int, int)) -> Seq<RenderMessage> {
    if a == b {
        seq![]
    } else {
        seq![render_message_at(chunk_position, a), render_message_at(chunk_position, b)]
    }
}

/// `fin` is `old` after the gas cell, holding `pixel`'s kind of gas, rose, scooted
/// sideways or leaned as `gas_settle` says for the random choices `choices`, asking for
/// every place it left or reached to be simulated and redrawn, and for its last place
/// to be redrawn once more.
pub open spec fn gas_settled<'a>(fin: ChunkApi<'a>, old: ChunkApi<'a>, pixel: Pixel, choices: (Option<u8>, int, int)) -> bool {
    let (rise_ra, vx, vy) = choices;
    &&& fin.wf()
    &&& fin.chunk_position == old.chunk_position
    &&& fin.clock == old.clock
    &&& fin.update_send.sender() == old.update_send.sender()
    &&& fin.render_send.sender() == old.render_send.sender()
    &&& rise_ra matches Some(ra) ==> ra < 20
    &&& -1 <= vx <= 1 && -1 <= vy <= 1 && !(vx == 0 && vy == 0)
    &&& gas_settle(old.chunk_group.pixels(), old.at(0, 0), pixel, rise_ra, vx, vy) == (fin.chunk_group.pixels(), fin.at(0, 0))
    &&& fin.update_log() == old.update_log() + move_updates(old.chunk_position, old.at(0, 0), fin.at(0, 0))
    &&& fin.render_log() == (old.render_log() + move_renders(old.chunk_position, old.at(0, 0), fin.at(0, 0))).push(
        render_message_at(old.chunk_position, fin.at(0, 0)),
    )
}

/// The gas cell rises into the free cell above, sometimes taking a new shade below 20.
#[verifier::spinoff_prover]
fn gas_rise(api: &mut ChunkApi, pixel: Pixel) -> (choices: Ghost<(Option<u8>, int, int)>)
    requires
        old(api).wf(),
        old(api).names_neighbours(),
        old(api).present(0, 0),
        is_free(old(api).matter(0, 1)),
    ensures
        gas_settled(*final(api), *old(api), pixel, choices@),
{
    let ghost start = *api;
    let mut pixel = pixel;
    let ghost pixel0 = pixel;
    api.swap(0, 1);
    let ghost mut rise_ra: Option<u8> = None;
    if api.once_in(20) {
        // randomize direction when rising sometimes
        pixel.ra = api.rand_int(20) as u8;
        proof { rise_ra = Some(pixel.ra); }
    }
    api.update(pixel);
    assert(api.update_log() =~= start.update_log() + move_updates(start.chunk_position, start.at(0, 0), api.at(0, 0)));
    assert(api.render_log() =~= (start.render_log() + move_renders(start.chunk_position, start.at(0, 0), api.at(0, 0))).push(
        render_message_at(start.chunk_position, api.at(0, 0)),
    ));
    assert(gas_settle(start.chunk_group.pixels(), start.at(0, 0), pixel0, rise_ra, 1, 1) == (api.chunk_group.pixels(), api.at(0, 0)));
    Ghost((rise_ra, 1, 1))
}

/// The gas cell, blocked above, scoots `d` or `2 * d` cells sideways (marked less
/// bumpable), and may sway a liquid neighbour.
#[verifier::spinoff_prover]
fn gas_scoot(api: &mut ChunkApi, pixel: Pixel, d: i32, far: bool) -> (choices: Ghost<(Option<u8>, int, int)>)
    requires
        old(api).wf(),
        old(api).names_neighbours(),
        old(api).present(0, 0),
        !is_free(old(api).matter(0, 1)),
        d == (if pixel.ra % 2 == 0 { 1int } else { -1int }),
        old(api).matter(d as int, 0) == PhysicsType::Empty,
        far == (old(api).matter(2 * d, 0) == PhysicsType::Empty),
    ensures
        gas_settled(*final(api), *old(api), pixel, choices@),
{
    let ghost start = *api;
    let mut pixel = pixel;
    let ghost pixel0 = pixel;
    let step: i32 = if far { 2 * d } else { d };
    pixel.rb = if far { 6 } else { 3 };
    api.swap(step, 0);
    proof {
        crate::chunk::lemma_present_bounds(api.chunk_group, api.cell_position.x as int, api.cell_position.y as int);
    }
    let (vx, vy) = api.rand_vec_8();
    let nbr = api.get(vx, vy);

    // spread opinion
    if matches!(nbr.matter_type, PhysicsType::Liquid(..)) && nbr.ra % 2 != pixel.ra % 2 {
        api.set(vx, vy, Pixel { ra: pixel.ra, ..pixel.clone() });
    }
    api.update(pixel);
    assert(api.update_log() =~= start.update_log() + move_updates(start.chunk_position, start.at(0, 0), api.at(0, 0)));
    assert(api.render_log() =~= (start.render_log() + move_renders(start.chunk_position, start.at(0, 0), api.at(0, 0))).push(
        render_message_at(start.chunk_position, api.at(0, 0)),
    ));
    assert(gas_settle(start.chunk_group.pixels(), start.at(0, 0), pixel0, None, vx as int, vy as int) == (
        api.chunk_group.pixels(),
        api.at(0, 0),
    ));
    Ghost((None, vx as int, vy as int))
}

/// The gas cell, blocked above and on its leaning side, leans the other way when that
/// side is empty and it is not set in its way, or becomes more bumpable.
#[verifier::spinoff_prover]
fn gas_lean(api: &mut ChunkApi, pixel: Pixel, d: i32) -> (choices: Ghost<(Option<u8>, int, int)>)
    requires
        old(api).wf(),
        old(api).names_neighbours(),
        old(api).present(0, 0),
        !is_free(old(api).matter(0, 1)),
        d == (if pixel.ra % 2 == 0 { 1int } else { -1int }),
        old(api).matter(d as int, 0) != PhysicsType::Empty,
    ensures
        gas_settled(*final(api), *old(api), pixel, choices@),
{
    let ghost start = *api;
    let mut pixel = pixel;
    let ghost pixel0 = pixel;
    proof {
        crate::chunk::lemma_present_bounds(api.chunk_group, api.cell_position.x as int, api.cell_position.y as int);
    }
    if pixel.rb == 0 {
        let back = api.get(-d, 0);
        if back.matter_type == PhysicsType::Empty {
            // bump
            pixel.ra = ((pixel.ra as i32) + d) as u8;
        }
    } else {
        // become less certain (more bumpable)
        pixel.rb -= 1;
    }
    api.update(pixel);
    assert(api.update_log() =~= start.update_log() + move_updates(start.chunk_position, start.at(0, 0), api.at(0, 0)));
    assert(api.render_log() =~= (start.render_log() + move_renders(start.chunk_position, start.at(0, 0), api.at(0, 0))).push(
        render_message_at(start.chunk_position, api.at(0, 0)),
    ));
    assert(gas_settle(start.chunk_group.pixels(), start.at(0, 0), pixel0, None, 1, 1) == (api.chunk_group.pixels(), api.at(0, 0)));
    Ghost((None, 1, 1))
}

/// The part of the gas rule after drifting: the cell rises, scoots sideways or leans.
fn update_gas_settle(api: &mut ChunkApi, pixel: Pixel) -> (choices: Ghost<(Option<u8>, int, int)>)
    requires
        old(api).wf(),
        old(api).names_neighbours(),
        old(api).present(0, 0),
    ensures
        gas_settled(*final(api), *old(api), pixel, choices@),
{
    proof {
        crate::chunk::lemma_present_bounds(api.chunk_group, api.cell_position.x as int, api.cell_position.y as int);
    }
    if matches!(api.get(0, 1).matter_type, PhysicsType::Empty | PhysicsType::Gas) {
        return gas_rise(api, pixel);
    }
    let d: i32 = if pixel.ra % 2 == 0 { 1 } else { -1 };
    let dx0 = api.get(d, 0);
    let dxd = api.get(2 * d, 0);
    if dx0.matter_type == PhysicsType::Empty {
        gas_scoot(api, pixel, d, dxd.matter_type == PhysicsType::Empty)
    } else {
        gas_lean(api, pixel, d)
    }
}

/// The update rule of a gas cell: it moves as `gas_outcome` says, for some random
/// choice of direction, leaning and neighbour, asking for every place it leaves or
/// reaches to be simulated and redrawn, and for its last place to be redrawn once more.
#[verifier::rlimit(100)]
#[verifier::spinoff_prover]
pub fn update_gas(api: &mut ChunkApi)
    requires
        old(api).wf(),
        old(api).names_neighbours(),
        old(api).present(0, 0),
    ensures
        final(api).wf(),
        final(api).chunk_position == old(api).chunk_position,
        final(api).clock == old(api).clock,
        final(api).update_send.sender() == old(api).update_send.sender(),
        final(api).render_send.sender() == old(api).render_send.sender(),
        exists|dx: int, rise_ra: Option<u8>, vx: int, vy: int|
            (dx == 1 || dx == -1) && (rise_ra matches Some(ra) ==> ra < 20) && -1 <= vx <= 1 && -1 <= vy <= 1
                && !(vx == 0 && vy == 0) && #[trigger] gas_outcome(
                old(api).chunk_group.pixels(),
                old(api).at(0, 0),
                old(api).chunk_group.pixels()[old(api).at(0, 0)],
                dx,
                rise_ra,
                vx,
                vy,
            ) == (final(api).chunk_group.pixels(), final(api).at(0, 0)) && final(api).update_log() == old(
                api,
            ).update_log() + move_updates(old(api).chunk_position, old(api).at(0, 0), gas_drift(
                old(api).chunk_group.pixels(),
                old(api).at(0, 0),
                dx,
            ).1) + move_updates(
                old(api).chunk_position,
                gas_drift(old(api).chunk_group.pixels(), old(api).at(0, 0), dx).1,
                final(api).at(0, 0),
            ) && final(api).render_log() == (old(api).render_log() + move_renders(
                old(api).chunk_position,
                old(api).at(0, 0),
                gas_drift(old(api).chunk_group.pixels(), old(api).at(0, 0), dx).1,
            ) + move_renders(
                old(api).chunk_position,
                gas_drift(old(api).chunk_group.pixels(), old(api).at(0, 0), dx).1,
                final(api).at(0, 0),
            )).push(render_message_at(old(api).chunk_position, final(api).at(0, 0))),
{
    let ghost start = *api;
    let ghost m0 = api.chunk_group.pixels();
    let ghost p0 = api.at(0, 0);
    let ghost cp = api.chunk_position;
    proof {
        crate::chunk::lemma_present_bounds(api.chunk_group, api.cell_position.x as int, api.cell_position.y as int);
    }
    let pixel = api.get(0, 0);
    let dx = api.rand_dir();
    let ndx = -dx;
    let ghost first_dx = dx as int;

    if matches!(api.get(dx, 0).matter_type, PhysicsType::Empty | PhysicsType::Gas)
        && matches!(api.get(dx, 1).matter_type, PhysicsType::Empty | PhysicsType::Gas) {
        api.swap(dx, 0);
    } else if matches!(api.get(ndx, 0).matter_type, PhysicsType::Empty | PhysicsType::Gas)
        && matches!(api.get(ndx, 1).matter_type, PhysicsType::Empty | PhysicsType::Gas) {
        api.swap(ndx, 0);
    }
    let ghost m1 = api.chunk_group.pixels();
    let ghost p1 = api.at(0, 0);
    assert(gas_drift(m0, p0, first_dx) == (m1, p1));
    let ghost u1 = api.update_log();
    let ghost r1 = api.render_log();
    assert(u1 =~= start.update_log() + move_updates(cp, p0, p1));
    assert(r1 =~= start.render_log() + move_renders(cp, p0, p1));
    assert(m1.contains_key(p1));

    let choices = update_gas_settle(api, pixel);
    proof {
        let (rise_ra, vx, vy) = choices@;
        assert(gas_outcome(m0, p0, m0[p0], first_dx, rise_ra, vx, vy) == (api.chunk_group.pixels(), api.at(0, 0)));
        assert(api.update_log() =~= start.update_log() + move_updates(cp, p0, p1) + move_updates(cp, p1, api.at(0, 0)));
        assert(api.render_log() =~= (start.render_log() + move_renders(cp, p0, p1) + move_renders(cp, p1, api.at(0, 0))).push(
            render_message_at(cp, api.at(0, 0)),
        ));
    }
}

} // verus!
