use vstd::prelude::*;

use crate::materials::{FireParameters, Material, PhysicsType};
use crate::random::{fastrand_u8, thread_rng_u8_up_to};

verus! {

/// How a pixel is being simulated. The displacement of a displaced pixel is kept as
/// the bit patterns of two `f32` values.
#[derive(Clone, Copy, PartialEq, Eq, Structural, Debug)]
pub enum SimulationType {
    Ca,
    RigidBody(usize, usize),
    Displaced(u32, u32),
}

/// One cell of a chunk.
#[derive(Debug)]
pub struct Pixel {
    pub material_id: String,
    pub color: [u8; 4],
    pub matter_type: PhysicsType,
    pub ra: u8,
    pub rb: u8,
    pub updated_at: u8,
    pub simulation: SimulationType,
    pub temperature: u16,
    pub fire_parameters: Option<FireParameters>,
    pub on_fire: bool,
    pub conductive: bool,
}

impl Clone for Pixel {
    fn clone(&self) -> (p: Pixel)
        ensures
            p == *self,
    {
        Pixel {
            material_id: self.material_id.clone(),
            color: self.color,
            matter_type: self.matter_type,
            ra: self.ra,
            rb: self.rb,
            updated_at: self.updated_at,
            simulation: self.simulation,
            temperature: self.temperature,
            fire_parameters: self.fire_parameters,
            on_fire: self.on_fire,
            conductive: self.conductive,
        }
    }
}

/// A pixel of air: nothing there.
pub open spec fn is_air(p: Pixel) -> bool {
    &&& p.material_id@ == "air"@
    &&& p.color@ == seq![0u8, 0u8, 0u8, 0u8]
    &&& p.matter_type == PhysicsType::Empty
    &&& p.ra == 0
    &&& p.rb == 0
    &&& p.updated_at == 0
    &&& p.simulation == SimulationType::Ca
    &&& p.temperature == 30
    &&& p.fire_parameters is None
    &&& !p.on_fire
    &&& !p.conductive
}

/// The pixel that stands for everything outside the loaded chunks: a static wall.
pub open spec fn is_wall(p: Pixel) -> bool {
    &&& p.material_id@ == "wall"@
    &&& p.color@ == seq![0u8, 0u8, 0u8, 0u8]
    &&& p.matter_type == PhysicsType::Static
    &&& p.ra == 0
    &&& p.rb == 0
    &&& p.updated_at == 0
    &&& p.simulation == SimulationType::Ca
    &&& p.temperature == 30
    &&& p.fire_parameters is None
    &&& !p.on_fire
    &&& !p.conductive
}

impl Default for Pixel {
    fn default() -> (p: Pixel)
        ensures
            is_air(p),
    {
        Pixel {
            material_id: "air".to_owned(),
            color: [0, 0, 0, 0],
            matter_type: PhysicsType::Empty,
            ra: 0,
            rb: 0,
            updated_at: 0,
            simulation: SimulationType::Ca,
            temperature: 30,
            fire_parameters: None,
            on_fire: false,
            conductive: false,
        }
    }
}

/// The pixel that stands for everything outside the loaded chunks.
pub fn wall() -> (p: Pixel)
    ensures
        is_wall(p),
{
    Pixel {
        material_id: "wall".to_owned(),
        color: [0, 0, 0, 0],
        matter_type: PhysicsType::Static,
        ra: 0,
        rb: 0,
        updated_at: 0,
        simulation: SimulationType::Ca,
        temperature: 30,
        fire_parameters: None,
        on_fire: false,
        conductive: false,
    }
}

/// `min(a + b, 255)`.
pub open spec fn sat_add(a: u8, b: int) -> int {
    if a + b > 255 { 255 } else { a + b }
}

/// Each channel of `c` is the channel of `color` raised by less than `spread`, capped at 255.
pub open spec fn shaded_within(c: Seq<u8>, color: [u8; 4], spread: int) -> bool {
    forall|k: int| 0 <= k < 4 ==> exists|r: int| 0 <= r < spread && #[trigger] c[k] == sat_add(color@[k], r)
}

/// `c` is a color `p` may be drawn with: nothing for empty space, the material color
/// lightened by the pixel's shade `ra` for solids and powders, and lightened by a random
/// amount per channel for liquids (below 10) and gases (below 50).
pub open spec fn is_color_of(p: Pixel, c: Seq<u8>) -> bool {
    &&& c.len() == 4
    &&& match p.matter_type {
        PhysicsType::Empty => c == seq![0u8, 0u8, 0u8, 0u8],
        PhysicsType::Static | PhysicsType::Powder => forall|k: int|
            0 <= k < 4 ==> #[trigger] c[k] == sat_add(p.color@[k], p.ra as int),
        PhysicsType::Liquid(_) => shaded_within(c, p.color, 10),
        PhysicsType::Gas => shaded_within(c, p.color, 50),
    }
}

impl Pixel {
    /// The fields a fresh pixel of `material` takes: everything else is as in air.
    pub open spec fn is_fresh(self, material: Material, updated_at: u8) -> bool {
        &&& self.material_id == material.id
        &&& self.color == material.color
        &&& self.matter_type == material.matter_type
        &&& self.fire_parameters == material.fire_parameters
        &&& self.temperature == 30
        &&& self.ra <= material.color_offset
        &&& self.rb == 0
        &&& self.updated_at == updated_at
        &&& self.simulation == SimulationType::Ca
        &&& !self.on_fire
        &&& !self.conductive
    }

    /// A fresh pixel of `material` with a random shade `ra` in `[0, color_offset]`.
    pub fn new(material: &Material, updated_at: u8) -> (p: Pixel)
        ensures
            p.is_fresh(*material, updated_at),
    {
        Pixel {
            material_id: material.id.clone(),
            color: material.color,
            matter_type: material.matter_type,
            fire_parameters: material.fire_parameters,
            temperature: 30,
            ra: thread_rng_u8_up_to(material.color_offset),
            updated_at,
            rb: 0,
            simulation: SimulationType::Ca,
            on_fire: false,
            conductive: false,
        }
    }

    /// A fresh pixel of `material` whose `rb` is set to `rb`.
    pub fn new_with_rb(material: &Material, clock: u8, rb: u8) -> (p: Pixel)
        ensures
            (Pixel { rb: 0, ..p }).is_fresh(*material, clock),
            p.rb == rb,
    {
        let mut pixel = Self::new(material, clock);
        pixel.rb = rb;
        pixel
    }

    /// Whether nothing is there.
    pub fn is_empty(&self) -> (b: bool)
        ensures
            b == (self.matter_type == PhysicsType::Empty),
    {
        self.matter_type == PhysicsType::Empty
    }

    /// The color to draw the pixel with: nothing for empty space, the material color
    /// lightened by the pixel's shade `ra` for solids and powders, and lightened by a
    /// fresh random amount per channel for liquids (below 10) and gases (below 50).
    pub fn get_color(&self) -> (c: [u8; 4])
        ensures
            is_color_of(*self, c@),
    {
        match self.matter_type {
            PhysicsType::Empty => [0, 0, 0, 0],
            PhysicsType::Static | PhysicsType::Powder => [
                self.color[0].saturating_add(self.ra),
                self.color[1].saturating_add(self.ra),
                self.color[2].saturating_add(self.ra),
                self.color[3].saturating_add(self.ra),
            ],
            PhysicsType::Liquid(_) => {
                let r0 = fastrand_u8(10);
                let r1 = fastrand_u8(10);
                let r2 = fastrand_u8(10);
                let r3 = fastrand_u8(10);
                let c = [
                    self.color[0].saturating_add(r0),
                    self.color[1].saturating_add(r1),
                    self.color[2].saturating_add(r2),
                    self.color[3].saturating_add(r3),
                ];
                assert(c@[0] == sat_add(self.color@[0], r0 as int));
                assert(c@[1] == sat_add(self.color@[1], r1 as int));
                assert(c@[2] == sat_add(self.color@[2], r2 as int));
                assert(c@[3] == sat_add(self.color@[3], r3 as int));
                c
            },
            PhysicsType::Gas => {
                let r0 = fastrand_u8(50);
                let r1 = fastrand_u8(50);
                let r2 = fastrand_u8(50);
                let r3 = fastrand_u8(50);
                let c = [
                    self.color[0].saturating_add(r0),
                    self.color[1].saturating_add(r1),
                    self.color[2].saturating_add(r2),
                    self.color[3].saturating_add(r3),
                ];
                assert(c@[0] == sat_add(self.color@[0], r0 as int));
                assert(c@[1] == sat_add(self.color@[1], r1 as int));
                assert(c@[2] == sat_add(self.color@[2], r2 as int));
                assert(c@[3] == sat_add(self.color@[3], r3 as int));
                c
            },
        }
    }
}

} // verus!
