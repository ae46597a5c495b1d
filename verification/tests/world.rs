use sandforge::cell::{wall_cell, Cell, CellAction};
use sandforge::elements::{update_liquid, update_sand, Element};
use sandforge::world::{PixelToChunkApi, World};
use sandforge::{bench_fill, bench_number_of_updated};

fn counts(world: &World) -> [usize; 5] {
    let mut c = [0usize; 5];
    for y in 0..world.height() as i32 {
        for x in 0..world.width() as i32 {
            let cell = world.get_cell_by_pixel(x, y).unwrap();
            let k = match cell.element {
                Element::Empty => 0,
                Element::Stone => 1,
                Element::Water => 2,
                Element::Sand => 3,
                Element::GlowingSand => 4,
            };
            c[k] += 1;
        }
    }
    c
}

fn element_at(world: &World, x: i32, y: i32) -> Element {
    world.get_cell_by_pixel(x, y).unwrap().element
}

#[test]
fn element_default_is_empty() {
    assert_eq!(Element::default(), Element::Empty);
}

#[test]
fn cell_defaults_and_wall() {
    let c = Cell::default();
    assert_eq!(c.element, Element::Empty);
    assert!(!c.active);
    assert!(!c.iter_bit);
    let w = wall_cell();
    assert_eq!(w.element, Element::Stone);
    assert!(w.active);
}

#[test]
fn cell_new_shades_sand_only() {
    let mut shades = std::collections::HashSet::new();
    for _ in 0..200 {
        let s = Cell::new(Element::Sand);
        shades.insert(s.ra);
        assert_eq!(s.element, Element::Sand);
        assert!(s.ra < 25);
        assert!(s.active);
        assert!(!s.iter_bit);
        assert_eq!(s.rb, 0);
    }
    assert!(shades.len() > 1);
    let w = Cell::new(Element::Water);
    assert_eq!(w.ra, 0);
    assert!(w.active);
}

#[test]
fn new_world_is_empty() {
    let world = World::new(4, 3);
    assert_eq!(world.width(), 4);
    assert_eq!(world.height(), 3);
    assert_eq!(counts(&world), [12, 0, 0, 0, 0]);
    assert!(world.get_cell_by_pixel(4, 0).is_none());
    assert!(world.get_cell_by_pixel(0, -1).is_none());
}

#[test]
fn set_then_get_cell() {
    let mut world = World::new(4, 3);
    world.set_cell_by_pixel(2, 1, &Element::Stone);
    assert_eq!(element_at(&world, 2, 1), Element::Stone);
    assert!(world.get_cell_by_pixel(2, 1).unwrap().active);
    world.set_cell_by_pixel(9, 9, &Element::Stone);
    assert_eq!(counts(&world), [11, 1, 0, 0, 0]);
}

#[test]
fn sand_falls_one_row_per_pass() {
    let mut world = World::new(1, 3);
    world.set_cell_by_pixel(0, 0, &Element::Sand);
    world.forced_update();
    assert_eq!(element_at(&world, 0, 1), Element::Sand);
    assert_eq!(element_at(&world, 0, 0), Element::Empty);
    world.forced_update();
    assert_eq!(element_at(&world, 0, 2), Element::Sand);
    world.forced_update();
    assert_eq!(element_at(&world, 0, 2), Element::Sand);
    assert_eq!(counts(&world), [2, 0, 0, 1, 0]);
}

#[test]
fn stone_stays_put() {
    let mut world = World::new(3, 3);
    world.set_cell_by_pixel(1, 0, &Element::Stone);
    bench_number_of_updated(&mut world, 5);
    assert_eq!(element_at(&world, 1, 0), Element::Stone);
}

#[test]
fn sand_sinks_through_water() {
    let mut world = World::new(1, 2);
    world.set_cell_by_pixel(0, 0, &Element::Sand);
    world.set_cell_by_pixel(0, 1, &Element::Water);
    world.forced_update();
    assert_eq!(element_at(&world, 0, 1), Element::Sand);
    assert_eq!(element_at(&world, 0, 0), Element::Water);
}

#[test]
fn water_falls_in_a_shaft() {
    let mut world = World::new(1, 4);
    world.set_cell_by_pixel(0, 0, &Element::Water);
    bench_number_of_updated(&mut world, 3);
    assert_eq!(element_at(&world, 0, 3), Element::Water);
    assert_eq!(counts(&world), [3, 0, 1, 0, 0]);
}

#[test]
fn passes_conserve_elements() {
    let mut world = World::new(16, 12);
    let kinds = [Element::Empty, Element::Stone, Element::Water, Element::Sand, Element::GlowingSand];
    for y in 0..12 {
        for x in 0..16 {
            let k = ((x * 7 + y * 13) % 5) as usize;
            world.set_cell_by_pixel(x, y, &kinds[k]);
        }
    }
    let before = counts(&world);
    bench_number_of_updated(&mut world, 25);
    assert_eq!(counts(&world), before);
    assert_eq!(world.width(), 16);
    assert_eq!(world.height(), 12);
}

#[test]
fn bench_fill_leaves_world_alone() {
    let mut world = World::new(5, 5);
    world.set_cell_by_pixel(1, 1, &Element::Sand);
    bench_fill(&mut world);
    assert_eq!(element_at(&world, 1, 1), Element::Sand);
    assert_eq!(counts(&world), [24, 0, 0, 1, 0]);
}

#[test]
fn sand_rule_falls_when_below_is_empty() {
    let mut world = World::new(3, 3);
    world.set_cell_by_pixel(1, 1, &Element::Sand);
    let cell = world.get_cell_by_pixel(1, 1).unwrap();
    let actions = update_sand(cell, PixelToChunkApi { world: &world, x: 1, y: 1 });
    assert_eq!(actions, vec![CellAction::Swap(0, 1), CellAction::Update(cell)]);
}

#[test]
fn sand_rule_slides_sideways() {
    let mut world = World::new(3, 3);
    world.set_cell_by_pixel(1, 1, &Element::Sand);
    world.set_cell_by_pixel(1, 2, &Element::Stone);
    let cell = world.get_cell_by_pixel(1, 1).unwrap();
    let actions = update_sand(cell, PixelToChunkApi { world: &world, x: 1, y: 1 });
    assert_eq!(actions.len(), 2);
    assert!(actions[0] == CellAction::Swap(1, 0) || actions[0] == CellAction::Swap(-1, 0));
    assert_eq!(actions[1], CellAction::Update(cell));
}

#[test]
fn sand_rule_rests_when_blocked() {
    let mut world = World::new(3, 3);
    world.set_cell_by_pixel(1, 1, &Element::Sand);
    world.set_cell_by_pixel(1, 2, &Element::Stone);
    world.set_cell_by_pixel(0, 1, &Element::Stone);
    world.set_cell_by_pixel(2, 1, &Element::Stone);
    let cell = world.get_cell_by_pixel(1, 1).unwrap();
    let actions = update_sand(cell, PixelToChunkApi { world: &world, x: 1, y: 1 });
    assert_eq!(actions, vec![CellAction::Update(cell)]);
}

#[test]
fn liquid_rule_falls() {
    let mut world = World::new(3, 3);
    world.set_cell_by_pixel(1, 1, &Element::Water);
    let cell = world.get_cell_by_pixel(1, 1).unwrap();
    let actions = update_liquid(cell, PixelToChunkApi { world: &world, x: 1, y: 1 });
    assert_eq!(actions.len(), 2);
    assert_eq!(actions[0], CellAction::Swap(0, 1));
    match actions[1] {
        CellAction::Update(c) => {
            assert_eq!(c.element, Element::Water);
            assert!(c.ra == cell.ra || (100..150).contains(&c.ra));
        },
        other => panic!("unexpected action {:?}", other),
    }
}

#[test]
fn liquid_rule_falls_diagonally() {
    let mut world = World::new(3, 3);
    world.set_cell_by_pixel(1, 1, &Element::Water);
    world.set_cell_by_pixel(1, 2, &Element::Stone);
    world.set_cell_by_pixel(0, 2, &Element::Stone);
    let cell = world.get_cell_by_pixel(1, 1).unwrap();
    let actions = update_liquid(cell, PixelToChunkApi { world: &world, x: 1, y: 1 });
    assert_eq!(actions, vec![CellAction::Swap(1, 1), CellAction::Update(cell)]);
}

#[test]
fn liquid_rule_scoots_two_cells() {
    let mut world = World::new(5, 2);
    world.set_cell_by_pixel(0, 1, &Element::Stone);
    world.set_cell_by_pixel(1, 1, &Element::Stone);
    world.set_cell_by_pixel(2, 1, &Element::Stone);
    world.set_cell_by_pixel(3, 1, &Element::Stone);
    world.set_cell_by_pixel(4, 1, &Element::Stone);
    world.set_cell_by_pixel(2, 0, &Element::Water);
    // ra is even: the cell leans right.
    let cell = world.get_cell_by_pixel(2, 0).unwrap();
    assert_eq!(cell.ra % 2, 0);
    let actions = update_liquid(cell, PixelToChunkApi { world: &world, x: 2, y: 0 });
    assert_eq!(actions, vec![CellAction::Swap(2, 0)]);
}

#[test]
fn liquid_rule_steps_one_cell() {
    let mut world = World::new(4, 2);
    for x in 0..4 {
        world.set_cell_by_pixel(x, 1, &Element::Stone);
    }
    world.set_cell_by_pixel(1, 0, &Element::Water);
    world.set_cell_by_pixel(3, 0, &Element::Stone);
    let cell = world.get_cell_by_pixel(1, 0).unwrap();
    let actions = update_liquid(cell, PixelToChunkApi { world: &world, x: 1, y: 0 });
    assert_eq!(actions[0], CellAction::SetCell(1, 0, Cell { rb: 3, ..cell }));
    assert_eq!(actions[1], CellAction::Update(Cell::default()));
    assert_eq!(actions.len(), 2);
}

#[test]
fn liquid_rule_loses_certainty() {
    let mut world = World::new(3, 2);
    for x in 0..3 {
        world.set_cell_by_pixel(x, 1, &Element::Stone);
    }
    world.set_cell_by_pixel(0, 0, &Element::Stone);
    world.set_cell_by_pixel(2, 0, &Element::Stone);
    let cell = Cell { rb: 2, ..Cell::new(Element::Water) };
    let actions = update_liquid(cell, PixelToChunkApi { world: &world, x: 1, y: 0 });
    assert_eq!(actions, vec![CellAction::Update(Cell { rb: 1, ..cell })]);
    let calm = Cell { rb: 0, ..cell };
    let actions = update_liquid(calm, PixelToChunkApi { world: &world, x: 1, y: 0 });
    assert!(actions.is_empty());
}

#[test]
fn liquid_rule_bumps_the_other_way() {
    let mut world = World::new(3, 2);
    for x in 0..3 {
        world.set_cell_by_pixel(x, 1, &Element::Stone);
    }
    world.set_cell_by_pixel(2, 0, &Element::Stone);
    let cell = Cell { rb: 0, ra: 4, ..Cell::new(Element::Water) };
    let actions = update_liquid(cell, PixelToChunkApi { world: &world, x: 1, y: 0 });
    assert_eq!(actions, vec![CellAction::Update(Cell { ra: 5, ..cell })]);
}

#[test]
fn cell_update_skips_updated_and_inactive_cells() {
    let world = World::new(3, 3);
    let mut done = Cell { iter_bit: false, ..Cell::new(Element::Sand) };
    let actions = done.update(PixelToChunkApi { world: &world, x: 1, y: 1 });
    assert!(actions.is_empty());
    assert!(!done.iter_bit);
    let mut asleep = Cell { active: false, iter_bit: true, ..Cell::new(Element::Sand) };
    let actions = asleep.update(PixelToChunkApi { world: &world, x: 1, y: 1 });
    assert!(actions.is_empty());
    assert!(asleep.iter_bit);
}

#[test]
fn cell_update_flips_the_pass_bit() {
    let world = World::new(3, 3);
    let mut stone = Cell { iter_bit: true, ..Cell::new(Element::Stone) };
    let actions = stone.update(PixelToChunkApi { world: &world, x: 1, y: 1 });
    assert!(actions.is_empty());
    assert!(!stone.iter_bit);
    let mut sand = Cell { iter_bit: true, ..Cell::new(Element::GlowingSand) };
    let actions = sand.update(PixelToChunkApi { world: &world, x: 1, y: 1 });
    assert!(!sand.iter_bit);
    assert_eq!(actions, vec![CellAction::Swap(0, 1), CellAction::Update(sand)]);
}

#[test]
fn api_reads_walls_outside_the_world() {
    let world = World::new(2, 2);
    let api = PixelToChunkApi { world: &world, x: 0, y: 0 };
    assert_eq!(api.get(-1, 0), wall_cell());
    assert_eq!(api.get(0, 2), wall_cell());
    assert_eq!(api.get(1, 1), Cell::default());
    assert!(!api.iter_bit());
}

#[test]
fn api_random_choices_in_range() {
    let world = World::new(2, 2);
    let mut api = PixelToChunkApi { world: &world, x: 0, y: 0 };
    for _ in 0..200 {
        let r = api.rand_int(7);
        assert!((0..7).contains(&r));
        let d = api.rand_dir();
        assert!(d == 1 || d == -1);
        let (vx, vy) = api.rand_vec_8();
        assert!((-1..=1).contains(&vx) && (-1..=1).contains(&vy) && (vx, vy) != (0, 0));
    }
    assert!(api.once_in(1));
}

#[test]
fn placing_then_reading_back() {
    let mut world = World::new(6, 4);
    world.set_cell_by_pixel(3, 2, &Element::Sand);
    let placed = world.get_cell_by_pixel(3, 2).unwrap();
    assert_eq!(placed.element, Element::Sand);
    assert!(placed.active && !placed.iter_bit && placed.rb == 0 && placed.ra < 25);
    assert_eq!(counts(&world), [23, 0, 0, 1, 0]);
    world.set_cell_by_pixel(3, 2, &Element::Water);
    let placed = world.get_cell_by_pixel(3, 2).unwrap();
    assert_eq!(placed.element, Element::Water);
    assert_eq!(placed.ra, 0);
    assert_eq!(counts(&world), [23, 0, 1, 0, 0]);
}

#[test]
fn a_cell_moves_once_per_pass() {
    let mut world = World::new(5, 2);
    for x in 0..5 {
        world.set_cell_by_pixel(x, 1, &Element::Stone);
    }
    // Water leans right (even shade) and scoots two cells at once, ahead of the sweep.
    world.set_cell_by_pixel(0, 0, &Element::Water);
    world.forced_update();
    assert_eq!(element_at(&world, 2, 0), Element::Water);
    assert_eq!(element_at(&world, 0, 0), Element::Empty);
    assert_eq!(element_at(&world, 4, 0), Element::Empty);
    assert_eq!(world.get_cell_by_pixel(2, 0).unwrap().iter_bit, true);
}
