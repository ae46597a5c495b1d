use sandforge::chunk::{ChunkApi, ChunkData, ChunkGroup};
use sandforge::constants::CHUNK_CELLS;
use sandforge::dirty_rect::{RenderMessage, UpdateMessage};
use sandforge::materials::{update_gas, update_sand, FireParameters, Liquid, Material, PhysicsType};
use sandforge::pixel::{wall, Pixel, SimulationType};
use sandforge::vector::{IVec2, UVec2};

fn iv(x: i32, y: i32) -> IVec2 {
    IVec2 { x, y }
}

fn air_chunk() -> Vec<Pixel> {
    ChunkData::new().cells
}

fn group_with_center() -> ChunkGroup {
    ChunkGroup {
        center: Some(air_chunk()),
        corners: [None, None, None, None],
        sides: [None, None, None, None],
    }
}

fn sand_material() -> Material {
    Material {
        id: "sand".to_string(),
        matter_type: PhysicsType::Powder,
        color: [200, 180, 40, 255],
        color_offset: 20,
        fire_parameters: None,
    }
}

fn stone_material() -> Material {
    Material {
        id: "stone".to_string(),
        matter_type: PhysicsType::Static,
        color: [90, 90, 90, 255],
        color_offset: 0,
        fire_parameters: None,
    }
}

fn water_liquid() -> Liquid {
    Liquid {
        volume_bits: 1.0f32.to_bits(),
        dry_threshold_bits: 0.05f32.to_bits(),
        density: 10,
        viscosity: 2,
        max_compression_bits: 1.2f32.to_bits(),
    }
}

fn gas_material() -> Material {
    Material {
        id: "steam".to_string(),
        matter_type: PhysicsType::Gas,
        color: [230, 230, 230, 120],
        color_offset: 0,
        fire_parameters: None,
    }
}

fn is_air(p: &Pixel) -> bool {
    p.material_id == "air" && p.matter_type == PhysicsType::Empty
}

#[test]
fn chunk_data_is_air() {
    let chunk = ChunkData::new();
    assert_eq!(chunk.cells.len(), CHUNK_CELLS as usize);
    assert!(chunk.cells.iter().all(is_air));
    let d = ChunkData::default();
    assert_eq!(d.cells.len(), CHUNK_CELLS as usize);
}

#[test]
fn chunk_data_index_is_row_major() {
    let mut chunk = ChunkData::new();
    chunk.cells[2 * 64 + 3] = wall();
    assert_eq!(chunk.index(iv(3, 2)).material_id, "wall");
    assert!(is_air(chunk.index(iv(2, 3))));
}

#[test]
fn chunk_offsets_to_ids() {
    let group = group_with_center();
    assert_eq!(group.chunk_offset_to_id(iv(-1, -1)), 0);
    assert_eq!(group.chunk_offset_to_id(iv(0, -1)), 1);
    assert_eq!(group.chunk_offset_to_id(iv(0, 0)), 4);
    assert_eq!(group.chunk_offset_to_id(iv(-1, 0)), 3);
    assert_eq!(group.chunk_offset_to_id(iv(1, 1)), 8);
}

#[test]
fn group_set_then_get() {
    let mut group = group_with_center();
    let p = Pixel::new(&stone_material(), 7);
    assert!(group.set(iv(5, 6), p.clone()));
    let got = group.get(iv(5, 6)).unwrap();
    assert_eq!(got.material_id, "stone");
    assert_eq!(got.updated_at, 7);
    assert!(is_air(group.get(iv(6, 5)).unwrap()));
}

#[test]
fn group_missing_and_distant_chunks() {
    let mut group = group_with_center();
    assert!(group.get(iv(70, 5)).is_none());
    assert!(!group.set(iv(70, 5), wall()));
    assert!(group.get(iv(-1, -1)).is_none());
    assert!(group.get(iv(300, 0)).is_none());
    assert!(!group.set(iv(-300, 0), wall()));
}

#[test]
fn group_neighbour_chunks_are_addressed_by_id() {
    let mut group = group_with_center();
    // corners: ids 0, 2, 6, 8; sides: ids 1, 3, 5, 7.
    group.corners[0] = Some(air_chunk());
    group.corners[3] = Some(air_chunk());
    group.sides[2] = Some(air_chunk());
    group.sides[3] = Some(air_chunk());
    assert!(group.set(iv(-1, -1), wall()));
    assert_eq!(group.corners[0].as_ref().unwrap()[63 * 64 + 63].material_id, "wall");
    assert!(group.set(iv(64, 64), wall()));
    assert_eq!(group.corners[3].as_ref().unwrap()[0].material_id, "wall");
    assert!(group.set(iv(65, 2), wall()));
    assert_eq!(group.sides[2].as_ref().unwrap()[2 * 64 + 1].material_id, "wall");
    assert!(group.set(iv(3, 64), wall()));
    assert_eq!(group.sides[3].as_ref().unwrap()[3].material_id, "wall");
    assert_eq!(group.get(iv(65, 2)).unwrap().material_id, "wall");
    assert!(group.get(iv(-1, 3)).is_none());
}

#[test]
fn pixel_default_and_wall() {
    let air = Pixel::default();
    assert!(is_air(&air));
    assert_eq!(air.temperature, 30);
    assert_eq!(air.simulation, SimulationType::Ca);
    let w = wall();
    assert_eq!(w.material_id, "wall");
    assert_eq!(w.matter_type, PhysicsType::Static);
    assert!(air.is_empty());
    assert!(!w.is_empty());
}

#[test]
fn pixel_new_takes_material() {
    let fire = FireParameters { fire_temperature: 900, ignition_temperature: 300, fire_hp: 50 };
    let wood = Material {
        id: "wood".to_string(),
        matter_type: PhysicsType::Static,
        color: [120, 60, 20, 255],
        color_offset: 5,
        fire_parameters: Some(fire),
    };
    let mut shades = std::collections::HashSet::new();
    for _ in 0..100 {
        let p = Pixel::new(&wood, 3);
        shades.insert(p.ra);
        assert_eq!(p.material_id, "wood");
        assert_eq!(p.color, wood.color);
        assert_eq!(p.fire_parameters, Some(fire));
        assert!(p.ra <= 5);
        assert_eq!(p.rb, 0);
        assert_eq!(p.updated_at, 3);
        assert_eq!(p.temperature, 30);
        assert!(!p.on_fire);
    }
    assert!(shades.len() > 1);
    let q = Pixel::new_with_rb(&wood, 4, 9);
    assert_eq!(q.rb, 9);
    assert_eq!(q.updated_at, 4);
    let c = q.clone();
    assert_eq!(c.material_id, q.material_id);
    assert_eq!(c.ra, q.ra);
}

#[test]
fn pixel_colors() {
    let mut p = Pixel::new(&sand_material(), 0);
    p.color = [250, 10, 0, 255];
    p.ra = 10;
    assert_eq!(p.get_color(), [255, 20, 10, 255]);
    let air = Pixel::default();
    assert_eq!(air.get_color(), [0, 0, 0, 0]);
    let mut liquid = Pixel::default();
    liquid.matter_type = PhysicsType::Liquid(water_liquid());
    liquid.color = [10, 250, 100, 0];
    let mut gas = Pixel::new(&gas_material(), 0);
    gas.color = [10, 250, 100, 0];
    for _ in 0..200 {
        let c = liquid.get_color();
        let g = gas.get_color();
        for k in 0..4 {
            assert!(shaded(c[k], liquid.color[k], 10));
            assert!(shaded(g[k], gas.color[k], 50));
        }
    }
}

fn shaded(channel: u8, base: u8, spread: u16) -> bool {
    (0..spread).any(|r| channel as u16 == (base as u16 + r).min(255))
}

#[test]
fn physics_type_names() {
    assert_eq!(PhysicsType::Empty.to_string(), "Empty");
    assert_eq!(PhysicsType::Static.to_string(), "Static");
    assert_eq!(PhysicsType::Powder.to_string(), "Powder");
    assert_eq!(PhysicsType::Liquid(water_liquid()).to_string(), "Liquid");
    assert_eq!(PhysicsType::Gas.to_string(), "Gas");
    assert_eq!(PhysicsType::default(), PhysicsType::Empty);
}

#[test]
fn material_default_is_air() {
    let m = Material::default();
    assert_eq!(m.id, "air");
    assert_eq!(m.matter_type, PhysicsType::Empty);
    assert_eq!(m.color, [0, 0, 0, 0]);
    assert_eq!(m.color_offset, 0);
    assert!(m.fire_parameters.is_none());
}

fn channels() -> (
    (async_channel::Sender<UpdateMessage>, async_channel::Receiver<UpdateMessage>),
    (async_channel::Sender<RenderMessage>, async_channel::Receiver<RenderMessage>),
) {
    (async_channel::unbounded(), async_channel::unbounded())
}

#[test]
fn api_reads_group_and_walls() {
    let ((us, _ur), (rs, _rr)) = channels();
    let mut group = group_with_center();
    group.set(iv(10, 9), Pixel::new(&stone_material(), 5));
    let api = ChunkApi::new(iv(0, 0), iv(10, 10), group, &us, &rs, 1);
    assert_eq!(api.get(0, -1).material_id, "stone");
    assert_eq!(api.get_counter(0, -1), 5);
    assert_eq!(api.get_matter(0, -1), PhysicsType::Static);
    assert!(!api.is_empty(0, -1));
    assert!(api.is_empty(0, 1));
    assert!(api.match_element(0, -1, &stone_material()));
    assert!(!api.match_element(0, 1, &stone_material()));
    // Outside the group: a wall.
    assert_eq!(api.get(0, -20).material_id, "wall");
    assert_eq!(api.get_counter(0, -20), 0);
    assert_eq!(api.get_matter(0, -20), PhysicsType::Static);
    assert!(!api.is_empty(0, -20));
}

#[test]
fn api_keep_alive_messages_cross_chunks() {
    let ((us, ur), (rs, rr)) = channels();
    let mut api = ChunkApi::new(iv(2, 3), iv(10, 10), group_with_center(), &us, &rs, 0);
    let (u, r) = api.keep_alive_messages(0, -11);
    assert_eq!(u.chunk_position, iv(2, 2));
    assert_eq!(u.cell_position, UVec2 { x: 10, y: 63 });
    assert!(u.awake_surrouding);
    assert_eq!(r.chunk_position, iv(2, 2));
    assert_eq!(r.cell_position, UVec2 { x: 10, y: 63 });
    api.keep_alive(60, 0);
    let sent = ur.try_recv().unwrap();
    assert_eq!(sent.chunk_position, iv(3, 3));
    assert_eq!(sent.cell_position, UVec2 { x: 6, y: 10 });
    let drawn = rr.try_recv().unwrap();
    assert_eq!(drawn.chunk_position, iv(3, 3));
    assert_eq!(drawn.cell_position, UVec2 { x: 6, y: 10 });
}

#[test]
fn api_set_update_and_mark() {
    let ((us, ur), (rs, rr)) = channels();
    let mut api = ChunkApi::new(iv(0, 0), iv(10, 10), group_with_center(), &us, &rs, 9);
    api.set(1, 0, Pixel::new(&stone_material(), 0));
    assert_eq!(api.get(1, 0).material_id, "stone");
    api.update(Pixel::new(&sand_material(), 0));
    assert_eq!(api.get(0, 0).material_id, "sand");
    assert_eq!(rr.len(), 1);
    api.mark_updated();
    assert_eq!(api.get_counter(0, 0), 9);
    assert_eq!(api.get(0, 0).material_id, "sand");
    assert_eq!(rr.len(), 2);
    assert_eq!(ur.len(), 0);
}

#[test]
fn api_swap_moves_cell_and_follows_it() {
    let ((us, ur), (rs, rr)) = channels();
    let mut group = group_with_center();
    group.set(iv(10, 10), Pixel::new(&sand_material(), 0));
    let mut api = ChunkApi::new(iv(0, 0), iv(10, 10), group, &us, &rs, 0);
    api.swap(0, -1);
    assert_eq!(api.cell_position, iv(10, 9));
    assert_eq!(api.get(0, 0).material_id, "sand");
    assert!(is_air(&api.get(0, 1)));
    assert_eq!(ur.len(), 2);
    assert_eq!(rr.len(), 2);
}

#[test]
fn api_random_helpers() {
    let ((us, _ur), (rs, _rr)) = channels();
    let mut api = ChunkApi::new(iv(0, 0), iv(0, 0), group_with_center(), &us, &rs, 0);
    let mut seen_zero = false;
    for _ in 0..500 {
        let r = api.rand_int(5);
        assert!((0..5).contains(&r));
        let d = api.rand_dir();
        assert!(d == -1 || d == 1);
        let (vx, vy) = api.rand_vec();
        assert!((-1..=1).contains(&vx) && (-1..=1).contains(&vy));
        seen_zero |= (vx, vy) == (0, 0);
        let (wx, wy) = api.rand_vec_8();
        assert!((-1..=1).contains(&wx) && (-1..=1).contains(&wy) && (wx, wy) != (0, 0));
    }
    assert!(seen_zero);
    assert!(api.once_in(1));
    api.switch_position(iv(4, 5));
    assert_eq!(api.cell_position, iv(4, 5));
}

#[test]
fn sand_falls_into_air() {
    let ((us, _ur), (rs, _rr)) = channels();
    let mut group = group_with_center();
    group.set(iv(10, 10), Pixel::new(&sand_material(), 0));
    let mut api = ChunkApi::new(iv(0, 0), iv(10, 10), group, &us, &rs, 0);
    update_sand(&mut api);
    assert_eq!(api.cell_position.y, 9);
    assert!((api.cell_position.x - 10).abs() <= 1);
    assert_eq!(api.get(0, 0).material_id, "sand");
    assert!(is_air(api.chunk_group.get(iv(10, 10)).unwrap()));
}

#[test]
fn sand_slides_past_an_obstacle() {
    let ((us, _ur), (rs, _rr)) = channels();
    let mut group = group_with_center();
    group.set(iv(10, 10), Pixel::new(&sand_material(), 0));
    group.set(iv(10, 9), Pixel::new(&stone_material(), 0));
    group.set(iv(9, 9), Pixel::new(&stone_material(), 0));
    let mut api = ChunkApi::new(iv(0, 0), iv(10, 10), group, &us, &rs, 0);
    update_sand(&mut api);
    assert_eq!(api.cell_position, iv(11, 9));
    assert_eq!(api.chunk_group.get(iv(11, 9)).unwrap().material_id, "sand");
}

#[test]
fn sand_rests_on_stone_and_at_missing_chunks() {
    let ((us, ur), (rs, _rr)) = channels();
    let mut group = group_with_center();
    group.set(iv(10, 10), Pixel::new(&sand_material(), 0));
    for x in 9..=11 {
        group.set(iv(x, 9), Pixel::new(&stone_material(), 0));
    }
    group.set(iv(20, 0), Pixel::new(&sand_material(), 0));
    let mut api = ChunkApi::new(iv(0, 0), iv(10, 10), group, &us, &rs, 0);
    update_sand(&mut api);
    assert_eq!(api.cell_position, iv(10, 10));
    assert_eq!(api.get(0, 0).material_id, "sand");
    // At the bottom row of the center chunk, below lies a chunk that is not loaded.
    api.switch_position(iv(20, 0));
    update_sand(&mut api);
    assert_eq!(api.cell_position, iv(20, 0));
    assert_eq!(ur.len(), 0);
}

#[test]
fn sand_sinks_into_liquid() {
    let ((us, _ur), (rs, _rr)) = channels();
    let mut group = group_with_center();
    let water = Material {
        id: "water".to_string(),
        matter_type: PhysicsType::Liquid(water_liquid()),
        color: [20, 60, 200, 180],
        color_offset: 0,
        fire_parameters: None,
    };
    group.set(iv(10, 10), Pixel::new(&sand_material(), 0));
    group.set(iv(10, 9), Pixel::new(&water, 0));
    group.set(iv(9, 9), Pixel::new(&stone_material(), 0));
    group.set(iv(11, 9), Pixel::new(&stone_material(), 0));
    let mut api = ChunkApi::new(iv(0, 0), iv(10, 10), group, &us, &rs, 0);
    update_sand(&mut api);
    assert_eq!(api.cell_position, iv(10, 9));
    assert_eq!(api.chunk_group.get(iv(10, 10)).unwrap().material_id, "water");
}

#[test]
fn gas_rises() {
    let ((us, _ur), (rs, _rr)) = channels();
    let mut group = group_with_center();
    group.set(iv(10, 10), Pixel::new(&gas_material(), 0));
    let mut api = ChunkApi::new(iv(0, 0), iv(10, 10), group, &us, &rs, 0);
    update_gas(&mut api);
    assert_eq!(api.cell_position.y, 11);
    assert!((api.cell_position.x - 10).abs() == 1);
    assert_eq!(api.get(0, 0).material_id, "steam");
    assert!(is_air(api.chunk_group.get(iv(10, 10)).unwrap()));
}

fn boxed_gas(rb: u8, ra: u8) -> ChunkGroup {
    let mut group = group_with_center();
    let mut gas = Pixel::new(&gas_material(), 0);
    gas.rb = rb;
    gas.ra = ra;
    group.set(iv(10, 10), gas);
    for x in 8..=12 {
        if x != 10 {
            group.set(iv(x, 10), Pixel::new(&stone_material(), 0));
        }
    }
    for x in 9..=11 {
        group.set(iv(x, 11), Pixel::new(&stone_material(), 0));
    }
    group
}

#[test]
fn boxed_gas_loses_certainty() {
    let ((us, _ur), (rs, _rr)) = channels();
    let mut api = ChunkApi::new(iv(0, 0), iv(10, 10), boxed_gas(4, 2), &us, &rs, 0);
    update_gas(&mut api);
    assert_eq!(api.cell_position, iv(10, 10));
    assert_eq!(api.get(0, 0).rb, 3);
    assert_eq!(api.get(0, 0).ra, 2);
}

#[test]
fn gas_scoots_two_cells() {
    let ((us, _ur), (rs, _rr)) = channels();
    let mut group = group_with_center();
    let mut gas = Pixel::new(&gas_material(), 0);
    gas.ra = 0;
    group.set(iv(10, 10), gas);
    // Blocked above and on both sides one row up, so it cannot drift or rise.
    for x in 9..=11 {
        group.set(iv(x, 11), Pixel::new(&stone_material(), 0));
    }
    let mut api = ChunkApi::new(iv(0, 0), iv(10, 10), group, &us, &rs, 0);
    update_gas(&mut api);
    assert_eq!(api.cell_position, iv(12, 10));
    assert_eq!(api.get(0, 0).rb, 6);
    assert!(is_air(api.chunk_group.get(iv(10, 10)).unwrap()));
}

#[test]
fn group_index_and_get_mut() {
    let mut group = group_with_center();
    {
        let p = group.get_mut(iv(7, 8)).unwrap();
        p.material_id = "stone".to_string();
        p.ra = 3;
    }
    assert_eq!(group.index(iv(7, 8)).material_id, "stone");
    assert_eq!(group.get(iv(7, 8)).unwrap().ra, 3);
    assert!(group.get_mut(iv(-5, 2)).is_none());
    group.index_mut(iv(1, 1)).updated_at = 42;
    assert_eq!(group.get(iv(1, 1)).unwrap().updated_at, 42);
    assert_eq!(group.get(iv(1, 2)).unwrap().updated_at, 0);
}

#[test]
fn chunk_data_index_mut_writes_one_cell() {
    let mut chunk = ChunkData::new();
    chunk.index_mut(iv(63, 63)).material_id = "stone".to_string();
    assert_eq!(chunk.cells[CHUNK_CELLS as usize - 1].material_id, "stone");
    assert_eq!(chunk.cells.iter().filter(|p| p.material_id == "stone").count(), 1);
}

#[test]
fn chunk_images() {
    let mut chunk = ChunkData::new();
    let mut image = ChunkData::new_image();
    assert_eq!(image.len(), 4 * CHUNK_CELLS as usize);
    assert!(image.iter().all(|b| *b == 0));
    let mut stone = Pixel::new(&stone_material(), 0);
    stone.ra = 5;
    chunk.cells[64 + 2] = stone.clone();
    let mut burning = stone.clone();
    burning.on_fire = true;
    chunk.cells[3] = burning;
    chunk.update_all(&mut image);
    assert_eq!(&image[(64 + 2) * 4..(64 + 3) * 4], &[95, 95, 95, 255]);
    assert_eq!(&image[0..4], &[0, 0, 0, 0]);
    let fire = [
        [0xA9, 0x43, 0x1E, 0xFF],
        [0xD7, 0x88, 0x25, 0xFF],
        [0xEA, 0xAA, 0x00, 0xFF],
        [0xE1, 0xCD, 0x00, 0xFF],
        [0xEE, 0xDC, 0x00, 0xFF],
    ];
    assert!(fire.iter().any(|c| &image[12..16] == c));
}

#[test]
fn chunk_image_rect_leaves_the_rest() {
    let mut chunk = ChunkData::new();
    let stone = Pixel::new(&stone_material(), 0);
    for i in 0..CHUNK_CELLS as usize {
        chunk.cells[i] = stone.clone();
    }
    let mut image = ChunkData::new_image();
    let rect = sandforge::vector::URect { min: UVec2 { x: 2, y: 3 }, max: UVec2 { x: 4, y: 5 } };
    chunk.update_rect(&mut image, rect);
    for y in 0..64usize {
        for x in 0..64usize {
            let bytes = &image[(y * 64 + x) * 4..(y * 64 + x + 1) * 4];
            if (2..4).contains(&x) && (3..5).contains(&y) {
                assert_eq!(bytes, &[90, 90, 90, 255]);
            } else {
                assert_eq!(bytes, &[0, 0, 0, 0]);
            }
        }
    }
}

#[test]
fn pixel_rgba_of_burning_and_plain() {
    let mut p = Pixel::new(&stone_material(), 0);
    p.ra = 0;
    assert_eq!(sandforge::chunk::pixel_rgba(&p), [90, 90, 90, 255]);
    p.on_fire = true;
    let c = sandforge::chunk::pixel_rgba(&p);
    assert_eq!(c[3], 0xFF);
    assert_ne!(c, [90, 90, 90, 255]);
}

#[test]
fn builtin_material_table() {
    let table = sandforge::materials::builtin_materials();
    let ids: Vec<&str> = table.iter().map(|m| m.id.as_str()).collect();
    assert_eq!(ids, vec!["air", "grass", "dirt", "stone", "actor"]);
    assert_eq!(table[1].fire_parameters, Some(FireParameters { fire_temperature: 125, ignition_temperature: 75, fire_hp: 25 }));
    assert_eq!(table[3].color, [0x71, 0x77, 0x77, 0xff]);
    assert_eq!(table[3].color_offset, 20);
    assert_eq!(table[4].color, [0xff, 0x00, 0x00, 0x50]);
}

#[test]
fn swapping_back_restores_the_group() {
    let ((us, _ur), (rs, _rr)) = channels();
    let mut group = group_with_center();
    group.set(iv(10, 10), Pixel::new(&sand_material(), 0));
    group.set(iv(11, 9), Pixel::new(&stone_material(), 0));
    let mut api = ChunkApi::new(iv(0, 0), iv(10, 10), group, &us, &rs, 0);
    api.swap(1, -1);
    assert_eq!(api.cell_position, iv(11, 9));
    assert_eq!(api.get(0, 0).material_id, "sand");
    assert_eq!(api.get(-1, 1).material_id, "stone");
    api.swap(-1, 1);
    assert_eq!(api.cell_position, iv(10, 10));
    assert_eq!(api.get(0, 0).material_id, "sand");
    assert_eq!(api.get(1, -1).material_id, "stone");
}

fn water_material(density: u8) -> Material {
    Material {
        id: "water".to_string(),
        matter_type: PhysicsType::Liquid(Liquid { density, ..water_liquid() }),
        color: [20, 60, 200, 180],
        color_offset: 0,
        fire_parameters: None,
    }
}

#[test]
fn liquid_falls_into_air() {
    let ((us, ur), (rs, rr)) = channels();
    let mut group = group_with_center();
    group.set(iv(10, 10), Pixel::new(&water_material(10), 0));
    let mut api = ChunkApi::new(iv(0, 0), iv(10, 10), group, &us, &rs, 0);
    assert!(sandforge::materials::update_liquid_fall(&mut api));
    assert_eq!(api.cell_position, iv(10, 9));
    assert_eq!(api.get(0, 0).material_id, "water");
    assert!(is_air(api.chunk_group.get(iv(10, 10)).unwrap()));
    assert_eq!(ur.len(), 2);
    assert!(rr.len() == 2 || rr.len() == 3);
}

#[test]
fn liquid_sinks_through_lighter_liquid_only() {
    let ((us, _ur), (rs, _rr)) = channels();
    let mut group = group_with_center();
    let mut oil = water_material(3);
    oil.id = "oil".to_string();
    group.set(iv(10, 10), Pixel::new(&water_material(10), 0));
    group.set(iv(10, 9), Pixel::new(&oil, 0));
    let mut api = ChunkApi::new(iv(0, 0), iv(10, 10), group, &us, &rs, 0);
    assert!(sandforge::materials::update_liquid_fall(&mut api));
    assert_eq!(api.cell_position, iv(10, 9));
    assert_eq!(api.chunk_group.get(iv(10, 10)).unwrap().material_id, "oil");

    let ((us2, ur2), (rs2, rr2)) = channels();
    let mut group = group_with_center();
    group.set(iv(10, 10), Pixel::new(&oil, 0));
    group.set(iv(10, 9), Pixel::new(&water_material(10), 0));
    let mut api = ChunkApi::new(iv(0, 0), iv(10, 10), group, &us2, &rs2, 0);
    assert!(!sandforge::materials::update_liquid_fall(&mut api));
    assert_eq!(api.cell_position, iv(10, 10));
    assert_eq!(api.get(0, 0).material_id, "oil");
    assert_eq!(ur2.len(), 0);
    assert_eq!(rr2.len(), 0);
}

#[test]
fn liquid_rests_on_stone() {
    let ((us, _ur), (rs, _rr)) = channels();
    let mut group = group_with_center();
    group.set(iv(10, 10), Pixel::new(&water_material(10), 0));
    group.set(iv(10, 9), Pixel::new(&stone_material(), 0));
    let mut api = ChunkApi::new(iv(0, 0), iv(10, 10), group, &us, &rs, 0);
    assert!(!sandforge::materials::update_liquid_fall(&mut api));
    assert_eq!(api.cell_position, iv(10, 10));
}

#[test]
fn swap_sends_messages_for_both_places() {
    let ((us, ur), (rs, rr)) = channels();
    let mut group = group_with_center();
    group.set(iv(10, 0), Pixel::new(&sand_material(), 0));
    group.corners[0] = Some(air_chunk());
    group.sides[0] = Some(air_chunk());
    let mut api = ChunkApi::new(iv(2, 3), iv(10, 0), group, &us, &rs, 0);
    api.swap(-1, -1);
    let first = ur.try_recv().unwrap();
    let second = ur.try_recv().unwrap();
    assert_eq!((first.chunk_position, first.cell_position), (iv(2, 3), UVec2 { x: 10, y: 0 }));
    assert_eq!((second.chunk_position, second.cell_position), (iv(2, 2), UVec2 { x: 9, y: 63 }));
    assert!(first.awake_surrouding && second.awake_surrouding);
    let r1 = rr.try_recv().unwrap();
    let r2 = rr.try_recv().unwrap();
    assert_eq!((r1.chunk_position, r1.cell_position), (iv(2, 3), UVec2 { x: 10, y: 0 }));
    assert_eq!((r2.chunk_position, r2.cell_position), (iv(2, 2), UVec2 { x: 9, y: 63 }));
    assert!(ur.try_recv().is_err());
}

#[test]
fn gas_messages_follow_the_cell() {
    let ((us, ur), (rs, rr)) = channels();
    let mut group = group_with_center();
    group.set(iv(10, 10), Pixel::new(&gas_material(), 0));
    let mut api = ChunkApi::new(iv(0, 0), iv(10, 10), group, &us, &rs, 0);
    update_gas(&mut api);
    // Drift sideways, then rise: two exchanges, then one redraw of the last place.
    assert_eq!(ur.len(), 4);
    assert_eq!(rr.len(), 5);
    let mut last = None;
    while let Ok(m) = rr.try_recv() {
        last = Some(m);
    }
    let last = last.unwrap();
    assert_eq!(last.cell_position, UVec2 { x: api.cell_position.x as u32, y: api.cell_position.y as u32 });
}

#[test]
fn chunk_image_may_be_longer() {
    let chunk = ChunkData::new();
    let mut image = vec![7u8; 4 * CHUNK_CELLS as usize + 8];
    chunk.update_all(&mut image);
    assert!(image[..4 * CHUNK_CELLS as usize].iter().all(|b| *b == 0));
    assert_eq!(&image[4 * CHUNK_CELLS as usize..], &[7u8; 8]);
    let mut image = vec![7u8; 4 * CHUNK_CELLS as usize + 4];
    let rect = sandforge::vector::URect { min: UVec2 { x: 0, y: 0 }, max: UVec2 { x: 1, y: 1 } };
    chunk.update_rect(&mut image, rect);
    assert_eq!(&image[0..8], &[0, 0, 0, 0, 7, 7, 7, 7]);
    assert_eq!(&image[4 * CHUNK_CELLS as usize..], &[7u8; 4]);
}
