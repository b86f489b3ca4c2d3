use minecraft_raytracer::scene::{Block, BlockMaterial, Model, Scene};

fn count(cubes: &[Block], m: BlockMaterial) -> usize {
    cubes.iter().filter(|b| b.material == m).count()
}

fn has(cubes: &[Block], x: i32, y: i32, z: i32, m: BlockMaterial) -> bool {
    cubes.iter().any(|b| b.x == x && b.y == y && b.z == z && b.material == m)
}

#[test]
fn new_scene_is_empty() {
    let s = Scene::new();
    assert!(s.cubes.is_empty());
    assert!(s.meshes.is_empty());
}

#[test]
fn cherry_tree_has_trunk_and_diamond_crown() {
    let mut s = Scene::new();
    s.build_cherry_tree(700, -400);
    assert_eq!(s.cubes.len(), 4 + 63);
    for y in 0..4 {
        assert_eq!(
            s.cubes[y as usize],
            Block { x: 700, y: 100 * y, z: -400, size: 100, material: BlockMaterial::CherryWood }
        );
    }
    assert_eq!(count(&s.cubes, BlockMaterial::CherryLeaves), 63);
    // The crown's corners are cut off.
    assert!(!has(&s.cubes, 500, 300, -600, BlockMaterial::CherryLeaves));
    assert!(has(&s.cubes, 500, 300, -500, BlockMaterial::CherryLeaves));
    assert!(has(&s.cubes, 700, 500, -200, BlockMaterial::CherryLeaves));
    // First leaves cube: x = -2, y = 3, z = -1 relative to the trunk.
    assert_eq!(
        s.cubes[4],
        Block { x: 500, y: 300, z: -500, size: 100, material: BlockMaterial::CherryLeaves }
    );
}

#[test]
fn pond_is_water_inside_a_stone_border() {
    let mut s = Scene::new();
    s.build_pond();
    assert_eq!(s.cubes.len(), 45);
    assert_eq!(count(&s.cubes, BlockMaterial::PondStone), 22);
    assert_eq!(count(&s.cubes, BlockMaterial::Water), 20);
    for xi in -1..=5 {
        for zi in -1..=4 {
            let x = 250 + 100 * xi;
            let z = 100 * zi;
            let border = xi == -1 || xi == 5 || zi == -1 || zi == 4;
            assert_eq!(has(&s.cubes, x, 0, z, BlockMaterial::PondStone), border);
            assert_eq!(has(&s.cubes, x, 0, z, BlockMaterial::Water), !border);
        }
    }
    assert_eq!(
        s.cubes[42],
        Block { x: 400, y: 90, z: 150, size: 40, material: BlockMaterial::Grass }
    );
}

#[test]
fn house_has_windows_door_and_roof() {
    let mut s = Scene::new();
    s.build_house();
    assert_eq!(s.cubes.len(), 5 * 24 + 49);
    assert_eq!(count(&s.cubes, BlockMaterial::HouseDoor), 9);
    assert_eq!(count(&s.cubes, BlockMaterial::HouseWindow), 2 * (2 + 1 + 1));
    assert_eq!(count(&s.cubes, BlockMaterial::HouseRoof), 49);
    assert!(has(&s.cubes, -800, 200, -1000, BlockMaterial::HouseWindow));
    assert!(has(&s.cubes, -600, 300, -1000, BlockMaterial::HouseWindow));
    assert!(has(&s.cubes, -800, 0, -400, BlockMaterial::HouseDoor));
    assert!(has(&s.cubes, -600, 200, -400, BlockMaterial::HouseDoor));
    assert!(has(&s.cubes, -600, 300, -400, BlockMaterial::HouseWall));
    assert!(has(&s.cubes, -1000, 200, -700, BlockMaterial::HouseWindow));
    assert!(has(&s.cubes, -400, 300, -700, BlockMaterial::HouseWindow));
    assert!(has(&s.cubes, -1000, 500, -1000, BlockMaterial::HouseRoof));
}

#[test]
fn diorama_layout() {
    let mut s = Scene::new();
    s.build_cherry_tree_diorama();
    assert_eq!(s.cubes.len(), 1386);
    assert_eq!(count(&s.cubes, BlockMaterial::Dirt), 420);
    assert_eq!(count(&s.cubes, BlockMaterial::GrassBlock), 420);
    assert_eq!(count(&s.cubes, BlockMaterial::Sidewalk), 92 + 27 + 18);
    assert_eq!(count(&s.cubes, BlockMaterial::Grass), 49 + 3);
    assert_eq!(count(&s.cubes, BlockMaterial::Gold), 2);
    assert_eq!(count(&s.cubes, BlockMaterial::AxolotlGill), 6);
    assert_eq!(
        s.cubes[0],
        Block { x: -1000, y: -150, z: -1500, size: 100, material: BlockMaterial::Dirt }
    );
    assert_eq!(s.meshes.len(), 1);
    let m = s.meshes[0];
    assert_eq!(m.model, Model::Axolotl);
    assert_eq!((m.x, m.y, m.z, m.scale, m.half_turns_y), (-100, 20, 400, 15, 1));
    assert_eq!(m.material, BlockMaterial::AxolotlBody);
}

#[test]
fn building_keeps_existing_cubes() {
    let mut s = Scene::new();
    s.build_pond();
    let before = s.cubes.clone();
    s.build_cherry_tree(0, -100);
    assert_eq!(&s.cubes[..before.len()], &before[..]);
    assert_eq!(s.cubes.len(), before.len() + 67);
}
