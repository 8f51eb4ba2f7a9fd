use tower_defense::tile_map::{generate_map, TileMap, TileType};
use tower_defense::tower::{
    can_build_on, create_tower, draw_tower_sites, locate, Sighting, Tower, TowerSystem,
    TOWER_FIRE_PERIOD, TOWER_RANGE, TOWER_SITE_DRAWS,
};

fn seen(entity: u64, distance: u64) -> Sighting {
    Sighting { entity, distance_sq: distance * distance }
}

#[test]
fn fresh_tower_has_no_target() {
    let tower = create_tower();
    assert_eq!(tower, Tower { range: 100, fire_period: 1000, last_fire_time: 0, target: None });
    assert_eq!(TOWER_RANGE, 100);
    assert_eq!(TOWER_FIRE_PERIOD, 1000);
}

#[test]
fn range_ends_just_below_its_square() {
    let tower = create_tower();
    assert!(tower.in_range(&Sighting { entity: 1, distance_sq: 0 }));
    assert!(tower.in_range(&Sighting { entity: 1, distance_sq: 9_999 }));
    assert!(!tower.in_range(&Sighting { entity: 1, distance_sq: 10_000 }));
    assert!(!tower.in_range(&Sighting { entity: 1, distance_sq: u64::MAX }));
    let blind = Tower { range: 0, ..tower };
    assert!(!blind.in_range(&Sighting { entity: 1, distance_sq: 0 }));
    let far_sighted = Tower { range: u32::MAX, ..tower };
    assert!(far_sighted.in_range(&Sighting { entity: 1, distance_sq: 18_446_744_065_119_617_024 }));
    assert!(!far_sighted.in_range(&Sighting { entity: 1, distance_sq: 18_446_744_065_119_617_025 }));
}

#[test]
fn tower_selects_the_nearer_of_two() {
    let tower = create_tower();
    assert_eq!(tower.nearest(&vec![seen(1, 30), seen(2, 60)]), Some(0));
    assert_eq!(tower.nearest(&vec![seen(2, 60), seen(1, 30)]), Some(1));
    let mut aiming = tower;
    assert_eq!(aiming.update(&vec![seen(2, 60), seen(1, 30)], 5_000), None);
    assert_eq!(aiming.target, Some(1));
}

#[test]
fn tower_never_selects_beyond_its_range() {
    let mut tower = create_tower();
    assert_eq!(tower.nearest(&vec![seen(1, 101), seen(2, 100), seen(3, 5_000)]), None);
    assert_eq!(tower.nearest(&vec![seen(1, 101), seen(2, 99), seen(3, 100)]), Some(1));
    assert_eq!(tower.update(&vec![seen(1, 101), seen(2, 100)], 10), None);
    assert_eq!(tower.target, None);
}

#[test]
fn target_stays_empty_with_nobody_in_range() {
    let mut tower = create_tower();
    for tick in 0..50u64 {
        let shot = tower.update(&vec![seen(7, 150), seen(8, 100)], tick * 100);
        assert_eq!(shot, None);
        assert_eq!(tower, create_tower());
    }
    assert_eq!(tower.update(&Vec::new(), 9_000), None);
    assert_eq!(tower.target, None);
}

#[test]
fn first_of_equally_near_wins() {
    let tower = create_tower();
    assert_eq!(tower.nearest(&vec![seen(4, 70), seen(5, 20), seen(6, 20), seen(7, 20)]), Some(1));
}

#[test]
fn locate_finds_the_first_sighting_of_an_entity() {
    let hostiles = vec![seen(4, 70), seen(5, 20), seen(4, 10)];
    assert_eq!(locate(&hostiles, 4), Some(0));
    assert_eq!(locate(&hostiles, 5), Some(1));
    assert_eq!(locate(&hostiles, 6), None);
    assert_eq!(locate(&Vec::new(), 4), None);
}

#[test]
fn tower_keeps_its_target_while_a_nearer_enemy_comes() {
    let mut tower = create_tower();
    tower.update(&vec![seen(1, 80)], 100);
    assert_eq!(tower.target, Some(1));
    let shot = tower.update(&vec![seen(2, 10), seen(1, 80)], 200);
    assert_eq!(tower.target, Some(1));
    assert_eq!(shot, None);
    let fired = tower.update(&vec![seen(2, 10), seen(1, 80)], 1_000);
    assert_eq!(fired, Some(1));
}

#[test]
fn tower_drops_a_target_that_is_gone() {
    let mut tower = Tower { target: Some(9), ..create_tower() };
    let shot = tower.update(&vec![seen(1, 10)], 5_000);
    assert_eq!(shot, None);
    assert_eq!(tower.target, None);
    assert_eq!(tower.last_fire_time, 0);
    // it takes a new target in the step after
    assert_eq!(tower.update(&vec![seen(1, 10)], 5_016), None);
    assert_eq!(tower.target, Some(1));
}

#[test]
fn tower_drops_a_target_that_left_its_range() {
    let mut tower = Tower { target: Some(1), ..create_tower() };
    let shot = tower.update(&vec![seen(1, 100), seen(2, 5)], 5_000);
    assert_eq!(shot, None);
    assert_eq!(tower.target, None);
    assert_eq!(tower.last_fire_time, 0);
}

#[test]
fn tower_fires_once_each_period() {
    let mut tower = create_tower();
    let hostiles = vec![seen(1, 50)];
    let mut shots = Vec::new();
    let mut now = 0;
    while now <= 3_500 {
        if tower.update(&hostiles, now) == Some(0) {
            shots.push(now);
        }
        now += 50;
    }
    assert_eq!(shots, vec![1_000, 2_000, 3_000]);
    assert_eq!(tower.target, Some(1));
    assert_eq!(tower.last_fire_time, 3_000);
}

#[test]
fn late_shot_starts_the_next_period() {
    let mut tower = Tower { target: Some(1), ..create_tower() };
    let hostiles = vec![seen(1, 50)];
    assert_eq!(tower.update(&hostiles, 999), None);
    assert_eq!(tower.update(&hostiles, 1_250), Some(0));
    assert_eq!(tower.last_fire_time, 1_250);
    assert_eq!(tower.update(&hostiles, 2_249), None);
    assert_eq!(tower.update(&hostiles, 2_250), Some(0));
    assert!(!tower.can_fire(2_250));
    assert!(!tower.can_fire(100));
    assert!(tower.can_fire(3_250));
}

#[test]
fn system_steps_every_tower_with_its_own_sightings() {
    let mut towers = vec![
        create_tower(),
        Tower { target: Some(2), ..create_tower() },
        Tower { target: Some(3), ..create_tower() },
        Tower { target: Some(2), last_fire_time: 4_500, ..create_tower() },
    ];
    let sightings = vec![
        vec![seen(2, 90), seen(3, 40)],
        vec![seen(2, 10), seen(3, 400)],
        vec![seen(2, 10), seen(3, 400)],
        vec![seen(3, 1), seen(2, 99)],
    ];
    let shots = TowerSystem.run(&mut towers, &sightings, 5_000);
    assert_eq!(shots, vec![None, Some(0), None, None]);
    assert_eq!(towers[0].target, Some(3));
    assert_eq!(towers[1].target, Some(2));
    assert_eq!(towers[1].last_fire_time, 5_000);
    assert_eq!(towers[2].target, None);
    assert_eq!(towers[3].target, Some(2));
    assert_eq!(towers[3].last_fire_time, 4_500);
    let mut none: Vec<Tower> = Vec::new();
    assert!(TowerSystem.run(&mut none, &Vec::new(), 1).is_empty());
}

#[test]
fn towers_may_stand_anywhere_but_on_rock() {
    let mut grid = TileMap::new(2, 2, TileType::Grass);
    grid.set((1, 0), TileType::Rock);
    assert!(can_build_on(&grid, (0, 0)));
    assert!(!can_build_on(&grid, (1, 0)));
    assert!(can_build_on(&grid, (5, 5)));
}

#[test]
fn tower_sites_are_grass_cells_of_the_grid() {
    assert_eq!(TOWER_SITE_DRAWS, 16);
    for _ in 0..50 {
        let (tile_map, _) = generate_map(6, 5);
        let sites = draw_tower_sites(&tile_map, TOWER_SITE_DRAWS);
        assert!(sites.len() <= 16);
        for site in sites {
            assert_eq!(tile_map.get(site), Some(TileType::Grass));
        }
    }
    let rocks = TileMap::new(3, 3, TileType::Rock);
    assert!(draw_tower_sites(&rocks, 40).is_empty());
    let grass = TileMap::new(3, 3, TileType::Grass);
    assert_eq!(draw_tower_sites(&grass, 40).len(), 40);
    assert!(draw_tower_sites(&grass, 0).is_empty());
}
