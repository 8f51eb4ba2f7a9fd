use tower_defense::enemy::{Enemy, EnemyType};
use tower_defense::projectile::{Projectile, ProjectileEffect};
use tower_defense::simulation::Simulation;
use tower_defense::spawner::create_spawner;
use tower_defense::tower::{create_tower, Sighting, Tower};

fn enemy(health: i32, value: i32) -> Enemy {
    Enemy { health, value, enemy_type: EnemyType::JumpingJelly }
}

fn bullet(damage: i32) -> Projectile {
    Projectile { effect: ProjectileEffect::Damage(damage) }
}

#[test]
fn new_simulation_is_empty() {
    let state = Simulation::new();
    assert!(state.spawners.is_empty());
    assert!(state.towers.is_empty());
    assert!(state.projectiles.is_empty());
    assert!(state.enemies.is_empty());
    assert_eq!(state.building_materials.coins(), 0);
}

#[test]
fn empty_tick_asks_for_nothing() {
    let mut state = Simulation::new();
    let commands = state.tick(&Vec::new(), &Vec::new(), 16);
    assert!(commands.spawned.is_empty());
    assert!(commands.shots.is_empty());
    assert!(commands.spent.is_empty());
    assert!(commands.reaping.removed.is_empty());
    assert_eq!(commands.reaping.coin_display, None);
}

#[test]
fn enemy_killed_by_a_hit_is_reaped_in_the_same_tick() {
    let mut state = Simulation::new();
    state.enemies = vec![enemy(100, 10), enemy(10, 25), enemy(30, 5)];
    state.projectiles = vec![bullet(10), bullet(10), bullet(3)];
    let distances = vec![vec![900, 99, 99], vec![100, 100, 0], vec![400, 400, 400]];
    let commands = state.tick(&Vec::new(), &distances, 16);
    assert_eq!(commands.spent, vec![0, 1]);
    assert_eq!(commands.reaping.removed, vec![1]);
    assert_eq!(commands.reaping.coin_display, Some(String::from("Coins: 25")));
    assert_eq!(state.enemies, vec![enemy(100, 10), enemy(20, 5)]);
    assert_eq!(state.projectiles, vec![bullet(3)]);
    assert_eq!(state.building_materials.coins(), 25);
    // nothing is paid twice
    let again = state.tick(&Vec::new(), &vec![vec![400, 400]], 32);
    assert!(again.reaping.removed.is_empty());
    assert_eq!(again.reaping.coin_display, None);
    assert_eq!(state.building_materials.coins(), 25);
}

#[test]
fn tick_steps_spawners_and_towers() {
    let mut state = Simulation::new();
    state.spawners = vec![create_spawner()];
    state.towers = vec![create_tower(), Tower { target: Some(7), ..create_tower() }];
    state.enemies = vec![enemy(100, 10)];
    let sightings = vec![
        vec![Sighting { entity: 7, distance_sq: 2_500 }],
        vec![Sighting { entity: 7, distance_sq: 2_500 }],
    ];
    let commands = state.tick(&sightings, &Vec::new(), 2_000);
    assert_eq!(commands.spawned.len(), 1);
    let fresh = commands.spawned[0].unwrap();
    assert_eq!((fresh.health, fresh.value), (100, 10));
    assert_eq!(commands.shots, vec![None, Some(0)]);
    assert_eq!(state.spawners[0].last_spawn_time, 2_000);
    assert_eq!(state.towers[0].target, Some(7));
    assert_eq!(state.towers[1].last_fire_time, 2_000);
    // what was spawned takes no part in the tick that spawned it
    assert_eq!(state.enemies, vec![enemy(100, 10)]);
    assert!(state.projectiles.is_empty());
}

#[test]
fn try_tick_takes_the_tick_where_it_can() {
    let mut state = Simulation::new();
    state.enemies = vec![enemy(5, 3)];
    state.projectiles = vec![bullet(10)];
    let commands = match state.try_tick(&Vec::new(), &vec![vec![1]], 50) {
        Some(commands) => commands,
        None => panic!("refused"),
    };
    assert_eq!(commands.spent, vec![0]);
    assert_eq!(commands.reaping.removed, vec![0]);
    assert_eq!(commands.reaping.coin_display, Some(String::from("Coins: 3")));
    assert!(state.enemies.is_empty());
    assert!(state.projectiles.is_empty());
    assert_eq!(state.building_materials.coins(), 3);
}

#[test]
fn try_tick_refuses_and_changes_nothing() {
    let mut state = Simulation::new();
    state.spawners = vec![create_spawner()];
    state.towers = vec![create_tower()];
    state.enemies = vec![enemy(5, -3)];
    state.projectiles = vec![bullet(10)];
    let seen = vec![vec![Sighting { entity: 1, distance_sq: 4 }]];
    // a tower without its sightings
    assert!(state.try_tick(&Vec::new(), &vec![vec![1]], 5_000).is_none());
    // a projectile without its distances
    assert!(state.try_tick(&seen, &Vec::new(), 5_000).is_none());
    // the hit kills an enemy whose value is a debt
    assert!(state.try_tick(&seen, &vec![vec![1]], 5_000).is_none());
    assert_eq!(state.spawners, vec![create_spawner()]);
    assert_eq!(state.towers, vec![create_tower()]);
    assert_eq!(state.enemies, vec![enemy(5, -3)]);
    assert_eq!(state.projectiles, vec![bullet(10)]);
    assert_eq!(state.building_materials.coins(), 0);
    // out of reach the enemy lives and the tick is taken
    assert!(state.try_tick(&seen, &vec![vec![100]], 5_000).is_some());
    assert_eq!(state.towers[0].target, Some(1));
    assert_eq!(state.spawners[0].last_spawn_time, 5_000);
}

#[test]
fn try_tick_refuses_a_health_that_cannot_be_held() {
    let mut state = Simulation::new();
    state.enemies = vec![enemy(i32::MIN, 1)];
    state.projectiles = vec![bullet(1)];
    assert!(state.try_tick(&Vec::new(), &vec![vec![0]], 1).is_none());
    assert_eq!(state.enemies, vec![enemy(i32::MIN, 1)]);
    assert_eq!(state.projectiles.len(), 1);
}
