use tower_defense::enemy::{Enemy, EnemyType};
use tower_defense::spawner::{create_spawner, enemy_types, Spawner, SpawnerSystem, SPAWN_PERIOD};

#[test]
fn fresh_spawner_waits_two_seconds() {
    assert_eq!(create_spawner(), Spawner { period: 2000, last_spawn_time: 0 });
    assert_eq!(SPAWN_PERIOD, 2000);
    assert_eq!(enemy_types(), vec![EnemyType::JumpingJelly, EnemyType::SlideySlime]);
}

#[test]
fn due_after_a_full_period() {
    let spawner = Spawner { period: 2000, last_spawn_time: 500 };
    assert!(!spawner.is_due(0));
    assert!(!spawner.is_due(500));
    assert!(!spawner.is_due(2_499));
    assert!(spawner.is_due(2_500));
    assert!(spawner.is_due(u64::MAX));
}

#[test]
fn spawn_sends_a_fresh_enemy_of_the_kind_given() {
    let mut spawner = create_spawner();
    assert_eq!(spawner.spawn(1_999, EnemyType::SlideySlime), None);
    assert_eq!(spawner, create_spawner());
    assert_eq!(
        spawner.spawn(2_345, EnemyType::SlideySlime),
        Some(Enemy { health: 100, value: 10, enemy_type: EnemyType::SlideySlime })
    );
    assert_eq!(spawner, Spawner { period: 2000, last_spawn_time: 2_345 });
    assert_eq!(spawner.spawn(4_344, EnemyType::JumpingJelly), None);
    assert_eq!(
        spawner.spawn(4_345, EnemyType::JumpingJelly),
        Some(Enemy { health: 100, value: 10, enemy_type: EnemyType::JumpingJelly })
    );
}

#[test]
fn one_spawn_while_the_clock_goes_to_two_seconds_and_a_tenth() {
    let mut spawners = vec![create_spawner()];
    let mut spawned = 0;
    for now in [0, 2_000, 2_100] {
        for enemy in SpawnerSystem.run(&mut spawners, now) {
            if enemy.is_some() {
                spawned += 1;
            }
        }
    }
    assert_eq!(spawned, 1);
    assert_eq!(spawners[0].last_spawn_time, 2_000);
}

#[test]
fn system_steps_every_spawner() {
    let mut spawners = vec![
        Spawner { period: 2000, last_spawn_time: 0 },
        Spawner { period: 2000, last_spawn_time: 3_001 },
        Spawner { period: 10, last_spawn_time: 4_990 },
    ];
    let spawned = SpawnerSystem.run(&mut spawners, 5_000);
    assert_eq!(spawned.len(), 3);
    let first = spawned[0].unwrap();
    assert_eq!((first.health, first.value), (100, 10));
    assert_eq!(spawned[1], None);
    assert!(spawned[2].is_some());
    assert_eq!(spawners[0].last_spawn_time, 5_000);
    assert_eq!(spawners[1].last_spawn_time, 3_001);
    assert_eq!(spawners[2].last_spawn_time, 5_000);
    assert!(SpawnerSystem.run(&mut Vec::new(), 5_000).is_empty());
}

#[test]
fn both_kinds_of_enemy_are_sent() {
    let mut spawners = vec![Spawner { period: 1, last_spawn_time: 0 }];
    let mut jellies = 0;
    let mut slimes = 0;
    for now in 1..=400u64 {
        match SpawnerSystem.run(&mut spawners, now)[0] {
            Some(Enemy { enemy_type: EnemyType::JumpingJelly, .. }) => jellies += 1,
            Some(Enemy { enemy_type: EnemyType::SlideySlime, .. }) => slimes += 1,
            None => panic!("no enemy at {}", now),
        }
    }
    assert_eq!(jellies + slimes, 400);
    assert!(jellies > 0);
    assert!(slimes > 0);
}
