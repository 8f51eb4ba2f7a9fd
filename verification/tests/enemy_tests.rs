use tower_defense::enemy::{
    create_enemy, BuildingMaterials, Enemy, EnemySystem, EnemyType, ENEMY_HEALTH, ENEMY_VALUE,
};

fn enemy(health: i32, value: i32) -> Enemy {
    Enemy { health, value, enemy_type: EnemyType::JumpingJelly }
}

#[test]
fn fresh_enemy_has_full_health_and_value() {
    let jelly = create_enemy(EnemyType::JumpingJelly);
    assert_eq!(jelly, Enemy { health: 100, value: 10, enemy_type: EnemyType::JumpingJelly });
    let slime = create_enemy(EnemyType::SlideySlime);
    assert_eq!(slime.enemy_type, EnemyType::SlideySlime);
    assert_eq!(ENEMY_HEALTH, 100);
    assert_eq!(ENEMY_VALUE, 10);
    assert!(!jelly.dead());
}

#[test]
fn dead_means_no_health_left() {
    assert!(!enemy(1, 10).dead());
    assert!(enemy(0, 10).dead());
    assert!(enemy(-5, 10).dead());
    assert!(enemy(i32::MIN, 10).dead());
}

#[test]
fn purse_starts_empty_and_adds() {
    let mut purse = BuildingMaterials::new();
    assert_eq!(purse.coins(), 0);
    assert_eq!(BuildingMaterials::default().coins(), 0);
    purse.credit(10);
    purse.credit(0);
    purse.credit(32);
    assert_eq!(purse.coins(), 42);
}

#[test]
fn reaping_removes_the_dead_and_pays_their_values() {
    let mut enemies = vec![enemy(100, 10), enemy(0, 7), enemy(-20, 5), enemy(1, 3), enemy(-1, 0)];
    let mut purse = BuildingMaterials::new();
    purse.credit(100);
    let reaping = EnemySystem.run(&mut enemies, &mut purse);
    assert_eq!(reaping.removed, vec![1, 2, 4]);
    assert_eq!(reaping.coin_display, Some(String::from("Coins: 112")));
    assert_eq!(enemies, vec![enemy(100, 10), enemy(1, 3)]);
    assert_eq!(purse.coins(), 112);
}

#[test]
fn reaping_twice_pays_once() {
    let mut enemies = vec![enemy(-3, 10), enemy(50, 10)];
    let mut purse = BuildingMaterials::new();
    let first = EnemySystem.run(&mut enemies, &mut purse);
    assert_eq!(first.removed, vec![0]);
    assert_eq!(first.coin_display, Some(String::from("Coins: 10")));
    assert_eq!(purse.coins(), 10);
    let second = EnemySystem.run(&mut enemies, &mut purse);
    assert!(second.removed.is_empty());
    assert_eq!(second.coin_display, None);
    assert_eq!(purse.coins(), 10);
    assert_eq!(enemies, vec![enemy(50, 10)]);
}

#[test]
fn reaping_the_living_changes_nothing() {
    let mut enemies = vec![enemy(1, 10), enemy(100, -4)];
    let mut purse = BuildingMaterials::new();
    let reaping = EnemySystem.run(&mut enemies, &mut purse);
    assert!(reaping.removed.is_empty());
    assert_eq!(reaping.coin_display, None);
    assert_eq!(enemies.len(), 2);
    assert_eq!(purse.coins(), 0);
    let mut nobody: Vec<Enemy> = Vec::new();
    assert!(EnemySystem.run(&mut nobody, &mut purse).removed.is_empty());
}

#[test]
fn reaping_can_fill_the_purse_to_the_brim() {
    let mut enemies = vec![enemy(0, i32::MAX - 1), enemy(0, 1)];
    let mut purse = BuildingMaterials::new();
    let reaping = EnemySystem.run(&mut enemies, &mut purse);
    assert_eq!(reaping.coin_display, Some(String::from("Coins: 2147483647")));
    assert_eq!(purse.coins(), i32::MAX);
    assert!(enemies.is_empty());
}

#[test]
fn label_writes_the_coins_in_decimal() {
    let mut purse = BuildingMaterials::new();
    assert_eq!(purse.label(), "Coins: 0");
    purse.credit(7);
    assert_eq!(purse.label(), "Coins: 7");
    purse.credit(3);
    assert_eq!(purse.label(), "Coins: 10");
    purse.credit(9_090);
    assert_eq!(purse.label(), "Coins: 9100");
    purse.credit(1_000_905);
    assert_eq!(purse.label(), "Coins: 1010005");
}

#[test]
fn dead_enemy_worth_nothing_still_asks_for_the_display() {
    let mut enemies = vec![enemy(0, 0)];
    let mut purse = BuildingMaterials::new();
    let reaping = EnemySystem.run(&mut enemies, &mut purse);
    assert_eq!(reaping.removed, vec![0]);
    assert_eq!(reaping.coin_display, Some(String::from("Coins: 0")));
}

#[test]
fn try_run_refuses_a_dead_enemy_with_a_debt() {
    let mut enemies = vec![enemy(0, 5), enemy(0, -1)];
    let mut purse = BuildingMaterials::new();
    assert!(EnemySystem.try_run(&mut enemies, &mut purse).is_none());
    assert_eq!(enemies.len(), 2);
    assert_eq!(purse.coins(), 0);
}

#[test]
fn try_run_refuses_more_than_the_purse_can_hold() {
    let mut enemies = vec![enemy(0, i32::MAX), enemy(5, 1), enemy(-1, 1)];
    let mut purse = BuildingMaterials::new();
    assert!(EnemySystem.try_run(&mut enemies, &mut purse).is_none());
    assert_eq!(enemies.len(), 3);
    assert_eq!(purse.coins(), 0);
}

#[test]
fn try_run_reaps_as_run_does() {
    let mut enemies = vec![enemy(100, 10), enemy(0, 7), enemy(3, -9)];
    let mut purse = BuildingMaterials::new();
    let reaping = match EnemySystem.try_run(&mut enemies, &mut purse) {
        Some(reaping) => reaping,
        None => panic!("refused"),
    };
    assert_eq!(reaping.removed, vec![1]);
    assert_eq!(reaping.coin_display, Some(String::from("Coins: 7")));
    assert_eq!(enemies, vec![enemy(100, 10), enemy(3, -9)]);
    assert_eq!(purse.coins(), 7);
}
