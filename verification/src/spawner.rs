//! Spawners: the places that send a new enemy whenever their period has
//! gone by. Times are whole milliseconds on a clock that never runs
//! backwards.

use crate::enemy::{create_enemy, Enemy, EnemyType, ENEMY_HEALTH, ENEMY_VALUE};
use crate::random::pick_one;
use vstd::prelude::*;

verus! {

/// How long a fresh spawner waits between two enemies, in milliseconds.
pub const SPAWN_PERIOD: u64 = 2000;

/// A place that sends enemies, one every `period`.
#[derive(Copy, Clone, Debug, PartialEq, Eq)]
pub struct Spawner {
    pub period: u64,
    pub last_spawn_time: u64,
}

/// A fresh spawner: it counts its first period from time zero.
pub fn create_spawner() -> (spawner: Spawner)
    ensures
        spawner == (Spawner { period: SPAWN_PERIOD, last_spawn_time: 0 }),
{
    Spawner { period: SPAWN_PERIOD, last_spawn_time: 0 }
}

/// The kinds of enemy that a spawner draws from.
pub open spec fn spawnable() -> Seq<EnemyType> {
    seq![EnemyType::JumpingJelly, EnemyType::SlideySlime]
}

/// The kinds of enemy that a spawner draws from.
pub fn enemy_types() -> (kinds: Vec<EnemyType>)
    ensures
        kinds@ == spawnable(),
{
    let mut kinds = Vec::new();
    kinds.push(EnemyType::JumpingJelly);
    kinds.push(EnemyType::SlideySlime);
    assert(kinds@ =~= spawnable());
    kinds
}

impl Spawner {
    /// Whether an enemy is due at time `now`: at least a period has gone by
    /// since the last one.
    pub open spec fn due(&self, now: u64) -> bool {
        now - self.last_spawn_time >= self.period
    }

    /// Whether an enemy is due at time `now`.
    pub fn is_due(&self, now: u64) -> (due: bool)
        ensures
            due == self.due(now),
    {
        now >= self.last_spawn_time && now - self.last_spawn_time >= self.period
    }

    /// Sends a fresh enemy of kind `enemy_type` if one is due at
    /// `current_time`, and counts the next period from that time on.
    /// Does nothing if none is due.
    pub fn spawn(&mut self, current_time: u64, enemy_type: EnemyType) -> (spawned: Option<Enemy>)
        ensures
            old(self).due(current_time) ==> spawned == Some(
                Enemy { health: ENEMY_HEALTH, value: ENEMY_VALUE, enemy_type },
            ) && *final(self) == (Spawner { last_spawn_time: current_time, ..*old(self) }),
            !old(self).due(current_time) ==> spawned.is_none() && *final(self) == *old(self),
    {
        if self.is_due(current_time) {
            self.last_spawn_time = current_time;
            Some(create_enemy(enemy_type))
        } else {
            None
        }
    }
}

/// Whether `after` and `spawned` are what one step makes of the spawner
/// `before` at time `now`: if an enemy is due, a fresh one of some kind and
/// the time recorded; else nothing, and the spawner as it was.
pub open spec fn is_spawn_step(before: Spawner, now: u64, after: Spawner, spawned: Option<Enemy>) -> bool {
    if before.due(now) {
        &&& after == (Spawner { last_spawn_time: now, ..before })
        &&& spawned.is_some()
        &&& spawned.unwrap().health == ENEMY_HEALTH
        &&& spawned.unwrap().value == ENEMY_VALUE
        &&& spawnable().contains(spawned.unwrap().enemy_type)
    } else {
        &&& after == before
        &&& spawned.is_none()
    }
}

/// The spawning step of the simulation.
pub struct SpawnerSystem;

impl SpawnerSystem {
    /// One step of every spawner at time `current_time`. Each spawner that
    /// is due sends one enemy, of a kind drawn at random.
    ///
    /// Returns for each spawner the enemy that it sent, or `None`.
    pub fn run(&self, spawners: &mut Vec<Spawner>, current_time: u64) -> (spawned: Vec<Option<Enemy>>)
        ensures
            final(spawners)@.len() == old(spawners)@.len(),
            spawned@.len() == old(spawners)@.len(),
            forall|s: int|
                0 <= s < old(spawners)@.len() ==> is_spawn_step(
                    old(spawners)@[s],
                    current_time,
                    #[trigger] final(spawners)@[s],
                    spawned@[s],
                ),
    {
        let mut spawned: Vec<Option<Enemy>> = Vec::new();
        let mut s: usize = 0;
        while s < spawners.len()
            invariant
                s <= spawners.len(),
                spawners@.len() == old(spawners)@.len(),
                spawned@.len() == s,
                forall|k: int| s <= k < spawners@.len() ==> spawners@[k] == old(spawners)@[k],
                forall|k: int|
                    0 <= k < s ==> is_spawn_step(
                        old(spawners)@[k],
                        current_time,
                        #[trigger] spawners@[k],
                        spawned@[k],
                    ),
            decreases spawners.len() - s,
        {
            let mut spawner = spawners[s];
            if spawner.is_due(current_time) {
                let kinds = enemy_types();
                let enemy_type = pick_one(&kinds).unwrap();
                let enemy = spawner.spawn(current_time, enemy_type);
                spawners.set(s, spawner);
                spawned.push(enemy);
            } else {
                spawned.push(None);
            }
            s += 1;
        }
        spawned
    }
}

/// From a spawn on no enemy is due until a full period has gone by, and
/// then one is: the periods are counted from the time of the spawn, so that
/// lateness does not add up.
pub proof fn lemma_spawn_spacing(before: Spawner, now: u64, after: Spawner, spawned: Option<Enemy>)
    requires
        is_spawn_step(before, now, after, spawned),
        spawned.is_some(),
    ensures
        before.due(now),
        after.last_spawn_time == now,
        forall|later: u64| after.due(later) <==> later - now >= before.period,
{
}

} // verus!
