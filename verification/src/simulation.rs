//! One tick of the simulation: the steps of the spawners, the towers, the
//! projectiles and the reaper, in that order, on one state.
//!
//! What a step creates does not take part in the tick that created it, and
//! what a step removes is gone for the steps after it. The caller moves
//! everything before the tick, measures the distances, and carries out the
//! commands that the tick returns before the next one begins.

use crate::enemy::{
    bounty, casualties, coin_text, lemma_casualties, lemma_reap_twice, pays_no_debt, survivors,
    BuildingMaterials, Enemy, EnemySystem, Reaping,
};
use crate::projectile::{
    after_hits, hits_fit, in_flight, is_table_for, spent, table, Projectile, ProjectileSystem,
};
use crate::spawner::{is_spawn_step, Spawner, SpawnerSystem};
use crate::tower::{is_step, Sighting, Tower, TowerSystem};
use vstd::prelude::*;

verus! {

/// Everything that a tick reads and changes.
pub struct Simulation {
    pub spawners: Vec<Spawner>,
    pub towers: Vec<Tower>,
    pub projectiles: Vec<Projectile>,
    pub enemies: Vec<Enemy>,
    pub building_materials: BuildingMaterials,
}

/// What a tick asks of the caller. Positions count in the lists as they
/// were when the tick began.
pub struct Commands {
    /// For each spawner, the enemy to create where it stands, if any.
    pub spawned: Vec<Option<Enemy>>,
    /// For each tower, the position among its sightings of the enemy to
    /// fire a projectile at, if any.
    pub shots: Vec<Option<usize>>,
    /// The positions of the projectiles to destroy.
    pub spent: Vec<usize>,
    /// The positions of the enemies to destroy, and the text for the coin
    /// display.
    pub reaping: Reaping,
}

/// The enemies after the projectiles of the state have had their turn.
pub open spec fn struck(state: Simulation, distances: Seq<Vec<u64>>) -> Seq<Enemy> {
    after_hits(
        state.projectiles@,
        table(distances),
        state.enemies@,
        state.projectiles@.len() as int,
    )
}

/// Whether a tick can be taken: every tower has its sightings, every pair of
/// a projectile and an enemy its distance, every hit leaves a health that
/// can be held, no enemy that is dead after the hits has a value below zero,
/// and the purse can hold what the dead pay.
pub open spec fn is_ready(
    state: Simulation,
    sightings: Seq<Vec<Sighting>>,
    distances: Seq<Vec<u64>>,
) -> bool {
    &&& sightings.len() == state.towers@.len()
    &&& is_table_for(table(distances), state.projectiles@.len(), state.enemies@.len())
    &&& hits_fit(state.projectiles@, table(distances), state.enemies@)
    &&& pays_no_debt(struck(state, distances))
    &&& state.building_materials@ + bounty(struck(state, distances)) <= i32::MAX
}

/// Whether `after` and `commands` are what one tick at time `now` makes of
/// the state `before`.
///
/// Every spawner and every tower takes its step. Then each projectile acts
/// on the first enemy in its reach and is removed if it found one. Then the
/// enemies that are dead after those hits are removed and paid for.
pub open spec fn is_tick(
    before: Simulation,
    sightings: Seq<Vec<Sighting>>,
    distances: Seq<Vec<u64>>,
    now: u64,
    after: Simulation,
    commands: Commands,
) -> bool {
    &&& after.spawners@.len() == before.spawners@.len()
    &&& commands.spawned@.len() == before.spawners@.len()
    &&& forall|s: int|
        0 <= s < before.spawners@.len() ==> is_spawn_step(
            before.spawners@[s],
            now,
            #[trigger] after.spawners@[s],
            commands.spawned@[s],
        )
    &&& after.towers@.len() == before.towers@.len()
    &&& commands.shots@.len() == before.towers@.len()
    &&& forall|t: int|
        0 <= t < before.towers@.len() ==> is_step(
            before.towers@[t],
            sightings[t]@,
            now,
            #[trigger] after.towers@[t],
            commands.shots@[t],
        )
    &&& after.projectiles@ == in_flight(
        before.projectiles@,
        table(distances),
        before.projectiles@.len() as int,
    )
    &&& commands.spent@.len() == spent(table(distances), before.projectiles@.len() as int).len()
    &&& forall|k: int|
        0 <= k < commands.spent@.len() ==> commands.spent@[k] == spent(
            table(distances),
            before.projectiles@.len() as int,
        )[k]
    &&& after.enemies@ == survivors(struck(before, distances))
    &&& after.building_materials@ == before.building_materials@ + bounty(struck(before, distances))
    &&& commands.reaping.removed@.len() == casualties(struck(before, distances)).len()
    &&& forall|k: int|
        0 <= k < commands.reaping.removed@.len() ==> commands.reaping.removed@[k] == casualties(
            struck(before, distances),
        )[k]
    &&& commands.reaping.removed@.len() == 0 ==> commands.reaping.coin_display.is_none()
    &&& commands.reaping.removed@.len() > 0 ==> commands.reaping.coin_display.is_some()
        && commands.reaping.coin_display.unwrap()@ == coin_text(after.building_materials@)
}

/// A copy of the list.
fn copy_of<T: Copy>(items: &Vec<T>) -> (copy: Vec<T>)
    ensures
        copy@ == items@,
{
    let mut copy: Vec<T> = Vec::new();
    let mut i: usize = 0;
    while i < items.len()
        invariant
            i <= items.len(),
            copy@ == items@.take(i as int),
        decreases items.len() - i,
    {
        copy.push(items[i]);
        assert(items@.take(i + 1) =~= items@.take(i as int).push(items@[i as int]));
        i += 1;
    }
    assert(items@.take(items.len() as int) =~= items@);
    copy
}

impl Simulation {
    /// A simulation with nothing in it and an empty purse.
    pub fn new() -> (state: Self)
        ensures
            state.spawners@.len() == 0,
            state.towers@.len() == 0,
            state.projectiles@.len() == 0,
            state.enemies@.len() == 0,
            state.building_materials@ == 0,
    {
        Simulation {
            spawners: Vec::new(),
            towers: Vec::new(),
            projectiles: Vec::new(),
            enemies: Vec::new(),
            building_materials: BuildingMaterials::new(),
        }
    }

    /// Takes one tick at time `current_time`.
    ///
    /// `sightings[t]` is what tower `t` sees, and `distances[p][e]` is the
    /// squared distance between projectile `p` and enemy `e`.
    pub fn tick(
        &mut self,
        sightings: &Vec<Vec<Sighting>>,
        distances: &Vec<Vec<u64>>,
        current_time: u64,
    ) -> (commands: Commands)
        requires
            is_ready(*old(self), sightings@, distances@),
        ensures
            is_tick(*old(self), sightings@, distances@, current_time, *final(self), commands),
    {
        let spawned = SpawnerSystem.run(&mut self.spawners, current_time);
        let shots = TowerSystem.run(&mut self.towers, sightings, current_time);
        let spent = ProjectileSystem.run(&mut self.projectiles, &mut self.enemies, distances);
        let reaping = EnemySystem.run(&mut self.enemies, &mut self.building_materials);
        Commands { spawned, shots, spent, reaping }
    }

    /// Takes one tick at time `current_time` where one can be taken.
    /// Otherwise returns `None` and changes nothing.
    pub fn try_tick(
        &mut self,
        sightings: &Vec<Vec<Sighting>>,
        distances: &Vec<Vec<u64>>,
        current_time: u64,
    ) -> (commands: Option<Commands>)
        ensures
            commands.is_some() <==> is_ready(*old(self), sightings@, distances@),
            commands.is_some() ==> is_tick(
                *old(self),
                sightings@,
                distances@,
                current_time,
                *final(self),
                commands.unwrap(),
            ),
            commands.is_none() ==> {
                &&& final(self).spawners@ == old(self).spawners@
                &&& final(self).towers@ == old(self).towers@
                &&& final(self).projectiles@ == old(self).projectiles@
                &&& final(self).enemies@ == old(self).enemies@
                &&& final(self).building_materials@ == old(self).building_materials@
            },
    {
        if sightings.len() != self.towers.len() {
            return None;
        }
        let mut projectiles = copy_of(&self.projectiles);
        let mut enemies = copy_of(&self.enemies);
        let spent = match ProjectileSystem.try_run(&mut projectiles, &mut enemies, distances) {
            Some(spent) => spent,
            None => {
                return None;
            },
        };
        let reaping = match EnemySystem.try_run(&mut enemies, &mut self.building_materials) {
            Some(reaping) => reaping,
            None => {
                return None;
            },
        };
        let spawned = SpawnerSystem.run(&mut self.spawners, current_time);
        let shots = TowerSystem.run(&mut self.towers, sightings, current_time);
        self.projectiles = projectiles;
        self.enemies = enemies;
        Some(Commands { spawned, shots, spent, reaping })
    }
}

/// An enemy that the hits of a tick leave dead is removed in that same
/// tick, and nobody that is dead is left after a tick.
pub proof fn lemma_killed_is_reaped(
    before: Simulation,
    sightings: Seq<Vec<Sighting>>,
    distances: Seq<Vec<u64>>,
    now: u64,
    after: Simulation,
    commands: Commands,
)
    requires
        is_tick(before, sightings, distances, now, after, commands),
    ensures
        forall|e: int|
            0 <= e < struck(before, distances).len() && (#[trigger] struck(
                before,
                distances,
            )[e]).is_dead() ==> exists|k: int|
                0 <= k < commands.reaping.removed@.len() && #[trigger] commands.reaping.removed@[k]
                    == e,
        forall|i: int| 0 <= i < after.enemies@.len() ==> !(#[trigger] after.enemies@[i]).is_dead(),
        after.building_materials@ - before.building_materials@ == bounty(struck(before, distances)),
{
    let hit = struck(before, distances);
    lemma_casualties(hit);
    lemma_reap_twice(hit);
    assert forall|e: int| 0 <= e < hit.len() && (#[trigger] hit[e]).is_dead() implies exists|k: int|
        0 <= k < commands.reaping.removed@.len() && #[trigger] commands.reaping.removed@[k] == e by {
        assert(casualties(hit).contains(e));
        let k = choose|k: int| 0 <= k < casualties(hit).len() && casualties(hit)[k] == e;
        assert(commands.reaping.removed@[k] == e);
    }
}

} // verus!
