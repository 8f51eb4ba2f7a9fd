//! Towers: how they find, keep and fire at a target.
//!
//! A tower sees the enemies as a list of sightings, made anew for every
//! step: who the enemy is and how far it is from the tower. Times are whole
//! milliseconds on a clock that never runs backwards.

use crate::random::random_below;
use crate::tile_map::{tile_in, TileMap, TileType};
use vstd::prelude::*;

verus! {

/// How far a fresh tower sees, in units of the playing field.
pub const TOWER_RANGE: u32 = 100;

/// How long a fresh tower waits between two shots, in milliseconds.
pub const TOWER_FIRE_PERIOD: u64 = 1000;

/// How many cells are drawn when the towers of a new game are placed.
pub const TOWER_SITE_DRAWS: usize = 16;

/// An enemy as a tower sees it in one step: the name of the entity and the
/// squared planar distance from the tower to it, in whole square units.
#[derive(Copy, Clone, Debug, PartialEq, Eq)]
pub struct Sighting {
    pub entity: u64,
    pub distance_sq: u64,
}

/// A defending unit. `target` names the enemy it is aiming at, if any.
#[derive(Copy, Clone, Debug, PartialEq, Eq)]
pub struct Tower {
    pub range: u32,
    pub fire_period: u64,
    pub last_fire_time: u64,
    pub target: Option<u64>,
}

/// A fresh tower: it has no target and has not fired.
pub fn create_tower() -> (tower: Tower)
    ensures
        tower == (Tower {
            range: TOWER_RANGE,
            fire_period: TOWER_FIRE_PERIOD,
            last_fire_time: 0,
            target: None,
        }),
{
    Tower { range: TOWER_RANGE, fire_period: TOWER_FIRE_PERIOD, last_fire_time: 0, target: None }
}

/// Whether the sighting at `at` is the nearest that `tower` reaches: it is
/// in range, no sighting in range is nearer, and those in range before it in
/// the list are farther.
pub open spec fn is_nearest(tower: Tower, hostiles: Seq<Sighting>, at: int) -> bool {
    &&& 0 <= at < hostiles.len()
    &&& tower.reaches(hostiles[at])
    &&& forall|j: int|
        0 <= j < hostiles.len() && tower.reaches(#[trigger] hostiles[j]) ==> hostiles[at].distance_sq
            <= hostiles[j].distance_sq
    &&& forall|j: int|
        0 <= j < at && tower.reaches(#[trigger] hostiles[j]) ==> hostiles[at].distance_sq
            < hostiles[j].distance_sq
}

/// Whether `tower` reaches none of the sightings.
pub open spec fn none_in_range(tower: Tower, hostiles: Seq<Sighting>) -> bool {
    forall|j: int| 0 <= j < hostiles.len() ==> !tower.reaches(#[trigger] hostiles[j])
}

/// Whether the sighting at `at` is the first of `entity` in the list.
pub open spec fn is_first_of(hostiles: Seq<Sighting>, entity: u64, at: int) -> bool {
    &&& 0 <= at < hostiles.len()
    &&& hostiles[at].entity == entity
    &&& forall|j: int| 0 <= j < at ==> (#[trigger] hostiles[j]).entity != entity
}

/// Whether `entity` is not among the sightings.
pub open spec fn is_gone(hostiles: Seq<Sighting>, entity: u64) -> bool {
    forall|j: int| 0 <= j < hostiles.len() ==> (#[trigger] hostiles[j]).entity != entity
}

/// The position of the first sighting of `entity`, if it is seen at all.
pub fn locate(hostiles: &Vec<Sighting>, entity: u64) -> (found: Option<usize>)
    ensures
        match found {
            Some(at) => is_first_of(hostiles@, entity, at as int),
            None => is_gone(hostiles@, entity),
        },
{
    let mut i: usize = 0;
    while i < hostiles.len()
        invariant
            i <= hostiles.len(),
            forall|j: int| 0 <= j < i ==> (#[trigger] hostiles@[j]).entity != entity,
        decreases hostiles.len() - i,
    {
        if hostiles[i].entity == entity {
            return Some(i);
        }
        i += 1;
    }
    None
}

/// Whether `after` and `shot` are what one step makes of the tower `before`
/// that sees `hostiles` at time `now`.
///
/// A tower without a target takes the nearest enemy in range as its target,
/// if there is one, and does not fire in that step. A tower with a target
/// drops it, without firing, if the enemy is gone or out of range. Otherwise
/// it keeps the target and, if it has reloaded, fires at it: `shot` is the
/// position of the target among the sightings, and the time of the shot is
/// recorded.
pub open spec fn is_step(
    before: Tower,
    hostiles: Seq<Sighting>,
    now: u64,
    after: Tower,
    shot: Option<usize>,
) -> bool {
    &&& after.range == before.range
    &&& after.fire_period == before.fire_period
    &&& match before.target {
        None => {
            &&& shot.is_none()
            &&& after.last_fire_time == before.last_fire_time
            &&& match after.target {
                Some(entity) => exists|at: int| #[trigger]
                    is_nearest(before, hostiles, at) && hostiles[at].entity == entity,
                None => none_in_range(before, hostiles),
            }
        },
        Some(entity) => {
            if exists|at: int| #[trigger]
                is_first_of(hostiles, entity, at) && before.reaches(hostiles[at]) {
                &&& after.target == Some(entity)
                &&& if before.reloaded(now) {
                    &&& shot.is_some()
                    &&& is_first_of(hostiles, entity, shot.unwrap() as int)
                    &&& after.last_fire_time == now
                } else {
                    &&& shot.is_none()
                    &&& after.last_fire_time == before.last_fire_time
                }
            } else {
                &&& after.target.is_none()
                &&& shot.is_none()
                &&& after.last_fire_time == before.last_fire_time
            }
        },
    }
}

impl Tower {
    /// Whether the enemy of the sighting is in range: its squared distance
    /// is below the square of the range.
    pub open spec fn reaches(&self, sighting: Sighting) -> bool {
        sighting.distance_sq < self.range * self.range
    }

    /// Whether the tower may fire at time `now`: at least a fire period has
    /// gone by since its last shot.
    pub open spec fn reloaded(&self, now: u64) -> bool {
        now - self.last_fire_time >= self.fire_period
    }

    /// Whether the enemy of the sighting is in range.
    pub fn in_range(&self, sighting: &Sighting) -> (reached: bool)
        ensures
            reached == self.reaches(*sighting),
    {
        assert(self.range * self.range <= u64::MAX) by (nonlinear_arith)
            requires
                0 <= self.range <= u32::MAX,
        ;
        sighting.distance_sq < (self.range as u64) * (self.range as u64)
    }

    /// Whether the tower may fire at time `now`.
    pub fn can_fire(&self, now: u64) -> (ready: bool)
        ensures
            ready == self.reloaded(now),
    {
        now >= self.last_fire_time && now - self.last_fire_time >= self.fire_period
    }

    /// The position of the nearest sighting in range; of those equally near,
    /// the first.
    pub fn nearest(&self, hostiles: &Vec<Sighting>) -> (found: Option<usize>)
        ensures
            match found {
                Some(at) => is_nearest(*self, hostiles@, at as int),
                None => none_in_range(*self, hostiles@),
            },
    {
        let mut closest_enemy: Option<usize> = None;
        let mut closest_len: u64 = 0;
        let mut i: usize = 0;
        while i < hostiles.len()
            invariant
                i <= hostiles.len(),
                match closest_enemy {
                    Some(at) => is_nearest(*self, hostiles@.take(i as int), at as int)
                        && closest_len == hostiles@[at as int].distance_sq,
                    None => none_in_range(*self, hostiles@.take(i as int)),
                },
            decreases hostiles.len() - i,
        {
            let sighting = hostiles[i];
            let ghost seen = hostiles@.take(i as int);
            let ghost more = hostiles@.take(i + 1);
            proof {
                assert(forall|j: int| 0 <= j < i ==> #[trigger] more[j] == seen[j]);
                assert(more[i as int] == sighting);
            }
            if self.in_range(&sighting) {
                let nearer = match closest_enemy {
                    Some(_) => sighting.distance_sq < closest_len,
                    None => true,
                };
                if nearer {
                    closest_enemy = Some(i);
                    closest_len = sighting.distance_sq;
                }
            }
            proof {
                match closest_enemy {
                    Some(at) => {
                        assert(is_nearest(*self, more, at as int));
                    },
                    None => {
                        assert(none_in_range(*self, more));
                    },
                }
            }
            i += 1;
        }
        assert(hostiles@.take(hostiles.len() as int) =~= hostiles@);
        closest_enemy
    }

    /// One step of the tower at time `current_time`, seeing `hostiles`.
    ///
    /// Returns the position among `hostiles` of the enemy to fire at, if the
    /// tower fires.
    pub fn update(&mut self, hostiles: &Vec<Sighting>, current_time: u64) -> (shot: Option<usize>)
        ensures
            is_step(*old(self), hostiles@, current_time, *final(self), shot),
    {
        match self.target {
            Some(enemy_entity) => {
                let seen = match locate(hostiles, enemy_entity) {
                    Some(at) => at,
                    None => {
                        self.target = None;
                        return None;
                    },
                };
                proof {
                    assert forall|at: int| #[trigger]
                        is_first_of(hostiles@, enemy_entity, at) implies at == seen by {
                        if at < seen {
                            assert(hostiles@[at].entity != enemy_entity);
                        }
                        if seen < at {
                            assert(hostiles@[seen as int].entity != enemy_entity);
                        }
                    }
                }
                // If the target is too far away, stop targeting it
                if !self.in_range(&hostiles[seen]) {
                    self.target = None;
                    return None;
                }
                assert(is_first_of(hostiles@, enemy_entity, seen as int));
                // Projectile firing
                if self.can_fire(current_time) {
                    self.last_fire_time = current_time;
                    Some(seen)
                } else {
                    None
                }
            },
            None => {
                // Set the closest enemy in range as target
                match self.nearest(hostiles) {
                    Some(at) => {
                        self.target = Some(hostiles[at].entity);
                    },
                    None => {},
                }
                None
            },
        }
    }
}

/// The targeting step of the simulation.
pub struct TowerSystem;

impl TowerSystem {
    /// One step of every tower at time `current_time`. `sightings[t]` is
    /// what tower `t` sees.
    ///
    /// Returns for each tower the position, among its sightings, of the
    /// enemy that it fires at, or `None` where it does not fire.
    pub fn run(&self, towers: &mut Vec<Tower>, sightings: &Vec<Vec<Sighting>>, current_time: u64) -> (shots:
        Vec<Option<usize>>)
        requires
            sightings@.len() == old(towers)@.len(),
        ensures
            final(towers)@.len() == old(towers)@.len(),
            shots@.len() == old(towers)@.len(),
            forall|t: int|
                0 <= t < old(towers)@.len() ==> is_step(
                    old(towers)@[t],
                    sightings@[t]@,
                    current_time,
                    #[trigger] final(towers)@[t],
                    shots@[t],
                ),
    {
        let mut shots: Vec<Option<usize>> = Vec::new();
        let mut t: usize = 0;
        while t < towers.len()
            invariant
                t <= towers.len(),
                towers@.len() == old(towers)@.len(),
                sightings@.len() == towers@.len(),
                shots@.len() == t,
                forall|k: int| t <= k < towers@.len() ==> towers@[k] == old(towers)@[k],
                forall|k: int|
                    0 <= k < t ==> is_step(
                        old(towers)@[k],
                        sightings@[k]@,
                        current_time,
                        #[trigger] towers@[k],
                        shots@[k],
                    ),
            decreases towers.len() - t,
        {
            let mut tower = towers[t];
            let shot = tower.update(&sightings[t], current_time);
            towers.set(t, tower);
            shots.push(shot);
            t += 1;
        }
        shots
    }
}

/// At most one sighting is the nearest in range.
pub proof fn lemma_nearest_is_unique(tower: Tower, hostiles: Seq<Sighting>, a: int, b: int)
    requires
        is_nearest(tower, hostiles, a),
        is_nearest(tower, hostiles, b),
    ensures
        a == b,
{
}

/// Of two enemies in range the nearer is the nearest, whichever comes first
/// in the list.
pub proof fn lemma_nearer_wins(tower: Tower, near: Sighting, far: Sighting)
    requires
        tower.reaches(near),
        tower.reaches(far),
        near.distance_sq < far.distance_sq,
    ensures
        is_nearest(tower, seq![near, far], 0),
        is_nearest(tower, seq![far, near], 1),
{
}

/// After a step the target of a tower, if it has one, is an enemy that it
/// sees and reaches: no tower leaves a step aiming at an enemy that is gone
/// or out of range.
pub proof fn lemma_target_is_in_range(
    before: Tower,
    hostiles: Seq<Sighting>,
    now: u64,
    after: Tower,
    shot: Option<usize>,
)
    requires
        is_step(before, hostiles, now, after, shot),
    ensures
        after.target matches Some(entity) ==> exists|at: int|
            0 <= at < hostiles.len() && (#[trigger] hostiles[at]).entity == entity && before.reaches(
                hostiles[at],
            ),
{
    if let Some(entity) = after.target {
        match before.target {
            None => {
                let at = choose|at: int| #[trigger]
                    is_nearest(before, hostiles, at) && hostiles[at].entity == entity;
                assert(hostiles[at].entity == entity && before.reaches(hostiles[at]));
            },
            Some(_) => {
                let at = choose|at: int| #[trigger]
                    is_first_of(hostiles, entity, at) && before.reaches(hostiles[at]);
                assert(hostiles[at].entity == entity && before.reaches(hostiles[at]));
            },
        }
    }
}

/// A tower without a target that has no enemy in range is after the step
/// what it was before, and does not fire.
pub proof fn lemma_idle_stays_idle(
    before: Tower,
    hostiles: Seq<Sighting>,
    now: u64,
    after: Tower,
    shot: Option<usize>,
)
    requires
        is_step(before, hostiles, now, after, shot),
        before.target.is_none(),
        none_in_range(before, hostiles),
    ensures
        after == before,
        shot.is_none(),
{
    if let Some(entity) = after.target {
        let at = choose|at: int| #[trigger]
            is_nearest(before, hostiles, at) && hostiles[at].entity == entity;
        assert(before.reaches(hostiles[at]));
    }
}

/// A tower fires only at its target, only while the target is seen and in
/// range, and only when it has reloaded. From a shot on it is not reloaded
/// until a full fire period has gone by.
pub proof fn lemma_shot(
    before: Tower,
    hostiles: Seq<Sighting>,
    now: u64,
    after: Tower,
    shot: Option<usize>,
)
    requires
        is_step(before, hostiles, now, after, shot),
        shot.is_some(),
    ensures
        0 <= shot.unwrap() < hostiles.len(),
        before.target == Some(hostiles[shot.unwrap() as int].entity),
        before.reaches(hostiles[shot.unwrap() as int]),
        before.reloaded(now),
        after.last_fire_time == now,
        forall|later: u64| after.reloaded(later) <==> later - now >= before.fire_period,
{
    let entity = before.target.unwrap();
    let at = choose|at: int| #[trigger]
        is_first_of(hostiles, entity, at) && before.reaches(hostiles[at]);
    let fired = shot.unwrap() as int;
    if at < fired {
        assert(hostiles[at].entity != entity);
    }
    if fired < at {
        assert(hostiles[fired].entity != entity);
    }
}

/// Whether a tower may stand on `coord`: not on the enemy path.
pub fn can_build_on(tile_map: &TileMap, coord: (i32, i32)) -> (free: bool)
    ensures
        free == (tile_map.tile_at((coord.0 as int, coord.1 as int)) != Some(TileType::Rock)),
{
    match tile_map.get(coord) {
        Some(TileType::Rock) => false,
        _ => true,
    }
}

/// Draws `draws` cells of the grid at random and returns those that a tower
/// may stand on, in the order drawn. A cell may come more than once.
///
/// Whatever is drawn, the result is what is left of `draws` cells of the
/// grid when those on the enemy path are taken out. So a grid without rock
/// gives a site for every draw, and a grid without grass gives none.
pub fn draw_tower_sites(tile_map: &TileMap, draws: usize) -> (sites: Vec<(i32, i32)>)
    requires
        0 < tile_map.cols(),
        0 < tile_map.rows(),
    ensures
        exists|cells: Seq<(i32, i32)>|
            is_draw_from(tile_map@, cells, draws as nat) && sites@ == #[trigger] buildable(
                tile_map@,
                cells,
            ),
        sites@.len() <= draws,
        forall|k: int|
            0 <= k < sites@.len() ==> tile_map.tile_at(
                ((#[trigger] sites@[k]).0 as int, sites@[k].1 as int),
            ) == Some(TileType::Grass),
        (forall|c: (int, int)| #[trigger] tile_in(tile_map@, c) != Some(TileType::Rock))
            ==> sites@.len() == draws,
        (forall|c: (int, int)| #[trigger] tile_in(tile_map@, c) != Some(TileType::Grass))
            ==> sites@.len() == 0,
{
    let width = tile_map.width();
    let height = tile_map.height();
    let mut sites: Vec<(i32, i32)> = Vec::new();
    let mut drawn: usize = 0;
    let ghost cells: Seq<(i32, i32)> = Seq::empty();
    proof {
        reveal(Seq::filter);
    }
    while drawn < draws
        invariant
            drawn <= draws,
            sites@.len() <= drawn,
            0 < width == tile_map.cols(),
            0 < height == tile_map.rows(),
            is_draw_from(tile_map@, cells, drawn as nat),
            sites@ == buildable(tile_map@, cells),
            forall|k: int|
                0 <= k < sites@.len() ==> tile_map.tile_at(
                    ((#[trigger] sites@[k]).0 as int, sites@[k].1 as int),
                ) == Some(TileType::Grass),
            (forall|c: (int, int)| #[trigger] tile_in(tile_map@, c) != Some(TileType::Rock))
                ==> sites@.len() == drawn,
            (forall|c: (int, int)| #[trigger] tile_in(tile_map@, c) != Some(TileType::Grass))
                ==> sites@.len() == 0,
        decreases draws - drawn,
    {
        let coord = (random_below(width), random_below(height));
        let ghost before = cells;
        proof {
            tile_map.lemma_domain();
            cells = before.push(coord);
            reveal(Seq::filter);
            assert(cells.drop_last() =~= before);
            assert(cells.last() == coord);
            assert(tile_map@.dom().contains((coord.0 as int, coord.1 as int)));
            assert(tile_in(tile_map@, (coord.0 as int, coord.1 as int)).is_some());
        }
        if can_build_on(tile_map, coord) {
            sites.push(coord);
        }
        drawn += 1;
    }
    sites
}

/// Whether `cells` is a draw of `draws` cells from the grid: as many cells
/// as draws, each of them covered by the grid.
pub open spec fn is_draw_from(grid: Map<(int, int), TileType>, cells: Seq<(i32, i32)>, draws: nat) -> bool {
    &&& cells.len() == draws
    &&& forall|k: int|
        0 <= k < cells.len() ==> grid.dom().contains(
            ((#[trigger] cells[k]).0 as int, cells[k].1 as int),
        )
}

/// The test that a tower may stand on a cell, as a predicate on the cell.
pub open spec fn is_free_on(grid: Map<(int, int), TileType>) -> spec_fn((i32, i32)) -> bool {
    |cell: (i32, i32)| tile_in(grid, (cell.0 as int, cell.1 as int)) != Some(TileType::Rock)
}

/// Those of `cells` that a tower may stand on, in their order.
pub open spec fn buildable(grid: Map<(int, int), TileType>, cells: Seq<(i32, i32)>) -> Seq<
    (i32, i32),
> {
    cells.filter(is_free_on(grid))
}

} // verus!
