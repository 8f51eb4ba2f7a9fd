//! Projectiles and the step that lets them hit enemies.
//!
//! The step works on squared planar distances, one for each pair of a
//! projectile and an enemy, in whole square units of the playing field.

use crate::enemy::Enemy;
use vstd::prelude::*;

verus! {

/// A projectile hits an enemy whose squared distance from it is below this:
/// a hit radius of ten units.
pub const HIT_RADIUS_SQ: u64 = 100;

/// Health that the projectile of a tower takes from the enemy it hits.
pub const PROJECTILE_DAMAGE: i32 = 10;

/// How the speed of a projectile changes while it flies.
#[derive(Copy, Clone, Debug, PartialEq, Eq, Structural)]
pub enum TimingFunction {
    Linear,
    EaseIn,
    EaseOut,
    EaseInOut,
}

/// What a projectile does to the enemy it hits. Only `Damage` acts; the
/// other effects are declared and leave the enemy as it is.
#[derive(Copy, Clone, Debug, PartialEq, Eq, Structural)]
pub enum ProjectileEffect {
    Damage(i32),
    DoT(i32, i32),
    Slow(i32, i32),
    Stun(i32),
    Area(i32),
    Easing(TimingFunction),
}

impl ProjectileEffect {
    /// Whether the health that the effect leaves `enemy` with can be held.
    pub open spec fn fits(self, enemy: Enemy) -> bool {
        match self {
            ProjectileEffect::Damage(damage) => i32::MIN <= enemy.health - damage <= i32::MAX,
            _ => true,
        }
    }

    /// The enemy after the effect: `Damage` takes its amount from the
    /// health, below zero too; every other effect changes nothing.
    pub open spec fn applied(self, enemy: Enemy) -> Enemy {
        match self {
            ProjectileEffect::Damage(damage) => Enemy {
                health: (enemy.health - damage) as i32,
                ..enemy
            },
            _ => enemy,
        }
    }
}

/// Something that flies in a straight line and acts on the enemy it hits.
#[derive(Copy, Clone, Debug, PartialEq, Eq, Structural)]
pub struct Projectile {
    pub effect: ProjectileEffect,
}

impl Projectile {
    /// Whether the health that the effect of the projectile leaves `enemy`
    /// with can be held.
    pub fn can_strike(&self, enemy: &Enemy) -> (fits: bool)
        ensures
            fits == self.effect.fits(*enemy),
    {
        match self.effect {
            ProjectileEffect::Damage(damage) => enemy.health.checked_sub(damage).is_some(),
            _ => true,
        }
    }

    /// Applies the effect of the projectile to `enemy`.
    pub fn strike(&self, enemy: &mut Enemy)
        requires
            self.effect.fits(*old(enemy)),
        ensures
            *final(enemy) == self.effect.applied(*old(enemy)),
    {
        match self.effect {
            ProjectileEffect::Damage(damage) => {
                enemy.health = enemy.health - damage;
            },
            ProjectileEffect::DoT(_, _) => {},
            ProjectileEffect::Slow(_, _) => {},
            ProjectileEffect::Stun(_) => {},
            ProjectileEffect::Area(_) => {},
            ProjectileEffect::Easing(_) => {},
        }
    }
}

/// The projectile that a tower fires.
pub fn create_projectile() -> (projectile: Projectile)
    ensures
        projectile == (Projectile { effect: ProjectileEffect::Damage(PROJECTILE_DAMAGE) }),
{
    Projectile { effect: ProjectileEffect::Damage(PROJECTILE_DAMAGE) }
}

/// Whether a projectile at this squared distance from an enemy hits it.
pub open spec fn in_reach(distance_sq: u64) -> bool {
    distance_sq < HIT_RADIUS_SQ
}

/// The position of the first enemy that a projectile hits, given its squared
/// distance from each enemy.
pub open spec fn first_hit(distances: Seq<u64>) -> Option<int>
    decreases distances.len(),
{
    if distances.len() == 0 {
        None
    } else {
        match first_hit(distances.drop_last()) {
            Some(j) => Some(j),
            None => if in_reach(distances.last()) {
                Some(distances.len() - 1)
            } else {
                None
            },
        }
    }
}

/// `first_hit` names an enemy in reach with none in reach before it, and
/// names none only where no enemy is in reach.
pub proof fn lemma_first_hit(distances: Seq<u64>)
    ensures
        match first_hit(distances) {
            Some(j) => 0 <= j < distances.len() && in_reach(distances[j]) && forall|i: int|
                0 <= i < j ==> !in_reach(#[trigger] distances[i]),
            None => forall|i: int| 0 <= i < distances.len() ==> !in_reach(#[trigger] distances[i]),
        },
    decreases distances.len(),
{
    if distances.len() > 0 {
        lemma_first_hit(distances.drop_last());
        match first_hit(distances.drop_last()) {
            Some(j) => {
                assert forall|i: int| 0 <= i < j implies !in_reach(#[trigger] distances[i]) by {
                    assert(distances.drop_last()[i] == distances[i]);
                }
            },
            None => {
                assert forall|i: int| 0 <= i < distances.len() - 1 implies !in_reach(
                    #[trigger] distances[i],
                ) by {
                    assert(distances.drop_last()[i] == distances[i]);
                }
            },
        }
    }
}

/// The position of the first enemy in reach, if any is.
pub fn first_in_reach(distances: &Vec<u64>) -> (found: Option<usize>)
    ensures
        match found {
            Some(j) => first_hit(distances@) == Some(j as int),
            None => first_hit(distances@).is_none(),
        },
{
    let mut i: usize = 0;
    while i < distances.len()
        invariant
            i <= distances.len(),
            forall|k: int| 0 <= k < i ==> !in_reach(#[trigger] distances@[k]),
        decreases distances.len() - i,
    {
        if distances[i] < HIT_RADIUS_SQ {
            proof {
                lemma_first_hit(distances@);
            }
            return Some(i);
        }
        i += 1;
    }
    proof {
        lemma_first_hit(distances@);
    }
    None
}

/// The squared distances as a table: a row for each projectile, holding its
/// squared distance from each enemy.
pub open spec fn table(distances: Seq<Vec<u64>>) -> Seq<Seq<u64>> {
    Seq::new(distances.len(), |p: int| distances[p]@)
}

/// Whether the table has a row for each of `projectiles` projectiles and
/// in each row an entry for each of `enemies` enemies.
pub open spec fn is_table_for(distances: Seq<Seq<u64>>, projectiles: nat, enemies: nat) -> bool {
    &&& distances.len() == projectiles
    &&& forall|p: int| 0 <= p < distances.len() ==> (#[trigger] distances[p]).len() == enemies
}

/// The enemies after the first `count` projectiles have had their turn.
/// Each projectile in turn acts on the first enemy in its reach, and on no
/// other.
pub open spec fn after_hits(
    projectiles: Seq<Projectile>,
    distances: Seq<Seq<u64>>,
    enemies: Seq<Enemy>,
    count: int,
) -> Seq<Enemy>
    decreases count,
{
    if count <= 0 {
        enemies
    } else {
        let before = after_hits(projectiles, distances, enemies, count - 1);
        match first_hit(distances[count - 1]) {
            Some(j) => before.update(j, projectiles[count - 1].effect.applied(before[j])),
            None => before,
        }
    }
}

/// Whether the health that projectile `turn` leaves its enemy with can be
/// held.
pub open spec fn hit_fits(
    projectiles: Seq<Projectile>,
    distances: Seq<Seq<u64>>,
    enemies: Seq<Enemy>,
    turn: int,
) -> bool {
    match first_hit(distances[turn]) {
        Some(j) => projectiles[turn].effect.fits(
            after_hits(projectiles, distances, enemies, turn)[j],
        ),
        None => true,
    }
}

/// Whether every hit of the step leaves a health that can be held.
pub open spec fn hits_fit(
    projectiles: Seq<Projectile>,
    distances: Seq<Seq<u64>>,
    enemies: Seq<Enemy>,
) -> bool {
    forall|turn: int|
        0 <= turn < projectiles.len() ==> #[trigger] hit_fits(projectiles, distances, enemies, turn)
}

/// Those of the first `count` projectiles that hit nothing, in their order.
pub open spec fn in_flight(projectiles: Seq<Projectile>, distances: Seq<Seq<u64>>, count: int) -> Seq<
    Projectile,
>
    decreases count,
{
    if count <= 0 {
        Seq::empty()
    } else if first_hit(distances[count - 1]).is_none() {
        in_flight(projectiles, distances, count - 1).push(projectiles[count - 1])
    } else {
        in_flight(projectiles, distances, count - 1)
    }
}

/// The positions of those of the first `count` projectiles that hit an
/// enemy, in increasing order.
pub open spec fn spent(distances: Seq<Seq<u64>>, count: int) -> Seq<int>
    decreases count,
{
    if count <= 0 {
        Seq::empty()
    } else if first_hit(distances[count - 1]).is_some() {
        spent(distances, count - 1).push(count - 1)
    } else {
        spent(distances, count - 1)
    }
}

/// Whether the table has a row for each of `projectiles` projectiles and
/// in each row an entry for each of `enemies` enemies.
pub fn is_table(distances: &Vec<Vec<u64>>, projectiles: usize, enemies: usize) -> (fitting: bool)
    ensures
        fitting == is_table_for(table(distances@), projectiles as nat, enemies as nat),
{
    if distances.len() != projectiles {
        return false;
    }
    let mut p: usize = 0;
    while p < distances.len()
        invariant
            p <= distances.len(),
            distances@.len() == projectiles,
            forall|k: int| 0 <= k < p ==> (#[trigger] table(distances@)[k]).len() == enemies,
        decreases distances.len() - p,
    {
        if distances[p].len() != enemies {
            assert(table(distances@)[p as int].len() != enemies);
            return false;
        }
        p += 1;
    }
    true
}

/// The hits leave as many enemies as there were.
pub proof fn lemma_after_hits_len(
    projectiles: Seq<Projectile>,
    distances: Seq<Seq<u64>>,
    enemies: Seq<Enemy>,
    count: int,
)
    requires
        is_table_for(distances, projectiles.len(), enemies.len()),
        count <= projectiles.len(),
    ensures
        after_hits(projectiles, distances, enemies, count).len() == enemies.len(),
    decreases count,
{
    if count > 0 {
        lemma_after_hits_len(projectiles, distances, enemies, count - 1);
        lemma_first_hit(distances[count - 1]);
    }
}

/// The step of the simulation that resolves hits.
pub struct ProjectileSystem;

impl ProjectileSystem {
    /// Lets each projectile, in the order of the list, act on the first
    /// enemy within its reach, and removes the projectiles that hit.
    ///
    /// `distances[p][e]` is the squared distance between projectile `p` and
    /// enemy `e`. Returns the positions that the removed projectiles had in
    /// the list, in increasing order. Those left keep their order.
    pub fn run(
        &self,
        projectiles: &mut Vec<Projectile>,
        enemies: &mut Vec<Enemy>,
        distances: &Vec<Vec<u64>>,
    ) -> (removed: Vec<usize>)
        requires
            is_table_for(table(distances@), old(projectiles)@.len(), old(enemies)@.len()),
            hits_fit(old(projectiles)@, table(distances@), old(enemies)@),
        ensures
            final(enemies)@ == after_hits(
                old(projectiles)@,
                table(distances@),
                old(enemies)@,
                old(projectiles)@.len() as int,
            ),
            final(projectiles)@ == in_flight(
                old(projectiles)@,
                table(distances@),
                old(projectiles)@.len() as int,
            ),
            removed@.len() == spent(table(distances@), old(projectiles)@.len() as int).len(),
            forall|k: int|
                0 <= k < removed@.len() ==> removed@[k] == spent(
                    table(distances@),
                    old(projectiles)@.len() as int,
                )[k],
    {
        let ghost rows = table(distances@);
        let ghost before = enemies@;
        let mut kept: Vec<Projectile> = Vec::new();
        let mut removed: Vec<usize> = Vec::new();
        let mut p: usize = 0;
        while p < projectiles.len()
            invariant
                p <= projectiles.len(),
                projectiles@ == old(projectiles)@,
                before == old(enemies)@,
                rows == table(distances@),
                is_table_for(rows, projectiles@.len(), before.len()),
                hits_fit(projectiles@, rows, before),
                enemies@ == after_hits(projectiles@, rows, before, p as int),
                enemies@.len() == before.len(),
                kept@ == in_flight(projectiles@, rows, p as int),
                removed@.len() == spent(rows, p as int).len(),
                forall|k: int| 0 <= k < removed@.len() ==> removed@[k] == spent(rows, p as int)[k],
            decreases projectiles.len() - p,
        {
            let projectile = projectiles[p];
            proof {
                assert(rows[p as int] == distances@[p as int]@);
                lemma_first_hit(rows[p as int]);
                assert(hit_fits(projectiles@, rows, before, p as int));
            }
            match first_in_reach(&distances[p]) {
                Some(j) => {
                    let mut enemy = enemies[j];
                    projectile.strike(&mut enemy);
                    enemies.set(j, enemy);
                    removed.push(p);
                },
                None => {
                    kept.push(projectile);
                },
            }
            p += 1;
        }
        *projectiles = kept;
        removed
    }
}

impl ProjectileSystem {
    /// Does what `run` does where the table fits the two lists and every
    /// hit leaves a health that can be held. Otherwise returns `None` and
    /// changes nothing.
    pub fn try_run(
        &self,
        projectiles: &mut Vec<Projectile>,
        enemies: &mut Vec<Enemy>,
        distances: &Vec<Vec<u64>>,
    ) -> (removed: Option<Vec<usize>>)
        ensures
            removed.is_some() <==> is_table_for(
                table(distances@),
                old(projectiles)@.len(),
                old(enemies)@.len(),
            ) && hits_fit(old(projectiles)@, table(distances@), old(enemies)@),
            removed.is_none() ==> final(projectiles)@ == old(projectiles)@ && final(enemies)@ == old(
                enemies,
            )@,
            removed.is_some() ==> {
                &&& final(enemies)@ == after_hits(
                    old(projectiles)@,
                    table(distances@),
                    old(enemies)@,
                    old(projectiles)@.len() as int,
                )
                &&& final(projectiles)@ == in_flight(
                    old(projectiles)@,
                    table(distances@),
                    old(projectiles)@.len() as int,
                )
                &&& removed.unwrap()@.len() == spent(
                    table(distances@),
                    old(projectiles)@.len() as int,
                ).len()
                &&& forall|k: int|
                    0 <= k < removed.unwrap()@.len() ==> removed.unwrap()@[k] == spent(
                        table(distances@),
                        old(projectiles)@.len() as int,
                    )[k]
            },
    {
        if !is_table(distances, projectiles.len(), enemies.len()) {
            return None;
        }
        let ghost rows = table(distances@);
        let mut trial: Vec<Enemy> = Vec::new();
        let mut e: usize = 0;
        while e < enemies.len()
            invariant
                e <= enemies.len(),
                trial@ == enemies@.take(e as int),
            decreases enemies.len() - e,
        {
            trial.push(enemies[e]);
            assert(enemies@.take(e + 1) =~= enemies@.take(e as int).push(enemies@[e as int]));
            e += 1;
        }
        assert(enemies@.take(enemies.len() as int) =~= enemies@);
        let mut p: usize = 0;
        while p < projectiles.len()
            invariant
                p <= projectiles.len(),
                rows == table(distances@),
                is_table_for(rows, projectiles@.len(), enemies@.len()),
                trial@ == after_hits(projectiles@, rows, enemies@, p as int),
                trial@.len() == enemies@.len(),
                forall|turn: int| 0 <= turn < p ==> #[trigger] hit_fits(projectiles@, rows, enemies@, turn),
            decreases projectiles.len() - p,
        {
            let projectile = projectiles[p];
            proof {
                assert(rows[p as int] == distances@[p as int]@);
                lemma_first_hit(rows[p as int]);
            }
            match first_in_reach(&distances[p]) {
                Some(j) => {
                    let mut enemy = trial[j];
                    if !projectile.can_strike(&enemy) {
                        assert(!hit_fits(projectiles@, rows, enemies@, p as int));
                        return None;
                    }
                    projectile.strike(&mut enemy);
                    trial.set(j, enemy);
                },
                None => {},
            }
            assert(hit_fits(projectiles@, rows, enemies@, p as int));
            p += 1;
        }
        Some(self.run(projectiles, enemies, distances))
    }
}

/// `Damage` lowers the health by exactly its amount and touches nothing
/// else; every other effect leaves the enemy as it is.
pub proof fn lemma_effect(effect: ProjectileEffect, enemy: Enemy)
    requires
        effect.fits(enemy),
    ensures
        effect.applied(enemy).value == enemy.value,
        effect.applied(enemy).enemy_type == enemy.enemy_type,
        effect matches ProjectileEffect::Damage(damage) ==> effect.applied(enemy).health
            == enemy.health - damage,
        !(effect is Damage) ==> effect.applied(enemy) == enemy,
{
}

/// One projectile and one enemy: within the hit radius the enemy takes the
/// effect and the projectile is gone; at the radius or beyond it nothing
/// happens to either.
pub proof fn lemma_single_pair(projectile: Projectile, enemy: Enemy, distance_sq: u64)
    ensures
        distance_sq < HIT_RADIUS_SQ ==> after_hits(
            seq![projectile],
            seq![seq![distance_sq]],
            seq![enemy],
            1,
        ) == seq![projectile.effect.applied(enemy)] && in_flight(
            seq![projectile],
            seq![seq![distance_sq]],
            1,
        ) == Seq::<Projectile>::empty() && spent(seq![seq![distance_sq]], 1) == seq![0int],
        distance_sq >= HIT_RADIUS_SQ ==> after_hits(
            seq![projectile],
            seq![seq![distance_sq]],
            seq![enemy],
            1,
        ) == seq![enemy] && in_flight(seq![projectile], seq![seq![distance_sq]], 1)
            == seq![projectile] && spent(seq![seq![distance_sq]], 1) == Seq::<int>::empty(),
{
    let row = seq![distance_sq];
    reveal_with_fuel(first_hit, 2);
    reveal_with_fuel(after_hits, 2);
    reveal_with_fuel(in_flight, 2);
    reveal_with_fuel(spent, 2);
    assert(row.drop_last() =~= Seq::<u64>::empty());
    assert(row.last() == distance_sq);
    assert(seq![seq![distance_sq]][0] == row);
    if distance_sq < HIT_RADIUS_SQ {
        assert(first_hit(row) == Some(0int));
        assert(seq![enemy].update(0, projectile.effect.applied(enemy)) =~= seq![
            projectile.effect.applied(enemy),
        ]);
        assert(Seq::<int>::empty().push(0) =~= seq![0int]);
    } else {
        assert(first_hit(row).is_none());
        assert(Seq::<Projectile>::empty().push(projectile) =~= seq![projectile]);
    }
}

/// An enemy that is the first in reach of none of the first `count`
/// projectiles is after their turns what it was before.
pub proof fn lemma_untouched(
    projectiles: Seq<Projectile>,
    distances: Seq<Seq<u64>>,
    enemies: Seq<Enemy>,
    count: int,
    enemy: int,
)
    requires
        is_table_for(distances, projectiles.len(), enemies.len()),
        count <= projectiles.len(),
        0 <= enemy < enemies.len(),
        forall|turn: int| 0 <= turn < count ==> first_hit(#[trigger] distances[turn]) != Some(enemy),
    ensures
        after_hits(projectiles, distances, enemies, count)[enemy] == enemies[enemy],
    decreases count,
{
    if count > 0 {
        lemma_untouched(projectiles, distances, enemies, count - 1, enemy);
        lemma_after_hits_len(projectiles, distances, enemies, count - 1);
        lemma_first_hit(distances[count - 1]);
    }
}

} // verus!
