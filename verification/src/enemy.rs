//! Hostiles, the purse that their bounties go to, and the step that removes
//! the dead.

use vstd::prelude::*;

verus! {

/// Health that a fresh enemy starts with.
pub const ENEMY_HEALTH: i32 = 100;

/// Coins paid for a fresh enemy when it dies.
pub const ENEMY_VALUE: i32 = 10;

/// The kinds of enemy that spawners send.
#[derive(Copy, Clone, Debug, PartialEq, Eq, Structural)]
pub enum EnemyType {
    JumpingJelly,
    SlideySlime,
}

/// A hostile unit. Damage may take `health` below zero; an enemy whose
/// health is zero or less is dead and is removed by the next reaping.
#[derive(Copy, Clone, Debug, PartialEq, Eq, Structural)]
pub struct Enemy {
    pub health: i32,
    pub value: i32,
    pub enemy_type: EnemyType,
}

impl Enemy {
    /// Whether the enemy has no health left.
    pub open spec fn is_dead(&self) -> bool {
        self.health <= 0
    }

    /// Whether the enemy has no health left.
    pub fn dead(&self) -> (dead: bool)
        ensures
            dead == self.is_dead(),
    {
        self.health <= 0
    }
}

/// A fresh enemy of the given kind.
pub fn create_enemy(enemy_type: EnemyType) -> (enemy: Enemy)
    ensures
        enemy == (Enemy { health: ENEMY_HEALTH, value: ENEMY_VALUE, enemy_type }),
{
    Enemy { health: ENEMY_HEALTH, value: ENEMY_VALUE, enemy_type }
}

/// The player's purse: the coins earned so far. It never holds less than
/// nothing, and nothing in this crate takes coins out of it.
pub struct BuildingMaterials {
    coins: i32,
}

impl View for BuildingMaterials {
    type V = int;

    /// The number of coins in the purse.
    closed spec fn view(&self) -> int {
        self.coins as int
    }
}

impl Default for BuildingMaterials {
    /// An empty purse.
    fn default() -> (purse: Self)
        ensures
            purse@ == 0,
    {
        BuildingMaterials { coins: 0 }
    }
}

impl BuildingMaterials {
    #[verifier::type_invariant]
    closed spec fn never_in_debt(&self) -> bool {
        self.coins >= 0
    }

    /// An empty purse.
    pub fn new() -> (purse: Self)
        ensures
            purse@ == 0,
    {
        BuildingMaterials { coins: 0 }
    }

    /// The number of coins in the purse.
    pub fn coins(&self) -> (coins: i32)
        ensures
            coins == self@,
            coins >= 0,
    {
        proof {
            use_type_invariant(self);
        }
        self.coins
    }

    /// What the coin display shows for this purse.
    pub fn label(&self) -> (text: String)
        ensures
            text@ == coin_text(self@),
    {
        let mut text = String::new();
        push_char(&mut text, 'C');
        push_char(&mut text, 'o');
        push_char(&mut text, 'i');
        push_char(&mut text, 'n');
        push_char(&mut text, 's');
        push_char(&mut text, ':');
        push_char(&mut text, ' ');
        push_decimal(&mut text, self.coins() as u32);
        text
    }

    /// Adds `amount` coins to the purse.
    pub fn credit(&mut self, amount: i32)
        requires
            0 <= amount,
            old(self)@ + amount <= i32::MAX,
        ensures
            final(self)@ == old(self)@ + amount,
    {
        proof {
            use_type_invariant(&*self);
        }
        self.coins = self.coins + amount;
    }
}

/// The character of a decimal digit.
pub open spec fn digit_char(digit: int) -> char {
    if digit == 0 {
        '0'
    } else if digit == 1 {
        '1'
    } else if digit == 2 {
        '2'
    } else if digit == 3 {
        '3'
    } else if digit == 4 {
        '4'
    } else if digit == 5 {
        '5'
    } else if digit == 6 {
        '6'
    } else if digit == 7 {
        '7'
    } else if digit == 8 {
        '8'
    } else {
        '9'
    }
}

/// A number written in decimal digits, without leading zeros.
pub open spec fn decimal(number: nat) -> Seq<char>
    decreases number,
{
    if number < 10 {
        seq![digit_char(number as int)]
    } else {
        decimal(number / 10).push(digit_char((number % 10) as int))
    }
}

/// What the coin display shows for a purse of `coins` coins: the word
/// `Coins`, a colon, a space, and the number.
pub open spec fn coin_text(coins: int) -> Seq<char> {
    seq!['C', 'o', 'i', 'n', 's', ':', ' '] + decimal(coins as nat)
}

/// The character of a decimal digit.
fn digit_to_char(digit: u32) -> (c: char)
    requires
        digit < 10,
    ensures
        c == digit_char(digit as int),
{
    if digit == 0 {
        '0'
    } else if digit == 1 {
        '1'
    } else if digit == 2 {
        '2'
    } else if digit == 3 {
        '3'
    } else if digit == 4 {
        '4'
    } else if digit == 5 {
        '5'
    } else if digit == 6 {
        '6'
    } else if digit == 7 {
        '7'
    } else if digit == 8 {
        '8'
    } else {
        '9'
    }
}

/// Calls `String::push`, which appends one character to the text.
///
/// Nothing is proved of it: the contract repeats what the standard library
/// documents, that the character is added at the end.
#[verifier::external_body]
fn push_char(text: &mut String, c: char)
    ensures
        final(text)@ == old(text)@.push(c),
{
    text.push(c)
}

/// Appends the decimal digits of `number` to `text`.
fn push_decimal(text: &mut String, number: u32)
    ensures
        final(text)@ == old(text)@ + decimal(number as nat),
    decreases number,
{
    if number >= 10 {
        push_decimal(text, number / 10);
    }
    push_char(text, digit_to_char(number % 10));
    assert(text@ =~= old(text)@ + decimal(number as nat));
}

/// The predicate that an enemy is still alive.
pub open spec fn alive() -> spec_fn(Enemy) -> bool {
    |enemy: Enemy| !enemy.is_dead()
}

/// The enemies that outlive a reaping, in their old order.
pub open spec fn survivors(enemies: Seq<Enemy>) -> Seq<Enemy> {
    enemies.filter(alive())
}

/// The coins that a reaping of `enemies` pays: the values of the dead.
pub open spec fn bounty(enemies: Seq<Enemy>) -> int
    decreases enemies.len(),
{
    if enemies.len() == 0 {
        0
    } else {
        bounty(enemies.drop_last()) + if enemies.last().is_dead() {
            enemies.last().value as int
        } else {
            0
        }
    }
}

/// The positions of the dead among `enemies`, in increasing order.
pub open spec fn casualties(enemies: Seq<Enemy>) -> Seq<int>
    decreases enemies.len(),
{
    if enemies.len() == 0 {
        Seq::empty()
    } else if enemies.last().is_dead() {
        casualties(enemies.drop_last()).push(enemies.len() - 1)
    } else {
        casualties(enemies.drop_last())
    }
}

/// Whether a reaping of `enemies` pays no negative amount: no dead enemy
/// has a value below zero.
pub open spec fn pays_no_debt(enemies: Seq<Enemy>) -> bool {
    forall|i: int| 0 <= i < enemies.len() && (#[trigger] enemies[i]).is_dead() ==> enemies[i].value >= 0
}

/// What a reaping did, for the caller to carry out on its entities and its
/// display.
pub struct Reaping {
    /// The positions that the removed enemies had in the list, in
    /// increasing order.
    pub removed: Vec<usize>,
    /// The text to show on the coin display from now on, where an enemy
    /// was removed; `None` where nobody was.
    pub coin_display: Option<String>,
}

/// The reaping step of the simulation.
pub struct EnemySystem;

impl EnemySystem {
    /// Removes the dead from `enemies` and pays their values into the purse.
    /// Those left keep their order.
    pub fn run(&self, enemies: &mut Vec<Enemy>, building_materials: &mut BuildingMaterials) -> (reaping:
        Reaping)
        requires
            pays_no_debt(old(enemies)@),
            old(building_materials)@ + bounty(old(enemies)@) <= i32::MAX,
        ensures
            final(enemies)@ == survivors(old(enemies)@),
            final(building_materials)@ == old(building_materials)@ + bounty(old(enemies)@),
            final(building_materials)@ >= old(building_materials)@,
            reaping.removed@.len() == casualties(old(enemies)@).len(),
            forall|k: int|
                0 <= k < reaping.removed@.len() ==> reaping.removed@[k] == casualties(
                    old(enemies)@,
                )[k],
            reaping.removed@.len() == 0 ==> reaping.coin_display.is_none(),
            reaping.removed@.len() > 0 ==> reaping.coin_display.is_some()
                && reaping.coin_display.unwrap()@ == coin_text(final(building_materials)@),
    {
        let mut kept: Vec<Enemy> = Vec::new();
        let mut removed: Vec<usize> = Vec::new();
        let mut i: usize = 0;
        proof {
            lemma_bounty_grows(enemies@, 0);
        }
        while i < enemies.len()
            invariant
                i <= enemies.len(),
                enemies@ == old(enemies)@,
                pays_no_debt(enemies@),
                old(building_materials)@ + bounty(enemies@) <= i32::MAX,
                kept@ == survivors(enemies@.take(i as int)),
                building_materials@ == old(building_materials)@ + bounty(enemies@.take(i as int)),
                bounty(enemies@.take(i as int)) <= bounty(enemies@),
                removed@.len() == casualties(enemies@.take(i as int)).len(),
                forall|k: int|
                    0 <= k < removed@.len() ==> removed@[k] == casualties(enemies@.take(i as int))[k],
            decreases enemies.len() - i,
        {
            let enemy = enemies[i];
            proof {
                reveal(Seq::filter);
                assert(enemies@.take(i + 1).drop_last() =~= enemies@.take(i as int));
                lemma_bounty_grows(enemies@, i + 1);
            }
            if enemy.dead() {
                building_materials.credit(enemy.value);
                removed.push(i);
            } else {
                kept.push(enemy);
            }
            i += 1;
        }
        proof {
            assert(enemies@.take(enemies.len() as int) =~= enemies@);
        }
        *enemies = kept;
        let coin_display = if removed.len() > 0 {
            Some(building_materials.label())
        } else {
            None
        };
        Reaping { removed, coin_display }
    }
}

impl EnemySystem {
    /// Does what `run` does where no dead enemy has a value below zero and
    /// the purse can hold what the reaping pays. Otherwise returns `None`
    /// and changes nothing.
    pub fn try_run(&self, enemies: &mut Vec<Enemy>, building_materials: &mut BuildingMaterials) -> (reaping:
        Option<Reaping>)
        ensures
            reaping.is_some() <==> pays_no_debt(old(enemies)@) && old(building_materials)@ + bounty(
                old(enemies)@,
            ) <= i32::MAX,
            reaping.is_none() ==> final(enemies)@ == old(enemies)@ && final(building_materials)@
                == old(building_materials)@,
            reaping.is_some() ==> {
                &&& final(enemies)@ == survivors(old(enemies)@)
                &&& final(building_materials)@ == old(building_materials)@ + bounty(old(enemies)@)
                &&& final(building_materials)@ >= old(building_materials)@
                &&& reaping.unwrap().removed@.len() == casualties(old(enemies)@).len()
                &&& forall|k: int|
                    0 <= k < reaping.unwrap().removed@.len() ==> reaping.unwrap().removed@[k]
                        == casualties(old(enemies)@)[k]
                &&& reaping.unwrap().removed@.len() == 0 ==> reaping.unwrap().coin_display.is_none()
                &&& reaping.unwrap().removed@.len() > 0 ==> reaping.unwrap().coin_display.is_some()
                    && reaping.unwrap().coin_display.unwrap()@ == coin_text(
                    final(building_materials)@,
                )
            },
    {
        let mut total: i32 = building_materials.coins();
        let mut i: usize = 0;
        while i < enemies.len()
            invariant
                i <= enemies.len(),
                pays_no_debt(enemies@.take(i as int)),
                total == building_materials@ + bounty(enemies@.take(i as int)),
                0 <= building_materials@ <= total,
            decreases enemies.len() - i,
        {
            let enemy = enemies[i];
            proof {
                assert(enemies@.take(i + 1).drop_last() =~= enemies@.take(i as int));
                assert(enemies@.take(i + 1).last() == enemy);
            }
            if enemy.dead() {
                if enemy.value < 0 {
                    assert(!pays_no_debt(enemies@));
                    return None;
                }
                if enemy.value > i32::MAX - total {
                    proof {
                        if pays_no_debt(enemies@) {
                            lemma_bounty_grows(enemies@, i + 1);
                        }
                    }
                    return None;
                }
                total = total + enemy.value;
            }
            proof {
                assert forall|k: int|
                    0 <= k < i + 1 && (#[trigger] enemies@.take(i + 1)[k]).is_dead() implies enemies@.take(
                    i + 1,
                )[k].value >= 0 by {
                    if k < i {
                        assert(enemies@.take(i as int)[k].is_dead());
                    }
                }
            }
            i += 1;
        }
        assert(enemies@.take(enemies.len() as int) =~= enemies@);
        Some(self.run(enemies, building_materials))
    }
}

/// What a reaping has paid after the first `count` enemies is no more than
/// what it pays in all, where no dead enemy has a value below zero.
pub proof fn lemma_bounty_grows(enemies: Seq<Enemy>, count: int)
    requires
        pays_no_debt(enemies),
        0 <= count <= enemies.len(),
    ensures
        0 <= bounty(enemies.take(count)) <= bounty(enemies),
    decreases enemies.len() - count,
{
    if count < enemies.len() {
        lemma_bounty_grows(enemies, count + 1);
        assert(enemies.take(count + 1).drop_last() =~= enemies.take(count));
        assert(enemies.take(count + 1).last() == enemies[count]);
    } else {
        assert(enemies.take(count) =~= enemies);
    }
    lemma_bounty_of_prefix(enemies, count);
}

/// No prefix of a list that pays no debt has a negative bounty.
proof fn lemma_bounty_of_prefix(enemies: Seq<Enemy>, count: int)
    requires
        pays_no_debt(enemies),
        0 <= count <= enemies.len(),
    ensures
        0 <= bounty(enemies.take(count)),
    decreases count,
{
    if count > 0 {
        lemma_bounty_of_prefix(enemies, count - 1);
        assert(enemies.take(count).drop_last() =~= enemies.take(count - 1));
        assert(enemies.take(count).last() == enemies[count - 1]);
    }
}

/// Among the living a reaping removes nobody and pays nothing.
pub proof fn lemma_reap_living(enemies: Seq<Enemy>)
    requires
        forall|i: int| 0 <= i < enemies.len() ==> !(#[trigger] enemies[i]).is_dead(),
    ensures
        survivors(enemies) == enemies,
        bounty(enemies) == 0,
        casualties(enemies) == Seq::<int>::empty(),
    decreases enemies.len(),
{
    reveal(Seq::filter);
    if enemies.len() > 0 {
        lemma_reap_living(enemies.drop_last());
        assert(enemies.drop_last().push(enemies.last()) =~= enemies);
    }
}

/// A dead enemy is removed and paid for once: a second reaping, right after
/// the first, finds only the living, removes nobody and pays nothing.
pub proof fn lemma_reap_twice(enemies: Seq<Enemy>)
    ensures
        forall|i: int|
            0 <= i < survivors(enemies).len() ==> !(#[trigger] survivors(enemies)[i]).is_dead(),
        survivors(survivors(enemies)) == survivors(enemies),
        bounty(survivors(enemies)) == 0,
        casualties(survivors(enemies)) == Seq::<int>::empty(),
{
    let left = survivors(enemies);
    assert forall|i: int| 0 <= i < left.len() implies !(#[trigger] left[i]).is_dead() by {
        enemies.lemma_filter_pred(alive(), i);
    }
    lemma_reap_living(left);
}

/// The removed positions are those of the dead, each listed once and in
/// increasing order.
pub proof fn lemma_casualties(enemies: Seq<Enemy>)
    ensures
        forall|k: int|
            0 <= k < casualties(enemies).len() ==> 0 <= (#[trigger] casualties(enemies)[k])
                < enemies.len() && enemies[casualties(enemies)[k]].is_dead(),
        forall|i: int|
            0 <= i < enemies.len() && (#[trigger] enemies[i]).is_dead() ==> casualties(
                enemies,
            ).contains(i),
        forall|j: int, k: int|
            0 <= j < k < casualties(enemies).len() ==> casualties(enemies)[j] < casualties(
                enemies,
            )[k],
    decreases enemies.len(),
{
    if enemies.len() > 0 {
        let before = enemies.drop_last();
        let found = casualties(enemies);
        lemma_casualties(before);
        assert forall|i: int| 0 <= i < enemies.len() && (#[trigger] enemies[i]).is_dead() implies found.contains(
            i,
        ) by {
            if i < before.len() {
                assert(before[i].is_dead());
                let k = choose|k: int| 0 <= k < casualties(before).len() && casualties(before)[k] == i;
                assert(found[k] == i);
            } else {
                assert(found[found.len() - 1] == i);
            }
        }
    }
}

/// One more enemy adds its value to the bounty if it is dead, and nothing
/// if it lives.
pub proof fn lemma_bounty_push(enemies: Seq<Enemy>, enemy: Enemy)
    ensures
        bounty(enemies.push(enemy)) == bounty(enemies) + if enemy.is_dead() {
            enemy.value as int
        } else {
            0
        },
{
    assert(enemies.push(enemy).drop_last() =~= enemies);
}

} // verus!
