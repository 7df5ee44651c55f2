//! Items and the heal/damage capability they act through.
use crate::chance::roll;
use vstd::prelude::*;

verus! {

/// A magnitude carried by an item action.
pub type Value = i32;

/// What an item does with one of its magnitudes.
#[derive(Debug, Clone, Copy, PartialEq, Eq, Hash, Structural)]
pub enum Action {
    Heal,
    Damage,
    Nothing,
}

/// The category of an item.
#[derive(Debug, Clone, Copy, PartialEq, Eq, Structural)]
pub enum ItemType {
    Melee,
    Ranged,
    Ingredient,
    HealPotion,
    EnhancePotion,
}

/// An entity whose hit points items can raise or lower.
pub trait EditableEntity {
    /// The entity's hit points.
    spec fn health(&self) -> int;

    /// `other` agrees with `self` on everything but the hit points.
    spec fn same_except_health(&self, other: &Self) -> bool;

    fn heal(&mut self, value: &Value)
        requires
            i32::MIN <= old(self).health() + *value <= i32::MAX,
        ensures
            final(self).health() == old(self).health() + *value,
            old(self).same_except_health(final(self)),
    ;

    fn damage(&mut self, value: &Value)
        requires
            i32::MIN <= old(self).health() - *value <= i32::MAX,
        ensures
            final(self).health() == old(self).health() - *value,
            old(self).same_except_health(final(self)),
    ;
}

/// The magnitude that the last pair naming `a` gives, if any pair does.
pub open spec fn last_value(s: Seq<(Action, Value)>, a: Action) -> Option<Value>
    decreases s.len(),
{
    if s.len() == 0 {
        None
    } else if s.last().0 == a {
        Some(s.last().1)
    } else {
        last_value(s.drop_last(), a)
    }
}

/// The amount an optional magnitude adds up to.
pub open spec fn amount(v: Option<Value>) -> int {
    match v {
        Some(x) => x as int,
        None => 0,
    }
}

/// The five sword names, by roll.
pub open spec fn sword_name(pick: int) -> Seq<char> {
    if pick == 0 {
        "Wooden Sword"@
    } else if pick == 1 {
        "Copper Sword"@
    } else if pick == 2 {
        "Iron Sword"@
    } else if pick == 3 {
        "Magic Sword"@
    } else {
        "Sword Of Destiny"@
    }
}

/// `r` is the item that category roll `kind`, name roll `name_pick` and
/// `magnitude` describe: category 0 is a sword named by `name_pick`, 1 an
/// ingredient, 2 a heal potion; swords and potions carry `magnitude` as damage.
pub open spec fn rolled_as(r: Item, kind: int, name_pick: int, magnitude: int) -> bool {
    &&& kind == 0 ==> r.kind() == ItemType::Melee && r.name_view() == sword_name(name_pick)
    &&& kind == 1 ==> r.kind() == ItemType::Ingredient && r.name_view() == "Random Ingridient"@
    &&& kind == 2 ==> r.kind() == ItemType::HealPotion && r.name_view() == "Heal Potion"@
    &&& r.effect(Action::Heal).is_none()
    &&& r.effect(Action::Nothing).is_none()
    &&& r.effect(Action::Damage) == if kind == 1 {
        None
    } else {
        Some(magnitude as i32)
    }
}

/// A random loot item: the item of some category roll in `0..3`, name roll in
/// `0..5` and magnitude in `0..30`.
pub open spec fn loot_shape(r: Item) -> bool {
    exists|kind: int, name_pick: int, magnitude: int|
        0 <= kind < 3 && 0 <= name_pick < 5 && 0 <= magnitude < 30 && #[trigger] rolled_as(
            r,
            kind,
            name_pick,
            magnitude,
        )
}

/// An immutable item: a name, a category and at most one magnitude per action.
#[derive(Debug, Clone)]
pub struct Item {
    name: String,
    ty: ItemType,
    heal: Option<Value>,
    damage: Option<Value>,
    idle: Option<Value>,
}

impl Item {
    pub closed spec fn name_view(&self) -> Seq<char> {
        self.name@
    }

    pub closed spec fn kind(&self) -> ItemType {
        self.ty
    }

    /// The magnitude the item holds for action `a`.
    pub closed spec fn effect(&self, a: Action) -> Option<Value> {
        match a {
            Action::Heal => self.heal,
            Action::Damage => self.damage,
            Action::Nothing => self.idle,
        }
    }

    /// An item whose action table is `actions`; a later pair for the same
    /// action replaces an earlier one.
    pub fn new(name: String, ty: ItemType, actions: Vec<(Action, Value)>) -> (r: Item)
        ensures
            r.name_view() == name@,
            r.kind() == ty,
            forall|a: Action| #[trigger] r.effect(a) == last_value(actions@, a),
    {
        let mut heal: Option<Value> = None;
        let mut damage: Option<Value> = None;
        let mut idle: Option<Value> = None;
        let mut i: usize = 0;
        while i < actions.len()
            invariant
                i <= actions@.len(),
                heal == last_value(actions@.take(i as int), Action::Heal),
                damage == last_value(actions@.take(i as int), Action::Damage),
                idle == last_value(actions@.take(i as int), Action::Nothing),
            decreases actions@.len() - i,
        {
            let (a, v) = actions[i];
            assert(actions@.take(i + 1).drop_last() == actions@.take(i as int));
            match a {
                Action::Heal => heal = Some(v),
                Action::Damage => damage = Some(v),
                Action::Nothing => idle = Some(v),
            }
            i = i + 1;
        }
        assert(actions@.take(actions@.len() as int) == actions@);
        Item { name, ty, heal, damage, idle }
    }

    pub fn name(&self) -> (r: &String)
        ensures
            r@ == self.name_view(),
    {
        &self.name
    }

    pub fn item_type(&self) -> (r: ItemType)
        ensures
            r == self.kind(),
    {
        self.ty
    }

    /// The magnitude for action `a`, if the item has one.
    pub fn magnitude(&self, a: Action) -> (r: Option<Value>)
        ensures
            r == self.effect(a),
    {
        match a {
            Action::Heal => self.heal,
            Action::Damage => self.damage,
            Action::Nothing => self.idle,
        }
    }

    /// Applies every action of the item: `Heal` raises the user's hit points,
    /// `Damage` lowers the target's, `Nothing` does nothing.
    pub fn apply<U: EditableEntity, T: EditableEntity>(&self, user: &mut U, target: &mut T)
        requires
            i32::MIN <= old(user).health() + amount(self.effect(Action::Heal)) <= i32::MAX,
            i32::MIN <= old(target).health() - amount(self.effect(Action::Damage)) <= i32::MAX,
        ensures
            final(user).health() == old(user).health() + amount(self.effect(Action::Heal)),
            final(target).health() == old(target).health() - amount(self.effect(Action::Damage)),
            old(user).same_except_health(final(user)) || self.effect(Action::Heal).is_none(),
            *final(user) == *old(user) || self.effect(Action::Heal).is_some(),
            old(target).same_except_health(final(target)) || self.effect(Action::Damage).is_none(),
            *final(target) == *old(target) || self.effect(Action::Damage).is_some(),
    {
        if let Some(v) = self.heal {
            user.heal(&v);
        }
        if let Some(v) = self.damage {
            target.damage(&v);
        }
    }

    /// The item that a category roll, a name roll and a magnitude describe:
    /// category 0 is a sword named by `name_pick`, 1 an ingredient, 2 a heal
    /// potion; swords and potions carry `magnitude` as damage.
    pub fn from_rolls(kind: i32, name_pick: i32, magnitude: Value) -> (r: Item)
        requires
            0 <= kind < 3,
            0 <= name_pick < 5,
        ensures
            rolled_as(r, kind as int, name_pick as int, magnitude as int),
    {
        if kind == 0 {
            let name = if name_pick == 0 {
                "Wooden Sword"
            } else if name_pick == 1 {
                "Copper Sword"
            } else if name_pick == 2 {
                "Iron Sword"
            } else if name_pick == 3 {
                "Magic Sword"
            } else {
                "Sword Of Destiny"
            };
            Item {
                name: name.to_owned(),
                ty: ItemType::Melee,
                heal: None,
                damage: Some(magnitude),
                idle: None,
            }
        } else if kind == 1 {
            Item {
                name: "Random Ingridient".to_owned(),
                ty: ItemType::Ingredient,
                heal: None,
                damage: None,
                idle: None,
            }
        } else {
            Item {
                name: "Heal Potion".to_owned(),
                ty: ItemType::HealPotion,
                heal: None,
                damage: Some(magnitude),
                idle: None,
            }
        }
    }

    /// A random loot item: a category drawn uniformly from sword, ingredient
    /// and heal potion; swords and potions get a damage magnitude in `0..30`.
    pub fn random() -> (r: Item)
        ensures
            loot_shape(r),
    {
        let kind = roll(0, 3);
        let name_pick = if kind == 0 {
            roll(0, 5)
        } else {
            0
        };
        let magnitude = if kind == 1 {
            0
        } else {
            roll(0, 30)
        };
        let r = Item::from_rolls(kind, name_pick, magnitude);
        assert(rolled_as(r, kind as int, name_pick as int, magnitude as int));
        r
    }
}

} // verus!
