//! The components an entity can have: name, health, looks, speed, and so on.
use vstd::prelude::*;
use crate::point::Point;
use crate::util::{clamp, spec_clamp};
use crate::ids::new_random_uuid;

verus! {

/// An id that stays with an entity from world to world, while its entity
/// id may change.
pub struct EntityUuid {
    pub uuid: uuid::Uuid,
}

impl EntityUuid {
    /// A fresh random id.
    pub fn new() -> Self {
        EntityUuid { uuid: new_random_uuid() }
    }
}

impl Default for EntityUuid {
    fn default() -> Self {
        EntityUuid::new()
    }
}

/// Interesting flags for mob entities.
#[derive(Debug, Copy, Clone, PartialEq, Eq, Structural)]
pub struct Flags {
    pub is_invulnerable: bool,
    pub reflects_ranged: bool,
}

impl Default for Flags {
    fn default() -> (f: Self)
        ensures
            !f.is_invulnerable && !f.reflects_ranged,
    {
        Flags { is_invulnerable: false, reflects_ranged: false }
    }
}

#[derive(Debug, Copy, Clone, PartialEq, Eq, Structural)]
pub enum Gender {
    Male,
    Female,
    Unknown,
}

pub struct Name {
    pub name: String,
    pub proper_name: Option<String>,
    pub gender: Gender,
}

impl Name {
    pub fn new(name: String) -> (n: Self)
        ensures
            n.name@ == name@,
            n.proper_name is None,
            n.gender == Gender::Unknown,
    {
        Name { name: name, proper_name: None, gender: Gender::Unknown }
    }

    pub fn new_proper(name: String, proper_name: String) -> (n: Self)
        ensures
            n.name@ == name@,
            n.proper_name matches Some(p) && p@ == proper_name@,
            n.gender == Gender::Unknown,
    {
        Name { name: name, proper_name: Some(proper_name), gender: Gender::Unknown }
    }
}

impl Default for Name {
    fn default() -> (n: Self)
        ensures
            n.proper_name is None,
            n.gender == Gender::Unknown,
    {
        Name::new(String::from_str("someone"))
    }
}

/// Hit points and technique points of an entity.
#[derive(Debug, Copy, Clone, PartialEq, Eq, Structural)]
pub struct Health {
    pub hit_points: i32,
    pub max_hit_points: i32,
    pub tp: i32,
    pub max_tp: i32,
}

impl Health {
    pub fn new(max: i32) -> (h: Self)
        requires
            max > 0,
        ensures
            h == (Health { hit_points: max, max_hit_points: max, tp: 0, max_tp: 100 }),
    {
        Health { hit_points: max, max_hit_points: max, tp: 0, max_tp: 100 }
    }

    /// Takes away `amount` hit points.
    pub fn hurt(&mut self, amount: u32)
        requires
            i32::MIN <= old(self).hit_points - (amount as i32) <= i32::MAX,
        ensures
            *final(self) == (Health {
                hit_points: (old(self).hit_points - (amount as i32)) as i32,
                ..*old(self)
            }),
    {
        self.hit_points = self.hit_points - amount as i32;
    }

    /// Gives back `amount` hit points, up to the maximum.
    pub fn heal(&mut self, amount: u32)
        requires
            i32::MIN <= old(self).hit_points + (amount as i32) <= i32::MAX,
        ensures
            *final(self) == (Health {
                hit_points: if old(self).hit_points + (amount as i32) >= old(self).max_hit_points {
                    old(self).max_hit_points
                } else {
                    (old(self).hit_points + (amount as i32)) as i32
                },
                ..*old(self)
            }),
    {
        self.hit_points = self.hit_points + amount as i32;
        if self.hit_points >= self.max_hit_points {
            self.hit_points = self.max_hit_points;
        }
    }

    pub fn tp_full(&self) -> (b: bool)
        ensures
            b == (self.tp == self.max_tp),
    {
        self.tp == self.max_tp
    }

    /// Changes the technique points by `amount`, kept within `0..=max_tp`.
    pub fn adjust_tp(&mut self, amount: i32)
        requires
            i32::MIN <= old(self).tp + amount <= i32::MAX,
        ensures
            *final(self) == (Health {
                tp: spec_clamp(old(self).tp + amount, 0, old(self).max_tp as int) as i32,
                ..*old(self)
            }),
    {
        self.tp = clamp(self.tp + amount, 0, self.max_tp);
    }

    pub fn reset_tp(&mut self)
        ensures
            *final(self) == (Health { tp: 0, ..*old(self) }),
    {
        self.tp = 0;
    }

    pub fn kill(&mut self)
        ensures
            *final(self) == (Health { hit_points: 0, ..*old(self) }),
    {
        self.hit_points = 0;
    }

    pub fn is_dead(&self) -> (b: bool)
        ensures
            b == (self.hit_points <= 0),
    {
        self.hit_points <= 0
    }
}

impl Default for Health {
    fn default() -> (h: Self)
        ensures
            h == (Health { hit_points: 1, max_hit_points: 1, tp: 0, max_tp: 100 }),
    {
        Health::new(1)
    }
}

/// How an entity is drawn.
pub struct Appearance {
    pub kind: String,
}

impl Appearance {
    pub fn new(kind: &str) -> (a: Self)
        ensures
            a.kind@ == kind@,
    {
        Appearance { kind: kind.to_owned() }
    }
}

impl Default for Appearance {
    fn default() -> (a: Self) {
        Appearance::new("unknown")
    }
}

/// How fast an entity takes turns.
#[derive(Debug, Copy, Clone, PartialEq, Eq, Structural)]
pub struct Turn {
    pub speed: u32,
}

impl Turn {
    pub fn new(speed: u32) -> (t: Self)
        ensures
            t.speed == speed,
    {
        Turn { speed: speed }
    }
}

impl Default for Turn {
    fn default() -> (t: Self)
        ensures
            t.speed == 100,
    {
        Turn::new(100)
    }
}

/// A stack of like items; how much one of them weighs is kept beside it by
/// its owner.
#[derive(Debug, Copy, Clone, PartialEq, Eq, Structural)]
pub struct Item {
    pub count: u32,
}

impl Item {
    /// A single item.
    pub fn new() -> (i: Self)
        ensures
            i.count == 1,
    {
        Item { count: 1 }
    }

    /// Whether `other` can join this stack: no two stacks merge yet.
    pub fn can_merge(&self, other: &Item) -> (b: bool)
        ensures
            !b,
    {
        false
    }

    /// Adds the items of `other` to this stack.
    pub fn merge(&mut self, other: &Item)
        requires
            old(self).count + other.count <= u32::MAX,
        ensures
            final(self).count == old(self).count + other.count,
    {
        self.count = self.count + other.count;
    }
}

impl Default for Item {
    fn default() -> (i: Self)
        ensures
            i.count == 1,
    {
        Item::new()
    }
}

/// Which points an entity sees.
pub struct Fov {
    pub visible: Vec<Point>,
}

impl Fov {
    pub fn new() -> (f: Self)
        ensures
            f.visible@ == Seq::<Point>::empty(),
    {
        Fov { visible: Vec::new() }
    }

    pub fn is_visible(&self, pos: &Point) -> (b: bool)
        ensures
            b == self.visible@.contains(*pos),
    {
        let mut i: usize = 0;
        while i < self.visible.len()
            invariant
                i <= self.visible.len(),
                forall|k: int| 0 <= k < i ==> self.visible@[k] != *pos,
            decreases self.visible.len() - i,
        {
            if self.visible[i] == *pos {
                return true;
            }
            i = i + 1;
        }
        false
    }
}

impl Default for Fov {
    fn default() -> (f: Self)
        ensures
            f.visible@ == Seq::<Point>::empty(),
    {
        Fov::new()
    }
}

/// Which log an entity's messages go to.
pub struct Log {
    pub ident: String,
}

impl Log {
    pub fn new(ident: &str) -> (l: Self)
        ensures
            l.ident@ == ident@,
    {
        Log { ident: ident.to_owned() }
    }
}

impl Default for Log {
    fn default() -> (l: Self) {
        Log::new("mob")
    }
}

#[derive(Debug, Copy, Clone, PartialEq, Eq, Structural)]
pub enum SlotKind {
    Arm,
    Head,
    Legs,
}

impl SlotKind {
    /// The name of the kind of slot.
    pub fn name(&self) -> (s: &'static str)
        ensures
            s@ == (match *self {
                SlotKind::Arm => "arm"@,
                SlotKind::Head => "head"@,
                SlotKind::Legs => "legs"@,
            }),
    {
        match *self {
            SlotKind::Arm => "arm",
            SlotKind::Head => "head",
            SlotKind::Legs => "legs",
        }
    }
}

/// A place on a body where equipment goes.
pub struct Slot {
    pub kind: SlotKind,
    pub name: Option<String>,
}

impl Slot {
    /// The text shown for a slot: the name of its kind.
    pub fn to_string(&self) -> (s: String)
        ensures
            s@ == (match self.kind {
                SlotKind::Arm => "arm"@,
                SlotKind::Head => "head"@,
                SlotKind::Legs => "legs"@,
            }),
    {
        self.kind.name().to_owned()
    }
}

/// The slots of an entity's equipment.
pub struct Equipment {
    pub slots: Vec<Slot>,
}

impl Equipment {
    pub fn new(slots: Vec<Slot>) -> (e: Self)
        ensures
            e.slots@ == slots@,
    {
        Equipment { slots: slots }
    }

    /// Whether a slot of that number exists to equip into.
    pub fn can_equip(&self, slot_idx: usize) -> (b: bool)
        ensures
            b == (slot_idx < self.slots@.len()),
    {
        let _slot = match self.slots.get(slot_idx) {
            Some(s) => s,
            None => return false,
        };
        true
    }
}

impl Default for Equipment {
    fn default() -> (e: Self)
        ensures
            e.slots@ == Seq::<Slot>::empty(),
    {
        Equipment::new(Vec::new())
    }
}

/// The quests an NPC offers.
pub struct Npc {
    pub quests: Vec<String>,
}

impl Npc {
    pub fn new() -> (n: Self)
        ensures
            n.quests@ == Seq::<String>::empty(),
    {
        Npc { quests: Vec::new() }
    }
}

impl Default for Npc {
    fn default() -> (n: Self)
        ensures
            n.quests@ == Seq::<String>::empty(),
    {
        Npc::new()
    }
}

} // verus!
