//! State that spans the whole game: the dungeons, towns and quests of the
//! overworld.
use std::collections::HashMap;
use vstd::prelude::*;
use crate::data::dungeon::{self, DungeonPlan};
use crate::logic::quest::Quest;
use crate::point::Point;

verus! {

broadcast use vstd::std_specs::hash::group_hash_axioms;

/// A dungeon of the overworld: where its entrance is, its layout, and
/// whether its entrance was placed on the map.
pub struct Dungeon {
    pub pos: Point,
    pub data: dungeon::Dungeon,
    pub placed: bool,
}

impl Dungeon {
    /// A small random dungeon entered at `pos`.
    pub fn new(pos: Point) -> (d: Dungeon)
        ensures
            d.pos == pos,
            !d.placed,
            d.data.wf(),
            4 <= d.data.adjacency().len() <= 6,
    {
        let plan = DungeonPlan::easy();
        Dungeon { pos: pos, data: plan.build(), placed: false }
    }
}

/// A town of the overworld: its corner, its size, and whether it was
/// placed on the map.
pub struct Town {
    pub pos: Point,
    pub size: Point,
    pub placed: bool,
}

impl Town {
    pub fn new(pos: Point, size: Point) -> (t: Town)
        requires
            size.x > 0,
            size.y > 0,
        ensures
            t.pos == pos,
            t.size == size,
            !t.placed,
    {
        Town { pos: pos, size: size, placed: false }
    }
}

pub struct Globals {
    pub dungeons: HashMap<u64, Dungeon>,
    dungeon_count: u64,
    pub towns: Vec<Town>,
    pub quests: Vec<Quest>,
}

impl Globals {
    /// The dungeons by id.
    pub closed spec fn dungeon_map(&self) -> Map<u64, Dungeon> {
        self.dungeons@
    }

    pub closed spec fn town_list(&self) -> Seq<Town> {
        self.towns@
    }

    pub closed spec fn quest_list(&self) -> Seq<Quest> {
        self.quests@
    }

    /// How many dungeons were made; the last one made has this id.
    pub closed spec fn dungeon_count(&self) -> u64 {
        self.dungeon_count
    }

    pub fn new() -> (g: Globals)
        ensures
            g.dungeon_map() == Map::<u64, Dungeon>::empty(),
            g.dungeon_count() == 0,
            g.town_list().len() == 0,
            g.quest_list().len() == 0,
    {
        Globals {
            dungeons: HashMap::new(),
            dungeon_count: 0,
            towns: Vec::new(),
            quests: Vec::new(),
        }
    }

    /// Adds a new random dungeon under the next id, entered at (-10, 10).
    pub fn make_dungeon(&mut self)
        requires
            old(self).dungeon_count() < u64::MAX,
        ensures
            final(self).dungeon_count() == old(self).dungeon_count() + 1,
            final(self).dungeon_map().dom() == old(self).dungeon_map().dom().insert(
                final(self).dungeon_count(),
            ),
            forall|k: u64|
                #[trigger] old(self).dungeon_map().contains_key(k) && k != final(self).dungeon_count()
                    ==> final(self).dungeon_map()[k] == old(self).dungeon_map()[k],
            ({
                let d = final(self).dungeon_map()[final(self).dungeon_count()];
                &&& d.pos == (Point { x: -10i32, y: 10i32 })
                &&& !d.placed
                &&& d.data.wf()
                &&& 4 <= d.data.adjacency().len() <= 6
            }),
            final(self).town_list() == old(self).town_list(),
            final(self).quest_list() == old(self).quest_list(),
    {
        self.dungeon_count = self.dungeon_count + 1;
        let d = Dungeon::new(Point::new(-10, 10));
        self.dungeons.insert(self.dungeon_count, d);
    }

    /// Adds a town of 50 by 50 at the origin.
    pub fn make_town(&mut self)
        ensures
            final(self).town_list().len() == old(self).town_list().len() + 1,
            final(self).town_list().drop_last() == old(self).town_list(),
            final(self).town_list().last().pos == (Point { x: 0, y: 0 }),
            final(self).town_list().last().size == (Point { x: 50, y: 50 }),
            !final(self).town_list().last().placed,
            final(self).dungeon_map() == old(self).dungeon_map(),
            final(self).dungeon_count() == old(self).dungeon_count(),
            final(self).quest_list() == old(self).quest_list(),
    {
        self.towns.push(Town::new(Point::new(0, 0), Point::new(50, 50)));
        proof {
            assert(self.towns@.drop_last() =~= old(self).towns@);
        }
    }
}

} // verus!
