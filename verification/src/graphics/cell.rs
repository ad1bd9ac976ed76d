//! Cells of the map: their kind, looked up in a table of cell kinds, and
//! their features (doors, stairs).
use vstd::prelude::*;
use crate::data::dungeon::MapId;
use crate::point::Point;

verus! {

/// One kind of cell, as the cell table lists it.
pub struct CellData {
    pub name: String,
    pub tile: String,
    pub seethrough: bool,
    pub passable: bool,
}

/// The kinds of cell, each known by its position in the table.
pub struct CellTable {
    cells: Vec<CellData>,
}

/// The last position in `names` that holds `name`.
pub open spec fn last_named(names: Seq<Seq<char>>, name: Seq<char>) -> Option<int>
    decreases names.len(),
{
    if names.len() == 0 {
        None
    } else if names.last() == name {
        Some(names.len() - 1)
    } else {
        last_named(names.drop_last(), name)
    }
}

proof fn lemma_last_named(names: Seq<Seq<char>>, name: Seq<char>)
    ensures
        last_named(names, name) matches Some(i) ==> 0 <= i < names.len() && names[i] == name,
        last_named(names, name) is None ==> !names.contains(name),
    decreases names.len(),
{
    if names.len() > 0 {
        lemma_last_named(names.drop_last(), name);
        if names.contains(name) && names.last() != name {
            let i = choose|i: int| 0 <= i < names.len() && names[i] == name;
            assert(names.drop_last()[i] == name);
        }
    }
}

impl CellTable {
    /// The names of the kinds of cell, by position.
    pub closed spec fn names(&self) -> Seq<Seq<char>> {
        self.cells@.map_values(|c: CellData| c.name@)
    }

    pub closed spec fn entry(&self, idx: int) -> CellData {
        self.cells@[idx]
    }

    pub closed spec fn len(&self) -> nat {
        self.cells@.len()
    }

    /// The position of the kind named `name`: its last entry, or else the
    /// last entry named "error".
    pub open spec fn index_of_name(&self, name: Seq<char>) -> Option<int> {
        match last_named(self.names(), name) {
            Some(i) => Some(i),
            None => last_named(self.names(), "error"@),
        }
    }

    /// A table of the given kinds, each known by its position.
    pub fn new(cells: Vec<CellData>) -> (t: CellTable)
        ensures
            t.len() == cells@.len(),
            forall|i: int| 0 <= i < cells@.len() ==> #[trigger] t.entry(i) == cells@[i],
    {
        CellTable { cells }
    }

    pub fn get(&self, idx: usize) -> (c: &CellData)
        requires
            idx < self.len(),
        ensures
            *c == self.entry(idx as int),
    {
        &self.cells[idx]
    }

    fn find_last(&self, name: &String) -> (r: Option<usize>)
        ensures
            r matches Some(i) ==> last_named(self.names(), name@) == Some(i as int),
            r is None ==> last_named(self.names(), name@) is None,
    {
        let mut i = self.cells.len();
        proof {
            assert(self.names().take(i as int) =~= self.names());
        }
        while i > 0
            invariant
                i <= self.cells@.len(),
                last_named(self.names(), name@) == last_named(self.names().take(i as int), name@),
            decreases i,
        {
            let ghost before = self.names().take(i as int);
            proof {
                assert(before.drop_last() =~= self.names().take(i - 1));
                assert(before.last() == self.cells@[i - 1].name@);
            }
            if self.cells[i - 1].name == *name {
                return Some(i - 1);
            }
            i = i - 1;
        }
        proof {
            assert(self.names().take(0) =~= Seq::<Seq<char>>::empty());
        }
        None
    }

    /// The position of the kind named `type_`, or of the kind named "error"
    /// when there is none; `None` when neither is in the table.
    pub fn find_index(&self, type_: &str) -> (r: Option<usize>)
        ensures
            match r {
                Some(i) => Some(i as int) == self.index_of_name(type_@),
                None => self.index_of_name(type_@) is None,
            },
    {
        let wanted = type_.to_owned();
        match self.find_last(&wanted) {
            Some(idx) => Some(idx),
            None => {
                let fallback = "error".to_owned();
                self.find_last(&fallback)
            },
        }
    }

    /// The position of the kind named `type_`, or of the kind named "error"
    /// when there is none.
    pub fn get_index(&self, type_: &str) -> (idx: usize)
        requires
            self.index_of_name(type_@) is Some,
        ensures
            Some(idx as int) == self.index_of_name(type_@),
            idx < self.len(),
    {
        proof {
            assert(self.names().take(self.cells@.len() as int) =~= self.names());
            lemma_last_named(self.names(), type_@);
            lemma_last_named(self.names(), "error"@);
        }
        let wanted = type_.to_owned();
        match self.find_last(&wanted) {
            Some(idx) => idx,
            None => {
                let fallback = "error".to_owned();
                match self.find_last(&fallback) {
                    Some(idx) => idx,
                    None => {
                        proof {
                            assert(false);
                        }
                        0
                    },
                }
            },
        }
    }
}

#[derive(Eq, PartialEq, Debug, Copy, Clone, Structural)]
pub enum StairDir {
    Ascending,
    Descending,
}

/// Where stairs that lead nowhere yet will lead.
#[derive(Eq, PartialEq, Debug, Copy, Clone, Structural)]
pub enum StairKind {
    Dungeon(u64),
    DungeonBranch(u64, usize),
    Unconnected,
}

#[derive(Eq, PartialEq, Debug, Copy, Clone, Structural)]
pub enum StairDest {
    Ungenerated(StairKind),
    Generated(MapId, Point),
}

impl StairDir {
    pub fn reverse(&self) -> (d: StairDir)
        ensures
            d != *self,
    {
        match *self {
            StairDir::Ascending => StairDir::Descending,
            StairDir::Descending => StairDir::Ascending,
        }
    }
}

#[derive(Debug, Copy, Clone, PartialEq, Eq, Structural)]
pub enum CellFeature {
    Door(bool),
    Stairs(StairDir, StairDest),
}

impl CellFeature {
    /// The name of the tile that draws the feature.
    pub fn glyph(&self) -> (g: &'static str)
        ensures
            g@ == match *self {
                CellFeature::Door(..) => "door"@,
                CellFeature::Stairs(StairDir::Ascending, _) => "stairs_up"@,
                CellFeature::Stairs(StairDir::Descending, _) => "stairs_down"@,
            },
    {
        match *self {
            CellFeature::Door(..) => "door",
            CellFeature::Stairs(StairDir::Ascending, _) => "stairs_up",
            CellFeature::Stairs(StairDir::Descending, _) => "stairs_down",
        }
    }
}

#[derive(Debug, Copy, Clone, PartialEq, Eq, Structural)]
pub struct Cell {
    /// The position of the cell's kind in the cell table.
    pub type_: usize,
    pub feature: Option<CellFeature>,
}

impl Cell {
    /// A cell of the kind named `type_` (or "error"), without feature.
    pub fn new(table: &CellTable, type_: &str) -> (c: Cell)
        requires
            table.index_of_name(type_@) is Some,
        ensures
            Some(c.type_ as int) == table.index_of_name(type_@),
            c.feature is None,
    {
        Cell { type_: table.get_index(type_), feature: None }
    }

    /// Makes the cell of the kind named `type_` (or "error").
    pub fn set(&mut self, table: &CellTable, type_: &str)
        requires
            table.index_of_name(type_@) is Some,
        ensures
            Some(final(self).type_ as int) == table.index_of_name(type_@),
            final(self).feature == old(self).feature,
    {
        self.type_ = table.get_index(type_);
    }

    pub fn can_see_through(&self, table: &CellTable) -> (b: bool)
        requires
            self.type_ < table.len(),
        ensures
            b == table.entry(self.type_ as int).seethrough,
    {
        table.get(self.type_).seethrough
    }

    pub fn can_pass_through(&self, table: &CellTable) -> (b: bool)
        requires
            self.type_ < table.len(),
        ensures
            b == table.entry(self.type_ as int).passable,
    {
        table.get(self.type_).passable
    }

    /// Where the stairs of the cell lead, once that place exists.
    pub fn stair_dest_pos(&self) -> (p: Option<Point>)
        ensures
            p == match self.feature {
                Some(CellFeature::Stairs(_, StairDest::Generated(_, pos))) => Some(pos),
                _ => None,
            },
    {
        match self.feature {
            Some(CellFeature::Stairs(_, StairDest::Generated(_, pos))) => Some(pos),
            _ => None,
        }
    }

    pub fn name<'a>(&self, table: &'a CellTable) -> (n: &'a String)
        requires
            self.type_ < table.len(),
        ensures
            *n == table.entry(self.type_ as int).name,
    {
        &table.get(self.type_).name
    }

    /// The name of the tile that draws the cell.
    pub fn glyph<'a>(&self, table: &'a CellTable) -> (n: &'a String)
        requires
            self.type_ < table.len(),
        ensures
            *n == table.entry(self.type_ as int).tile,
    {
        &table.get(self.type_).tile
    }
}

} // verus!
