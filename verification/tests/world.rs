use sabi::cell::{air, floor, wall, CellType};
use sabi::chunk::{generate_blank, Chunk, ChunkIndex, ChunkPosition, CHUNK_WIDTH};
use sabi::ecs::globals::{Globals, Town};
use sabi::ecs::world::{chunk_updates, relevant_chunks};
use sabi::gen::Border;
use sabi::graphics::cell::{Cell, CellData, CellFeature, CellTable, StairDest, StairDir, StairKind};
use sabi::point::Point;

#[test]
fn chunk_indices_round_down() {
    assert_eq!(ChunkIndex::from_world_pos(Point::new(0, 0)), ChunkIndex::new(0, 0));
    assert_eq!(ChunkIndex::from_world_pos(Point::new(15, 16)), ChunkIndex::new(0, 1));
    assert_eq!(ChunkIndex::from_world_pos(Point::new(-1, -16)), ChunkIndex::new(-1, -1));
    assert_eq!(ChunkIndex::from_world_pos(Point::new(-17, 33)), ChunkIndex::new(-2, 2));
    assert_eq!(ChunkPosition::from_world(&Point::new(-1, 17)), ChunkPosition::from_point(Point::new(15, 1)));
    assert_eq!(ChunkPosition::from_world(&Point::new(-16, 5)), ChunkPosition(Point::new(0, 5)));
}

#[test]
fn world_positions_rebuild() {
    for &(x, y) in &[(0, 0), (-1, 5), (37, -40), (-16, -17)] {
        let p = Point::new(x, y);
        let idx = ChunkIndex::from_world_pos(p);
        let pos = ChunkPosition::from_world(&p);
        assert_eq!(Chunk::world_position_at(&idx, &pos), p);
    }
}

#[test]
fn chunks_hold_cells() {
    let blank = Cell { type_: 0, feature: None };
    let mut chunk = generate_blank(blank);
    let door = Cell { type_: 1, feature: Some(CellFeature::Door(false)) };
    *chunk.cell_mut(ChunkPosition(Point::new(3, 4))) = door;
    assert_eq!(*chunk.cell(ChunkPosition(Point::new(3, 4))), door);
    assert_eq!(*chunk.cell(ChunkPosition(Point::new(4, 3))), blank);
    assert_eq!(*chunk.cell(ChunkPosition(Point::new(CHUNK_WIDTH - 1, CHUNK_WIDTH - 1))), blank);
}

fn table() -> CellTable {
    let data = |name: &str, tile: &str, seethrough: bool, passable: bool| CellData {
        name: name.to_string(),
        tile: tile.to_string(),
        seethrough,
        passable,
    };
    CellTable::new(vec![
        data("error", "error", true, true),
        data("wall", "wall", false, false),
        data("floor", "floor", true, true),
        data("glass", "window", true, false),
        data("floor", "floor2", true, true),
    ])
}

#[test]
fn cell_table_lookup() {
    let t = table();
    assert_eq!(t.get_index("wall"), 1);
    // The last entry of a name wins.
    assert_eq!(t.get_index("floor"), 4);
    assert_eq!(t.get_index("lava"), 0);
    let mut c = Cell::new(&t, "glass");
    assert!(c.can_see_through(&t));
    assert!(!c.can_pass_through(&t));
    assert_eq!(c.name(&t), "glass");
    assert_eq!(c.glyph(&t), "window");
    c.set(&t, "wall");
    assert!(!c.can_see_through(&t));
    assert_eq!(t.get(2).tile, "floor");
    assert_eq!(t.find_index("glass"), Some(3));
    assert_eq!(t.find_index("lava"), Some(0));
    let bare = CellTable::new(vec![CellData { name: "rock".to_string(), tile: "rock".to_string(), seethrough: false, passable: false }]);
    assert_eq!(bare.find_index("lava"), None);
    assert_eq!(Chunk::from_cells(vec![Cell { type_: 0, feature: None }; 256]).cell(ChunkPosition(Point::new(0, 0))).type_, 0);
}

#[test]
fn stairs_and_features() {
    assert_eq!(StairDir::Ascending.reverse(), StairDir::Descending);
    assert_eq!(StairDir::Descending.reverse(), StairDir::Ascending);
    assert_eq!(CellFeature::Door(true).glyph(), "door");
    let up = CellFeature::Stairs(StairDir::Ascending, StairDest::Ungenerated(StairKind::Dungeon(2)));
    assert_eq!(up.glyph(), "stairs_up");
    let down = CellFeature::Stairs(StairDir::Descending, StairDest::Generated(4, Point::new(7, 8)));
    assert_eq!(down.glyph(), "stairs_down");
    let c = Cell { type_: 0, feature: Some(down) };
    assert_eq!(c.stair_dest_pos(), Some(Point::new(7, 8)));
    let c = Cell { type_: 0, feature: Some(up) };
    assert_eq!(c.stair_dest_pos(), None);
}

#[test]
fn old_cells() {
    assert!(!wall().can_pass_through());
    assert!(!wall().can_see_through());
    assert!(floor().can_pass_through() && floor().can_see_through());
    assert!(air().can_pass_through());
    assert!(!air().can_see_through());
    assert_eq!(floor().type_, CellType::Floor);
}

#[test]
fn border_walks_the_edge() {
    let mut border = Border::new(Point::new(0, 0), Point::new(2, 2));
    let mut points = Vec::new();
    while let Some(p) = border.next() {
        points.push((p.x, p.y));
    }
    assert_eq!(points, vec![(0, 0), (1, 0), (2, 0), (0, 1), (2, 1), (0, 2), (1, 2), (2, 2)]);
    assert_eq!(border.next(), None);

    let mut row = Border::new(Point::new(5, -1), Point::new(7, -1));
    let mut points = Vec::new();
    while let Some(p) = row.next() {
        points.push((p.x, p.y));
    }
    assert_eq!(points, vec![(5, -1), (6, -1), (7, -1)]);
}

#[test]
fn relevant_chunks_form_a_diamond() {
    let rel = relevant_chunks();
    assert_eq!(rel.len(), 25);
    assert!(rel.contains(&ChunkIndex::new(0, 0)));
    assert!(rel.contains(&ChunkIndex::new(-3, 0)));
    assert!(rel.contains(&ChunkIndex::new(1, -2)));
    assert!(!rel.contains(&ChunkIndex::new(2, 2)));
    let loaded = vec![ChunkIndex::new(5, 5), ChunkIndex::new(0, 0), ChunkIndex::new(0, 4)];
    let (to_load, to_unload) = chunk_updates(&loaded);
    assert_eq!(to_load.len(), 24);
    assert!(!to_load.contains(&ChunkIndex::new(0, 0)));
    assert_eq!(to_unload, vec![ChunkIndex::new(5, 5), ChunkIndex::new(0, 4)]);
}

#[test]
fn globals_make_things() {
    let mut g = Globals::new();
    g.make_dungeon();
    g.make_dungeon();
    assert_eq!(g.dungeons.len(), 2);
    let d = &g.dungeons[&2];
    assert_eq!(d.pos, Point::new(-10, 10));
    assert!(!d.placed);
    assert!(4 <= d.data.sections() && d.data.sections() <= 6);
    g.make_town();
    assert_eq!(g.towns.len(), 1);
    assert_eq!(g.towns[0].size, Point::new(50, 50));
    let t = Town::new(Point::new(1, 1), Point::new(3, 4));
    assert!(!t.placed);
}

#[test]
fn chunk_corners_and_points_in_the_world() {
    assert_eq!(Chunk::world_position_from_index(ChunkIndex::new(2, -1), 16), Point::new(32, -16));
    let chunk = generate_blank(Cell { type_: 0, feature: None });
    let p = chunk.world_position(ChunkIndex::new(1, 2), ChunkPosition(Point::new(3, 4)));
    assert_eq!(p, Point::new(3 + 16, 4 + 32));
}
