use std::collections::HashSet;

use sabi::data::dungeon::{generate_prufer_code, generate_section, Dungeon, DungeonPlan, DungeonSection};

fn hashset(items: &[usize]) -> HashSet<usize> {
    let mut hs = HashSet::new();
    for item in items {
        hs.insert(*item);
    }
    hs
}

#[test]
fn test_branches() {
    let dungeon = DungeonPlan::new(vec![3, 3, 3, 4], 1, "blank".to_string()).build();

    assert_eq!(dungeon.sections(), 6);
    assert_eq!(*dungeon.adjacencies(0), hashset(&[2]));
    assert_eq!(*dungeon.adjacencies(1), hashset(&[]));
    assert_eq!(*dungeon.adjacencies(2), hashset(&[1, 3, 4]));
    assert_eq!(*dungeon.adjacencies(3), hashset(&[5]));
    assert_eq!(*dungeon.adjacencies(4), hashset(&[]));
    assert_eq!(*dungeon.adjacencies(5), hashset(&[]));
}

#[test]
fn test_generate_dungeon() {
    // The floor the player stands on before entering the dungeon.
    let overworld = 0;

    let section = DungeonSection::new("blank", 2);
    let mut dungeon = Dungeon::new(vec![HashSet::new()], vec![section]);

    let floor_a = dungeon.generate_next_floor(overworld, 10);
    assert!(floor_a.is_some());

    let floor_b = dungeon.generate_next_floor(floor_a.unwrap(), 11);
    assert!(floor_b.is_some());

    let floor_c = dungeon.generate_next_floor(floor_b.unwrap(), 12);
    assert!(floor_c.is_none());
}

#[test]
fn floors_are_generated_only_from_the_floor_above() {
    let mut dungeon = Dungeon::new(vec![HashSet::new()], vec![DungeonSection::new("cave", 3)]);
    assert!(!dungeon.entered());
    assert_eq!(dungeon.generate_next_floor(0, 5), Some(5));
    assert!(dungeon.entered());
    assert!(dungeon.has_floor(5));
    assert!(!dungeon.has_floor(6));
    assert_eq!(dungeon.generate_next_floor(5, 6), Some(6));
    assert!(dungeon.is_branch_point(6) == false);
    // Floor 5 is not directly above the next floor to generate.
    assert_eq!(dungeon.generate_next_floor(5, 7), None);
    assert!(!dungeon.has_floor(7));
    assert_eq!(dungeon.generate_next_floor(6, 7), Some(7));
    assert!(dungeon.is_branch_point(7));
    assert!(dungeon.is_leaf(7));
    assert!(dungeon.is_leaf(99));
    assert!(dungeon.branches(99).is_none());
}

#[test]
fn branches_leave_from_the_bottom_floor() {
    let plan = DungeonPlan::new(vec![1], 1, "blank".to_string());
    let mut dungeon = plan.build();
    assert_eq!(dungeon.sections(), 3);
    assert_eq!(*dungeon.adjacencies(0), hashset(&[1, 2]));
    assert_eq!(dungeon.generate_next_floor(0, 20), Some(20));
    assert!(dungeon.is_branch_point(20));
    assert!(!dungeon.is_leaf(20));
    assert_eq!(dungeon.branches(20).cloned(), Some(hashset(&[1, 2])));
    assert_eq!(dungeon.generate_branch(20, 2, 30), Some(30));
    assert!(dungeon.has_floor(30));
    assert!(dungeon.is_leaf(30));
    assert!(dungeon.section_for_map_id(30).has_floor(30));
    assert!(dungeon.section_for_map_id(30).is_branch_point(30));
}

#[test]
fn easy_plans_build_small_dungeons() {
    for _ in 0..20 {
        let dungeon = DungeonPlan::easy().build();
        let n = dungeon.sections();
        assert!(4 <= n && n <= 6);
        let mut edges = 0;
        for i in 0..n {
            edges += dungeon.adjacencies(i).len();
        }
        assert_eq!(edges, n - 1);
    }
}

#[test]
fn prufer_codes_have_labels_within_their_length() {
    for _ in 0..50 {
        let code = generate_prufer_code(2, 6, 20, 10);
        assert!(2 <= code.len() && code.len() <= 6);
        for label in &code {
            assert!(1 <= *label && *label <= code.len());
        }
    }
    assert!(generate_prufer_code(0, 0, 0, 0).is_empty());
}

#[test]
fn sections_have_lengths_in_range() {
    for _ in 0..50 {
        let mut section = generate_section(2, 5, "dood");
        assert!(!section.entered());
        assert_eq!(section.next_ungenerated_floor_idx(), Some(0));
        let mut floors = 0;
        let mut current = 0;
        while let Some(id) = section.generate_next_floor(current, current + 1) {
            floors += 1;
            current = id;
        }
        assert!(2 <= floors && floors < 5);
        assert!(section.is_branch_point(current));
    }
}

#[test]
fn built_dungeons_branch_away_from_the_first_section() {
    for _ in 0..20 {
        let dungeon = DungeonPlan::easy().build();
        let n = dungeon.sections();
        for v in 0..n {
            let parents: Vec<usize> = (0..n).filter(|&u| dungeon.adjacencies(u).contains(&v)).collect();
            if v == 0 {
                assert!(parents.is_empty());
            } else {
                assert_eq!(parents.len(), 1);
            }
        }
        let edges: usize = (0..n).map(|u| dungeon.adjacencies(u).len()).sum();
        assert_eq!(edges, n - 1);
    }
}

#[test]
fn a_path_code_builds_a_chain_from_section_zero() {
    // The code [2, 3] describes the path 1 - 2 - 3 - 4.
    let dungeon = DungeonPlan::new(vec![2, 3], 1, "blank".to_string()).build();
    assert_eq!(dungeon.sections(), 4);
    assert_eq!(*dungeon.adjacencies(0), hashset(&[1]));
    assert_eq!(*dungeon.adjacencies(1), hashset(&[2]));
    assert_eq!(*dungeon.adjacencies(2), hashset(&[3]));
    assert_eq!(*dungeon.adjacencies(3), hashset(&[]));
}
