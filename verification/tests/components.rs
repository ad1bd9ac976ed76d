use sabi::ecs::components::{
    Appearance, Equipment, Flags, Fov, Gender, Health, Item, Log, Name, Npc, Slot, SlotKind, Turn,
};
use sabi::point::Point;

#[test]
fn health_changes() {
    let mut h = Health::new(10);
    assert_eq!(h.hit_points, 10);
    assert!(!h.is_dead());
    h.hurt(4);
    assert_eq!(h.hit_points, 6);
    h.heal(100);
    assert_eq!(h.hit_points, 10);
    h.adjust_tp(150);
    assert_eq!(h.tp, 100);
    assert!(h.tp_full());
    h.adjust_tp(-300);
    assert_eq!(h.tp, 0);
    h.adjust_tp(30);
    h.reset_tp();
    assert_eq!(h.tp, 0);
    h.kill();
    assert!(h.is_dead());
    assert_eq!(Health::default().hit_points, 1);
}

#[test]
fn names_and_looks() {
    let n = Name::new("putit".to_string());
    assert_eq!(n.name, "putit");
    assert!(n.proper_name.is_none());
    let n = Name::new_proper("putit".to_string(), "Bob".to_string());
    assert_eq!(n.proper_name, Some("Bob".to_string()));
    assert!(matches!(n.gender, Gender::Unknown));
    assert_eq!(Appearance::new("sword").kind, "sword");
    assert_eq!(Log::new("item").ident, "item");
    assert_eq!(Turn::new(50).speed, 50);
    assert_eq!(Turn::default().speed, 100);
    let f = Flags::default();
    assert!(!f.is_invulnerable && !f.reflects_ranged);
    assert!(Npc::new().quests.is_empty());
}

#[test]
fn fov_and_equipment() {
    let mut fov = Fov::new();
    assert!(!fov.is_visible(&Point::new(1, 1)));
    fov.visible.push(Point::new(1, 1));
    assert!(fov.is_visible(&Point::new(1, 1)));
    let eq = Equipment::new(vec![Slot { kind: SlotKind::Head, name: None }]);
    assert!(eq.can_equip(0));
    assert!(!eq.can_equip(1));
    assert_eq!(eq.slots[0].to_string(), "head");
    assert_eq!(SlotKind::Legs.name(), "legs");
}

#[test]
fn item_stacks_merge_by_adding_counts() {
    let mut a = Item::new();
    assert_eq!(a.count, 1);
    let b = Item { count: 4 };
    assert!(!a.can_merge(&b));
    a.merge(&b);
    assert_eq!(a.count, 5);
    assert_eq!(b.count, 4);
}
