use sabi::data::namegen;
use sabi::logic::quest::{quests, Quest, QuestKind, QuestLocation, QuestStatus};
use sabi::point::Point;

#[test]
fn quests_are_trips() {
    let npc = uuid::Uuid::nil();
    let qs = quests(npc);
    assert_eq!(qs.len(), 20);
    for q in &qs {
        assert_eq!(q.assigner, npc);
        assert!(matches!(q.kind, QuestKind::Goto(8)));
        assert_eq!(q.location.overworld_pos(), Point::new(30, 40));
        assert!(q.in_progress());
    }
}

#[test]
fn trips_finish_near_the_place() {
    let mut q = quests(uuid::Uuid::nil())[0];
    assert!(!q.is_finished(true, Some(Point::new(30, 49))));
    assert!(!q.is_finished(false, Some(Point::new(30, 40))));
    assert!(!q.is_finished(true, None));
    assert!(q.is_finished(true, Some(Point::new(22, 48))));
    assert!(!q.process(true, Some(Point::new(0, 0))));
    assert_eq!(q.status, QuestStatus::InProgress);
    assert!(q.process(true, Some(Point::new(38, 32))));
    assert_eq!(q.status, QuestStatus::Finished);
    // A finished quest is not finished again.
    assert!(!q.process(true, Some(Point::new(30, 40))));
}

#[test]
fn kills_are_not_counted_here() {
    let mut q = Quest {
        assigner: uuid::Uuid::nil(),
        kind: QuestKind::Kill(uuid::Uuid::nil()),
        location: QuestLocation::Overworld(Point::new(0, 0)),
        status: QuestStatus::InProgress,
    };
    assert!(!q.process(true, Some(Point::new(0, 0))));
    assert_eq!(q.status, QuestStatus::InProgress);
}

#[test]
fn names_are_drawn_from_the_list() {
    let names = vec!["Ann".to_string(), "Bo".to_string()];
    for _ in 0..20 {
        let n = namegen::gen(&names);
        assert!(names.contains(&n));
    }
}
