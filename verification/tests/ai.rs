use sabi::ai::data::{AiAction, AiData};
use sabi::ai::goal::{
    attack_target, get_default_goal, goal_follow, goal_guard, goal_scavenge, goal_seek_target,
    make_new_plan, AiGoal, AiKind, Target, Targets,
};
use sabi::ai::trigger::AiTrigger;
use sabi::ai::{default_ai_facts, AiFacts, AiProp};
use sabi::point::Point;

#[test]
fn goals_want_facts() {
    let end = AiGoal::KillTarget.get_end_state();
    assert_eq!(end.get(AiProp::TargetDead), Some(true));
    assert_eq!(end.get(AiProp::HealthLow), Some(false));
    assert_eq!(end.get(AiProp::Moving), None);
    assert!(AiGoal::Follow.requires_target());
    assert!(!AiGoal::Wander.requires_target());
    assert!(AiGoal::Guard.requires_position());
}

#[test]
fn targets_pursue_least_priority_first() {
    let mut ts = Targets::new();
    assert!(ts.is_empty());
    assert_eq!(ts.peek(), None);
    ts.push(attack_target(4));
    ts.push(Target::new(AiGoal::Wander));
    ts.push(Target { entity: Some(9), priority: 1, goal: AiGoal::Follow });
    assert_eq!(ts.peek(), Some(Target::new(AiGoal::Wander)));
    assert_eq!(ts.pop(), Some(Target::new(AiGoal::Wander)));
    assert_eq!(ts.pop(), Some(Target { entity: Some(9), priority: 1, goal: AiGoal::Follow }));
    assert_eq!(ts.pop(), Some(attack_target(4)));
    assert_eq!(ts.pop(), None);
}

#[test]
fn default_goals() {
    assert_eq!(goal_follow(Some(2), Some(1)), attack_target(2));
    assert_eq!(goal_follow(None, Some(1)), Target { entity: Some(1), priority: 1, goal: AiGoal::Follow });
    assert_eq!(goal_follow(None, None), Target::new(AiGoal::Wander));
    assert_eq!(goal_guard(None), Target::new(AiGoal::Guard));
    assert_eq!(goal_scavenge(Some(5)), Target { entity: Some(5), priority: 100, goal: AiGoal::GetItem });
    assert_eq!(goal_seek_target(Some(1), true, Some(2)), attack_target(1));
    assert_eq!(goal_seek_target(Some(1), false, Some(2)), attack_target(2));
    assert_eq!(
        goal_seek_target(Some(1), false, None),
        Target { entity: Some(1), priority: 100, goal: AiGoal::FindTarget }
    );
    assert_eq!(goal_seek_target(None, false, Some(2)), Target::new(AiGoal::DoNothing));
    assert_eq!(get_default_goal(AiKind::Wait, false, None, None, false, None), Target::new(AiGoal::DoNothing));
    assert_eq!(get_default_goal(AiKind::Scavenge, false, None, None, false, Some(3)), Target::new(AiGoal::FindItem));
    assert_eq!(
        get_default_goal(AiKind::Scavenge, true, None, None, false, Some(3)),
        Target { entity: Some(3), priority: 100, goal: AiGoal::GetItem }
    );
}

#[test]
fn new_plans() {
    let (desired, made) = make_new_plan(None, Target::new(AiGoal::Wander));
    assert_eq!(made, Some(Target::new(AiGoal::Wander)));
    assert_eq!(desired.get(AiProp::Moving), Some(true));
    let (desired, made) = make_new_plan(Some(attack_target(3)), Target::new(AiGoal::Wander));
    assert_eq!(made, None);
    assert_eq!(desired.get(AiProp::TargetDead), Some(true));
}

#[test]
fn guards_answer_attacks() {
    let triggers = vec![AiTrigger::FriendDied, AiTrigger::AttackedBy(7), AiTrigger::HealthLow];
    assert_eq!(
        AiKind::Guard.check_triggers(AiGoal::Guard, &triggers, Some(1)),
        Some((AiGoal::KillTarget, Some(attack_target(7))))
    );
    assert_eq!(AiKind::Wander.check_triggers(AiGoal::Guard, &triggers, Some(1)), None);
    // The player being seen does not alarm a guard.
    let seen = vec![AiTrigger::SawEntity(1)];
    assert_eq!(AiKind::Guard.check_triggers(AiGoal::Guard, &seen, Some(1)), None);
    let seen = vec![AiTrigger::SawEntity(2), AiTrigger::SawEntity(1)];
    assert_eq!(
        AiKind::Guard.check_triggers(AiGoal::Guard, &seen, Some(1)),
        Some((AiGoal::KillTarget, Some(attack_target(2))))
    );
    assert_eq!(AiKind::Guard.check_trigger(AiGoal::KillTarget, AiTrigger::AttackedBy(3), false), None);
}

#[test]
fn facts_compare_by_content() {
    let a = default_ai_facts();
    let b = default_ai_facts();
    assert!(a.same_as(&b));
    let mut c = AiFacts::new();
    c.insert(AiProp::Exists, true);
    assert!(!a.same_as(&c));
    assert_eq!(a.get(AiProp::Exists), Some(true));
    assert_eq!(a.get(AiProp::HasTarget), Some(false));
}

#[test]
fn ai_data_drops_targets_it_cannot_pursue() {
    let mut data = AiData::new();
    assert!(data.cond(AiProp::Exists, true));
    assert!(!data.cond(AiProp::Exists, false));
    // Nothing planned: the goal is over.
    assert!(data.goal_finished());
    data.set_next_action(Some(AiAction::Wander));
    assert!(!data.goal_finished());

    data.add_target(attack_target(5), Target::new(AiGoal::Wander));
    assert_eq!(data.last_goal, AiGoal::DoNothing);
    // The target left the world: it is dropped, and with no target left the
    // default one is taken up.
    data.check_target(true, Some(Point::new(2, 3)), Target::new(AiGoal::Guard));
    assert_eq!(data.last_goal, AiGoal::Guard);
    assert!(!data.goal_finished());

    data.add_memory(AiTrigger::AttackedBy(8));
    data.check_triggers(AiKind::Guard, None);
    assert_eq!(data.last_goal, AiGoal::KillTarget);

    let mut sensed = AiFacts::new();
    sensed.insert(AiProp::Exists, true);
    assert!(data.refresh_memory(sensed));
    assert!(data.cond(AiProp::Exists, true));
    assert!(!data.cond(AiProp::Moving, false));
    let mut same = AiFacts::new();
    same.insert(AiProp::Exists, true);
    assert!(!data.refresh_memory(same));
}

#[test]
fn finished_goals_are_replaced() {
    let mut data = AiData::new();
    data.set_goal(AiGoal::Guard.get_end_state(), Some(Target::new(AiGoal::Guard)));
    assert_eq!(data.last_goal, AiGoal::Guard);
    data.set_next_action(Some(AiAction::Run));
    // A guard without a place to guard cannot go on.
    data.update_goal(Target::new(AiGoal::Wander));
    assert_eq!(data.last_goal, AiGoal::Wander);
    data.finish_target(Target::new(AiGoal::DoNothing));
    assert_eq!(data.last_goal, AiGoal::DoNothing);
}

#[test]
fn guards_call_out_when_they_set_out_to_kill() {
    assert_eq!(AiKind::Guard.on_goal(AiGoal::KillTarget), Some("%u: Scum!"));
    assert_eq!(AiKind::Guard.on_goal(AiGoal::Wander), None);
    assert_eq!(AiKind::SeekTarget.on_goal(AiGoal::KillTarget), None);
}
