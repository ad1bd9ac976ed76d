//! Things that happen to a monster and may make it change its goal.
use vstd::prelude::*;
use super::Entity;
use super::goal::{AiGoal, AiKind, Target};

verus! {

#[derive(Debug, Copy, Clone, PartialEq, Eq, Structural)]
pub enum AiTrigger {
    AttackedBy(Entity),
    EntityWeak(Entity),
    SawEntity(Entity),
    FriendAttacks(Entity),
    FriendDied,
    TargetLost,
    TargetInRange,
    TargetOutOfRange,
    HealthLow,
}

/// The goal change a trigger causes, if any: a guard still guarding attacks
/// whoever attacks it, and any non-player it sees.
pub open spec fn spec_trigger_response(
    kind: AiKind,
    goal: AiGoal,
    trigger: AiTrigger,
    seen_is_player: bool,
) -> Option<(AiGoal, Option<Target>)> {
    if kind == AiKind::Guard && goal == AiGoal::Guard {
        match trigger {
            AiTrigger::AttackedBy(attacker) => Some(
                (
                    AiGoal::KillTarget,
                    Some(
                        Target { entity: Some(attacker), priority: 100, goal: AiGoal::KillTarget },
                    ),
                ),
            ),
            AiTrigger::SawEntity(seen) => if !seen_is_player {
                Some(
                    (
                        AiGoal::KillTarget,
                        Some(Target { entity: Some(seen), priority: 100, goal: AiGoal::KillTarget }),
                    ),
                )
            } else {
                None
            },
            _ => None,
        }
    } else {
        None
    }
}

/// The response to the last of `triggers` that causes one.
pub open spec fn spec_triggers_response(
    kind: AiKind,
    goal: AiGoal,
    triggers: Seq<AiTrigger>,
    player: Option<Entity>,
) -> Option<(AiGoal, Option<Target>)>
    decreases triggers.len(),
{
    if triggers.len() == 0 {
        None
    } else {
        let last = triggers.last();
        let seen_is_player = match last {
            AiTrigger::SawEntity(seen) => player == Some(seen),
            _ => false,
        };
        match spec_trigger_response(kind, goal, last, seen_is_player) {
            Some(r) => Some(r),
            None => spec_triggers_response(kind, goal, triggers.drop_last(), player),
        }
    }
}

impl AiKind {
    /// The goal change `trigger` causes while pursuing `goal`;
    /// `seen_is_player` tells whether a seen entity is the player.
    pub fn check_trigger(&self, goal: AiGoal, trigger: AiTrigger, seen_is_player: bool) -> (r:
        Option<(AiGoal, Option<Target>)>)
        ensures
            r == spec_trigger_response(*self, goal, trigger, seen_is_player),
    {
        match *self {
            AiKind::Guard => {
                match goal {
                    AiGoal::Guard => {
                        match trigger {
                            // TODO: More detailed enemy/friend anger management
                            AiTrigger::AttackedBy(attacker) => {
                                Some(
                                    (
                                        AiGoal::KillTarget,
                                        Some(
                                            Target {
                                                entity: Some(attacker),
                                                priority: 100,
                                                goal: AiGoal::KillTarget,
                                            },
                                        ),
                                    ),
                                )
                            },
                            AiTrigger::SawEntity(seen) => {
                                if !seen_is_player {
                                    Some(
                                        (
                                            AiGoal::KillTarget,
                                            Some(
                                                Target {
                                                    entity: Some(seen),
                                                    priority: 100,
                                                    goal: AiGoal::KillTarget,
                                                },
                                            ),
                                        ),
                                    )
                                } else {
                                    None
                                }
                            },
                            _ => None,
                        }
                    },
                    _ => None,
                }
            },
            _ => None,
        }
    }

    /// The goal change caused by the triggers collected this turn: the last
    /// trigger that causes one wins.
    pub fn check_triggers(&self, goal: AiGoal, triggers: &Vec<AiTrigger>, player: Option<Entity>) -> (r:
        Option<(AiGoal, Option<Target>)>)
        ensures
            r == spec_triggers_response(*self, goal, triggers@, player),
    {
        let mut res = None;
        let mut i: usize = 0;
        while i < triggers.len()
            invariant
                i <= triggers.len(),
                res == spec_triggers_response(*self, goal, triggers@.subrange(0, i as int), player),
            decreases triggers.len() - i,
        {
            let trigger = triggers[i];
            let seen_is_player = match trigger {
                AiTrigger::SawEntity(seen) => match player {
                    Some(p) => p == seen,
                    None => false,
                },
                _ => false,
            };
            if let Some(r) = self.check_trigger(goal, trigger, seen_is_player) {
                res = Some(r);
            }
            proof {
                assert(triggers@.subrange(0, i + 1).drop_last() =~= triggers@.subrange(0, i as int));
            }
            i = i + 1;
        }
        proof {
            assert(triggers@.subrange(0, triggers@.len() as int) =~= triggers@);
        }
        res
    }
}

} // verus!
