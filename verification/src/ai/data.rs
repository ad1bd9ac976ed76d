//! What a monster remembers between turns, and how each step of its
//! thinking changes that. The world is read by the caller, which hands in
//! what was found.
use vstd::prelude::*;
use crate::point::Point;
use super::{default_ai_facts, AiFacts, AiProp, Entity};
use super::goal::{best_index, facts_of, make_new_plan, spec_goal_props, AiGoal, AiKind, Target, Targets};
use super::trigger::{spec_triggers_response, AiTrigger};

verus! {

/// The step a monster's plan takes next.
#[derive(Debug, Copy, Clone, PartialEq, Eq, Structural)]
pub enum AiAction {
    Wander,
    MoveCloser,
    SwingAt,
    Run,
}

pub struct AiData {
    important_pos: Option<Point>,
    targets: Targets,
    memory: AiFacts,
    goal: AiFacts,
    next_action: Option<AiAction>,
    target_was_switched: bool,
    triggers: Vec<AiTrigger>,
    pub last_goal: AiGoal,
}

/// The goal can only be pursued with a target entity.
pub open spec fn needs_target(g: AiGoal) -> bool {
    g == AiGoal::GetItem || g == AiGoal::FindTarget || g == AiGoal::KillTarget || g == AiGoal::Follow
}

/// The goal the monster pursues after switching targets: that of its next
/// target, or of the default target when it has none.
pub open spec fn next_goal(targets: Seq<Target>, default_goal: Target) -> AiGoal {
    if targets.len() > 0 {
        targets[best_index(targets)].goal
    } else {
        default_goal.goal
    }
}

impl AiData {
    pub closed spec fn position(&self) -> Option<Point> {
        self.important_pos
    }

    pub closed spec fn target_list(&self) -> Seq<Target> {
        self.targets.view()
    }

    /// What the monster believes of the world.
    pub closed spec fn memory(&self) -> Map<AiProp, bool> {
        self.memory.view()
    }

    /// The facts its current goal wants.
    pub closed spec fn wanted(&self) -> Map<AiProp, bool> {
        self.goal.view()
    }

    pub closed spec fn planned(&self) -> Option<AiAction> {
        self.next_action
    }

    pub closed spec fn switched(&self) -> bool {
        self.target_was_switched
    }

    pub closed spec fn trigger_list(&self) -> Seq<AiTrigger> {
        self.triggers@
    }

    pub closed spec fn pursuing(&self) -> AiGoal {
        self.last_goal
    }

    pub closed spec fn wf(&self) -> bool {
        self.memory.wf() && self.goal.wf()
    }

    /// The current goal cannot be pursued: it needs a target and there is
    /// none (or the next one has no entity), or it needs a position and none
    /// is known.
    pub open spec fn state_invalid(&self) -> bool {
        ||| (needs_target(self.pursuing()) && (self.target_list().len() == 0
            || self.target_list()[best_index(self.target_list())].entity is None))
        ||| (self.pursuing() == AiGoal::Guard && self.position() is None)
    }

    /// Only targets, goal, last goal and the switch flag changed: the goal
    /// became `desired`, and `target`, if any, was added and is pursued.
    pub open spec fn goal_set(
        before: AiData,
        after: AiData,
        desired: Map<AiProp, bool>,
        target: Option<Target>,
    ) -> bool {
        &&& after.wanted() == desired
        &&& after.target_list() == match target {
            Some(t) => before.target_list().push(t),
            None => before.target_list(),
        }
        &&& after.pursuing() == match target {
            Some(t) => t.goal,
            None => before.pursuing(),
        }
        &&& after.position() == before.position()
        &&& after.memory() == before.memory()
        &&& after.planned() == before.planned()
        &&& after.trigger_list() == before.trigger_list()
    }

    /// After a change of targets: the goal wanted is that of the next target
    /// (the default target being added when there is none), and the switch
    /// is noted.
    pub open spec fn switched_from(before: AiData, after: AiData, default_goal: Target) -> bool {
        &&& AiData::goal_set(
            before,
            after,
            facts_of(spec_goal_props(next_goal(before.target_list(), default_goal))),
            if before.target_list().len() > 0 {
                None
            } else {
                Some(default_goal)
            },
        )
        &&& after.switched()
    }

    /// The target pursued was dropped, then a new plan was made.
    pub open spec fn target_finished(before: AiData, after: AiData, default_goal: Target) -> bool {
        exists|mid: AiData|
            mid.target_list() == (if before.target_list().len() > 0 {
                before.target_list().remove(best_index(before.target_list()))
            } else {
                before.target_list()
            }) && #[trigger] AiData::switched_from(mid, after, default_goal) && mid.pursuing()
                == before.pursuing() && mid.position() == before.position() && mid.memory()
                == before.memory() && mid.planned() == before.planned() && mid.trigger_list()
                == before.trigger_list()
    }

    pub fn new() -> (d: AiData)
        ensures
            d.wf(),
            d.position() is None,
            d.target_list() == Seq::<Target>::empty(),
            d.memory() == Map::new(|p: AiProp| true, |p: AiProp| p == AiProp::Exists),
            d.wanted() == Map::new(|p: AiProp| true, |p: AiProp| p == AiProp::Exists),
            d.planned() is None,
            !d.switched(),
            d.trigger_list() == Seq::<AiTrigger>::empty(),
            d.pursuing() == AiGoal::DoNothing,
    {
        AiData {
            important_pos: None,
            targets: Targets::new(),
            goal: default_ai_facts(),
            memory: default_ai_facts(),
            next_action: None,
            target_was_switched: false,
            triggers: Vec::new(),
            last_goal: AiGoal::DoNothing,
        }
    }

    /// Whether the monster believes `prop` has the truth `val`.
    pub fn cond(&self, prop: AiProp, val: bool) -> (b: bool)
        requires
            self.wf(),
        ensures
            b == (self.memory().contains_key(prop) && self.memory()[prop] == val),
    {
        match self.memory.get(prop) {
            Some(f) => f == val,
            None => false,
        }
    }

    /// The goal is over: it cannot be pursued, or no step toward it is left.
    pub fn goal_finished(&self) -> (b: bool)
        ensures
            b == (self.state_invalid() || self.planned() is None),
    {
        let invalid = self.is_state_invalid();
        let no_possible_action = self.next_action.is_none();
        invalid || no_possible_action
    }

    fn is_state_invalid(&self) -> (b: bool)
        ensures
            b == self.state_invalid(),
    {
        if self.last_goal.requires_target() {
            if self.targets.is_empty() {
                return true;
            }
            match self.targets.peek() {
                Some(t) => {
                    if t.entity.is_none() {
                        return true;
                    }
                },
                None => {
                    return true;
                },
            }
        }

        if self.last_goal.requires_position() {
            if self.important_pos.is_none() {
                return true;
            }
        }

        false
    }

    /// Notes something that happened to the monster, to be weighed on its
    /// next turn.
    pub fn add_memory(&mut self, trigger: AiTrigger)
        ensures
            final(self).trigger_list() == old(self).trigger_list().push(trigger),
            final(self).wf() == old(self).wf(),
            final(self).target_list() == old(self).target_list(),
            final(self).memory() == old(self).memory(),
            final(self).wanted() == old(self).wanted(),
            final(self).pursuing() == old(self).pursuing(),
            final(self).planned() == old(self).planned(),
            final(self).position() == old(self).position(),
    {
        self.triggers.push(trigger);
    }

    /// Records the step the plan takes next.
    pub fn set_next_action(&mut self, next: Option<AiAction>)
        ensures
            final(self).planned() == next,
            final(self).wf() == old(self).wf(),
            final(self).target_list() == old(self).target_list(),
            final(self).memory() == old(self).memory(),
            final(self).wanted() == old(self).wanted(),
            final(self).pursuing() == old(self).pursuing(),
            final(self).trigger_list() == old(self).trigger_list(),
            final(self).position() == old(self).position(),
    {
        self.next_action = next;
    }

    /// Replaces what the monster believes by what it just sensed; says
    /// whether that changed anything, in which case its plan is stale.
    pub fn refresh_memory(&mut self, sensed: AiFacts) -> (stale: bool)
        requires
            old(self).wf(),
            sensed.wf(),
        ensures
            stale == (old(self).memory() != sensed.view()),
            final(self).memory() == sensed.view(),
            final(self).wf(),
            final(self).target_list() == old(self).target_list(),
            final(self).wanted() == old(self).wanted(),
            final(self).pursuing() == old(self).pursuing(),
            final(self).planned() == old(self).planned(),
            final(self).trigger_list() == old(self).trigger_list(),
            final(self).position() == old(self).position(),
    {
        let stale = !self.memory.same_as(&sensed);
        if stale {
            self.memory = sensed;
        }
        stale
    }

    /// Wants the facts `desired`; a new target, if any, is added and its
    /// goal pursued.
    pub fn set_goal(&mut self, desired: AiFacts, target_opt: Option<Target>)
        requires
            old(self).wf(),
            desired.wf(),
        ensures
            final(self).wf(),
            AiData::goal_set(*old(self), *final(self), desired.view(), target_opt),
            final(self).switched() == old(self).switched(),
    {
        self.goal = desired;
        if let Some(target) = target_opt {
            self.last_goal = target.goal;
            self.targets.push(target);
        }
    }

    /// Plans anew after the targets changed.
    pub fn on_target_switch(&mut self, default_goal: Target)
        requires
            old(self).wf(),
        ensures
            final(self).wf(),
            AiData::switched_from(*old(self), *final(self), default_goal),
    {
        let next = self.targets.peek();
        let (desired, target) = make_new_plan(next, default_goal);
        self.set_goal(desired, target);
        self.target_was_switched = true;
    }

    /// Adds a target and plans anew.
    pub fn add_target(&mut self, target: Target, default_goal: Target)
        requires
            old(self).wf(),
        ensures
            final(self).wf(),
            exists|mid: AiData|
                mid.target_list() == old(self).target_list().push(target) && #[trigger] AiData::switched_from(
                    mid,
                    *final(self),
                    default_goal,
                ) && mid.pursuing() == old(self).pursuing() && mid.position() == old(self).position()
                    && mid.memory() == old(self).memory() && mid.planned() == old(self).planned()
                    && mid.trigger_list() == old(self).trigger_list(),
    {
        self.targets.push(target);
        let ghost mid = *self;
        self.on_target_switch(default_goal);
        proof {
            assert(AiData::switched_from(mid, *self, default_goal));
        }
    }

    /// Drops the target pursued and plans anew.
    pub fn finish_target(&mut self, default_goal: Target)
        requires
            old(self).wf(),
        ensures
            final(self).wf(),
            AiData::target_finished(*old(self), *final(self), default_goal),
    {
        let _target = self.targets.pop();
        let ghost mid = *self;
        self.on_target_switch(default_goal);
        proof {
            assert(AiData::switched_from(mid, *self, default_goal));
        }
    }

    /// Drops the target pursued when it is gone from the world (as the
    /// caller found), and remembers `own_pos` as the place to guard when
    /// none was known.
    pub fn check_target(&mut self, target_gone: bool, own_pos: Option<Point>, default_goal: Target)
        requires
            old(self).wf(),
        ensures
            final(self).wf(),
            ({
                let drop = old(self).target_list().len() > 0 && old(self).target_list()[best_index(
                    old(self).target_list(),
                )].entity is Some && target_gone;
                &&& !drop ==> final(self).target_list() == old(self).target_list()
                    && final(self).wanted() == old(self).wanted()
                    && final(self).pursuing() == old(self).pursuing()
                &&& drop ==> exists|f: AiData|
                    #[trigger] AiData::target_finished(*old(self), f, default_goal)
                        && final(self).target_list() == f.target_list() && final(self).wanted()
                        == f.wanted() && final(self).pursuing() == f.pursuing()
                &&& final(self).position() == match old(self).position() {
                    Some(p) => Some(p),
                    None => own_pos,
                }
            }),
            final(self).memory() == old(self).memory(),
            final(self).trigger_list() == old(self).trigger_list(),
    {
        let mut target_is_invalid = false;
        if !self.targets.is_empty() {
            if let Some(t) = self.targets.peek() {
                if t.entity.is_some() && target_gone {
                    target_is_invalid = true;
                }
            }
        }

        if target_is_invalid {
            self.finish_target(default_goal);
        }
        let ghost f = *self;

        if self.important_pos.is_none() {
            self.important_pos = own_pos;
        }
    }

    /// Drops the target pursued once its goal is over.
    pub fn update_goal(&mut self, default_goal: Target)
        requires
            old(self).wf(),
        ensures
            final(self).wf(),
            (old(self).state_invalid() || old(self).planned() is None) ==> AiData::target_finished(
                *old(self),
                *final(self),
                default_goal,
            ),
            !(old(self).state_invalid() || old(self).planned() is None) ==> *final(self) == *old(
                self,
            ),
    {
        if self.goal_finished() {
            self.finish_target(default_goal);
        }
    }

    /// Weighs what happened this turn: the last event that calls for a new
    /// goal sets it, and the events are forgotten.
    pub fn check_triggers(&mut self, kind: AiKind, player: Option<Entity>)
        requires
            old(self).wf(),
        ensures
            final(self).wf(),
            final(self).trigger_list() == Seq::<AiTrigger>::empty(),
            match spec_triggers_response(kind, old(self).pursuing(), old(self).trigger_list(), player) {
                Some((goal, target)) => {
                    &&& final(self).wanted() == facts_of(spec_goal_props(goal))
                    &&& final(self).target_list() == match target {
                        Some(t) => old(self).target_list().push(t),
                        None => old(self).target_list(),
                    }
                    &&& final(self).pursuing() == match target {
                        Some(t) => t.goal,
                        None => old(self).pursuing(),
                    }
                },
                None => {
                    &&& final(self).wanted() == old(self).wanted()
                    &&& final(self).target_list() == old(self).target_list()
                    &&& final(self).pursuing() == old(self).pursuing()
                },
            },
            final(self).memory() == old(self).memory(),
            final(self).position() == old(self).position(),
    {
        if let Some((goal, target)) = kind.check_triggers(self.last_goal, &self.triggers, player) {
            self.set_goal(goal.get_end_state(), target);
        }
        self.triggers.clear();
    }
}

} // verus!
