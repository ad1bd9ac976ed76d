//! AI kinds, goals and the targets a monster pursues.
use vstd::prelude::*;
use super::{AiFacts, AiProp, Entity};

verus! {

#[derive(Debug, Copy, Clone, PartialEq, Eq, Structural)]
pub enum AiKind {
    Wait,
    SeekTarget,
    Follow,
    Wander,
    Scavenge,
    Guard,
}

impl AiKind {
    /// What a monster of this kind says on taking up `goal`: a guard that
    /// sets out to kill calls its target scum. The line is a message
    /// template, `%u` standing for the speaker's name.
    pub fn on_goal(&self, goal: AiGoal) -> (line: Option<&'static str>)
        ensures
            line is Some <==> (*self == AiKind::Guard && goal == AiGoal::KillTarget),
            line matches Some(l) ==> l@ == "%u: Scum!"@,
    {
        match self {
            AiKind::Guard => match goal {
                AiGoal::KillTarget => Some("%u: Scum!"),
                _ => None,
            },
            _ => None,
        }
    }
}

#[derive(Debug, Copy, Clone, PartialEq, Eq, Structural)]
pub enum AiGoal {
    FindTarget,
    KillTarget,
    Follow,
    Wander,
    EscapeDanger,
    Guard,
    FindItem,
    GetItem,
    DoNothing,
}

/// The facts a goal wants to hold when it is reached.
pub open spec fn spec_goal_props(goal: AiGoal) -> Seq<(AiProp, bool)> {
    match goal {
        AiGoal::FindTarget => seq![(AiProp::TargetVisible, true), (AiProp::HealthLow, false)],
        AiGoal::KillTarget => seq![(AiProp::TargetDead, true), (AiProp::HealthLow, false)],
        AiGoal::Follow => seq![(AiProp::NextToTarget, true)],
        AiGoal::Wander => seq![(AiProp::Moving, true)],
        AiGoal::Guard => seq![(AiProp::AtPosition, true), (AiProp::Moving, false)],
        AiGoal::EscapeDanger => seq![(AiProp::Exists, false)],
        AiGoal::FindItem => seq![(AiProp::FoundItem, true)],
        AiGoal::GetItem => seq![(AiProp::TargetInInventory, true)],
        AiGoal::DoNothing => seq![(AiProp::Exists, false)],
    }
}

/// The facts of a list of (fact, truth) pairs, later pairs overriding earlier ones.
pub open spec fn facts_of(props: Seq<(AiProp, bool)>) -> Map<AiProp, bool>
    decreases props.len(),
{
    if props.len() == 0 {
        Map::empty()
    } else {
        facts_of(props.drop_last()).insert(props.last().0, props.last().1)
    }
}

/// Each goal's end state holds what reaching it means: a sought target is
/// visible, a target to kill is dead, a followed one is next to the
/// monster, a wanderer is moving, a guard is at its post and still, an item
/// sought is found and one to get is carried. Seeking or killing a target
/// also wants health not to be low.
pub proof fn law_goal_end_states(goal: AiGoal)
    ensures
        ({
            let f = facts_of(spec_goal_props(goal));
            &&& goal == AiGoal::FindTarget ==> f.contains_key(AiProp::TargetVisible) && f[AiProp::TargetVisible]
            &&& goal == AiGoal::KillTarget ==> f.contains_key(AiProp::TargetDead) && f[AiProp::TargetDead]
            &&& (goal == AiGoal::FindTarget || goal == AiGoal::KillTarget) ==> f.contains_key(
                AiProp::HealthLow,
            ) && !f[AiProp::HealthLow]
            &&& goal == AiGoal::Follow ==> f.contains_key(AiProp::NextToTarget) && f[AiProp::NextToTarget]
            &&& goal == AiGoal::Wander ==> f.contains_key(AiProp::Moving) && f[AiProp::Moving]
            &&& goal == AiGoal::Guard ==> f.contains_key(AiProp::AtPosition) && f[AiProp::AtPosition]
                && f.contains_key(AiProp::Moving) && !f[AiProp::Moving]
            &&& goal == AiGoal::FindItem ==> f.contains_key(AiProp::FoundItem) && f[AiProp::FoundItem]
            &&& goal == AiGoal::GetItem ==> f.contains_key(AiProp::TargetInInventory)
                && f[AiProp::TargetInInventory]
        }),
{
    reveal_with_fuel(facts_of, 3);
    let p = spec_goal_props(goal);
    if p.len() == 2 {
        assert(p.drop_last().drop_last() =~= Seq::<(AiProp, bool)>::empty());
    } else {
        assert(p.drop_last() =~= Seq::<(AiProp, bool)>::empty());
    }
}

impl AiGoal {
    /// The facts that hold once this goal is reached.
    pub fn get_end_state(&self) -> (goal: AiFacts)
        ensures
            goal.wf(),
            goal.view() == facts_of(spec_goal_props(*self)),
    {
        let mut goal = AiFacts::new();
        let props = self.get_props();
        let mut i: usize = 0;
        while i < props.len()
            invariant
                i <= props.len(),
                props@ == spec_goal_props(*self),
                goal.wf(),
                goal.view() == facts_of(props@.subrange(0, i as int)),
            decreases props.len() - i,
        {
            let (prop, val) = props[i];
            goal.insert(prop, val);
            proof {
                assert(props@.subrange(0, i + 1).drop_last() =~= props@.subrange(0, i as int));
            }
            i = i + 1;
        }
        proof {
            assert(props@.subrange(0, props@.len() as int) =~= props@);
        }
        goal
    }

    fn get_props(&self) -> (props: Vec<(AiProp, bool)>)
        ensures
            props@ == spec_goal_props(*self),
    {
        // TODO: instead make the "health low" things triggers for entering the new goal of "run
        // away and heal"
        match *self {
            AiGoal::FindTarget => vec![(AiProp::TargetVisible, true), (AiProp::HealthLow, false)],
            AiGoal::KillTarget => vec![(AiProp::TargetDead, true), (AiProp::HealthLow, false)],
            AiGoal::Follow => vec![(AiProp::NextToTarget, true)],
            AiGoal::Wander => vec![(AiProp::Moving, true)],
            AiGoal::Guard => vec![(AiProp::AtPosition, true), (AiProp::Moving, false)],

            AiGoal::EscapeDanger => vec![(AiProp::Exists, false)],

            AiGoal::FindItem => vec![(AiProp::FoundItem, true)],
            AiGoal::GetItem => vec![(AiProp::TargetInInventory, true)],

            AiGoal::DoNothing => vec![(AiProp::Exists, false)],
        }
    }

    pub fn requires_target(&self) -> (b: bool)
        ensures
            b == (*self == AiGoal::GetItem || *self == AiGoal::FindTarget || *self
                == AiGoal::KillTarget || *self == AiGoal::Follow),
    {
        match *self {
            AiGoal::GetItem | AiGoal::FindTarget | AiGoal::KillTarget | AiGoal::Follow => true,
            _ => false,
        }
    }

    pub fn requires_position(&self) -> (b: bool)
        ensures
            b == (*self == AiGoal::Guard),
    {
        match *self {
            AiGoal::Guard => true,
            _ => false,
        }
    }
}

/// What a monster pursues: a goal, maybe an entity, and a priority; the
/// target of least priority value is pursued first.
#[derive(Debug, Copy, Clone, PartialEq, Eq, Structural)]
pub struct Target {
    pub entity: Option<Entity>,
    pub priority: u32,
    pub goal: AiGoal,
}

impl Target {
    pub fn new(goal: AiGoal) -> (t: Self)
        ensures
            t == (Target { entity: None, priority: 1, goal: goal }),
    {
        Target { entity: None, priority: 1, goal: goal }
    }
}

/// The targets of a monster, pursued least priority value first.
pub struct Targets {
    targets: Vec<Target>,
}

/// `t` has the least priority value of `s`.
pub open spec fn is_first_target(s: Seq<Target>, t: Target) -> bool {
    &&& s.contains(t)
    &&& forall|i: int| 0 <= i < s.len() ==> t.priority <= #[trigger] s[i].priority
}

/// Where the target pursued next is: the first of least priority value.
pub open spec fn best_index(s: Seq<Target>) -> int
    decreases s.len(),
{
    if s.len() <= 1 {
        0
    } else {
        let b = best_index(s.drop_last());
        if s.last().priority < s[b].priority {
            s.len() - 1
        } else {
            b
        }
    }
}

proof fn lemma_best_index(s: Seq<Target>)
    requires
        s.len() > 0,
    ensures
        0 <= best_index(s) < s.len(),
        is_first_target(s, s[best_index(s)]),
    decreases s.len(),
{
    if s.len() > 1 {
        lemma_best_index(s.drop_last());
        let b = best_index(s.drop_last());
        assert(s.drop_last()[b] == s[b]);
        assert forall|i: int| 0 <= i < s.len() implies s[best_index(s)].priority <= #[trigger] s[i].priority by {
            if i < s.len() - 1 {
                assert(s.drop_last()[i] == s[i]);
            }
        }
    }
}

impl Targets {
    /// The targets held, in the order they were added.
    pub closed spec fn view(&self) -> Seq<Target> {
        self.targets@
    }

    pub fn new() -> (ts: Self)
        ensures
            ts.view() == Seq::<Target>::empty(),
    {
        Targets { targets: Vec::new() }
    }

    pub fn is_empty(&self) -> (b: bool)
        ensures
            b == (self.view().len() == 0),
    {
        self.targets.len() == 0
    }

    /// Position of the first target of least priority value.
    fn first_index(&self) -> (idx: usize)
        requires
            self.view().len() > 0,
        ensures
            idx == best_index(self.view()),
            idx < self.view().len(),
            is_first_target(self.view(), self.view()[idx as int]),
    {
        let mut best: usize = 0;
        let mut i: usize = 1;
        while i < self.targets.len()
            invariant
                1 <= i <= self.targets.len(),
                best < i,
                best == best_index(self.targets@.take(i as int)),
            decreases self.targets.len() - i,
        {
            proof {
                let t = self.targets@.take(i + 1);
                assert(t.drop_last() =~= self.targets@.take(i as int));
                assert(t[best as int] == self.targets@[best as int]);
            }
            if self.targets[i].priority < self.targets[best].priority {
                best = i;
            }
            i = i + 1;
        }
        proof {
            assert(self.targets@.take(i as int) =~= self.targets@);
            lemma_best_index(self.targets@);
        }
        best
    }

    /// The first target of least priority value, if any.
    pub fn peek(&self) -> (t: Option<Target>)
        ensures
            self.view().len() == 0 ==> t == None::<Target>,
            self.view().len() > 0 ==> t == Some(self.view()[best_index(self.view())]),
            self.view().len() > 0 ==> (t matches Some(t) && is_first_target(self.view(), t)),
    {
        if self.targets.len() == 0 {
            None
        } else {
            let i = self.first_index();
            Some(self.targets[i])
        }
    }

    /// Removes and returns the first target of least priority value, if any.
    pub fn pop(&mut self) -> (t: Option<Target>)
        ensures
            old(self).view().len() == 0 ==> t == None::<Target> && final(self).view() == old(
                self,
            ).view(),
            old(self).view().len() > 0 ==> t == Some(old(self).view()[best_index(old(self).view())])
                && final(self).view() == old(self).view().remove(best_index(old(self).view())),
            old(self).view().len() > 0 ==> (t matches Some(t) && is_first_target(
                old(self).view(),
                t,
            ) && exists|i: int|
                0 <= i < old(self).view().len() && old(self).view()[i] == t && final(self).view()
                    == old(self).view().remove(i)),
    {
        if self.targets.len() == 0 {
            None
        } else {
            let i = self.first_index();
            let t = self.targets.remove(i);
            Some(t)
        }
    }

    /// Adds a target.
    pub fn push(&mut self, target: Target)
        ensures
            final(self).view() == old(self).view().push(target),
    {
        self.targets.push(target);
    }
}

/// The target of attacking `entity`.
pub fn attack_target(entity: Entity) -> (t: Target)
    ensures
        t == (Target { entity: Some(entity), priority: 100, goal: AiGoal::KillTarget }),
{
    Target { entity: Some(entity), priority: 100, goal: AiGoal::KillTarget }
}

/// A follower attacks a hostile it sees, else follows the player, else wanders.
pub fn goal_follow(hostile: Option<Entity>, player: Option<Entity>) -> (t: Target)
    ensures
        t == (match hostile {
            Some(h) => Target { entity: Some(h), priority: 100, goal: AiGoal::KillTarget },
            None => match player {
                Some(p) => Target { entity: Some(p), priority: 1, goal: AiGoal::Follow },
                None => Target { entity: None, priority: 1, goal: AiGoal::Wander },
            },
        }),
{
    if let Some(hostile) = hostile {
        return attack_target(hostile);
    }
    match player {
        Some(p) => { Target { entity: Some(p), priority: 1, goal: AiGoal::Follow } },
        None => Target::new(AiGoal::Wander),
    }
}

/// A guard attacks a hostile it sees, else keeps guarding.
pub fn goal_guard(hostile: Option<Entity>) -> (t: Target)
    ensures
        t == (match hostile {
            Some(h) => Target { entity: Some(h), priority: 100, goal: AiGoal::KillTarget },
            None => Target { entity: None, priority: 1, goal: AiGoal::Guard },
        }),
{
    if let Some(hostile) = hostile {
        return attack_target(hostile);
    }
    Target::new(AiGoal::Guard)
}

/// A scavenger goes for the chosen item.
pub fn goal_scavenge(chosen: Option<Entity>) -> (t: Target)
    ensures
        t == (Target { entity: chosen, priority: 100, goal: AiGoal::GetItem }),
{
    Target { entity: chosen, priority: 100, goal: AiGoal::GetItem }
}

/// A seeker attacks the player if it sees the player, else a hostile it
/// sees, else looks for the player; with no player it does nothing.
pub fn goal_seek_target(player: Option<Entity>, sees_player: bool, hostile: Option<Entity>) -> (t:
    Target)
    ensures
        t == (match player {
            Some(p) => if sees_player {
                Target { entity: Some(p), priority: 100, goal: AiGoal::KillTarget }
            } else {
                match hostile {
                    Some(h) => Target { entity: Some(h), priority: 100, goal: AiGoal::KillTarget },
                    None => Target { entity: Some(p), priority: 100, goal: AiGoal::FindTarget },
                }
            },
            None => Target { entity: None, priority: 1, goal: AiGoal::DoNothing },
        }),
{
    match player {
        Some(player) => {
            if sees_player {
                attack_target(player)
            } else if let Some(hostile) = hostile {
                attack_target(hostile)
            } else {
                Target { entity: Some(player), priority: 100, goal: AiGoal::FindTarget }
            }
        },
        None => Target::new(AiGoal::DoNothing),
    }
}

/// The target a monster of the given kind pursues when it has none: what
/// it senses is handed in (the hostile it sees, the player, whether it sees
/// the player, whether it found an item, and the nearest item it sees).
pub fn get_default_goal(
    kind: AiKind,
    found_item: bool,
    hostile: Option<Entity>,
    player: Option<Entity>,
    sees_player: bool,
    closest_item: Option<Entity>,
) -> (t: Target)
    ensures
        t == (match kind {
            AiKind::Follow => match hostile {
                Some(h) => Target { entity: Some(h), priority: 100, goal: AiGoal::KillTarget },
                None => match player {
                    Some(p) => Target { entity: Some(p), priority: 1, goal: AiGoal::Follow },
                    None => Target { entity: None, priority: 1, goal: AiGoal::Wander },
                },
            },
            AiKind::Guard => match hostile {
                Some(h) => Target { entity: Some(h), priority: 100, goal: AiGoal::KillTarget },
                None => Target { entity: None, priority: 1, goal: AiGoal::Guard },
            },
            AiKind::SeekTarget => match player {
                Some(p) => if sees_player {
                    Target { entity: Some(p), priority: 100, goal: AiGoal::KillTarget }
                } else {
                    match hostile {
                        Some(h) => Target {
                            entity: Some(h),
                            priority: 100,
                            goal: AiGoal::KillTarget,
                        },
                        None => Target { entity: Some(p), priority: 100, goal: AiGoal::FindTarget },
                    }
                },
                None => Target { entity: None, priority: 1, goal: AiGoal::DoNothing },
            },
            AiKind::Wait => Target { entity: None, priority: 1, goal: AiGoal::DoNothing },
            AiKind::Wander => Target { entity: None, priority: 1, goal: AiGoal::Wander },
            AiKind::Scavenge => if found_item {
                Target { entity: closest_item, priority: 100, goal: AiGoal::GetItem }
            } else {
                Target { entity: None, priority: 1, goal: AiGoal::FindItem }
            },
        }),
{
    match kind {
        AiKind::Follow => goal_follow(hostile, player),
        AiKind::Guard => goal_guard(hostile),
        AiKind::SeekTarget => goal_seek_target(player, sees_player, hostile),
        AiKind::Wait => Target::new(AiGoal::DoNothing),
        AiKind::Wander => Target::new(AiGoal::Wander),
        AiKind::Scavenge => if found_item {
            goal_scavenge(closest_item)
        } else {
            Target::new(AiGoal::FindItem)
        },
    }
}

/// A new plan: the facts wanted for the target pursued next, which is the
/// first of the current targets, or else the default target, returned too
/// so that it can be recorded.
pub fn make_new_plan(next_target: Option<Target>, default_goal: Target) -> (plan: (
    AiFacts,
    Option<Target>,
))
    ensures
        plan.0.wf(),
        plan.0.view() == facts_of(
            spec_goal_props(
                match next_target {
                    Some(t) => t.goal,
                    None => default_goal.goal,
                },
            ),
        ),
        plan.1 == (match next_target {
            Some(_) => None,
            None => Some(default_goal),
        }),
{
    let mut made_target = false;
    let target = match next_target {
        Some(next_target) => next_target,
        None => {
            made_target = true;
            default_goal
        },
    };

    let desired = target.goal.get_end_state();
    if made_target {
        (desired, Some(target))
    } else {
        (desired, None)
    }
}

} // verus!
