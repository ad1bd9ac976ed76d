//! Quests that non-player characters hand out.
use vstd::prelude::*;
use crate::point::Point;

verus! {

#[derive(Copy, Clone, PartialEq, Eq, Structural, Debug)]
pub enum QuestStatus {
    Finished,
    InProgress,
    NotYetStarted,
}

#[derive(Copy, Clone)]
pub enum QuestKind {
    /// Kill the entity with this id.
    Kill(uuid::Uuid),
    /// Come within this many places of the quest's location.
    Goto(i32),
}

#[derive(Copy, Clone, PartialEq, Eq, Structural, Debug)]
pub enum QuestLocation {
    Overworld(Point),
}

impl QuestLocation {
    pub fn overworld_pos(&self) -> (p: Point)
        ensures
            p == match *self {
                QuestLocation::Overworld(pos) => pos,
            },
    {
        match *self {
            QuestLocation::Overworld(pos) => pos,
        }
    }
}

#[derive(Copy, Clone)]
pub struct Quest {
    pub assigner: uuid::Uuid,
    pub kind: QuestKind,
    pub location: QuestLocation,
    pub status: QuestStatus,
}

/// `pos` lies in the square of half-width `radius` around `center`.
pub open spec fn in_square(center: Point, radius: i32, pos: Point) -> bool {
    center.x - radius <= pos.x <= center.x + radius && center.y - radius <= pos.y <= center.y
        + radius
}

/// A quest is done once its goal is met: for a trip, the player stands on
/// the overworld near the quest's place; a kill is never counted here.
pub open spec fn spec_quest_done(
    kind: QuestKind,
    location: QuestLocation,
    in_overworld: bool,
    player_pos: Option<Point>,
) -> bool {
    match kind {
        QuestKind::Kill(_) => false,
        QuestKind::Goto(radius) => in_overworld && match player_pos {
            Some(pos) => match location {
                QuestLocation::Overworld(center) => in_square(center, radius, pos),
            },
            None => false,
        },
    }
}

impl Quest {
    /// Marks the quest finished once it is done; says whether it just
    /// finished. A quest not in progress is left alone.
    pub fn process(&mut self, in_overworld: bool, player_pos: Option<Point>) -> (finished: bool)
        ensures
            finished == (old(self).status == QuestStatus::InProgress && spec_quest_done(
                old(self).kind,
                old(self).location,
                in_overworld,
                player_pos,
            )),
            final(self).status == (if finished {
                QuestStatus::Finished
            } else {
                old(self).status
            }),
            final(self).location == old(self).location,
    {
        if !self.in_progress() {
            return false;
        }
        if self.is_finished(in_overworld, player_pos) {
            self.status = QuestStatus::Finished;
            return true;
        }
        false
    }

    pub fn in_progress(&self) -> (b: bool)
        ensures
            b == (self.status == QuestStatus::InProgress),
    {
        self.status == QuestStatus::InProgress
    }

    /// Whether the quest's goal is met, given whether the player is on the
    /// overworld and where the player is, if there is one.
    pub fn is_finished(&self, in_overworld: bool, player_pos: Option<Point>) -> (b: bool)
        ensures
            b == spec_quest_done(self.kind, self.location, in_overworld, player_pos),
    {
        match self.kind {
            QuestKind::Kill(_uuid) => false,
            QuestKind::Goto(radius) => {
                // check if in overworld
                if !in_overworld {
                    return false;
                }
                let player_pos = match player_pos {
                    Some(p) => p,
                    None => return false,
                };
                let center = self.location.overworld_pos();
                let r = radius as i64;
                let cx = center.x as i64;
                let cy = center.y as i64;
                let px = player_pos.x as i64;
                let py = player_pos.y as i64;
                cx - r <= px && px <= cx + r && cy - r <= py && py <= cy + r
            },
        }
    }
}

/// The quests that the character with id `npc` hands out: twenty trips
/// to the same place.
pub fn quests(npc: uuid::Uuid) -> (qs: Vec<Quest>)
    ensures
        qs@.len() == 20,
        forall|i: int|
            0 <= i < 20 ==> {
                let q = #[trigger] qs@[i];
                &&& q.assigner == npc
                &&& q.kind matches QuestKind::Goto(r) && r == 8
                &&& q.location == QuestLocation::Overworld(Point { x: 30, y: 40 })
                &&& q.status == QuestStatus::InProgress
            },
{
    let mut quests: Vec<Quest> = Vec::new();
    let mut n: usize = 0;
    while n < 20
        invariant
            n <= 20,
            quests@.len() == n,
            forall|i: int|
                0 <= i < n ==> {
                    let q = #[trigger] quests@[i];
                    &&& q.assigner == npc
                    &&& q.kind matches QuestKind::Goto(r) && r == 8
                    &&& q.location == QuestLocation::Overworld(Point { x: 30, y: 40 })
                    &&& q.status == QuestStatus::InProgress
                },
        decreases 20 - n,
    {
        let data = Quest {
            assigner: npc,
            kind: QuestKind::Goto(8),
            location: QuestLocation::Overworld(Point::new(30, 40)),
            status: QuestStatus::InProgress,
        };
        quests.push(data);
        n = n + 1;
    }
    quests
}

} // verus!
