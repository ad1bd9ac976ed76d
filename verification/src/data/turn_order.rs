//! The order in which entities take turns: each active entity waits a time
//! until its next turn, and the one with least time left acts next. Paused
//! entities keep their time but do not act.
use std::collections::BTreeMap;
use vstd::prelude::*;
use crate::ai::Entity;

verus! {

broadcast use {vstd::std_specs::btree::group_btree_axioms, vstd::laws_cmp::group_laws_cmp};

#[derive(Clone, Copy, Debug, Eq, PartialEq, Structural)]
pub enum TurnOrderError {
    NoSuchEntity,
    EntityPaused,
    EntityActive,
    AlreadyExists,
}

pub type TurnOrderResult<T> = Result<T, TurnOrderError>;

pub struct TurnOrder {
    active: BTreeMap<Entity, i32>,
    paused: BTreeMap<Entity, i32>,
}

/// The times until their next turn of the active and of the paused entities.
#[verifier::ext_equal]
pub struct TurnState {
    pub active: Map<Entity, i32>,
    pub paused: Map<Entity, i32>,
}

/// No entity is both active and paused.
pub open spec fn turn_state_wf(s: TurnState) -> bool {
    forall|e: Entity| !(#[trigger] s.active.contains_key(e) && s.paused.contains_key(e))
}

pub open spec fn spec_pause(s: TurnState, id: Entity) -> (TurnOrderResult<()>, TurnState) {
    if s.paused.contains_key(id) {
        (Err(TurnOrderError::EntityPaused), s)
    } else if !s.active.contains_key(id) {
        (Err(TurnOrderError::NoSuchEntity), s)
    } else {
        (
            Ok(()),
            TurnState { active: s.active.remove(id), paused: s.paused.insert(id, s.active[id]) },
        )
    }
}

pub open spec fn spec_resume(s: TurnState, id: Entity) -> (TurnOrderResult<()>, TurnState) {
    if s.active.contains_key(id) {
        (Err(TurnOrderError::EntityActive), s)
    } else if !s.paused.contains_key(id) {
        (Err(TurnOrderError::NoSuchEntity), s)
    } else {
        (
            Ok(()),
            TurnState { active: s.active.insert(id, s.paused[id]), paused: s.paused.remove(id) },
        )
    }
}

pub open spec fn spec_insert(s: TurnState, id: Entity, time: i32) -> (
    TurnOrderResult<()>,
    TurnState,
) {
    if s.paused.contains_key(id) || s.active.contains_key(id) {
        (Err(TurnOrderError::AlreadyExists), s)
    } else {
        (Ok(()), TurnState { active: s.active.insert(id, time), paused: s.paused })
    }
}

pub open spec fn spec_remove(s: TurnState, id: Entity) -> (TurnOrderResult<()>, TurnState) {
    if s.active.contains_key(id) {
        (Ok(()), TurnState { active: s.active.remove(id), paused: s.paused })
    } else if s.paused.contains_key(id) {
        (Ok(()), TurnState { active: s.active, paused: s.paused.remove(id) })
    } else {
        (Err(TurnOrderError::NoSuchEntity), s)
    }
}

/// The new time of an active entity whose wait is lengthened by `diff`:
/// a negative time is first brought up to zero.
pub open spec fn delayed_time(time: i32, diff: i32) -> int {
    (if time < 0 {
        0
    } else {
        time
    }) + diff
}

/// `e` acts next: it is active, no active entity has less time left, and
/// every active entity with a smaller id has more.
pub open spec fn is_next_turn(active: Map<Entity, i32>, e: Entity) -> bool {
    &&& active.contains_key(e)
    &&& forall|k: Entity| #[trigger] active.contains_key(k) ==> active[e] <= active[k]
    &&& forall|k: Entity| #[trigger] active.contains_key(k) && k < e ==> active[e] < active[k]
}

/// No operation makes an entity both active and paused.
pub proof fn law_turn_order_ops_keep_disjoint(s: TurnState, id: Entity, time: i32)
    requires
        turn_state_wf(s),
    ensures
        turn_state_wf(spec_pause(s, id).1),
        turn_state_wf(spec_resume(s, id).1),
        turn_state_wf(spec_insert(s, id, time).1),
        turn_state_wf(spec_remove(s, id).1),
{
    assert forall|e: Entity| !(#[trigger] spec_pause(s, id).1.active.contains_key(e)
        && spec_pause(s, id).1.paused.contains_key(e)) by {
        assert(!(s.active.contains_key(e) && s.paused.contains_key(e)));
    }
    assert forall|e: Entity| !(#[trigger] spec_resume(s, id).1.active.contains_key(e)
        && spec_resume(s, id).1.paused.contains_key(e)) by {
        assert(!(s.active.contains_key(e) && s.paused.contains_key(e)));
    }
    assert forall|e: Entity| !(#[trigger] spec_insert(s, id, time).1.active.contains_key(e)
        && spec_insert(s, id, time).1.paused.contains_key(e)) by {
        assert(!(s.active.contains_key(e) && s.paused.contains_key(e)));
    }
    assert forall|e: Entity| !(#[trigger] spec_remove(s, id).1.active.contains_key(e)
        && spec_remove(s, id).1.paused.contains_key(e)) by {
        assert(!(s.active.contains_key(e) && s.paused.contains_key(e)));
    }
}

/// Pausing an active entity and resuming it gives back the same turn order.
pub proof fn law_pause_then_resume(s: TurnState, id: Entity)
    requires
        turn_state_wf(s),
        s.active.contains_key(id),
    ensures
        spec_pause(s, id).0 == Ok::<(), TurnOrderError>(()),
        spec_resume(spec_pause(s, id).1, id).0 == Ok::<(), TurnOrderError>(()),
        spec_resume(spec_pause(s, id).1, id).1 == s,
{
    assert(!s.paused.contains_key(id));
    let p = spec_pause(s, id).1;
    assert(spec_resume(p, id).1.active =~= s.active);
    assert(spec_resume(p, id).1.paused =~= s.paused);
}

/// A second pause, or a second resume, is refused and changes nothing.
pub proof fn law_pause_resume_not_twice(s: TurnState, id: Entity)
    requires
        turn_state_wf(s),
    ensures
        s.active.contains_key(id) ==> spec_pause(spec_pause(s, id).1, id) == (
            Err::<(), TurnOrderError>(TurnOrderError::EntityPaused),
            spec_pause(s, id).1,
        ),
        s.paused.contains_key(id) ==> spec_resume(spec_resume(s, id).1, id) == (
            Err::<(), TurnOrderError>(TurnOrderError::EntityActive),
            spec_resume(s, id).1,
        ),
{
}

/// Adding a new entity and removing it gives back the same turn order, and
/// removing it once more is refused.
pub proof fn law_insert_then_remove(s: TurnState, id: Entity, time: i32)
    requires
        turn_state_wf(s),
        !s.active.contains_key(id),
        !s.paused.contains_key(id),
    ensures
        spec_insert(s, id, time).0 == Ok::<(), TurnOrderError>(()),
        spec_remove(spec_insert(s, id, time).1, id).0 == Ok::<(), TurnOrderError>(()),
        spec_remove(spec_insert(s, id, time).1, id).1 == s,
        spec_remove(spec_remove(spec_insert(s, id, time).1, id).1, id).0 == Err::<
            (),
            TurnOrderError,
        >(TurnOrderError::NoSuchEntity),
{
    let i = spec_insert(s, id, time).1;
    assert(spec_remove(i, id).1.active =~= s.active);
}

impl TurnOrder {
    pub closed spec fn view(&self) -> TurnState {
        TurnState { active: self.active@, paused: self.paused@ }
    }

    /// No entity is both active and paused.
    #[verifier::type_invariant]
    spec fn never_both(&self) -> bool {
        turn_state_wf(self.view())
    }

    pub fn new() -> (t: Self)
        ensures
            t.view().active == Map::<Entity, i32>::empty(),
            t.view().paused == Map::<Entity, i32>::empty(),
            turn_state_wf(t.view()),
    {
        TurnOrder { active: BTreeMap::new(), paused: BTreeMap::new() }
    }

    /// Moves both maps out, leaving the order empty.
    fn take_maps(&mut self) -> (r: (BTreeMap<Entity, i32>, BTreeMap<Entity, i32>))
        ensures
            r.0@ == old(self).view().active,
            r.1@ == old(self).view().paused,
            turn_state_wf(old(self).view()),
    {
        proof {
            use_type_invariant(&*self);
        }
        let mut active = BTreeMap::new();
        std::mem::swap(&mut active, &mut self.active);
        let mut paused = BTreeMap::new();
        std::mem::swap(&mut paused, &mut self.paused);
        (active, paused)
    }

    /// Puts both maps back.
    fn put_maps(&mut self, active: BTreeMap<Entity, i32>, paused: BTreeMap<Entity, i32>)
        requires
            turn_state_wf(TurnState { active: active@, paused: paused@ }),
        ensures
            final(self).view() == (TurnState { active: active@, paused: paused@ }),
    {
        *self = TurnOrder { active, paused };
    }

    /// Stops an active entity from taking turns, keeping its time.
    pub fn pause(&mut self, id: Entity) -> (r: TurnOrderResult<()>)
        ensures
            r == spec_pause(old(self).view(), id).0,
            final(self).view() == spec_pause(old(self).view(), id).1,
            turn_state_wf(final(self).view()),
    {
        let ghost s = self.view();
        let (mut active, mut paused) = self.take_maps();
        let r = if paused.contains_key(&id) {
            Err(TurnOrderError::EntityPaused)
        } else if !active.contains_key(&id) {
            Err(TurnOrderError::NoSuchEntity)
        } else {
            let time = active.remove(&id).unwrap();
            paused.insert(id, time);
            Ok(())
        };
        proof {
            law_turn_order_ops_keep_disjoint(s, id, 0);
            assert(TurnState { active: active@, paused: paused@ } =~= spec_pause(s, id).1);
        }
        self.put_maps(active, paused);
        r
    }

    /// Lets a paused entity take turns again, with the time it had.
    pub fn resume(&mut self, id: Entity) -> (r: TurnOrderResult<()>)
        ensures
            r == spec_resume(old(self).view(), id).0,
            final(self).view() == spec_resume(old(self).view(), id).1,
            turn_state_wf(final(self).view()),
    {
        let ghost s = self.view();
        let (mut active, mut paused) = self.take_maps();
        let r = if active.contains_key(&id) {
            Err(TurnOrderError::EntityActive)
        } else if !paused.contains_key(&id) {
            Err(TurnOrderError::NoSuchEntity)
        } else {
            let time = paused.remove(&id).unwrap();
            active.insert(id, time);
            Ok(())
        };
        proof {
            law_turn_order_ops_keep_disjoint(s, id, 0);
            assert(TurnState { active: active@, paused: paused@ } =~= spec_resume(s, id).1);
        }
        self.put_maps(active, paused);
        r
    }

    pub fn paused_contains(&self, id: Entity) -> (b: bool)
        ensures
            b == self.view().paused.contains_key(id),
    {
        self.paused.contains_key(&id)
    }

    pub fn contains(&self, id: Entity) -> (b: bool)
        ensures
            b == self.view().active.contains_key(id),
    {
        self.active.contains_key(&id)
    }

    /// Adds an entity that takes its next turn after `time`.
    pub fn insert(&mut self, id: Entity, time: i32) -> (r: TurnOrderResult<()>)
        ensures
            r == spec_insert(old(self).view(), id, time).0,
            final(self).view() == spec_insert(old(self).view(), id, time).1,
            turn_state_wf(final(self).view()),
    {
        let ghost s = self.view();
        let (mut active, paused) = self.take_maps();
        let r = if paused.contains_key(&id) || active.contains_key(&id) {
            Err(TurnOrderError::AlreadyExists)
        } else {
            active.insert(id, time);
            Ok(())
        };
        proof {
            law_turn_order_ops_keep_disjoint(s, id, time);
            assert(TurnState { active: active@, paused: paused@ } =~= spec_insert(s, id, time).1);
        }
        self.put_maps(active, paused);
        r
    }

    /// Removes an entity, active or paused: afterwards it is neither, and
    /// every other entity keeps its state.
    pub fn remove(&mut self, id: Entity) -> (r: TurnOrderResult<()>)
        ensures
            r == spec_remove(old(self).view(), id).0,
            final(self).view() == spec_remove(old(self).view(), id).1,
            r is Ok <==> (old(self).view().active.contains_key(id) || old(
                self,
            ).view().paused.contains_key(id)),
            !final(self).view().active.contains_key(id),
            !final(self).view().paused.contains_key(id),
            final(self).view().active == old(self).view().active.remove(id),
            final(self).view().paused == old(self).view().paused.remove(id),
            turn_state_wf(final(self).view()),
    {
        let ghost s = self.view();
        let (mut active, mut paused) = self.take_maps();
        let res = active.remove(&id);
        let r = if res.is_none() {
            let removed = paused.remove(&id);
            if removed.is_none() {
                Err(TurnOrderError::NoSuchEntity)
            } else {
                Ok(())
            }
        } else {
            Ok(())
        };
        proof {
            law_turn_order_ops_keep_disjoint(s, id, 0);
            assert(TurnState { active: active@, paused: paused@ } =~= spec_remove(s, id).1);
            assert(s.active.remove(id) =~= spec_remove(s, id).1.active);
            assert(s.paused.remove(id) =~= spec_remove(s, id).1.paused);
        }
        self.put_maps(active, paused);
        r
    }

    /// Brings an active entity's turn `diff` closer.
    pub fn advance_time_for(&mut self, id: Entity, diff: i32) -> (r: TurnOrderResult<()>)
        requires
            !old(self).view().paused.contains_key(id) && old(self).view().active.contains_key(id)
                ==> i32::MIN <= old(self).view().active[id] - diff <= i32::MAX,
        ensures
            old(self).view().paused.contains_key(id) ==> r == Err::<(), _>(
                TurnOrderError::EntityPaused,
            ) && final(self).view() == old(self).view(),
            !old(self).view().paused.contains_key(id) && !old(self).view().active.contains_key(id)
                ==> r == Err::<(), _>(TurnOrderError::NoSuchEntity) && final(self).view() == old(
                self,
            ).view(),
            !old(self).view().paused.contains_key(id) && old(self).view().active.contains_key(id)
                ==> r == Ok::<(), TurnOrderError>(()) && final(self).view() == (TurnState {
                active: old(self).view().active.insert(
                    id,
                    (old(self).view().active[id] - diff) as i32,
                ),
                paused: old(self).view().paused,
            }),
            turn_state_wf(final(self).view()),
    {
        proof {
            use_type_invariant(&*self);
        }
        if self.paused_contains(id) {
            return Err(TurnOrderError::EntityPaused);
        }

        let time_until_turn = match self.active.get(&id) {
            Some(time) => *time,
            None => return Err(TurnOrderError::NoSuchEntity),
        };

        let (mut active, paused) = self.take_maps();
        active.insert(id, time_until_turn - diff);
        proof {
            assert(turn_state_wf(TurnState { active: active@, paused: paused@ })) by {
                assert forall|e: Entity| !(#[trigger] active@.contains_key(e) && paused@.contains_key(e)) by {
                    assert(!(old(self).view().active.contains_key(e) && old(self).view().paused.contains_key(e)));
                }
            }
        }
        self.put_maps(active, paused);
        Ok(())
    }

    /// Puts an active entity's turn `diff` further off, counting from now
    /// if its turn is overdue.
    pub fn add_delay_for(&mut self, id: Entity, diff: i32) -> (r: TurnOrderResult<()>)
        requires
            !old(self).view().paused.contains_key(id) && old(self).view().active.contains_key(id)
                ==> delayed_time(old(self).view().active[id], diff) <= i32::MAX,
        ensures
            old(self).view().paused.contains_key(id) ==> r == Err::<(), _>(
                TurnOrderError::EntityPaused,
            ) && final(self).view() == old(self).view(),
            !old(self).view().paused.contains_key(id) && !old(self).view().active.contains_key(id)
                ==> r == Err::<(), _>(TurnOrderError::NoSuchEntity) && final(self).view() == old(
                self,
            ).view(),
            !old(self).view().paused.contains_key(id) && old(self).view().active.contains_key(id)
                ==> r == Ok::<(), TurnOrderError>(()) && final(self).view() == (TurnState {
                active: old(self).view().active.insert(
                    id,
                    delayed_time(old(self).view().active[id], diff) as i32,
                ),
                paused: old(self).view().paused,
            }),
            turn_state_wf(final(self).view()),
    {
        proof {
            use_type_invariant(&*self);
        }
        if self.paused_contains(id) {
            return Err(TurnOrderError::EntityPaused);
        }

        let time_until_turn = match self.active.get(&id) {
            Some(time) => *time,
            None => return Err(TurnOrderError::NoSuchEntity),
        };

        let mut time = if 0 < time_until_turn {
            time_until_turn
        } else {
            0
        };
        time = time + diff;
        let (mut active, paused) = self.take_maps();
        active.insert(id, time);
        proof {
            assert(turn_state_wf(TurnState { active: active@, paused: paused@ })) by {
                assert forall|e: Entity| !(#[trigger] active@.contains_key(e) && paused@.contains_key(e)) by {
                    assert(!(old(self).view().active.contains_key(e) && old(self).view().paused.contains_key(e)));
                }
            }
        }
        self.put_maps(active, paused);
        Ok(())
    }

    /// The time until an active entity's next turn.
    pub fn get_time_for(&self, id: Entity) -> (r: TurnOrderResult<i32>)
        ensures
            r == (if self.view().paused.contains_key(id) {
                Err(TurnOrderError::EntityPaused)
            } else if self.view().active.contains_key(id) {
                Ok(self.view().active[id])
            } else {
                Err(TurnOrderError::NoSuchEntity)
            }),
    {
        if self.paused_contains(id) {
            return Err(TurnOrderError::EntityPaused);
        }

        match self.active.get(&id) {
            Some(time) => Ok(*time),
            None => Err(TurnOrderError::NoSuchEntity),
        }
    }

    /// The entity that acts next: of those with least time left, the one with
    /// the smallest id; `None` when no entity is active.
    pub fn next(&mut self) -> (e: Option<Entity>)
        ensures
            final(self).view() == old(self).view(),
            old(self).view().active.dom().len() == 0 <==> e is None,
            e matches Some(e) ==> is_next_turn(old(self).view().active, e) && !old(
                self,
            ).view().paused.contains_key(e),
            turn_state_wf(final(self).view()),
    {
        proof {
            use_type_invariant(&*self);
        }
        if self.active.is_empty() {
            return None;
        }
        let ghost m = self.active@;
        let ghost mut seen: Set<Entity> = Set::empty();
        let mut best: Option<(Entity, i32)> = None;
        for kv in it: self.active.iter()
            invariant
                m == self.active@,
                it.index() <= it.seq().len(),
                forall|i: int|
                    0 <= i < it.seq().len() ==> #[trigger] m.contains_key(*it.seq()[i].0) && m[*it.seq()[i].0]
                        == *it.seq()[i].1,
                forall|k: Entity|
                    #[trigger] m.contains_key(k) ==> seen.contains(k) || exists|i: int|
                        it.index() <= i < it.seq().len() && *it.seq()[i].0 == k,
                forall|k: Entity| #[trigger] seen.contains(k) ==> m.contains_key(k),
                best is None <==> seen.len() == 0,
                seen.finite(),
                best matches Some(b) ==> m.contains_key(b.0) && m[b.0] == b.1,
                best matches Some(b) ==> forall|k: Entity|
                    #[trigger] seen.contains(k) ==> b.1 <= m[k] && (m[k] == b.1 ==> b.0 <= k),
        {
            let (k, v) = kv;
            match best {
                None => {
                    best = Some((*k, *v));
                },
                Some((bk, bv)) => {
                    // Of equal times, the smallest id goes first.
                    if *v < bv || (*v == bv && *k < bk) {
                        best = Some((*k, *v));
                    }
                },
            }
            proof {
                seen = seen.insert(*k);
            }
        }
        proof {
            assert forall|k: Entity| #[trigger] m.contains_key(k) implies seen.contains(k) by {}
            assert(seen.contains(choose|k: Entity| m.contains_key(k))) by {
                assert(m.dom().len() > 0);
                assert(m.dom().contains(m.dom().choose()));
            }
        }
        match best {
            Some((e, _)) => Some(e),
            None => None,
        }
    }
}

} // verus!
