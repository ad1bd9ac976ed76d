//! The party: entities that go with the player from world to world, each
//! either active in the current world, or waiting or dead with its loadout
//! kept.
use vstd::prelude::*;
use crate::ids::same_uuid;

verus! {

/// Where a party member is; a member not in the world keeps its loadout.
#[derive(Debug, Clone)]
pub enum PartyMemberStatus<L> {
    Active,
    Waiting(L),
    Dead(L),
}

/// The status of `u` in `entries`, if `u` is there.
pub open spec fn status_in<L>(
    entries: Seq<(uuid::Uuid, PartyMemberStatus<L>)>,
    u: uuid::Uuid,
) -> Option<PartyMemberStatus<L>>
    decreases entries.len(),
{
    if entries.len() == 0 {
        None
    } else if entries.last().0 == u {
        Some(entries.last().1)
    } else {
        status_in(entries.drop_last(), u)
    }
}

/// No id occurs twice in `entries`.
pub open spec fn distinct_ids<L>(entries: Seq<(uuid::Uuid, PartyMemberStatus<L>)>) -> bool {
    forall|i: int, j: int| 0 <= i < j < entries.len() ==> entries[i].0 != entries[j].0
}

proof fn lemma_status_found<L>(entries: Seq<(uuid::Uuid, PartyMemberStatus<L>)>, i: int)
    requires
        distinct_ids(entries),
        0 <= i < entries.len(),
    ensures
        status_in(entries, entries[i].0) == Some(entries[i].1),
    decreases entries.len(),
{
    if i < entries.len() - 1 {
        let rest = entries.drop_last();
        assert(rest[i] == entries[i]);
        lemma_status_found(rest, i);
    }
}

proof fn lemma_status_absent<L>(entries: Seq<(uuid::Uuid, PartyMemberStatus<L>)>, u: uuid::Uuid)
    requires
        forall|i: int| 0 <= i < entries.len() ==> entries[i].0 != u,
    ensures
        status_in(entries, u) is None,
    decreases entries.len(),
{
    if entries.len() > 0 {
        let rest = entries.drop_last();
        assert forall|i: int| 0 <= i < rest.len() implies rest[i].0 != u by {
            assert(rest[i] == entries[i]);
        }
        lemma_status_absent(rest, u);
    }
}

/// In `entries`, `u` has the status `status_in` gives it.
proof fn lemma_status_in<L>(entries: Seq<(uuid::Uuid, PartyMemberStatus<L>)>, u: uuid::Uuid)
    requires
        distinct_ids(entries),
    ensures
        match status_in(entries, u) {
            Some(s) => exists|i: int| 0 <= i < entries.len() && entries[i] == (u, s),
            None => forall|i: int| 0 <= i < entries.len() ==> entries[i].0 != u,
        },
{
    if exists|i: int| 0 <= i < entries.len() && entries[i].0 == u {
        let i = choose|i: int| 0 <= i < entries.len() && entries[i].0 == u;
        lemma_status_found(entries, i);
    } else {
        lemma_status_absent(entries, u);
    }
}

/// The members of a party, each with its status.
#[derive(Debug, Clone)]
pub struct Party<L> {
    members: Vec<(uuid::Uuid, PartyMemberStatus<L>)>,
}

impl<L> Party<L> {
    pub closed spec fn entries(&self) -> Seq<(uuid::Uuid, PartyMemberStatus<L>)> {
        self.members@
    }

    /// Each member is listed once.
    pub open spec fn wf(&self) -> bool {
        distinct_ids(self.entries())
    }

    /// The status of `u`, if `u` is a member.
    pub open spec fn status(&self, u: uuid::Uuid) -> Option<PartyMemberStatus<L>> {
        status_in(self.entries(), u)
    }

    /// A party without members.
    pub fn new() -> (p: Self)
        ensures
            p.wf(),
            forall|u: uuid::Uuid| #[trigger] p.status(u) is None,
    {
        Party { members: Vec::new() }
    }

    /// Where `uuid` is listed, if it is.
    fn position_of(&self, uuid: &uuid::Uuid) -> (r: Option<usize>)
        ensures
            match r {
                Some(i) => i < self.entries().len() && self.entries()[i as int].0 == *uuid,
                None => forall|i: int|
                    0 <= i < self.entries().len() ==> self.entries()[i].0 != *uuid,
            },
    {
        let mut i: usize = 0;
        while i < self.members.len()
            invariant
                i <= self.members@.len(),
                forall|k: int| 0 <= k < i ==> self.members@[k].0 != *uuid,
            decreases self.members@.len() - i,
        {
            if same_uuid(&self.members[i].0, uuid) {
                return Some(i);
            }
            i = i + 1;
        }
        None
    }

    /// Sets the status of the member `uuid`, listing it first if need be.
    fn put(&mut self, uuid: uuid::Uuid, status: PartyMemberStatus<L>)
        requires
            old(self).wf(),
        ensures
            final(self).wf(),
            forall|u: uuid::Uuid|
                #[trigger] final(self).status(u) == if u == uuid {
                    Some(status)
                } else {
                    old(self).status(u)
                },
    {
        let ghost before = self.members@;
        match self.position_of(&uuid) {
            Some(i) => {
                self.members.set(i, (uuid, status));
            },
            None => {
                self.members.push((uuid, status));
            },
        }
        proof {
            let after = self.members@;
            assert(distinct_ids(after)) by {
                assert forall|a: int, b: int| 0 <= a < b < after.len() implies after[a].0
                    != after[b].0 by {
                    if a < before.len() && b < before.len() {
                        if after[a] != before[a] {
                            assert(after[a].0 == uuid);
                            assert(before[a].0 == uuid);
                        }
                        if after[b] != before[b] {
                            assert(after[b].0 == uuid);
                            assert(before[b].0 == uuid);
                        }
                        if after[a] != before[a] || after[b] != before[b] {
                            assert(before[a].0 != before[b].0);
                        }
                    }
                }
            }
            assert forall|u: uuid::Uuid| #[trigger] status_in(after, u) == if u == uuid {
                Some(status)
            } else {
                status_in(before, u)
            } by {
                let k = if after.len() > before.len() {
                    before.len() as int
                } else {
                    choose|k: int| 0 <= k < before.len() && before[k].0 == uuid
                };
                assert(after[k] == (uuid, status));
                if u == uuid {
                    lemma_status_found(after, k);
                } else {
                    lemma_status_in(before, u);
                    match status_in(before, u) {
                        Some(s) => {
                            let j = choose|j: int| 0 <= j < before.len() && before[j] == (u, s);
                            assert(after[j] == before[j]);
                            lemma_status_found(after, j);
                        },
                        None => {
                            assert forall|j: int| 0 <= j < after.len() implies after[j].0 != u by {
                                if j != k {
                                    assert(after[j] == before[j]);
                                }
                            }
                            lemma_status_absent(after, u);
                        },
                    }
                }
            }
        }
    }

    /// Makes `uuid` an active member.
    pub fn add_member(&mut self, uuid: uuid::Uuid)
        requires
            old(self).wf(),
        ensures
            final(self).wf(),
            forall|u: uuid::Uuid|
                #[trigger] final(self).status(u) == if u == uuid {
                    Some(PartyMemberStatus::Active)
                } else {
                    old(self).status(u)
                },
    {
        self.put(uuid, PartyMemberStatus::Active);
    }

    /// Changes the status of the member `uuid`.
    pub fn set_status(&mut self, uuid: uuid::Uuid, status: PartyMemberStatus<L>)
        requires
            old(self).wf(),
            old(self).status(uuid) is Some,
        ensures
            final(self).wf(),
            forall|u: uuid::Uuid|
                #[trigger] final(self).status(u) == if u == uuid {
                    Some(status)
                } else {
                    old(self).status(u)
                },
    {
        self.put(uuid, status);
    }

    /// Whether `uuid` is a member.
    pub fn contains_member(&self, uuid: &uuid::Uuid) -> (b: bool)
        requires
            self.wf(),
        ensures
            b == self.status(*uuid) is Some,
    {
        proof {
            lemma_status_in(self.entries(), *uuid);
        }
        match self.position_of(uuid) {
            Some(i) => {
                proof {
                    lemma_status_found(self.entries(), i as int);
                }
                true
            },
            None => false,
        }
    }

    /// The members active in the world, each once.
    pub fn active_uuids(&self) -> (r: Vec<uuid::Uuid>)
        requires
            self.wf(),
        ensures
            r@.no_duplicates(),
            forall|u: uuid::Uuid|
                #[trigger] r@.contains(u) <==> self.status(u) matches Some(
                    PartyMemberStatus::Active,
                ),
    {
        let mut r: Vec<uuid::Uuid> = Vec::new();
        let mut i: usize = 0;
        while i < self.members.len()
            invariant
                i <= self.members@.len(),
                distinct_ids(self.members@),
                r@.no_duplicates(),
                forall|u: uuid::Uuid|
                    #[trigger] r@.contains(u) <==> exists|k: int|
                        0 <= k < i && self.members@[k] == (u, PartyMemberStatus::<L>::Active),
            decreases self.members@.len() - i,
        {
            if is_member_active(&self.members[i].1) {
                let u = self.members[i].0;
                let ghost old_r = r@;
                r.push(u);
                proof {
                    assert(!old_r.contains(u)) by {
                        if old_r.contains(u) {
                            let k = choose|k: int|
                                0 <= k < i && self.members@[k] == (
                                    u,
                                    PartyMemberStatus::<L>::Active,
                                );
                        }
                    }
                    assert forall|w: uuid::Uuid| #[trigger] r@.contains(w) <==> exists|k: int|
                        0 <= k < i + 1 && self.members@[k] == (w, PartyMemberStatus::<L>::Active) by {
                        if r@.contains(w) && w != u {
                            let j = choose|j: int| 0 <= j < r@.len() && r@[j] == w;
                            assert(old_r[j] == w);
                        }
                        if old_r.contains(w) {
                            let j = choose|j: int| 0 <= j < old_r.len() && old_r[j] == w;
                            assert(r@[j] == w);
                        }
                        if w == u {
                            assert(r@[old_r.len() as int] == u);
                        }
                    }
                    assert forall|a: int, b: int| 0 <= a < b < r@.len() implies r@[a] != r@[b] by {
                        if b == old_r.len() {
                            assert(old_r.contains(r@[a])) by {
                                assert(old_r[a] == r@[a]);
                            }
                        }
                    }
                }
            }
            i = i + 1;
        }
        proof {
            assert forall|u: uuid::Uuid| #[trigger] r@.contains(u) <==> self.status(u) matches Some(
                PartyMemberStatus::Active,
            ) by {
                lemma_status_in(self.entries(), u);
                if r@.contains(u) {
                    let k = choose|k: int|
                        0 <= k < i && self.members@[k] == (u, PartyMemberStatus::<L>::Active);
                    lemma_status_found(self.entries(), k);
                }
            }
        }
        r
    }
}

/// Whether a member with this status is in the world.
fn is_member_active<L>(status: &PartyMemberStatus<L>) -> (b: bool)
    ensures
        b == (*status matches PartyMemberStatus::Active),
{
    match status {
        PartyMemberStatus::Active => true,
        _ => false,
    }
}

} // verus!
