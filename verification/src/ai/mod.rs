//! Goal-driven monster AI: the facts a monster knows, its targets and goals.
pub mod goal;
pub mod trigger;
pub mod data;

use vstd::prelude::*;

verus! {

/// An entity of the game world, by its id.
pub type Entity = u64;

#[derive(Debug, Copy, Clone, PartialEq, Eq, Structural)]
pub enum Attitude {
    Friendly,
    Neutral,
    Hostile,
}

/// A fact about the world that a monster can sense.
#[derive(Debug, Copy, Clone, PartialEq, Eq, Structural)]
pub enum AiProp {
    HasTarget,
    HasAttackTarget,
    HasPickupTarget,
    TargetVisible,
    TargetDead,
    NextToTarget,
    HealthLow,
    CanDoRanged,
    CanDoMelee,
    HasThrowable,
    AtPosition,
    TargetInInventory,
    OnTopOfTarget,
    HasHealing,
    FoundItem,
    HealingItemNearby,
    ThrowableNearby,
    TargetClose,
    TargetInRange,
    Exists,
    Moving,
}

/// Every sensed fact, in the order the sensors are listed.
pub open spec fn spec_all_props() -> Seq<AiProp> {
    seq![
        AiProp::HasTarget,
        AiProp::HasAttackTarget,
        AiProp::HasPickupTarget,
        AiProp::TargetVisible,
        AiProp::TargetDead,
        AiProp::NextToTarget,
        AiProp::HealthLow,
        AiProp::CanDoRanged,
        AiProp::CanDoMelee,
        AiProp::HasThrowable,
        AiProp::AtPosition,
        AiProp::TargetInInventory,
        AiProp::OnTopOfTarget,
        AiProp::HasHealing,
        AiProp::FoundItem,
        AiProp::HealingItemNearby,
        AiProp::ThrowableNearby,
        AiProp::TargetClose,
        AiProp::TargetInRange,
        AiProp::Exists,
        AiProp::Moving,
    ]
}

/// Every sensed fact, in the order the sensors are listed.
pub fn all_props() -> (props: Vec<AiProp>)
    ensures
        props@ == spec_all_props(),
{
    vec![
        AiProp::HasTarget,
        AiProp::HasAttackTarget,
        AiProp::HasPickupTarget,
        AiProp::TargetVisible,
        AiProp::TargetDead,
        AiProp::NextToTarget,
        AiProp::HealthLow,
        AiProp::CanDoRanged,
        AiProp::CanDoMelee,
        AiProp::HasThrowable,
        AiProp::AtPosition,
        AiProp::TargetInInventory,
        AiProp::OnTopOfTarget,
        AiProp::HasHealing,
        AiProp::FoundItem,
        AiProp::HealingItemNearby,
        AiProp::ThrowableNearby,
        AiProp::TargetClose,
        AiProp::TargetInRange,
        AiProp::Exists,
        AiProp::Moving,
    ]
}

/// A set of facts: each fact at most once, with its truth.
pub struct AiFacts {
    facts: Vec<(AiProp, bool)>,
}

impl AiFacts {
    /// The facts as a map from fact to truth.
    pub closed spec fn view(&self) -> Map<AiProp, bool> {
        Map::new(
            |p: AiProp| exists|i: int| 0 <= i < self.facts.len() && self.facts[i].0 == p,
            |p: AiProp|
                self.facts[choose|i: int| 0 <= i < self.facts.len() && self.facts[i].0 == p].1,
        )
    }

    /// No fact is listed twice.
    pub closed spec fn wf(&self) -> bool {
        forall|i: int, j: int|
            0 <= i < j < self.facts.len() ==> self.facts[i].0 != self.facts[j].0
    }

    pub fn new() -> (f: AiFacts)
        ensures
            f.wf(),
            f.view() == Map::<AiProp, bool>::empty(),
    {
        let f = AiFacts { facts: Vec::new() };
        assert(f.view() =~= Map::<AiProp, bool>::empty());
        f
    }

    /// Position of `prop` in the list, if listed.
    fn find(&self, prop: AiProp) -> (idx: Option<usize>)
        requires
            self.wf(),
        ensures
            match idx {
                Some(i) => i < self.facts.len() && self.facts[i as int].0 == prop,
                None => forall|i: int| 0 <= i < self.facts.len() ==> self.facts[i].0 != prop,
            },
    {
        let mut i: usize = 0;
        while i < self.facts.len()
            invariant
                i <= self.facts.len(),
                forall|k: int| 0 <= k < i ==> self.facts[k].0 != prop,
            decreases self.facts.len() - i,
        {
            if self.facts[i].0 == prop {
                return Some(i);
            }
            i = i + 1;
        }
        None
    }

    /// The truth of `prop`, if known.
    pub fn get(&self, prop: AiProp) -> (v: Option<bool>)
        requires
            self.wf(),
        ensures
            v == (if self.view().contains_key(prop) {
                Some(self.view()[prop])
            } else {
                None
            }),
    {
        match self.find(prop) {
            Some(i) => {
                proof {
                    self.lemma_view_at(i as int);
                }
                Some(self.facts[i].1)
            },
            None => None,
        }
    }

    proof fn lemma_view_at(&self, i: int)
        requires
            self.wf(),
            0 <= i < self.facts.len(),
        ensures
            self.view().contains_key(self.facts[i].0),
            self.view()[self.facts[i].0] == self.facts[i].1,
    {
        let p = self.facts[i].0;
        assert(exists|k: int| 0 <= k < self.facts.len() && self.facts[k].0 == p);
        let k = choose|k: int| 0 <= k < self.facts.len() && self.facts[k].0 == p;
        assert(k == i);
    }

    /// Sets the truth of `prop`.
    pub fn insert(&mut self, prop: AiProp, val: bool)
        requires
            old(self).wf(),
        ensures
            final(self).wf(),
            final(self).view() == old(self).view().insert(prop, val),
    {
        let ghost old_facts = self.facts@;
        let ghost mut pos: int = 0;
        match self.find(prop) {
            Some(i) => {
                self.facts.set(i, (prop, val));
                proof {
                    pos = i as int;
                }
            },
            None => {
                self.facts.push((prop, val));
                proof {
                    pos = old_facts.len() as int;
                }
            },
        }
        assert(self.facts[pos] == (prop, val));
        proof {
            let new_view = self.view();
            let want = Map::new(
                |p: AiProp| exists|i: int| 0 <= i < old_facts.len() && old_facts[i].0 == p,
                |p: AiProp| old_facts[choose|i: int| 0 <= i < old_facts.len() && old_facts[i].0 == p].1,
            ).insert(prop, val);
            assert forall|p: AiProp| #[trigger] new_view.contains_key(p) == want.contains_key(p) by {
                if want.contains_key(p) && p != prop {
                    let k = choose|k: int| 0 <= k < old_facts.len() && old_facts[k].0 == p;
                    assert(self.facts[k].0 == p);
                }
                if new_view.contains_key(p) && p != prop {
                    let k = choose|k: int| 0 <= k < self.facts.len() && self.facts[k].0 == p;
                    assert(old_facts[k].0 == p);
                }
                if p == prop {
                    assert(self.facts[pos].0 == prop);
                }
            }
            assert(new_view =~= want) by {
                assert forall|p: AiProp| #[trigger] new_view.contains_key(p) implies new_view[p]
                    == want[p] by {
                    let k = choose|k: int| 0 <= k < self.facts.len() && self.facts[k].0 == p;
                    self.lemma_view_at(k);
                    if p != prop {
                        let k2 = choose|k2: int| 0 <= k2 < old_facts.len() && old_facts[k2].0 == p;
                        assert(self.facts[k2] == old_facts[k2]);
                        self.lemma_view_at(k2);
                    }
                }
            }
        }
    }
}

impl AiFacts {
    /// Whether both hold the same facts with the same truths.
    pub fn same_as(&self, other: &AiFacts) -> (b: bool)
        requires
            self.wf(),
            other.wf(),
        ensures
            b == (self.view() == other.view()),
    {
        let mut i: usize = 0;
        while i < self.facts.len()
            invariant
                self.wf(),
                other.wf(),
                i <= self.facts.len(),
                forall|k: int|
                    0 <= k < i ==> #[trigger] other.view().contains_key(self.facts[k].0)
                        && other.view()[self.facts[k].0] == self.facts[k].1,
            decreases self.facts.len() - i,
        {
            let (p, v) = self.facts[i];
            proof {
                self.lemma_view_at(i as int);
            }
            match other.get(p) {
                Some(w) => {
                    if w != v {
                        return false;
                    }
                },
                None => {
                    return false;
                },
            }
            assert forall|k: int| 0 <= k < i + 1 implies #[trigger] other.view().contains_key(
                self.facts[k].0,
            ) && other.view()[self.facts[k].0] == self.facts[k].1 by {
                if k == i {
                    assert(self.facts[k] == (p, v));
                }
            }
            i = i + 1;
        }
        let mut j: usize = 0;
        while j < other.facts.len()
            invariant
                self.wf(),
                other.wf(),
                j <= other.facts.len(),
                forall|k: int|
                    0 <= k < self.facts.len() ==> #[trigger] other.view().contains_key(self.facts[k].0)
                        && other.view()[self.facts[k].0] == self.facts[k].1,
                forall|k: int| 0 <= k < j ==> #[trigger] self.view().contains_key(other.facts[k].0),
            decreases other.facts.len() - j,
        {
            let (p, _) = other.facts[j];
            proof {
                other.lemma_view_at(j as int);
            }
            if self.get(p).is_none() {
                return false;
            }
            j = j + 1;
        }
        proof {
            assert forall|p: AiProp| #[trigger] self.view().contains_key(p) == other.view().contains_key(p) by {
                if self.view().contains_key(p) {
                    let k = choose|k: int| 0 <= k < self.facts.len() && self.facts[k].0 == p;
                }
                if other.view().contains_key(p) {
                    let k = choose|k: int| 0 <= k < other.facts.len() && other.facts[k].0 == p;
                }
            }
            assert forall|p: AiProp| #[trigger] self.view().contains_key(p) implies self.view()[p] == other.view()[p] by {
                let k = choose|k: int| 0 <= k < self.facts.len() && self.facts[k].0 == p;
                self.lemma_view_at(k);
            }
            assert(self.view() =~= other.view());
        }
        true
    }
}

/// Every sensed fact with the truth a monster assumes before sensing:
/// only `Exists` holds.
pub fn default_ai_facts() -> (facts: AiFacts)
    ensures
        facts.wf(),
        facts.view() == Map::new(|p: AiProp| true, |p: AiProp| p == AiProp::Exists),
{
    let props = all_props();
    let mut facts = AiFacts::new();
    let mut i: usize = 0;
    while i < props.len()
        invariant
            props@ == spec_all_props(),
            i <= props.len(),
            facts.wf(),
            forall|k: int| 0 <= k < i ==> #[trigger] facts.view().contains_key(props@[k]),
            forall|p: AiProp| #[trigger] facts.view().contains_key(p) ==> facts.view()[p] == (p
                == AiProp::Exists),
        decreases props.len() - i,
    {
        let p = props[i];
        facts.insert(p, p == AiProp::Exists);
        i = i + 1;
    }
    proof {
        assert forall|p: AiProp| #[trigger] facts.view().contains_key(p) by {
            match p {
                AiProp::HasTarget => assert(props@[0] == p),
                AiProp::HasAttackTarget => assert(props@[1] == p),
                AiProp::HasPickupTarget => assert(props@[2] == p),
                AiProp::TargetVisible => assert(props@[3] == p),
                AiProp::TargetDead => assert(props@[4] == p),
                AiProp::NextToTarget => assert(props@[5] == p),
                AiProp::HealthLow => assert(props@[6] == p),
                AiProp::CanDoRanged => assert(props@[7] == p),
                AiProp::CanDoMelee => assert(props@[8] == p),
                AiProp::HasThrowable => assert(props@[9] == p),
                AiProp::AtPosition => assert(props@[10] == p),
                AiProp::TargetInInventory => assert(props@[11] == p),
                AiProp::OnTopOfTarget => assert(props@[12] == p),
                AiProp::HasHealing => assert(props@[13] == p),
                AiProp::FoundItem => assert(props@[14] == p),
                AiProp::HealingItemNearby => assert(props@[15] == p),
                AiProp::ThrowableNearby => assert(props@[16] == p),
                AiProp::TargetClose => assert(props@[17] == p),
                AiProp::TargetInRange => assert(props@[18] == p),
                AiProp::Exists => assert(props@[19] == p),
                AiProp::Moving => assert(props@[20] == p),
            }
        }
        assert(facts.view() =~= Map::new(|p: AiProp| true, |p: AiProp| p == AiProp::Exists));
    }
    facts
}

} // verus!
