use sabi::ecs::party::{Party, PartyMemberStatus};
use uuid::Uuid;

#[test]
fn party_members_are_added_once() {
    let mut party: Party<u32> = Party::new();
    let a = Uuid::from_u128(1);
    let b = Uuid::from_u128(2);
    assert!(!party.contains_member(&a));
    party.add_member(a);
    party.add_member(b);
    party.add_member(a);
    assert!(party.contains_member(&a));
    assert!(party.contains_member(&b));
    let mut active = party.active_uuids();
    active.sort();
    assert_eq!(active, vec![a, b]);
}

#[test]
fn waiting_and_dead_members_are_not_active() {
    let mut party: Party<&str> = Party::new();
    let a = Uuid::from_u128(10);
    let b = Uuid::from_u128(20);
    let c = Uuid::from_u128(30);
    party.add_member(a);
    party.add_member(b);
    party.add_member(c);
    party.set_status(b, PartyMemberStatus::Waiting("putit"));
    party.set_status(c, PartyMemberStatus::Dead("prinny"));
    assert_eq!(party.active_uuids(), vec![a]);
    assert!(party.contains_member(&c));
    party.set_status(b, PartyMemberStatus::Active);
    let mut active = party.active_uuids();
    active.sort();
    assert_eq!(active, vec![a, b]);
}
