use sabi::data::turn_order::TurnOrder;
use sabi::data::turn_order::TurnOrderError::{AlreadyExists, EntityActive, EntityPaused, NoSuchEntity};

#[test]
fn test_single_id() {
    let mut turn_order = TurnOrder::new();
    let entity = 1;
    turn_order.insert(entity, 0).unwrap();

    assert_eq!(turn_order.next(), Some(entity));

    turn_order.add_delay_for(entity, 100).unwrap();

    assert_eq!(turn_order.next(), Some(entity));
}

#[test]
fn test_two_ids() {
    let mut turn_order = TurnOrder::new();

    let first_entity = 1;
    let second_entity = 2;
    turn_order.insert(first_entity, 0).unwrap();
    turn_order.insert(second_entity, 10).unwrap();

    assert_eq!(turn_order.next(), Some(first_entity));

    turn_order.add_delay_for(first_entity, 100).unwrap();
    assert_eq!(turn_order.next(), Some(second_entity));

    turn_order.add_delay_for(second_entity, 100).unwrap();
    assert_eq!(turn_order.next(), Some(first_entity));

    turn_order.advance_time_for(second_entity, 100).unwrap();
    assert_eq!(turn_order.next(), Some(second_entity));
}

#[test]
fn test_pause_resume() {
    let mut turn_order = TurnOrder::new();

    let fast = 1;
    let slow = 2;
    turn_order.insert(fast, 1).unwrap();
    turn_order.insert(slow, 10000).unwrap();

    assert_eq!(turn_order.next(), Some(fast));

    turn_order.pause(fast).unwrap();
    assert_eq!(turn_order.next(), Some(slow));
    assert_eq!(turn_order.get_time_for(fast), Err(EntityPaused));
    assert_eq!(turn_order.add_delay_for(fast, 100), Err(EntityPaused));

    turn_order.resume(fast).unwrap();
    assert_eq!(turn_order.next(), Some(fast));
    assert_eq!(turn_order.get_time_for(fast), Ok(1));
    assert_eq!(turn_order.add_delay_for(fast, 100), Ok(()));
}

#[test]
fn test_insert() {
    let mut turn_order = TurnOrder::new();

    let entity = 1;

    assert_eq!(turn_order.insert(entity, 1), Ok(()));
    assert_eq!(turn_order.insert(entity, 100), Err(AlreadyExists));

    turn_order.pause(entity).unwrap();
    assert_eq!(turn_order.insert(entity, 100), Err(AlreadyExists));
}

#[test]
fn test_remove() {
    let mut turn_order = TurnOrder::new();

    let entity = 1;
    turn_order.insert(entity, 1).unwrap();

    assert_eq!(turn_order.remove(entity), Ok(()));
    assert_eq!(turn_order.remove(entity), Err(NoSuchEntity));

    turn_order.insert(entity, 1).unwrap();
    turn_order.pause(entity).unwrap();
    assert_eq!(turn_order.remove(entity), Ok(()));
    assert_eq!(turn_order.remove(entity), Err(NoSuchEntity));
}

#[test]
fn test_pause_resume_twice() {
    let mut turn_order = TurnOrder::new();

    let fast = 1;
    let slow = 2;

    assert_eq!(turn_order.pause(fast), Err(NoSuchEntity));
    assert_eq!(turn_order.resume(fast), Err(NoSuchEntity));

    turn_order.insert(fast, 1).unwrap();
    turn_order.insert(slow, 10000).unwrap();

    assert_eq!(turn_order.resume(fast), Err(EntityActive));

    assert_eq!(turn_order.pause(fast), Ok(()));
    assert_eq!(turn_order.pause(fast), Err(EntityPaused));

    assert_eq!(turn_order.resume(fast), Ok(()));
    assert_eq!(turn_order.resume(fast), Err(EntityActive));
}

#[test]
fn ties_go_to_the_smaller_id() {
    let mut turn_order = TurnOrder::new();
    turn_order.insert(7, 5).unwrap();
    turn_order.insert(3, 5).unwrap();
    turn_order.insert(9, 6).unwrap();
    assert_eq!(turn_order.next(), Some(3));
    turn_order.remove(3).unwrap();
    assert_eq!(turn_order.next(), Some(7));
}

#[test]
fn empty_order_has_no_next() {
    let mut turn_order = TurnOrder::new();
    assert_eq!(turn_order.next(), None);
    turn_order.insert(1, 0).unwrap();
    turn_order.pause(1).unwrap();
    assert_eq!(turn_order.next(), None);
    assert!(turn_order.paused_contains(1));
    assert!(!turn_order.contains(1));
}

#[test]
fn delay_counts_from_now_when_overdue() {
    let mut turn_order = TurnOrder::new();
    turn_order.insert(1, -20).unwrap();
    turn_order.add_delay_for(1, 30).unwrap();
    assert_eq!(turn_order.get_time_for(1), Ok(30));
    turn_order.add_delay_for(1, 5).unwrap();
    assert_eq!(turn_order.get_time_for(1), Ok(35));
    turn_order.advance_time_for(1, 40).unwrap();
    assert_eq!(turn_order.get_time_for(1), Ok(-5));
    assert_eq!(turn_order.advance_time_for(2, 1), Err(NoSuchEntity));
    assert_eq!(turn_order.get_time_for(2), Err(NoSuchEntity));
}

#[test]
fn pause_then_resume_keeps_time() {
    let mut turn_order = TurnOrder::new();
    turn_order.insert(4, 17).unwrap();
    turn_order.pause(4).unwrap();
    assert_eq!(turn_order.advance_time_for(4, 1), Err(EntityPaused));
    turn_order.resume(4).unwrap();
    assert_eq!(turn_order.get_time_for(4), Ok(17));
}

#[test]
fn removing_a_paused_entity_takes_it_out_entirely() {
    let mut turn_order = TurnOrder::new();
    turn_order.insert(7, 3).unwrap();
    turn_order.insert(8, 5).unwrap();
    turn_order.pause(7).unwrap();
    assert_eq!(turn_order.next(), Some(8));
    assert_eq!(turn_order.remove(7), Ok(()));
    assert!(!turn_order.contains(7));
    assert!(!turn_order.paused_contains(7));
    assert_eq!(turn_order.remove(7), Err(NoSuchEntity));
    assert_eq!(turn_order.get_time_for(8), Ok(5));
}
