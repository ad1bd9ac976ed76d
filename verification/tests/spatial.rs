use sabi::data::spatial::{Elt, Place, Spatial};
use sabi::point::Point;

#[test]
fn test_serialization() {
    let e1 = 1;

    let mut spatial = Spatial::new();
    let p1 = Place::At(Point::new(10, 10));
    spatial.insert(e1, p1);

    let saved = spatial.dump();
    let spatial2 = Spatial::slurp(saved);

    assert_eq!(spatial2.get(e1), Some(p1));
}

#[test]
fn test_freeze_unfreeze() {
    let e1 = 1;

    let mut spatial = Spatial::new();
    let p1 = Place::At(Point::new(10, 10));
    spatial.insert(e1, p1);

    spatial.freeze(e1);
    assert_eq!(spatial.get(e1), Some(Place::Unloaded(Point::new(10, 10))));
    assert_eq!(spatial.iter().len(), 1);
    spatial.unfreeze(e1);
    assert_eq!(spatial.get(e1), Some(p1))
}

#[test]
fn entities_keep_their_arrival_order() {
    let mut spatial = Spatial::new();
    let here = Point::new(3, 4);
    spatial.insert_at(5, here);
    spatial.insert_at(2, here);
    spatial.insert_at(9, here);
    assert_eq!(spatial.entities_at(here), vec![5, 2, 9]);
    // The last one takes the place of one that leaves.
    spatial.insert_at(5, Point::new(0, 0));
    assert_eq!(spatial.entities_at(here), vec![9, 2]);
    assert_eq!(spatial.entities_at(Point::new(0, 0)), vec![5]);
    assert_eq!(spatial.entities_at(Point::new(7, 7)), Vec::<u64>::new());
}

#[test]
fn containers_hold_their_contents() {
    let mut spatial = Spatial::new();
    let bag = 1;
    let box_ = 2;
    let coin = 3;
    spatial.insert_at(bag, Point::new(1, 1));
    spatial.insert_in(box_, bag);
    spatial.insert_in(coin, box_);
    assert!(spatial.contains(bag, coin));
    assert!(spatial.contains(box_, coin));
    assert!(!spatial.contains(coin, bag));
    assert_eq!(spatial.entities_in(bag), vec![box_]);
    assert_eq!(spatial.get(coin), Some(Place::In(box_)));
    assert_eq!(
        spatial.dump_containing(box_),
        vec![Elt(coin, Place::In(box_))]
    );

    spatial.remove(bag);
    assert_eq!(spatial.get(bag), None);
    assert_eq!(spatial.get(box_), None);
    assert_eq!(spatial.get(coin), None);
    assert!(spatial.iter().is_empty());
    assert!(spatial.entities_at(Point::new(1, 1)).is_empty());
}

#[test]
fn removing_leaves_others_in_place() {
    let mut spatial = Spatial::new();
    spatial.insert_at(1, Point::new(0, 0));
    spatial.insert_at(2, Point::new(0, 0));
    spatial.insert_in(3, 1);
    spatial.insert_in(4, 2);
    spatial.remove(1);
    assert_eq!(spatial.iter(), vec![(2, Place::At(Point::new(0, 0))), (4, Place::In(2))]);
    assert_eq!(spatial.entities_at(Point::new(0, 0)), vec![2]);
    assert!(spatial.entities_in(1).is_empty());
}

#[test]
fn dump_lists_entities_by_id() {
    let mut spatial = Spatial::new();
    spatial.insert_at(8, Point::new(1, 2));
    spatial.insert_at(3, Point::new(5, 5));
    spatial.insert_in(6, 8);
    spatial.freeze(3);
    assert_eq!(
        spatial.dump(),
        vec![
            Elt(3, Place::Unloaded(Point::new(5, 5))),
            Elt(6, Place::In(8)),
            Elt(8, Place::At(Point::new(1, 2))),
        ]
    );
    // Freezing something not on the map changes nothing.
    spatial.freeze(6);
    assert_eq!(spatial.get(6), Some(Place::In(8)));
    spatial.unfreeze(8);
    assert_eq!(spatial.get(8), Some(Place::At(Point::new(1, 2))));
    let copy = Spatial::slurp(spatial.dump());
    assert_eq!(copy.iter(), spatial.iter());
}
