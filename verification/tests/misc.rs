use sabi::data::message_log::MessageLog;
use sabi::data::walkability::Walkability;
use sabi::drawcalls::{Draw, DrawCalls};
use sabi::engine::canvas::{point_inside_canvas, translate_pos};
use sabi::util::clamp;

#[test]
fn message_log_keeps_newest_line_first() {
    let mut log = MessageLog::new();
    log.append("Hello");
    log.append("there.");
    log.next_line();
    log.append("Bye.");
    assert_eq!(log.get_lines(5), vec!["Bye. ".to_string(), "Hello there. ".to_string()]);
    assert_eq!(log.get_lines(1), vec!["Bye. ".to_string()]);
    log.clear();
    assert!(log.get_lines(3).is_empty());
    log.append("again");
    assert_eq!(log.get_lines(3), vec!["again ".to_string()]);
}

#[test]
fn walkability_with_monsters() {
    assert!(Walkability::MonstersWalkable.can_walk(Some(3)));
    assert!(!Walkability::MonstersBlocking.can_walk(Some(3)));
    assert!(Walkability::MonstersBlocking.can_walk(None));
}

#[test]
fn draw_calls_queue() {
    let mut calls = DrawCalls::new();
    calls.push(Draw::Point(1, 2));
    calls.push(Draw::Point(3, 4));
    assert_eq!(calls.len(), 2);
    assert_eq!(calls.get(1), Draw::Point(3, 4));
    calls.clear();
    assert_eq!(calls.len(), 0);
}

#[test]
fn clamp_and_canvas_geometry() {
    assert_eq!(clamp(5, 0, 3), 3);
    assert_eq!(clamp(-5, 0, 3), 0);
    assert_eq!(clamp(2, 0, 3), 2);
    assert!(point_inside_canvas(10, 10, 9, 0));
    assert!(!point_inside_canvas(10, 10, 10, 0));
    assert!(!point_inside_canvas(10, 10, 0, -1));
    // An 80x25 terminal keeps 5 rows for messages: the camera is centered on the 20 above.
    assert_eq!(translate_pos(80, 25, 100, 100, 100, 100), (40, 10));
    assert_eq!(translate_pos(81, 24, 0, 0, -3, 2), (37, 11));
}
