use sabi::engine::tui::{Printer, ViewEvent, ViewEventResult};
use sabi::point::Point;

fn ops(v: Vec<(i32, i32, String)>) -> Vec<(i32, i32, String)> {
    v
}

#[test]
fn prints_are_clipped_to_the_area() {
    let p = Printer::new(Point::new(10, 5));
    assert_eq!(ops(p.print(Point::new(2, 3), "hi")), vec![(2, 3, "hi".to_string())]);
    assert!(p.print(Point::new(10, 0), "x").is_empty());
    assert!(p.print(Point::new(0, 5), "x").is_empty());
    assert_eq!(p.print_hline(Point::new(7, 1), 10, "-"), vec![(7, 1, "---".to_string())]);
    assert_eq!(p.print_hline(Point::new(0, 0), 0, "-"), vec![(0, 0, String::new())]);
    assert_eq!(
        p.print_vline(Point::new(1, 3), 9, "|"),
        vec![(1, 3, "|".to_string()), (1, 4, "|".to_string())]
    );
    assert!(p.print_vline(Point::new(11, 0), 3, "|").is_empty());
    assert!(p.print_vline(Point::new(0, 0), -2, "|").is_empty());
}

#[test]
fn boxes_have_corners_and_sides() {
    let p = Printer::new(Point::new(10, 10));
    let v = p.print_box(Point::new(0, 0), Point::new(3, 3));
    let want: Vec<(i32, i32, String)> = vec![
        (0, 0, "┌".to_string()),
        (0, 2, "└".to_string()),
        (1, 0, "─".to_string()),
        (0, 1, "│".to_string()),
        (2, 0, "┐".to_string()),
        (2, 2, "┘".to_string()),
        (1, 2, "─".to_string()),
        (2, 1, "│".to_string()),
    ];
    assert_eq!(v, want);
    assert!(p.print_box(Point::new(0, 0), Point::new(1, 5)).is_empty());
    assert!(matches!(ViewEvent::Key, ViewEvent::Key));
    assert!(matches!(ViewEventResult::Ignored, ViewEventResult::Ignored));
}
