use wisp::geometry::{Point, Rect, Size};

fn rect(l: f32, t: f32, r: f32, b: f32) -> Rect<f32> {
    Rect::from_edges(l, t, r, b)
}

#[test]
fn the_shared_edge_belongs_to_exactly_one_of_two_neighbours() {
    // Otherwise a click on the boundary between two things hits both, and
    // which one wins depends on iteration order.
    let left = rect(0.0, 0.0, 10.0, 10.0);
    let right = rect(10.0, 0.0, 20.0, 10.0);
    let on_the_line = Point::new(10.0, 5.0);
    assert!(!left.contains(on_the_line));
    assert!(right.contains(on_the_line));
}

#[test]
fn rectangles_that_only_touch_do_not_intersect() {
    assert!(!rect(0.0, 0.0, 10.0, 10.0).intersects(&rect(10.0, 0.0, 20.0, 10.0)));
    assert!(rect(0.0, 0.0, 10.0, 10.0).intersects(&rect(9.0, 0.0, 20.0, 10.0)));
}

#[test]
fn no_overlap_is_none_rather_than_an_empty_rectangle() {
    // An empty rectangle invites being drawn; None cannot be.
    assert_eq!(
        rect(0.0, 0.0, 5.0, 5.0).intersection(&rect(9.0, 9.0, 12.0, 12.0)),
        None
    );
    assert_eq!(
        rect(0.0, 0.0, 10.0, 10.0).intersection(&rect(5.0, 5.0, 20.0, 20.0)),
        Some(rect(5.0, 5.0, 10.0, 10.0))
    );
}

#[test]
fn a_rectangle_knows_its_edges_in_whole_units() {
    let r = Rect::from_edges(10i32, 20, 40, 60);
    assert_eq!(r.left(), 10);
    assert_eq!(r.top(), 20);
    assert_eq!(r.right(), 40);
    assert_eq!(r.bottom(), 60);
    assert_eq!(r.size, Size::new(30, 40));
}

#[test]
fn the_overlap_of_two_integer_rectangles_is_exact() {
    let a = Rect::from_edges(0i64, 0, 10, 10);
    let b = Rect::from_edges(4i64, -3, 12, 6);
    assert_eq!(a.intersection(&b), Some(Rect::from_edges(4, 0, 10, 6)));
    assert!(a.contains(Point::new(0, 0)));
    assert!(!a.contains(Point::new(10, 0)));
    assert!(!a.contains(Point::new(0, 10)));
}

#[test]
fn a_rectangle_is_its_corner_and_its_size() {
    let r = Rect::new(Point::new(1u32, 2), Size::new(3, 4));
    assert_eq!(r.origin, Point { x: 1, y: 2 });
    assert_eq!(r.size, Size { width: 3, height: 4 });
    assert_eq!((r.right(), r.bottom()), (4, 6));
}
