use screencap::geom::{Point, Rect};

#[test]
fn drag_rect_uses_min_corner_and_absolute_extent() {
    let r = Rect::from_drag(Point::new(500, 100), Point::new(100, 400));
    assert_eq!(r, Rect { x: 100, y: 100, w: 400, h: 300 });
    let r = Rect::from_drag(Point::new(3, 3), Point::new(3, 3));
    assert_eq!(r, Rect { x: 3, y: 3, w: 0, h: 0 });
}

#[test]
fn clamp_moves_the_point_to_the_nearest_edge() {
    let red = Rect { x: 100, y: 100, w: 400, h: 300 };
    assert_eq!(
        Point::new(1000, 1000).clamp_to_rect(&red),
        Point { x: 500, y: 400 },
    );
    assert_eq!(Point::new(0, 250).clamp_to_rect(&red), Point { x: 100, y: 250 });
    assert_eq!(Point::new(250, 250).clamp_to_rect(&red), Point { x: 250, y: 250 });
}

#[test]
fn in_rect_includes_the_borders() {
    let red = Rect { x: 100, y: 100, w: 400, h: 300 };
    assert!(Point::new(100, 100).in_rect(&red));
    assert!(Point::new(500, 400).in_rect(&red));
    assert!(!Point::new(501, 400).in_rect(&red));
    assert!(!Point::new(99, 250).in_rect(&red));
}
