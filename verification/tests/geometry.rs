use dene::Rect;

#[test]
fn rect_new_and_resize() {
    let r = Rect::new(1, 2, 3, 4);
    assert_eq!(r, Rect { x: 1, y: 2, width: 3, height: 4 });
    let s = r.resize(10, 20);
    assert_eq!(s, Rect { x: 1, y: 2, width: 10, height: 20 });
    assert_eq!(Rect::zero(), Rect::default());
    assert_eq!(Rect::zero(), Rect { x: 0, y: 0, width: 0, height: 0 });
}

#[test]
fn rect_contains_edges() {
    let r = Rect::new(2, 3, 4, 5);
    assert!(r.contains(2, 3));
    assert!(r.contains(5, 7));
    assert!(!r.contains(6, 3));
    assert!(!r.contains(2, 8));
    assert!(!r.contains(1, 3));
    assert!(!r.contains(2, 2));
}

#[test]
fn rect_contains_clamps_at_the_edge_of_the_grid() {
    let r = Rect::new(65530, 65530, 100, 100);
    assert!(r.contains(65534, 65534));
    assert!(!r.contains(65535, 65530));
    assert!(!r.contains(65530, 65535));
}

#[test]
fn rect_intersection_overlap() {
    let a = Rect::new(0, 0, 10, 10);
    let b = Rect::new(5, 6, 10, 10);
    let i = a.intersection(&b);
    assert_eq!(i, Rect::new(5, 6, 5, 4));
    assert_eq!(i, b.intersection(&a));
}

#[test]
fn rect_intersection_disjoint_is_empty() {
    let a = Rect::new(0, 0, 3, 3);
    let b = Rect::new(10, 10, 3, 3);
    let i = a.intersection(&b);
    assert_eq!(i, Rect::new(10, 10, 0, 0));
    assert!(i.is_empty());
}

#[test]
fn rect_intersection_points_lie_in_both() {
    let a = Rect::new(1, 1, 6, 4);
    let b = Rect::new(3, 0, 8, 3);
    let i = a.intersection(&b);
    for x in 0..12u16 {
        for y in 0..8u16 {
            assert_eq!(i.contains(x, y), a.contains(x, y) && b.contains(x, y));
        }
    }
}

#[test]
fn rect_intersection_with_itself() {
    let a = Rect::new(4, 5, 6, 7);
    assert_eq!(a.intersection(&a), a);
    let edge = Rect::new(65000, 0, 1000, 1);
    assert_eq!(edge.intersection(&edge), Rect::new(65000, 0, 535, 1));
}

#[test]
fn rect_is_empty() {
    assert!(Rect::new(3, 3, 0, 5).is_empty());
    assert!(Rect::new(3, 3, 5, 0).is_empty());
    assert!(!Rect::new(3, 3, 1, 1).is_empty());
}
