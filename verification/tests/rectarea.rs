use pyxel_engine::rectarea::RectArea;

fn rect(left: i32, top: i32, width: u32, height: u32) -> RectArea {
    RectArea::new(left, top, width, height)
}

#[test]
fn intersect_partial_overlap() {
    let a = rect(0, 0, 4, 4);
    let b = rect(2, 2, 4, 4);
    assert_eq!(a.intersect(b), rect(2, 2, 2, 2));
}

#[test]
fn intersect_disjoint_is_empty() {
    let a = rect(0, 0, 4, 4);
    let b = rect(10, 10, 3, 3);
    assert_eq!(a.intersect(b), rect(0, 0, 0, 0));
    assert!(a.intersect(b).is_empty());
}

#[test]
fn intersect_containment() {
    let outer = rect(-2, -2, 10, 10);
    let inner = rect(0, 1, 3, 2);
    assert_eq!(outer.intersect(inner), inner);
    assert_eq!(inner.intersect(outer), inner);
}

#[test]
fn intersect_edge_touching_is_empty() {
    // Rectangles sharing only a boundary line do not overlap.
    let a = rect(0, 0, 2, 2);
    let b = rect(2, 0, 2, 2);
    assert!(a.intersect(b).is_empty());
}

#[test]
fn intersect_corner_overlap() {
    let a = rect(0, 0, 3, 3);
    let b = rect(2, 2, 3, 3);
    assert_eq!(a.intersect(b), rect(2, 2, 1, 1));
}

#[test]
fn intersect_commutes_on_samples() {
    let samples = [
        (rect(0, 0, 4, 4), rect(2, 2, 4, 4)),
        (rect(-3, -3, 2, 9), rect(-1, 0, 7, 2)),
        (rect(5, 5, 0, 4), rect(5, 5, 4, 4)),
        (rect(1, 1, 3, 3), rect(9, 9, 1, 1)),
    ];
    for (a, b) in samples {
        assert_eq!(a.intersect(b), b.intersect(a));
    }
}

#[test]
fn intersect_self_is_identity_when_nonempty() {
    let a = rect(-5, 3, 7, 2);
    assert_eq!(a.intersect(a), a);
}

#[test]
fn intersect_with_empty_is_empty() {
    let empty = rect(3, 3, 0, 5);
    let a = rect(0, 0, 10, 10);
    assert!(empty.intersect(a).is_empty());
    assert!(a.intersect(empty).is_empty());
    assert!(empty.intersect(empty).is_empty());
}

#[test]
fn intersect_negative_coordinates() {
    let a = rect(-4, -4, 6, 6);
    let b = rect(-1, -2, 10, 10);
    assert_eq!(a.intersect(b), rect(-1, -2, 3, 4));
}

#[test]
fn intersect_associates_on_samples() {
    let a = rect(0, 0, 8, 8);
    let b = rect(2, 2, 8, 8);
    let c = rect(4, 0, 8, 8);
    assert_eq!(a.intersect(b).intersect(c), a.intersect(b.intersect(c)));
    let d = rect(100, 100, 1, 1);
    assert_eq!(a.intersect(b).intersect(d), a.intersect(b.intersect(d)));
}
