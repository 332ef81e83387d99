use barnes_hut::body::Body;
use barnes_hut::bound::Bound;
use barnes_hut::vec_2d::{Vec2D, floor_sqrt};

#[test]
fn norm_is_the_true_two_norm() {
    assert_eq!(Vec2D::new(3, 4).norm(), 5);
    assert_eq!(Vec2D::new(-3, 4).norm(), 5);
    assert_eq!(Vec2D::new(1, 1).norm(), 1);
    assert_eq!(Vec2D::new(2, -2).norm_squared(), 8);
    assert_eq!(Vec2D::new(i32::MIN, i32::MIN).norm(), 3037000499);
}

#[test]
fn floor_sqrt_of_squares_and_between() {
    assert_eq!(floor_sqrt(0), 0);
    assert_eq!(floor_sqrt(1), 1);
    assert_eq!(floor_sqrt(99), 9);
    assert_eq!(floor_sqrt(100), 10);
}

#[test]
fn vector_arithmetic() {
    let a = Vec2D::new(3, -4);
    let b = Vec2D::new(10, 20);
    assert_eq!(a.add(b), Vec2D::new(13, 16));
    assert_eq!(a.sub(b), Vec2D::new(-7, -24));
    assert_eq!(Vec2D::zero(), Vec2D::new(0, 0));
    assert_eq!(Vec2D::default(), Vec2D::zero());
}

#[test]
fn containment_is_strict() {
    let b = Bound::new(0, 0, 10, 20);
    assert!(b.contains(&Body::new(5, 5, 1)));
    assert!(!b.contains(&Body::new(0, 5, 1)));
    assert!(!b.contains(&Body::new(10, 5, 1)));
    assert!(!b.contains(&Body::new(5, 0, 1)));
    assert!(!b.contains(&Body::new(5, 20, 1)));
    assert!(b.contains(&Body::new(9, 19, 1)));
}

#[test]
fn subdivide_gives_four_exact_halves() {
    let b = Bound::new(-3, 4, 5, 7);
    let (nw, ne, sw, se) = b.subdivide();
    assert_eq!(nw, Bound { x: -6, y: 8, w: 5, h: 7, unit: 2 });
    assert_eq!(ne, Bound { x: -1, y: 8, w: 5, h: 7, unit: 2 });
    assert_eq!(sw, Bound { x: -6, y: 15, w: 5, h: 7, unit: 2 });
    assert_eq!(se, Bound { x: -1, y: 15, w: 5, h: 7, unit: 2 });
    // The midlines, x = -0.5 and y = 7.5, belong to no quadrant's interior.
    let p = Body::new(-1, 6, 1);
    assert!(nw.contains(&p));
    assert_eq!(b.quadrant_of(Vec2D::new(-1, 6)), 0);
    assert_eq!(b.quadrant_of(Vec2D::new(0, 6)), 1);
    assert_eq!(b.quadrant_of(Vec2D::new(0, 8)), 3);
    assert_eq!(b.quadrant_of(Vec2D::new(-1, 8)), 2);
}

#[test]
fn body_constructor_and_distance() {
    let a = Body::new(0, 0, 3);
    assert_eq!(a.position, Vec2D::new(0, 0));
    assert_eq!(a.mass, 3);
    assert_eq!(a.dist(&Body::new(6, 8, 1)), 10);
    assert_eq!(a.dist(&a), 0);
}
