use mod1::delauney::{circumcenter, DegenerateTriangleError, Edge, Triangle, Vec2};

fn scaled_dist2(t: &Triangle, p: &Vec2) -> i128 {
    let dx: i128 = t.circumcenter.den * (p.x as i128) - t.circumcenter.ux;
    let dy: i128 = t.circumcenter.den * (p.y as i128) - t.circumcenter.uy;
    dx * dx + dy * dy
}

#[test]
fn does_share_vertex() {
    let super_triangle = Triangle::new(
        Vec2::new(5, 50),
        Vec2::new(50, -40),
        Vec2::new(-50, -40),
    )
    .unwrap();
    let smaller_triangle = Triangle::new(
        Vec2::new(0, 0),
        Vec2::new(10, 0),
        Vec2::new(50, -40),
    )
    .unwrap();
    assert!(smaller_triangle.shares_vertex(&super_triangle));
}

#[test]
fn does_not_share_vertex() {
    let t1 = Triangle::new(Vec2::new(0, 0), Vec2::new(10, 0), Vec2::new(0, 10)).unwrap();
    let t2 = Triangle::new(Vec2::new(1, 1), Vec2::new(9, 1), Vec2::new(1, 9)).unwrap();
    assert!(!t1.shares_vertex(&t2));
    assert!(t1.has_vertex(&Vec2::new(10, 0)));
    assert!(!t1.has_vertex(&Vec2::new(10, 1)));
}

#[test]
fn edge_equality_is_symmetric() {
    let p1 = Vec2::new(3, 7);
    let p2 = Vec2::new(-4, 12);
    assert!(Edge::new(p1, p2) == Edge::new(p2, p1));
    assert!(Edge::new(p2, p1) == Edge::new(p1, p2));
    assert!(Edge::new(p1, p2) == Edge::new(p1, p2));
    let p3 = Vec2::new(0, 0);
    assert!(Edge::new(p1, p2) != Edge::new(p1, p3));
    assert!(Edge::new(p1, p3) != Edge::new(p2, p1));
}

#[test]
fn squared_distance_is_exact() {
    let a = Vec2::new(0, 0);
    let b = Vec2::new(3, 4);
    assert_eq!(Vec2::distance(&a, &b), 25);
    assert_eq!(a.distance_to(&b), 25);
    assert_eq!(b.distance_to(&a), 25);
    assert_eq!(a.distance_to(&a), 0);
    let c = Vec2::new(-100_000, -100_000);
    let d = Vec2::new(100_000, 100_000);
    assert_eq!(c.distance_to(&d), 80_000_000_000);
}

#[test]
fn collinear_corners_are_rejected() {
    let r = Triangle::new(Vec2::new(0, 0), Vec2::new(1, 1), Vec2::new(2, 2));
    assert_eq!(r, Err(DegenerateTriangleError));
    let r2 = Triangle::new(Vec2::new(0, 0), Vec2::new(10, 0), Vec2::new(20, 0));
    assert_eq!(r2, Err(DegenerateTriangleError));
}

#[test]
fn coincident_corners_are_rejected() {
    let r = Triangle::new(Vec2::new(5, 5), Vec2::new(5, 5), Vec2::new(2, 9));
    assert_eq!(r, Err(DegenerateTriangleError));
    let r2 = Triangle::new(Vec2::new(5, 5), Vec2::new(2, 9), Vec2::new(2, 9));
    assert_eq!(r2, Err(DegenerateTriangleError));
}

#[test]
fn circumcenter_exact_values() {
    // Circumcircle of (0,0), (4,0), (0,4) has center (2,2): den 32,
    // numerators 64, and 64 / 32 == 2.
    let t = Triangle::new(Vec2::new(0, 0), Vec2::new(4, 0), Vec2::new(0, 4)).unwrap();
    assert_eq!(t.circumcenter.den, 32);
    assert_eq!(t.circumcenter.ux, 64);
    assert_eq!(t.circumcenter.uy, 64);
}

#[test]
fn circumcenter_matches_the_determinant_formula() {
    // Circumcircle of (0,0), (4,0), (0,4): center (2,2) as (64/32, 64/32).
    let cc = circumcenter(&Vec2::new(0, 0), &Vec2::new(4, 0), &Vec2::new(0, 4));
    assert_eq!(cc.den, 32);
    assert_eq!(cc.ux, 64);
    assert_eq!(cc.uy, 64);
    // Collinear corners: the denominator vanishes instead of dividing by it.
    let flat = circumcenter(&Vec2::new(0, 0), &Vec2::new(1, 1), &Vec2::new(2, 2));
    assert_eq!(flat.den, 0);
    // The scaled distances from the three corners to the center agree.
    let a = Vec2::new(-3, 11);
    let b = Vec2::new(42, -7);
    let c = Vec2::new(19, 23);
    let cc2 = circumcenter(&a, &b, &c);
    let d = |p: &Vec2| -> i128 {
        let dx: i128 = cc2.den * (p.x as i128) - cc2.ux;
        let dy: i128 = cc2.den * (p.y as i128) - cc2.uy;
        dx * dx + dy * dy
    };
    assert_eq!(d(&a), d(&b));
    assert_eq!(d(&a), d(&c));
}

#[test]
fn circumcenter_is_equidistant_from_corners() {
    let t = Triangle::new(Vec2::new(-3, 11), Vec2::new(42, -7), Vec2::new(19, 23)).unwrap();
    let da: i128 = scaled_dist2(&t, &t.a);
    let db: i128 = scaled_dist2(&t, &t.b);
    let dc: i128 = scaled_dist2(&t, &t.c);
    assert_eq!(da, db);
    assert_eq!(da, dc);
}

#[test]
fn circumcircle_containment_is_strict() {
    let t = Triangle::new(Vec2::new(0, 0), Vec2::new(4, 0), Vec2::new(0, 4)).unwrap();
    // Center of the circumcircle.
    assert!(t.contains_point_in_circumcircle(&Vec2::new(2, 2)));
    // Exactly on the circle: not strictly inside.
    assert!(!t.contains_point_in_circumcircle(&Vec2::new(4, 4)));
    // A corner: on the circle as well.
    assert!(!t.contains_point_in_circumcircle(&Vec2::new(0, 0)));
    // Far outside.
    assert!(!t.contains_point_in_circumcircle(&Vec2::new(100, 100)));
}
