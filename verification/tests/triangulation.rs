use mod1::delauney::{delauney_triangulation, is_delaunay, Triangle, TriangulationError, Vec2};

fn square_and_center() -> (Vec<Vec2>, Triangle) {
    let points = vec![
        Vec2::new(0, 0),
        Vec2::new(100, 0),
        Vec2::new(0, 100),
        Vec2::new(100, 100),
        Vec2::new(50, 50),
    ];
    let super_triangle = Triangle::new(
        Vec2::new(50, 600),
        Vec2::new(-200, -200),
        Vec2::new(400, -200),
    )
    .unwrap();
    (points, super_triangle)
}

#[test]
fn basic_triangulation() {
    let vertices = vec![
        Vec2::new(50, 50),
        Vec2::new(100, 100),
        Vec2::new(0, 0),
        Vec2::new(100, 0),
        Vec2::new(0, 100),
    ];
    let triangulation = delauney_triangulation(
        &vertices,
        Triangle::new(
            Vec2::new(50, 600),
            Vec2::new(-200, -200),
            Vec2::new(400, -200),
        )
        .unwrap(),
    )
    .unwrap();
    for triangle in triangulation.iter() {
        println!("{:?}", triangle);
    }
    assert_eq!(triangulation.len(), 4);
}

#[test]
fn triangulation_is_successful() {
    let vertices = vec![
        Vec2::new(50, 50),
        Vec2::new(150, 50),
        Vec2::new(50, 150),
        Vec2::new(150, 150),
        Vec2::new(100, 50),
        Vec2::new(100, 150),
        Vec2::new(50, 100),
        Vec2::new(150, 100),
        Vec2::new(0, 0),
        Vec2::new(0, 200),
        Vec2::new(200, 0),
        Vec2::new(200, 200),
    ];
    let triangulation = delauney_triangulation(
        &vertices,
        Triangle::new(
            Vec2::new(100, 600),
            Vec2::new(-200, -200),
            Vec2::new(400, -200),
        )
        .unwrap(),
    )
    .unwrap();
    for triangle in triangulation.iter() {
        println!("{:?}", triangle);
    }
    assert_eq!(triangulation.len(), 18);
    assert!(is_delaunay(&triangulation, &vertices));
}

#[test]
fn square_with_interior_point_gives_four_triangles() {
    let (points, super_triangle) = square_and_center();
    let triangulation = delauney_triangulation(&points, super_triangle).unwrap();
    assert_eq!(triangulation.len(), 4);
}

#[test]
fn output_never_touches_the_seed_triangle() {
    let (points, super_triangle) = square_and_center();
    let triangulation = delauney_triangulation(&points, super_triangle).unwrap();
    for triangle in triangulation.iter() {
        assert!(!triangle.shares_vertex(&super_triangle));
    }
}

#[test]
fn output_satisfies_the_delaunay_property() {
    let (points, super_triangle) = square_and_center();
    let triangulation = delauney_triangulation(&points, super_triangle).unwrap();
    assert!(is_delaunay(&triangulation, &points));

    // A second, irregular cloud.
    let points2 = vec![
        Vec2::new(13, 7),
        Vec2::new(-41, 22),
        Vec2::new(60, -35),
        Vec2::new(8, 90),
        Vec2::new(-70, -55),
        Vec2::new(33, 41),
    ];
    let super2 = Triangle::new(
        Vec2::new(0, 2000),
        Vec2::new(-2000, -2000),
        Vec2::new(2000, -2000),
    )
    .unwrap();
    let triangulation2 = delauney_triangulation(&points2, super2).unwrap();
    assert!(triangulation2.len() > 0);
    assert!(is_delaunay(&triangulation2, &points2));
    for triangle in triangulation2.iter() {
        assert!(!triangle.shares_vertex(&super2));
    }
}

#[test]
fn no_points_gives_no_triangles() {
    let points: Vec<Vec2> = Vec::new();
    let super_triangle = Triangle::new(
        Vec2::new(0, 100),
        Vec2::new(-100, -100),
        Vec2::new(100, -100),
    )
    .unwrap();
    let triangulation = delauney_triangulation(&points, super_triangle).unwrap();
    assert_eq!(triangulation.len(), 0);
}

#[test]
fn duplicate_point_is_not_silently_mistriangulated() {
    let points = vec![
        Vec2::new(0, 0),
        Vec2::new(100, 0),
        Vec2::new(0, 100),
        Vec2::new(0, 0),
    ];
    let super_triangle = Triangle::new(
        Vec2::new(50, 600),
        Vec2::new(-200, -200),
        Vec2::new(400, -200),
    )
    .unwrap();
    // The repeated point is on the circumcircle of every triangle that has
    // its first occurrence as a corner, never strictly inside, so the
    // insertion finds nothing to remove and the duplicate is absorbed.
    let triangles = delauney_triangulation(&points, super_triangle).unwrap();
    assert_eq!(triangles.len(), 1);
    assert!(triangles[0].has_vertex(&Vec2::new(0, 0)));
    assert!(triangles[0].has_vertex(&Vec2::new(100, 0)));
    assert!(triangles[0].has_vertex(&Vec2::new(0, 100)));
    assert!(is_delaunay(&triangles, &points));
}

#[test]
fn collinear_cloud_is_rejected_or_empty() {
    let points = vec![Vec2::new(0, 0), Vec2::new(10, 10), Vec2::new(20, 20)];
    let super_triangle = Triangle::new(
        Vec2::new(0, 500),
        Vec2::new(-500, -400),
        Vec2::new(500, -400),
    )
    .unwrap();
    // Three collinear points admit no triangle: every triangle built during
    // the run leans on a seed corner and is stripped, and no triangle is
    // fabricated over the collinear points.
    let triangles = delauney_triangulation(&points, super_triangle).unwrap();
    assert_eq!(triangles.len(), 0);
}

#[test]
fn point_on_a_seed_edge_reports_degeneracy() {
    // A point on the bottom edge of the seed triangle lies strictly inside
    // its circumcircle (every chord point does), so re-triangulating the
    // hole tries to build a triangle over that edge and the point, which is
    // degenerate.
    let points = vec![Vec2::new(0, -100)];
    let super_triangle = Triangle::new(
        Vec2::new(0, 100),
        Vec2::new(-100, -100),
        Vec2::new(100, -100),
    )
    .unwrap();
    let r = delauney_triangulation(&points, super_triangle);
    assert!(matches!(r, Err(TriangulationError::Degenerate(_))));
}

#[test]
fn too_small_seed_triangle_keeps_no_triangle() {
    // The seed triangle lies inside the point cloud instead of around it.
    // Every triangle the broken run builds keeps a seed corner, so the
    // cleanup strips them all, and whatever does come out has passed the
    // engine's Delaunay audit.
    let points = vec![
        Vec2::new(-100, -100),
        Vec2::new(100, -100),
        Vec2::new(-100, 100),
        Vec2::new(100, 100),
        Vec2::new(0, 130),
        Vec2::new(0, -130),
    ];
    let super_triangle = Triangle::new(
        Vec2::new(0, 10),
        Vec2::new(-10, -10),
        Vec2::new(10, -10),
    )
    .unwrap();
    let triangles = delauney_triangulation(&points, super_triangle).unwrap();
    assert_eq!(triangles.len(), 0);
    assert!(is_delaunay(&triangles, &points));
}
