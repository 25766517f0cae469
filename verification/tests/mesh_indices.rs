use mod1::delauney::{delauney_triangulation, Triangle, Vec2};
use mod1::mesh::{calculate_indices, LookupFailure};

#[test]
fn indices_map_corners_back_to_points() {
    let vertices = vec![
        Vec2::new(0, 0),
        Vec2::new(10, 0),
        Vec2::new(0, 10),
        Vec2::new(10, 10),
    ];
    let t1 = Triangle::new(vertices[0], vertices[1], vertices[2]).unwrap();
    let t2 = Triangle::new(vertices[1], vertices[3], vertices[2]).unwrap();
    let triangulation = vec![t1, t2];
    let indices = calculate_indices(&triangulation, &vertices).unwrap();
    assert_eq!(indices, vec![0u16, 1, 2, 1, 3, 2]);
}

#[test]
fn missing_corner_is_a_lookup_failure() {
    let vertices = vec![Vec2::new(0, 0), Vec2::new(10, 0)];
    let t = Triangle::new(Vec2::new(0, 0), Vec2::new(10, 0), Vec2::new(0, 10)).unwrap();
    let triangulation = vec![t];
    assert_eq!(calculate_indices(&triangulation, &vertices), Err(LookupFailure));
}

#[test]
fn lookup_takes_the_first_match() {
    let vertices = vec![
        Vec2::new(5, 5),
        Vec2::new(0, 0),
        Vec2::new(5, 5),
        Vec2::new(10, 0),
    ];
    let t = Triangle::new(Vec2::new(0, 0), Vec2::new(10, 0), Vec2::new(5, 5)).unwrap();
    let triangulation = vec![t];
    let indices = calculate_indices(&triangulation, &vertices).unwrap();
    assert_eq!(indices, vec![1u16, 3, 0]);
}

#[test]
fn empty_triangulation_gives_empty_indices() {
    let vertices = vec![Vec2::new(0, 0)];
    let triangulation: Vec<Triangle> = Vec::new();
    let indices = calculate_indices(&triangulation, &vertices).unwrap();
    assert_eq!(indices.len(), 0);
}

#[test]
fn triangulated_mesh_indexes_cleanly() {
    let points = vec![
        Vec2::new(0, 0),
        Vec2::new(100, 0),
        Vec2::new(0, 100),
        Vec2::new(100, 100),
        Vec2::new(50, 50),
    ];
    let super_triangle = Triangle::new(
        Vec2::new(50, 600),
        Vec2::new(-200, -200),
        Vec2::new(400, -200),
    )
    .unwrap();
    let triangulation = delauney_triangulation(&points, super_triangle).unwrap();
    // Every corner of the output names an input point, so the lookup is
    // guaranteed to succeed.
    let indices = calculate_indices(&triangulation, &points).unwrap();
    assert_eq!(indices.len(), 3 * triangulation.len());
    for (k, index) in indices.iter().enumerate() {
        let triangle = &triangulation[k / 3];
        let corner = match k % 3 {
            0 => triangle.a,
            1 => triangle.b,
            _ => triangle.c,
        };
        assert_eq!(points[*index as usize], corner);
    }
}
