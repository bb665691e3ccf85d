use lib_render::exact::Ratio;
use lib_render::geometry::bounding_box::BoundingBox;
use lib_render::geometry::obj3d::{is_scale, GeoPoint, Mesh, MeshError, Object, Triangle, Turn};
use lib_render::math::{Vector2, Vector3};
use lib_render::ray::{Plane, Ray, Surface};

// One unit of the scenes below is a hundred steps of the lattice.
fn unit_triangle() -> Triangle {
    let point_a = GeoPoint::new_pos(Vector3::new(100, 0, 100));
    let point_b = GeoPoint::new_pos(Vector3::new(-100, 0, 100));
    let point_c = GeoPoint::new_pos(Vector3::new(0, 0, -100));
    Triangle::new(point_a, point_b, point_c)
}

#[test]
fn obj3d_test_triangle_ray_intersection() {
    let tri1 = unit_triangle();
    assert!(tri1.is_valid());

    // This ray meets the triangle at (0, 0, 0).
    let mut r1 = Ray::new(Vector3::new(0, -100, 0), Vector3::new(0, 100, 0));
    assert!(r1.is_valid());
    let frag1 = tri1.get_intersection_fragment(&mut r1);
    assert_ne!(frag1, None);
    let frag1 = frag1.unwrap();
    assert_eq!(frag1.lattice_point(), Some(Vector3::new(0, 0, 0)));
    assert_eq!(r1.max_t, Some(frag1.param));
    assert!(frag1.param.same_value(&Ratio::from_integer(1)));

    // The edge of the triangle is at x = 0.5, so this ray passes beside it.
    let mut r2 = Ray::new(Vector3::new(0, -100, 0), Vector3::new(51, 100, 0));
    let frag2 = tri1.get_intersection_fragment(&mut r2);
    assert_eq!(frag2, None);
    assert_eq!(r2.max_t, None);

    // This one touches the edge, which belongs to the triangle.
    let mut r3 = Ray::new(Vector3::new(0, -100, 0), Vector3::new(50, 100, 0));
    let frag3 = tri1.get_intersection_fragment(&mut r3);
    assert_ne!(frag3, None);
    assert_eq!(frag3.unwrap().lattice_point(), Some(Vector3::new(50, 0, 0)));
}

#[test]
#[allow(non_snake_case)]
fn obj3D_test_triangle_ray_intersection() {
    let point_a = GeoPoint::new_pos(Vector3::new(100, 0, 100));
    let point_b = GeoPoint::new_pos(Vector3::new(-100, 0, 100));
    let point_c = GeoPoint::new_pos(Vector3::new(0, 0, -100));

    let tri1 = Triangle::new(point_a, point_b, point_c);

    let mut r1 = Ray::new(Vector3::new(0, -100, 0), Vector3::new(0, 100, 0));
    let frag1 = tri1.get_intersection_fragment(&mut r1);
    assert_ne!(frag1, None);

    let mut r2 = Ray::new(Vector3::new(0, -100, 0), Vector3::new(51, 100, 0));
    let frag2 = tri1.get_intersection_fragment(&mut r2);
    assert_eq!(frag2, None);

    let mut r3 = Ray::new(Vector3::new(0, -100, 0), Vector3::new(50, 100, 0));
    let frag3 = tri1.get_intersection_fragment(&mut r3);
    assert_ne!(frag3, None);
}

#[test]
fn test_triangle_quick_test_agrees_on_the_front() {
    let tri = unit_triangle();
    for (slope, expected) in [
        (Vector3::new(0, 100, 0), true),
        (Vector3::new(51, 100, 0), false),
        (Vector3::new(50, 100, 0), true),
        (Vector3::new(-20, 100, 30), true),
        (Vector3::new(0, 100, 120), false),
    ] {
        let mut full = Ray::new(Vector3::new(0, -100, 0), slope);
        let mut quick = Ray::new(Vector3::new(0, -100, 0), slope);
        let hit = tri.get_intersection_fragment(&mut full).is_some();
        let blocked = tri.fast_intersection(&mut quick);
        assert_eq!(hit, expected);
        assert_eq!(blocked, expected);
        if blocked {
            assert!(quick.max_t.unwrap().num > 0);
            assert_eq!(quick.max_t.unwrap().den, 1);
        }
    }
}

#[test]
fn test_triangle_seen_from_behind() {
    // From the other side the full test still finds the triangle; the quick
    // test does not.
    let tri = unit_triangle();
    let mut full = Ray::new(Vector3::new(0, 100, 0), Vector3::new(0, -100, 0));
    let mut quick = Ray::new(Vector3::new(0, 100, 0), Vector3::new(0, -100, 0));
    assert!(tri.get_intersection_fragment(&mut full).is_some());
    assert!(!tri.fast_intersection(&mut quick));
    assert_eq!(quick.max_t, None);
}

#[test]
fn test_triangle_nearest_hit_is_kept() {
    let near = unit_triangle();
    let mut far = unit_triangle();
    far.add_position(&Vector3::new(0, 200, 0));
    let mut ray = Ray::new(Vector3::new(0, -100, 0), Vector3::new(0, 100, 0));
    let first = near.get_intersection_fragment(&mut ray).unwrap();
    // The farther triangle is beyond the bound that the first hit has set.
    assert_eq!(far.get_intersection_fragment(&mut ray), None);
    assert_eq!(ray.max_t, Some(first.param));

    let mut other = Ray::new(Vector3::new(0, -100, 0), Vector3::new(0, 100, 0));
    let beyond = far.get_intersection_fragment(&mut other).unwrap();
    assert!(beyond.param.same_value(&Ratio::from_integer(3)));
    let nearer = near.get_intersection_fragment(&mut other).unwrap();
    assert!(nearer.param.less_than(&beyond.param));
    assert_eq!(other.max_t, Some(nearer.param));
}

#[test]
fn test_triangle_interpolation() {
    let a = GeoPoint::new(Vector3::new(100, 0, 100), Vector3::new(10, 0, 0), Some(Vector2::new(0, 0)));
    let b = GeoPoint::new(Vector3::new(-100, 0, 100), Vector3::new(0, 10, 0), Some(Vector2::new(8192, 0)));
    let c = GeoPoint::new(Vector3::new(0, 0, -100), Vector3::new(0, 0, 10), Some(Vector2::new(0, 8192)));
    let tri = Triangle::new(a, b, c);
    // A ray through the first vertex gets the attributes of that vertex.
    let mut ray = Ray::new(Vector3::new(100, -100, 100), Vector3::new(0, 100, 0));
    let frag = tri.get_intersection_fragment(&mut ray).unwrap();
    assert!(frag.weight > 0);
    assert_eq!(frag.lattice_normal(), Some(Vector3::new(10, 0, 0)));
    assert_eq!(frag.tex_coordinates(), Some(Vector2::new(0, 0)));
    // A ray through the middle of an edge gets the mean of its two ends.
    let mut ray = Ray::new(Vector3::new(0, -100, 100), Vector3::new(0, 100, 0));
    let frag = tri.get_intersection_fragment(&mut ray).unwrap();
    assert_eq!(frag.lattice_normal(), Some(Vector3::new(5, 5, 0)));
    assert_eq!(frag.tex_coordinates(), Some(Vector2::new(4096, 0)));
}

#[test]
fn test_plane_equation() {
    let v1 = Vector3::new(5 - 8, 0, 2 - 7);
    let v2 = Vector3::new(5 - 8, 9 - 3, 1 - 7);
    let origin = Vector3::new(8, 3, 7);
    let plane = Plane::new(&v1, &v2, &origin);
    // The point (3.56, 8.21, 5 * 3.56 / 3 - 8.21 / 6 - 35 / 6), times 600.
    let test = Vector3::new(2136i64, 4926, 5 * 2136 / 3 - 4926 / 6 - 35 * 600 / 6);
    let equation = plane.a * test.x + plane.b * test.y + plane.c * test.z + plane.d * 600;
    assert_eq!(equation, 0);
    assert_eq!(plane.normal(), Vector3::new(30, -3, -18));
    assert_eq!(plane.d, -105);
}

#[test]
fn test_plane_not_intersects_ray() {
    let plane = Plane::from_coefficients(0, 1, 6, 35).unwrap();
    let mut ray = Ray::new(Vector3::new(8, 7, 5), Vector3::new(1, 0, 0));
    assert!(match plane.get_intersection_fragment(&mut ray) {
        None => true,
        _ => false,
    });
    assert!(!plane.fast_intersection(&mut ray));
}

#[test]
fn test_plane_not_intersects_ray_due_to_wrong_sense() {
    let plane = Plane::from_coefficients(0, 1, 6, 35).unwrap();
    let mut ray = Ray::new(Vector3::new(0, 0, 0), Vector3::new(0, 1, 0));
    let intersection = plane.get_intersection_fragment(&mut ray);
    assert!(match intersection {
        None => true,
        Some(_) => false,
    });
}

#[test]
fn test_plane_intersects_ray_once() {
    let plane = Plane::from_coefficients(0, 1, 6, 35).unwrap();
    let mut ray = Ray::new(Vector3::new(0, 0, 0), Vector3::new(0, -1, 0));
    let intersection = plane.get_intersection_fragment(&mut ray);
    assert!(match intersection {
        None => false,
        Some(point) => {
            point.lattice_point() == Some(Vector3::new(0, -35, 0))
                && point.param == Ratio::new(35, 1)
                && point.scale == 1
        }
    });
    // A plane leaves the ray as it is.
    assert_eq!(ray.max_t, None);
}

#[test]
fn test_plane_respects_the_bound_of_the_ray() {
    let plane = Plane::from_coefficients(0, 1, 6, 35).unwrap();
    let mut ray = Ray::new(Vector3::new(0, 0, 0), Vector3::new(0, -2, 0));
    ray.max_t = Some(Ratio::new(17, 1));
    assert!(plane.get_intersection_fragment(&mut ray).is_none());
    ray.max_t = Some(Ratio::new(35, 2));
    let frag = plane.get_intersection_fragment(&mut ray).unwrap();
    assert!(frag.param.same_value(&Ratio::new(35, 2)));
    assert_eq!(frag.position, Vector3::new(0, -70, 0));
    assert_eq!(frag.scale, 2);
}

#[test]
fn test_plane_coefficients_out_of_range() {
    assert!(Plane::from_coefficients(0, 536870913, 0, 0).is_none());
    assert!(Plane::from_coefficients(0, 1, 0, 13194139533313).is_none());
    assert!(Plane::from_coefficients(-536870912, 536870912, 0, -13194139533312).is_some());
}

#[test]
fn test_ray_aimed_along_the_normal() {
    // From a point off the plane, along the normal: the parameter is the
    // distance to the plane over the length of the normal, both squared
    // where the ray is the normal itself.
    let plane = Plane::from_coefficients(2, -1, 2, -27).unwrap();
    let mut ray = Ray::new(Vector3::new(1, 1, 1), Vector3::new(2, -1, 2));
    let frag = plane.get_intersection_fragment(&mut ray).unwrap();
    // lack = 27 - (2 - 1 + 2) = 24, rate = 9.
    assert!(frag.param.same_value(&Ratio::new(24, 9)));
    let mut parallel = Ray::new(Vector3::new(1, 1, 1), Vector3::new(1, 0, -1));
    assert!(plane.get_intersection_fragment(&mut parallel).is_none());
}

#[test]
fn test_bounding_box() {
    let mut bbox = BoundingBox::new();
    let mut ray = Ray::new(Vector3::new(0, -100, 0), Vector3::new(0, 100, 0));
    assert!(!bbox.intersects(&ray));
    let tri = unit_triangle();
    bbox.add_triangle(&tri);
    assert_eq!(bbox.min, Vector3::new(-100, 0, -100));
    assert_eq!(bbox.max, Vector3::new(100, 0, 100));
    assert!(bbox.intersects(&ray));
    // The box test looks at the whole line of the ray.
    ray = Ray::new(Vector3::new(0, -100, 0), Vector3::new(0, -100, 0));
    assert!(bbox.intersects(&ray));
    ray = Ray::new(Vector3::new(0, -100, 0), Vector3::new(101, 100, 0));
    assert!(!bbox.intersects(&ray));
    ray = Ray::new(Vector3::new(0, -100, 0), Vector3::new(100, 100, 0));
    assert!(bbox.intersects(&ray));
    // A ray that does not move along an axis stays where it is on it.
    ray = Ray::new(Vector3::new(200, -100, 0), Vector3::new(0, 100, 0));
    assert!(!bbox.intersects(&ray));
    ray = Ray::new(Vector3::new(100, -100, 100), Vector3::new(0, 0, 1));
    assert!(!bbox.intersects(&ray));
    bbox.add_point(Vector3::new(0, -100, 0));
    assert!(bbox.intersects(&ray));
    assert_eq!(bbox.min, Vector3::new(-100, -100, -100));
}

#[test]
fn test_bounding_box_never_hides_a_triangle() {
    let tri = unit_triangle();
    let mut bbox = BoundingBox::default();
    bbox.add_triangle(&tri);
    for x in -12..12 {
        for z in -12..12 {
            let slope = Vector3::new(x * 10, 100, z * 10);
            let mut ray = Ray::new(Vector3::new(0, -100, 0), slope);
            let mut quick = ray;
            if !bbox.intersects(&ray) {
                assert!(tri.get_intersection_fragment(&mut ray).is_none());
                assert!(!tri.fast_intersection(&mut quick));
            }
        }
    }
}

#[test]
fn test_mesh_create_point() {
    let pos = vec![Vector3::new(1, 2, 3), Vector3::new(4, 5, 6)];
    let norm = vec![Vector3::new(0, 0, 1)];
    let tex = Some(vec![Vector2::new(7, 8)]);
    let none: Option<Vec<Vector2<i64>>> = None;
    assert_eq!(
        Mesh::create_point(2, 1, Some(1), &pos, &norm, &tex),
        Ok(GeoPoint::new(Vector3::new(4, 5, 6), Vector3::new(0, 0, 1), Some(Vector2::new(7, 8))))
    );
    assert_eq!(
        Mesh::create_point(1, 1, None, &pos, &norm, &none),
        Ok(GeoPoint::new(Vector3::new(1, 2, 3), Vector3::new(0, 0, 1), None))
    );
    assert_eq!(Mesh::create_point(0, 1, None, &pos, &norm, &none), Err(MeshError::PositionOutOfRange));
    assert_eq!(Mesh::create_point(3, 1, None, &pos, &norm, &none), Err(MeshError::PositionOutOfRange));
    assert_eq!(Mesh::create_point(1, 2, None, &pos, &norm, &none), Err(MeshError::NormalOutOfRange));
    assert_eq!(Mesh::create_point(1, 1, Some(2), &pos, &norm, &tex), Err(MeshError::TexCoordOutOfRange));
    assert_eq!(Mesh::create_point(1, 1, Some(1), &pos, &norm, &none), Err(MeshError::UnexpectedTexCoord));
    assert_eq!(Mesh::create_point(1, 1, None, &pos, &norm, &tex), Err(MeshError::MissingTexCoord));
}

fn square_mesh() -> Mesh {
    let mut mesh = Mesh::new_empty();
    let a = GeoPoint::new_pos(Vector3::new(10, 10, 0));
    let b = GeoPoint::new_pos(Vector3::new(30, 10, 0));
    let c = GeoPoint::new_pos(Vector3::new(30, 40, 0));
    let d = GeoPoint::new_pos(Vector3::new(10, 40, 0));
    mesh.add_triangle(Triangle::new(a, b, c));
    mesh.add_triangle(Triangle::new(a, c, d));
    mesh
}

#[test]
fn test_barycenters() {
    let mesh = square_mesh();
    assert_eq!(mesh.triangles()[0].get_barycenter(), Vector3::new(23, 20, 0));
    assert_eq!(mesh.triangles()[1].get_barycenter(), Vector3::new(16, 30, 0));
    assert_eq!(mesh.get_barycenter(), Vector3::new(19, 25, 0));
    assert_eq!(Mesh::new_empty().get_barycenter(), Vector3::new(0, 0, 0));
    let tri = Triangle::new(
        GeoPoint::new_pos(Vector3::new(-1, -1, -1)),
        GeoPoint::new_pos(Vector3::new(-1, 0, -3)),
        GeoPoint::new_pos(Vector3::new(0, 0, -3)),
    );
    // The mean is rounded toward zero.
    assert_eq!(tri.get_barycenter(), Vector3::new(0, 0, -2));
}

#[test]
fn test_object_is_put_in_place() {
    let mut object = Object::new_empty();
    object.position = Vector3::new(100, 0, -50);
    object.scale = Vector3::new(Ratio::new(2, 1), Ratio::new(1, 1), Ratio::new(3, 1));
    assert!(object.initialize(square_mesh()));
    assert_eq!(object.barycenter, Vector3::new(19, 25, 0));
    // Centred, then scaled, then moved.
    assert_eq!(object.triangles()[0].u_pos(), Vector3::new((10 - 19) * 2 + 100, 10 - 25, -50));
    assert_eq!(object.triangles()[0].w_pos(), Vector3::new((30 - 19) * 2 + 100, 40 - 25, -50));
    assert_eq!(object.position, Vector3::new(0, 0, 0));
    assert_eq!(object.scale, Vector3::new(Ratio::new(1, 1), Ratio::new(1, 1), Ratio::new(1, 1)));
    let bbox = object.bounding_box();
    assert_eq!(bbox.min, Vector3::new(82, -15, -50));
    assert_eq!(bbox.max, Vector3::new(122, 15, -50));
    assert!(object.is_visible());

    // A quarter turn about the third axis sends x to y and y to -x.
    let mut turned = Object::new_empty();
    turned.rotation.z = Turn { cos: 0, sin: 16384 };
    assert!(turned.initialize(square_mesh()));
    assert_eq!(turned.triangles()[0].u_pos(), Vector3::new(15, -9, 0));
    assert_eq!(turned.rotation.z, Turn::none());

    // A scale may be a fraction, and may mirror: each coordinate is rounded
    // once, to the nearest step.
    let mut small = Object::new_empty();
    small.scale = Vector3::new(Ratio::new(1, 2), Ratio::new(-2, 5), Ratio::new(1, 1));
    assert!(small.is_placeable());
    assert!(small.initialize(square_mesh()));
    // (10 - 19) / 2 = -4.5 and (10 - 25) * -2 / 5 = 6.
    assert_eq!(small.triangles()[0].u_pos(), Vector3::new(-5, 6, 0));
    // (30 - 19) / 2 = 5.5 and (40 - 25) * -2 / 5 = -6.
    assert_eq!(small.triangles()[0].w_pos(), Vector3::new(6, -6, 0));

    // A factor of zero would flatten the object: it is refused, and so is a
    // factor out of the limits, or one without a positive denominator.
    for bad in [Ratio::new(0, 1), Ratio::new(65, 1), Ratio { num: 1, den: 0 }, Ratio::new(1, 65537)] {
        let mut flat = Object::new_empty();
        flat.scale = Vector3::new(Ratio::new(1, 1), bad, Ratio::new(1, 1));
        assert!(!is_scale(&flat.scale));
        assert!(!flat.is_placeable());
        assert!(!flat.initialize(square_mesh()));
        assert_eq!(flat.triangles().len(), 0);
    }
    assert!(is_scale(&Vector3::new(Ratio::new(64, 1), Ratio::new(-1, 65536), Ratio::new(3, 2))));
    // So is a rotation whose cosine is more than one, and a position out
    // of the lattice.
    let mut askew = Object::new_empty();
    askew.rotation.y = Turn { cos: 20000, sin: 0 };
    assert!(!askew.is_placeable());
    assert!(!askew.initialize(square_mesh()));
    let mut away = Object::new_empty();
    away.position = Vector3::new(0, 0, 8193);
    assert!(!away.is_placeable());
    assert!(!away.initialize(square_mesh()));

    // A mesh that leaves the lattice is refused.
    let mut far = Object::new_empty();
    far.position = Vector3::new(8192, 0, 0);
    assert!(!far.initialize(square_mesh()));
    assert_eq!(far.triangles().len(), 0);
    assert!(Object::new(Vector3::new(8192, 0, 0), square_mesh(), "far".to_string()).is_none());
    assert!(Object::new(Vector3::new(0, 0, 0), square_mesh(), "near".to_string()).is_some());
}

#[test]
fn test_object_is_traced_triangle_after_triangle() {
    let mut mesh = Mesh::new_empty();
    let mut far = unit_triangle();
    far.add_position(&Vector3::new(0, 200, 0));
    mesh.add_triangle(far);
    mesh.add_triangle(unit_triangle());
    let mut object = Object::new_empty();
    object.mesh = mesh;
    object.bbox = BoundingBox::new_from_object(&object);
    let mut ray = Ray::new(Vector3::new(0, -100, 0), Vector3::new(0, 100, 0));
    let frag = object.get_intersection_fragment(&mut ray).unwrap();
    assert!(frag.param.same_value(&Ratio::from_integer(1)));
    assert_eq!(ray.max_t, Some(frag.param));
    let mut shadow = Ray::new(Vector3::new(0, -100, 0), Vector3::new(0, 100, 0));
    assert!(object.fast_intersection(&mut shadow));
    // The first triangle that blocks the ray cuts it.
    assert_eq!(shadow.max_t, Some(Ratio::new(12000000, 1)));
    let mut aside = Ray::new(Vector3::new(0, -100, 0), Vector3::new(100, 0, 0));
    assert!(object.get_intersection_fragment(&mut aside).is_none());
    assert!(!object.fast_intersection(&mut aside));
}

#[test]
fn test_barycenter_goes_to_the_position() {
    // Without scale or rotation the barycenter of the object is at its
    // position, within two steps on each axis.
    for position in [Vector3::new(0, 0, 0), Vector3::new(-7, 100, 3), Vector3::new(1000, -2000, 5)] {
        let object = Object::new(position, square_mesh(), "square".to_string()).unwrap();
        let c = object.mesh.get_barycenter();
        assert!((c.x - position.x).abs() <= 2);
        assert!((c.y - position.y).abs() <= 2);
        assert!((c.z - position.z).abs() <= 2);
    }
    // The means are rounded toward zero: the triangles have their
    // barycenters at -2 and -9 on the first axis, whose mean is -5.5.
    let object = Object::new(Vector3::new(-7, 100, 3), square_mesh(), "square".to_string()).unwrap();
    assert_eq!(object.mesh.get_barycenter(), Vector3::new(-5, 100, 3));
}

#[test]
fn test_points_are_scaled_and_turned() {
    let mut point = GeoPoint::new_pos(Vector3::new(10, -7, 3));
    point.scale_from(
        &Vector3::new(0, 1, 0),
        &Vector3::new(Ratio::new(3, 2), Ratio::new(1, 3), Ratio::new(-5, 1)),
    );
    // 10 * 3 / 2 = 15; 1 + (-8) / 3 = 1 - 2.67; 3 * -5 = -15.
    assert_eq!(point.pos, Vector3::new(15, -2, -15));
    // A quarter turn about the first axis sends y to z and z to -y, and
    // leaves x as it is.
    point.rotate_around(&Vector3::new(1, 0, 0), Turn { cos: 0, sin: 16384 });
    assert_eq!(point.pos, Vector3::new(15, 15, -2));
    // Half a turn about the third axis.
    point.rotate_around(&Vector3::new(0, 0, 1), Turn { cos: -16384, sin: 0 });
    assert_eq!(point.pos, Vector3::new(-15, -15, -2));
    point.rotate_around(&Vector3::new(0, -1, 0), Turn::none());
    assert_eq!(point.pos, Vector3::new(-15, -15, -2));
    assert!(Turn { cos: 16384, sin: -16384 }.is_valid());
    assert!(!Turn { cos: 16385, sin: 0 }.is_valid());
}
