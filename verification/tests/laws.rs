use lib_render::exact::{divide_nearest, divide_toward_zero, long_root, Ratio};
use lib_render::geometry::bounding_box::BoundingBox;
use lib_render::geometry::obj3d::{GeoPoint, Triangle};
use lib_render::math::{Vector2, Vector3, VectorialOperations};
use lib_render::ray::{Plane, Ray, Surface};

fn vectors() -> Vec<Vector3<i64>> {
    vec![
        Vector3::new(1, 2, 3),
        Vector3::new(-4, 0, 7),
        Vector3::new(0, 0, 0),
        Vector3::new(5, -6, 2),
        Vector3::new(-3, -3, -3),
    ]
}

#[test]
fn test_vector_algebra() {
    for a in vectors() {
        assert_eq!(a.cross_product(&a), Vector3::new(0, 0, 0));
        assert!(a.norm_squared() >= 0);
        for b in vectors() {
            assert_eq!(a.dot_product(&b), b.dot_product(&a));
            assert_eq!(a.cross_product(&b), -b.cross_product(&a));
            assert_eq!(a.cross_product(&b).dot_product(&a), 0);
            assert_eq!(a.cross_product(&b).dot_product(&b), 0);
        }
        for k in [-3i64, 0, 1, 4] {
            assert_eq!((a * k).norm_squared(), k * k * a.norm_squared());
            assert_eq!((a * k).cross_product(&(a * 5i64)), Vector3::new(0, 0, 0));
        }
    }
    assert_eq!(Vector3::new(1, 2, 3).dot_product(&Vector3::new(4, 5, 6)), 32);
    assert_eq!(Vector3::new(1, 2, 3).cross_product(&Vector3::new(4, 5, 6)), Vector3::new(-3, 6, -3));
    assert_eq!(Vector3::new(1, 2, 3).norm_squared_ref(), 14);
    assert_eq!(Vector3::<i64>::zero(), Vector3::new(0, 0, 0));
    assert_eq!(Vector3::<f32>::zero(), Vector3::new(0.0, 0.0, 0.0));
    assert_eq!(Vector3::new(7, 8, 9) / 2, Vector3::new(3, 4, 4));
    assert_eq!(Vector3::new(1, 2, 3) * Vector3::new(4, 5, 6), Vector3::new(4, 10, 18));
    assert_eq!(Vector2::new(1, 2) + Vector2::new(3, 4), Vector2::new(4, 6));
    assert_eq!(Vector2::new(1, 2) - Vector2::new(3, 4), Vector2::new(-2, -2));
    assert_eq!(Vector2::new(1, 2) * 3, Vector2::new(3, 6));
    assert_eq!(&Vector2::new(1, 2) + &Vector2::new(3, 4), Vector2::new(4, 6));
}

#[test]
fn test_ratios() {
    assert!(Ratio::new(1, 3).less_than(&Ratio::new(1, 2)));
    assert!(!Ratio::new(2, 4).less_than(&Ratio::new(1, 2)));
    assert!(Ratio::new(2, 4).same_value(&Ratio::new(1, 2)));
    assert!(Ratio::new(-1, 2).less_than(&Ratio::new(-1, 3)));
    assert!(Ratio::new(1, 2).greater_than(&Ratio::new(-7, 1)));
    assert!(Ratio::new(-1, 5).is_negative());
    assert!(!Ratio::new(0, 5).is_negative());
    assert!(Ratio::new(9223372036854775807, 1).greater_than(&Ratio::new(9223372036854775806, 1)));
    assert!(Ratio::new(1, 9223372036854775807).less_than(&Ratio::new(1, 9223372036854775806)));
    assert_eq!(Ratio::from_integer(-3), Ratio::new(-3, 1));
}

fn triangles() -> Vec<Triangle> {
    let corner = |x, y, z| GeoPoint::new_pos(Vector3::new(x, y, z));
    vec![
        Triangle::new(corner(100, 0, 100), corner(-100, 0, 100), corner(0, 0, -100)),
        Triangle::new(corner(0, 0, -100), corner(-100, 0, 100), corner(100, 0, 100)),
        Triangle::new(corner(10, 20, 30), corner(-40, 25, 60), corner(5, -80, 7)),
        Triangle::new(corner(0, 0, 0), corner(10, 10, 10), corner(20, 20, 20)),
    ]
}

fn rays() -> Vec<Ray> {
    let mut result = Vec::new();
    for origin in [Vector3::new(0, -100, 0), Vector3::new(3, 50, -20), Vector3::new(0, 0, 0)] {
        for x in -4..5 {
            for y in -4..5 {
                for z in -4..5 {
                    if x != 0 || y != 0 || z != 0 {
                        result.push(Ray::new(origin, Vector3::new(x * 25, y * 25, z * 25)));
                    }
                }
            }
        }
    }
    result
}

// The determinant of the quick test and the parameter times the
// determinant, computed apart from the library.
fn determinants(tri: &Triangle, ray: &Ray) -> (i64, i64) {
    let e1 = tri.v_pos() - tri.u_pos();
    let e2 = tri.w_pos() - tri.u_pos();
    let t = ray.origin() - tri.u_pos();
    let det = e1.dot_product(&ray.slope().cross_product(&e2));
    let r = e2.dot_product(&t.cross_product(&e1));
    (det, r)
}

#[test]
fn test_the_two_tests_agree_on_the_front() {
    let mut hits = 0;
    let mut behind = 0;
    for tri in triangles() {
        for ray in rays() {
            let (det, r) = determinants(&tri, &ray);
            let mut full = ray;
            let mut quick = ray;
            let hit = tri.get_intersection_fragment(&mut full);
            let blocked = tri.fast_intersection(&mut quick);
            if det > 0 && r != 0 {
                assert_eq!(hit.is_some(), blocked);
                if blocked {
                    hits += 1;
                    assert_eq!(quick.max_t, Some(Ratio::new(r, 1)));
                    assert!(hit.unwrap().param.same_value(&Ratio::new(r, det)));
                }
            }
            if det == 0 {
                assert!(hit.is_none() && !blocked);
            }
            if det < 0 && hit.is_some() && hit.unwrap().param.num > 0 {
                behind += 1;
                assert!(!blocked);
            }
        }
    }
    assert!(hits > 0);
    assert!(behind > 0);
}

#[test]
fn test_a_box_never_hides_its_triangles() {
    let mut missed = 0;
    for tri in triangles() {
        let mut bbox = BoundingBox::new();
        bbox.add_triangle(&tri);
        for p in [tri.u_pos(), tri.v_pos(), tri.w_pos()] {
            assert!(bbox.min.x <= p.x && p.x <= bbox.max.x);
            assert!(bbox.min.y <= p.y && p.y <= bbox.max.y);
            assert!(bbox.min.z <= p.z && p.z <= bbox.max.z);
        }
        for ray in rays() {
            if !bbox.intersects(&ray) {
                missed += 1;
                let mut full = ray;
                let mut quick = ray;
                assert!(tri.get_intersection_fragment(&mut full).is_none());
                assert!(!tri.fast_intersection(&mut quick));
            }
        }
    }
    assert!(missed > 0);
}

#[test]
fn test_planes_and_rays() {
    let plane = Plane::from_coefficients(3, -4, 12, 26).unwrap();
    let normal = plane.normal();
    for origin in [Vector3::new(0, 0, 0), Vector3::new(5, 5, 5), Vector3::new(-7, 20, -9)] {
        let e = normal.dot_product(&origin) + plane.d;
        for k in [-2i64, -1, 1, 3] {
            let mut ray = Ray::new(origin, normal * k);
            let hit = plane.get_intersection_fragment(&mut ray);
            if k * e < 0 {
                // The squared distance along the ray is the squared
                // distance to the plane.
                let f = hit.unwrap();
                let (num, den) = (f.param.num as i128, f.param.den as i128);
                let ss = (normal * k).norm_squared() as i128;
                let nn = normal.norm_squared() as i128;
                assert_eq!(num * num * ss * nn, (e as i128) * (e as i128) * den * den);
            } else {
                assert!(hit.is_none());
            }
        }
        // Rays across the normal never hit.
        for slope in [Vector3::new(4, 3, 0), Vector3::new(0, 3, 1), Vector3::new(-4, 0, 1)] {
            assert_eq!(normal.dot_product(&slope), 0);
            let mut ray = Ray::new(origin, slope);
            assert!(plane.get_intersection_fragment(&mut ray).is_none());
            assert!(!plane.fast_intersection(&mut ray));
        }
    }
}

#[test]
fn test_nearest_quotients() {
    assert_eq!(divide_nearest(7, 2), 4);
    assert_eq!(divide_nearest(-7, 2), -4);
    assert_eq!(divide_nearest(5, 3), 2);
    assert_eq!(divide_nearest(-5, 3), -2);
    assert_eq!(divide_nearest(4, 3), 1);
    assert_eq!(divide_nearest(-4, 3), -1);
    assert_eq!(divide_nearest(1, 2), 1);
    assert_eq!(divide_nearest(0, 5), 0);
    assert_eq!(divide_nearest(-1999717, 1000), -2000);
    assert_eq!(divide_toward_zero(-1999717, 1000), -1999);
    for a in -50..50 {
        for b in 1..9 {
            let q = divide_nearest(a, b);
            assert!((2 * (q * b - a)).abs() <= b);
        }
    }
    assert_eq!(long_root(0), 0);
    assert_eq!(long_root(1), 1);
    assert_eq!(long_root(3), 1);
    assert_eq!(long_root(4), 2);
    // The length of a vector whose squared norm is 50000000, with sixteen
    // bits after the point.
    assert_eq!(long_root(50000000 * 4294967296), 463409500);
    assert_eq!(long_root(2 * 4294967296), 92681);
    assert_eq!(long_root((1 << 126) - 1), 9223372036854775807);
}
