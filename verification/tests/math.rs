use lib_render::math::{AlmostEq, Vector3, VectorialOperations};

#[test]
fn math_test_vec_eq() {
    let v1 = Vector3 {
        x: 1_f32,
        y: 1_f32,
        z: 1_f32,
    };
    let v2 = Vector3 {
        x: 0_f32,
        y: 0_f32,
        z: 1_f32,
    };
    let v3 = Vector3 {
        x: 0_f32,
        y: 0_f32,
        z: 0_f32,
    };
    assert_eq!(v1,
               Vector3 {
                   x: 1_f32,
                   y: 1_f32,
                   z: 1_f32,
               });
    assert!(v2 != v3 && v3 != v2 && v1 != v3);
}

#[test]
fn math_test_vec_mul() {
    let v1 = Vector3 {
        x: 1_f32,
        y: 1_f32,
        z: 1_f32,
    };
    assert_eq!(&v1 * 2_f32,
               Vector3 {
                   x: 2_f32,
                   y: 2_f32,
                   z: 2_f32,
               });
    assert_eq!(v1 * 2_f32,
               Vector3 {
                   x: 2_f32,
                   y: 2_f32,
                   z: 2_f32,
               });
    let v2 = Vector3 {
        x: 0_f32,
        y: 0_f32,
        z: 0_f32,
    };
    assert_eq!(&v2 * 2_f32, v2);
}

#[test]
fn test_vec_vec_mul() {
    let v1 = Vector3 {
        x: 2_f32,
        y: 2_f32,
        z: 2_f32,
    };
    let v2 = Vector3 {
        x: 0_f32,
        y: 1_f32,
        z: 2_f32,
    };

    assert!((v1 * v2).aeq(&Vector3 {
                               x: 0_f32,
                               y: 2_f32,
                               z: 4_f32,
                           }));
    assert!((&v1 * &v2).aeq(&Vector3 {
                                 x: 0_f32,
                                 y: 2_f32,
                                 z: 4_f32,
                             }));
}

#[test]
fn math_test_vec_arithmetic() {
    let v1 = Vector3 {
        x: 1_f32,
        y: 1_f32,
        z: 1_f32,
    };
    let v2 = Vector3 {
        x: 0_f32,
        y: 0_f32,
        z: 1_f32,
    };
    let v3 = Vector3 {
        x: 55_f32,
        y: -3_f32,
        z: 9_f32,
    };
    let zero = Vector3 {
        x: 0_f32,
        y: 0_f32,
        z: 0_f32,
    };
    assert_eq!(&v1 - &v2,
               Vector3 {
                   x: 1_f32,
                   y: 1_f32,
                   z: 0_f32,
               });
    assert_eq!(&v1 + &v2,
               Vector3 {
                   x: 1_f32,
                   y: 1_f32,
                   z: 2_f32,
               });
    assert_eq!(&v1 + &zero, v1);
    assert_eq!(&v1 - &zero, v1);
    assert_eq!(&v3 - &v1,
               Vector3 {
                   x: 54_f32,
                   y: -4_f32,
                   z: 8_f32,
               });
}

#[test]
fn math_test_vec_div() {
    let v1 = Vector3 {
        x: 1_f32,
        y: 1_f32,
        z: 1_f32,
    };
    let v3 = Vector3 {
        x: 55_f32,
        y: -3_f32,
        z: 9_f32,
    };
    let zero = Vector3 {
        x: 0_f32,
        y: 0_f32,
        z: 0_f32,
    };
    assert_eq!(&zero / 4_f32, zero);
    assert_eq!(&v1 / 1_f32, v1);
    assert_eq!(&v1 / 2_f32,
               Vector3 {
                   x: 0.5_f32,
                   y: 0.5_f32,
                   z: 0.5_f32,
               });
    assert_eq!(v3 / 12_f32,
               Vector3 {
                   x: (55_f32 / 12_f32),
                   y: (-3_f32 / 12_f32),
                   z: (9_f32 / 12_f32),
               });
}

#[test]
fn math_test_vec_cross_product() {
    let v1 = Vector3 {
        x: 1_f32,
        y: 1_f32,
        z: 1_f32,
    };
    let v2 = Vector3 {
        x: 0_f32,
        y: 0_f32,
        z: 1_f32,
    };
    let zero = Vector3 {
        x: 0_f32,
        y: 0_f32,
        z: 0_f32,
    };

    assert_eq!(v1.cross_product_ref(&zero), zero);
    assert_eq!(v1.cross_product_ref(&v2),
               Vector3 {
                   x: 1_f32,
                   y: -1_f32,
                   z: 0_f32,
               })
}

#[test]
fn math_test_vec_dot_product() {
    let v1 = Vector3 {
        x: 1_f32,
        y: 1_f32,
        z: 1_f32,
    };
    let v2 = Vector3 {
        x: 0_f32,
        y: 0_f32,
        z: -1_f32,
    };
    let v3 = Vector3 {
        x: 55_f32,
        y: -3_f32,
        z: 9_f32,
    };
    let zero = Vector3 {
        x: 0_f32,
        y: 0_f32,
        z: 0_f32,
    };

    assert_eq!(v1.dot_product_ref(&zero), 0_f32);
    assert_eq!(v1.dot_product_ref(&v2), -1_f32);
    assert_eq!(v1.dot_product_ref(&v3), 61_f32);
    assert_eq!(v2.dot_product_ref(&v3), -9_f32);
    assert_eq!(v1.dot_product_ref(&v1), 3_f32);
}

#[test]
fn test_almot_eq_vec3() {
    let v1 = Vector3::new(0_f32, 0_f32, 0_f32);
    let v2 = Vector3::new(1_f32, 0_f32, 0_f32);
    let v3 = Vector3::new(0_f32, 1_f32, 0_f32);
    let v4 = Vector3::new(0_f32, 0_f32, 1_f32);
    let v5 = Vector3::new(0_f32, 0_f32, 1_f32 + f32::EPSILON);
    let mut v6 = Vector3::new(f32::EPSILON, 0_f32, f32::EPSILON);
    let v7 = Vector3::new(-f32::EPSILON, -f32::EPSILON, 0_f32);

    assert!(v1.ane(&v2) && v1.ane(&v3) && v1.ane(&v4) && v1.ane(&v5));
    assert!(v2.ane(&v3) && v2.ane(&v4) && v3.ane(&v4));
    assert!(v6.aeq(&v1));
    assert!(v6.ane(&v7));
    assert!(v7.ane(&v6));
    assert!(v1.aeq(&v6) && v1.aeq(&v7));
    v6 = v6 * 2.0;
    assert!(v6.ane(&v1));
}

#[test]
fn math_test_vec_norm() {
    let v1 = Vector3 {
        x: 1_f32,
        y: 2_f32,
        z: 3_f32,
    };
    assert_eq!(v1.norm_squared().sqrt(), 14_f32.sqrt());

    let v2 = Vector3 {
        x: -70_f32,
        y: 35_f32,
        z: 0_f32,
    };
    assert_eq!(v2.norm_squared().sqrt(), 35.0 * (5.0_f32.sqrt()));

    let v3 = Vector3 {
        x: 0_f32,
        y: 0_f32,
        z: 0_f32,
    };
    assert_eq!(v3.norm_squared().sqrt(), 0_f32.sqrt());

    let v4 = Vector3 {
        x: -1_f32,
        y: 0_f32,
        z: 1_f32,
    };
    assert_eq!(v4.norm_squared().sqrt(), 2_f32.sqrt());

    let v5 = Vector3 {
        x: 0_f32,
        y: 0_f32,
        z: 1_f32,
    };
    assert_eq!(v5.norm_squared().sqrt(), 1_f32.sqrt());

    let v6 = Vector3 {
        x: 127.18_f32,
        y: 55.456_f32,
        z: 33.333_f32,
    };
    assert_eq!(v6.norm_squared().sqrt(), 142.69272);

    let v7 = Vector3 {
        x: 2_f32,
        y: 0_f32,
        z: 2_f32,
    };
    assert_eq!(v7.norm_squared().sqrt(), 2_f32 * 2_f32.sqrt());
}
