use lib_render::angle::{Deg, Rad};

#[test]
fn test_conversion_deg_to_rad() {
    let a1 = Deg::from(360.0);
    let a2: Rad<f32> = Rad::from(2.0_f32 * std::f32::consts::PI);
    let a3: Deg<f32> = a2.to_deg(std::f32::consts::PI);

    assert_eq!(a1, a3);

    let b1 = Rad::from(std::f32::consts::FRAC_PI_2);
    let b2 = Deg::from(180_f32);
    let b3: Rad<f32> = b2.to_rad(std::f32::consts::PI);
    assert_eq!(b1, b3 / 2_f32);
}

#[test]
fn test_angle_arithmetic() {
    assert_eq!(Deg(30) + Deg(12), Deg(42));
    assert_eq!(Deg(30) * 3, Deg(90));
    assert_eq!(Deg(30) / 4, Deg(7));
    assert_eq!(Rad(1.5_f64) * 2.0, Rad(3.0));
    assert_eq!(Rad(1.5_f64) / 2.0, Rad(0.75));
    assert_eq!(Deg(90u32).to_rad(3), Rad(0));
    assert_eq!(Deg(360u32).to_rad(3), Rad(6));
    assert_eq!(Rad(6u32).to_deg(3), Deg(360));
}
