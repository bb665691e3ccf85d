use lib_render::color::{RGBA32, RGBA8};

#[test]
fn test_simple_color_conversion() {
    let a = RGBA8::new(&0, &0, &0, &0);
    assert_eq!(a, a.to_rgba32().to_rgba8());

    let b = RGBA8::new(&128, &128, &128, &128);
    assert_eq!(b, b.to_rgba32().to_rgba8());

    let c = RGBA8::new(&255, &255, &255, &255);
    assert_eq!(c, c.to_rgba32().to_rgba8());

    let d = RGBA32::new(&0, &0, &0, &0);
    assert_eq!(d, d.to_rgba8().to_rgba32());

    let e = RGBA32::new(&16777216, &16777216, &16777216, &16777216);
    assert_eq!(e, e.to_rgba8().to_rgba32());

    let f = RGBA32::new(&4278190080, &4278190080, &4278190080, &4278190080);
    assert_eq!(f, f.to_rgba8().to_rgba32());
}

#[test]
fn test_advanced_color_conversion() {
    let a = RGBA32::new(&1, &1, &1, &1);
    assert_eq!(a.to_rgba8(), RGBA8::new(&0, &0, &0, &0));

    let b = RGBA32::new(&16777215, &16777215, &16777215, &16777215);
    assert_eq!(b.to_rgba8(), RGBA8::new(&0, &0, &0, &0));

    let c = RGBA32::new(&16777217, &16777217, &16777217, &16777217);
    assert_eq!(c.to_rgba8(), RGBA8::new(&1, &1, &1, &1));

    let d = RGBA32::new(&4278190079, &4278190079, &4278190079, &4278190079);
    assert_eq!(d.to_rgba8(), RGBA8::new(&254, &254, &254, &254));

    let e = RGBA32::new(&4278190080, &4278190080, &4278190080, &4278190080);
    assert_eq!(e.to_rgba8(), RGBA8::new(&255, &255, &255, &255));
}
