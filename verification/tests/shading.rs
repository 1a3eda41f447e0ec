use raytracer::fixed::ONE;
use raytracer::shader::{quantize, shade, Color};
use raytracer::vector::Vector3;

#[test]
fn shade_maps_the_normal_range_onto_the_gamut() {
    assert_eq!(shade(&Vector3::new(0, 0, -ONE)), Color { r: 500_000, g: 500_000, b: 0 });
    assert_eq!(shade(&Vector3::new(ONE, 0, 0)), Color { r: ONE, g: 500_000, b: 500_000 });
    assert_eq!(shade(&Vector3::new(-ONE, ONE, 0)), Color { r: 0, g: ONE, b: 500_000 });
}

#[test]
fn shade_halves_and_rounds_down() {
    assert_eq!(shade(&Vector3::new(831_085, 0, -556_145)), Color { r: 915_542, g: 500_000, b: 221_927 });
    assert_eq!(shade(&Vector3::new(1, -1, 2)), Color { r: 500_000, g: 499_999, b: 500_001 });
}

#[test]
fn shaded_channels_lie_in_the_gamut() {
    let mut n: i64 = -ONE;
    while n <= ONE {
        let c = shade(&Vector3::new(n, -n, 0));
        assert!(0 <= c.r && c.r <= ONE);
        assert!(0 <= c.g && c.g <= ONE);
        assert!(0 <= c.b && c.b <= ONE);
        n += 12_345;
    }
}

#[test]
fn quantize_drops_the_fraction() {
    assert_eq!(quantize(&Color { r: 500_000, g: 500_000, b: 0 }), (127, 127, 0));
    assert_eq!(quantize(&Color { r: ONE, g: ONE - 1, b: 1 }), (255, 254, 0));
    assert_eq!(quantize(&Color { r: 3_922, g: 3_921, b: 996_079 }), (1, 0, 254));
}
