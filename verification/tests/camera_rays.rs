use raytracer::camera::{Camera, JITTER_END, JITTER_MIN};
use raytracer::fixed::ONE;
use raytracer::vector::{Vector3, COORD_MAX};

fn megapixel() -> Camera {
    Camera { focal_length: ONE, sensor_width: 1024, sensor_height: 1024, pixel_size: 1_000 }
}

#[test]
fn jitter_spans_one_pixel() {
    assert_eq!(JITTER_MIN, -ONE / 2);
    assert_eq!(JITTER_END, ONE / 2);
}

#[test]
fn sensor_point_of_the_upper_left_pixel() {
    assert_eq!(megapixel().sensor_point(0, 0, 0, 0), Vector3::new(-512_000, 512_000, ONE));
}

#[test]
fn sensor_point_of_the_center_pixel() {
    assert_eq!(megapixel().sensor_point(512, 512, 0, 0), Vector3::new(0, 0, ONE));
}

#[test]
fn sensor_point_with_jitter() {
    let camera = megapixel();
    assert_eq!(camera.sensor_point(0, 0, -500_000, 499_999), Vector3::new(-512_500, 511_500, ONE));
    assert_eq!(camera.sensor_point(1023, 1023, 499_999, -500_000), Vector3::new(511_499, -510_500, ONE));
}

#[test]
fn sensor_rows_count_downwards() {
    let camera = Camera { focal_length: ONE, sensor_width: 16, sensor_height: 16, pixel_size: 64_000 };
    assert_eq!(camera.sensor_point(0, 15, 0, 0), Vector3::new(-512_000, -448_000, ONE));
    assert_eq!(camera.sensor_point(8, 8, 0, 0), Vector3::new(0, 0, ONE));
}

#[test]
fn primary_ray_starts_at_the_eye() {
    let ray = megapixel().primary_ray(17, 900, 0, 0);
    assert_eq!(ray.origin, Vector3::new(0, 0, 0));
}

#[test]
fn primary_ray_through_the_center_runs_along_the_axis() {
    let ray = megapixel().primary_ray(512, 512, 0, 0);
    assert_eq!(ray.direction, Vector3::new(0, 0, ONE));
}

#[test]
fn primary_ray_through_the_corner() {
    let ray = megapixel().primary_ray(0, 0, 0, 0);
    assert_eq!(ray.direction, Vector3::new(-414_702, 414_702, 809_965));
    let other = megapixel().primary_ray(1023, 0, 499_999, -500_000);
    assert_eq!(other.direction, Vector3::new(414_296, 415_107, 809_965));
}

#[test]
fn primary_rays_have_length_one() {
    let camera = megapixel();
    let one_sq = (ONE as i128) * (ONE as i128);
    let low = ((ONE - 4) as i128) * ((ONE - 4) as i128);
    let jitters: [i64; 5] = [JITTER_MIN, -123_456, 0, 154_321, JITTER_END - 1];
    let mut x: u32 = 0;
    while x < 1024 {
        let mut y: u32 = 0;
        while y < 1024 {
            for jx in jitters {
                for jy in jitters {
                    let d = camera.primary_ray(x, y, jx, jy).direction;
                    let n = d.dot(&d);
                    assert!(n <= one_sq);
                    assert!(n > low);
                }
            }
            y += 93;
        }
        x += 93;
    }
}

#[test]
fn well_formed_cameras() {
    assert!(megapixel().is_well_formed());
    assert!(Camera { focal_length: 1, sensor_width: 0, sensor_height: 0, pixel_size: i64::MAX }.is_well_formed());
    assert!(Camera { focal_length: COORD_MAX, sensor_width: 1000, sensor_height: 1, pixel_size: 100_000_000 }
        .is_well_formed());
    assert!(!Camera { focal_length: 0, sensor_width: 1024, sensor_height: 1024, pixel_size: 1_000 }.is_well_formed());
    assert!(!Camera { focal_length: -ONE, sensor_width: 1024, sensor_height: 1024, pixel_size: 1_000 }
        .is_well_formed());
    assert!(!Camera { focal_length: COORD_MAX + 1, sensor_width: 1024, sensor_height: 1024, pixel_size: 1_000 }
        .is_well_formed());
    assert!(!Camera { focal_length: ONE, sensor_width: 1024, sensor_height: 1024, pixel_size: 0 }.is_well_formed());
    assert!(!Camera { focal_length: ONE, sensor_width: 1001, sensor_height: 1, pixel_size: 100_000_000 }
        .is_well_formed());
    assert!(!Camera { focal_length: ONE, sensor_width: 1, sensor_height: 1001, pixel_size: 100_000_000 }
        .is_well_formed());
    assert!(!Camera { focal_length: ONE, sensor_width: u32::MAX, sensor_height: 1, pixel_size: i64::MAX }
        .is_well_formed());
}

#[test]
fn new_camera_is_made_if_well_formed() {
    let camera = Camera::new(ONE, 1024, 768, 1_000).unwrap();
    assert_eq!(camera.focal_length, ONE);
    assert_eq!(camera.sensor_width, 1024);
    assert_eq!(camera.sensor_height, 768);
    assert_eq!(camera.pixel_size, 1_000);
    assert!(Camera::new(0, 1024, 768, 1_000).is_none());
    assert!(Camera::new(ONE, 1024, 768, -1).is_none());
    assert!(Camera::new(ONE, 1024, 768, COORD_MAX).is_none());
}
