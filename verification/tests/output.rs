use pathtracer::camera::Camera;
use pathtracer::color::{encode_ppm, write_color, write_header, write_number};
use pathtracer::raster::{pixel_coords, pixel_index};
use pathtracer::texture::Color;
use pathtracer::vec3::Vec3;

fn text(bytes: &[u8]) -> String {
    String::from_utf8(bytes.to_vec()).unwrap()
}

/// A channel in thousandths as the byte that the output stage makes of it: the square
/// root for gamma, kept below one, and scaled to a byte.
fn to_byte(thousandths: i64) -> u8 {
    let linear = thousandths as f64 / 1000.0;
    let gamma = if linear > 0.0 { linear.sqrt() } else { 0.0 };
    let kept = if gamma < 0.0 {
        0.0
    } else if gamma > 0.999 {
        0.999
    } else {
        gamma
    };
    (255.999 * kept) as u8
}

#[test]
fn numbers_are_written_in_decimal_without_leading_zeros() {
    for (n, expected) in [
        (0usize, "0"),
        (7, "7"),
        (9, "9"),
        (10, "10"),
        (99, "99"),
        (100, "100"),
        (255, "255"),
        (1024, "1024"),
        (600, "600"),
        (18446744073709551615, "18446744073709551615"),
    ] {
        let mut out = Vec::new();
        write_number(&mut out, n);
        assert_eq!(text(&out), expected);
    }
}

#[test]
fn numbers_are_appended_to_what_is_there() {
    let mut out = vec![b'x', b'='];
    write_number(&mut out, 42);
    assert_eq!(text(&out), "x=42");
}

#[test]
fn pixel_line_is_three_channels_and_a_line_feed() {
    let mut out = Vec::new();
    write_color(&mut out, 0, 128, 255);
    assert_eq!(text(&out), "0 128 255\n");
    write_color(&mut out, 7, 7, 7);
    assert_eq!(text(&out), "0 128 255\n7 7 7\n");
}

#[test]
fn header_is_three_lines() {
    let mut out = Vec::new();
    write_header(&mut out, 600, 337);
    assert_eq!(text(&out), "P3\n600 337\n255\n");
}

#[test]
fn image_is_header_and_one_line_for_each_pixel_in_order() {
    let pixels = vec![[1u8, 2, 3], [4, 5, 6], [7, 8, 9], [10, 11, 12], [13, 14, 15], [16, 17, 18]];
    let out = encode_ppm(3, 2, &pixels).unwrap();
    assert_eq!(
        text(&out),
        "P3\n3 2\n255\n1 2 3\n4 5 6\n7 8 9\n10 11 12\n13 14 15\n16 17 18\n"
    );
    assert_eq!(out.iter().filter(|&&b| b == b'\n').count(), 3 + 6);
}

#[test]
fn image_with_the_wrong_number_of_pixels_is_refused() {
    let pixels = vec![[0u8, 0, 0]; 5];
    assert!(encode_ppm(3, 2, &pixels).is_none());
    assert!(encode_ppm(5, 1, &pixels).is_some());
    assert!(encode_ppm(1, 5, &pixels).is_some());
    assert!(encode_ppm(usize::MAX, 2, &pixels).is_none());
    assert_eq!(text(&encode_ppm(0, 0, &Vec::new()).unwrap()), "P3\n0 0\n255\n");
    assert_eq!(text(&encode_ppm(0, 9, &Vec::new()).unwrap()), "P3\n0 9\n255\n");
}

#[test]
fn background_of_an_empty_scene_fills_the_image() {
    let background: Color = Vec3::new(500, 700, 1000);
    let pixel = [to_byte(background.x()), to_byte(background.y()), to_byte(background.z())];
    assert_eq!(pixel, [181, 214, 255]);
    let camera = Camera::builder().with_aspect_ratio(2, 1).with_image_width(4).build();
    let total = camera.pixel_count().unwrap();
    assert_eq!(total, 8);
    let out = encode_ppm(camera.image_width, camera.image_height, &vec![pixel; total]).unwrap();
    let expected = format!("P3\n4 2\n255\n{}", "181 214 255\n".repeat(8));
    assert_eq!(text(&out), expected);
}

#[test]
fn pixel_coords_count_row_by_row() {
    assert_eq!(pixel_coords(0, 600), (0, 0));
    assert_eq!(pixel_coords(599, 600), (599, 0));
    assert_eq!(pixel_coords(600, 600), (0, 1));
    assert_eq!(pixel_coords(1234, 600), (34, 2));
    assert_eq!(pixel_coords(5, 1), (0, 5));
}

#[test]
fn pixel_index_is_the_inverse_of_pixel_coords() {
    for width in [1usize, 2, 7, 600] {
        for k in [0usize, 1, 5, 599, 600, 601, 123456] {
            let (i, j) = pixel_coords(k, width);
            assert!(i < width);
            assert_eq!(pixel_index(i, j, width), Some(k));
        }
    }
    assert_eq!(pixel_index(0, usize::MAX, 2), None);
    assert_eq!(pixel_index(1, usize::MAX, 1), None);
    assert_eq!(pixel_index(0, usize::MAX, 1), Some(usize::MAX));
}
